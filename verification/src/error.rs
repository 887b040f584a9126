//! The errors that the library reports.

use crate::text::{joined, lemma_texts_push, texts};
use vstd::prelude::*;

verus! {

/// What went wrong.
#[derive(Debug)]
pub enum TTErrorKind {
    /// The command was used in a way that makes no sense.
    UsageError(&'static str),
    /// The file of known activities is malformed.
    ActivityConfigError(&'static str),
    /// A log line is malformed: the message, and the offending line.
    ParseError(&'static str, String),
}

/// An error together with notes on what was being done when it arose.
#[derive(Debug)]
pub struct TTError {
    pub kind: TTErrorKind,
    pub context: Vec<String>,
}

impl TTError {
    /// An error of the given kind without any notes.
    pub fn new(kind: TTErrorKind) -> (error: TTError)
        ensures
            error.kind == kind,
            error.context@ == Seq::<String>::empty(),
    {
        TTError { kind, context: Vec::new() }
    }

    /// The same error with one more note, after those it already has.
    pub fn context(self, str: String) -> (error: TTError)
        ensures
            error.kind == self.kind,
            error.context@ == self.context@.push(str),
    {
        let TTError { kind, mut context } = self;
        context.push(str);
        TTError { kind, context }
    }
}

/// What the kind of an error says.
pub open spec fn kind_text(kind: TTErrorKind) -> Seq<char> {
    match kind {
        TTErrorKind::UsageError(s) => "Usage error: "@ + s@,
        TTErrorKind::ActivityConfigError(s) => "activity file error: "@ + s@,
        TTErrorKind::ParseError(message, line) => "parse error: "@ + message@ + " at: "@ + line@,
    }
}

/// The notes of an error as they are shown, each after the word `while`.
pub open spec fn notes(context: Seq<Seq<char>>) -> Seq<Seq<char>> {
    context.map_values(|note: Seq<char>| "while "@ + note)
}

/// What an error says: what its kind says, and on the lines after that
/// its notes.
pub open spec fn error_text(error: TTError) -> Seq<char> {
    kind_text(error.kind) + if error.context@.len() > 0 {
        "\n"@
    } else {
        Seq::empty()
    } + joined(notes(texts(error.context@)), "\n"@)
}

impl TTError {
    /// What the error says.
    pub fn to_string(&self) -> (text: String)
        ensures
            text@ == error_text(*self),
    {
        let mut text = match &self.kind {
            TTErrorKind::UsageError(s) => {
                let mut text = String::from_str("Usage error: ");
                text.append(s);
                text
            },
            TTErrorKind::ActivityConfigError(s) => {
                let mut text = String::from_str("activity file error: ");
                text.append(s);
                text
            },
            TTErrorKind::ParseError(message, line) => {
                let mut text = String::from_str("parse error: ");
                text.append(message);
                text.append(" at: ");
                text.append(line.as_str());
                text
            },
        };
        if self.context.len() > 0 {
            text.append("\n");
        }
        let mut lines: Vec<String> = Vec::new();
        let mut i: usize = 0;
        proof {
            assert(texts(lines@) =~= notes(texts(self.context@)).take(0));
        }
        while i < self.context.len()
            invariant
                i <= self.context.len(),
                texts(lines@) == notes(texts(self.context@)).take(i as int),
            decreases self.context.len() - i,
        {
            let mut line = String::from_str("while ");
            line.append(self.context[i].as_str());
            proof {
                lemma_texts_push(lines@, line);
                assert(notes(texts(self.context@)).take(i as int).push(line@) =~= notes(
                    texts(self.context@),
                ).take(i + 1));
            }
            lines.push(line);
            i += 1;
        }
        proof {
            assert(notes(texts(self.context@)).take(self.context.len() as int) =~= notes(
                texts(self.context@),
            ));
        }
        text.append(crate::text::join_words(&lines, "\n").as_str());
        text
    }
}

} // verus!
