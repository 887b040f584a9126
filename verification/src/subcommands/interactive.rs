//! The dialogue with the user: what an answer asks for.

use crate::log_parser::{distributable_name, is_distributable, BlockData, BlockDataView};
use crate::subcommands::add::{known, ActivityMap};
use crate::text::{lemma_texts_push, same_text, texts};
use crate::time::Time;
use crate::utils::{count_reading, is_digit, parse_count};
use vstd::prelude::*;

verus! {

/// What an answer asks for.
#[derive(Debug, PartialEq, Eq)]
pub enum Choice {
    /// Log the configured activity with this number.
    Number(usize),
    /// The answer begins like a number but is none.
    Unclear,
    /// Resume an earlier activity.
    Resume,
    /// Edit the log.
    EditLog,
    /// Edit the list of known activities.
    EditActivities,
    /// Log this activity with these tags.
    Add(BlockData),
    /// Show the activities of the day to pick one.
    DayList,
}

/// What a `Choice` holds.
pub enum ChoiceView {
    Number(usize),
    Unclear,
    Resume,
    EditLog,
    EditActivities,
    Add(BlockDataView),
    DayList,
}

impl View for Choice {
    type V = ChoiceView;

    open spec fn view(&self) -> ChoiceView {
        match *self {
            Choice::Number(n) => ChoiceView::Number(n),
            Choice::Unclear => ChoiceView::Unclear,
            Choice::Resume => ChoiceView::Resume,
            Choice::EditLog => ChoiceView::EditLog,
            Choice::EditActivities => ChoiceView::EditActivities,
            Choice::Add(data) => ChoiceView::Add(data@),
            Choice::DayList => ChoiceView::DayList,
        }
    }
}

/// The parts of `s` between its blanks, when `open` holds the characters
/// of a part begun just before `s`. There is one part more than there are
/// blanks, and a part may be empty.
pub open spec fn parts_after(open: Seq<char>, s: Seq<char>) -> Seq<Seq<char>>
    decreases s.len(),
{
    if s.len() == 0 {
        seq![open]
    } else if s[0] == ' ' {
        seq![open] + parts_after(seq![], s.drop_first())
    } else {
        parts_after(open.push(s[0]), s.drop_first())
    }
}

/// The parts of `s` between its blanks.
pub open spec fn parts(s: Seq<char>) -> Seq<Seq<char>> {
    parts_after(seq![], s)
}

/// Splits a text at each of its blanks.
pub fn split_at_blanks(s: &str) -> (out: Vec<String>)
    ensures
        texts(out@) == parts(s@),
        out.len() > 0,
{
    let mut out: Vec<String> = Vec::new();
    let mut open = String::new();
    proof {
        assert(s@.skip(0) =~= s@);
        assert(texts(out@) + parts(s@) =~= parts(s@));
    }
    for c in it: s.chars()
        invariant
            it.seq() == s@,
            texts(out@) + parts_after(open@, s@.skip(it.index() as int)) == parts(s@),
    {
        let ghost rest = s@.skip(it.index() as int);
        let ghost before = texts(out@);
        proof {
            assert(rest.drop_first() =~= s@.skip(it.index() + 1));
            assert(rest[0] == c);
        }
        if c == ' ' {
            proof {
                lemma_texts_push(out@, open);
                assert(before.push(open@) + parts_after(seq![], rest.drop_first()) =~= before + (
                seq![open@] + parts_after(seq![], rest.drop_first())));
            }
            out.push(open);
            open = String::new();
        } else {
            open.push(c);
        }
    }
    proof {
        assert(s@.skip(s@.len() as int).len() == 0);
        lemma_texts_push(out@, open);
        assert(texts(out@).push(open@) =~= texts(out@) + seq![open@]);
    }
    out.push(open);
    out
}

/// What the answer `cmd`, given at `now`, asks for: a digit begins the
/// number of a configured activity; `r` asks to resume, `e` to edit the
/// log, `a` to edit the list of known activities; `+` or `_` begins an
/// activity to log, followed by its tags after single blanks; and
/// anything else asks for the activities of the day.
pub open spec fn choice_of(cmd: Seq<char>, now: int) -> ChoiceView {
    if cmd.len() == 0 {
        ChoiceView::DayList
    } else if is_digit(cmd[0]) {
        match count_reading(cmd) {
            Some(n) => ChoiceView::Number(n as usize),
            None => ChoiceView::Unclear,
        }
    } else if cmd[0] == 'r' {
        ChoiceView::Resume
    } else if cmd[0] == 'e' {
        ChoiceView::EditLog
    } else if cmd[0] == 'a' {
        ChoiceView::EditActivities
    } else if cmd[0] == '+' || cmd[0] == '_' {
        ChoiceView::Add(
            BlockDataView {
                start: now,
                activity: parts(cmd)[0],
                tags: parts(cmd).skip(1),
                distribute: distributable_name(parts(cmd)[0]),
            },
        )
    } else {
        ChoiceView::DayList
    }
}

/// Tells what an answer asks for.
pub fn interpret(cmd: &str, now: Time) -> (choice: Choice)
    ensures
        choice@ == choice_of(cmd@, now@),
{
    let mut chars = cmd.chars();
    let first = match chars.next() {
        Some(c) => c,
        None => {
            return Choice::DayList;
        },
    };
    if '0' <= first && first <= '9' {
        match parse_count(cmd) {
            Some(n) => Choice::Number(n),
            None => Choice::Unclear,
        }
    } else if first == 'r' {
        Choice::Resume
    } else if first == 'e' {
        Choice::EditLog
    } else if first == 'a' {
        Choice::EditActivities
    } else if first == '+' || first == '_' {
        let mut words = split_at_blanks(cmd);
        let mut activity = String::new();
        words.set_and_swap(0, &mut activity);
        let ghost all = texts(words@);
        let mut tags: Vec<String> = Vec::new();
        let mut i: usize = 1;
        while i < words.len()
            invariant
                1 <= i <= words.len(),
                texts(tags@) == texts(words@).subrange(1, i as int),
            decreases words.len() - i,
        {
            let tag = words[i].clone();
            proof {
                lemma_texts_push(tags@, tag);
                assert(texts(words@).subrange(1, i as int).push(tag@) =~= texts(words@).subrange(
                    1,
                    i + 1,
                ));
            }
            tags.push(tag);
            i += 1;
        }
        proof {
            assert(texts(words@).subrange(1, words.len() as int) =~= parts(cmd@).skip(1));
        }
        let distribute = is_distributable(activity.as_str());
        Choice::Add(BlockData { start: now, activity, tags, distribute })
    } else {
        Choice::DayList
    }
}

/// The shortnames of a list of known activities in alphabetical order:
/// the names that stand for an activity of another name.
pub open spec fn shortnames_in(list: Seq<(Seq<char>, (String, Vec<String>))>) -> Seq<Seq<char>>
    decreases list.len(),
{
    if list.len() == 0 {
        seq![]
    } else if list.last().0 != (list.last().1).0@ {
        shortnames_in(list.drop_last()).push(list.last().0)
    } else {
        shortnames_in(list.drop_last())
    }
}

/// The configured shortnames, which the user picks by their place in this
/// list.
pub fn configured_shortnames(activity_map: &ActivityMap) -> (names: Vec<String>)
    ensures
        texts(names@) == shortnames_in(activity_map.list()),
{
    let mut names: Vec<String> = Vec::new();
    let n = activity_map.len();
    let mut i: usize = 0;
    proof {
        assert(activity_map.list().take(0) =~= Seq::empty());
        assert(texts(names@) =~= Seq::<Seq<char>>::empty());
    }
    while i < n
        invariant
            i <= n,
            n == activity_map.list().len(),
            texts(names@) == shortnames_in(activity_map.list().take(i as int)),
        decreases n - i,
    {
        proof {
            assert(activity_map.list().take(i + 1).drop_last() =~= activity_map.list().take(
                i as int,
            ));
            assert(activity_map.list().take(i + 1).last() == activity_map.list()[i as int]);
        }
        let name = activity_map.name_at(i);
        let entry = activity_map.value_at(i);
        if !same_text(name.as_str(), entry.0.as_str()) {
            let copy = name.clone();
            proof {
                lemma_texts_push(names@, copy);
            }
            names.push(copy);
        }
        i += 1;
    }
    proof {
        assert(activity_map.list().take(n as int) =~= activity_map.list());
    }
    names
}

} // verus!
