//! Text as sequences of characters: white space, words, joining, and the
//! alphabetical order of names.

use vstd::prelude::*;
use vstd::std_specs::iter::IteratorSpec;

verus! {

/// The characters that separate words: those with the Unicode property
/// `White_Space`.
pub open spec fn is_space(c: char) -> bool {
    let n = c as int;
    ||| 0x09 <= n <= 0x0D
    ||| n == 0x20
    ||| n == 0x85
    ||| n == 0xA0
    ||| n == 0x1680
    ||| 0x2000 <= n <= 0x200A
    ||| n == 0x2028
    ||| n == 0x2029
    ||| n == 0x202F
    ||| n == 0x205F
    ||| n == 0x3000
}

/// `char::is_whitespace` of the standard library, which is documented to
/// hold exactly of the characters with the Unicode property `White_Space`.
pub assume_specification[ char::is_whitespace ](c: char) -> (b: bool)
    ensures
        b == is_space(c),
;

/// `String::push` of the standard library, which appends one character.
pub assume_specification[ String::push ](s: &mut String, ch: char)
    ensures
        final(s)@ == old(s)@.push(ch),
;

/// A sequence holding `w` if `w` is a word, and nothing if `w` is empty.
pub open spec fn word_if_any(w: Seq<char>) -> Seq<Seq<char>> {
    if w.len() > 0 {
        seq![w]
    } else {
        seq![]
    }
}

/// The words of `s` when `open` holds the characters of a word begun just
/// before `s`.
pub open spec fn words_after(open: Seq<char>, s: Seq<char>) -> Seq<Seq<char>>
    decreases s.len(),
{
    if s.len() == 0 {
        word_if_any(open)
    } else if is_space(s[0]) {
        word_if_any(open) + words_after(seq![], s.drop_first())
    } else {
        words_after(open.push(s[0]), s.drop_first())
    }
}

/// The words of `s`: its maximal runs of characters that are not white
/// space, from left to right.
pub open spec fn words(s: Seq<char>) -> Seq<Seq<char>> {
    words_after(seq![], s)
}

/// The views of a vector of strings.
pub open spec fn texts(v: Seq<String>) -> Seq<Seq<char>> {
    v.map_values(|s: String| s@)
}

/// The views of a vector with one more string are the views of the vector
/// with one more view.
pub proof fn lemma_texts_push(v: Seq<String>, s: String)
    ensures
        texts(v.push(s)) == texts(v).push(s@),
{
    assert(texts(v.push(s)) =~= texts(v).push(s@));
}

/// Splits a line into its words.
pub fn split_words(line: &str) -> (out: Vec<String>)
    ensures
        texts(out@) == words(line@),
{
    let mut out: Vec<String> = Vec::new();
    let mut open = String::new();
    proof {
        assert(line@.skip(0) =~= line@);
        assert(texts(out@) + words(line@) =~= words(line@));
    }
    for c in it: line.chars()
        invariant
            it.seq() == line@,
            texts(out@) + words_after(open@, line@.skip(it.index() as int)) == words(line@),
    {
        let ghost rest = line@.skip(it.index() as int);
        let ghost before = texts(out@);
        proof {
            assert(rest.drop_first() =~= line@.skip(it.index() + 1));
            assert(rest[0] == c);
        }
        if c.is_whitespace() {
            if !open.as_str().is_empty() {
                proof {
                    assert(texts(out@.push(open)) =~= before + seq![open@]);
                    assert((before + seq![open@]) + words_after(seq![], rest.drop_first())
                        =~= before + (seq![open@] + words_after(seq![], rest.drop_first())));
                }
                out.push(open);
                open = String::new();
            } else {
                proof {
                    assert(open@ =~= seq![]);
                    assert(word_if_any(open@) + words_after(seq![], rest.drop_first())
                        =~= words_after(seq![], rest.drop_first()));
                }
            }
        } else {
            open.push(c);
        }
    }
    proof {
        assert(line@.skip(line@.len() as int).len() == 0);
    }
    if !open.as_str().is_empty() {
        proof {
            assert(texts(out@.push(open)) =~= texts(out@) + seq![open@]);
        }
        out.push(open);
    } else {
        proof {
            assert(texts(out@) + Seq::<Seq<char>>::empty() =~= texts(out@));
        }
    }
    out
}

/// Whether `s` begins with the character `c`.
pub open spec fn begins_with(s: Seq<char>, c: char) -> bool {
    s.len() > 0 && s[0] == c
}

/// Whether `s` begins with the character `c`.
pub fn starts_with_char(s: &str, c: char) -> (b: bool)
    ensures
        b == begins_with(s@, c),
{
    let mut it = s.chars();
    match it.next() {
        Some(first) => first == c,
        None => false,
    }
}

/// Alphabetical order: `a` comes strictly before `b` when, at the first
/// place where they differ, `a` has ended or holds the smaller character.
pub open spec fn precedes(a: Seq<char>, b: Seq<char>) -> bool
    decreases a.len(),
{
    if b.len() == 0 {
        false
    } else if a.len() == 0 {
        true
    } else if a[0] != b[0] {
        (a[0] as int) < (b[0] as int)
    } else {
        precedes(a.drop_first(), b.drop_first())
    }
}

/// Where one text stands relative to another in alphabetical order.
#[derive(Clone, Copy, Debug, PartialEq, Eq, Structural)]
pub enum Place {
    Before,
    Same,
    After,
}

/// Where `a` stands relative to `b`.
pub open spec fn place_of(a: Seq<char>, b: Seq<char>) -> Place {
    if a == b {
        Place::Same
    } else if precedes(a, b) {
        Place::Before
    } else {
        Place::After
    }
}

/// Two texts that begin with the same character stand to each other as
/// their remainders do.
pub proof fn lemma_place_of_step(a: Seq<char>, b: Seq<char>)
    requires
        a.len() > 0,
        b.len() > 0,
        a[0] == b[0],
    ensures
        place_of(a, b) == place_of(a.drop_first(), b.drop_first()),
{
    if a.drop_first() == b.drop_first() {
        assert(a =~= seq![a[0]] + a.drop_first());
        assert(b =~= seq![b[0]] + b.drop_first());
    }
}

/// No text comes before itself.
pub proof fn lemma_precedes_irreflexive(a: Seq<char>)
    ensures
        !precedes(a, a),
    decreases a.len(),
{
    if a.len() > 0 {
        lemma_precedes_irreflexive(a.drop_first());
    }
}

/// Alphabetical order is transitive.
pub proof fn lemma_precedes_transitive(a: Seq<char>, b: Seq<char>, c: Seq<char>)
    requires
        precedes(a, b),
        precedes(b, c),
    ensures
        precedes(a, c),
    decreases a.len(),
{
    if a.len() > 0 && a[0] == b[0] && b[0] == c[0] {
        lemma_precedes_transitive(a.drop_first(), b.drop_first(), c.drop_first());
    }
}

/// Of two different texts one comes before the other.
pub proof fn lemma_precedes_total(a: Seq<char>, b: Seq<char>)
    requires
        a != b,
    ensures
        precedes(a, b) || precedes(b, a),
    decreases a.len(),
{
    if a.len() > 0 && b.len() > 0 && a[0] == b[0] {
        if a.drop_first() == b.drop_first() {
            assert(a =~= seq![a[0]] + a.drop_first());
            assert(b =~= seq![b[0]] + b.drop_first());
        }
        lemma_precedes_total(a.drop_first(), b.drop_first());
    } else if a.len() == 0 && b.len() == 0 {
        assert(a =~= b);
    }
}

/// No two texts come before each other.
pub proof fn lemma_precedes_asymmetric(a: Seq<char>, b: Seq<char>)
    requires
        precedes(a, b),
    ensures
        !precedes(b, a),
        a != b,
{
    lemma_precedes_irreflexive(a);
    if precedes(b, a) {
        lemma_precedes_transitive(a, b, a);
    }
}

/// Finds where `a` stands relative to `b` in alphabetical order.
pub fn text_place(a: &str, b: &str) -> (p: Place)
    ensures
        p == place_of(a@, b@),
{
    let mut rest_a = a.chars();
    let mut rest_b = b.chars();
    loop
        invariant
            place_of(rest_a.remaining(), rest_b.remaining()) == place_of(a@, b@),
            rest_a.decrease() is Some,
        decreases rest_a.decrease()->0,
    {
        let ghost left = rest_a.remaining();
        let ghost right = rest_b.remaining();
        let next_a = rest_a.next();
        let next_b = rest_b.next();
        match (next_a, next_b) {
            (None, None) => {
                assert(left =~= right);
                return Place::Same;
            },
            (None, Some(_)) => {
                return Place::Before;
            },
            (Some(_), None) => {
                return Place::After;
            },
            (Some(x), Some(y)) => {
                if x != y {
                    if x < y {
                        return Place::Before;
                    } else {
                        return Place::After;
                    }
                }
                proof {
                    lemma_place_of_step(left, right);
                }
            },
        }
    }
}

/// Whether two texts are the same.
pub fn same_text(a: &str, b: &str) -> (same: bool)
    ensures
        same == (a@ == b@),
{
    match text_place(a, b) {
        Place::Same => true,
        _ => false,
    }
}

/// The `words` in order with `sep` between each two neighbours.
pub open spec fn joined(words: Seq<Seq<char>>, sep: Seq<char>) -> Seq<char>
    decreases words.len(),
{
    if words.len() == 0 {
        seq![]
    } else if words.len() == 1 {
        words[0]
    } else {
        joined(words.drop_last(), sep) + sep + words.last()
    }
}

/// Joins `words` with `sep` between each two neighbours.
pub fn join_words(words: &Vec<String>, sep: &str) -> (line: String)
    ensures
        line@ == joined(texts(words@), sep@),
{
    let mut line = String::new();
    let mut i: usize = 0;
    while i < words.len()
        invariant
            i <= words.len(),
            line@ == joined(texts(words@).take(i as int), sep@),
        decreases words.len() - i,
    {
        let ghost done = texts(words@).take(i as int);
        let ghost next = texts(words@).take(i + 1);
        proof {
            assert(next.drop_last() =~= done);
            assert(next.last() == words@[i as int]@);
        }
        if i > 0 {
            line.append(sep);
        } else {
            proof {
                assert(line@ + words@[0]@ =~= words@[0]@);
            }
        }
        line.append(words[i].as_str());
        i += 1;
    }
    proof {
        assert(texts(words@).take(words.len() as int) =~= texts(words@));
    }
    line
}

/// A word: at least one character and no white space.
pub open spec fn is_word(w: Seq<char>) -> bool {
    &&& w.len() > 0
    &&& forall|i: int| 0 <= i < w.len() ==> !is_space(#[trigger] w[i])
}

/// Characters that are no white space go on with the word that is open.
pub proof fn lemma_words_after_word(open: Seq<char>, w: Seq<char>)
    requires
        forall|i: int| 0 <= i < w.len() ==> !is_space(#[trigger] w[i]),
    ensures
        words_after(open, w) == word_if_any(open + w),
    decreases w.len(),
{
    if w.len() == 0 {
        assert(open + w =~= open);
    } else {
        assert forall|i: int| 0 <= i < w.drop_first().len() implies !is_space(
            #[trigger] w.drop_first()[i],
        ) by {
            assert(w.drop_first()[i] == w[i + 1]);
        }
        lemma_words_after_word(open.push(w[0]), w.drop_first());
        assert(open.push(w[0]) + w.drop_first() =~= open + w);
    }
}

/// A blank and a word at the end of a text add that word to its words.
pub proof fn lemma_words_after_push_word(open: Seq<char>, s: Seq<char>, w: Seq<char>)
    requires
        is_word(w),
    ensures
        words_after(open, s + seq![' '] + w) == words_after(open, s) + seq![w],
    decreases s.len(),
{
    let whole = s + seq![' '] + w;
    if s.len() == 0 {
        assert(whole.drop_first() =~= w);
        assert(is_space(whole[0]));
        lemma_words_after_word(seq![], w);
        assert(Seq::<char>::empty() + w =~= w);
    } else {
        assert(whole[0] == s[0]);
        assert(whole.drop_first() =~= s.drop_first() + seq![' '] + w);
        if is_space(s[0]) {
            lemma_words_after_push_word(seq![], s.drop_first(), w);
            assert(word_if_any(open) + (words_after(seq![], s.drop_first()) + seq![w])
                =~= (word_if_any(open) + words_after(seq![], s.drop_first())) + seq![w]);
        } else {
            lemma_words_after_push_word(open.push(s[0]), s.drop_first(), w);
        }
    }
}

/// Words that are joined by blanks are the words of what they make.
pub proof fn lemma_words_of_joined(list: Seq<Seq<char>>)
    requires
        forall|i: int| 0 <= i < list.len() ==> is_word(#[trigger] list[i]),
    ensures
        words(joined(list, seq![' '])) == list,
    decreases list.len(),
{
    if list.len() == 0 {
        assert(list =~= Seq::<Seq<char>>::empty());
    } else if list.len() == 1 {
        assert(is_word(list[0]));
        lemma_words_after_word(seq![], list[0]);
        assert(Seq::<char>::empty() + list[0] =~= list[0]);
        assert(list =~= seq![list[0]]);
    } else {
        let before = list.drop_last();
        assert forall|i: int| 0 <= i < before.len() implies is_word(#[trigger] before[i]) by {
            assert(before[i] == list[i]);
        }
        assert(is_word(list[list.len() - 1]));
        lemma_words_of_joined(before);
        lemma_words_after_push_word(seq![], joined(before, seq![' ']), list.last());
        assert(before + seq![list.last()] =~= list);
    }
}

/// Whether `s` begins with `prefix`.
pub fn starts_with_text(s: &str, prefix: &str) -> (yes: bool)
    ensures
        yes == prefix@.is_prefix_of(s@),
{
    let mut rest = s.chars();
    let mut rest_prefix = prefix.chars();
    let ghost mut done: int = 0;
    loop
        invariant
            0 <= done <= s@.len(),
            done <= prefix@.len(),
            rest.remaining() == s@.skip(done),
            rest_prefix.remaining() == prefix@.skip(done),
            s@.take(done) == prefix@.take(done),
            rest_prefix.decrease() is Some,
        decreases rest_prefix.decrease()->0,
    {
        let next_prefix = rest_prefix.next();
        let next = rest.next();
        match (next_prefix, next) {
            (None, _) => {
                proof {
                    assert(prefix@.take(done) =~= prefix@);
                    assert(s@.take(done) =~= s@.subrange(0, prefix@.len() as int));
                }
                return true;
            },
            (Some(_), None) => {
                return false;
            },
            (Some(p), Some(c)) => {
                proof {
                    assert(s@.skip(done)[0] == s@[done]);
                    assert(prefix@.skip(done)[0] == prefix@[done]);
                }
                if p != c {
                    proof {
                        if prefix@.is_prefix_of(s@) {
                            assert(s@.subrange(0, prefix@.len() as int)[done] == prefix@[done]);
                        }
                    }
                    return false;
                }
                proof {
                    assert(s@.take(done + 1) =~= s@.take(done).push(c));
                    assert(prefix@.take(done + 1) =~= prefix@.take(done).push(p));
                    assert(s@.skip(done).drop_first() =~= s@.skip(done + 1));
                    assert(prefix@.skip(done).drop_first() =~= prefix@.skip(done + 1));
                    done = done + 1;
                }
            },
        }
    }
}

/// The text `s` from its character at place `from` on; nothing if it is
/// shorter than that.
pub fn text_from(s: &str, from: usize) -> (rest: String)
    ensures
        rest@ == if from <= s@.len() {
            s@.skip(from as int)
        } else {
            Seq::<char>::empty()
        },
{
    let mut out = String::new();
    let mut left_out: usize = from;
    for c in it: s.chars()
        invariant
            it.seq() == s@,
            left_out == if from <= it.index() {
                0
            } else {
                from - it.index()
            },
            out@ == if from <= it.index() {
                s@.subrange(from as int, it.index() as int)
            } else {
                Seq::<char>::empty()
            },
    {
        if left_out == 0 {
            proof {
                assert(s@.subrange(from as int, it.index() + 1) =~= s@.subrange(
                    from as int,
                    it.index() as int,
                ).push(c));
            }
            out.push(c);
        } else {
            left_out = left_out - 1;
            proof {
                if from <= it.index() + 1 {
                    assert(s@.subrange(from as int, it.index() + 1) =~= Seq::<char>::empty());
                }
            }
        }
    }
    proof {
        if from <= s@.len() {
            assert(s@.subrange(from as int, s@.len() as int) =~= s@.skip(from as int));
        }
    }
    out
}

/// `name` with blanks after it, so that it has `width` characters at
/// least.
pub open spec fn padded(name: Seq<char>, width: int) -> Seq<char> {
    if name.len() >= width {
        name
    } else {
        name + Seq::new((width - name.len()) as nat, |i: int| ' ')
    }
}

/// Appends `name` and blanks after it, so that `width` characters at least
/// are appended.
pub fn push_padded(text: &mut String, name: &str, width: usize)
    ensures
        final(text)@ == old(text)@ + padded(name@, width as int),
{
    let ghost before = text@;
    let mut missing: usize = width;
    text.append(name);
    for c in it: name.chars()
        invariant
            it.seq() == name@,
            missing == if it.index() <= width {
                width - it.index()
            } else {
                0
            },
            text@ == before + name@,
    {
        if missing > 0 {
            missing = missing - 1;
        }
    }
    let ghost mut added: int = 0;
    while missing > 0
        invariant
            0 <= added,
            name@.len() < width ==> missing + added == width - name@.len(),
            name@.len() >= width ==> missing == 0 && added == 0,
            text@ == before + name@ + Seq::new(added as nat, |i: int| ' '),
        decreases missing,
    {
        text.push(' ');
        missing = missing - 1;
        proof {
            assert(Seq::new(added as nat, |i: int| ' ').push(' ') =~= Seq::new(
                (added + 1) as nat,
                |i: int| ' ',
            ));
            added = added + 1;
        }
    }
    proof {
        if name@.len() >= width {
            assert(before + name@ + Seq::new(0nat, |i: int| ' ') =~= before + name@);
        } else {
            assert(before + name@ + Seq::new(added as nat, |i: int| ' ') =~= before + (name@
                + Seq::new((width - name@.len()) as nat, |i: int| ' ')));
        }
    }
}

} // verus!
