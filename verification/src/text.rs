//! Texts as sequences of characters: white space, and the replacement of one
//! text in another.

use vstd::prelude::*;
use vstd::string::StringExecFns;

verus! {

/// `String::push` appends one character to the end of the string.
pub assume_specification[ String::push ](s: &mut String, ch: char)
    ensures
        final(s)@ == old(s)@.push(ch),
;

/// Whether `c` is white space: one of the code points that carry the Unicode
/// property of that name.
pub open spec fn is_space(c: char) -> bool {
    ||| '\u{9}' <= c <= '\u{d}'
    ||| c == ' '
    ||| c == '\u{85}'
    ||| c == '\u{a0}'
    ||| c == '\u{1680}'
    ||| '\u{2000}' <= c <= '\u{200a}'
    ||| c == '\u{2028}'
    ||| c == '\u{2029}'
    ||| c == '\u{202f}'
    ||| c == '\u{205f}'
    ||| c == '\u{3000}'
}

/// Whether `c` is white space.
pub fn is_whitespace(c: char) -> (r: bool)
    ensures
        r == is_space(c),
{
    ('\u{9}' <= c && c <= '\u{d}') || c == ' ' || c == '\u{85}' || c == '\u{a0}' || c == '\u{1680}'
        || ('\u{2000}' <= c && c <= '\u{200a}') || c == '\u{2028}' || c == '\u{2029}' || c
        == '\u{202f}' || c == '\u{205f}' || c == '\u{3000}'
}

/// What a list of strings holds: the characters of each, in order.
pub open spec fn views(strings: Seq<String>) -> Seq<Seq<char>> {
    Seq::new(strings.len(), |i: int| strings[i]@)
}

/// The characters of `s`, in order.
pub fn chars_of(s: &str) -> (r: Vec<char>)
    ensures
        r@ == s@,
{
    let mut out: Vec<char> = Vec::new();
    for c in it: s.chars()
        invariant
            out@ == it.seq().take(it.index() as int),
            it.seq() == s@,
    {
        out.push(c);
    }
    out
}

/// The string made of the characters `chars[from..to]`.
pub fn string_of(chars: &Vec<char>, from: usize, to: usize) -> (r: String)
    requires
        from <= to <= chars.len(),
    ensures
        r@ == chars@.subrange(from as int, to as int),
{
    let mut out = String::new();
    let mut i: usize = from;
    while i < to
        invariant
            from <= i <= to <= chars.len(),
            out@ == chars@.subrange(from as int, i as int),
        decreases to - i,
    {
        out.push(chars[i]);
        i = i + 1;
    }
    out
}

/// Whether `pattern` stands in `text` at position `at`.
pub open spec fn occurs_at(text: Seq<char>, pattern: Seq<char>, at: int) -> bool {
    &&& 0 <= at
    &&& at + pattern.len() <= text.len()
    &&& text.subrange(at, at + pattern.len()) == pattern
}

/// Whether `pattern` stands somewhere in `text`.
pub open spec fn occurs_in(text: Seq<char>, pattern: Seq<char>) -> bool {
    exists|at: int| occurs_at(text, pattern, at)
}

/// `text` with the occurrences of `pattern` replaced by `by`. The occurrences
/// are taken from left to right, each starting behind the end of the one
/// before it, and what has been put in is not searched again. An empty
/// pattern occurs nowhere.
pub open spec fn replaced(text: Seq<char>, pattern: Seq<char>, by: Seq<char>) -> Seq<char>
    decreases text.len(),
{
    if text.len() == 0 || pattern.len() == 0 {
        text
    } else if occurs_at(text, pattern, 0) {
        by + replaced(text.skip(pattern.len() as int), pattern, by)
    } else {
        seq![text[0]] + replaced(text.skip(1), pattern, by)
    }
}

/// A text in which the pattern does not occur stays as it is.
pub proof fn lemma_replaced_absent(text: Seq<char>, pattern: Seq<char>, by: Seq<char>)
    requires
        !occurs_in(text, pattern),
    ensures
        replaced(text, pattern, by) == text,
    decreases text.len(),
{
    if text.len() > 0 && pattern.len() > 0 {
        let rest = text.skip(1);
        assert(!occurs_at(text, pattern, 0));
        assert forall|at: int| !occurs_at(rest, pattern, at) by {
            if occurs_at(rest, pattern, at) {
                assert(text.subrange(at + 1, at + 1 + pattern.len()) =~= rest.subrange(
                    at,
                    at + pattern.len(),
                ));
                assert(occurs_at(text, pattern, at + 1));
            }
        }
        lemma_replaced_absent(rest, pattern, by);
        assert(seq![text[0]] + rest =~= text);
    }
}

/// The first occurrence of the pattern gives way to the replacement, what
/// stands before it stays, and what stands behind it is replaced in turn: so
/// every occurrence is replaced, from left to right.
pub proof fn lemma_replaced_first(
    before: Seq<char>,
    pattern: Seq<char>,
    after: Seq<char>,
    by: Seq<char>,
)
    requires
        pattern.len() > 0,
        forall|at: int|
            0 <= at < before.len() ==> !occurs_at(before + pattern + after, pattern, at),
    ensures
        replaced(before + pattern + after, pattern, by) == before + by + replaced(
            after,
            pattern,
            by,
        ),
    decreases before.len(),
{
    let text = before + pattern + after;
    if before.len() == 0 {
        assert(text.subrange(0, pattern.len() as int) =~= pattern);
        assert(text.skip(pattern.len() as int) =~= after);
        assert(before + by + replaced(after, pattern, by) =~= by + replaced(after, pattern, by));
    } else {
        let shorter = before.drop_first();
        assert(!occurs_at(text, pattern, 0));
        assert(text.skip(1) =~= shorter + pattern + after);
        assert forall|at: int| 0 <= at < shorter.len() implies !occurs_at(
            shorter + pattern + after,
            pattern,
            at,
        ) by {
            if occurs_at(shorter + pattern + after, pattern, at) {
                assert(text.subrange(at + 1, at + 1 + pattern.len()) =~= (shorter + pattern
                    + after).subrange(at, at + pattern.len()));
                assert(occurs_at(text, pattern, at + 1));
            }
        }
        lemma_replaced_first(shorter, pattern, after, by);
        assert(seq![text[0]] + (shorter + by + replaced(after, pattern, by)) =~= before + by
            + replaced(after, pattern, by));
    }
}

/// Whether `pattern` stands in `text` at position `at`.
pub fn matches_at(text: &Vec<char>, pattern: &Vec<char>, at: usize) -> (r: bool)
    ensures
        r == occurs_at(text@, pattern@, at as int),
{
    if at > text.len() || pattern.len() > text.len() - at {
        return false;
    }
    let mut k: usize = 0;
    while k < pattern.len()
        invariant
            at + pattern.len() <= text.len(),
            k <= pattern.len(),
            text@.subrange(at as int, at + k) == pattern@.take(k as int),
        decreases pattern.len() - k,
    {
        if text[at + k] != pattern[k] {
            assert(text@.subrange(at as int, at + pattern.len())[k as int] != pattern@[k as int]);
            return false;
        }
        assert(text@.subrange(at as int, at + k + 1) =~= text@.subrange(at as int, at + k).push(
            text@[at + k],
        ));
        assert(pattern@.take(k + 1) =~= pattern@.take(k as int).push(pattern@[k as int]));
        k = k + 1;
    }
    assert(pattern@.take(k as int) =~= pattern@);
    true
}

/// `text` with every occurrence of `pattern` replaced by `by`.
pub fn replace_all(text: &str, pattern: &str, by: &str) -> (r: String)
    ensures
        r@ == replaced(text@, pattern@, by@),
{
    let t = chars_of(text);
    let p = chars_of(pattern);
    let mut out = String::new();
    let mut at: usize = 0;
    assert(t@.skip(0) =~= t@);
    while at < t.len()
        invariant
            t@ == text@,
            p@ == pattern@,
            at <= t.len(),
            replaced(text@, pattern@, by@) == out@ + replaced(t@.skip(at as int), p@, by@),
        decreases t.len() - at,
    {
        let ghost rest = t@.skip(at as int);
        assert(rest.len() > 0);
        if p.len() > 0 && matches_at(&t, &p, at) {
            assert(rest.subrange(0, p@.len() as int) =~= t@.subrange(at as int, at + p@.len()));
            assert(occurs_at(rest, p@, 0));
            assert(rest.skip(p@.len() as int) =~= t@.skip(at + p@.len()));
            assert(out@ + (by@ + replaced(rest.skip(p@.len() as int), p@, by@)) =~= (out@ + by@)
                + replaced(rest.skip(p@.len() as int), p@, by@));
            out.append(by);
            at = at + p.len();
        } else {
            if p.len() > 0 {
                assert(!occurs_at(rest, p@, 0)) by {
                    if occurs_at(rest, p@, 0) {
                        assert(rest.subrange(0, p@.len() as int) =~= t@.subrange(
                            at as int,
                            at + p@.len(),
                        ));
                    }
                }
            }
            assert(rest.skip(1) =~= t@.skip(at + 1));
            assert(rest[0] == t@[at as int]);
            assert(out@ + (seq![rest[0]] + replaced(rest.skip(1), p@, by@)) =~= out@.push(rest[0])
                + replaced(rest.skip(1), p@, by@));
            out.push(t[at]);
            at = at + 1;
        }
    }
    assert(out@ + Seq::<char>::empty() =~= out@);
    out
}

} // verus!
