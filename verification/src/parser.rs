//! The splitting of a command line into the program and its arguments.

use crate::text::{chars_of, is_space, is_whitespace, views};
use vstd::prelude::*;

verus! {

/// Where the scanner stands relative to the arguments of a command line.
#[derive(Clone, Copy, Debug, PartialEq, Eq, Structural)]
pub enum Mode {
    /// Between two arguments.
    Normal,
    /// Inside an unquoted run of an argument.
    InWord,
    /// Inside a pair of double quotes.
    Quoted,
}

/// The scanner's state: the arguments that are complete, and the one under
/// construction.
pub struct Scanner {
    pub mode: Mode,
    /// The arguments emitted so far, in order.
    pub finished: Seq<Seq<char>>,
    /// The characters collected for the argument under construction.
    pub pending: Seq<char>,
    /// Whether an argument is under construction. An argument opened by a
    /// quote counts even while `pending` is empty.
    pub open: bool,
}

/// The scanner before the first character.
pub open spec fn start() -> Scanner {
    Scanner { mode: Mode::Normal, finished: Seq::empty(), pending: Seq::empty(), open: false }
}

/// Whether the character at `at` is a backslash that escapes the character
/// behind it. A backslash between quotes escapes nothing, and neither does
/// one at the very end of the text.
pub open spec fn escapes(sc: Scanner, text: Seq<char>, at: int) -> bool {
    sc.mode != Mode::Quoted && text[at] == '\\' && at + 1 < text.len()
}

/// How many characters one step at `at` reads: an escape reads two.
pub open spec fn width(sc: Scanner, text: Seq<char>, at: int) -> int {
    if escapes(sc, text, at) {
        2
    } else {
        1
    }
}

/// The scanner after the step that starts at the character `at`.
pub open spec fn step(sc: Scanner, text: Seq<char>, at: int) -> Scanner
    recommends
        0 <= at < text.len(),
{
    let c = text[at];
    match sc.mode {
        Mode::Quoted => if c == '"' {
            Scanner { mode: Mode::InWord, ..sc }
        } else {
            Scanner { pending: sc.pending.push(c), ..sc }
        },
        Mode::Normal => if c == '\\' {
            if at + 1 < text.len() {
                Scanner { pending: sc.pending.push(text[at + 1]), open: true, ..sc }
            } else {
                sc
            }
        } else if c == '"' {
            Scanner { mode: Mode::Quoted, open: true, ..sc }
        } else if is_space(c) {
            sc
        } else {
            Scanner { mode: Mode::InWord, pending: sc.pending.push(c), open: true, ..sc }
        },
        Mode::InWord => if c == '\\' {
            if at + 1 < text.len() {
                Scanner { pending: sc.pending.push(text[at + 1]), ..sc }
            } else {
                sc
            }
        } else if c == '"' {
            Scanner { mode: Mode::Quoted, ..sc }
        } else if is_space(c) {
            Scanner {
                mode: Mode::Normal,
                finished: sc.finished.push(sc.pending),
                pending: Seq::empty(),
                open: false,
            }
        } else {
            Scanner { pending: sc.pending.push(c), ..sc }
        },
    }
}

/// The arguments once the text has ended: an argument under construction is
/// emitted as it stands, also where its closing quote is missing.
pub open spec fn flushed(sc: Scanner) -> Seq<Seq<char>> {
    if sc.open {
        sc.finished.push(sc.pending)
    } else {
        sc.finished
    }
}

/// The arguments that the scanner yields when it goes on from `at` to the end
/// of the text.
pub open spec fn scan_from(sc: Scanner, text: Seq<char>, at: int) -> Seq<Seq<char>>
    decreases text.len() - at,
{
    if at < 0 || at >= text.len() {
        flushed(sc)
    } else {
        scan_from(step(sc, text, at), text, at + width(sc, text, at))
    }
}

/// The arguments of a command line.
///
/// Arguments are separated by white space. A pair of double quotes holds
/// characters that are taken as they are, white space and backslashes included.
/// Outside quotes a backslash takes the character behind it as it is. Quoted
/// and unquoted runs that touch belong to one argument.
pub open spec fn tokens(text: Seq<char>) -> Seq<Seq<char>> {
    scan_from(start(), text, 0)
}

/// Splits a command line into the program's name and its arguments.
///
/// Never fails: a quote that is not closed ends with the text, and a backslash
/// with nothing behind it is dropped.
pub fn parse_command(command: &str) -> (parts: Vec<String>)
    ensures
        views(parts@) == tokens(command@),
{
    let text = chars_of(command);
    let mut parts: Vec<String> = Vec::new();
    let mut pending = String::new();
    let mut mode = Mode::Normal;
    let mut open = false;
    let mut at: usize = 0;
    assert(views(parts@) =~= Seq::<Seq<char>>::empty());
    while at < text.len()
        invariant
            text@ == command@,
            at <= text.len() + 1,
            scan_from(
                Scanner { mode, finished: views(parts@), pending: pending@, open },
                text@,
                at as int,
            ) == tokens(command@),
        decreases text.len() + 1 - at,
    {
        let ghost before = Scanner { mode, finished: views(parts@), pending: pending@, open };
        let c = text[at];
        let escaping = c == '\\' && at + 1 < text.len();
        let mut read: usize = 1;
        match mode {
            Mode::Quoted => {
                if c == '"' {
                    mode = Mode::InWord;
                } else {
                    pending.push(c);
                }
            },
            Mode::Normal => {
                if c == '\\' {
                    if escaping {
                        pending.push(text[at + 1]);
                        open = true;
                        read = 2;
                    }
                } else if c == '"' {
                    mode = Mode::Quoted;
                    open = true;
                } else if !is_whitespace(c) {
                    pending.push(c);
                    mode = Mode::InWord;
                    open = true;
                }
            },
            Mode::InWord => {
                if c == '\\' {
                    if escaping {
                        pending.push(text[at + 1]);
                        read = 2;
                    }
                } else if c == '"' {
                    mode = Mode::Quoted;
                } else if is_whitespace(c) {
                    let ghost old_parts = parts@;
                    parts.push(pending);
                    pending = String::new();
                    mode = Mode::Normal;
                    open = false;
                    assert(views(parts@) =~= views(old_parts).push(before.pending));
                } else {
                    pending.push(c);
                }
            },
        }
        assert(Scanner { mode, finished: views(parts@), pending: pending@, open } == step(
            before,
            text@,
            at as int,
        ));
        assert(read == width(before, text@, at as int));
        at = at + read;
    }
    if open {
        let ghost old_parts = parts@;
        parts.push(pending);
        assert(views(parts@) =~= views(old_parts).push(pending@));
    }
    parts
}

/// Whether a character stands for itself in a word: it is no white space, no
/// quote and no backslash.
pub open spec fn is_plain(c: char) -> bool {
    !is_space(c) && c != '"' && c != '\\'
}

/// Whether every character of a text is plain.
pub open spec fn all_plain(text: Seq<char>) -> bool {
    forall|i: int| 0 <= i < text.len() ==> is_plain(#[trigger] text[i])
}

/// How many characters stand before the first white space of a text.
pub open spec fn word_length(text: Seq<char>) -> nat
    decreases text.len(),
{
    if text.len() == 0 || is_space(text[0]) {
        0
    } else {
        1 + word_length(text.drop_first())
    }
}

/// The words of a text: its longest runs of characters that are not white
/// space, in order.
pub open spec fn words(text: Seq<char>) -> Seq<Seq<char>>
    decreases text.len(),
    via words_decreases
{
    if text.len() == 0 {
        Seq::empty()
    } else if is_space(text[0]) {
        words(text.drop_first())
    } else {
        let length = word_length(text);
        seq![text.take(length as int)] + words(text.skip(length as int))
    }
}

#[via_fn]
proof fn words_decreases(text: Seq<char>) {
    lemma_word_length(text);
}

/// A word is no longer than the text that it starts.
proof fn lemma_word_length(text: Seq<char>)
    ensures
        word_length(text) <= text.len(),
    decreases text.len(),
{
    if text.len() > 0 && !is_space(text[0]) {
        lemma_word_length(text.drop_first());
    }
}

/// Without quotes and backslashes the scanner splits the rest of the text
/// into its words, the first of them joined to what is pending.
proof fn lemma_scan_words(sc: Scanner, text: Seq<char>, at: int)
    requires
        0 <= at <= text.len(),
        forall|i: int| 0 <= i < text.len() ==> text[i] != '"' && text[i] != '\\',
        sc.mode == Mode::Normal && sc.pending.len() == 0 && !sc.open || sc.mode == Mode::InWord
            && sc.open,
    ensures
        sc.mode == Mode::Normal ==> scan_from(sc, text, at) == sc.finished + words(text.skip(at)),
        sc.mode == Mode::InWord ==> scan_from(sc, text, at) == sc.finished.push(
            sc.pending + text.skip(at).take(word_length(text.skip(at)) as int),
        ) + words(text.skip(at + word_length(text.skip(at)))),
    decreases text.len() - at,
{
    let rest = text.skip(at);
    if at == text.len() {
        assert(rest =~= Seq::<char>::empty());
        assert(sc.finished + words(rest) =~= sc.finished);
        assert(sc.pending + rest.take(0) =~= sc.pending);
        assert(text.skip(at + 0) =~= rest);
        assert(sc.finished.push(sc.pending) + words(rest) =~= sc.finished.push(sc.pending));
    } else {
        let c = text[at];
        let next = step(sc, text, at);
        let later = text.skip(at + 1);
        assert(rest[0] == c);
        assert(rest.drop_first() =~= later);
        assert(width(sc, text, at) == 1);
        lemma_scan_words(next, text, at + 1);
        lemma_word_length(later);
        let length = word_length(later) as int;
        if is_space(c) {
            if sc.mode == Mode::InWord {
                assert(sc.pending + rest.take(0) =~= sc.pending);
                assert(text.skip(at + 0) =~= rest);
            }
        } else {
            assert(word_length(rest) == 1 + length);
            assert(text.skip(at + 1 + length) =~= rest.skip(1 + length));
            if sc.mode == Mode::Normal {
                assert(next.pending =~= seq![c]);
                assert(next.pending + later.take(length) =~= rest.take(1 + length));
                assert(sc.finished.push(rest.take(1 + length)) + words(rest.skip(1 + length))
                    =~= sc.finished + (seq![rest.take(1 + length)] + words(
                    rest.skip(1 + length),
                )));
            } else {
                assert(next.pending + later.take(length) =~= sc.pending + rest.take(
                    1 + length,
                ));
            }
        }
    }
}

/// A command line without quotes and backslashes is split into its words.
pub proof fn lemma_unquoted_words(text: Seq<char>)
    requires
        forall|i: int| 0 <= i < text.len() ==> text[i] != '"' && text[i] != '\\',
    ensures
        tokens(text) == words(text),
{
    lemma_scan_words(start(), text, 0);
    assert(text.skip(0) =~= text);
    assert(start().finished + words(text) =~= words(text));
}

/// Inside a word, or between quotes, the scanner takes a run of characters
/// into the argument under construction as they are: plain characters inside a
/// word, any characters but the quote between quotes.
proof fn lemma_scan_run(sc: Scanner, text: Seq<char>, at: int, run: Seq<char>)
    requires
        0 <= at,
        at + run.len() <= text.len(),
        text.subrange(at, at + run.len()) == run,
        sc.mode == Mode::InWord && all_plain(run) || sc.mode == Mode::Quoted && (forall|i: int|
            0 <= i < run.len() ==> run[i] != '"'),
    ensures
        scan_from(sc, text, at) == scan_from(
            Scanner { pending: sc.pending + run, ..sc },
            text,
            at + run.len(),
        ),
    decreases run.len(),
{
    if run.len() == 0 {
        assert(sc.pending + run =~= sc.pending);
    } else {
        let c = text[at];
        assert(c == run[0]);
        assert(is_plain(run[0]) || sc.mode == Mode::Quoted);
        let next = step(sc, text, at);
        let shorter = run.drop_first();
        assert(text.subrange(at + 1, at + 1 + shorter.len()) =~= shorter);
        assert forall|i: int| 0 <= i < shorter.len() implies is_plain(#[trigger] shorter[i])
            || sc.mode == Mode::Quoted by {
            assert(shorter[i] == run[i + 1]);
        }
        assert forall|i: int| 0 <= i < shorter.len() && sc.mode == Mode::Quoted implies shorter[i]
            != '"' by {
            assert(shorter[i] == run[i + 1]);
        }
        lemma_scan_run(next, text, at + 1, shorter);
        assert(next.pending + shorter =~= sc.pending + run);
    }
}

/// A quoted run and the unquoted runs that touch it make one argument: the
/// characters before the quotes, those between them, and those behind them.
pub proof fn lemma_quoted_run_joins(before: Seq<char>, quoted: Seq<char>, after: Seq<char>)
    requires
        all_plain(before),
        all_plain(after),
        forall|i: int| 0 <= i < quoted.len() ==> quoted[i] != '"',
    ensures
        tokens(before + seq!['"'] + quoted + seq!['"'] + after) == seq![before + quoted + after],
{
    let text = before + seq!['"'] + quoted + seq!['"'] + after;
    let nothing = Seq::<Seq<char>>::empty();
    let opening = before.len() as int;
    let closing = opening + 1 + quoted.len();
    assert(text[opening] == '"');
    assert(text[closing] == '"');
    assert(text.subrange(opening + 1, closing) =~= quoted);
    assert(text.subrange(closing + 1, text.len() as int) =~= after);
    let in_quotes = Scanner { mode: Mode::Quoted, finished: nothing, pending: before, open: true };
    if before.len() == 0 {
        assert(before =~= Seq::<char>::empty());
        assert(step(start(), text, 0) == in_quotes);
    } else {
        assert(is_plain(before[0]));
        assert(text[0] == before[0]);
        let first = step(start(), text, 0);
        assert(first.pending =~= seq![before[0]]);
        let more = before.drop_first();
        assert(all_plain(more)) by {
            assert forall|i: int| 0 <= i < more.len() implies is_plain(#[trigger] more[i]) by {
                assert(more[i] == before[i + 1]);
            }
        }
        assert(text.subrange(1, 1 + more.len() as int) =~= more);
        lemma_scan_run(first, text, 1, more);
        assert(first.pending + more =~= before);
        let word = Scanner { pending: before, ..first };
        assert(step(word, text, opening) == in_quotes);
    }
    assert(scan_from(start(), text, 0) == scan_from(in_quotes, text, opening + 1));
    lemma_scan_run(in_quotes, text, opening + 1, quoted);
    let closed = Scanner { pending: before + quoted, ..in_quotes };
    let word = Scanner { mode: Mode::InWord, ..closed };
    assert(step(closed, text, closing) == word);
    assert(width(closed, text, closing) == 1);
    lemma_scan_run(word, text, closing + 1, after);
    let ended = Scanner { pending: before + quoted + after, ..word };
    assert(scan_from(ended, text, text.len() as int) == flushed(ended));
    assert(flushed(ended) =~= seq![before + quoted + after]);
}

/// Where the scanner stands between two arguments or inside a word, it takes
/// a run of plain characters into the argument under construction, and
/// stands inside a word behind a run that is not empty.
proof fn lemma_scan_plain(sc: Scanner, text: Seq<char>, at: int, run: Seq<char>)
    requires
        0 <= at,
        at + run.len() <= text.len(),
        text.subrange(at, at + run.len()) == run,
        all_plain(run),
        sc.mode == Mode::Normal || sc.mode == Mode::InWord && sc.open,
    ensures
        scan_from(sc, text, at) == scan_from(
            if run.len() == 0 {
                sc
            } else {
                Scanner { mode: Mode::InWord, pending: sc.pending + run, open: true, ..sc }
            },
            text,
            at + run.len(),
        ),
{
    if run.len() > 0 {
        assert(text[at] == run[0]);
        assert(is_plain(run[0]));
        let first = step(sc, text, at);
        let more = run.drop_first();
        assert(all_plain(more)) by {
            assert forall|i: int| 0 <= i < more.len() implies is_plain(#[trigger] more[i]) by {
                assert(more[i] == run[i + 1]);
            }
        }
        assert(text.subrange(at + 1, at + 1 + more.len()) =~= more);
        lemma_scan_run(first, text, at + 1, more);
        assert(first.pending + more =~= sc.pending + run);
    }
}

/// Outside quotes a backslash makes the character behind it a part of the
/// argument, whatever the character is: with plain characters before and
/// behind the two, the whole is one argument.
pub proof fn lemma_escaped_character(before: Seq<char>, escaped: char, after: Seq<char>)
    requires
        all_plain(before),
        all_plain(after),
    ensures
        tokens(before + seq!['\\', escaped] + after) == seq![before + seq![escaped] + after],
{
    let text = before + seq!['\\', escaped] + after;
    let at = before.len() as int;
    assert(text[at] == '\\');
    assert(text[at + 1] == escaped);
    assert(text.subrange(0, at) =~= before);
    assert(text.subrange(at + 2, at + 2 + after.len()) =~= after);
    lemma_scan_plain(start(), text, 0, before);
    let reached = if before.len() == 0 {
        start()
    } else {
        Scanner { mode: Mode::InWord, pending: start().pending + before, open: true, ..start() }
    };
    assert(start().pending + before =~= before);
    let taken = step(reached, text, at);
    assert(width(reached, text, at) == 2);
    assert(taken.pending =~= before + seq![escaped]);
    assert(taken.open);
    lemma_scan_plain(taken, text, at + 2, after);
    let ended = if after.len() == 0 {
        taken
    } else {
        Scanner { mode: Mode::InWord, pending: taken.pending + after, open: true, ..taken }
    };
    assert(taken.pending + after =~= before + seq![escaped] + after);
    assert(scan_from(ended, text, text.len() as int) == flushed(ended));
    assert(flushed(ended) =~= seq![before + seq![escaped] + after]);
}

} // verus!
