//! The variables in commands and conditions: placeholders give way to values.

use crate::text::{lemma_replaced_absent, occurs_in, replace_all, replaced};
use crate::variables::{Entries, VariableMap};
use vstd::prelude::*;
use vstd::string::StringExecFns;

verus! {

/// The upper-case form of a text, as `str::to_uppercase` gives it.
pub uninterp spec fn uppercase(text: Seq<char>) -> Seq<char>;

/// `str::to_uppercase` returns the upper-case equivalent of the string, which
/// depends on the string alone.
pub assume_specification[ str::to_uppercase ](s: &str) -> (r: String)
    ensures
        r@ == uppercase(s@),
;

/// What stands in a text for the variable `name`: the sigil, then the name in
/// upper case.
pub open spec fn placeholder(sigil: char, name: Seq<char>) -> Seq<char> {
    seq![sigil] + uppercase(name)
}

/// `text` after one pass over `entries`: for each entry in turn, every
/// occurrence of its placeholder gives way to its value.
pub open spec fn substituted(
    text: Seq<char>,
    sigil: char,
    entries: Entries,
) -> Seq<char>
    decreases entries.len(),
{
    if entries.len() == 0 {
        text
    } else {
        replaced(
            substituted(text, sigil, entries.drop_last()),
            placeholder(sigil, entries.last().0),
            entries.last().1,
        )
    }
}

/// `text` with the variables put in: first those of the pipeline, written with
/// `%`, then those of the process environment, written with `$`.
pub open spec fn resolved(
    text: Seq<char>,
    variables: Entries,
    environment: Entries,
) -> Seq<char> {
    substituted(substituted(text, '%', variables), '$', environment)
}

/// A text in which no entry's placeholder occurs stays as it is.
pub proof fn lemma_substituted_absent(
    text: Seq<char>,
    sigil: char,
    entries: Entries,
)
    requires
        forall|i: int|
            0 <= i < entries.len() ==> !occurs_in(text, placeholder(sigil, #[trigger] entries[i].0)),
    ensures
        substituted(text, sigil, entries) == text,
    decreases entries.len(),
{
    if entries.len() > 0 {
        let earlier = entries.drop_last();
        assert forall|i: int| 0 <= i < earlier.len() implies !occurs_in(
            text,
            placeholder(sigil, #[trigger] earlier[i].0),
        ) by {
            assert(earlier[i] == entries[i]);
        }
        lemma_substituted_absent(text, sigil, earlier);
        assert(!occurs_in(text, placeholder(sigil, entries[entries.len() - 1].0)));
        lemma_replaced_absent(text, placeholder(sigil, entries.last().0), entries.last().1);
    }
}

/// Where the placeholder of one entry alone occurs in a text, before and
/// after that entry's value has been put in, the pass replaces every
/// occurrence of that placeholder with the value and changes nothing else.
pub proof fn lemma_substituted_one(
    text: Seq<char>,
    sigil: char,
    entries: Entries,
    which: int,
)
    requires
        0 <= which < entries.len(),
        forall|i: int|
            0 <= i < entries.len() && i != which ==> !occurs_in(
                text,
                placeholder(sigil, #[trigger] entries[i].0),
            ),
        forall|i: int|
            0 <= i < entries.len() && i != which ==> !occurs_in(
                replaced(text, placeholder(sigil, entries[which].0), entries[which].1),
                placeholder(sigil, #[trigger] entries[i].0),
            ),
    ensures
        substituted(text, sigil, entries) == replaced(
            text,
            placeholder(sigil, entries[which].0),
            entries[which].1,
        ),
    decreases entries.len(),
{
    let earlier = entries.drop_last();
    let last = entries.len() - 1;
    if which == last {
        assert forall|i: int| 0 <= i < earlier.len() implies !occurs_in(
            text,
            placeholder(sigil, #[trigger] earlier[i].0),
        ) by {
            assert(earlier[i] == entries[i]);
        }
        lemma_substituted_absent(text, sigil, earlier);
    } else {
        assert(earlier[which] == entries[which]);
        assert forall|i: int| 0 <= i < earlier.len() && i != which implies !occurs_in(
            text,
            placeholder(sigil, #[trigger] earlier[i].0),
        ) && !occurs_in(
            replaced(text, placeholder(sigil, earlier[which].0), earlier[which].1),
            placeholder(sigil, earlier[i].0),
        ) by {
            assert(earlier[i] == entries[i]);
        }
        lemma_substituted_one(text, sigil, earlier, which);
        assert(!occurs_in(
            replaced(text, placeholder(sigil, entries[which].0), entries[which].1),
            placeholder(sigil, entries[last].0),
        ));
        lemma_replaced_absent(
            replaced(text, placeholder(sigil, entries[which].0), entries[which].1),
            placeholder(sigil, entries.last().0),
            entries.last().1,
        );
    }
}

/// A text in which no placeholder occurs, of a variable or of the
/// environment, stays as it is.
pub proof fn lemma_resolved_absent(
    text: Seq<char>,
    variables: Entries,
    environment: Entries,
)
    requires
        forall|i: int|
            0 <= i < variables.len() ==> !occurs_in(text, placeholder('%', #[trigger] variables[i].0)),
        forall|i: int|
            0 <= i < environment.len() ==> !occurs_in(
                text,
                placeholder('$', #[trigger] environment[i].0),
            ),
    ensures
        resolved(text, variables, environment) == text,
{
    lemma_substituted_absent(text, '%', variables);
    lemma_substituted_absent(text, '$', environment);
}

/// One pass over `entries`: each entry's placeholder gives way to its value,
/// one entry after the other.
fn substitute(text: &str, sigil: char, entries: &VariableMap) -> (r: String)
    ensures
        r@ == substituted(text@, sigil, entries@),
{
    let mut res = String::from_str(text);
    let mut at: usize = 0;
    while at < entries.len()
        invariant
            at <= entries@.len(),
            res@ == substituted(text@, sigil, entries@.take(at as int)),
        decreases entries@.len() - at,
    {
        let upper = entries.name_at(at).as_str().to_uppercase();
        let mut varname = String::new();
        varname.push(sigil);
        varname.append(upper.as_str());
        assert(varname@ =~= placeholder(sigil, entries@[at as int].0));
        assert(entries@.take(at + 1).drop_last() =~= entries@.take(at as int));
        res = replace_all(res.as_str(), varname.as_str(), entries.value_at(at).as_str());
        at = at + 1;
    }
    assert(entries@.take(at as int) =~= entries@);
    res
}

/// Puts the variables of the process environment into a command: `$` and a
/// variable's name in upper case give way to its value.
pub fn replace_envvars(command: &str, environment: &VariableMap) -> (r: String)
    ensures
        r@ == substituted(command@, '$', environment@),
{
    substitute(command, '$', environment)
}

/// Puts the variables into a command or a condition: those of the pipeline
/// first, then those of the process environment. A placeholder that no
/// variable answers stays as it is.
pub fn replace_variables(command: &str, variables: &VariableMap, environment: &VariableMap) -> (r:
    String)
    ensures
        r@ == resolved(command@, variables@, environment@),
{
    let res = substitute(command, '%', variables);
    replace_envvars(res.as_str(), environment)
}

} // verus!
