//! The conditions of pipelines: whether a pipeline runs.

use crate::substitution::{replace_variables, resolved};
use crate::variables::{Entries, VariableMap};
use vstd::prelude::*;

verus! {

/// What a condition evaluates to, as `evalexpr::eval_boolean` gives it:
/// `None` where the text does not evaluate to a boolean at all.
pub uninterp spec fn truth(expression: Seq<char>) -> Option<bool>;

/// `evalexpr::eval_boolean` parses the text and evaluates it without any
/// variables; the outcome depends on the text alone. An error of any kind
/// comes back as `None`.
#[verifier::external_body]
fn eval_boolean(expression: &str) -> (r: Option<bool>)
    ensures
        r == truth(expression@),
{
    evalexpr::eval_boolean(expression).ok()
}

/// Whether a pipeline runs, given what its condition evaluated to: only on a
/// plain `true`. A condition that cannot be evaluated counts as false.
pub fn gate_passes(evaluated: Option<bool>) -> (r: bool)
    ensures
        r == (evaluated == Some(true)),
{
    match evaluated {
        Some(true) => true,
        _ => false,
    }
}

/// Whether a pipeline with the condition `guard` runs: always without a
/// condition, else when the condition, variables put in, evaluates to true.
pub open spec fn should_run(
    guard: Option<Seq<char>>,
    variables: Entries,
    environment: Entries,
) -> bool {
    match guard {
        None => true,
        Some(test) => truth(resolved(test, variables, environment)) == Some(true),
    }
}

/// Evaluates a pipeline's condition: the variables are put in, then the text
/// is evaluated as a boolean expression.
pub fn execute_test(test: &str, variables: &VariableMap, environment: &VariableMap) -> (r: bool)
    ensures
        r == should_run(Some(test@), variables@, environment@),
{
    let test = replace_variables(test, variables, environment);
    gate_passes(eval_boolean(test.as_str()))
}

/// What the condition of a pipeline holds, if it has one.
pub open spec fn guard_view(when: Option<String>) -> Option<Seq<char>> {
    match when {
        Some(test) => Some(test@),
        None => None,
    }
}

/// Decides whether a pipeline runs: one without a condition always does, one
/// with a condition when the condition evaluates to true.
pub fn gate(when: &Option<String>, variables: &VariableMap, environment: &VariableMap) -> (r: bool)
    ensures
        r == should_run(guard_view(*when), variables@, environment@),
{
    match when {
        Some(test) => execute_test(test.as_str(), variables, environment),
        None => true,
    }
}

} // verus!
