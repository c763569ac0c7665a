//! Working copies of repositories: where they are put and what is checked
//! out.

use crate::config::{join_path, joined_path, ExecutionConfig};
use rand::distributions::Alphanumeric;
use rand::Rng;
use vstd::prelude::*;
use vstd::string::StringExecFns;

verus! {

/// A checked-out copy of a repository.
pub trait WorkingCopy {
    /// Switches the copy to a branch of the repository it was cloned from.
    fn checkout_branch(&self, branch: &str);
}

/// A git repository, by its location.
#[derive(Debug)]
pub struct GitSource {
    pub src: String,
}

/// Whether `c` is an ASCII letter or digit.
pub open spec fn is_alphanumeric(c: char) -> bool {
    ||| 'a' <= c <= 'z'
    ||| 'A' <= c <= 'Z'
    ||| '0' <= c <= '9'
}

/// Whether `name` is made of `count` ASCII letters and digits.
pub open spec fn is_random_name(name: Seq<char>, count: nat) -> bool {
    &&& name.len() == count
    &&& forall|i: int| 0 <= i < name.len() ==> is_alphanumeric(#[trigger] name[i])
}

/// `Rng::sample_iter` on the thread's generator with `Alphanumeric`, which
/// draws ASCII letters and digits; `count` of them are collected.
#[verifier::external_body]
fn random_alphanumeric(count: usize) -> (name: String)
    ensures
        is_random_name(name@, count as nat),
{
    rand::thread_rng().sample_iter(&Alphanumeric).take(count).collect::<String>()
}

/// A directory below `base_path` for a working copy, under a random name of
/// ten letters and digits.
pub fn random_dir(base_path: &str) -> (dir: String)
    ensures
        exists|name: Seq<char>|
            is_random_name(name, 10) && dir@ == #[trigger] joined_path(base_path@, name),
{
    let name = random_alphanumeric(10);
    let dir = join_path(base_path, name.as_str());
    assert(is_random_name(name@, 10) && dir@ == joined_path(base_path@, name@));
    dir
}

/// The revision under which a clone knows a branch of its origin.
pub fn branch_revision(branch_name: &str) -> (revision: String)
    ensures
        revision@ == "refs/remotes/origin/"@ + branch_name@,
{
    let mut revision = String::from_str("refs/remotes/origin/");
    revision.append(branch_name);
    revision
}

/// The revision of a tag.
pub fn tag_revision(tag_name: &str) -> (revision: String)
    ensures
        revision@ == "refs/tags/"@ + tag_name@,
{
    let mut revision = String::from_str("refs/tags/");
    revision.append(tag_name);
    revision
}

/// What a run switches its working copy to.
#[derive(Debug)]
pub enum Checkout {
    /// The branch of this name.
    Branch(String),
    /// The tag of this name.
    Tag(String),
    /// Nothing: the copy stays as it was cloned.
    Nothing,
}

/// What a checkout holds.
pub enum CheckoutView {
    Branch(Seq<char>),
    Tag(Seq<char>),
    Nothing,
}

impl View for Checkout {
    type V = CheckoutView;

    open spec fn view(&self) -> CheckoutView {
        match self {
            Checkout::Branch(name) => CheckoutView::Branch(name@),
            Checkout::Tag(name) => CheckoutView::Tag(name@),
            Checkout::Nothing => CheckoutView::Nothing,
        }
    }
}

/// What a run switches its working copy to: the branch that was asked for,
/// else the tag that was asked for, else nothing.
pub open spec fn checkout_of(config: ExecutionConfig) -> CheckoutView {
    match config.branch {
        Some(branch) => CheckoutView::Branch(branch@),
        None => match config.tag {
            Some(tag) => CheckoutView::Tag(tag@),
            None => CheckoutView::Nothing,
        },
    }
}

/// Decides what a run switches its working copy to. A branch goes before a
/// tag.
pub fn checkout(config: &ExecutionConfig) -> (target: Checkout)
    ensures
        target@ == checkout_of(*config),
{
    if let Some(branch) = &config.branch {
        Checkout::Branch(branch.clone())
    } else if let Some(tag) = &config.tag {
        Checkout::Tag(tag.clone())
    } else {
        Checkout::Nothing
    }
}

} // verus!
