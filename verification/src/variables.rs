//! The variables of a run, and where they come from.

use crate::config::Configs;
use crate::crypto::{decrypt_file, decrypted, CryptoError};
use std::collections::BTreeMap;
use vstd::prelude::*;
use vstd::string::StringExecFns;

verus! {

/// Names and what each stands for, in order.
pub type Entries = Seq<(Seq<char>, Seq<char>)>;

/// The position of the entry called `name`, or -1 where there is none.
pub open spec fn position_of(entries: Entries, name: Seq<char>) -> int
    decreases entries.len(),
{
    if entries.len() == 0 {
        -1
    } else if entries.last().0 == name {
        entries.len() - 1
    } else {
        position_of(entries.drop_last(), name)
    }
}

/// Whether no name occurs twice.
pub open spec fn distinct_names(entries: Entries) -> bool {
    forall|i: int, j: int|
        0 <= i < j < entries.len() ==> (#[trigger] entries[i]).0 != (#[trigger] entries[j]).0
}

/// The entries once `name` stands for `value`: an entry of that name keeps its
/// place and takes the value, a new name goes to the end.
pub open spec fn with_entry(
    entries: Entries,
    name: Seq<char>,
    value: Seq<char>,
) -> Entries {
    let at = position_of(entries, name);
    if at >= 0 {
        entries.update(at, (name, value))
    } else {
        entries.push((name, value))
    }
}

/// The entries once every entry of `more` has been put in, in order.
pub open spec fn with_entries(
    entries: Entries,
    more: Entries,
) -> Entries
    decreases more.len(),
{
    if more.len() == 0 {
        entries
    } else {
        with_entry(with_entries(entries, more.drop_last()), more.last().0, more.last().1)
    }
}

/// The position of a name is that of an entry of that name, and there is
/// none where no entry has the name.
pub proof fn lemma_position_of(entries: Entries, name: Seq<char>)
    ensures
        -1 <= position_of(entries, name) < entries.len(),
        position_of(entries, name) >= 0 ==> entries[position_of(entries, name)].0 == name,
        position_of(entries, name) < 0 ==> forall|i: int|
            0 <= i < entries.len() ==> (#[trigger] entries[i]).0 != name,
    decreases entries.len(),
{
    if entries.len() > 0 && entries.last().0 != name {
        lemma_position_of(entries.drop_last(), name);
        assert forall|i: int| 0 <= i < entries.len() && position_of(entries, name) < 0 implies (
        #[trigger] entries[i]).0 != name by {
            if i < entries.len() - 1 {
                assert(entries.drop_last()[i] == entries[i]);
            }
        }
    }
}

/// Putting an entry into distinct names leaves the names distinct.
pub proof fn lemma_with_entry_distinct(
    entries: Entries,
    name: Seq<char>,
    value: Seq<char>,
)
    requires
        distinct_names(entries),
    ensures
        distinct_names(with_entry(entries, name, value)),
{
    lemma_position_of(entries, name);
    let at = position_of(entries, name);
    let after = with_entry(entries, name, value);
    assert forall|i: int, j: int| 0 <= i < j < after.len() implies (#[trigger] after[i]).0 != (
    #[trigger] after[j]).0 by {
        if at >= 0 {
            assert(entries[i].0 != entries[j].0);
        } else if j < entries.len() {
            assert(entries[i].0 != entries[j].0);
        } else {
            assert(entries[i].0 != name);
        }
    }
}

/// What a list of entries holds: the characters of each name and value.
pub open spec fn pairs(entries: Seq<(String, String)>) -> Entries {
    Seq::new(entries.len(), |i: int| (entries[i].0@, entries[i].1@))
}

/// The variables of a run: names and what each stands for, no name twice, in
/// the order in which the names first came in.
pub struct VariableMap {
    entries: Vec<(String, String)>,
}

impl View for VariableMap {
    type V = Entries;

    closed spec fn view(&self) -> Entries {
        pairs(self.entries@)
    }
}

impl VariableMap {
    /// No name occurs twice.
    #[verifier::type_invariant]
    closed spec fn names_differ(&self) -> bool {
        distinct_names(self@)
    }

    /// No variables.
    pub fn new() -> (r: VariableMap)
        ensures
            r@ == Entries::empty(),
    {
        let r = VariableMap { entries: Vec::new() };
        assert(r@ =~= Entries::empty());
        r
    }

    /// How many variables there are.
    pub fn len(&self) -> (n: usize)
        ensures
            n == self@.len(),
            distinct_names(self@),
    {
        proof {
            use_type_invariant(self);
        }
        self.entries.len()
    }

    /// The name of the variable at `at`.
    pub fn name_at(&self, at: usize) -> (name: &String)
        requires
            at < self@.len(),
        ensures
            name@ == self@[at as int].0,
    {
        &self.entries[at].0
    }

    /// What the variable at `at` stands for.
    pub fn value_at(&self, at: usize) -> (value: &String)
        requires
            at < self@.len(),
        ensures
            value@ == self@[at as int].1,
    {
        &self.entries[at].1
    }

    /// Where the variable called `name` stands, if there is one.
    pub fn find(&self, name: &String) -> (found: Option<usize>)
        ensures
            match found {
                Some(at) => at == position_of(self@, name@),
                None => position_of(self@, name@) < 0,
            },
    {
        let mut at: usize = self.entries.len();
        assert(self@.take(at as int) =~= self@);
        while at > 0
            invariant
                at <= self@.len(),
                self@.len() == self.entries@.len(),
                position_of(self@, name@) == position_of(self@.take(at as int), name@),
            decreases at,
        {
            assert(self@.take(at as int).last() == self@[at - 1]);
            assert(self@.take(at as int).drop_last() =~= self@.take(at - 1));
            if self.entries[at - 1].0 == *name {
                return Some(at - 1);
            }
            at = at - 1;
        }
        None
    }

    /// What `name` stands for, if anything.
    pub fn get(&self, name: &String) -> (value: Option<&String>)
        ensures
            match value {
                Some(v) => position_of(self@, name@) >= 0 && v@ == self@[position_of(
                    self@,
                    name@,
                )].1,
                None => position_of(self@, name@) < 0,
            },
    {
        proof {
            lemma_position_of(self@, name@);
        }
        match self.find(name) {
            Some(at) => Some(&self.entries[at].1),
            None => None,
        }
    }

    /// Lets `name` stand for `value`, in place of what it stood for before.
    pub fn insert(&mut self, name: String, value: String)
        ensures
            final(self)@ == with_entry(old(self)@, name@, value@),
            distinct_names(final(self)@),
    {
        proof {
            use_type_invariant(&*self);
            lemma_position_of(self@, name@);
            lemma_with_entry_distinct(self@, name@, value@);
        }
        let ghost before = self@;
        let found = self.find(&name);
        let mut taken = VariableMap::new();
        core::mem::swap(self, &mut taken);
        let mut entries = taken.entries;
        match found {
            Some(at) => {
                entries.set(at, (name, value));
            },
            None => {
                entries.push((name, value));
            },
        }
        assert(pairs(entries@) =~= with_entry(before, name@, value@));
        *self = VariableMap { entries };
    }
}

impl VariableMap {
    /// Puts every variable of `more` in, in order: each takes the place of a
    /// variable of the same name.
    pub fn extend(&mut self, more: &VariableMap)
        ensures
            final(self)@ == with_entries(old(self)@, more@),
            distinct_names(final(self)@),
    {
        proof {
            use_type_invariant(&*self);
        }
        let mut at: usize = 0;
        assert(more@.take(0) =~= Entries::empty());
        while at < more.len()
            invariant
                at <= more@.len(),
                self@ == with_entries(old(self)@, more@.take(at as int)),
                distinct_names(self@),
            decreases more@.len() - at,
        {
            assert(more@.take(at + 1).drop_last() =~= more@.take(at as int));
            assert(more@.take(at + 1).last() == more@[at as int]);
            self.insert(more.name_at(at).clone(), more.value_at(at).clone());
            at = at + 1;
        }
        assert(more@.take(at as int) =~= more@);
    }

    /// The variables that a list of entries gives, put in in order.
    fn from_entries(entries: &Vec<(String, String)>) -> (variables: VariableMap)
        ensures
            variables@ == with_entries(Seq::empty(), pairs(entries@)),
    {
        let mut variables = VariableMap::new();
        let mut at: usize = 0;
        assert(pairs(entries@).take(0) =~= Entries::empty());
        while at < entries.len()
            invariant
                at <= entries@.len(),
                variables@ == with_entries(Seq::empty(), pairs(entries@).take(at as int)),
            decreases entries@.len() - at,
        {
            assert(pairs(entries@).take(at + 1).drop_last() =~= pairs(entries@).take(at as int));
            assert(pairs(entries@).take(at + 1).last() == pairs(entries@)[at as int]);
            variables.insert(entries[at].0.clone(), entries[at].1.clone());
            at = at + 1;
        }
        assert(pairs(entries@).take(at as int) =~= pairs(entries@));
        variables
    }
}

/// Why the secrets of a working copy could not be loaded.
#[derive(Clone, Copy, Debug, PartialEq, Eq, Structural)]
pub enum LoadError {
    /// The secrets file could not be decrypted, for another reason than a
    /// wrong password.
    Crypto(CryptoError),
    /// The decrypted text is no list of assignments of texts to names.
    Syntax,
}

/// The assignments that `toml::from_str` reads from a text into a map from
/// names to texts, in the order of the names; `None` where the text is no
/// such list of assignments.
pub uninterp spec fn secret_entries(text: Seq<char>) -> Option<Entries>;

/// `toml::from_str` into a sorted map from names to texts, handed out as a
/// list in the map's order. What comes back depends on the text alone.
#[verifier::external_body]
fn parse_secrets(text: &str) -> (entries: Option<Vec<(String, String)>>)
    ensures
        match entries {
            Some(entries) => secret_entries(text@) == Some(pairs(entries@)),
            None => secret_entries(text@) is None,
        },
{
    match toml::from_str::<BTreeMap<String, String>>(text) {
        Ok(map) => Some(map.into_iter().collect()),
        Err(_) => None,
    }
}

/// The variables that a run has of itself: `branch`, where a branch was
/// asked for, and `tag`, where a tag was asked for.
pub open spec fn internal_entries(branch: Option<String>, tag: Option<String>) -> Entries {
    let of_branch = match branch {
        Some(branch) => seq![("branch"@, branch@)],
        None => Seq::empty(),
    };
    match tag {
        Some(tag) => of_branch.push(("tag"@, tag@)),
        None => of_branch,
    }
}

/// The variables that a decrypted secrets text gives.
pub open spec fn secrets_of_text(text: Seq<char>) -> Result<
    Entries,
    LoadError,
> {
    match secret_entries(text) {
        Some(entries) => Ok(with_entries(Seq::empty(), entries)),
        None => Err(LoadError::Syntax),
    }
}

/// The variables that a secrets file gives under a password. A file that
/// does not belong to the password gives none, and that is no error.
pub open spec fn secrets_of_file(blob: Seq<u8>, password: Seq<char>) -> Result<
    Entries,
    LoadError,
> {
    match decrypted(blob, password) {
        Ok(text) => secrets_of_text(text),
        Err(CryptoError::Authentication) => Ok(Seq::empty()),
        Err(error) => Err(LoadError::Crypto(error)),
    }
}

/// The variables of a run: its own, then the secrets, where a password for
/// them is configured.
pub open spec fn loaded(configs: Configs, blob: Seq<u8>) -> Result<
    Entries,
    LoadError,
> {
    let internal = with_entries(
        Seq::empty(),
        internal_entries(configs.execution_config.branch, configs.execution_config.tag),
    );
    match configs.cinderella_config.secrets {
        None => Ok(internal),
        Some(secrets) => match secrets_of_file(blob, secrets.password@) {
            Ok(entries) => Ok(with_entries(internal, entries)),
            Err(error) => Err(error),
        },
    }
}

/// What a result holds.
pub open spec fn map_view(result: Result<VariableMap, LoadError>) -> Result<
    Entries,
    LoadError,
> {
    match result {
        Ok(map) => Ok(map@),
        Err(error) => Err(error),
    }
}

/// Reads the variables from a decrypted secrets text: a flat list of
/// assignments of texts to names.
pub fn load_secrets(toml_definition: &str) -> (variables: Result<VariableMap, LoadError>)
    ensures
        map_view(variables) == secrets_of_text(toml_definition@),
{
    match parse_secrets(toml_definition) {
        Some(entries) => Ok(VariableMap::from_entries(&entries)),
        None => Err(LoadError::Syntax),
    }
}

/// The variables that a run has of itself.
pub fn load_internal(configs: &Configs) -> (variables: VariableMap)
    ensures
        variables@ == with_entries(
            Seq::empty(),
            internal_entries(configs.execution_config.branch, configs.execution_config.tag),
        ),
{
    let ghost nothing = Entries::empty();
    let ghost entries = internal_entries(
        configs.execution_config.branch,
        configs.execution_config.tag,
    );
    let mut variables = VariableMap::new();
    if let Some(branch) = &configs.execution_config.branch {
        variables.insert(String::from_str("branch"), branch.clone());
    }
    if let Some(tag) = &configs.execution_config.tag {
        variables.insert(String::from_str("tag"), tag.clone());
    }
    proof {
        reveal_with_fuel(with_entries, 3);
        if entries.len() >= 1 {
            assert(entries.drop_last().len() == entries.len() - 1);
            if entries.len() == 2 {
                assert(entries.drop_last().drop_last() =~= nothing);
                assert(entries.drop_last().last() == entries[0]);
            } else {
                assert(entries.drop_last() =~= nothing);
            }
        }
    }
    variables
}

/// The variables that the secrets file of a working copy gives, where a
/// password for it is configured. `encrypted` holds the bytes of the file; it
/// is not looked at where no password is configured.
///
/// But for a key derivation that did not complete, the result is what
/// `secrets_of_file` says.
pub fn load_secrets_from_file(configs: &Configs, encrypted: &[u8]) -> (variables: Result<
    VariableMap,
    LoadError,
>)
    ensures
        match configs.cinderella_config.secrets {
            None => map_view(variables) == Ok::<Entries, LoadError>(
                Seq::empty(),
            ),
            Some(secrets) => match variables {
                Err(LoadError::Crypto(CryptoError::KeyDerivation)) => true,
                _ => map_view(variables) == secrets_of_file(encrypted@, secrets.password@),
            },
        },
{
    match &configs.cinderella_config.secrets {
        None => Ok(VariableMap::new()),
        Some(secrets) => match decrypt_file(encrypted, secrets.password.as_str()) {
            Ok(text) => load_secrets(text.as_str()),
            Err(CryptoError::Authentication) => Ok(VariableMap::new()),
            Err(error) => Err(LoadError::Crypto(error)),
        },
    }
}

/// Loads the variables of a run: `branch` and `tag`, where a branch or a tag
/// was asked for, and the secrets of the working copy, where a password for
/// them is configured. A secret takes the place of a variable of the same
/// name. `encrypted` holds the bytes of the secrets file.
///
/// But for a key derivation that did not complete, the result is what
/// `loaded` says.
pub fn load(configs: &Configs, encrypted: &[u8]) -> (variables: Result<VariableMap, LoadError>)
    ensures
        match variables {
            Err(LoadError::Crypto(CryptoError::KeyDerivation)) =>
                configs.cinderella_config.secrets is Some,
            _ => map_view(variables) == loaded(*configs, encrypted@),
        },
{
    let mut variables = load_internal(configs);
    match load_secrets_from_file(configs, encrypted) {
        Ok(secrets) => {
            variables.extend(&secrets);
            Ok(variables)
        },
        Err(error) => Err(error),
    }
}

} // verus!
