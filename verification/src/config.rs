//! The configuration of the application and of one run, and the places of the
//! files of a working copy.

use crate::document::{
    field_named, field_views, find_field, parse_sections, section_views, sections, Field,
    FieldView, Fields, Section, SectionView,
};
use crate::text::{chars_of, string_of};
use vstd::prelude::*;
use vstd::string::StringExecFns;

verus! {

/// The two configurations of a run, side by side.
pub struct Configs<'a> {
    pub cinderella_config: &'a CinderellaConfig,
    pub execution_config: &'a ExecutionConfig,
}

/// What the application's own configuration file holds.
#[derive(Debug)]
pub struct CinderellaConfig {
    pub email: Option<Email>,
    pub secrets: Option<Secrets>,
    pub dashboard: Option<Dashboard>,
}

/// How a failure is reported by mail.
#[derive(Debug)]
pub struct Email {
    pub server: String,
    pub user: String,
    pub password: String,
    pub from: String,
    pub to: String,
}

/// The password of the secrets files.
#[derive(Debug)]
pub struct Secrets {
    pub password: String,
}

/// Where the status icons go.
#[derive(Debug)]
pub struct Dashboard {
    pub folder: String,
}

/// What the mail part of a configuration holds.
pub struct EmailView {
    pub server: Seq<char>,
    pub user: Seq<char>,
    pub password: Seq<char>,
    pub from: Seq<char>,
    pub to: Seq<char>,
}

impl View for Email {
    type V = EmailView;

    open spec fn view(&self) -> EmailView {
        EmailView {
            server: self.server@,
            user: self.user@,
            password: self.password@,
            from: self.from@,
            to: self.to@,
        }
    }
}

/// What a configuration holds: the mail part, the password of the secrets,
/// and the dashboard's folder, each where it is set.
pub struct ConfigView {
    pub email: Option<EmailView>,
    pub secrets: Option<Seq<char>>,
    pub dashboard: Option<Seq<char>>,
}

impl View for CinderellaConfig {
    type V = ConfigView;

    open spec fn view(&self) -> ConfigView {
        ConfigView {
            email: match self.email {
                Some(email) => Some(email@),
                None => None,
            },
            secrets: match self.secrets {
                Some(secrets) => Some(secrets.password@),
                None => None,
            },
            dashboard: match self.dashboard {
                Some(dashboard) => Some(dashboard.folder@),
                None => None,
            },
        }
    }
}

/// Why a text is no configuration.
#[derive(Clone, Copy, Debug, PartialEq, Eq, Structural)]
pub enum ConfigError {
    /// The text is no TOML document.
    Syntax,
    /// `email` is no table with the texts `server`, `user`, `password`,
    /// `from` and `to`.
    Email,
    /// `secrets` is no table with the text `password`.
    Secrets,
    /// `dashboard` is no table with the text `folder`.
    Dashboard,
}

/// The first section of that name, if there is one.
pub open spec fn section_named(sections: Seq<SectionView>, name: Seq<char>) -> Option<SectionView>
    decreases sections.len(),
{
    if sections.len() == 0 {
        None
    } else if sections[0].name == name {
        Some(sections[0])
    } else {
        section_named(sections.drop_first(), name)
    }
}

/// The text under a name in a table, if a text stands there.
pub open spec fn text_named(fields: Fields, name: Seq<char>) -> Option<
    Seq<char>,
> {
    match field_named(fields, name) {
        Some(FieldView::Text(text)) => Some(text),
        _ => None,
    }
}

/// The mail part that a table holds, if it holds all of it.
pub open spec fn email_in(fields: Fields) -> Option<EmailView> {
    match (
        text_named(fields, "server"@),
        text_named(fields, "user"@),
        text_named(fields, "password"@),
        text_named(fields, "from"@),
        text_named(fields, "to"@),
    ) {
        (Some(server), Some(user), Some(password), Some(from), Some(to)) => Some(
            EmailView { server, user, password, from, to },
        ),
        _ => None,
    }
}

/// What a part of the configuration holds: nothing where its section is
/// missing, the part where the section is a table that `read` finds it in,
/// and else the part's error.
pub open spec fn part_in<T>(
    section: Option<SectionView>,
    read: spec_fn(Fields) -> Option<T>,
    error: ConfigError,
) -> Result<Option<T>, ConfigError> {
    match section {
        None => Ok(None),
        Some(section) => match section.fields {
            None => Err(error),
            Some(fields) => match read(fields) {
                Some(part) => Ok(Some(part)),
                None => Err(error),
            },
        },
    }
}

/// The configuration that the sections of a document hold. A part whose
/// section is missing is not set. What the document holds beyond the three
/// parts is not looked at.
pub open spec fn configured(sections: Seq<SectionView>) -> Result<ConfigView, ConfigError> {
    match part_in(
        section_named(sections, "email"@),
        |fields: Fields| email_in(fields),
        ConfigError::Email,
    ) {
        Err(error) => Err(error),
        Ok(email) => match part_in(
            section_named(sections, "secrets"@),
            |fields: Fields| text_named(fields, "password"@),
            ConfigError::Secrets,
        ) {
            Err(error) => Err(error),
            Ok(secrets) => match part_in(
                section_named(sections, "dashboard"@),
                |fields: Fields| text_named(fields, "folder"@),
                ConfigError::Dashboard,
            ) {
                Err(error) => Err(error),
                Ok(dashboard) => Ok(ConfigView { email, secrets, dashboard }),
            },
        },
    }
}

/// The configuration that a configuration file gives, `contents` being its
/// text, or `None` where the file cannot be read: then nothing is set.
pub open spec fn config_of(contents: Option<Seq<char>>) -> Result<ConfigView, ConfigError> {
    match contents {
        None => Ok(ConfigView { email: None, secrets: None, dashboard: None }),
        Some(text) => match sections(text) {
            None => Err(ConfigError::Syntax),
            Some(sections) => configured(sections),
        },
    }
}

/// What a result holds.
pub open spec fn config_view(result: Result<CinderellaConfig, ConfigError>) -> Result<
    ConfigView,
    ConfigError,
> {
    match result {
        Ok(config) => Ok(config@),
        Err(error) => Err(error),
    }
}

/// The fields of the first section of that name, if there is one: `None`
/// inside where the section is no table.
fn find_fields<'a>(sections: &'a Vec<Section>, name: &str) -> (found: Option<
    &'a Option<Vec<(String, Field)>>,
>)
    ensures
        match found {
            Some(fields) => section_named(section_views(sections@), name@) matches Some(section)
                && section.fields == match fields {
                Some(fields) => Some(field_views(fields@)),
                None => None,
            },
            None => section_named(section_views(sections@), name@) is None,
        },
{
    let wanted = String::from_str(name);
    let ghost all = section_views(sections@);
    let mut at: usize = 0;
    assert(all.skip(0) =~= all);
    while at < sections.len()
        invariant
            at <= sections.len(),
            all == section_views(sections@),
            wanted@ == name@,
            section_named(all, name@) == section_named(all.skip(at as int), name@),
        decreases sections.len() - at,
    {
        assert(all.skip(at as int)[0] == all[at as int]);
        assert(all.skip(at as int).drop_first() =~= all.skip(at + 1));
        if sections[at].name == wanted {
            return Some(&sections[at].fields);
        }
        at = at + 1;
    }
    None
}

/// The text under a name in a table, if a text stands there.
fn read_text(fields: &Vec<(String, Field)>, name: &str) -> (text: Option<String>)
    ensures
        match text {
            Some(text) => text_named(field_views(fields@), name@) == Some(text@),
            None => text_named(field_views(fields@), name@) is None,
        },
{
    match find_field(fields, name) {
        Some(Field::Text(text)) => Some(text.clone()),
        _ => None,
    }
}

/// The mail part that a table holds, if it holds all of it.
fn read_email(fields: &Vec<(String, Field)>) -> (email: Option<Email>)
    ensures
        match email {
            Some(email) => email_in(field_views(fields@)) == Some(email@),
            None => email_in(field_views(fields@)) is None,
        },
{
    let server = read_text(fields, "server");
    let user = read_text(fields, "user");
    let password = read_text(fields, "password");
    let from = read_text(fields, "from");
    let to = read_text(fields, "to");
    match (server, user, password, from, to) {
        (Some(server), Some(user), Some(password), Some(from), Some(to)) => Some(
            Email { server, user, password, from, to },
        ),
        _ => None,
    }
}

impl CinderellaConfig {
    /// The configuration where there is no configuration file: nothing is
    /// set.
    pub fn empty() -> (config: CinderellaConfig)
        ensures
            config.email is None,
            config.secrets is None,
            config.dashboard is None,
    {
        CinderellaConfig { email: None, secrets: None, dashboard: None }
    }

    /// The configuration that the sections of a document hold.
    pub fn from_sections(sections: &Vec<Section>) -> (config: Result<
        CinderellaConfig,
        ConfigError,
    >)
        ensures
            config_view(config) == configured(section_views(sections@)),
    {
        let email = match find_fields(sections, "email") {
            None => None,
            Some(None) => {
                return Err(ConfigError::Email);
            },
            Some(Some(fields)) => match read_email(fields) {
                Some(email) => Some(email),
                None => {
                    return Err(ConfigError::Email);
                },
            },
        };
        let secrets = match find_fields(sections, "secrets") {
            None => None,
            Some(None) => {
                return Err(ConfigError::Secrets);
            },
            Some(Some(fields)) => match read_text(fields, "password") {
                Some(password) => Some(Secrets { password }),
                None => {
                    return Err(ConfigError::Secrets);
                },
            },
        };
        let dashboard = match find_fields(sections, "dashboard") {
            None => None,
            Some(None) => {
                return Err(ConfigError::Dashboard);
            },
            Some(Some(fields)) => match read_text(fields, "folder") {
                Some(folder) => Some(Dashboard { folder }),
                None => {
                    return Err(ConfigError::Dashboard);
                },
            },
        };
        Ok(CinderellaConfig { email, secrets, dashboard })
    }

    /// Reads the configuration from the text of the configuration file.
    /// `None` stands for a file that cannot be read: then nothing is set.
    pub fn from_file(contents: Option<&str>) -> (config: Result<CinderellaConfig, ConfigError>)
        ensures
            config_view(config) == config_of(
                match contents {
                    Some(text) => Some(text@),
                    None => None,
                },
            ),
    {
        match contents {
            None => Ok(CinderellaConfig::empty()),
            Some(text) => match parse_sections(text) {
                Some(sections) => CinderellaConfig::from_sections(&sections),
                None => Err(ConfigError::Syntax),
            },
        }
    }
}

/// What one run is asked to do.
#[derive(Debug)]
pub struct ExecutionConfig {
    pub repo_url: String,
    pub branch: Option<String>,
    pub tag: Option<String>,
    pub cinderella_filepath: Option<String>,
}

/// What stands behind the last `/` of a path: the whole path where it holds
/// none, nothing where it ends in one.
pub open spec fn last_segment(path: Seq<char>) -> Seq<char>
    decreases path.len(),
{
    if path.len() == 0 || path.last() == '/' {
        Seq::empty()
    } else {
        last_segment(path.drop_last()).push(path.last())
    }
}

/// The name of the project at a location: its last segment, or, where the
/// location ends in a `/`, the segment before that `/`.
pub open spec fn project_name(location: Seq<char>) -> Seq<char> {
    if last_segment(location).len() > 0 {
        last_segment(location)
    } else if location.len() > 0 {
        last_segment(location.drop_last())
    } else {
        Seq::empty()
    }
}

/// A path with one more component behind it, relative to it: a `/` goes
/// between the two unless the path is empty or ends in one.
pub open spec fn joined_path(base: Seq<char>, component: Seq<char>) -> Seq<char> {
    if base.len() == 0 || base.last() == '/' {
        base + component
    } else {
        base + seq!['/'] + component
    }
}

/// The last segment is what stands behind the last `/`.
proof fn lemma_last_segment(path: Seq<char>, start: int)
    requires
        0 <= start <= path.len(),
        start == 0 || path[start - 1] == '/',
        forall|k: int| start <= k < path.len() ==> path[k] != '/',
    ensures
        last_segment(path) == path.subrange(start, path.len() as int),
    decreases path.len() - start,
{
    if start == path.len() {
        assert(path.subrange(start, path.len() as int) =~= Seq::<char>::empty());
    } else {
        let shorter = path.drop_last();
        lemma_last_segment(shorter, start);
        assert(path.subrange(start, path.len() as int) =~= shorter.subrange(
            start,
            shorter.len() as int,
        ).push(path.last()));
    }
}

/// `base` with `component` behind it.
pub fn join_path(base: &str, component: &str) -> (path: String)
    ensures
        path@ == joined_path(base@, component@),
{
    let text = chars_of(base);
    let mut path = String::from_str(base);
    if text.len() > 0 && text[text.len() - 1] != '/' {
        path.push('/');
    }
    path.append(component);
    path
}

impl ExecutionConfig {
    /// The project's name, taken from the location of its repository.
    pub fn name(&self) -> (name: String)
        ensures
            name@ == project_name(self.repo_url@),
    {
        let text = chars_of(self.repo_url.as_str());
        let mut end = text.len();
        if end > 0 && text[end - 1] == '/' {
            end = end - 1;
        }
        let mut start = end;
        while start > 0 && text[start - 1] != '/'
            invariant
                start <= end <= text.len(),
                forall|k: int| start <= k < end ==> text@[k] != '/',
            decreases start,
        {
            start = start - 1;
        }
        proof {
            let whole = text@;
            if end == whole.len() {
                lemma_last_segment(whole, start as int);
                if whole.len() > 0 && start == end {
                    lemma_last_segment(whole.drop_last(), start as int - 1);
                }
            } else {
                assert(whole.drop_last() =~= whole.take(end as int));
                lemma_last_segment(whole.take(end as int), start as int);
                assert(whole.take(end as int).subrange(start as int, end as int)
                    =~= whole.subrange(start as int, end as int));
            }
        }
        string_of(&text, start, end)
    }

    /// Where the pipelines are defined: the file that was asked for, or else
    /// `.cinderella.toml` in the working copy.
    pub fn cinderella_file(&self, folder: &str) -> (path: String)
        ensures
            path@ == match self.cinderella_filepath {
                Some(filepath) => filepath@,
                None => joined_path(folder@, ".cinderella.toml"@),
            },
    {
        match &self.cinderella_filepath {
            Some(filepath) => filepath.clone(),
            None => join_path(folder, ".cinderella.toml"),
        }
    }

    /// Where the encrypted secrets of a working copy lie.
    pub fn secrets_file(&self, folder: &str) -> (path: String)
        ensures
            path@ == joined_path(joined_path(folder@, ".cinderella"@), "secrets"@),
    {
        let inner = join_path(folder, ".cinderella");
        join_path(inner.as_str(), "secrets")
    }
}

} // verus!
