//! Where connection strings come from: the environment first, and a
//! configuration file in TOML second.
use crate::json;
use crate::json::{JsonTree, JsonValue};
use crate::toml_text;
use crate::toml_text::parse_document;
use vstd::prelude::*;

verus! {

broadcast use json::lemma_value_view;

/// The settings of a configuration file.
#[derive(Debug)]
pub struct FileConfig {
    pub db_url: Option<String>,
    pub redis_url: Option<String>,
}

/// What a [`FileConfig`] is.
pub struct FileConfigView {
    pub db_url: Option<Seq<char>>,
    pub redis_url: Option<Seq<char>>,
}

/// An optional text.
pub open spec fn text_option(s: Option<String>) -> Option<Seq<char>> {
    match s {
        Some(s) => Some(s@),
        None => None,
    }
}

impl View for FileConfig {
    type V = FileConfigView;

    open spec fn view(&self) -> FileConfigView {
        FileConfigView {
            db_url: text_option(self.db_url),
            redis_url: text_option(self.redis_url),
        }
    }
}

/// A file without settings.
pub open spec fn no_settings() -> FileConfigView {
    FileConfigView { db_url: None, redis_url: None }
}

/// A setting of a document: absent, a text, or of a wrong kind.
pub open spec fn setting(t: JsonTree, key: Seq<char>) -> Option<Option<Seq<char>>> {
    match json::member(t, key) {
        None => Some(None),
        Some(JsonTree::Text(s)) => Some(Some(s)),
        Some(_) => None,
    }
}

/// The settings of a document; none at all if one of them is of a wrong kind.
pub open spec fn settings_of(t: JsonTree) -> FileConfigView {
    match (setting(t, "db_url"@), setting(t, "redis_url"@)) {
        (Some(db_url), Some(redis_url)) => FileConfigView { db_url, redis_url },
        _ => no_settings(),
    }
}

/// The settings in the text of a file; none if it is not TOML.
pub open spec fn settings_in(content: Seq<char>) -> FileConfigView {
    match toml_text::document(content) {
        Some(t) => settings_of(t),
        None => no_settings(),
    }
}

/// The text of a file describes settings: it is TOML, and none of them is of a
/// wrong kind.
pub open spec fn readable(content: Seq<char>) -> bool {
    match toml_text::document(content) {
        Some(t) => setting(t, "db_url"@) is Some && setting(t, "redis_url"@) is Some,
        None => false,
    }
}

/// A setting of a document: `Err` if it is of a wrong kind.
fn get_setting(t: &JsonValue, key: &str) -> (r: Result<Option<String>, ()>)
    ensures
        match setting(t@, key@) {
            Some(v) => r is Ok && text_option(r->Ok_0) == v,
            None => r is Err,
        },
{
    match t.get(key) {
        None => Ok(None),
        Some(JsonValue::Text(s)) => Ok(Some(s.clone())),
        Some(_) => Err(()),
    }
}

impl FileConfig {
    /// A file without settings.
    pub fn empty() -> (r: FileConfig)
        ensures
            r@ == no_settings(),
    {
        FileConfig { db_url: None, redis_url: None }
    }

    /// The settings of a document.
    pub fn from_json(t: &JsonValue) -> (r: FileConfig)
        ensures
            r@ == settings_of(t@),
    {
        match (get_setting(t, "db_url"), get_setting(t, "redis_url")) {
            (Ok(db_url), Ok(redis_url)) => FileConfig { db_url, redis_url },
            _ => FileConfig::empty(),
        }
    }

    /// The settings in the text of a file, and none if there is no file.
    pub fn from_file_text(content: Option<&str>) -> (r: FileConfig)
        ensures
            r@ == (match content {
                Some(s) => settings_in(s@),
                None => no_settings(),
            }),
    {
        match content {
            Some(s) => match parse_document(s) {
                Some(t) => FileConfig::from_json(&t),
                None => FileConfig::empty(),
            },
            None => FileConfig::empty(),
        }
    }
}

/// Whether the text of a file describes settings. Of one that does not, none is
/// taken, and whoever reads the file should say so.
pub fn describes_settings(content: &str) -> (r: bool)
    ensures
        r == readable(content@),
        !r ==> settings_in(content@) == no_settings(),
{
    match parse_document(content) {
        Some(t) => match (get_setting(&t, "db_url"), get_setting(&t, "redis_url")) {
            (Ok(_), Ok(_)) => true,
            _ => false,
        },
        None => false,
    }
}

/// A value from the environment, or else from the file.
fn first_of(variable: Option<String>, from_file: Option<String>) -> (r: Option<String>)
    ensures
        r == (if variable is Some {
            variable
        } else {
            from_file
        }),
{
    match variable {
        Some(v) => Some(v),
        None => from_file,
    }
}

/// The environment variable, or else the setting of the file, if there is one.
pub open spec fn chosen(
    variable: Option<Seq<char>>,
    setting: Option<Seq<char>>,
) -> Option<Seq<char>> {
    match variable {
        Some(v) => Some(v),
        None => setting,
    }
}

/// The settings of an optional file.
pub open spec fn file_settings(file: Option<&str>) -> FileConfigView {
    match file {
        Some(s) => settings_in(s@),
        None => no_settings(),
    }
}

/// The connection string of the database: the environment variable, or else
/// the setting of the configuration file.
pub fn db_url(variable: Option<String>, file: Option<&str>) -> (r: Option<String>)
    ensures
        text_option(r) == (if variable is Some {
            text_option(variable)
        } else {
            match file {
                Some(s) => settings_in(s@).db_url,
                None => None,
            }
        }),
        text_option(r) == chosen(text_option(variable), file_settings(file).db_url),
{
    first_of(variable, FileConfig::from_file_text(file).db_url)
}

/// The connection string of Redis: the environment variable, or else the
/// setting of the configuration file.
pub fn redis_url(variable: Option<String>, file: Option<&str>) -> (r: Option<String>)
    ensures
        text_option(r) == (if variable is Some {
            text_option(variable)
        } else {
            match file {
                Some(s) => settings_in(s@).redis_url,
                None => None,
            }
        }),
        text_option(r) == chosen(text_option(variable), file_settings(file).redis_url),
{
    first_of(variable, FileConfig::from_file_text(file).redis_url)
}

/// Each setting is read from its own key: a text is taken, an absent one is
/// none.
pub proof fn lemma_settings_by_key(t: JsonTree, db: Seq<char>, redis: Seq<char>)
    ensures
        json::member(t, "db_url"@) == Some(JsonTree::Text(db)) && json::member(t, "redis_url"@)
            == Some(JsonTree::Text(redis)) ==> settings_of(t).db_url == Some(db) && settings_of(
            t,
        ).redis_url == Some(redis),
        json::member(t, "db_url"@) == Some(JsonTree::Text(db)) && json::member(t, "redis_url"@)
            is None ==> settings_of(t).db_url == Some(db) && settings_of(t).redis_url is None,
        json::member(t, "db_url"@) is None && json::member(t, "redis_url"@) == Some(
            JsonTree::Text(redis),
        ) ==> settings_of(t).db_url is None && settings_of(t).redis_url == Some(redis),
{
}

/// A setting that is no text spoils the whole document.
pub proof fn lemma_wrong_kind_spoils_all(t: JsonTree, v: JsonTree)
    requires
        !(v is Text),
        json::member(t, "db_url"@) == Some(v) || json::member(t, "redis_url"@) == Some(v),
    ensures
        settings_of(t).db_url is None,
        settings_of(t).redis_url is None,
{
}

/// The environment comes first: a file matters only without the variable, and
/// without either there is nothing.
pub proof fn lemma_environment_first(v: Seq<char>, setting: Option<Seq<char>>)
    ensures
        chosen(Some(v), setting) == Some(v),
        chosen(None, setting) == setting,
        file_settings(None).db_url is None && file_settings(None).redis_url is None,
{
}

} // verus!
