//! The settings of a server: how much it logs and which store it reads.

use vstd::prelude::*;

use crate::text::same_text;

verus! {

/// Where the store is.
#[derive(Debug)]
pub struct Server {
    pub mongo_uri: String,
}

impl Default for Server {
    fn default() -> (r: Self)
        ensures
            r.mongo_uri@ == Seq::<char>::empty(),
    {
        Server { mongo_uri: String::new() }
    }
}

impl Clone for Server {
    fn clone(&self) -> (r: Self)
        ensures
            r == *self,
    {
        Server { mongo_uri: self.mongo_uri.clone() }
    }
}

/// The settings of a server.
#[derive(Debug)]
pub struct Settings {
    /// The name of the most verbose level that is logged.
    pub loglevel: String,
    pub server: Server,
}

impl Default for Settings {
    fn default() -> (r: Self)
        ensures
            r.loglevel@ == "info"@,
            r.server.mongo_uri@ == Seq::<char>::empty(),
    {
        Settings { loglevel: "info".to_owned(), server: Server { mongo_uri: String::new() } }
    }
}

impl Clone for Settings {
    fn clone(&self) -> (r: Self)
        ensures
            r == *self,
    {
        Settings { loglevel: self.loglevel.clone(), server: self.server.clone() }
    }
}

/// How much is logged, from nothing to everything.
#[derive(Clone, Copy, Debug, PartialEq, Eq, Structural)]
pub enum LevelFilter {
    Off,
    Error,
    Warn,
    Info,
    Debug,
    Trace,
}

/// What `str::to_lowercase` makes of a text.
pub uninterp spec fn lowercase(s: Seq<char>) -> Seq<char>;

/// The lowercase equivalent of `s`.
///
/// Calls `str::to_lowercase`. Trusted: what it returns depends on `s`
/// alone, and is what [`lowercase`] names.
#[verifier::external_body]
fn to_lowercase(s: &str) -> (r: String)
    ensures
        r@ == lowercase(s@),
{
    s.to_lowercase()
}

/// The level that the lowercase name `name` stands for. A name that is none
/// of the six stands for `Off`.
pub open spec fn level_of(name: Seq<char>) -> LevelFilter {
    if name == "off"@ {
        LevelFilter::Off
    } else if name == "error"@ {
        LevelFilter::Error
    } else if name == "warn"@ {
        LevelFilter::Warn
    } else if name == "info"@ {
        LevelFilter::Info
    } else if name == "debug"@ {
        LevelFilter::Debug
    } else if name == "trace"@ {
        LevelFilter::Trace
    } else {
        LevelFilter::Off
    }
}

/// The level that the lowercase name `name` stands for.
pub fn level_named(name: &str) -> (r: LevelFilter)
    ensures
        r == level_of(name@),
{
    if same_text(name, "off") {
        LevelFilter::Off
    } else if same_text(name, "error") {
        LevelFilter::Error
    } else if same_text(name, "warn") {
        LevelFilter::Warn
    } else if same_text(name, "info") {
        LevelFilter::Info
    } else if same_text(name, "debug") {
        LevelFilter::Debug
    } else if same_text(name, "trace") {
        LevelFilter::Trace
    } else {
        LevelFilter::Off
    }
}

impl Settings {
    /// How much these settings ask to log: the level that `loglevel` names,
    /// in whatever case it is written.
    pub fn level_filter(&self) -> (r: LevelFilter)
        ensures
            r == level_of(lowercase(self.loglevel@)),
    {
        let name = to_lowercase(self.loglevel.as_str());
        level_named(name.as_str())
    }

    /// These settings with what the command line says put over them: its
    /// log level and its store address, each where it gives one.
    pub fn with_arguments(self, loglevel: Option<String>, mongo_uri: Option<String>) -> (r: Self)
        ensures
            r.loglevel == match loglevel {
                Some(level) => level,
                None => self.loglevel,
            },
            r.server.mongo_uri == match mongo_uri {
                Some(uri) => uri,
                None => self.server.mongo_uri,
            },
    {
        let mut settings = self;
        match loglevel {
            Some(level) => {
                settings.loglevel = level;
            },
            None => {},
        }
        match mongo_uri {
            Some(uri) => {
                settings.server.mongo_uri = uri;
            },
            None => {},
        }
        settings
    }
}

/// A format in which settings are saved.
#[derive(Clone, Copy, Debug, PartialEq, Eq, Structural)]
pub enum ConfigFormat {
    Toml,
    Yaml,
    Json,
}

/// The format that `name` stands for, if it stands for one.
pub open spec fn format_of(name: Seq<char>) -> Option<ConfigFormat> {
    if name == "TOML"@ {
        Some(ConfigFormat::Toml)
    } else if name == "YAML"@ {
        Some(ConfigFormat::Yaml)
    } else if name == "JSON"@ {
        Some(ConfigFormat::Json)
    } else {
        None
    }
}

impl ConfigFormat {
    /// The format that `name` stands for, if it stands for one.
    pub fn from_name(name: &str) -> (r: Option<ConfigFormat>)
        ensures
            r == format_of(name@),
    {
        if same_text(name, "TOML") {
            Some(ConfigFormat::Toml)
        } else if same_text(name, "YAML") {
            Some(ConfigFormat::Yaml)
        } else if same_text(name, "JSON") {
            Some(ConfigFormat::Json)
        } else {
            None
        }
    }

    /// The extension of a file that holds settings in this format.
    pub fn extension(&self) -> (r: &'static str)
        ensures
            r@ == match *self {
                ConfigFormat::Toml => "toml"@,
                ConfigFormat::Yaml => "yaml"@,
                ConfigFormat::Json => "json"@,
            },
    {
        match self {
            ConfigFormat::Toml => "toml",
            ConfigFormat::Yaml => "yaml",
            ConfigFormat::Json => "json",
        }
    }
}

} // verus!
