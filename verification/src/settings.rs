use crate::text::{parse_size, parsed_size};
use vstd::prelude::*;

verus! {

/// What the program was started to do.
#[derive(Debug, Clone, Copy, PartialEq, Eq, Structural)]
pub enum Action {
    ClearSessions,
    CreateFolders,
    DropTables,
    InstallSchema,
    RunServer,
}

impl Default for Action {
    fn default() -> (action: Action)
        ensures
            action == Action::RunServer,
    {
        Action::RunServer
    }
}

impl Action {
    /// The action that a word on the command line names.
    pub open spec fn named(word: Seq<char>) -> Option<Action> {
        if word == "clear-sessions"@ {
            Some(Action::ClearSessions)
        } else if word == "create-folders"@ {
            Some(Action::CreateFolders)
        } else if word == "drop-tables"@ {
            Some(Action::DropTables)
        } else if word == "install-schema"@ {
            Some(Action::InstallSchema)
        } else if word == "run"@ {
            Some(Action::RunServer)
        } else {
            None
        }
    }

    /// Reads an action from its name on the command line.
    pub fn from_str(s: &str) -> (r: Result<Action, &'static str>)
        ensures
            match r {
                Ok(action) => Action::named(s@) == Some(action),
                Err(why) => Action::named(s@) is None && why@ == "unknown action"@,
            },
    {
        let word: String = s.to_owned();
        if word == "clear-sessions".to_owned() {
            Ok(Action::ClearSessions)
        } else if word == "create-folders".to_owned() {
            Ok(Action::CreateFolders)
        } else if word == "drop-tables".to_owned() {
            Ok(Action::DropTables)
        } else if word == "install-schema".to_owned() {
            Ok(Action::InstallSchema)
        } else if word == "run".to_owned() {
            Ok(Action::RunServer)
        } else {
            Err("unknown action")
        }
    }
}

impl std::str::FromStr for Action {
    type Err = &'static str;

    fn from_str(s: &str) -> (r: Result<Action, &'static str>)
        ensures
            match r {
                Ok(action) => Action::named(s@) == Some(action),
                Err(why) => Action::named(s@) is None && why@ == "unknown action"@,
            },
    {
        Action::from_str(s)
    }
}

/// How the program is set up. The two hosts are kept as text, each an
/// address and a port.
#[derive(Debug, PartialEq, Eq)]
pub struct Settings {
    pub server_host: String,
    pub database_host: String,
    pub database_credentials: (String, String),
    pub database_name: String,
    pub storage_root: String,
    pub redis_uri: String,
    /// The largest multipart body taken, in KiB.
    pub max_payload: usize,
    pub action: Action,
}

impl Default for Settings {
    fn default() -> (settings: Settings)
        ensures
            settings.server_host@ == "127.0.0.1:8080"@,
            settings.database_host@ == "127.0.0.1:5432"@,
            settings.database_credentials.0@ == "postgres"@,
            settings.database_credentials.1@ == "password"@,
            settings.database_name@ == "watame"@,
            settings.storage_root@ == "./storage/"@,
            settings.redis_uri@ == "redis://127.0.0.1:6379"@,
            settings.max_payload == 65536,
            settings.action == Action::RunServer,
    {
        Settings {
            server_host: "127.0.0.1:8080".to_owned(),
            database_host: "127.0.0.1:5432".to_owned(),
            database_credentials: ("postgres".to_owned(), "password".to_owned()),
            database_name: "watame".to_owned(),
            storage_root: "./storage/".to_owned(),
            redis_uri: "redis://127.0.0.1:6379".to_owned(),
            max_payload: 65536,
            action: Action::RunServer,
        }
    }
}

/// The values that the environment may set, each one as it was read. The
/// two hosts are given only where they hold an address and a port.
#[derive(Debug, PartialEq, Eq)]
pub struct Overrides {
    pub server_host: Option<String>,
    pub database_host: Option<String>,
    pub database_user: Option<String>,
    pub database_pass: Option<String>,
    pub database_name: Option<String>,
    pub redis_uri: Option<String>,
    pub storage_root: Option<String>,
    /// The largest multipart body taken, in KiB, as a decimal number.
    pub max_payload: Option<String>,
}

/// The payload ceiling that the environment sets: the number that the
/// text spells, and the default where there is no text or it spells none.
pub open spec fn payload_of(text: Option<String>) -> usize {
    match text {
        Some(t) => match parsed_size(t@) {
            Some(size) => size,
            None => 65536,
        },
        None => 65536,
    }
}

/// `given` where there is one, else `kept`.
pub fn or_kept(given: Option<String>, kept: String) -> (r: String)
    ensures
        r@ == match given {
            Some(v) => v@,
            None => kept@,
        },
{
    match given {
        Some(v) => v,
        None => kept,
    }
}

impl Settings {
    /// The defaults, with each value that the environment sets in place of
    /// its default, and the action of the command line. A payload ceiling
    /// that is no number is passed over.
    pub fn parse(env: Overrides, action: Action) -> (settings: Settings)
        ensures
            settings.server_host@ == match env.server_host {
                Some(v) => v@,
                None => "127.0.0.1:8080"@,
            },
            settings.database_host@ == match env.database_host {
                Some(v) => v@,
                None => "127.0.0.1:5432"@,
            },
            settings.database_credentials.0@ == match env.database_user {
                Some(v) => v@,
                None => "postgres"@,
            },
            settings.database_credentials.1@ == match env.database_pass {
                Some(v) => v@,
                None => "password"@,
            },
            settings.database_name@ == match env.database_name {
                Some(v) => v@,
                None => "watame"@,
            },
            settings.redis_uri@ == match env.redis_uri {
                Some(v) => v@,
                None => "redis://127.0.0.1:6379"@,
            },
            settings.storage_root@ == match env.storage_root {
                Some(v) => v@,
                None => "./storage/"@,
            },
            settings.max_payload == payload_of(env.max_payload),
            settings.action == action,
    {
        let base = Settings::default();
        let mut settings = Settings {
            server_host: or_kept(env.server_host, base.server_host),
            database_host: or_kept(env.database_host, base.database_host),
            database_credentials: (
                or_kept(env.database_user, base.database_credentials.0),
                or_kept(env.database_pass, base.database_credentials.1),
            ),
            database_name: or_kept(env.database_name, base.database_name),
            storage_root: or_kept(env.storage_root, base.storage_root),
            redis_uri: or_kept(env.redis_uri, base.redis_uri),
            max_payload: match &env.max_payload {
                Some(text) => match parse_size(text.as_str()) {
                    Some(size) => size,
                    None => base.max_payload,
                },
                None => base.max_payload,
            },
            action: base.action,
        };
        settings.merge_cli_opts(action);
        settings
    }

    /// Takes the action from the command line.
    pub fn merge_cli_opts(&mut self, action: Action)
        ensures
            *final(self) == (Settings { action: action, ..*old(self) }),
    {
        self.action = action;
    }
}

/// The settings that request handlers read.
#[derive(Debug, PartialEq, Eq)]
pub struct RunSettings {
    pub storage_root: String,
    pub max_payload: usize,
}

impl RunSettings {
    pub fn from(settings: &Settings) -> (run: RunSettings)
        ensures
            run.storage_root@ == settings.storage_root@,
            run.max_payload == settings.max_payload,
    {
        RunSettings { storage_root: settings.storage_root.clone(), max_payload: settings.max_payload }
    }
}

} // verus!
