//! Settings of the Notegraf server, and what they decide: where the notes
//! are kept and how to reach the database.
use crate::text::{chars_of, decimal, parse_u64, push_all, push_decimal, u64_from_text};
use vstd::prelude::*;

verus! {

/// Where notes are kept.
#[derive(Debug)]
pub enum NoteStoreType {
    InMemory,
    PostgreSQL,
}

/// How to reach the PostgreSQL server.
#[derive(Debug)]
pub struct DatabaseSettings {
    pub port: String,
    pub host: String,
    pub name: String,
    pub username: Option<String>,
    pub password: Option<String>,
}

/// The settings of the server.
#[derive(Debug)]
pub struct Settings {
    pub database: Option<DatabaseSettings>,
    pub host: String,
    pub port: u16,
    pub debug: bool,
    pub notestoretype: NoteStoreType,
    pub populatetestdata: bool,
    pub otlpendpoint: Option<String>,
    pub loglevel: Option<String>,
}

/// The parameters of a connection to the PostgreSQL server.
#[derive(Debug)]
pub struct ConnectionOptions {
    pub host: String,
    pub port: u16,
    pub database: Option<String>,
    pub username: Option<String>,
    pub password: Option<String>,
}

/// What is wrong with the settings.
#[derive(Debug)]
pub enum ConfigurationError {
    /// The database port is not a port number.
    BadPort,
    /// A database user name is set without a password.
    MissingPassword,
    /// The notes are to be kept in PostgreSQL, but the database is not configured.
    MissingDatabase,
}

impl ConfigurationError {
    /// A description of the error, for people.
    pub fn message(&self) -> (r: String)
        ensures
            r@ == match self {
                ConfigurationError::BadPort => "Failed to parse port number"@,
                ConfigurationError::MissingPassword => "Password expected when a username is set"@,
                ConfigurationError::MissingDatabase => "When notestoretype is set to PostgreSQL, you must configure the keys under database"@,
            },
    {
        match self {
            ConfigurationError::BadPort => "Failed to parse port number".to_owned(),
            ConfigurationError::MissingPassword => "Password expected when a username is set".to_owned(),
            ConfigurationError::MissingDatabase => "When notestoretype is set to PostgreSQL, you must configure the keys under database".to_owned(),
        }
    }
}

/// The port number a text denotes, as `u16::from_str` reads it: an optional
/// `+` followed by ASCII digits, of a value below 65536.
pub open spec fn port_of(text: Seq<char>) -> Option<u16> {
    match u64_from_text(text) {
        Some(v) => if v <= u16::MAX {
            Some(v as u16)
        } else {
            None
        },
        None => None,
    }
}

/// An optional text.
pub open spec fn opt_text(o: Option<String>) -> Option<Seq<char>> {
    match o {
        Some(s) => Some(s@),
        None => None,
    }
}

/// Reads a port number.
pub fn parse_port(text: &str) -> (r: Option<u16>)
    ensures
        r == port_of(text@),
{
    let cs = chars_of(text);
    assert(cs@.skip(0) =~= cs@);
    match parse_u64(&cs, 0) {
        Some(v) => if v <= 65535 {
            Some(v as u16)
        } else {
            None
        },
        None => None,
    }
}

impl DatabaseSettings {
    /// The connection to the server, without a database: the port must be a
    /// port number, and a user name needs a password.
    pub fn options_without_db(&self) -> (r: Result<ConnectionOptions, ConfigurationError>)
        ensures
            port_of(self.port@) is None ==> r matches Err(ConfigurationError::BadPort),
            port_of(self.port@) is Some && self.username is Some && self.password is None ==> r matches Err(
                ConfigurationError::MissingPassword,
            ),
            port_of(self.port@) is Some && !(self.username is Some && self.password is None) ==> (r matches Ok(
                o,
            ) && o.host@ == self.host@ && Some(o.port) == port_of(self.port@) && o.database is None
                && opt_text(o.username) == opt_text(self.username) && opt_text(o.password) == (if self.username is Some {
                opt_text(self.password)
            } else {
                None
            })),
    {
        let port = match parse_port(self.port.as_str()) {
            Some(p) => p,
            None => return Err(ConfigurationError::BadPort),
        };
        match &self.username {
            Some(u) => match &self.password {
                Some(p) => Ok(
                    ConnectionOptions {
                        host: self.host.clone(),
                        port,
                        database: None,
                        username: Some(u.clone()),
                        password: Some(p.clone()),
                    },
                ),
                None => Err(ConfigurationError::MissingPassword),
            },
            None => Ok(
                ConnectionOptions { host: self.host.clone(), port, database: None, username: None, password: None },
            ),
        }
    }

    /// The connection to the configured database.
    pub fn options(&self) -> (r: Result<ConnectionOptions, ConfigurationError>)
        ensures
            port_of(self.port@) is None ==> r matches Err(ConfigurationError::BadPort),
            port_of(self.port@) is Some && self.username is Some && self.password is None ==> r matches Err(
                ConfigurationError::MissingPassword,
            ),
            port_of(self.port@) is Some && !(self.username is Some && self.password is None) ==> (r matches Ok(
                o,
            ) && o.host@ == self.host@ && Some(o.port) == port_of(self.port@) && opt_text(o.database) == Some(
                self.name@,
            ) && opt_text(o.username) == opt_text(self.username) && opt_text(o.password) == (if self.username is Some {
                opt_text(self.password)
            } else {
                None
            })),
    {
        match self.options_without_db() {
            Ok(o) => Ok(ConnectionOptions { database: Some(self.name.clone()), ..o }),
            Err(e) => Err(e),
        }
    }
}

/// Where the server keeps its notes.
#[derive(Debug)]
pub enum StorePlan {
    /// In memory.
    InMemory,
    /// In PostgreSQL; with `fresh_database`, in a new database of a random
    /// name, created through the connection given.
    PostgreSQL { connection: ConnectionOptions, fresh_database: bool },
}

impl Settings {
    /// Where the notes are to be kept. A fresh database is connected to
    /// without a database name.
    pub fn store_plan(&self, random_db: bool) -> (r: Result<StorePlan, ConfigurationError>)
        ensures
            self.notestoretype is InMemory ==> r matches Ok(StorePlan::InMemory),
            self.notestoretype is PostgreSQL && self.database is None ==> r matches Err(
                ConfigurationError::MissingDatabase,
            ),
            self.notestoretype is PostgreSQL && self.database is Some ==> match r {
                Ok(StorePlan::PostgreSQL { connection, fresh_database }) => fresh_database == random_db
                    && (random_db ==> connection.database is None) && (!random_db ==> opt_text(
                    connection.database,
                ) == Some(self.database->0.name@)),
                Ok(StorePlan::InMemory) => false,
                Err(e) => e is BadPort || e is MissingPassword,
            },
    {
        match self.notestoretype {
            NoteStoreType::InMemory => Ok(StorePlan::InMemory),
            NoteStoreType::PostgreSQL => {
                let db = match &self.database {
                    Some(d) => d,
                    None => return Err(ConfigurationError::MissingDatabase),
                };
                let connection = if random_db {
                    db.options_without_db()
                } else {
                    db.options()
                };
                match connection {
                    Ok(c) => Ok(StorePlan::PostgreSQL { connection: c, fresh_database: random_db }),
                    Err(e) => Err(e),
                }
            },
        }
    }

    /// The address the server listens on, `host:port`.
    pub fn address(&self) -> (r: String)
        ensures
            r@ == self.host@ + ":"@ + decimal(self.port as nat),
    {
        let mut s = self.host.clone();
        push_all(&mut s, ":");
        push_decimal(&mut s, self.port as u64);
        s
    }
}

} // verus!
