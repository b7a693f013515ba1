//! # configuration
//! This module holds all necessary structs and fn implementations for reading and parsing configuration JSON's.
use vstd::prelude::*;

verus! {

/// Root struct. All application configuration must be defined in here.
#[derive(Debug, Clone)]
pub struct Configuration {
    /// Server configuration
    pub server: Server,
    /// Database configuration
    pub database: Database,
}

/// Server configuration. All server configuration must be defined in here.
#[derive(Debug, Clone)]
pub struct Server {
    /// Host/IP address to listen
    pub host: String,
    /// Port to listen
    pub port: i16,
}

/// Database configuration. All database configuration must be defined in here.
#[derive(Debug, Clone)]
pub struct Database {
    /// Path of the desired database json file. It could be both relative or absolute.
    pub path: String,
    /// Default key to use as the PK(Primary Key) for the tables.
    pub default_pk: String,
}

impl Database {
    /// A copy of this configuration.
    pub fn copy(&self) -> (r: Database)
        ensures
            r.path@ == self.path@,
            r.default_pk@ == self.default_pk@,
    {
        Database { path: self.path.clone(), default_pk: self.default_pk.clone() }
    }
}

impl Configuration {
    /// Creates an instance with default configuration.
    pub fn new() -> (r: Configuration)
        ensures
            r.database.path@ == "db.json"@,
            r.database.default_pk@ == "id"@,
            r.server.port == 8080,
            r.server.host@ == "127.0.0.1"@,
    {
        Configuration {
            database: Database { path: "db.json".to_string(), default_pk: "id".to_string() },
            server: Server { port: 8080, host: "127.0.0.1".to_string() },
        }
    }
}

} // verus!
