//! The command line of the service, and the start-up decision it drives.
//!
//! The parser itself is derived with clap in the application, on a copy of
//! these types; the library holds the commands as plain values.

use vstd::prelude::*;

verus! {

/// The database path used when none is given.
pub const DEFAULT_DB_PATH: &'static str = "data/GeoLite2-City.mmdb";

/// The address the server binds to when none is given.
pub const DEFAULT_BIND: &'static str = "0.0.0.0:5000";

/// A parsed command line.
#[derive(Debug, PartialEq, Eq)]
pub struct Cli {
    pub command: Command,
}

/// What the service was asked to do.
#[derive(Debug, PartialEq, Eq)]
pub enum Command {
    /// Serve the API, downloading the database first when asked to or when
    /// it is missing.
    Serve { bind: String, db_path: String, download: bool },
    /// Download the database and exit.
    Download { db_path: String },
}

/// Whether `serve` downloads the database before it starts: when the
/// download flag is given, or when no database exists at the path.
pub fn should_update_database(download: bool, database_exists: bool) -> (r: bool)
    ensures
        r == (download || !database_exists),
{
    download || !database_exists
}

} // verus!
