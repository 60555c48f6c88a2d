//! GeoIP lookup service: the verified core.
//!
//! The library holds the rules of the service: how errors are reported,
//! how MaxMind credentials and bearer tokens are normalised, how requests are
//! authorised, how a database record becomes a lookup result, how a batch of
//! lookups is assembled, how byte counts are shown, and which archive entry
//! holds the database.  The server, the network and the file system live in
//! the application around it.

pub mod error;
pub mod text;
pub mod download;
pub mod geoip;
pub mod routes;
pub mod cli;
