//! An in-memory mock data store driven by a JSON configuration: route keys in
//! canonical `[METHOD] path` form, response files read in at load time, and
//! models whose JSON data can be queried and merged into.

mod config;
mod database;
mod errors;
mod filesystem;
mod json;
mod laws;
mod loader;
mod manager;
mod model;
mod text;
mod writer;

pub use config::{BodyResponse, Config, ConfigResponse, ConfigRoute, ConfigRouteResponse};
pub use database::Database;
pub use errors::{Error, FileSystemError, FileSystemResult};
pub use filesystem::PathUtils;
pub use json::{Json, JsonValue};
pub use manager::{extract_path, ConfigManager, FileSystemManager};
pub use model::{criterion_matches, Model};

use vstd::prelude::*;

verus! {

/// Version of the crate.
pub const VERSION: &'static str = "0.1.0";

/// The version of the crate.
pub fn version() -> (r: &'static str)
    ensures
        r@ == VERSION@,
{
    VERSION
}

} // verus!
