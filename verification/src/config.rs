//! The search configuration: the per-user settings that the API layer
//! stores and reads through the key-value backend, which the application
//! drives.

use vstd::prelude::*;

use crate::auth::Credentials;

verus! {

/// The parameters of one search request.
#[derive(Debug)]
pub struct SearchParams {
    pub crawl_depth: u8,
    pub number_of_seeds: u8,
    pub search_method: u8,
    pub browsers: Vec<(String, bool)>,
    pub index_type: u8,
    pub q: String,
}

/// A user's configuration: the user, the connection string of the key-value
/// backend, and the search parameters.
#[derive(Debug)]
pub struct Config {
    pub user: Credentials,
    pub redis_connection_str: String,
    pub search_params: SearchParams,
}

impl Config {
    /// Builds a configuration; an empty connection string is replaced by
    /// the default one.
    pub fn new(user: Credentials, redis_connection_str: String, search_params: SearchParams) -> (c:
        Config)
        ensures
            c.user == user,
            c.search_params == search_params,
            redis_connection_str@.len() == 0 ==> c.redis_connection_str@
                == "redis://127.0.0.1:6379"@,
            redis_connection_str@.len() > 0 ==> c.redis_connection_str == redis_connection_str,
    {
        let conn = if redis_connection_str.as_str().is_empty() {
            String::from_str("redis://127.0.0.1:6379")
        } else {
            redis_connection_str
        };
        Config { user, redis_connection_str: conn, search_params }
    }
}

/// The outcome of a configuration read or write.
pub enum ConfigResult {
    WriteError(String),
    WriteSuccess,
    ReadError(String),
    ReadSuccess(Config),
}

} // verus!
