//! Configuration passed in by whatever reads the environment: the library
//! itself never touches files or ambient state.

use vstd::prelude::*;

verus! {

/// Connection settings for the backing store.
#[derive(Debug)]
pub struct Conf {
    pub database_uri: String,
    pub max_db_connections: Option<u32>,
}

} // verus!
