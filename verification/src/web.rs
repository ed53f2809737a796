//! State handed to the outward-facing collaborators.
//!
//! The transport and the query front end live outside this crate; what they
//! share with the core is plain data: the process configuration and the
//! catalogue.  The query front end's one decision — which catalogued record
//! a scored query matches best — is made here, against the matcher's
//! contract.

use vstd::prelude::*;

use crate::database::LevelDatabase;
use crate::difficulty::LevelDifficulty;
use crate::matcher::is_first_min;

verus! {

/// Process configuration, decoded by the caller from its configuration
/// file.
pub struct Config {
    pub token: String,
    pub server_id: String,
    pub bot_id: String,
    pub channels: Vec<String>,
    pub unprotected_ip: Option<String>,
}

/// What the front end is started with.
pub struct Init {
    pub database: LevelDatabase,
}

/// The state the front end shares across requests.
pub struct AppState {
    pub database: LevelDatabase,
}

impl AppState {
    /// The best match for a scored query within one tier: the record with
    /// the smallest distance key, ties to the earliest record.  `keys`
    /// pairs with the tier's records by index.  `None` exactly when the
    /// tier is empty.
    pub fn best_guess(&self, d: LevelDifficulty, keys: &Vec<u32>) -> (r: Option<(usize, u32)>)
        requires
            keys@.len() == self.database.spec_partition(d).len(),
        ensures
            match r {
                None => self.database.spec_partition(d).len() == 0,
                Some(pair) => {
                    &&& is_first_min(keys@, pair.0 as int)
                    &&& pair.1 == keys@[pair.0 as int]
                },
            },
    {
        self.database.partition(d).best_match_in(keys)
    }
}

} // verus!
