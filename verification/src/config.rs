//! Configuration: where the store and the conflict log live.

use vstd::prelude::*;
use vstd::string::StringExecFns;

verus! {

/// Paths and switches a synchronization run works with. Locating and
/// loading a configuration file is the caller's business; the library
/// only derives the standard layout under a given data directory.
#[derive(Debug, Clone)]
pub struct Config {
    pub database_path: String,
    pub log_conflicts: bool,
    pub conflict_log_path: String,
}

impl Config {
    /// The configuration rooted at a data directory: the store and the
    /// conflict log live directly inside it, and conflict logging is on.
    pub fn with_data_dir(data_dir: &str) -> (r: Config)
        ensures
            r.database_path@ == data_dir@ + "/stickies.db"@,
            r.log_conflicts == true,
            r.conflict_log_path@ == data_dir@ + "/conflicts.log"@,
    {
        let mut db = String::from_str(data_dir);
        db.append("/stickies.db");
        let mut log = String::from_str(data_dir);
        log.append("/conflicts.log");
        Config { database_path: db, log_conflicts: true, conflict_log_path: log }
    }
}

} // verus!
