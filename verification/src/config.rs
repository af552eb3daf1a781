//! Command-line settings.
use vstd::prelude::*;

verus! {

/// What the command line sets: the ZooKeeper `host:port` to use and the
/// connection timeout in milliseconds.
#[derive(Debug, Clone)]
pub struct Cli {
    pub connect: String,
    pub timeout: u64,
}

impl Default for Cli {
    /// The settings where the command line gives none: `127.0.0.1:2181` and
    /// five seconds.
    fn default() -> (r: Cli)
        ensures
            r.connect@ == "127.0.0.1:2181"@,
            r.timeout == 5000,
    {
        Cli { connect: "127.0.0.1:2181".to_owned(), timeout: 5000 }
    }
}

} // verus!
