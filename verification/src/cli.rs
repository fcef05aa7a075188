//! The client's startup configuration, as plain data.
//!
//! The command line is read by the program around the library, which
//! fills this in; absent arguments fall back to the defaults below.

use vstd::prelude::*;
use vstd::string::StringExecFns;

verus! {

/// Who to chat as, and where the server is.
pub struct Args {
    pub username: String,
    pub server: String,
}

impl Default for Args {
    /// The defaults used when no arguments are given.
    fn default() -> (r: Args)
        ensures
            r.username@ == "anonymous"@,
            r.server@ == "ws://localhost:3000"@,
    {
        Args {
            username: String::from_str("anonymous"),
            server: String::from_str("ws://localhost:3000"),
        }
    }
}

} // verus!
