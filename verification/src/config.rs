//! Settings read from the environment at start.

use vstd::prelude::*;

verus! {

/// The settings of a running instance.
pub struct Config {
    pub environment: String,
    pub heimdall_hq: String,
    pub heimdall_redis_host: String,
    pub heimdall_secret: String,
}

} // verus!
