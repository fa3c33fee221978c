//! How many workers a search is shared among.

use vstd::prelude::*;
use crate::search::ConfigError;

verus! {

/// The worker count that a request and the number of processors found on
/// the host settle on: the requested count where one was given, else one
/// worker per processor; zero workers are rejected.
pub open spec fn worker_count_spec(requested: Option<usize>, detected: usize) -> Result<
    usize,
    ConfigError,
> {
    let count = match requested {
        Some(n) => n,
        None => detected,
    };
    if count >= 1 {
        Ok(count)
    } else {
        Err(ConfigError::InvalidWorkerCount)
    }
}

/// Number of logical processors available to this process.
///
/// Calls `num_cpus::get`. Its documentation promises a count of at least
/// one; nothing else is claimed of it, and two calls need not agree.
#[verifier::external_body]
fn detected_cpus() -> (n: usize)
    ensures
        n >= 1,
{
    num_cpus::get()
}

/// Settles the worker count from a request and a processor count.
pub fn resolve_worker_count(
    requested: Option<usize>,
    detected: usize,
) -> (r: Result<usize, ConfigError>)
    ensures
        r == worker_count_spec(requested, detected),
{
    let count: usize = match requested {
        Some(n) => n,
        None => detected,
    };
    if count >= 1 {
        Ok(count)
    } else {
        Err(ConfigError::InvalidWorkerCount)
    }
}

/// Settles the worker count from a request, falling back on the number of
/// processors of the host. The host is asked only where nothing was
/// requested, and the fallback never fails.
pub fn worker_count_or_default(requested: Option<usize>) -> (r: Result<usize, ConfigError>)
    ensures
        requested is Some ==> r == worker_count_spec(requested, 0),
        requested is None ==> r is Ok && r->Ok_0 >= 1,
{
    match requested {
        Some(_) => resolve_worker_count(requested, 0),
        None => {
            let detected: usize = detected_cpus();
            resolve_worker_count(requested, detected)
        },
    }
}

} // verus!
