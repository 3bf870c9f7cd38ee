use vstd::prelude::*;

verus! {

/// Relies on num_cpus::get: the number of CPUs available to this process,
/// which its documentation promises to be at least 1.
#[verifier::external_body]
fn available_cpus() -> (r: usize)
    ensures
        r >= 1,
{
    num_cpus::get()
}

/// The capacity of the job pool: the limit asked for, or else `cpus`.
pub fn resolve_job_limit(job_limit: Option<usize>, cpus: usize) -> (r: usize)
    ensures
        r == match job_limit {
            Some(n) => n,
            None => cpus,
        },
{
    match job_limit {
        Some(n) => n,
        None => cpus,
    }
}

/// The capacity of the job pool: the limit asked for, or else the number of
/// CPUs available, which is at least one.
pub fn job_limit_or_default(job_limit: Option<usize>) -> (r: usize)
    ensures
        job_limit is Some ==> r == job_limit->Some_0,
        job_limit is None ==> r >= 1,
{
    match job_limit {
        Some(n) => n,
        None => resolve_job_limit(None, available_cpus()),
    }
}

} // verus!
