use vstd::prelude::*;

verus! {

/// How a repository access handed to a blocking worker ended.
pub enum AccessOutcome {
    /// The work ran under the lock and produced this page.
    Completed(String),
    /// The lock was found poisoned by an earlier holder that panicked.
    LockPoisoned,
    /// The worker ended abnormally before handing back a result.
    WorkerFailed,
}

/// The HTTP status of a served page.
pub const STATUS_OK: u16 = 200;

/// The HTTP status of an internal failure.
pub const STATUS_INTERNAL_ERROR: u16 = 500;

/// The status and body that answer an access: the page on success, and an
/// internal-error response naming the failure otherwise, so that one failed
/// request neither hangs nor stops the process.
pub fn respond(outcome: AccessOutcome) -> (r: (u16, String))
    ensures
        match outcome {
            AccessOutcome::Completed(page) => r.0 == STATUS_OK && r.1@ == page@,
            AccessOutcome::LockPoisoned => r.0 == STATUS_INTERNAL_ERROR
                && r.1@ == "repository lock is poisoned"@,
            AccessOutcome::WorkerFailed => r.0 == STATUS_INTERNAL_ERROR
                && r.1@ == "repository worker failed"@,
        },
{
    match outcome {
        AccessOutcome::Completed(page) => (STATUS_OK, page),
        AccessOutcome::LockPoisoned => (
            STATUS_INTERNAL_ERROR,
            String::from_str("repository lock is poisoned"),
        ),
        AccessOutcome::WorkerFailed => (
            STATUS_INTERNAL_ERROR,
            String::from_str("repository worker failed"),
        ),
    }
}

} // verus!
