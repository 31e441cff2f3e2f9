use vstd::prelude::*;

verus! {

/// The classified outcome of running a built command.
#[derive(Debug)]
pub enum ExecutionResult {
    /// The process ran and exited with success; the package manager did what
    /// was asked.
    Success,
    /// The process ran and exited with failure; its standard-error text is
    /// kept, and the package-manager state may have partially changed.
    Failed(String),
    /// The process could not be started at all, so no package-manager state
    /// changed; the reason is kept.
    SpawnFailure(String),
}

/// Classifies a run that completed: a successful exit status is success, any
/// other outcome carries the captured standard-error text.
pub fn classify_exit(exited_ok: bool, stderr: String) -> (r: ExecutionResult)
    ensures
        exited_ok ==> r is Success,
        !exited_ok ==> (r matches ExecutionResult::Failed(e) && e@ == stderr@),
{
    if exited_ok {
        ExecutionResult::Success
    } else {
        ExecutionResult::Failed(stderr)
    }
}

/// Whether a transaction may be recorded after this outcome: only a
/// confirmed success is ever logged, so the log never describes a change
/// that did not happen.
pub fn should_record(r: &ExecutionResult) -> (b: bool)
    ensures
        b == (r is Success),
{
    match r {
        ExecutionResult::Success => true,
        ExecutionResult::Failed(_) => false,
        ExecutionResult::SpawnFailure(_) => false,
    }
}

} // verus!
