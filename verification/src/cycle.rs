//! What a synchronisation cycle is to do, and how its outcome is settled.
use vstd::prelude::*;
use vstd::string::*;

use crate::error::SyncError;
use crate::s3path::{is_s3_location, is_s3_path, parse_s3_path, s3_bucket, s3_prefix};
use crate::text::text_equals;

verus! {

/// The work of one cycle.
#[derive(Debug, PartialEq, Eq)]
pub enum CycleTarget {
    /// Bring the remote objects under `prefix` in `bucket` to the local directory.
    Pull { bucket: String, prefix: String },
    /// Bring the local directory to the remote objects under `prefix` in `bucket`.
    Push { bucket: String, prefix: String },
    /// The remote path is not an S3 location: nothing is synchronised.
    LocalOnly,
}

/// The mode word for remote-to-local synchronisation.
pub open spec fn pull_mode() -> Seq<char> {
    seq!['p', 'u', 'l', 'l']
}

/// The mode word for local-to-remote synchronisation.
pub open spec fn push_mode() -> Seq<char> {
    seq!['p', 'u', 's', 'h']
}

/// Decides what a cycle does with `remote_path` in mode `sync_mode`: nothing for a
/// non-S3 path; otherwise a pull or a push of the bucket and prefix it names, or a refusal of
/// any mode other than `pull` and `push`.
pub fn plan_cycle(remote_path: &str, sync_mode: &str) -> (r: Result<CycleTarget, SyncError>)
    ensures
        !is_s3_location(remote_path@) ==> r == Ok::<CycleTarget, SyncError>(CycleTarget::LocalOnly),
        is_s3_location(remote_path@) && sync_mode@ == pull_mode() ==> match r {
            Ok(CycleTarget::Pull { bucket, prefix }) => bucket@ == s3_bucket(remote_path@)
                && prefix@ == s3_prefix(remote_path@),
            _ => false,
        },
        is_s3_location(remote_path@) && sync_mode@ == push_mode() ==> match r {
            Ok(CycleTarget::Push { bucket, prefix }) => bucket@ == s3_bucket(remote_path@)
                && prefix@ == s3_prefix(remote_path@),
            _ => false,
        },
        is_s3_location(remote_path@) && sync_mode@ != pull_mode() && sync_mode@ != push_mode()
            ==> match r {
            Err(SyncError::UnknownSyncMode(m)) => m@ == sync_mode@,
            _ => false,
        },
{
    if !is_s3_path(remote_path) {
        return Ok(CycleTarget::LocalOnly);
    }
    let (bucket, prefix) = match parse_s3_path(remote_path) {
        Ok(parts) => parts,
        Err(e) => return Err(e),
    };
    let pull = "pull";
    let push = "push";
    proof {
        reveal_strlit("pull");
        reveal_strlit("push");
        assert(pull@ =~= pull_mode());
        assert(push@ =~= push_mode());
    }
    if text_equals(sync_mode, pull) {
        Ok(CycleTarget::Pull { bucket, prefix })
    } else if text_equals(sync_mode, push) {
        Ok(CycleTarget::Push { bucket, prefix })
    } else {
        Err(SyncError::UnknownSyncMode(String::from_str(sync_mode)))
    }
}

/// Settles an operation run under a time limit: its own result when it finished in time
/// (`finished` holds it), otherwise a timeout error naming the limit.
pub fn timeout_outcome<T, E>(finished: Option<Result<T, E>>, timeout_ms: u64) -> (r: Result<
    Result<T, E>,
    SyncError,
>)
    ensures
        match finished {
            Some(res) => r == Ok::<Result<T, E>, SyncError>(res),
            None => r == Err::<Result<T, E>, SyncError>(SyncError::Timeout(timeout_ms)),
        },
{
    match finished {
        Some(res) => Ok(res),
        None => Err(SyncError::Timeout(timeout_ms)),
    }
}

/// One line of the log: the time stamp, a space, the message and a line break.
pub fn log_line(stamp: &str, message: &str) -> (r: String)
    ensures
        r@ == stamp@ + seq![' '] + message@ + seq!['\n'],
{
    let space = " ";
    let newline = "\n";
    proof {
        reveal_strlit(" ");
        reveal_strlit("\n");
    }
    let mut line = String::from_str(stamp);
    line.append(space);
    line.append(message);
    line.append(newline);
    line
}

} // verus!
