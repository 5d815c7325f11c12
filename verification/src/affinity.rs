//! The decisions of thread pinning. Reading and setting a thread's CPU
//! affinity are system calls made by the caller; these functions decide,
//! from what those calls answered, whether a pin stands or fails and with
//! which error.
use vstd::prelude::*;

use crate::cpulist::cpuset_debug_text;
use crate::error::{error_text, NumaError};
use crate::mode::HardMode;
use crate::text::push_str;
use crate::types::CpuSet;

verus! {

/// The message of the error for an empty CPU set.
pub open spec fn empty_cpus_message() -> Seq<char> {
    "CPU set cannot be empty"@
}

/// Checks a pin request: a thread cannot be pinned to no CPU at all.
pub fn check_pin_request(cpus: &CpuSet) -> (r: Result<(), NumaError>)
    ensures
        r is Ok <==> !cpus@.is_empty(),
        r is Err ==> (r matches Err(NumaError::InvalidArgument { message }) && message@
            == empty_cpus_message()),
{
    if cpus.is_empty() {
        Err(NumaError::invalid_argument("CPU set cannot be empty"))
    } else {
        Ok(())
    }
}

/// What a pin does once the affinity call has answered.
pub enum PinNext {
    /// The pin stands.
    Pinned,
    /// Strict mode: read the affinity back and compare it with the request.
    CheckApplied,
    /// The pin fails with this error (the previous affinity is kept).
    Fail(NumaError),
}

/// The reason text of a strict-mode failure to set the affinity.
pub open spec fn set_failed_reason(e: NumaError) -> Seq<char> {
    "failed to set affinity: "@ + error_text(e)
}

/// Decides a pin in `mode` after setting the affinity answered `set`:
/// success is checked further in strict mode and stands in soft mode; a
/// permission failure is tolerated in soft mode; any other failure in soft
/// mode is passed on, and in strict mode becomes a hard-mode error.
pub fn after_set_affinity(mode: HardMode, set: Result<(), NumaError>) -> (r: PinNext)
    ensures
        match set {
            Ok(()) => if mode == HardMode::Strict {
                r is CheckApplied
            } else {
                r is Pinned
            },
            Err(e) => if e.permission_problem() && mode == HardMode::Soft {
                r is Pinned
            } else if mode == HardMode::Strict {
                r matches PinNext::Fail(NumaError::HardModeUnavailable { feature, reason })
                    && feature@ == "cpu affinity"@ && reason@ == set_failed_reason(e)
            } else {
                r == PinNext::Fail(e)
            },
        },
{
    match set {
        Ok(()) => {
            if mode.is_strict() {
                PinNext::CheckApplied
            } else {
                PinNext::Pinned
            }
        },
        Err(e) => {
            if e.is_permission_error() && mode.is_soft() {
                PinNext::Pinned
            } else if mode.is_strict() {
                let mut reason = String::new();
                push_str(&mut reason, "failed to set affinity: ");
                let text = e.to_string();
                push_str(&mut reason, text.as_str());
                assert(reason@ =~= set_failed_reason(e));
                PinNext::Fail(NumaError::hard_mode_unavailable("cpu affinity", reason.as_str()))
            } else {
                PinNext::Fail(e)
            }
        },
    }
}

/// The reason text when the affinity read back differs from the request.
pub open spec fn not_applied_reason(requested: Set<u32>, actual: Set<u32>) -> Seq<char> {
    "affinity not fully applied: requested "@ + cpuset_debug_text(requested) + ", got "@
        + cpuset_debug_text(actual)
}

/// Strict mode: the affinity read back after pinning must be exactly the
/// requested set; otherwise the pin fails (and the caller restores the
/// previous affinity).
pub fn check_applied(requested: &CpuSet, actual: &CpuSet) -> (r: Result<(), NumaError>)
    ensures
        r is Ok <==> requested@ == actual@,
        r is Err ==> (r matches Err(NumaError::HardModeUnavailable { feature, reason }) && feature@
            == "cpu affinity"@ && reason@ == not_applied_reason(requested@, actual@)),
{
    if *actual == *requested {
        Ok(())
    } else {
        let mut reason = String::new();
        push_str(&mut reason, "affinity not fully applied: requested ");
        let a = requested.debug_string();
        push_str(&mut reason, a.as_str());
        push_str(&mut reason, ", got ");
        let b = actual.debug_string();
        push_str(&mut reason, b.as_str());
        assert(reason@ =~= not_applied_reason(requested@, actual@));
        Err(NumaError::hard_mode_unavailable("cpu affinity", reason.as_str()))
    }
}

/// What a strict-mode pin does once the affinity has been read back.
pub enum ReadBack {
    /// The requested affinity is in place: the pin stands.
    Pinned,
    /// Restore the previous affinity, then fail with this error.
    RestoreAndFail(NumaError),
}

/// Strict mode, after setting the affinity: the pin stands only when the
/// affinity read back is exactly the requested set. When it differs, or
/// when it cannot be read, the previous affinity is restored and the pin
/// fails (with the hard-mode error of `check_applied`, or with the error
/// of the read).
pub fn after_read_back(requested: &CpuSet, read: Result<CpuSet, NumaError>) -> (r: ReadBack)
    ensures
        match read {
            Ok(actual) => if actual@ == requested@ {
                r is Pinned
            } else {
                r matches ReadBack::RestoreAndFail(NumaError::HardModeUnavailable { feature, reason })
                    && feature@ == "cpu affinity"@ && reason@ == not_applied_reason(requested@, actual@)
            },
            Err(e) => r == ReadBack::RestoreAndFail(e),
        },
{
    match read {
        Ok(actual) => match check_applied(requested, &actual) {
            Ok(()) => ReadBack::Pinned,
            Err(e) => ReadBack::RestoreAndFail(e),
        },
        Err(e) => ReadBack::RestoreAndFail(e),
    }
}

} // verus!
