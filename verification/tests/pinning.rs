use numaperf::affinity::{after_read_back, after_set_affinity, check_applied, check_pin_request, PinNext, ReadBack};
use numaperf::error::{IoError, IoErrorKind};
use numaperf::{CpuSet, HardMode, NumaError};

fn permission_denied() -> NumaError {
    NumaError::PinningFailed {
        source: IoError { kind: IoErrorKind::PermissionDenied, os_code: Some(1), message: "Operation not permitted".to_string() },
    }
}

#[test]
fn test_scoped_pin_empty_cpus() {
    let result = check_pin_request(&CpuSet::new());
    assert!(result.is_err());
}

#[test]
fn test_pin_with_mode_empty_cpus() {
    let result = check_pin_request(&CpuSet::new());
    assert!(result.is_err());
    match result {
        Err(NumaError::InvalidArgument { message }) => assert_eq!(message, "CPU set cannot be empty"),
        _ => panic!("expected an invalid argument"),
    }
}

#[test]
fn pin_request_with_cpus_is_accepted() {
    assert!(check_pin_request(&CpuSet::single(0)).is_ok());
}

#[test]
fn soft_mode_tolerates_permission_errors() {
    assert!(matches!(after_set_affinity(HardMode::Soft, Err(permission_denied())), PinNext::Pinned));
    assert!(matches!(after_set_affinity(HardMode::Soft, Ok(())), PinNext::Pinned));
    let other = NumaError::invalid_argument("bad");
    match after_set_affinity(HardMode::Soft, Err(other)) {
        PinNext::Fail(NumaError::InvalidArgument { message }) => assert_eq!(message, "bad"),
        _ => panic!("expected the error to be passed on"),
    }
}

#[test]
fn strict_mode_checks_and_refuses() {
    assert!(matches!(after_set_affinity(HardMode::Strict, Ok(())), PinNext::CheckApplied));
    match after_set_affinity(HardMode::Strict, Err(permission_denied())) {
        PinNext::Fail(NumaError::HardModeUnavailable { feature, reason }) => {
            assert_eq!(feature, "cpu affinity");
            assert_eq!(reason, "failed to set affinity: thread pinning failed: Operation not permitted");
        }
        _ => panic!("expected a hard-mode error"),
    }
}

#[test]
fn applied_affinity_must_match() {
    let want = CpuSet::parse("0-1").unwrap();
    assert!(check_applied(&want, &CpuSet::parse("0,1").unwrap()).is_ok());
    match check_applied(&want, &CpuSet::single(0)) {
        Err(NumaError::HardModeUnavailable { feature, reason }) => {
            assert_eq!(feature, "cpu affinity");
            assert_eq!(reason, "affinity not fully applied: requested CpuSet(0-1), got CpuSet(0)");
        }
        _ => panic!("expected a hard-mode error"),
    }
}

#[test]
fn read_back_decides_restore() {
    let want = CpuSet::parse("0-1").unwrap();
    assert!(matches!(after_read_back(&want, Ok(CpuSet::parse("0-1").unwrap())), ReadBack::Pinned));
    match after_read_back(&want, Ok(CpuSet::single(1))) {
        ReadBack::RestoreAndFail(NumaError::HardModeUnavailable { feature, .. }) => assert_eq!(feature, "cpu affinity"),
        _ => panic!("expected restore and a hard-mode error"),
    }
    match after_read_back(&want, Err(permission_denied())) {
        ReadBack::RestoreAndFail(NumaError::PinningFailed { .. }) => {}
        _ => panic!("expected restore and the read error"),
    }
}
