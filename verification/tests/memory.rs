use numaperf::error::{IoError, IoErrorKind};
use numaperf::mem::{check_region_size, mbind_outcome, parallel_touch_plan, region_enforcement};
use numaperf::{EnforcementLevel, HardMode, HugePageMode, MemPolicy, NodeId, NodeMask, NumaError, NumaRegion, Prefault};

#[test]
fn test_huge_page_mode() {
    assert_eq!(HugePageMode::default(), HugePageMode::Disabled);
    assert!(!HugePageMode::Disabled.is_transparent());
    assert!(HugePageMode::TransparentOn.is_transparent());
    assert!(HugePageMode::Explicit2MB.is_explicit());
    assert_eq!(HugePageMode::Explicit2MB.page_size(), 2 * 1024 * 1024);
}

#[test]
fn test_mem_policy() {
    let bind = MemPolicy::bind_single(NodeId::new(0));
    assert_eq!(bind.name(), "Bind");

    let preferred = MemPolicy::Preferred(NodeId::new(1));
    assert_eq!(preferred.name(), "Preferred");

    let interleave = MemPolicy::interleave(NodeMask::from_nodes(&[NodeId::new(0), NodeId::new(1)]));
    assert_eq!(interleave.name(), "Interleave");

    let local = MemPolicy::Local;
    assert_eq!(local.name(), "Local");
    assert!(local.nodes().is_none());
}

#[test]
fn test_mem_policy_display() {
    let bind = MemPolicy::bind_single(NodeId::new(0));
    assert_eq!(bind.to_string(), "Bind(0)");

    let local = MemPolicy::Local;
    assert_eq!(local.to_string(), "Local");
}

#[test]
fn test_prefault_default() {
    assert_eq!(Prefault::default(), Prefault::Lazy);
}

// ---------------------------------------------------------------------------
// Further cases
// ---------------------------------------------------------------------------

#[test]
fn test_region_zero_size() {
    let result = check_region_size(0);
    assert!(result.is_err());
    match result {
        Err(NumaError::InvalidArgument { message }) => assert_eq!(message, "size cannot be zero"),
        _ => panic!("expected an invalid argument"),
    }
    assert!(check_region_size(4096).is_ok());
}

#[test]
fn region_records_its_mapping() {
    let region = NumaRegion::from_mapping(0x1000, 4096 * 10, MemPolicy::Local, EnforcementLevel::Strict);
    assert_eq!(region.len(), 4096 * 10);
    assert!(!region.is_empty());
    assert_eq!(region.policy(), &MemPolicy::Local);
    assert_eq!(region.address(), 0x1000);
    assert!(region.enforcement().is_strict());
}

#[test]
fn policy_texts_and_nodes() {
    let p = MemPolicy::Preferred(NodeId::new(2));
    assert_eq!(p.to_string(), "Preferred(node2)");
    assert_eq!(p.nodes().unwrap().iter(), vec![NodeId::new(2)]);
    let i = MemPolicy::interleave(NodeMask::from_nodes(&[NodeId::new(1), NodeId::new(0)]));
    assert_eq!(i.to_string(), "Interleave(0,1)");
    assert_eq!(MemPolicy::default(), MemPolicy::Local);
}

#[test]
fn mbind_arguments() {
    assert_eq!(MemPolicy::Local.mbind_args(), (4, 0, 0));
    assert_eq!(MemPolicy::Preferred(NodeId::new(3)).mbind_args(), (1, 8, 64));
    assert_eq!(MemPolicy::bind_single(NodeId::new(1)).mbind_args(), (2, 2, 64));
}

#[test]
fn mbind_results() {
    let ok = mbind_outcome(0, IoError::new(IoErrorKind::Other, "unused")).unwrap();
    assert!(ok.is_strict());
    let eperm = IoError { kind: IoErrorKind::PermissionDenied, os_code: Some(1), message: "denied".to_string() };
    let soft = mbind_outcome(-1, eperm).unwrap();
    assert_eq!(soft.reason(), Some("mbind failed with EPERM, policy not enforced"));
    let other = IoError { kind: IoErrorKind::InvalidInput, os_code: Some(22), message: "bad".to_string() };
    assert!(matches!(mbind_outcome(-1, other), Err(NumaError::BindFailed { .. })));
}

#[test]
fn region_enforcement_by_mode() {
    let best = EnforcementLevel::best_effort("no privilege");
    match region_enforcement(HardMode::Strict, Ok(best.clone())) {
        Err(NumaError::HardModeUnavailable { feature, reason }) => {
            assert_eq!(feature, "memory policy");
            assert_eq!(reason, "no privilege");
        }
        _ => panic!("strict mode must refuse best effort"),
    }
    assert_eq!(region_enforcement(HardMode::Soft, Ok(best.clone())).unwrap(), best);
    let failed = NumaError::invalid_argument("x");
    let level = region_enforcement(HardMode::Soft, Err(failed)).unwrap();
    assert_eq!(level.reason(), Some("mbind failed: invalid argument: x"));
}

#[test]
fn touch_plan_covers_the_region() {
    let len = 4096 * 1000;
    let plan = parallel_touch_plan(len, Some(2));
    assert_eq!(plan, vec![(0, len / 2), (len / 2, len)]);
    assert_eq!(parallel_touch_plan(4096, Some(8)), vec![(0, 4096)]);
    let big = 64 * 1024 * 1024;
    let plan = parallel_touch_plan(big, Some(32));
    assert_eq!(plan.len(), 16);
    assert_eq!(plan[0].0, 0);
    assert_eq!(plan[15].1, big);
}
