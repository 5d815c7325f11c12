use numaperf::capability::{check_capability_bit, CAP_IPC_LOCK, CAP_SYS_ADMIN, CAP_SYS_NICE};
use numaperf::cpulist::ParseCpuSetError;
use numaperf::error::{error_code, error_code_text, IoError, IoErrorKind};
use numaperf::{Capabilities, CpuSet, EnforcementLevel, HardMode, NodeId, NodeMask, NumaError};

/// Capabilities as an unprivileged process on a two-node machine sees them.
fn system_caps() -> Capabilities {
    let status = "Name:\tbench\nCapInh:\t0000000000000000\nCapPrm:\t0000000000000000\nCapEff:\t0000000000000000\n";
    let entries = vec![
        "node0".to_string(),
        "node1".to_string(),
        "possible".to_string(),
        "online".to_string(),
    ];
    Capabilities::from_system(Some(status), true, Some("1\n"), Some(&entries))
}

#[test]
fn test_capability_detection() {
    let caps = system_caps();
    assert!(caps.numa_node_count >= 1);
}

#[test]
fn test_missing_capabilities() {
    let caps = system_caps();
    let missing = caps.missing_for_hard_mode();
    if caps.supports_hard_mode() {
        assert!(missing.is_empty());
    } else {
        assert!(!missing.is_empty());
    }
}

#[test]
fn test_capability_bit_check() {
    assert!(check_capability_bit("0000000000200000", CAP_SYS_ADMIN));
    assert!(check_capability_bit("0000000000800000", CAP_SYS_NICE));
    assert!(check_capability_bit("0000000000004000", CAP_IPC_LOCK));

    assert!(check_capability_bit("ffffffffffffffff", CAP_SYS_ADMIN));
    assert!(check_capability_bit("ffffffffffffffff", CAP_SYS_NICE));
    assert!(check_capability_bit("ffffffffffffffff", CAP_IPC_LOCK));

    assert!(!check_capability_bit("0000000000000000", CAP_SYS_ADMIN));
    assert!(!check_capability_bit("0000000000000000", CAP_SYS_NICE));
    assert!(!check_capability_bit("0000000000000000", CAP_IPC_LOCK));
}

#[test]
fn test_summary_format() {
    let caps = system_caps();
    let summary = caps.summary();
    assert!(summary.contains("NUMA System Capabilities"));
    assert!(summary.contains("NUMA nodes detected:"));
    assert!(summary.contains("CAP_SYS_ADMIN"));
    assert!(summary.contains("CAP_SYS_NICE"));
    assert!(summary.contains("Hard mode supported:"));
}

#[test]
fn capability_test_display() {
    let caps = system_caps();
    let display = caps.to_string();
    assert!(display.contains("Capabilities"));
    assert!(display.contains("nodes="));
}

#[test]
fn test_is_numa_system() {
    let caps = system_caps();
    if caps.numa_node_count > 1 {
        assert!(caps.is_numa_system());
    } else {
        assert!(!caps.is_numa_system());
    }
}

#[test]
fn test_capability_struct_fields() {
    let caps = Capabilities {
        strict_memory_binding: true,
        strict_cpu_affinity: true,
        memory_locking: true,
        numa_balancing_disabled: true,
        numa_node_count: 2,
    };
    assert!(caps.supports_hard_mode());
    assert!(caps.missing_for_hard_mode().is_empty());
    assert!(caps.is_numa_system());
}

#[test]
fn test_missing_some_capabilities() {
    let caps = Capabilities {
        strict_memory_binding: false,
        strict_cpu_affinity: true,
        memory_locking: true,
        numa_balancing_disabled: false,
        numa_node_count: 1,
    };
    assert!(!caps.supports_hard_mode());
    let missing = caps.missing_for_hard_mode();
    assert_eq!(missing.len(), 2);
    assert!(missing.iter().any(|s| s.contains("CAP_SYS_ADMIN")));
    assert!(missing.iter().any(|s| s.contains("numa_balancing")));
}

#[test]
fn test_enforcement_level() {
    let strict = EnforcementLevel::strict();
    assert!(strict.is_strict());
    assert!(!strict.is_best_effort());
    assert!(strict.reason().is_none());

    let best = EnforcementLevel::best_effort("missing CAP_SYS_ADMIN");
    assert!(best.is_best_effort());
    assert_eq!(best.reason(), Some("missing CAP_SYS_ADMIN"));

    let none = EnforcementLevel::none("NUMA not supported");
    assert!(none.is_none());
    assert_eq!(none.reason(), Some("NUMA not supported"));
}

#[test]
fn test_enforcement_display() {
    assert_eq!(EnforcementLevel::strict().to_string(), "strict");
    assert_eq!(EnforcementLevel::best_effort("reason").to_string(), "best-effort (reason)");
}

#[test]
fn test_error_display() {
    let err = NumaError::policy_not_supported("Bind", "kernel too old");
    assert_eq!(err.to_string(), "memory policy not supported: kernel too old");

    let err = NumaError::CapabilityMissing { capability: "CAP_SYS_NICE" };
    assert_eq!(err.to_string(), "missing capability: CAP_SYS_NICE");
}

#[test]
fn test_error_is_permission() {
    let err = NumaError::CapabilityMissing { capability: "CAP_SYS_NICE" };
    assert!(err.is_permission_error());

    // EPERM = 1 on Linux
    let err = NumaError::pinning(std::io::Error::from_raw_os_error(1));
    assert!(err.is_permission_error());
}

#[test]
fn test_hard_mode_default() {
    assert_eq!(HardMode::default(), HardMode::Soft);
}

#[test]
fn test_hard_mode_checks() {
    assert!(HardMode::Soft.is_soft());
    assert!(!HardMode::Soft.is_strict());
    assert!(!HardMode::Strict.is_soft());
    assert!(HardMode::Strict.is_strict());
}

#[test]
fn test_node_id() {
    let node = NodeId::new(5);
    assert_eq!(node.as_u32(), 5);
    assert_eq!(node.to_string(), "node5");
}

#[test]
fn test_cpu_set_basic() {
    let mut set = CpuSet::new();
    assert!(set.is_empty());
    assert_eq!(set.count(), 0);

    set.add(0);
    set.add(3);
    set.add(7);
    assert!(!set.is_empty());
    assert_eq!(set.count(), 3);
    assert!(set.contains(0));
    assert!(set.contains(3));
    assert!(set.contains(7));
    assert!(!set.contains(1));

    set.remove(3);
    assert_eq!(set.count(), 2);
    assert!(!set.contains(3));
}

#[test]
fn test_cpu_set_parse() {
    let set = CpuSet::parse("0-3,8-11").unwrap();
    assert_eq!(set.count(), 8);
    assert!(set.contains(0));
    assert!(set.contains(3));
    assert!(!set.contains(4));
    assert!(set.contains(8));
    assert!(set.contains(11));
    assert!(!set.contains(12));

    let set2 = CpuSet::parse("1,3,5").unwrap();
    assert_eq!(set2.count(), 3);
    assert!(set2.contains(1));
    assert!(set2.contains(3));
    assert!(set2.contains(5));
}

#[test]
fn test_cpu_set_display() {
    let set = CpuSet::parse("0-3,8-11").unwrap();
    assert_eq!(set.to_string(), "0-3,8-11");

    let set2 = CpuSet::parse("1,3,5").unwrap();
    assert_eq!(set2.to_string(), "1,3,5");
}

#[test]
fn test_node_mask() {
    let mut mask = NodeMask::new();
    assert!(mask.is_empty());

    mask.add(NodeId(0));
    mask.add(NodeId(2));
    assert_eq!(mask.count(), 2);
    assert!(mask.contains(NodeId(0)));
    assert!(mask.contains(NodeId(2)));
    assert!(!mask.contains(NodeId(1)));
}

#[test]
fn test_node_mask_from_array() {
    let mask = NodeMask::from_nodes(&[NodeId(0), NodeId(3)]);
    assert_eq!(mask.count(), 2);
    assert!(mask.contains(NodeId(0)));
    assert!(mask.contains(NodeId(3)));
}

// ---------------------------------------------------------------------------
// Further cases
// ---------------------------------------------------------------------------

#[test]
fn cpu_list_round_trip_keeps_the_set() {
    let cpus = CpuSet::from_cpus(&[0, 1, 2, 5, 7, 8, 9, 1023]);
    let text = cpus.to_string();
    assert_eq!(text, "0-2,5,7-9,1023");
    let back = CpuSet::parse(&text).unwrap();
    assert!(back == cpus);
}

#[test]
fn empty_cpu_list_is_empty_text_and_parses_back() {
    let cpus = CpuSet::new();
    assert_eq!(cpus.to_string(), "");
    assert!(CpuSet::parse("").unwrap().is_empty());
    assert!(CpuSet::parse("  ").unwrap().is_empty());
}

#[test]
fn cpu_list_errors() {
    match CpuSet::parse("0-x") {
        Err(ParseCpuSetError::InvalidNumber(s)) => assert_eq!(s, "x"),
        _ => panic!("expected an invalid number"),
    }
    match CpuSet::parse("5-2") {
        Err(e) => {
            assert!(matches!(e, ParseCpuSetError::InvalidRange(5, 2)));
            assert_eq!(e.to_string(), "invalid range: 5-2");
        }
        Ok(_) => panic!("expected an invalid range"),
    }
    match CpuSet::parse("1024") {
        Err(e) => {
            assert!(matches!(e, ParseCpuSetError::CpuOutOfRange(1024)));
            assert_eq!(e.to_string(), "CPU 1024 exceeds maximum 1024");
        }
        Ok(_) => panic!("expected an out-of-range CPU"),
    }
}

#[test]
fn cpu_list_skips_blank_items_and_spaces() {
    let set = CpuSet::parse(" 1 , ,3- 4 ").unwrap();
    assert_eq!(set.iter(), vec![1, 3, 4]);
    assert_eq!(set.debug_string(), "CpuSet(1,3-4)");
}

#[test]
fn cpu_set_union_and_intersection() {
    let a = CpuSet::parse("0-3").unwrap();
    let b = CpuSet::parse("2-5").unwrap();
    assert_eq!(a.union(&b).to_string(), "0-5");
    assert_eq!(a.intersection(&b).to_string(), "2-3");
    assert_eq!(a.first(), Some(0));
    assert_eq!(CpuSet::new().first(), None);
}

#[test]
fn raw_bitmap_round_trip() {
    let mut set = CpuSet::single(65);
    assert_eq!(set.as_raw()[1], 2);
    set.as_raw_mut()[0] = 1;
    assert_eq!(set.to_string(), "0,65");
    let copy = CpuSet::from_raw(*set.as_raw());
    assert!(copy == set);
}

#[test]
fn node_mask_text_and_iteration() {
    let mask = NodeMask::from_nodes(&[NodeId(3), NodeId(1)]);
    assert_eq!(mask.iter(), vec![NodeId(1), NodeId(3)]);
    assert_eq!(mask.to_string(), "1,3");
    assert_eq!(mask.first(), Some(NodeId(1)));
}

#[test]
fn capabilities_from_status_text() {
    let status = "CapEff:\t0000000000a04000\n";
    let caps = Capabilities::from_system(Some(status), false, None, None);
    assert!(caps.strict_memory_binding);
    assert!(caps.strict_cpu_affinity);
    assert!(caps.memory_locking);
    assert!(caps.numa_balancing_disabled);
    assert_eq!(caps.numa_node_count, 1);
    assert!(caps.supports_hard_mode());
    assert_eq!(caps.to_string(), "Capabilities(nodes=1, hard_mode=supported)");
}

#[test]
fn error_texts() {
    let e = NumaError::hard_mode_unavailable("cpu affinity", "denied");
    assert_eq!(e.to_string(), "hard mode unavailable for cpu affinity: denied");
    let e = NumaError::invalid_argument("size cannot be zero");
    assert_eq!(e.to_string(), "invalid argument: size cannot be zero");
    assert!(NumaError::NotSupported { feature: "CPU affinity" }.is_not_supported());
    let e = NumaError::Io(IoError::new(IoErrorKind::PermissionDenied, "no"));
    assert!(e.is_permission_error());
    assert_eq!(e.to_string(), "I/O error: no");
}

#[test]
fn enforcement_none_text() {
    let e = EnforcementLevel::none("mbind failed");
    assert_eq!(e.to_string(), "none (mbind failed)");
}

#[test]
fn node_id_conversions() {
    let id: NodeId = 7u32.into();
    assert_eq!(id, NodeId(7));
    let raw: u32 = NodeId(9).into();
    assert_eq!(raw, 9);
}

#[test]
fn io_errors_keep_kind_and_code() {
    let e = IoError::from_std(std::io::Error::from_raw_os_error(13));
    assert_eq!(e.os_code, Some(13));
    assert_eq!(e.kind, IoErrorKind::PermissionDenied);
    let e = IoError::from_std(std::io::Error::new(std::io::ErrorKind::NotFound, "gone"));
    assert_eq!(e.os_code, None);
    assert_eq!(e.kind, IoErrorKind::NotFound);
    assert_eq!(e.message, "gone");
}

#[test]
fn error_constructors_keep_the_os_error() {
    let e = NumaError::pinning(std::io::Error::from_raw_os_error(1));
    let text = std::io::Error::from_raw_os_error(1).to_string();
    match &e {
        NumaError::PinningFailed { source } => assert_eq!(source.message, text),
        _ => panic!("expected a pinning error"),
    }
    match NumaError::allocation(4096, std::io::Error::from_raw_os_error(12)) {
        NumaError::AllocationFailed { size, source } => {
            assert_eq!(size, 4096);
            assert_eq!(source.os_code, Some(12));
        }
        _ => panic!("expected an allocation error"),
    }
    match NumaError::bind(std::io::Error::new(std::io::ErrorKind::Other, "no bind")) {
        NumaError::BindFailed { source } => assert_eq!(source.message, "no bind"),
        _ => panic!("expected a bind error"),
    }
}

#[test]
fn error_codes() {
    assert_eq!(error_code(&NumaError::invalid_argument("x")), -1);
    assert_eq!(error_code(&NumaError::NotSupported { feature: "f" }), -8);
    assert_eq!(error_code(&NumaError::bind(std::io::Error::from_raw_os_error(22))), -9);
    assert_eq!(error_code_text(-4), "thread pinning failed");
    assert_eq!(error_code_text(0), "success");
    assert_eq!(error_code_text(99), "unknown error");
}
