use std::sync::Arc;

use numaperf::io::{device_numa_node, is_virtual_block_device, parse_numa_node};
use numaperf::{CpuSet, DeviceLocality, DeviceMap, DeviceType, NodeId, Topology};

fn test_topology() -> Arc<Topology> {
    let cpus = CpuSet::parse("0-7").unwrap();
    Arc::new(Topology::single_node(cpus))
}

fn dev(name: &str, device_type: DeviceType, numa_node: Option<NodeId>) -> DeviceLocality {
    DeviceLocality { name: name.to_string(), device_type, numa_node }
}

#[test]
fn test_device_type_display() {
    assert_eq!(DeviceType::Network.to_string(), "network");
    assert_eq!(DeviceType::Block.to_string(), "block");
    assert_eq!(DeviceType::Other.to_string(), "other");
}

#[test]
fn test_device_locality_display() {
    let d = dev("eth0", DeviceType::Network, Some(NodeId::new(0)));
    assert!(d.to_string().contains("eth0"));
    assert!(d.to_string().contains("network"));
    assert!(d.to_string().contains("node0"));

    let dev_no_numa = dev("lo", DeviceType::Network, None);
    assert!(dev_no_numa.to_string().contains("no NUMA"));
}

#[test]
fn test_device_locality_helpers() {
    let dev_with_numa = dev("eth0", DeviceType::Network, Some(NodeId::new(1)));
    assert!(dev_with_numa.has_numa_locality());
    assert!(dev_with_numa.is_on_node(NodeId::new(1)));
    assert!(!dev_with_numa.is_on_node(NodeId::new(0)));

    let dev_without_numa = dev("lo", DeviceType::Network, None);
    assert!(!dev_without_numa.has_numa_locality());
    assert!(!dev_without_numa.is_on_node(NodeId::new(0)));
}

#[test]
fn test_device_map_discover() {
    let topo = test_topology();
    let devices = DeviceMap::from_devices(
        Arc::clone(&topo),
        vec![dev("lo", DeviceType::Network, None), dev("sda", DeviceType::Block, Some(NodeId::new(0)))],
    );
    println!("Discovered {} devices", devices.len());
    println!("{}", devices.summary());
}

#[test]
fn test_device_map_empty() {
    let topo = test_topology();
    let devices = DeviceMap::empty(Arc::clone(&topo));
    assert!(devices.is_empty());
    assert_eq!(devices.len(), 0);
}

#[test]
fn test_device_map_add_device() {
    let topo = test_topology();
    let mut devices = DeviceMap::empty(Arc::clone(&topo));
    devices.add_device(dev("test0", DeviceType::Network, Some(NodeId::new(0))));
    assert_eq!(devices.len(), 1);
    assert_eq!(devices.device_node("test0"), Some(NodeId::new(0)));
}

#[test]
fn test_device_map_device_node() {
    let topo = test_topology();
    let mut devices = DeviceMap::empty(Arc::clone(&topo));
    devices.add_device(dev("eth0", DeviceType::Network, Some(NodeId::new(1))));
    devices.add_device(dev("lo", DeviceType::Network, None));

    assert_eq!(devices.device_node("eth0"), Some(NodeId::new(1)));
    assert_eq!(devices.device_node("lo"), None);
    assert_eq!(devices.device_node("nonexistent"), None);
}

#[test]
fn test_device_map_filters() {
    let topo = test_topology();
    let mut devices = DeviceMap::empty(Arc::clone(&topo));
    devices.add_device(dev("eth0", DeviceType::Network, Some(NodeId::new(0))));
    devices.add_device(dev("nvme0n1", DeviceType::Block, Some(NodeId::new(0))));
    devices.add_device(dev("lo", DeviceType::Network, None));

    assert_eq!(devices.network_devices().len(), 2);
    assert_eq!(devices.block_devices().len(), 1);
    assert_eq!(devices.devices_on_node(NodeId::new(0)).len(), 2);
    assert_eq!(devices.devices_on_node(NodeId::new(1)).len(), 0);
    assert_eq!(devices.devices_with_locality().len(), 2);
}

#[test]
fn test_device_locality_fields() {
    let d = dev("eth0", DeviceType::Network, Some(NodeId::new(0)));
    assert_eq!(d.name, "eth0");
    assert_eq!(d.device_type, DeviceType::Network);
    assert_eq!(d.numa_node, Some(NodeId::new(0)));
}

// ---------------------------------------------------------------------------
// Further cases
// ---------------------------------------------------------------------------

#[test]
fn adding_a_device_again_replaces_it() {
    let mut devices = DeviceMap::empty(test_topology());
    devices.add_device(dev("eth0", DeviceType::Network, Some(NodeId::new(0))));
    devices.add_device(dev("sda", DeviceType::Block, None));
    devices.add_device(dev("eth0", DeviceType::Network, Some(NodeId::new(1))));
    assert_eq!(devices.len(), 2);
    assert_eq!(devices.device_node("eth0"), Some(NodeId::new(1)));
    assert_eq!(devices.device("sda").unwrap().device_type, DeviceType::Block);
    assert!(devices.device("sdb").is_none());
    assert_eq!(devices.all_devices().len(), 2);
}

#[test]
fn summary_sorts_each_group_by_name() {
    let devices = DeviceMap::from_devices(
        test_topology(),
        vec![
            dev("wlan0", DeviceType::Network, None),
            dev("sdb", DeviceType::Block, Some(NodeId::new(1))),
            dev("eth0", DeviceType::Network, Some(NodeId::new(0))),
            dev("nvme0n1", DeviceType::Block, Some(NodeId::new(0))),
        ],
    );
    assert_eq!(
        devices.summary(),
        "Device Map: 4 devices\n  Network devices:\n    eth0 (network) on node0\n    wlan0 (network) [no NUMA affinity]\n  Block devices:\n    nvme0n1 (block) on node0\n    sdb (block) on node1\n"
    );
    assert_eq!(DeviceMap::empty(test_topology()).summary(), "Device Map: 0 devices\n");
}

#[test]
fn numa_node_attribute_text() {
    assert_eq!(parse_numa_node("1\n"), Some(NodeId::new(1)));
    assert_eq!(parse_numa_node("  0 "), Some(NodeId::new(0)));
    assert_eq!(parse_numa_node("-1\n"), None);
    assert_eq!(parse_numa_node("x"), None);
    assert_eq!(device_numa_node(Some("-1"), Some("2")), Some(NodeId::new(2)));
    assert_eq!(device_numa_node(Some("3"), Some("2")), Some(NodeId::new(3)));
    assert_eq!(device_numa_node(None, None), None);
}

#[test]
fn virtual_block_devices() {
    assert!(is_virtual_block_device("loop0"));
    assert!(is_virtual_block_device("ram1"));
    assert!(is_virtual_block_device("dm-0"));
    assert!(!is_virtual_block_device("sda"));
    assert!(!is_virtual_block_device("nvme0n1"));
}
