//! The NUMA locality of I/O devices: which node a network or block device
//! is attached to, and a map of devices by name.
use vstd::prelude::*;

use std::sync::Arc;

use crate::text::{
    chars_of, dec, has_prefix, less_text, owned, parse_i32_range, parse_i32_spec, push_decimal, push_str,
    same_text, starts_with, text_less, trim, trim_bounds,
};
use crate::topo::{node_name, push_node_name, Topology};
use crate::types::NodeId;

verus! {

/// The type of I/O device.
#[derive(Debug, Clone, Copy, PartialEq, Eq, Hash, Structural)]
pub enum DeviceType {
    /// Network interface (e.g., eth0, ens33).
    Network,
    /// Block device (e.g., nvme0n1, sda).
    Block,
    /// Other device type.
    Other,
}

/// The display text of a device type.
pub open spec fn device_type_text(t: DeviceType) -> Seq<char> {
    match t {
        DeviceType::Network => "network"@,
        DeviceType::Block => "block"@,
        DeviceType::Other => "other"@,
    }
}

impl DeviceType {
    /// The display text: "network", "block" or "other".
    pub fn to_str(&self) -> (r: &'static str)
        ensures
            r@ == device_type_text(*self),
    {
        match self {
            DeviceType::Network => "network",
            DeviceType::Block => "block",
            DeviceType::Other => "other",
        }
    }

    /// The display text as a `String`.
    pub fn to_string(&self) -> (r: String)
        ensures
            r@ == device_type_text(*self),
    {
        owned(self.to_str())
    }
}

/// What a `DeviceLocality` holds.
pub struct DeviceInfo {
    pub name: Seq<char>,
    pub device_type: DeviceType,
    pub numa_node: Option<NodeId>,
}

/// NUMA locality information for a device.
#[derive(Debug, Clone, PartialEq, Eq)]
pub struct DeviceLocality {
    /// The device name (e.g., "eth0", "nvme0n1").
    pub name: String,
    /// The device type.
    pub device_type: DeviceType,
    /// The NUMA node this device is closest to, if known: `None` for
    /// devices without a NUMA affinity or when the kernel does not say.
    pub numa_node: Option<NodeId>,
}

impl View for DeviceLocality {
    type V = DeviceInfo;

    open spec fn view(&self) -> DeviceInfo {
        DeviceInfo { name: self.name@, device_type: self.device_type, numa_node: self.numa_node }
    }
}

/// The display text of a device: "eth0 (network) on node0", or
/// "lo (network) [no NUMA affinity]".
pub open spec fn device_text(d: DeviceInfo) -> Seq<char> {
    match d.numa_node {
        Some(n) => d.name + " ("@ + device_type_text(d.device_type) + ") on "@ + node_name(n),
        None => d.name + " ("@ + device_type_text(d.device_type) + ") [no NUMA affinity]"@,
    }
}

/// Appends the display text of a device.
fn push_device_text(s: &mut String, d: &DeviceLocality)
    ensures
        final(s)@ == old(s)@ + device_text(d@),
{
    push_str(s, d.name.as_str());
    push_str(s, " (");
    push_str(s, d.device_type.to_str());
    match d.numa_node {
        Some(n) => {
            push_str(s, ") on ");
            push_node_name(s, n);
        },
        None => {
            push_str(s, ") [no NUMA affinity]");
        },
    }
    assert(final(s)@ =~= old(s)@ + device_text(d@));
}

impl DeviceLocality {
    /// Create the locality record of a device.
    pub fn new(name: &str, device_type: DeviceType, numa_node: Option<NodeId>) -> (r: Self)
        ensures
            r@ == (DeviceInfo { name: name@, device_type, numa_node }),
    {
        DeviceLocality { name: owned(name), device_type, numa_node }
    }

    /// Check if this device has a known NUMA node.
    pub fn has_numa_locality(&self) -> (r: bool)
        ensures
            r == self.numa_node is Some,
    {
        self.numa_node.is_some()
    }

    /// Check if this device is on a specific node.
    pub fn is_on_node(&self, node: NodeId) -> (r: bool)
        ensures
            r == (self.numa_node == Some(node)),
    {
        match self.numa_node {
            Some(n) => n.0 == node.0,
            None => false,
        }
    }

    /// The display text.
    pub fn to_string(&self) -> (r: String)
        ensures
            r@ == device_text(self@),
    {
        let mut s = String::new();
        push_device_text(&mut s, self);
        assert(s@ =~= device_text(self@));
        s
    }
}

// ---------------------------------------------------------------------------
// Reading device attributes
// ---------------------------------------------------------------------------

/// The node named by the text of a `numa_node` attribute: a whole `i32`
/// (surrounding whitespace ignored) that is not negative; -1 means "no node".
pub open spec fn numa_node_value(content: Seq<char>) -> Option<NodeId> {
    match parse_i32_spec(trim(content)) {
        Some(v) => if v >= 0 {
            Some(NodeId(v as u32))
        } else {
            None
        },
        None => None,
    }
}

/// Reads the text of a device's `numa_node` attribute.
pub fn parse_numa_node(content: &str) -> (r: Option<NodeId>)
    ensures
        r == numa_node_value(content@),
{
    let v = chars_of(content);
    let (a, b) = trim_bounds(&v, 0, v.len());
    assert(v@.subrange(0, v@.len() as int) =~= content@);
    match parse_i32_range(&v, a, b) {
        Some(n) => {
            if n >= 0 {
                Some(NodeId::new(n as u32))
            } else {
                None
            }
        },
        None => None,
    }
}

/// The node of a device, from the texts of its `device/numa_node` and
/// `numa_node` attributes where they could be read: the first that names
/// a node wins.
pub fn device_numa_node(device_attr: Option<&str>, direct_attr: Option<&str>) -> (r: Option<NodeId>)
    ensures
        r == match device_attr {
            Some(t) if numa_node_value(t@) is Some => numa_node_value(t@),
            _ => match direct_attr {
                Some(t) => numa_node_value(t@),
                None => None,
            },
        },
{
    if let Some(t) = device_attr {
        let n = parse_numa_node(t);
        if n.is_some() {
            return n;
        }
    }
    match direct_attr {
        Some(t) => parse_numa_node(t),
        None => None,
    }
}

/// Whether a block device is virtual and has no NUMA locality (loop, ram
/// and device-mapper devices).
pub open spec fn virtual_block_name(name: Seq<char>) -> bool {
    has_prefix(name, "loop"@) || has_prefix(name, "ram"@) || has_prefix(name, "dm-"@)
}

/// Whether a block device is skipped by discovery as virtual.
pub fn is_virtual_block_device(name: &str) -> (r: bool)
    ensures
        r == virtual_block_name(name@),
{
    let v = chars_of(name);
    assert(v@.subrange(0, v@.len() as int) =~= name@);
    starts_with(&v, 0, v.len(), "loop") || starts_with(&v, 0, v.len(), "ram") || starts_with(
        &v,
        0,
        v.len(),
        "dm-",
    )
}

// ---------------------------------------------------------------------------
// The device map
// ---------------------------------------------------------------------------

/// No two devices share a name.
pub open spec fn names_unique(s: Seq<DeviceInfo>) -> bool {
    forall|i: int, j: int| 0 <= i < s.len() && 0 <= j < s.len() && i != j ==> (#[trigger] s[i]).name != (#[trigger] s[j]).name
}

/// Whether some device is named `name`.
pub open spec fn has_device(s: Seq<DeviceInfo>, name: Seq<char>) -> bool {
    exists|i: int| 0 <= i < s.len() && (#[trigger] s[i]).name == name
}

/// The position of the device named `name` (meaningful where there is one).
pub open spec fn device_index(s: Seq<DeviceInfo>, name: Seq<char>) -> int {
    choose|i: int| 0 <= i < s.len() && (#[trigger] s[i]).name == name
}

/// The device named `name`, if any.
pub open spec fn device_named(s: Seq<DeviceInfo>, name: Seq<char>) -> Option<DeviceInfo> {
    if has_device(s, name) {
        Some(s[device_index(s, name)])
    } else {
        None
    }
}

/// `s` with `d` put in: it replaces the device of the same name, or is
/// added at the end.
pub open spec fn put_device(s: Seq<DeviceInfo>, d: DeviceInfo) -> Seq<DeviceInfo> {
    if has_device(s, d.name) {
        s.update(device_index(s, d.name), d)
    } else {
        s.push(d)
    }
}

/// `s` with each of `ds` put in, in order.
pub open spec fn put_all(s: Seq<DeviceInfo>, ds: Seq<DeviceInfo>) -> Seq<DeviceInfo>
    decreases ds.len(),
{
    if ds.len() == 0 {
        s
    } else {
        put_device(put_all(s, ds.drop_last()), ds.last())
    }
}

/// A selection of devices.
pub enum DeviceFilter {
    /// Devices of a type.
    OfType(DeviceType),
    /// Devices on a node.
    OnNode(NodeId),
    /// Devices with a known node.
    WithLocality,
    /// All devices.
    All,
}

/// Whether `d` is in the selection `f`.
pub open spec fn selected(f: DeviceFilter, d: DeviceInfo) -> bool {
    match f {
        DeviceFilter::OfType(t) => d.device_type == t,
        DeviceFilter::OnNode(n) => d.numa_node == Some(n),
        DeviceFilter::WithLocality => d.numa_node is Some,
        DeviceFilter::All => true,
    }
}

/// The devices of `s` in the selection `f`, in order.
pub open spec fn select(s: Seq<DeviceInfo>, f: DeviceFilter) -> Seq<DeviceInfo>
    decreases s.len(),
{
    if s.len() == 0 {
        Seq::empty()
    } else {
        let r = select(s.drop_last(), f);
        if selected(f, s.last()) {
            r.push(s.last())
        } else {
            r
        }
    }
}

/// The views of a list of device references.
pub open spec fn device_views(v: Seq<&DeviceLocality>) -> Seq<DeviceInfo> {
    v.map_values(|d: &DeviceLocality| d@)
}

/// Inserts `x` after every device whose name is not after its own.
pub open spec fn insert_by_name(s: Seq<DeviceInfo>, x: DeviceInfo) -> Seq<DeviceInfo>
    decreases s.len(),
{
    if s.len() == 0 {
        seq![x]
    } else if !text_less(x.name, s.last().name) {
        s.push(x)
    } else {
        insert_by_name(s.drop_last(), x).push(s.last())
    }
}

/// `s` stably sorted by name.
pub open spec fn sort_by_name(s: Seq<DeviceInfo>) -> Seq<DeviceInfo>
    decreases s.len(),
{
    if s.len() == 0 {
        Seq::empty()
    } else {
        insert_by_name(sort_by_name(s.drop_last()), s.last())
    }
}

/// One line per device, indented by four spaces.
pub open spec fn device_lines(s: Seq<DeviceInfo>) -> Seq<char>
    decreases s.len(),
{
    if s.len() == 0 {
        Seq::empty()
    } else {
        device_lines(s.drop_last()) + "    "@ + device_text(s.last()) + "\n"@
    }
}

/// A headed section of device lines, or nothing when there are no devices.
pub open spec fn device_section(head: Seq<char>, s: Seq<DeviceInfo>) -> Seq<char> {
    if s.len() == 0 {
        Seq::empty()
    } else {
        head + device_lines(s)
    }
}

/// The summary of a device map: the count, then its network devices and
/// its block devices, each sorted by name.
pub open spec fn map_summary(s: Seq<DeviceInfo>) -> Seq<char> {
    "Device Map: "@ + dec(s.len()) + " devices\n"@ + device_section(
        "  Network devices:\n"@,
        sort_by_name(select(s, DeviceFilter::OfType(DeviceType::Network))),
    ) + device_section(
        "  Block devices:\n"@,
        sort_by_name(select(s, DeviceFilter::OfType(DeviceType::Block))),
    )
}

/// A mapping of devices to their NUMA nodes, by device name.
pub struct DeviceMap {
    devices: Vec<DeviceLocality>,
    topo: Arc<Topology>,
}

impl View for DeviceMap {
    type V = Seq<DeviceInfo>;

    /// The devices, in the order they were first added.
    closed spec fn view(&self) -> Seq<DeviceInfo> {
        self.devices@.map_values(|d: DeviceLocality| d@)
    }
}

/// The device at position `i` of a list with unique names is the one of its name.
pub proof fn lemma_device_named(s: Seq<DeviceInfo>, i: int)
    requires
        names_unique(s),
        0 <= i < s.len(),
    ensures
        has_device(s, s[i].name),
        device_index(s, s[i].name) == i,
        device_named(s, s[i].name) == Some(s[i]),
{
    assert(has_device(s, s[i].name));
    let j = device_index(s, s[i].name);
    assert(s[j].name == s[i].name);
}

/// Putting a device in keeps the names unique.
pub proof fn lemma_put_unique(s: Seq<DeviceInfo>, d: DeviceInfo)
    requires
        names_unique(s),
    ensures
        names_unique(put_device(s, d)),
{
    let r = put_device(s, d);
    if has_device(s, d.name) {
        let k = device_index(s, d.name);
        assert forall|i: int, j: int| 0 <= i < r.len() && 0 <= j < r.len() && i != j implies (#[trigger] r[i]).name != (#[trigger] r[j]).name by {
            assert(s[i].name != s[j].name);
        }
    } else {
        assert forall|i: int, j: int| 0 <= i < r.len() && 0 <= j < r.len() && i != j implies (#[trigger] r[i]).name != (#[trigger] r[j]).name by {
            if i < s.len() && j < s.len() {
                assert(s[i].name != s[j].name);
            } else if i < s.len() {
                assert(s[i].name != d.name);
            } else {
                assert(s[j].name != d.name);
            }
        }
    }
}

impl DeviceMap {
    /// The topology used for NUMA information.
    pub closed spec fn topo(&self) -> Topology {
        *self.topo
    }

    /// The map's invariant: no two devices share a name.
    pub open spec fn wf(&self) -> bool {
        names_unique(self@)
    }

    /// Create an empty device map.
    pub fn empty(topo: Arc<Topology>) -> (r: Self)
        ensures
            r.wf(),
            r@ == Seq::<DeviceInfo>::empty(),
            r.topo() == *topo,
    {
        let r = DeviceMap { devices: Vec::new(), topo };
        assert(r@ =~= Seq::<DeviceInfo>::empty());
        r
    }

    /// A device map holding `devices`, put in one after the other (a later
    /// device replaces an earlier one of the same name).
    pub fn from_devices(topo: Arc<Topology>, devices: Vec<DeviceLocality>) -> (r: Self)
        ensures
            r.wf(),
            r@ == put_all(Seq::empty(), devices@.map_values(|d: DeviceLocality| d@)),
            r.topo() == *topo,
    {
        let ghost ds = devices@.map_values(|d: DeviceLocality| d@);
        let mut map = DeviceMap::empty(topo);
        let rest = devices;
        let n = rest.len();
        assert(ds.take(0) =~= Seq::<DeviceInfo>::empty());
        let mut i: usize = 0;
        while i < n
            invariant
                n == devices@.len(),
                i <= n,
                rest@ == devices@,
                map.wf(),
                map@ == put_all(Seq::empty(), ds.take(i as int)),
                map.topo() == *topo,
                ds == devices@.map_values(|d: DeviceLocality| d@),
            decreases n - i,
        {
            let d = DeviceLocality {
                name: rest[i].name.clone(),
                device_type: rest[i].device_type,
                numa_node: rest[i].numa_node,
            };
            assert(d@ == ds[i as int]);
            map.add_device(d);
            assert(ds.take(i + 1).drop_last() =~= ds.take(i as int));
            i = i + 1;
        }
        assert(ds.take(n as int) =~= ds);
        map
    }

    /// The position of the device named `name`.
    fn position(&self, name: &str) -> (r: Option<usize>)
        requires
            self.wf(),
        ensures
            match r {
                Some(i) => i < self@.len() && self@[i as int].name == name@ && device_index(self@, name@)
                    == i && has_device(self@, name@),
                None => !has_device(self@, name@),
            },
    {
        let mut i: usize = 0;
        while i < self.devices.len()
            invariant
                self.wf(),
                i <= self@.len(),
                self@.len() == self.devices@.len(),
                forall|j: int| 0 <= j < i ==> (#[trigger] self@[j]).name != name@,
            decreases self.devices@.len() - i,
        {
            assert(self@[i as int] == self.devices@[i as int]@);
            if same_text(self.devices[i].name.as_str(), name) {
                proof {
                    lemma_device_named(self@, i as int);
                }
                return Some(i);
            }
            i = i + 1;
        }
        None
    }

    /// Get the NUMA node of a device: `None` if the device is not found or
    /// has no NUMA locality.
    pub fn device_node(&self, name: &str) -> (r: Option<NodeId>)
        requires
            self.wf(),
        ensures
            r == match device_named(self@, name@) {
                Some(d) => d.numa_node,
                None => None,
            },
    {
        match self.position(name) {
            Some(i) => {
                assert(self@[i as int] == self.devices@[i as int]@);
                self.devices[i].numa_node
            },
            None => None,
        }
    }

    /// Get the full locality record of a device.
    pub fn device(&self, name: &str) -> (r: Option<&DeviceLocality>)
        requires
            self.wf(),
        ensures
            device_named(self@, name@) == match r {
                Some(d) => Some(d@),
                None => None,
            },
    {
        match self.position(name) {
            Some(i) => {
                assert(self@[i as int] == self.devices@[i as int]@);
                Some(&self.devices[i])
            },
            None => None,
        }
    }

    /// The devices in a selection, in map order.
    fn select_devices(&self, f: &DeviceFilter) -> (r: Vec<&DeviceLocality>)
        ensures
            device_views(r@) == select(self@, *f),
    {
        let ghost s = self@;
        let mut out: Vec<&DeviceLocality> = Vec::new();
        let mut i: usize = 0;
        assert(s.take(0) =~= Seq::<DeviceInfo>::empty());
        assert(device_views(out@) =~= Seq::<DeviceInfo>::empty());
        while i < self.devices.len()
            invariant
                i <= s.len(),
                s == self@,
                s.len() == self.devices@.len(),
                device_views(out@) == select(s.take(i as int), *f),
            decreases self.devices@.len() - i,
        {
            let d = &self.devices[i];
            assert(s[i as int] == d@);
            assert(s.take(i + 1).drop_last() =~= s.take(i as int));
            let keep = match f {
                DeviceFilter::OfType(t) => d.device_type == *t,
                DeviceFilter::OnNode(n) => d.is_on_node(*n),
                DeviceFilter::WithLocality => d.has_numa_locality(),
                DeviceFilter::All => true,
            };
            if keep {
                let ghost before = out@;
                out.push(d);
                assert(device_views(out@) =~= device_views(before).push(d@));
            }
            i = i + 1;
        }
        assert(s.take(s.len() as int) =~= s);
        out
    }

    /// Get all network devices.
    pub fn network_devices(&self) -> (r: Vec<&DeviceLocality>)
        ensures
            device_views(r@) == select(self@, DeviceFilter::OfType(DeviceType::Network)),
    {
        self.select_devices(&DeviceFilter::OfType(DeviceType::Network))
    }

    /// Get all block devices.
    pub fn block_devices(&self) -> (r: Vec<&DeviceLocality>)
        ensures
            device_views(r@) == select(self@, DeviceFilter::OfType(DeviceType::Block)),
    {
        self.select_devices(&DeviceFilter::OfType(DeviceType::Block))
    }

    /// Get all devices on a specific NUMA node.
    pub fn devices_on_node(&self, node: NodeId) -> (r: Vec<&DeviceLocality>)
        ensures
            device_views(r@) == select(self@, DeviceFilter::OnNode(node)),
    {
        self.select_devices(&DeviceFilter::OnNode(node))
    }

    /// Get all devices that have NUMA locality information.
    pub fn devices_with_locality(&self) -> (r: Vec<&DeviceLocality>)
        ensures
            device_views(r@) == select(self@, DeviceFilter::WithLocality),
    {
        self.select_devices(&DeviceFilter::WithLocality)
    }

    /// Get all devices.
    pub fn all_devices(&self) -> (r: Vec<&DeviceLocality>)
        ensures
            device_views(r@) == self@,
    {
        let r = self.select_devices(&DeviceFilter::All);
        proof {
            lemma_select_all(self@);
        }
        r
    }

    /// Get the number of devices.
    pub fn len(&self) -> (r: usize)
        ensures
            r == self@.len(),
    {
        self.devices.len()
    }

    /// Check if the map holds no device.
    pub fn is_empty(&self) -> (r: bool)
        ensures
            r == (self@.len() == 0),
    {
        self.devices.len() == 0
    }

    /// Get the topology.
    pub fn topology(&self) -> (r: &Arc<Topology>)
        ensures
            **r == self.topo(),
    {
        &self.topo
    }

    /// Add a device: it replaces the device of the same name, if any.
    pub fn add_device(&mut self, device: DeviceLocality)
        requires
            old(self).wf(),
        ensures
            final(self).wf(),
            final(self)@ == put_device(old(self)@, device@),
            final(self).topo() == old(self).topo(),
    {
        proof {
            lemma_put_unique(self@, device@);
        }
        match self.position(device.name.as_str()) {
            Some(i) => {
                self.devices[i] = device;
                assert(self@ =~= put_device(old(self)@, device@));
            },
            None => {
                self.devices.push(device);
                assert(self@ =~= put_device(old(self)@, device@));
            },
        }
    }

    /// A summary of all devices: their count, then the network devices and
    /// the block devices, each group sorted by name, one per line.
    pub fn summary(&self) -> (r: String)
        ensures
            r@ == map_summary(self@),
    {
        let mut s = String::new();
        push_str(&mut s, "Device Map: ");
        push_decimal(&mut s, self.devices.len() as u64);
        push_str(&mut s, " devices\n");
        let ghost head = s@;
        let network = sort_devices_by_name(self.network_devices());
        push_section(&mut s, "  Network devices:\n", &network);
        let block = sort_devices_by_name(self.block_devices());
        push_section(&mut s, "  Block devices:\n", &block);
        assert(s@ =~= map_summary(self@));
        s
    }
}

/// Selecting all devices gives them all.
proof fn lemma_select_all(s: Seq<DeviceInfo>)
    ensures
        select(s, DeviceFilter::All) == s,
    decreases s.len(),
{
    if s.len() > 0 {
        lemma_select_all(s.drop_last());
        assert(s.drop_last().push(s.last()) =~= s);
    } else {
        assert(s =~= Seq::<DeviceInfo>::empty());
    }
}

/// Appends a headed section of device lines, or nothing for no devices.
fn push_section(s: &mut String, head: &str, devs: &Vec<&DeviceLocality>)
    ensures
        final(s)@ == old(s)@ + device_section(head@, device_views(devs@)),
{
    let ghost ds = device_views(devs@);
    if devs.len() == 0 {
        assert(final(s)@ =~= old(s)@ + device_section(head@, ds));
        return;
    }
    push_str(s, head);
    let ghost start = s@;
    let mut i: usize = 0;
    assert(ds.take(0) =~= Seq::<DeviceInfo>::empty());
    while i < devs.len()
        invariant
            i <= devs@.len(),
            ds == device_views(devs@),
            s@ == start + device_lines(ds.take(i as int)),
        decreases devs@.len() - i,
    {
        push_str(s, "    ");
        push_device_text(s, devs[i]);
        push_str(s, "\n");
        assert(ds.take(i + 1).drop_last() =~= ds.take(i as int));
        assert(ds[i as int] == devs@[i as int]@);
        assert(s@ =~= start + device_lines(ds.take(i + 1)));
        i = i + 1;
    }
    assert(ds.take(devs@.len() as int) =~= ds);
    assert(final(s)@ =~= old(s)@ + device_section(head@, ds));
}

/// Inserting after the last device whose name is not after `x`'s equals
/// splicing `x` in at that position.
proof fn lemma_insert_name_split(s: Seq<DeviceInfo>, x: DeviceInfo, p: int)
    requires
        0 <= p <= s.len(),
        p == 0 || !text_less(x.name, s[p - 1].name),
        forall|j: int| p <= j < s.len() ==> text_less(x.name, (#[trigger] s[j]).name),
    ensures
        insert_by_name(s, x) == s.take(p).push(x) + s.skip(p),
    decreases s.len(),
{
    if s.len() == p {
        if s.len() == 0 {
            assert(s.take(p).push(x) + s.skip(p) =~= seq![x]);
        } else {
            assert(s.take(p).push(x) + s.skip(p) =~= s.push(x));
        }
    } else {
        assert(text_less(x.name, s.last().name));
        lemma_insert_name_split(s.drop_last(), x, p);
        assert(s.drop_last().take(p) =~= s.take(p));
        assert((s.take(p).push(x) + s.drop_last().skip(p)).push(s.last()) =~= s.take(p).push(x)
            + s.skip(p));
    }
}

/// Stably sorts device references by name.
fn sort_devices_by_name<'a>(devs: Vec<&'a DeviceLocality>) -> (r: Vec<&'a DeviceLocality>)
    ensures
        device_views(r@) == sort_by_name(device_views(devs@)),
{
    let ghost ds = device_views(devs@);
    let mut out: Vec<&DeviceLocality> = Vec::new();
    let mut i: usize = 0;
    assert(ds.take(0) =~= Seq::<DeviceInfo>::empty());
    assert(device_views(out@) =~= Seq::<DeviceInfo>::empty());
    while i < devs.len()
        invariant
            i <= devs@.len(),
            ds == device_views(devs@),
            device_views(out@) == sort_by_name(ds.take(i as int)),
        decreases devs@.len() - i,
    {
        let x = devs[i];
        assert(x@ == ds[i as int]);
        let ghost os = device_views(out@);
        let mut p = out.len();
        while p > 0 && less_text(x.name.as_str(), out[p - 1].name.as_str())
            invariant
                p <= out@.len(),
                os == device_views(out@),
                forall|j: int| p <= j < os.len() ==> text_less(x@.name, (#[trigger] os[j]).name),
            decreases p,
        {
            assert(os[p - 1] == out@[p - 1]@);
            p = p - 1;
        }
        proof {
            if p > 0 {
                assert(os[p - 1] == out@[p - 1]@);
            }
            lemma_insert_name_split(os, x@, p as int);
            assert(ds.take(i + 1).drop_last() =~= ds.take(i as int));
            assert(ds.take(i + 1).last() == x@);
        }
        out.insert(p, x);
        assert(device_views(out@) =~= os.take(p as int).push(x@) + os.skip(p as int));
        i = i + 1;
    }
    assert(ds.take(devs@.len() as int) =~= ds);
    out
}

} // verus!
