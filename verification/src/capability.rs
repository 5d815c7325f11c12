//! System capability detection for NUMA operations: the decisions made
//! from the contents of `/proc/self/status`, `/proc/sys/kernel/numa_balancing`
//! and `/sys/devices/system/node`.
use vstd::prelude::*;

use crate::bits::bit_set;
use crate::text::{
    chars_of, dec, has_prefix, line_bounds, lines, parse_unsigned, parse_unsigned_range,
    push_decimal, push_str, starts_with, trim, trim_bounds,
};

verus! {

/// Linux capability number of CAP_IPC_LOCK.
pub const CAP_IPC_LOCK: u8 = 14;

/// Linux capability number of CAP_SYS_ADMIN.
pub const CAP_SYS_ADMIN: u8 = 21;

/// Linux capability number of CAP_SYS_NICE.
pub const CAP_SYS_NICE: u8 = 23;

/// Detected system capabilities for NUMA operations.
#[derive(Debug, Clone, Copy, PartialEq, Eq, Structural)]
pub struct Capabilities {
    /// Has CAP_SYS_ADMIN (for strict memory binding with MPOL_BIND).
    pub strict_memory_binding: bool,
    /// Has CAP_SYS_NICE (for strict CPU affinity with realtime scheduling).
    pub strict_cpu_affinity: bool,
    /// Has CAP_IPC_LOCK (for memory locking with mlock).
    pub memory_locking: bool,
    /// Kernel NUMA balancing is disabled (kernel.numa_balancing=0).
    pub numa_balancing_disabled: bool,
    /// Number of NUMA nodes detected on the system.
    pub numa_node_count: usize,
}

/// Whether capability `cap` is set in the hexadecimal capability mask `hex`;
/// a text that is not a 64-bit hexadecimal number sets none.
pub open spec fn capability_bit(hex: Seq<char>, cap: u8) -> bool {
    match parse_unsigned(hex, 16, 0xffff_ffff_ffff_ffff) {
        Some(v) => bit_set(v as u64, cap as u64),
        None => false,
    }
}

/// The prefix of the effective capability line of `/proc/self/status`.
pub open spec fn cap_eff_prefix() -> Seq<char> {
    seq!['C', 'a', 'p', 'E', 'f', 'f', ':', '\t']
}

/// Whether the first line of `status` that starts with "CapEff:\t" holds
/// capability `cap` in its (trimmed) hexadecimal mask. Without such a
/// line no capability is held.
pub open spec fn status_has_capability(status: Seq<char>, cap: u8) -> bool {
    let ls = lines(status);
    exists|i: int|
        0 <= i < ls.len() && has_prefix(#[trigger] ls[i], cap_eff_prefix()) && (forall|j: int|
            0 <= j < i ==> !has_prefix(#[trigger] ls[j], cap_eff_prefix())) && capability_bit(
            trim(ls[i].skip(8)),
            cap,
        )
}

/// Check if a capability bit is set in a hex string like "0000000000200000".
pub fn check_capability_bit(hex: &str, cap: u8) -> (r: bool)
    requires
        cap < 64,
    ensures
        r == capability_bit(hex@, cap),
{
    let v = chars_of(hex);
    assert(v@.subrange(0, v@.len() as int) =~= hex@);
    match parse_unsigned_range(&v, 0, v.len(), 16, 0xffff_ffff_ffff_ffff) {
        Some(caps) => {
            let b: u64 = cap as u64;
            proof {
                crate::bits::lemma_bit_test(caps, b);
            }
            (caps & (1u64 << b)) != 0
        },
        None => false,
    }
}

/// Whether the process status text `status` grants capability `cap`.
pub fn has_capability_in(status: &str, cap: u8) -> (r: bool)
    requires
        cap < 64,
    ensures
        r == status_has_capability(status@, cap),
{
    let v = chars_of(status);
    let ls = line_bounds(&v);
    let ghost spec_lines = lines(status@);
    assert(cap_eff_prefix() =~= "CapEff:\t"@) by {
        reveal_strlit("CapEff:\t");
    }
    let mut k: usize = 0;
    while k < ls.len()
        invariant
            v@ == status@,
            spec_lines == lines(status@),
            ls@.len() == spec_lines.len(),
            forall|j: int|
                #![trigger ls@[j]]
                0 <= j < ls@.len() ==> ls@[j].0 <= ls@[j].1 <= v@.len() && v@.subrange(
                    ls@[j].0 as int,
                    ls@[j].1 as int,
                ) == spec_lines[j],
            k <= ls@.len(),
            cap < 64,
            cap_eff_prefix() == "CapEff:\t"@,
            forall|j: int| 0 <= j < k ==> !has_prefix(#[trigger] spec_lines[j], cap_eff_prefix()),
        decreases ls@.len() - k,
    {
        let (a, b) = ls[k];
        assert(v@.subrange(a as int, b as int) == spec_lines[k as int]);
        if starts_with(&v, a, b, "CapEff:\t") {
            assert(has_prefix(spec_lines[k as int], cap_eff_prefix()));
            let (ta, tb) = trim_bounds(&v, a + 8, b);
            assert(v@.subrange(a + 8, b as int) =~= spec_lines[k as int].skip(8));
            let mut hex = String::new();
            crate::text::push_chars(&mut hex, &v, ta, tb);
            assert(hex@ =~= trim(spec_lines[k as int].skip(8)));
            let r = check_capability_bit(hex.as_str(), cap);
            proof {
                if !r {
                    assert forall|i: int|
                        0 <= i < spec_lines.len() && has_prefix(#[trigger] spec_lines[i], cap_eff_prefix())
                            && (forall|j: int|
                            0 <= j < i ==> !has_prefix(#[trigger] spec_lines[j], cap_eff_prefix()))
                        implies !capability_bit(trim(spec_lines[i].skip(8)), cap) by {
                        if i != k {
                            if i < k {
                            } else {
                                assert(!has_prefix(spec_lines[k as int], cap_eff_prefix()));
                            }
                        }
                    }
                }
            }
            return r;
        }
        k = k + 1;
    }
    false
}

/// Whether kernel NUMA balancing is off: the setting file is absent, or it
/// reads "0" (surrounding whitespace aside). A file that cannot be read
/// counts as balancing enabled.
pub open spec fn balancing_disabled(exists: bool, content: Option<Seq<char>>) -> bool {
    if !exists {
        true
    } else {
        match content {
            Some(c) => trim(c) == seq!['0'],
            None => false,
        }
    }
}

/// Decide from the `numa_balancing` setting file whether balancing is off.
pub fn numa_balancing_disabled_from(exists: bool, content: Option<&str>) -> (r: bool)
    ensures
        r == balancing_disabled(
            exists,
            match content {
                Some(c) => Some(c@),
                None => None,
            },
        ),
{
    if !exists {
        return true;
    }
    match content {
        Some(c) => {
            let v = chars_of(c);
            let (a, b) = trim_bounds(&v, 0, v.len());
            assert(v@.subrange(0, v@.len() as int) =~= c@);
            if b - a == 1 && v[a] == '0' {
                assert(v@.subrange(a as int, b as int) =~= seq!['0']);
                true
            } else {
                assert(v@.subrange(a as int, b as int) != seq!['0']) by {
                    if b - a == 1 {
                        assert(v@.subrange(a as int, b as int)[0] == v@[a as int]);
                        assert(seq!['0'][0] == '0');
                    } else {
                        assert(seq!['0'].len() == 1);
                    }
                }
                false
            }
        },
        None => false,
    }
}

/// The number of names that start with "node".
pub open spec fn count_node_names(names: Seq<Seq<char>>) -> nat
    decreases names.len(),
{
    if names.len() == 0 {
        0
    } else {
        count_node_names(names.drop_last()) + if has_prefix(names.last(), seq!['n', 'o', 'd', 'e']) {
            1nat
        } else {
            0nat
        }
    }
}

/// The node count read from the entries of `/sys/devices/system/node`:
/// the entries named "node…", at least one; one when the directory cannot
/// be read.
pub open spec fn node_count_of(entries: Option<Seq<Seq<char>>>) -> nat {
    match entries {
        Some(names) => if count_node_names(names) >= 1 {
            count_node_names(names)
        } else {
            1
        },
        None => 1,
    }
}

/// Count the NUMA nodes from the names of the node directory's entries.
pub fn count_numa_nodes_from(entries: Option<&Vec<String>>) -> (r: usize)
    ensures
        r == node_count_of(
            match entries {
                Some(names) => Some(names.deep_view()),
                None => None,
            },
        ),
{
    match entries {
        None => 1,
        Some(names) => {
            let mut count: usize = 0;
            let mut i: usize = 0;
            assert(seq!['n', 'o', 'd', 'e'] =~= "node"@) by {
                reveal_strlit("node");
            }
            while i < names.len()
                invariant
                    i <= names@.len(),
                    count <= i,
                    count == count_node_names(names.deep_view().take(i as int)),
                    seq!['n', 'o', 'd', 'e'] == "node"@,
                decreases names@.len() - i,
            {
                let v = chars_of(names[i].as_str());
                assert(names.deep_view().take(i + 1).drop_last() =~= names.deep_view().take(i as int));
                assert(v@.subrange(0, v@.len() as int) =~= names.deep_view()[i as int]);
                if starts_with(&v, 0, v.len(), "node") {
                    count = count + 1;
                }
                i = i + 1;
            }
            assert(names.deep_view().take(names@.len() as int) =~= names.deep_view());
            if count >= 1 {
                count
            } else {
                1
            }
        },
    }
}

/// "yes" or "no".
pub open spec fn yes_no(b: bool) -> Seq<char> {
    if b {
        "yes"@
    } else {
        "no"@
    }
}

/// The bullet lines "  - name\n" of the missing capabilities.
pub open spec fn bullets(ms: Seq<&'static str>) -> Seq<char>
    decreases ms.len(),
{
    if ms.len() == 0 {
        Seq::empty()
    } else {
        bullets(ms.drop_last()) + "  - "@ + ms.last()@ + "\n"@
    }
}

impl Capabilities {
    /// Build the capabilities from what the system reports: the process
    /// status text (`None` when unreadable), whether the NUMA balancing
    /// setting exists and what it reads, and the entries of the node
    /// directory (`None` when it is absent or unreadable).
    pub fn from_system(
        status: Option<&str>,
        balancing_exists: bool,
        balancing: Option<&str>,
        node_entries: Option<&Vec<String>>,
    ) -> (r: Capabilities)
        ensures
            r.strict_memory_binding == match status {
                Some(s) => status_has_capability(s@, CAP_SYS_ADMIN),
                None => false,
            },
            r.strict_cpu_affinity == match status {
                Some(s) => status_has_capability(s@, CAP_SYS_NICE),
                None => false,
            },
            r.memory_locking == match status {
                Some(s) => status_has_capability(s@, CAP_IPC_LOCK),
                None => false,
            },
            r.numa_balancing_disabled == balancing_disabled(
                balancing_exists,
                match balancing {
                    Some(c) => Some(c@),
                    None => None,
                },
            ),
            r.numa_node_count == node_count_of(
                match node_entries {
                    Some(names) => Some(names.deep_view()),
                    None => None,
                },
            ),
    {
        let (admin, nice, lock) = match status {
            Some(s) => (
                has_capability_in(s, CAP_SYS_ADMIN),
                has_capability_in(s, CAP_SYS_NICE),
                has_capability_in(s, CAP_IPC_LOCK),
            ),
            None => (false, false, false),
        };
        Capabilities {
            strict_memory_binding: admin,
            strict_cpu_affinity: nice,
            memory_locking: lock,
            numa_balancing_disabled: numa_balancing_disabled_from(balancing_exists, balancing),
            numa_node_count: count_numa_nodes_from(node_entries),
        }
    }

    /// Hard mode needs strict memory binding, strict CPU affinity and NUMA
    /// balancing disabled.
    pub open spec fn hard_mode_ok(&self) -> bool {
        self.strict_memory_binding && self.strict_cpu_affinity && self.numa_balancing_disabled
    }

    /// The requirements of hard mode that are not met, in a fixed order.
    pub open spec fn missing(&self) -> Seq<&'static str> {
        let a: Seq<&'static str> = if !self.strict_memory_binding {
            seq!["CAP_SYS_ADMIN (for strict memory binding)"]
        } else {
            Seq::empty()
        };
        let b: Seq<&'static str> = if !self.strict_cpu_affinity {
            seq!["CAP_SYS_NICE (for strict CPU affinity)"]
        } else {
            Seq::empty()
        };
        let c: Seq<&'static str> = if !self.numa_balancing_disabled {
            seq!["kernel.numa_balancing=0 (to prevent automatic migration)"]
        } else {
            Seq::empty()
        };
        a + b + c
    }

    /// Check if all hard mode requirements are met.
    pub fn supports_hard_mode(&self) -> (r: bool)
        ensures
            r == self.hard_mode_ok(),
    {
        self.strict_memory_binding && self.strict_cpu_affinity && self.numa_balancing_disabled
    }

    /// Get a list of missing capabilities required for hard mode.
    pub fn missing_for_hard_mode(&self) -> (r: Vec<&'static str>)
        ensures
            r@ == self.missing(),
    {
        let mut missing: Vec<&'static str> = Vec::new();
        if !self.strict_memory_binding {
            missing.push("CAP_SYS_ADMIN (for strict memory binding)");
        }
        if !self.strict_cpu_affinity {
            missing.push("CAP_SYS_NICE (for strict CPU affinity)");
        }
        if !self.numa_balancing_disabled {
            missing.push("kernel.numa_balancing=0 (to prevent automatic migration)");
        }
        assert(missing@ =~= self.missing());
        missing
    }

    /// Check if this is a NUMA system (more than one node).
    pub fn is_numa_system(&self) -> (r: bool)
        ensures
            r == (self.numa_node_count > 1),
    {
        self.numa_node_count > 1
    }

    /// The node count line of the summary.
    pub open spec fn node_count_line(&self) -> Seq<char> {
        "NUMA nodes detected: "@ + dec(self.numa_node_count as nat) + "\n"@
    }

    /// The capability lines of the summary.
    pub open spec fn flag_lines(&self) -> Seq<char> {
        flag_line("CAP_SYS_ADMIN (strict memory binding): "@, self.strict_memory_binding) + flag_line(
            "CAP_SYS_NICE (strict CPU affinity): "@,
            self.strict_cpu_affinity,
        ) + flag_line("CAP_IPC_LOCK (memory locking): "@, self.memory_locking) + flag_line(
            "NUMA balancing disabled: "@,
            self.numa_balancing_disabled,
        )
    }

    /// The hard mode line of the summary.
    pub open spec fn hard_mode_line(&self) -> Seq<char> {
        "\nHard mode supported: "@ + (if self.hard_mode_ok() {
            "YES"@
        } else {
            "NO"@
        }) + "\n"@
    }

    /// The missing requirements part of the summary (empty when hard mode
    /// is supported).
    pub open spec fn missing_part(&self) -> Seq<char> {
        if !self.hard_mode_ok() {
            "\nMissing for hard mode:\n"@ + bullets(self.missing())
        } else {
            Seq::empty()
        }
    }

    /// The text of `summary()`.
    pub open spec fn summary_text(&self) -> Seq<char> {
        "NUMA System Capabilities\n"@ + "========================\n"@ + self.node_count_line()
            + self.flag_lines() + self.hard_mode_line() + self.missing_part()
    }

    /// Generate a human-readable summary of detected capabilities.
    pub fn summary(&self) -> (r: String)
        ensures
            r@ == self.summary_text(),
    {
        let mut s = String::new();
        push_str(&mut s, "NUMA System Capabilities\n");
        push_str(&mut s, "========================\n");
        assert(s@ =~= "NUMA System Capabilities\n"@ + "========================\n"@);
        self.push_node_count_line(&mut s);
        self.push_flag_lines(&mut s);
        self.push_hard_mode_line(&mut s);
        self.push_missing_part(&mut s);
        s
    }

    fn push_node_count_line(&self, s: &mut String)
        ensures
            final(s)@ == old(s)@ + self.node_count_line(),
    {
        push_str(s, "NUMA nodes detected: ");
        push_decimal(s, self.numa_node_count as u64);
        push_str(s, "\n");
        assert(final(s)@ =~= old(s)@ + self.node_count_line());
    }

    fn push_flag_lines(&self, s: &mut String)
        ensures
            final(s)@ == old(s)@ + self.flag_lines(),
    {
        push_flag_line(s, "CAP_SYS_ADMIN (strict memory binding): ", self.strict_memory_binding);
        push_flag_line(s, "CAP_SYS_NICE (strict CPU affinity): ", self.strict_cpu_affinity);
        push_flag_line(s, "CAP_IPC_LOCK (memory locking): ", self.memory_locking);
        push_flag_line(s, "NUMA balancing disabled: ", self.numa_balancing_disabled);
        assert(final(s)@ =~= old(s)@ + self.flag_lines());
    }

    fn push_hard_mode_line(&self, s: &mut String)
        ensures
            final(s)@ == old(s)@ + self.hard_mode_line(),
    {
        push_str(s, "\nHard mode supported: ");
        if self.supports_hard_mode() {
            push_str(s, "YES");
        } else {
            push_str(s, "NO");
        }
        push_str(s, "\n");
        assert(final(s)@ =~= old(s)@ + self.hard_mode_line());
    }

    fn push_missing_part(&self, s: &mut String)
        ensures
            final(s)@ == old(s)@ + self.missing_part(),
    {
        if !self.supports_hard_mode() {
            push_str(s, "\nMissing for hard mode:\n");
            let ghost mid = s@;
            let missing = self.missing_for_hard_mode();
            let mut i: usize = 0;
            assert(missing@.take(0) =~= Seq::<&'static str>::empty());
            while i < missing.len()
                invariant
                    i <= missing@.len(),
                    s@ == mid + bullets(missing@.take(i as int)),
                decreases missing@.len() - i,
            {
                assert(missing@.take(i + 1).drop_last() =~= missing@.take(i as int));
                push_str(s, "  - ");
                push_str(s, missing[i]);
                push_str(s, "\n");
                assert(s@ =~= mid + bullets(missing@.take(i + 1)));
                i = i + 1;
            }
            assert(missing@.take(missing@.len() as int) =~= missing@);
        }
        assert(final(s)@ =~= old(s)@ + self.missing_part());
    }

    /// The display text: "Capabilities(nodes=N, hard_mode=supported|unavailable)".
    pub fn to_string(&self) -> (r: String)
        ensures
            r@ == "Capabilities(nodes="@ + dec(self.numa_node_count as nat) + ", hard_mode="@ + (if self.hard_mode_ok() {
                "supported"@
            } else {
                "unavailable"@
            }) + ")"@,
    {
        let mut s = String::new();
        push_str(&mut s, "Capabilities(nodes=");
        push_decimal(&mut s, self.numa_node_count as u64);
        push_str(&mut s, ", hard_mode=");
        if self.supports_hard_mode() {
            push_str(&mut s, "supported");
        } else {
            push_str(&mut s, "unavailable");
        }
        push_str(&mut s, ")");
        assert(s@ =~= "Capabilities(nodes="@ + dec(self.numa_node_count as nat) + ", hard_mode="@ + (if self.hard_mode_ok() {
            "supported"@
        } else {
            "unavailable"@
        }) + ")"@);
        s
    }
}

/// A capability line of the summary: its label, "yes" or "no", a newline.
pub open spec fn flag_line(label: Seq<char>, b: bool) -> Seq<char> {
    label + yes_no(b) + "\n"@
}

/// Appends a capability line.
fn push_flag_line(s: &mut String, label: &str, b: bool)
    ensures
        final(s)@ == old(s)@ + flag_line(label@, b),
{
    push_str(s, label);
    push_yes_no(s, b);
    push_str(s, "\n");
    assert(final(s)@ =~= old(s)@ + flag_line(label@, b));
}

/// Appends "yes" or "no".
fn push_yes_no(s: &mut String, b: bool)
    ensures
        final(s)@ == old(s)@ + yes_no(b),
{
    if b {
        push_str(s, "yes");
    } else {
        push_str(s, "no");
    }
}

} // verus!
