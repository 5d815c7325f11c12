//! Properties that span several functions of the library: what a parse
//! gives back of what was written, what the scheduler's steal order is, and
//! what the counters and reports keep.
use vstd::prelude::*;

use crate::capability::{bullets, Capabilities};
use crate::error::{IoError, IoErrorKind, NumaError};
use crate::cpulist::{cpu_range, item_cpus, items_cpus, join_runs, parse_cpu_list, range_list, run_text, runs};
use crate::discovery::{first_cpus, has_infix, insert_by_id, node_dir_id, sort_by_id};
use crate::io::{
    device_index, device_lines, device_named, device_section, device_text, has_device, insert_by_name,
    lemma_device_named, lemma_put_unique, names_unique, put_device, map_summary, select, selected, sort_by_name, DeviceFilter,
    DeviceInfo, DeviceType,
};
use crate::capability::balancing_disabled;
use crate::mem::{policy_code, touch_ranges, MemPolicy};
use crate::sched::pending_of;
use crate::perf::{
    breakdown, count_line, field_of, lemma_sum_field, node_stats_text, per_node_lines, stats_summary_text,
    stats_title, sum_depth, sum_field, sum_stolen, NodeStats, StatField,
    health_advice, health_of, queue_advice, recommendations_for, snapshot_of, steal_advice, steal_advices, sum_local,
    sum_steals, CollectorCounts, LocalityHealth,
};
use crate::sched::{
    find_node, insert_by_key, lemma_find_node, lemma_other_ids_in, lemma_sort_contains, other_ids, sort_by_key,
    steal_key, steal_order_of, StealPolicy,
};
use crate::sharded::{id_position, lemma_id_position, lemma_id_position_distinct, total, wrapped_total};
use crate::text::{
    all_digits, dec, digit_char, digit_of, digits_value, first_index, has_prefix, is_ws, lemma_text_less_asymmetric,
    lemma_text_less_total, lemma_text_less_transitive, parse_unsigned, split, text_less, trim, trim_end,
    trim_start, unsigned_digits,
};
use crate::topo::{cpu_map, node_name, NodeInfo};
use crate::bits::{below, bit_set, lemma_below_step, lemma_no_bits_zero};
use crate::types::{ascending, lemma_ascending, NodeId, NodeMask};

verus! {

// ---------------------------------------------------------------------------
// Decimal numbers
// ---------------------------------------------------------------------------

/// Whether every character of `s` is an ASCII digit.
pub open spec fn ascii_digits(s: Seq<char>) -> bool {
    forall|i: int| 0 <= i < s.len() ==> '0' <= #[trigger] s[i] && s[i] <= '9'
}

/// The digit character of `d < 10` is a digit of value `d`.
pub proof fn lemma_digit_char(d: nat)
    requires
        d < 10,
    ensures
        '0' <= digit_char(d) && digit_char(d) <= '9',
        digit_of(digit_char(d), 10) == Some(d),
{
}

/// The decimal text of `n` is a non-empty string of digits whose value is `n`.
pub proof fn lemma_dec_digits(n: nat)
    ensures
        dec(n).len() > 0,
        ascii_digits(dec(n)),
        all_digits(dec(n), 10),
        digits_value(dec(n), 10) == n,
    decreases n,
{
    if n < 10 {
        lemma_digit_char(n);
        assert(dec(n).drop_last() =~= Seq::<char>::empty());
        assert(digits_value(Seq::<char>::empty(), 10) == 0);
        assert(dec(n).last() == digit_char(n));
    } else {
        lemma_dec_digits(n / 10);
        lemma_digit_char(n % 10);
        let d = dec(n / 10);
        assert(dec(n) == d.push(digit_char(n % 10)));
        assert(dec(n).drop_last() =~= d);
        assert(dec(n).last() == digit_char(n % 10));
        assert((n / 10) * 10 + n % 10 == n) by (nonlinear_arith);
        assert forall|i: int| 0 <= i < dec(n).len() implies '0' <= #[trigger] dec(n)[i] && dec(n)[i] <= '9' by {
            if i < d.len() {
                assert(dec(n)[i] == d[i]);
            }
        }
        assert forall|i: int| 0 <= i < dec(n).len() implies (#[trigger] digit_of(dec(n)[i], 10)) is Some by {
            if i < d.len() {
                assert(dec(n)[i] == d[i]);
                assert(digit_of(d[i], 10) is Some);
            }
        }
    }
}

/// A string of digits has no whitespace at either end.
proof fn lemma_digits_trim(s: Seq<char>)
    requires
        s.len() > 0,
        ascii_digits(s),
    ensures
        trim(s) == s,
{
    assert('0' <= s[0] && s[0] <= '9');
    assert('0' <= s.last() && s.last() <= '9');
}

/// Reading back the decimal text of `n` gives `n` (when `n` is in range).
pub proof fn law_decimal_round_trip(n: nat, max: nat)
    requires
        n <= max,
    ensures
        parse_unsigned(dec(n), 10, max) == Some(n),
{
    lemma_dec_digits(n);
    assert('0' <= dec(n)[0]);
    assert(unsigned_digits(dec(n)) == dec(n));
}

/// Reading the directory name of a node ("node" and its number) gives the
/// node back.
pub proof fn law_node_dir_round_trip(id: NodeId)
    ensures
        node_dir_id(node_name(id)) == Some(id),
{
    reveal_strlit("node");
    let name = node_name(id);
    assert(name.take(4) =~= "node"@);
    assert(name.skip(4) =~= dec(id.0 as nat));
    law_decimal_round_trip(id.0 as nat, 0xffff_ffff);
}

// ---------------------------------------------------------------------------
// CPU lists
// ---------------------------------------------------------------------------

/// The CPUs covered by the runs `rs`.
pub open spec fn runs_cpus(rs: Seq<(u32, u32)>) -> Set<u32>
    decreases rs.len(),
{
    if rs.len() == 0 {
        Set::empty()
    } else {
        runs_cpus(rs.drop_last()).union(cpu_range(rs.last().0, rs.last().1))
    }
}

/// Each run of `c` is ordered and made of elements of `c`, and together
/// the runs cover exactly the elements of `c`.
pub proof fn lemma_runs(c: Seq<u32>)
    ensures
        forall|i: int| 0 <= i < runs(c).len() ==> (#[trigger] runs(c)[i]).0 <= runs(c)[i].1,
        forall|i: int| 0 <= i < runs(c).len() ==> c.contains((#[trigger] runs(c)[i]).1),
        runs_cpus(runs(c)) == c.to_set(),
        c.len() > 0 ==> runs(c).len() > 0,
    decreases c.len(),
{
    if c.len() > 0 {
        let p = c.drop_last();
        let x = c.last();
        lemma_runs(p);
        let r = runs(p);
        assert(c =~= p.push(x));
        assert forall|y: u32| #[trigger] p.contains(y) implies c.contains(y) by {
            let k = choose|k: int| 0 <= k < p.len() && p[k] == y;
            assert(c[k] == y);
        }
        assert(c.contains(x)) by {
            assert(c[c.len() - 1] == x);
        }
        if r.len() > 0 && r.last().1 as int + 1 == x as int {
            let r2 = r.update(r.len() - 1, (r.last().0, x));
            assert(r2.drop_last() =~= r.drop_last());
            assert(runs_cpus(r) == runs_cpus(r.drop_last()).union(cpu_range(r.last().0, r.last().1)));
            assert(runs_cpus(r2) =~= runs_cpus(r).insert(x)) by {
                assert(cpu_range(r.last().0, x) =~= cpu_range(r.last().0, r.last().1).insert(x));
            }
            assert(c.to_set() =~= p.to_set().insert(x));
            assert forall|i: int| 0 <= i < r2.len() implies (#[trigger] r2[i]).0 <= r2[i].1 && c.contains(r2[i].1) by {
                if i < r.len() - 1 {
                    assert(r2[i] == r[i]);
                    assert(r[i].0 <= r[i].1);
                    assert(p.contains(r[i].1));
                } else {
                    assert(r[r.len() - 1].0 <= r[r.len() - 1].1);
                }
            }
        } else {
            let r2 = r.push((x, x));
            assert(r2.drop_last() =~= r);
            assert(runs_cpus(r2) =~= runs_cpus(r).insert(x)) by {
                assert(cpu_range(x, x) =~= set![x]);
            }
            assert(c.to_set() =~= p.to_set().insert(x));
            assert forall|i: int| 0 <= i < r2.len() implies (#[trigger] r2[i]).0 <= r2[i].1 && c.contains(r2[i].1) by {
                if i < r.len() {
                    assert(r2[i] == r[i]);
                    assert(r[i].0 <= r[i].1);
                    assert(p.contains(r[i].1));
                }
            }
        }
    } else {
        assert(c.to_set() =~= Set::<u32>::empty());
    }
}

/// Splitting a text without the separator gives the text itself.
proof fn lemma_split_none(y: Seq<char>, sep: char)
    requires
        forall|i: int| 0 <= i < y.len() ==> y[i] != sep,
    ensures
        split(y, sep) == seq![y],
    decreases y.len(),
{
    if y.len() == 0 {
        assert(y =~= Seq::<char>::empty());
        assert(split(y, sep) =~= seq![y]);
    } else {
        assert forall|i: int| 0 <= i < y.drop_last().len() implies y.drop_last()[i] != sep by {
            assert(y.drop_last()[i] == y[i]);
        }
        lemma_split_none(y.drop_last(), sep);
        assert(y[y.len() - 1] != sep);
        assert(y.drop_last().push(y.last()) =~= y);
        let prev = split(y.drop_last(), sep);
        assert(prev == seq![y.drop_last()]);
        assert(prev.last() == y.drop_last());
        assert(split(y, sep) == prev.update(0, y.drop_last().push(y.last())));
        assert(split(y, sep) =~= seq![y]);
    }
}

/// The text of a run: its digits and at most one '-' between them.
proof fn lemma_run_text(r: (u32, u32))
    requires
        r.0 <= r.1 < 1024,
    ensures
        run_text(r).len() > 0,
        forall|i: int| 0 <= i < run_text(r).len() ==> run_text(r)[i] != ',',
        trim(run_text(r)) == run_text(r),
        item_cpus(run_text(r)) == Ok::<Set<u32>, crate::cpulist::CpuListFault>(cpu_range(r.0, r.1)),
{
    lemma_dec_digits(r.0 as nat);
    lemma_dec_digits(r.1 as nat);
    let a = dec(r.0 as nat);
    let b = dec(r.1 as nat);
    law_decimal_round_trip(r.0 as nat, 0xffff_ffff);
    law_decimal_round_trip(r.1 as nat, 0xffff_ffff);
    lemma_digits_trim(a);
    lemma_digits_trim(b);
    lemma_no_dash(a);
    if r.0 == r.1 {
        assert(cpu_range(r.0, r.1) =~= set![r.0]);
        assert(forall|i: int| 0 <= i < a.len() ==> a[i] != ',') by {
            assert(forall|i: int| 0 <= i < a.len() ==> '0' <= #[trigger] a[i] && a[i] <= '9');
        }
    } else {
        let t = a + seq!['-'] + b;
        assert(run_text(r) == t);
        lemma_first_dash(a, b);
        assert(t.take(a.len() as int) =~= a);
        assert(t.skip(a.len() as int + 1) =~= b);
        assert forall|i: int| 0 <= i < t.len() implies t[i] != ',' by {
            if i < a.len() {
                assert(t[i] == a[i]);
                assert('0' <= a[i]);
            } else if i > a.len() {
                assert(t[i] == b[i - a.len() - 1]);
                assert('0' <= b[i - a.len() - 1]);
            }
        }
        assert('0' <= t[0]);
        assert(t.last() == b.last());
        assert('0' <= b.last());
    }
}

/// A string of digits holds no '-'.
proof fn lemma_no_dash(a: Seq<char>)
    requires
        ascii_digits(a),
    ensures
        first_index(a, '-') < 0,
    decreases a.len(),
{
    if a.len() > 0 {
        assert('0' <= a[0]);
        assert forall|i: int| 0 <= i < a.drop_first().len() implies '0' <= #[trigger] a.drop_first()[i]
            && a.drop_first()[i] <= '9' by {
            assert(a.drop_first()[i] == a[i + 1]);
        }
        lemma_no_dash(a.drop_first());
    }
}

/// In digits, a '-', then more, the first '-' is the one after the digits.
proof fn lemma_first_dash(a: Seq<char>, b: Seq<char>)
    requires
        ascii_digits(a),
    ensures
        first_index(a + seq!['-'] + b, '-') == a.len(),
    decreases a.len(),
{
    let t = a + seq!['-'] + b;
    if a.len() == 0 {
        assert(t[0] == '-');
    } else {
        assert('0' <= a[0]);
        assert(t[0] == a[0]);
        assert forall|i: int| 0 <= i < a.drop_first().len() implies '0' <= #[trigger] a.drop_first()[i]
            && a.drop_first()[i] <= '9' by {
            assert(a.drop_first()[i] == a[i + 1]);
        }
        lemma_first_dash(a.drop_first(), b);
        assert(t.drop_first() =~= a.drop_first() + seq!['-'] + b);
    }
}

/// The texts of the runs, in order.
pub open spec fn run_texts(rs: Seq<(u32, u32)>) -> Seq<Seq<char>> {
    rs.map_values(|r: (u32, u32)| run_text(r))
}

/// Splitting the joined runs at ',' gives the texts of the runs.
proof fn lemma_split_runs(rs: Seq<(u32, u32)>)
    requires
        rs.len() > 0,
        forall|i: int| 0 <= i < rs.len() ==> (#[trigger] rs[i]).0 <= rs[i].1 < 1024,
    ensures
        split(join_runs(rs, seq![',']), ',') == run_texts(rs),
    decreases rs.len(),
{
    let last = rs.last();
    assert(rs[rs.len() - 1] == last);
    lemma_run_text(last);
    if rs.len() == 1 {
        lemma_split_none(run_text(rs[0]), ',');
        assert(run_texts(rs) =~= seq![run_text(rs[0])]);
    } else {
        let p = rs.drop_last();
        assert forall|i: int| 0 <= i < p.len() implies (#[trigger] p[i]).0 <= p[i].1 < 1024 by {
            assert(p[i] == rs[i]);
        }
        lemma_split_runs(p);
        lemma_split_concat_items(join_runs(p, seq![',']), run_text(last));
        lemma_split_none(run_text(last), ',');
        assert(run_texts(rs) =~= run_texts(p) + seq![run_text(last)]);
    }
}

/// Splitting `x`, ',' and `y` at ','.
proof fn lemma_split_concat_items(x: Seq<char>, y: Seq<char>)
    ensures
        split(x + seq![','] + y, ',') == split(x, ',') + split(y, ','),
{
    crate::cpulist::lemma_split_concat(x, y, ',');
}

/// Reading the texts of ordered runs below 1024 gives the CPUs they cover.
proof fn lemma_items_runs(rs: Seq<(u32, u32)>)
    requires
        forall|i: int| 0 <= i < rs.len() ==> (#[trigger] rs[i]).0 <= rs[i].1 < 1024,
    ensures
        items_cpus(run_texts(rs)) == Ok::<Set<u32>, crate::cpulist::CpuListFault>(runs_cpus(rs)),
    decreases rs.len(),
{
    if rs.len() > 0 {
        let p = rs.drop_last();
        assert forall|i: int| 0 <= i < p.len() implies (#[trigger] p[i]).0 <= p[i].1 < 1024 by {
            assert(p[i] == rs[i]);
        }
        lemma_items_runs(p);
        assert(run_texts(rs).drop_last() =~= run_texts(p));
        assert(rs[rs.len() - 1] == rs.last());
        lemma_run_text(rs.last());
        assert(run_texts(rs).last() == run_text(rs.last()));
    } else {
        assert(run_texts(rs) =~= Seq::<Seq<char>>::empty());
    }
}

/// Writing a set of CPUs as a CPU list and parsing that list gives the set
/// back (for any set a `CpuSet` can hold: CPUs below 1024).
pub proof fn law_cpu_list_round_trip(s: Set<u32>)
    requires
        forall|c: u32| #[trigger] s.contains(c) ==> c < 1024,
    ensures
        parse_cpu_list(range_list(ascending(s, 1024), ","@)) == Ok::<Set<u32>, crate::cpulist::CpuListFault>(s),
{
    reveal_strlit(",");
    assert(","@ =~= seq![',']);
    let c = ascending(s, 1024);
    lemma_ascending(s, 1024);
    lemma_runs(c);
    let rs = runs(c);
    assert forall|i: int| 0 <= i < rs.len() implies (#[trigger] rs[i]).0 <= rs[i].1 < 1024 by {
        assert(c.contains(rs[i].1));
    }
    assert(c.to_set() =~= s) by {
        assert forall|x: u32| #[trigger] s.contains(x) implies c.to_set().contains(x) by {
            assert(c.contains(x));
        }
    }
    let text = range_list(c, ","@);
    if c.len() == 0 {
        assert(rs.len() == 0) by {
            assert(runs(c) == Seq::<(u32, u32)>::empty());
        }
        assert(text =~= Seq::<char>::empty());
        assert(s =~= Set::<u32>::empty()) by {
            assert forall|x: u32| !s.contains(x) by {
                if s.contains(x) {
                    assert(c.contains(x));
                }
            }
        }
    } else {
        lemma_split_runs(rs);
        lemma_items_runs(rs);
        let first = rs[0];
        lemma_run_text(first);
        lemma_join_starts(rs);
        assert(trim(text).len() > 0);
    }
}

/// The joined text of runs is non-empty and starts with a digit, so it is
/// not blank.
proof fn lemma_join_starts(rs: Seq<(u32, u32)>)
    requires
        rs.len() > 0,
        forall|i: int| 0 <= i < rs.len() ==> (#[trigger] rs[i]).0 <= rs[i].1 < 1024,
    ensures
        join_runs(rs, seq![',']).len() > 0,
        !is_ws(join_runs(rs, seq![','])[0]),
        trim(join_runs(rs, seq![','])).len() > 0,
    decreases rs.len(),
{
    let t = join_runs(rs, seq![',']);
    if rs.len() == 1 {
        lemma_dec_digits(rs[0].0 as nat);
        assert(run_text(rs[0])[0] == dec(rs[0].0 as nat)[0]);
        assert('0' <= dec(rs[0].0 as nat)[0]);
    } else {
        let p = rs.drop_last();
        assert forall|i: int| 0 <= i < p.len() implies (#[trigger] p[i]).0 <= p[i].1 < 1024 by {
            assert(p[i] == rs[i]);
        }
        lemma_join_starts(p);
        assert(t[0] == join_runs(p, seq![','])[0]);
    }
    assert(trim_start(t) == t);
    lemma_trim_end_keeps(t);
}

/// Trimming the end of a text whose first character is not whitespace
/// leaves at least that character.
proof fn lemma_trim_end_keeps(t: Seq<char>)
    requires
        t.len() > 0,
        !is_ws(t[0]),
    ensures
        trim_end(t).len() > 0,
    decreases t.len(),
{
    if t.len() > 1 && is_ws(t.last()) {
        assert(t.drop_last()[0] == t[0]);
        lemma_trim_end_keeps(t.drop_last());
    }
}

// ---------------------------------------------------------------------------
// Steal order
// ---------------------------------------------------------------------------

/// Whether `s` is ordered by distance from `from`, nearest first.
pub open spec fn by_distance(s: Seq<NodeId>, from: NodeInfo) -> bool {
    forall|i: int, j: int| 0 <= i < j < s.len() ==> steal_key(from, #[trigger] s[i]) <= steal_key(from, #[trigger] s[j])
}

/// Every element of `insert_by_key(s, x, from)` is `x` or an element of `s`.
proof fn lemma_insert_elements(s: Seq<NodeId>, x: NodeId, from: NodeInfo)
    ensures
        insert_by_key(s, x, from).len() == s.len() + 1,
        forall|i: int| 0 <= i < insert_by_key(s, x, from).len() ==> (#[trigger] insert_by_key(s, x, from)[i]
            == x || s.contains(insert_by_key(s, x, from)[i])),
    decreases s.len(),
{
    let r = insert_by_key(s, x, from);
    if s.len() == 0 {
    } else if steal_key(from, s.last()) <= steal_key(from, x) {
        assert forall|i: int| 0 <= i < r.len() implies (#[trigger] r[i] == x || s.contains(r[i])) by {
            if i < s.len() {
                assert(r[i] == s[i]);
            }
        }
    } else {
        let p = s.drop_last();
        lemma_insert_elements(p, x, from);
        let q = insert_by_key(p, x, from);
        assert forall|i: int| 0 <= i < r.len() implies (#[trigger] r[i] == x || s.contains(r[i])) by {
            if i < q.len() {
                assert(r[i] == q[i]);
                if q[i] != x {
                    let k = choose|k: int| 0 <= k < p.len() && p[k] == q[i];
                    assert(s[k] == q[i]);
                }
            } else {
                assert(r[i] == s[s.len() - 1]);
            }
        }
    }
}

/// Inserting by key into an ordered sequence keeps it ordered.
proof fn lemma_insert_sorted(s: Seq<NodeId>, x: NodeId, from: NodeInfo)
    requires
        by_distance(s, from),
    ensures
        by_distance(insert_by_key(s, x, from), from),
    decreases s.len(),
{
    let r = insert_by_key(s, x, from);
    if s.len() == 0 {
    } else if steal_key(from, s.last()) <= steal_key(from, x) {
        assert forall|i: int, j: int| 0 <= i < j < r.len() implies steal_key(from, #[trigger] r[i]) <= steal_key(from, #[trigger] r[j]) by {
            if j < s.len() {
                assert(r[i] == s[i] && r[j] == s[j]);
            } else {
                assert(r[i] == s[i]);
                if i < s.len() - 1 {
                    assert(steal_key(from, s[i]) <= steal_key(from, s[s.len() - 1]));
                }
            }
        }
    } else {
        let p = s.drop_last();
        assert forall|i: int, j: int| 0 <= i < j < p.len() implies steal_key(from, #[trigger] p[i]) <= steal_key(from, #[trigger] p[j]) by {
            assert(p[i] == s[i] && p[j] == s[j]);
        }
        lemma_insert_sorted(p, x, from);
        lemma_insert_elements(p, x, from);
        let q = insert_by_key(p, x, from);
        let last = s.last();
        assert forall|i: int, j: int| 0 <= i < j < r.len() implies steal_key(from, #[trigger] r[i]) <= steal_key(from, #[trigger] r[j]) by {
            if j < q.len() {
                assert(r[i] == q[i] && r[j] == q[j]);
            } else {
                assert(r[i] == q[i]);
                assert(r[j] == last);
                if q[i] != x {
                    let k = choose|k: int| 0 <= k < p.len() && p[k] == q[i];
                    assert(s[k] == q[i]);
                    assert(steal_key(from, s[k]) <= steal_key(from, s[s.len() - 1]));
                }
            }
        }
    }
}

/// Sorting by key gives an ordered sequence.
proof fn lemma_sort_sorted(s: Seq<NodeId>, from: NodeInfo)
    ensures
        by_distance(sort_by_key(s, from), from),
    decreases s.len(),
{
    if s.len() > 0 {
        lemma_sort_sorted(s.drop_last(), from);
        lemma_insert_sorted(sort_by_key(s.drop_last(), from), s.last(), from);
    }
}

/// The steal order of a worker of node `from`: local-only stealing never
/// steals; otherwise every other node is listed exactly as often as the
/// topology lists it, `from` itself never; and with the default policy the
/// nodes come nearest first (by the distance table of `from`, unknown
/// distances last), keeping topology order among equals.
pub proof fn law_steal_order(policy: StealPolicy, from: NodeId, nodes: Seq<NodeInfo>)
    ensures
        policy == StealPolicy::LocalOnly ==> steal_order_of(policy, from, nodes).len() == 0,
        policy != StealPolicy::LocalOnly ==> steal_order_of(policy, from, nodes).to_multiset()
            == other_ids(nodes, from).to_multiset(),
        forall|i: int| 0 <= i < steal_order_of(policy, from, nodes).len() ==> #[trigger] steal_order_of(policy, from, nodes)[i] != from,
        policy == StealPolicy::Any ==> steal_order_of(policy, from, nodes) == other_ids(nodes, from),
        policy == StealPolicy::LocalThenSocketThenRemote && find_node(nodes, from) >= 0 ==> by_distance(
            steal_order_of(policy, from, nodes),
            nodes[find_node(nodes, from)],
        ),
{
    lemma_other_ids_in(nodes, from);
    lemma_find_node(nodes, from);
    let o = other_ids(nodes, from);
    let k = find_node(nodes, from);
    let order = steal_order_of(policy, from, nodes);
    if policy == StealPolicy::LocalThenSocketThenRemote && k >= 0 {
        lemma_sort_contains(o, nodes[k]);
        lemma_sort_sorted(o, nodes[k]);
        assert forall|i: int| 0 <= i < order.len() implies #[trigger] order[i] != from by {
            broadcast use vstd::seq_lib::group_to_multiset_ensures;
            assert(order.contains(order[i]));
            assert(o.to_multiset().count(order[i]) > 0);
            let m = choose|m: int| 0 <= m < o.len() && o[m] == order[i];
            assert(o[m] != from);
        }
    }
}

// ---------------------------------------------------------------------------
// Queues
// ---------------------------------------------------------------------------

/// A node queue hands its owner the newest task first and stealers the
/// oldest: after pushing `a` then `b`, popping gives `b` then `a`, and on
/// a queue that held nothing, stealing gives `a` then `b`.
pub proof fn law_queue_order<T>(q: Seq<T>, a: T, b: T)
    ensures
        q.push(a).push(b).last() == b,
        q.push(a).push(b).drop_last().last() == a,
        q.push(a).push(b).drop_last().drop_last() == q,
        q.len() == 0 ==> q.push(a).push(b)[0] == a && q.push(a).push(b).drop_first()[0] == b,
{
    assert(q.push(a).push(b).drop_last() =~= q.push(a));
    assert(q.push(a).drop_last() =~= q);
}

// ---------------------------------------------------------------------------
// Counters and statistics
// ---------------------------------------------------------------------------

/// Changing one value changes the total by the same amount.
proof fn lemma_total_update(s: Seq<u64>, i: int, v: u64)
    requires
        0 <= i < s.len(),
    ensures
        total(s.update(i, v)) + s[i] == total(s) + v,
    decreases s.len(),
{
    if i < s.len() - 1 {
        lemma_total_update(s.drop_last(), i, v);
        assert(s.update(i, v).drop_last() =~= s.drop_last().update(i, v));
    } else {
        assert(s.update(i, v).drop_last() =~= s.drop_last());
    }
}

/// Adding `n` to one shard of a counter adds `n` to its sum, unless that
/// shard wraps around.
pub proof fn law_counter_add(s: Seq<u64>, i: int, n: u64)
    requires
        0 <= i < s.len(),
        s[i] + n <= u64::MAX,
    ensures
        total(s.update(i, vstd::wrapping::u64_specs::wrapping_add(s[i], n))) == total(s) + n,
{
    lemma_total_update(s, i, (s[i] + n) as u64);
}

/// Subtracting `n` from one shard of a counter subtracts `n` from its sum,
/// unless that shard wraps around.
pub proof fn law_counter_sub(s: Seq<u64>, i: int, n: u64)
    requires
        0 <= i < s.len(),
        n <= s[i],
    ensures
        total(s.update(i, vstd::wrapping::u64_specs::wrapping_sub(s[i], n))) + n == total(s),
{
    lemma_total_update(s, i, (s[i] - n) as u64);
}

/// Wrapping one shard by a multiple of 2^64 leaves the wrapped sum as if
/// the value had been added exactly.
proof fn lemma_wrapped_update(s: Seq<u64>, i: int, v: u64, d: int)
    requires
        0 <= i < s.len(),
        v as int == s[i] as int + d || v as int == s[i] as int + d - 0x1_0000_0000_0000_0000 || v as int
            == s[i] as int + d + 0x1_0000_0000_0000_0000,
    ensures
        wrapped_total(s.update(i, v)) == (total(s) as int + d) % 0x1_0000_0000_0000_0000,
{
    let m: int = 0x1_0000_0000_0000_0000;
    lemma_total_update(s, i, v);
    let t = total(s) as int;
    let t2 = total(s.update(i, v)) as int;
    if v as int == s[i] as int + d - m {
        assert(t2 == (t + d) + m * (-1));
        vstd::arithmetic::div_mod::lemma_mod_multiples_vanish(-1, t + d, m);
    } else if v as int == s[i] as int + d + m {
        assert(t2 == (t + d) + m * 1);
        vstd::arithmetic::div_mod::lemma_mod_multiples_vanish(1, t + d, m);
    }
}

/// The sum of a counter, read as `u64`, grows by `n` modulo 2^64 when `n`
/// is added to any shard.
pub proof fn law_counter_sum_add(s: Seq<u64>, i: int, n: u64)
    requires
        0 <= i < s.len(),
    ensures
        wrapped_total(s.update(i, vstd::wrapping::u64_specs::wrapping_add(s[i], n))) == (wrapped_total(s) + n)
            % 0x1_0000_0000_0000_0000,
{
    let m: int = 0x1_0000_0000_0000_0000;
    lemma_wrapped_update(s, i, vstd::wrapping::u64_specs::wrapping_add(s[i], n), n as int);
    vstd::arithmetic::div_mod::lemma_add_mod_noop_right(n as int, total(s) as int, m);
}

/// The sum of a counter, read as `u64`, shrinks by `n` modulo 2^64 when
/// `n` is subtracted from any shard.
pub proof fn law_counter_sum_sub(s: Seq<u64>, i: int, n: u64)
    requires
        0 <= i < s.len(),
    ensures
        wrapped_total(s.update(i, vstd::wrapping::u64_specs::wrapping_sub(s[i], n))) == (wrapped_total(s) - n)
            % 0x1_0000_0000_0000_0000,
{
    let m: int = 0x1_0000_0000_0000_0000;
    lemma_wrapped_update(s, i, vstd::wrapping::u64_specs::wrapping_sub(s[i], n), -(n as int));
    vstd::arithmetic::div_mod::lemma_sub_mod_noop(total(s) as int, n as int, m);
    vstd::arithmetic::div_mod::lemma_small_mod(n as nat, m as nat);
}

/// Adding `x` on one node and subtracting `y <= x` on any node of a fresh
/// counter leaves a sum of `x - y`, though the second shard wraps around.
pub proof fn law_counter_net(n: nat, i: int, j: int, x: u64, y: u64)
    requires
        0 <= i < n,
        0 <= j < n,
        y <= x,
    ensures
        ({
            let s0 = Seq::new(n, |k: int| 0u64);
            let s1 = s0.update(i, vstd::wrapping::u64_specs::wrapping_add(s0[i], x));
            let s2 = s1.update(j, vstd::wrapping::u64_specs::wrapping_sub(s1[j], y));
            wrapped_total(s2) == x - y
        }),
{
    let m: int = 0x1_0000_0000_0000_0000;
    let s0 = Seq::new(n, |k: int| 0u64);
    let s1 = s0.update(i, vstd::wrapping::u64_specs::wrapping_add(s0[i], x));
    law_counter_reset(n);
    law_counter_sum_add(s0, i, x);
    vstd::arithmetic::div_mod::lemma_small_mod(0, m as nat);
    vstd::arithmetic::div_mod::lemma_small_mod(x as nat, m as nat);
    law_counter_sum_sub(s1, j, y);
    vstd::arithmetic::div_mod::lemma_small_mod((x - y) as nat, m as nat);
}

/// A counter reset to zero sums to zero.
pub proof fn law_counter_reset(n: nat)
    ensures
        total(Seq::new(n, |i: int| 0u64)) == 0,
        wrapped_total(Seq::new(n, |i: int| 0u64)) == 0,
    decreases n,
{
    if n > 0 {
        law_counter_reset((n - 1) as nat);
        assert(Seq::new(n, |i: int| 0u64).drop_last() =~= Seq::new((n - 1) as nat, |i: int| 0u64));
    }
}

/// The shards after the counter operations `ops`, applied in order: each
/// is a shard position, whether it adds (else subtracts), and the amount.
pub open spec fn apply_ops(s: Seq<u64>, ops: Seq<(int, bool, u64)>) -> Seq<u64>
    decreases ops.len(),
{
    if ops.len() == 0 {
        s
    } else {
        let t = apply_ops(s, ops.drop_last());
        let op = ops.last();
        if 0 <= op.0 < t.len() {
            t.update(
                op.0,
                if op.1 {
                    vstd::wrapping::u64_specs::wrapping_add(t[op.0], op.2)
                } else {
                    vstd::wrapping::u64_specs::wrapping_sub(t[op.0], op.2)
                },
            )
        } else {
            t
        }
    }
}

/// What the operations add up to: the amounts added minus those subtracted.
pub open spec fn net_amount(ops: Seq<(int, bool, u64)>) -> int
    decreases ops.len(),
{
    if ops.len() == 0 {
        0
    } else {
        net_amount(ops.drop_last()) + if ops.last().1 {
            ops.last().2 as int
        } else {
            -(ops.last().2 as int)
        }
    }
}

/// After any adds and subtracts on any shards, the sum of a counter read as
/// `u64` is what it was plus their net amount, modulo 2^64; so a fresh
/// counter whose net amount lies in `0..2^64` sums to exactly that amount,
/// whichever shards wrapped around on the way.
pub proof fn law_counter_ops(s: Seq<u64>, ops: Seq<(int, bool, u64)>)
    requires
        forall|k: int| 0 <= k < ops.len() ==> 0 <= (#[trigger] ops[k]).0 < s.len(),
    ensures
        apply_ops(s, ops).len() == s.len(),
        wrapped_total(apply_ops(s, ops)) == (total(s) + net_amount(ops)) % 0x1_0000_0000_0000_0000,
        s == Seq::new(s.len(), |i: int| 0u64) && 0 <= net_amount(ops) < 0x1_0000_0000_0000_0000
            ==> wrapped_total(apply_ops(s, ops)) == net_amount(ops),
    decreases ops.len(),
{
    let m: int = 0x1_0000_0000_0000_0000;
    if ops.len() == 0 {
    } else {
        let p = ops.drop_last();
        assert forall|k: int| 0 <= k < p.len() implies 0 <= (#[trigger] p[k]).0 < s.len() by {
            assert(p[k] == ops[k]);
        }
        law_counter_ops(s, p);
        let t = apply_ops(s, p);
        let op = ops.last();
        assert(op == ops[ops.len() - 1]);
        let base = total(s) + net_amount(p);
        if op.1 {
            law_counter_sum_add(t, op.0, op.2);
            vstd::arithmetic::div_mod::lemma_add_mod_noop(base, op.2 as int, m);
            vstd::arithmetic::div_mod::lemma_small_mod(op.2 as nat, m as nat);
            vstd::arithmetic::div_mod::lemma_mod_twice(base, m);
            vstd::arithmetic::div_mod::lemma_mod_bound(base, m);
            vstd::arithmetic::div_mod::lemma_small_mod((base % m) as nat, m as nat);
        } else {
            law_counter_sum_sub(t, op.0, op.2);
            vstd::arithmetic::div_mod::lemma_sub_mod_noop(base, op.2 as int, m);
            vstd::arithmetic::div_mod::lemma_small_mod(op.2 as nat, m as nat);
            vstd::arithmetic::div_mod::lemma_mod_bound(base, m);
            vstd::arithmetic::div_mod::lemma_small_mod((base % m) as nat, m as nat);
        }
    }
    if s == Seq::new(s.len(), |i: int| 0u64) && 0 <= net_amount(ops) < m {
        law_counter_reset(s.len());
        vstd::arithmetic::div_mod::lemma_small_mod(net_amount(ops) as nat, m as nat);
    }
}

/// Recording a steal (in a collector whose nodes have distinct IDs, and no
/// count wrapping around): the stealer's performed count and the total
/// steals grow by one, the local executions stay, and in the snapshot the
/// stolen count grows by one on the victim's entry (when the victim is a
/// node) and nowhere else.
pub proof fn law_record_steal(c: CollectorCounts, thief: int, from: NodeId)
    requires
        c.ids.len() == c.local.len(),
        c.stolen.len() == c.local.len(),
        c.steals.len() == c.local.len(),
        c.ids.no_duplicates(),
        0 <= thief < c.steals.len(),
        c.steals[thief] + 1 <= u64::MAX,
        c.ids.contains(from) ==> c.stolen[id_position(c.ids, from)] + 1 <= u64::MAX,
    ensures
        ({
            let c2 = CollectorCounts {
                ids: c.ids,
                local: c.local,
                stolen: if c.ids.contains(from) {
                    c.stolen.update(
                        id_position(c.ids, from),
                        vstd::wrapping::u64_specs::wrapping_add(c.stolen[id_position(c.ids, from)], 1),
                    )
                } else {
                    c.stolen
                },
                steals: c.steals.update(thief, vstd::wrapping::u64_specs::wrapping_add(c.steals[thief], 1)),
            };
            &&& total(c2.steals) == total(c.steals) + 1
            &&& total(c2.local) == total(c.local)
            &&& snapshot_of(c2).len() == snapshot_of(c).len()
            &&& forall|k: int|
                0 <= k < c.local.len() ==> (#[trigger] snapshot_of(c2)[k]).tasks_stolen == snapshot_of(c)[k].tasks_stolen
                    + if c.ids[k] == from {
                    1int
                } else {
                    0int
                }
            &&& forall|k: int|
                0 <= k < c.local.len() ==> (#[trigger] snapshot_of(c2)[k]).steals_performed
                    == snapshot_of(c)[k].steals_performed + if k == thief {
                    1int
                } else {
                    0int
                }
        }),
{
    law_counter_add(c.steals, thief, 1);
    lemma_id_position(c.ids, from);
    let c2 = CollectorCounts {
        ids: c.ids,
        local: c.local,
        stolen: if c.ids.contains(from) {
            c.stolen.update(
                id_position(c.ids, from),
                vstd::wrapping::u64_specs::wrapping_add(c.stolen[id_position(c.ids, from)], 1),
            )
        } else {
            c.stolen
        },
        steals: c.steals.update(thief, vstd::wrapping::u64_specs::wrapping_add(c.steals[thief], 1)),
    };
    assert forall|k: int| 0 <= k < c.local.len() implies (#[trigger] snapshot_of(c2)[k]).tasks_stolen
        == snapshot_of(c)[k].tasks_stolen + if c.ids[k] == from {
        1int
    } else {
        0int
    } && snapshot_of(c2)[k].steals_performed == snapshot_of(c)[k].steals_performed + if k == thief {
        1int
    } else {
        0int
    } by {
        lemma_id_position_distinct(c.ids, k);
        if c.ids[k] == from {
            assert(id_position(c.ids, from) == k);
        } else if c.ids.contains(from) {
            assert(id_position(c.ids, from) != k);
        }
    }
}

/// Per-node counts that match values one for one sum to their total.
proof fn lemma_field_total(ns: Seq<NodeStats>, vals: Seq<u64>, f: StatField)
    requires
        ns.len() == vals.len(),
        forall|i: int| 0 <= i < ns.len() ==> field_of(#[trigger] ns[i], f) == vals[i] as nat,
    ensures
        sum_field(ns, f) == total(vals),
    decreases ns.len(),
{
    if ns.len() > 0 {
        let p = ns.drop_last();
        let q = vals.drop_last();
        assert forall|i: int| 0 <= i < p.len() implies field_of(#[trigger] p[i], f) == q[i] as nat by {
            assert(p[i] == ns[i]);
        }
        lemma_field_total(p, q, f);
        assert(ns[ns.len() - 1] == ns.last());
    }
}

/// A snapshot of a collector reports the collector's totals: its local
/// executions sum to the collector's; and when no two nodes share an ID,
/// so do its steals and its stolen tasks.
pub proof fn law_snapshot_totals(c: CollectorCounts)
    requires
        c.ids.len() == c.local.len(),
        c.stolen.len() == c.local.len(),
        c.steals.len() == c.local.len(),
    ensures
        sum_local(snapshot_of(c)) == total(c.local),
        c.ids.no_duplicates() ==> sum_steals(snapshot_of(c)) == total(c.steals) && sum_stolen(snapshot_of(c))
            == total(c.stolen),
{
    let ns = snapshot_of(c);
    lemma_sum_field(ns);
    lemma_field_total(ns, c.local, StatField::Local);
    if c.ids.no_duplicates() {
        assert forall|i: int| 0 <= i < ns.len() implies field_of(#[trigger] ns[i], StatField::Steals)
            == c.steals[i] as nat && field_of(ns[i], StatField::Stolen) == c.stolen[i] as nat by {
            lemma_id_position_distinct(c.ids, i);
        }
        lemma_field_total(ns, c.steals, StatField::Steals);
        lemma_field_total(ns, c.stolen, StatField::Stolen);
    }
}

/// Recording a steal from a node that has a shard adds one to the steals of
/// the stealing node and one to the tasks stolen from the other, so the two
/// totals stay as far apart as they were (unless a shard wraps around).
pub proof fn law_steals_balance(c: CollectorCounts, thief: int, victim: int)
    requires
        0 <= thief < c.steals.len(),
        0 <= victim < c.stolen.len(),
        c.steals[thief] + 1 <= u64::MAX,
        c.stolen[victim] + 1 <= u64::MAX,
    ensures
        total(c.stolen.update(victim, vstd::wrapping::u64_specs::wrapping_add(c.stolen[victim], 1))) - total(
            c.steals.update(thief, vstd::wrapping::u64_specs::wrapping_add(c.steals[thief], 1)),
        ) == total(c.stolen) - total(c.steals),
{
    law_counter_add(c.stolen, victim, 1);
    law_counter_add(c.steals, thief, 1);
}

// ---------------------------------------------------------------------------
// Health and reports
// ---------------------------------------------------------------------------

/// The rank of a health level: 0 for excellent up to 3 for poor.
pub open spec fn health_rank(h: LocalityHealth) -> nat {
    match h {
        LocalityHealth::Excellent => 0,
        LocalityHealth::Good => 1,
        LocalityHealth::Fair => 2,
        LocalityHealth::Poor => 3,
    }
}

/// Health is acceptable exactly when at least 70% of the work ran locally
/// (or there was none), and more local work never makes it worse.
pub proof fn law_health(local: nat, more: nat, total: nat)
    requires
        local <= more,
    ensures
        (health_of(local, total) == LocalityHealth::Excellent || health_of(local, total) == LocalityHealth::Good)
            <==> (total == 0 || local * 10 >= total * 7),
        health_rank(health_of(more, total)) <= health_rank(health_of(local, total)),
{
}

/// What a report recommends: for poor health, first to steal locally
/// only; for excellent or good health, nothing about the steal policy
/// (the recommendations are those on queues, steals and missing data);
/// and when no task was processed, last to collect more data.
pub proof fn law_report_recommendations(s: Seq<crate::perf::NodeStats>, health: LocalityHealth)
    ensures
        health == LocalityHealth::Poor ==> recommendations_for(s, health)[0]
            == "Consider using StealPolicy::LocalOnly to prevent cross-node stealing"@,
        (health == LocalityHealth::Excellent || health == LocalityHealth::Good) ==> health_advice(health).len()
            == 0,
        sum_local(s) + sum_steals(s) == 0 ==> recommendations_for(s, health).last()
            == "No tasks processed yet. Collect more data before drawing conclusions."@,
        recommendations_for(s, health).len() > 0 || sum_local(s) + sum_steals(s) > 0,
{
    let h = health_advice(health);
    let q = queue_advice(s);
    let st = steal_advices(s);
    if health == LocalityHealth::Poor {
        assert((h + q + st)[0] == h[0]);
    }
}

/// Whether a recommendation opens with a letter that none of the policy
/// or no-work recommendations opens with ('S', 'Q' or 'n').
pub open spec fn other_advice(e: Seq<char>) -> bool {
    e.len() > 0 && (e[0] == 'S' || e[0] == 'Q' || e[0] == 'n')
}

proof fn lemma_queue_advice_other(s: Seq<NodeStats>)
    ensures
        forall|k: int| 0 <= k < queue_advice(s).len() ==> other_advice(#[trigger] queue_advice(s)[k]),
{
    reveal_strlit("Some nodes have empty queues while others are busy. Distribute work more evenly.");
    reveal_strlit("Queue imbalance detected: min=");
}

proof fn lemma_steal_advices_other(s: Seq<NodeStats>)
    ensures
        forall|k: int| 0 <= k < steal_advices(s).len() ==> other_advice(#[trigger] steal_advices(s)[k]),
    decreases s.len(),
{
    if s.len() > 0 {
        lemma_steal_advices_other(s.drop_last());
        let p = steal_advices(s.drop_last());
        let a = steal_advice(s.last());
        reveal_strlit("node");
        assert forall|k: int| 0 <= k < a.len() implies other_advice(#[trigger] a[k]) by {
            assert(node_name(s.last().node_id)[0] == 'n');
        }
        assert forall|k: int| 0 <= k < steal_advices(s).len() implies other_advice(#[trigger] steal_advices(s)[k]) by {
            if k < p.len() {
                assert(steal_advices(s)[k] == p[k]);
            } else {
                assert(steal_advices(s)[k] == a[k - p.len()]);
            }
        }
    }
}

/// A report recommends stealing only locally exactly when its health is
/// poor, the local-then-remote policy exactly when its health is fair, and
/// collecting more data exactly when no task was processed.
pub proof fn law_report_advice(s: Seq<NodeStats>, health: LocalityHealth)
    ensures
        recommendations_for(s, health).contains(
            "Consider using StealPolicy::LocalOnly to prevent cross-node stealing"@,
        ) <==> health == LocalityHealth::Poor,
        recommendations_for(s, health).contains(
            "Consider using StealPolicy::LocalThenSocketThenRemote for better locality"@,
        ) <==> health == LocalityHealth::Fair,
        recommendations_for(s, health).contains(
            "No tasks processed yet. Collect more data before drawing conclusions."@,
        ) <==> sum_local(s) + sum_steals(s) == 0,
{
    let only = "Consider using StealPolicy::LocalOnly to prevent cross-node stealing"@;
    let fair = "Consider using StealPolicy::LocalThenSocketThenRemote for better locality"@;
    let review = "Review work submission patterns - tasks should be submitted to their data's home node"@;
    let none = "No tasks processed yet. Collect more data before drawing conclusions."@;
    reveal_strlit("Consider using StealPolicy::LocalOnly to prevent cross-node stealing");
    reveal_strlit("Consider using StealPolicy::LocalThenSocketThenRemote for better locality");
    reveal_strlit("Review work submission patterns - tasks should be submitted to their data's home node");
    reveal_strlit("No tasks processed yet. Collect more data before drawing conclusions.");
    assert(only[33] != fair[33]);
    assert(only != fair);
    lemma_queue_advice_other(s);
    lemma_steal_advices_other(s);
    let h = health_advice(health);
    let q = queue_advice(s);
    let st = steal_advices(s);
    let z: Seq<Seq<char>> = if sum_local(s) + sum_steals(s) == 0 {
        seq![none]
    } else {
        Seq::empty()
    };
    let recs = recommendations_for(s, health);
    assert(recs == h + q + st + z);
    assert forall|t: Seq<char>| recs.contains(t) && (t == only || t == fair || t == none) implies (h.contains(t)
        || z.contains(t)) by {
        let k = choose|k: int| 0 <= k < recs.len() && recs[k] == t;
        if k >= h.len() && k < h.len() + q.len() {
            assert(recs[k] == q[k - h.len()]);
            assert(other_advice(q[k - h.len()]));
        } else if k >= h.len() + q.len() && k < h.len() + q.len() + st.len() {
            assert(recs[k] == st[k - h.len() - q.len()]);
            assert(other_advice(st[k - h.len() - q.len()]));
        } else if k < h.len() {
            assert(recs[k] == h[k]);
        } else {
            assert(recs[k] == z[k - h.len() - q.len() - st.len()]);
        }
    }
    if health == LocalityHealth::Poor {
        assert(recs[0] == only);
    }
    if health == LocalityHealth::Fair {
        assert(recs[0] == fair);
    }
    if sum_local(s) + sum_steals(s) == 0 {
        assert(recs[recs.len() - 1] == none);
    }
    if z.contains(only) {
        assert(z[0] == none);
    }
    if z.contains(fair) {
        assert(z[0] == none);
    }
    if h.contains(none) {
        let k = choose|k: int| 0 <= k < h.len() && h[k] == none;
        assert(review[0] != none[0]);
    }
    if h.contains(only) {
        let k = choose|k: int| 0 <= k < h.len() && h[k] == only;
        assert(review[0] != only[0]);
    }
    if h.contains(fair) {
        let k = choose|k: int| 0 <= k < h.len() && h[k] == fair;
        assert(review[0] != fair[0]);
    }
}

// ---------------------------------------------------------------------------
// Capabilities
// ---------------------------------------------------------------------------

/// Hard mode is supported exactly when nothing is missing for it.
pub proof fn law_hard_mode_missing(caps: Capabilities)
    ensures
        caps.hard_mode_ok() <==> caps.missing().len() == 0,
{
}

// ---------------------------------------------------------------------------
// Topology
// ---------------------------------------------------------------------------

/// A CPU is mapped to a node exactly when some node holds it, and then to
/// the last node of the list that holds it.
pub proof fn law_cpu_map(nodes: Seq<NodeInfo>, c: u32)
    ensures
        cpu_map(nodes).contains_key(c) <==> exists|i: int| 0 <= i < nodes.len() && (#[trigger] nodes[i]).cpus.contains(c),
        cpu_map(nodes).contains_key(c) ==> exists|i: int|
            0 <= i < nodes.len() && (#[trigger] nodes[i]).cpus.contains(c) && nodes[i].id == cpu_map(nodes)[c]
                && forall|j: int| i < j < nodes.len() ==> !(#[trigger] nodes[j]).cpus.contains(c),
    decreases nodes.len(),
{
    if nodes.len() > 0 {
        let p = nodes.drop_last();
        law_cpu_map(p, c);
        let last = nodes.last();
        if last.cpus.contains(c) {
            assert(nodes[nodes.len() - 1] == last);
        } else {
            if cpu_map(p).contains_key(c) {
                let i = choose|i: int|
                    0 <= i < p.len() && (#[trigger] p[i]).cpus.contains(c) && p[i].id == cpu_map(p)[c] && forall|j: int|
                        i < j < p.len() ==> !(#[trigger] p[j]).cpus.contains(c);
                assert(nodes[i] == p[i]);
                assert forall|j: int| i < j < nodes.len() implies !(#[trigger] nodes[j]).cpus.contains(c) by {
                    if j < p.len() {
                        assert(nodes[j] == p[j]);
                    }
                }
            }
            assert forall|i: int| 0 <= i < nodes.len() && (#[trigger] nodes[i]).cpus.contains(c) implies cpu_map(
                p,
            ).contains_key(c) by {
                if i < p.len() {
                    assert(nodes[i] == p[i]);
                }
            }
        }
    }
}

/// The fallback topology of `count` CPUs has exactly `count` CPUs.
pub proof fn law_fallback_cpus(count: u32)
    ensures
        first_cpus(count).len() == count,
        first_cpus(count).finite(),
    decreases count,
{
    if count > 0 {
        law_fallback_cpus((count - 1) as u32);
        assert(first_cpus(count) =~= first_cpus((count - 1) as u32).insert((count - 1) as u32));
    } else {
        assert(first_cpus(count) =~= Set::<u32>::empty());
    }
}

// ---------------------------------------------------------------------------
// Prefaulting
// ---------------------------------------------------------------------------

/// The ranges of a parallel prefault cover the region exactly: they start
/// at 0, each starts where the one before ends, and the last ends at the
/// region's end.
pub proof fn law_touch_ranges_cover(len: nat, threads: nat)
    ensures
        touch_ranges(len, threads).len() >= 1,
        touch_ranges(len, threads)[0].0 == 0,
        touch_ranges(len, threads).last().1 == len,
        forall|i: int|
            0 <= i < touch_ranges(len, threads).len() - 1 ==> (#[trigger] touch_ranges(len, threads)[i]).1
                == touch_ranges(len, threads)[i + 1].0,
        forall|i: int|
            0 <= i < touch_ranges(len, threads).len() ==> (#[trigger] touch_ranges(len, threads)[i]).0
                <= touch_ranges(len, threads)[i].1,
{
    let r = touch_ranges(len, threads);
    if !(len < threads * 4096 * 256 || threads == 0) {
        let chunk = len / threads;
        assert(chunk * threads <= len) by (nonlinear_arith)
            requires
                chunk == len / threads,
                threads > 0,
        ;
        assert forall|i: int| 0 <= i < r.len() implies (#[trigger] r[i]).0 <= r[i].1 by {
            assert(i * chunk <= (i + 1) * chunk) by (nonlinear_arith)
                requires
                    0 <= i,
                    chunk >= 0,
            ;
            if i == threads - 1 {
                assert(i * chunk <= threads * chunk) by (nonlinear_arith)
                    requires
                        0 <= i <= threads,
                        chunk >= 0,
                ;
            }
        }
        assert(r[0].0 == 0);
    }
}

// ---------------------------------------------------------------------------
// Sorting nodes and devices
// ---------------------------------------------------------------------------

/// Whether the nodes are in order of ID.
pub open spec fn ids_ordered(s: Seq<NodeInfo>) -> bool {
    forall|i: int, j: int| 0 <= i < j < s.len() ==> (#[trigger] s[i]).id.0 <= (#[trigger] s[j]).id.0
}

/// Every element of `insert_by_id(s, x)` is `x` or an element of `s`.
proof fn lemma_insert_id_elements(s: Seq<NodeInfo>, x: NodeInfo)
    ensures
        insert_by_id(s, x).len() == s.len() + 1,
        forall|i: int| 0 <= i < insert_by_id(s, x).len() ==> (#[trigger] insert_by_id(s, x)[i] == x || s.contains(
            insert_by_id(s, x)[i],
        )),
    decreases s.len(),
{
    let r = insert_by_id(s, x);
    if s.len() == 0 {
    } else if s.last().id.0 <= x.id.0 {
        assert forall|i: int| 0 <= i < r.len() implies (#[trigger] r[i] == x || s.contains(r[i])) by {
            if i < s.len() {
                assert(r[i] == s[i]);
            }
        }
    } else {
        let p = s.drop_last();
        lemma_insert_id_elements(p, x);
        let q = insert_by_id(p, x);
        assert forall|i: int| 0 <= i < r.len() implies (#[trigger] r[i] == x || s.contains(r[i])) by {
            if i < q.len() {
                assert(r[i] == q[i]);
                if q[i] != x {
                    let k = choose|k: int| 0 <= k < p.len() && p[k] == q[i];
                    assert(s[k] == q[i]);
                }
            } else {
                assert(r[i] == s[s.len() - 1]);
            }
        }
    }
}

proof fn lemma_insert_id_sorted(s: Seq<NodeInfo>, x: NodeInfo)
    requires
        ids_ordered(s),
    ensures
        ids_ordered(insert_by_id(s, x)),
    decreases s.len(),
{
    let r = insert_by_id(s, x);
    if s.len() == 0 {
    } else if s.last().id.0 <= x.id.0 {
        assert forall|i: int, j: int| 0 <= i < j < r.len() implies (#[trigger] r[i]).id.0 <= (#[trigger] r[j]).id.0 by {
            assert(r[i] == s[i]);
            if j < s.len() {
                assert(r[j] == s[j]);
            } else if i < s.len() - 1 {
                assert(s[i].id.0 <= s[s.len() - 1].id.0);
            }
        }
    } else {
        let p = s.drop_last();
        assert forall|i: int, j: int| 0 <= i < j < p.len() implies (#[trigger] p[i]).id.0 <= (#[trigger] p[j]).id.0 by {
            assert(p[i] == s[i] && p[j] == s[j]);
        }
        lemma_insert_id_sorted(p, x);
        lemma_insert_id_elements(p, x);
        let q = insert_by_id(p, x);
        assert forall|i: int, j: int| 0 <= i < j < r.len() implies (#[trigger] r[i]).id.0 <= (#[trigger] r[j]).id.0 by {
            assert(r[i] == q[i]);
            if j < q.len() {
                assert(r[j] == q[j]);
            } else {
                assert(r[j] == s[s.len() - 1]);
                if q[i] != x {
                    let k = choose|k: int| 0 <= k < p.len() && p[k] == q[i];
                    assert(s[k] == q[i]);
                    assert(s[k].id.0 <= s[s.len() - 1].id.0);
                }
            }
        }
    }
}

/// Discovered nodes come out in order of ID.
pub proof fn law_nodes_sorted(s: Seq<NodeInfo>)
    ensures
        ids_ordered(sort_by_id(s)),
        sort_by_id(s).len() == s.len(),
    decreases s.len(),
{
    if s.len() > 0 {
        law_nodes_sorted(s.drop_last());
        lemma_insert_id_sorted(sort_by_id(s.drop_last()), s.last());
        lemma_insert_id_elements(sort_by_id(s.drop_last()), s.last());
    }
}

/// Whether the devices are in order of name.
pub open spec fn names_ordered(s: Seq<DeviceInfo>) -> bool {
    forall|i: int, j: int| 0 <= i < j < s.len() ==> !text_less((#[trigger] s[j]).name, (#[trigger] s[i]).name)
}

/// Every element of `insert_by_name(s, x)` is `x` or an element of `s`.
proof fn lemma_insert_name_elements(s: Seq<DeviceInfo>, x: DeviceInfo)
    ensures
        insert_by_name(s, x).len() == s.len() + 1,
        forall|i: int| 0 <= i < insert_by_name(s, x).len() ==> (#[trigger] insert_by_name(s, x)[i] == x || s.contains(
            insert_by_name(s, x)[i],
        )),
    decreases s.len(),
{
    let r = insert_by_name(s, x);
    if s.len() == 0 {
    } else if !text_less(x.name, s.last().name) {
        assert forall|i: int| 0 <= i < r.len() implies (#[trigger] r[i] == x || s.contains(r[i])) by {
            if i < s.len() {
                assert(r[i] == s[i]);
            }
        }
    } else {
        let p = s.drop_last();
        lemma_insert_name_elements(p, x);
        let q = insert_by_name(p, x);
        assert forall|i: int| 0 <= i < r.len() implies (#[trigger] r[i] == x || s.contains(r[i])) by {
            if i < q.len() {
                assert(r[i] == q[i]);
                if q[i] != x {
                    let k = choose|k: int| 0 <= k < p.len() && p[k] == q[i];
                    assert(s[k] == q[i]);
                }
            } else {
                assert(r[i] == s[s.len() - 1]);
            }
        }
    }
}

proof fn lemma_insert_name_sorted(s: Seq<DeviceInfo>, x: DeviceInfo)
    requires
        names_ordered(s),
    ensures
        names_ordered(insert_by_name(s, x)),
    decreases s.len(),
{
    let r = insert_by_name(s, x);
    if s.len() == 0 {
    } else if !text_less(x.name, s.last().name) {
        let last = s[s.len() - 1];
        assert forall|i: int, j: int| 0 <= i < j < r.len() implies !text_less((#[trigger] r[j]).name, (#[trigger] r[i]).name) by {
            assert(r[i] == s[i]);
            if j < s.len() {
                assert(r[j] == s[j]);
            } else {
                assert(r[j] == x);
                if text_less(x.name, s[i].name) {
                    if s[i].name == last.name {
                    } else {
                        assert(!text_less(last.name, s[i].name));
                        lemma_text_less_total(last.name, s[i].name);
                        lemma_text_less_transitive(x.name, s[i].name, last.name);
                    }
                }
            }
        }
    } else {
        let p = s.drop_last();
        let last = s[s.len() - 1];
        assert forall|i: int, j: int| 0 <= i < j < p.len() implies !text_less((#[trigger] p[j]).name, (#[trigger] p[i]).name) by {
            assert(p[i] == s[i] && p[j] == s[j]);
        }
        lemma_insert_name_sorted(p, x);
        lemma_insert_name_elements(p, x);
        let q = insert_by_name(p, x);
        assert forall|i: int, j: int| 0 <= i < j < r.len() implies !text_less((#[trigger] r[j]).name, (#[trigger] r[i]).name) by {
            assert(r[i] == q[i]);
            if j < q.len() {
                assert(r[j] == q[j]);
            } else {
                assert(r[j] == last);
                if q[i] == x {
                    lemma_text_less_asymmetric(x.name, last.name);
                } else {
                    let k = choose|k: int| 0 <= k < p.len() && p[k] == q[i];
                    assert(s[k] == q[i]);
                }
            }
        }
    }
}

/// The device lists of a map's summary come out in order of name.
pub proof fn law_devices_sorted(s: Seq<DeviceInfo>)
    ensures
        names_ordered(sort_by_name(s)),
        sort_by_name(s).len() == s.len(),
    decreases s.len(),
{
    if s.len() > 0 {
        law_devices_sorted(s.drop_last());
        lemma_insert_name_sorted(sort_by_name(s.drop_last()), s.last());
        lemma_insert_name_elements(sort_by_name(s.drop_last()), s.last());
    }
}

// ---------------------------------------------------------------------------
// Node masks
// ---------------------------------------------------------------------------

/// The number of set bits of `w` below bit `k`.
pub open spec fn ones(w: u64, k: nat) -> nat
    decreases k,
{
    if k == 0 {
        0
    } else {
        ones(w, (k - 1) as nat) + if bit_set(w, (k - 1) as u64) {
            1nat
        } else {
            0nat
        }
    }
}

proof fn lemma_below_ones(m: NodeMask, k: nat)
    requires
        k <= 64,
    ensures
        below(m@, k as int).finite(),
        below(m@, k as int).len() == ones(m.raw(), k),
    decreases k,
{
    m.lemma_view_raw();
    if k == 0 {
        assert(below(m@, 0) =~= Set::<u32>::empty());
    } else {
        lemma_below_ones(m, (k - 1) as nat);
        lemma_below_step(m@, k - 1);
        assert(m@.contains((k - 1) as u32) == bit_set(m.raw(), (k - 1) as u64));
    }
}

/// A mask made from a raw word holds node `n` exactly when bit `n` is set,
/// has as many nodes as the word has set bits, and is empty exactly when
/// the word is zero.
pub proof fn law_node_mask_raw(m: NodeMask)
    ensures
        forall|n: u32| #[trigger] m@.contains(n) <==> (n < 64 && bit_set(m.raw(), n as u64)),
        m@.len() == ones(m.raw(), 64),
        (m@ == Set::<u32>::empty()) <==> m.raw() == 0,
{
    m.lemma_view_raw();
    m.lemma_view_bounded();
    lemma_below_ones(m, 64);
    assert(below(m@, 64) =~= m@);
    if m@ == Set::<u32>::empty() {
        assert forall|b: u64| b < 64 implies !#[trigger] bit_set(m.raw(), b) by {
            assert(!m@.contains(b as u32));
        }
        lemma_no_bits_zero(m.raw());
    }
    if m.raw() == 0 {
        assert forall|n: u32| !m@.contains(n) by {
            if n < 64 {
                crate::bits::lemma_zero_word(n as u64);
            }
        }
        assert(m@ =~= Set::<u32>::empty());
    }
}

// ---------------------------------------------------------------------------
// Texts
// ---------------------------------------------------------------------------

/// Whether `s` ends with `t`.
pub open spec fn ends_with(s: Seq<char>, t: Seq<char>) -> bool {
    t.len() <= s.len() && s.skip(s.len() - t.len()) == t
}

/// A text between two others is inside their concatenation.
proof fn lemma_infix_mid(p: Seq<char>, x: Seq<char>, q: Seq<char>)
    ensures
        has_infix(p + x + q, x),
{
    assert((p + x + q).subrange(p.len() as int, (p.len() + x.len()) as int) =~= x);
}

/// What is inside a prefix of a text is inside the text.
proof fn lemma_infix_prefix(t: Seq<char>, p: Seq<char>, x: Seq<char>)
    requires
        has_infix(p, x),
        p.len() <= t.len(),
        t.take(p.len() as int) == p,
    ensures
        has_infix(t, x),
{
    let i = choose|i: int| 0 <= i && i + x.len() <= p.len() && #[trigger] p.subrange(i, i + x.len()) == x;
    assert(t.subrange(i, i + x.len()) =~= p.subrange(i, i + x.len()));
}

/// What is inside one part of a text is inside the whole.
proof fn lemma_infix_concat(a: Seq<char>, b: Seq<char>, x: Seq<char>)
    ensures
        has_infix(a, x) ==> has_infix(a + b, x),
        has_infix(b, x) ==> has_infix(a + b, x),
{
    if has_infix(a, x) {
        assert((a + b).take(a.len() as int) =~= a);
        lemma_infix_prefix(a + b, a, x);
    }
    if has_infix(b, x) {
        let i = choose|i: int| 0 <= i && i + x.len() <= b.len() && #[trigger] b.subrange(i, i + x.len()) == x;
        assert((a + b).subrange(a.len() as int + i, a.len() as int + i + x.len()) =~= b.subrange(i, i + x.len()));
    }
}

/// Each missing requirement has its bullet line.
proof fn lemma_bullet_lines(ms: Seq<&'static str>)
    ensures
        forall|k: int| 0 <= k < ms.len() ==> has_infix(bullets(ms), "  - "@ + (#[trigger] ms[k])@ + "\n"@),
    decreases ms.len(),
{
    if ms.len() > 0 {
        let p = ms.drop_last();
        lemma_bullet_lines(p);
        let line = "  - "@ + ms.last()@ + "\n"@;
        assert(bullets(ms) == bullets(p) + line);
        assert forall|k: int| 0 <= k < ms.len() implies has_infix(bullets(ms), "  - "@ + (#[trigger] ms[k])@ + "\n"@) by {
            let x = "  - "@ + ms[k]@ + "\n"@;
            lemma_infix_concat(bullets(p), line, x);
            if k < p.len() {
                assert(ms[k] == p[k]);
            } else {
                assert(ms[k] == ms.last());
                lemma_infix_mid(Seq::empty(), line, Seq::empty());
                assert(Seq::<char>::empty() + line + Seq::<char>::empty() =~= line);
            }
        }
    }
}

/// The capabilities summary opens with its title, names the node count,
/// says whether hard mode is supported, and either ends there (supported)
/// or ends with one bullet line per missing requirement, in order.
pub proof fn law_capabilities_summary(c: Capabilities)
    ensures
        has_prefix(c.summary_text(), "NUMA System Capabilities\n"@),
        has_infix(c.summary_text(), "NUMA nodes detected: "@ + dec(c.numa_node_count as nat) + "\n"@),
        has_infix(
            c.summary_text(),
            "\nHard mode supported: "@ + (if c.hard_mode_ok() {
                "YES"@
            } else {
                "NO"@
            }) + "\n"@,
        ),
        c.hard_mode_ok() ==> ends_with(c.summary_text(), "\nHard mode supported: "@ + "YES"@ + "\n"@),
        !c.hard_mode_ok() ==> ends_with(c.summary_text(), "\nMissing for hard mode:\n"@ + bullets(c.missing())),
        forall|k: int|
            0 <= k < c.missing().len() ==> has_infix(c.summary_text(), "  - "@ + (#[trigger] c.missing()[k])@ + "\n"@),
{
    let t = c.summary_text();
    let a = "NUMA System Capabilities\n"@;
    let b = "========================\n"@;
    let n = c.node_count_line();
    let f = c.flag_lines();
    let h = c.hard_mode_line();
    let m = c.missing_part();
    assert(t == a + b + n + f + h + m);
    assert(t =~= a + (b + n + f + h + m));
    assert(t.take(a.len() as int) =~= a);
    assert(t =~= (a + b) + n + (f + h + m));
    lemma_infix_mid(a + b, n, f + h + m);
    assert(t =~= (a + b + n + f) + h + m);
    lemma_infix_mid(a + b + n + f, h, m);
    assert(t.skip(t.len() - m.len()) =~= m);
    if c.hard_mode_ok() {
        assert(t.skip(t.len() - h.len()) =~= h);
    }
    lemma_bullet_lines(c.missing());
    assert forall|k: int| 0 <= k < c.missing().len() implies has_infix(t, "  - "@ + (#[trigger] c.missing()[k])@ + "\n"@) by {
        if !c.hard_mode_ok() {
            let x = "  - "@ + c.missing()[k]@ + "\n"@;
            lemma_infix_concat("\nMissing for hard mode:\n"@, bullets(c.missing()), x);
            lemma_infix_concat(a + b + n + f + h, m, x);
        }
    }
}

/// Each node has its line among the per-node lines.
proof fn lemma_per_node_lines(s: Seq<NodeStats>)
    ensures
        forall|k: int|
            0 <= k < s.len() ==> has_infix(per_node_lines(s), "  "@ + node_stats_text(#[trigger] s[k]) + "\n"@),
    decreases s.len(),
{
    if s.len() > 0 {
        let p = s.drop_last();
        lemma_per_node_lines(p);
        let line = "  "@ + node_stats_text(s.last()) + "\n"@;
        assert(per_node_lines(s) == per_node_lines(p) + line);
        assert forall|k: int| 0 <= k < s.len() implies has_infix(per_node_lines(s), "  "@ + node_stats_text(#[trigger] s[k]) + "\n"@) by {
            let x = "  "@ + node_stats_text(s[k]) + "\n"@;
            lemma_infix_concat(per_node_lines(p), line, x);
            if k < p.len() {
                assert(s[k] == p[k]);
            } else {
                assert(s[k] == s.last());
                lemma_infix_mid(Seq::empty(), line, Seq::empty());
                assert(Seq::<char>::empty() + line + Seq::<char>::empty() =~= line);
            }
        }
    }
}

/// The summary of statistics opens with the node count, has a line for
/// the total processed, the local executions, the remote steals and the
/// queue depth, and ends with the per-node breakdown: one line per node,
/// in order.
pub proof fn law_stats_summary(s: Seq<NodeStats>, ratio: Seq<char>)
    ensures
        has_prefix(stats_summary_text(s, ratio), "Locality Stats ("@ + dec(s.len()) + " nodes)\n"@),
        has_infix(stats_summary_text(s, ratio), "  Total processed: "@ + dec(sum_local(s) + sum_steals(s)) + "\n"@),
        has_infix(stats_summary_text(s, ratio), "  Local executions: "@ + dec(sum_local(s)) + "\n"@),
        has_infix(stats_summary_text(s, ratio), "  Remote steals: "@ + dec(sum_steals(s)) + "\n"@),
        has_infix(stats_summary_text(s, ratio), "  Queue depth: "@ + dec(sum_depth(s)) + "\n"@),
        ends_with(stats_summary_text(s, ratio), "Per-node breakdown:\n"@ + per_node_lines(s)),
        forall|k: int|
            0 <= k < s.len() ==> has_infix(
                stats_summary_text(s, ratio),
                "  "@ + node_stats_text(#[trigger] s[k]) + "\n"@,
            ),
{
    let t = stats_summary_text(s, ratio);
    let a = stats_title(s);
    let b = count_line("  Total processed: "@, sum_local(s) + sum_steals(s));
    let c = count_line("  Local executions: "@, sum_local(s));
    let d = count_line("  Remote steals: "@, sum_steals(s));
    let e = "  Locality ratio: "@ + ratio + "%\n"@;
    let f = count_line("  Queue depth: "@, sum_depth(s));
    let g = breakdown(s);
    assert(t == a + b + c + d + e + f + g);
    assert(t.take(a.len() as int) =~= a);
    assert(t =~= a + b + (c + d + e + f + g));
    lemma_infix_mid(a, b, c + d + e + f + g);
    assert(t =~= (a + b) + c + (d + e + f + g));
    lemma_infix_mid(a + b, c, d + e + f + g);
    assert(t =~= (a + b + c) + d + (e + f + g));
    lemma_infix_mid(a + b + c, d, e + f + g);
    assert(t =~= (a + b + c + d + e) + f + g);
    lemma_infix_mid(a + b + c + d + e, f, g);
    let tail = "Per-node breakdown:\n"@ + per_node_lines(s);
    assert(g =~= "\n"@ + tail);
    assert(t.skip(t.len() - tail.len()) =~= tail);
    lemma_per_node_lines(s);
    assert forall|k: int| 0 <= k < s.len() implies has_infix(t, "  "@ + node_stats_text(#[trigger] s[k]) + "\n"@) by {
        let x = "  "@ + node_stats_text(s[k]) + "\n"@;
        lemma_infix_concat("\n"@ + "Per-node breakdown:\n"@, per_node_lines(s), x);
        lemma_infix_concat(a + b + c + d + e + f, g, x);
    }
}

/// What a selection holds: devices of the list that are in the selection,
/// and every such device.
proof fn lemma_select(s: Seq<DeviceInfo>, f: DeviceFilter)
    ensures
        forall|k: int| 0 <= k < select(s, f).len() ==> selected(f, #[trigger] select(s, f)[k]) && s.contains(select(s, f)[k]),
        forall|k: int| 0 <= k < s.len() && selected(f, #[trigger] s[k]) ==> select(s, f).contains(s[k]),
    decreases s.len(),
{
    if s.len() > 0 {
        let p = s.drop_last();
        lemma_select(p, f);
        let r = select(p, f);
        assert forall|k: int| 0 <= k < select(s, f).len() implies selected(f, #[trigger] select(s, f)[k]) && s.contains(select(s, f)[k]) by {
            if k < r.len() {
                assert(select(s, f)[k] == r[k]);
                let j = choose|j: int| 0 <= j < p.len() && p[j] == r[k];
                assert(s[j] == p[j]);
            } else {
                assert(select(s, f)[k] == s.last());
                assert(s[s.len() - 1] == s.last());
            }
        }
        assert forall|k: int| 0 <= k < s.len() && selected(f, #[trigger] s[k]) implies select(s, f).contains(s[k]) by {
            if k < p.len() {
                assert(s[k] == p[k]);
                let j = choose|j: int| 0 <= j < r.len() && r[j] == p[k];
                assert(select(s, f)[j] == r[j]);
            } else {
                assert(s[k] == s.last());
                assert(select(s, f)[r.len() as int] == s.last());
            }
        }
    }
}

/// Inserting by name adds the element once.
proof fn lemma_insert_name_multiset(s: Seq<DeviceInfo>, x: DeviceInfo)
    ensures
        insert_by_name(s, x).to_multiset() == s.to_multiset().insert(x),
    decreases s.len(),
{
    broadcast use vstd::seq_lib::group_to_multiset_ensures;
    if s.len() == 0 {
        assert(seq![x] =~= Seq::<DeviceInfo>::empty().push(x));
    } else if !text_less(x.name, s.last().name) {
    } else {
        lemma_insert_name_multiset(s.drop_last(), x);
        assert(s =~= s.drop_last().push(s.last()));
    }
}

/// Sorting by name keeps every device, as many times as it occurs.
proof fn lemma_sort_name_multiset(s: Seq<DeviceInfo>)
    ensures
        sort_by_name(s).to_multiset() == s.to_multiset(),
    decreases s.len(),
{
    broadcast use vstd::seq_lib::group_to_multiset_ensures;
    if s.len() == 0 {
        assert(s =~= sort_by_name(s));
    } else {
        lemma_sort_name_multiset(s.drop_last());
        lemma_insert_name_multiset(sort_by_name(s.drop_last()), s.last());
        assert(s.drop_last().push(s.last()) =~= s);
    }
}

/// Each device has its line among the device lines.
proof fn lemma_device_lines(xs: Seq<DeviceInfo>)
    ensures
        forall|k: int| 0 <= k < xs.len() ==> has_infix(device_lines(xs), "    "@ + device_text(#[trigger] xs[k]) + "\n"@),
    decreases xs.len(),
{
    if xs.len() > 0 {
        let p = xs.drop_last();
        lemma_device_lines(p);
        let line = "    "@ + device_text(xs.last()) + "\n"@;
        assert(device_lines(xs) == device_lines(p) + line);
        assert forall|k: int| 0 <= k < xs.len() implies has_infix(device_lines(xs), "    "@ + device_text(#[trigger] xs[k]) + "\n"@) by {
            let x = "    "@ + device_text(xs[k]) + "\n"@;
            lemma_infix_concat(device_lines(p), line, x);
            if k < p.len() {
                assert(xs[k] == p[k]);
            } else {
                assert(xs[k] == xs.last());
                lemma_infix_mid(Seq::empty(), line, Seq::empty());
                assert(Seq::<char>::empty() + line + Seq::<char>::empty() =~= line);
            }
        }
    }
}

/// The listed group of one device type: its heading when it has devices,
/// every device of the type on a line, and nothing of another type; the
/// list holds exactly the devices of the type.
proof fn lemma_device_group(s: Seq<DeviceInfo>, t: DeviceType, head: Seq<char>)
    ensures
        ({
            let g = sort_by_name(select(s, DeviceFilter::OfType(t)));
            &&& g.to_multiset() == select(s, DeviceFilter::OfType(t)).to_multiset()
            &&& forall|k: int| 0 <= k < g.len() ==> (#[trigger] g[k]).device_type == t
            &&& select(s, DeviceFilter::OfType(t)).len() > 0 ==> has_infix(device_section(head, g), head)
            &&& forall|k: int|
                0 <= k < s.len() && (#[trigger] s[k]).device_type == t ==> has_infix(
                    device_section(head, g),
                    "    "@ + device_text(s[k]) + "\n"@,
                )
        }),
{
    broadcast use vstd::seq_lib::group_to_multiset_ensures;
    let f = DeviceFilter::OfType(t);
    let sel = select(s, f);
    let g = sort_by_name(sel);
    lemma_select(s, f);
    lemma_sort_name_multiset(sel);
    law_devices_sorted(sel);
    lemma_device_lines(g);
    assert forall|k: int| 0 <= k < g.len() implies (#[trigger] g[k]).device_type == t by {
        assert(g.contains(g[k]));
        assert(sel.to_multiset().count(g[k]) > 0);
        let j = choose|j: int| 0 <= j < sel.len() && sel[j] == g[k];
        assert(selected(f, sel[j]));
    }
    if sel.len() > 0 {
        lemma_infix_mid(Seq::empty(), head, device_lines(g));
        assert(Seq::<char>::empty() + head + device_lines(g) =~= head + device_lines(g));
    }
    assert forall|k: int| 0 <= k < s.len() && (#[trigger] s[k]).device_type == t implies has_infix(
        device_section(head, g),
        "    "@ + device_text(s[k]) + "\n"@,
    ) by {
        assert(selected(f, s[k]));
        assert(sel.contains(s[k]));
        assert(g.to_multiset().count(s[k]) > 0);
        assert(g.contains(s[k]));
        let j = choose|j: int| 0 <= j < g.len() && g[j] == s[k];
        lemma_infix_concat(head, device_lines(g), "    "@ + device_text(g[j]) + "\n"@);
    }
}

/// The summary of a device map opens with the device count; it has a
/// network heading when there are network devices and a block heading when
/// there are block devices; every network and block device has its line;
/// each listed group holds exactly the devices of its type (so devices of
/// other types are not listed), sorted by name.
pub proof fn law_device_summary(s: Seq<DeviceInfo>)
    ensures
        has_prefix(map_summary(s), "Device Map: "@ + dec(s.len()) + " devices\n"@),
        select(s, DeviceFilter::OfType(DeviceType::Network)).len() > 0 ==> has_infix(
            map_summary(s),
            "  Network devices:\n"@,
        ),
        select(s, DeviceFilter::OfType(DeviceType::Block)).len() > 0 ==> has_infix(
            map_summary(s),
            "  Block devices:\n"@,
        ),
        select(s, DeviceFilter::OfType(DeviceType::Network)).len() == 0 ==> device_section(
            "  Network devices:\n"@,
            sort_by_name(select(s, DeviceFilter::OfType(DeviceType::Network))),
        ) == Seq::<char>::empty(),
        select(s, DeviceFilter::OfType(DeviceType::Block)).len() == 0 ==> device_section(
            "  Block devices:\n"@,
            sort_by_name(select(s, DeviceFilter::OfType(DeviceType::Block))),
        ) == Seq::<char>::empty(),
        map_summary(s) == "Device Map: "@ + dec(s.len()) + " devices\n"@ + device_section(
            "  Network devices:\n"@,
            sort_by_name(select(s, DeviceFilter::OfType(DeviceType::Network))),
        ) + device_section(
            "  Block devices:\n"@,
            sort_by_name(select(s, DeviceFilter::OfType(DeviceType::Block))),
        ),
        forall|k: int|
            0 <= k < s.len() && ((#[trigger] s[k]).device_type == DeviceType::Network || s[k].device_type
                == DeviceType::Block) ==> has_infix(map_summary(s), "    "@ + device_text(s[k]) + "\n"@),
        forall|t: DeviceType| #[trigger] sort_by_name(select(s, DeviceFilter::OfType(t))).to_multiset() == select(
            s,
            DeviceFilter::OfType(t),
        ).to_multiset(),
        forall|t: DeviceType|
            names_ordered(#[trigger] sort_by_name(select(s, DeviceFilter::OfType(t)))),
{
    let head = "Device Map: "@ + dec(s.len()) + " devices\n"@;
    let nh = "  Network devices:\n"@;
    let bh = "  Block devices:\n"@;
    let n = device_section(nh, sort_by_name(select(s, DeviceFilter::OfType(DeviceType::Network))));
    let b = device_section(bh, sort_by_name(select(s, DeviceFilter::OfType(DeviceType::Block))));
    let t = map_summary(s);
    assert(t == head + n + b);
    assert(t.take(head.len() as int) =~= head);
    lemma_device_group(s, DeviceType::Network, nh);
    lemma_device_group(s, DeviceType::Block, bh);
    lemma_sort_name_multiset(select(s, DeviceFilter::OfType(DeviceType::Network)));
    lemma_sort_name_multiset(select(s, DeviceFilter::OfType(DeviceType::Block)));
    law_devices_sorted(select(s, DeviceFilter::OfType(DeviceType::Network)));
    law_devices_sorted(select(s, DeviceFilter::OfType(DeviceType::Block)));
    assert forall|x: Seq<char>| has_infix(n, x) implies has_infix(t, x) by {
        lemma_infix_concat(Seq::empty(), n, x);
        assert(Seq::<char>::empty() + n =~= n);
        lemma_infix_concat(head, n, x);
        lemma_infix_concat(head + n, b, x);
    }
    assert forall|x: Seq<char>| has_infix(b, x) implies has_infix(t, x) by {
        lemma_infix_concat(head + n, b, x);
    }
    assert forall|k: int|
        0 <= k < s.len() && ((#[trigger] s[k]).device_type == DeviceType::Network || s[k].device_type
            == DeviceType::Block) implies has_infix(t, "    "@ + device_text(s[k]) + "\n"@) by {
        let x = "    "@ + device_text(s[k]) + "\n"@;
        if s[k].device_type == DeviceType::Network {
            assert(has_infix(n, x));
        } else {
            assert(has_infix(b, x));
        }
    }
    assert forall|t: DeviceType| #[trigger] sort_by_name(select(s, DeviceFilter::OfType(t))).to_multiset() == select(
        s,
        DeviceFilter::OfType(t),
    ).to_multiset() by {
        lemma_sort_name_multiset(select(s, DeviceFilter::OfType(t)));
    }
    assert forall|t: DeviceType| names_ordered(#[trigger] sort_by_name(select(s, DeviceFilter::OfType(t)))) by {
        law_devices_sorted(select(s, DeviceFilter::OfType(t)));
    }
}

/// A read after an add (`DeviceMap::add_device` puts the device in): the
/// device put in is found under its name, every other name finds what it
/// found before, and the number of devices grows by one exactly when the
/// name was new.
pub proof fn law_device_read_after_add(s: Seq<DeviceInfo>, d: DeviceInfo, name: Seq<char>)
    requires
        names_unique(s),
    ensures
        device_named(put_device(s, d), d.name) == Some(d),
        name != d.name ==> device_named(put_device(s, d), name) == device_named(s, name),
        put_device(s, d).len() == if has_device(s, d.name) {
            s.len()
        } else {
            s.len() + 1
        },
{
    let r = put_device(s, d);
    lemma_put_unique(s, d);
    if has_device(s, d.name) {
        let k = device_index(s, d.name);
        lemma_device_named(r, k);
    } else {
        lemma_device_named(r, s.len() as int);
    }
    if name != d.name {
        if has_device(s, name) {
            let i = device_index(s, name);
            lemma_device_named(s, i);
            assert(r[i] == s[i]);
            lemma_device_named(r, i);
        } else {
            assert forall|i: int| 0 <= i < r.len() implies (#[trigger] r[i]).name != name by {
                if i < s.len() {
                    assert(s[i].name != name);
                }
            }
        }
    }
}

/// An error wrapping an I/O error is a permission error exactly when the
/// I/O error's kind is `PermissionDenied`, whichever of the four wrapping
/// variants carries it; with the constructors' `source.kind ==
/// io_error_kind(e)`, that is the kind of the original `std::io::Error`.
pub proof fn law_wrapped_permission(source: IoError, size: usize)
    ensures
        (NumaError::TopologyError { source }).permission_problem() == (source.kind == IoErrorKind::PermissionDenied),
        (NumaError::AllocationFailed { size, source }).permission_problem() == (source.kind
            == IoErrorKind::PermissionDenied),
        (NumaError::PinningFailed { source }).permission_problem() == (source.kind == IoErrorKind::PermissionDenied),
        (NumaError::BindFailed { source }).permission_problem() == (source.kind == IoErrorKind::PermissionDenied),
{
}

// ---------------------------------------------------------------------------
// Memory policy modes
// ---------------------------------------------------------------------------

/// Each policy is passed to the kernel under its own mode number: preferred
/// 1, bind 2, interleave 3, local 4 (MPOL_PREFERRED, MPOL_BIND,
/// MPOL_INTERLEAVE, MPOL_LOCAL). In particular an interleaving region is
/// never bound, and two policies of different kinds never share a mode.
pub proof fn law_policy_modes(a: MemPolicy, b: MemPolicy, m: NodeMask, n: NodeId)
    ensures
        policy_code(MemPolicy::Preferred(n)) == 1,
        policy_code(MemPolicy::Bind(m)) == 2,
        policy_code(MemPolicy::Interleave(m)) == 3,
        policy_code(MemPolicy::Local) == 4,
        policy_code(a) == policy_code(b) <==> ((a is Bind && b is Bind) || (a is Preferred && b is Preferred)
            || (a is Interleave && b is Interleave) || (a is Local && b is Local)),
{
}

// ---------------------------------------------------------------------------
// NUMA balancing setting
// ---------------------------------------------------------------------------

/// Whether every character of `s` is whitespace.
pub open spec fn all_ws(s: Seq<char>) -> bool {
    forall|i: int| 0 <= i < s.len() ==> is_ws(#[trigger] s[i])
}

/// Trimming a word surrounded by whitespace gives the word, when the word
/// starts and ends with a non-whitespace character.
proof fn lemma_trim_padded(pre: Seq<char>, x: Seq<char>, post: Seq<char>)
    requires
        all_ws(pre),
        all_ws(post),
        x.len() > 0,
        !is_ws(x[0]),
        !is_ws(x.last()),
    ensures
        trim(pre + x + post) == x,
{
    lemma_trim_start_ws(pre, x + post);
    assert(pre + x + post =~= pre + (x + post));
    lemma_trim_end_ws(x, post);
    assert(trim_start(x + post) == x + post) by {
        assert((x + post)[0] == x[0]);
    }
}

proof fn lemma_trim_start_ws(pre: Seq<char>, rest: Seq<char>)
    requires
        all_ws(pre),
        rest.len() > 0,
        !is_ws(rest[0]),
    ensures
        trim_start(pre + rest) == trim_start(rest),
    decreases pre.len(),
{
    if pre.len() > 0 {
        assert((pre + rest)[0] == pre[0]);
        assert((pre + rest).drop_first() =~= pre.drop_first() + rest);
        assert forall|i: int| 0 <= i < pre.drop_first().len() implies is_ws(#[trigger] pre.drop_first()[i]) by {
            assert(pre.drop_first()[i] == pre[i + 1]);
        }
        lemma_trim_start_ws(pre.drop_first(), rest);
    } else {
        assert(pre + rest =~= rest);
    }
}

proof fn lemma_trim_end_ws(x: Seq<char>, post: Seq<char>)
    requires
        all_ws(post),
        x.len() > 0,
        !is_ws(x.last()),
    ensures
        trim_end(x + post) == x,
    decreases post.len(),
{
    if post.len() > 0 {
        assert((x + post).last() == post.last());
        assert(post[post.len() - 1] == post.last());
        assert((x + post).drop_last() =~= x + post.drop_last());
        assert forall|i: int| 0 <= i < post.drop_last().len() implies is_ws(#[trigger] post.drop_last()[i]) by {
            assert(post.drop_last()[i] == post[i]);
        }
        lemma_trim_end_ws(x, post.drop_last());
    } else {
        assert(x + post =~= x);
        assert(x.last() == x[x.len() - 1]);
    }
}

/// Kernel NUMA balancing counts as disabled when its setting file is
/// absent or reads "0" (with any surrounding whitespace), and as enabled
/// when the file reads "1" or cannot be read; whenever a readable file
/// counts as disabled, its trimmed text is "0".
pub proof fn law_numa_balancing(pre: Seq<char>, post: Seq<char>, content: Seq<char>)
    requires
        all_ws(pre),
        all_ws(post),
    ensures
        balancing_disabled(false, Some(content)),
        balancing_disabled(false, None),
        !balancing_disabled(true, None),
        balancing_disabled(true, Some(pre + "0"@ + post)),
        !balancing_disabled(true, Some(pre + "1"@ + post)),
        balancing_disabled(true, Some(content)) ==> trim(content) == "0"@,
{
    reveal_strlit("0");
    reveal_strlit("1");
    lemma_trim_padded(pre, "0"@, post);
    lemma_trim_padded(pre, "1"@, post);
    assert("0"@ =~= seq!['0']);
    assert("1"@ != seq!['0']) by {
        assert("1"@[0] != seq!['0'][0]);
    }
}

// ---------------------------------------------------------------------------
// Pinning advice
// ---------------------------------------------------------------------------

/// The advice to pin work to node `n`.
pub open spec fn pinning_text(n: NodeStats) -> Seq<char> {
    node_name(n.node_id) + " has more stolen tasks ("@ + dec(n.tasks_stolen as nat) + ") than local executions ("@
        + dec(n.local_executions as nat) + "). Consider pinning related work to this node."@
}

/// Whether a node's work is mostly stolen: over 100 tasks, local plus
/// stolen, and more stolen than local.
pub open spec fn mostly_stolen(n: NodeStats) -> bool {
    n.local_executions as int + n.tasks_stolen as int > 100 && n.tasks_stolen > n.local_executions
}

/// Whether `x` is the pinning advice of a node of `s` whose work is mostly
/// stolen.
pub open spec fn advice_of_stolen_node(s: Seq<NodeStats>, x: Seq<char>) -> bool {
    exists|k: int| 0 <= k < s.len() && mostly_stolen(#[trigger] s[k]) && x == pinning_text(s[k])
}

/// The number of nodes whose work is mostly stolen.
pub open spec fn mostly_stolen_count(s: Seq<NodeStats>) -> nat
    decreases s.len(),
{
    if s.len() == 0 {
        0
    } else {
        mostly_stolen_count(s.drop_last()) + if mostly_stolen(s.last()) {
            1nat
        } else {
            0nat
        }
    }
}

proof fn lemma_steal_advices_shape(s: Seq<NodeStats>)
    ensures
        steal_advices(s).len() == mostly_stolen_count(s),
        forall|j: int| 0 <= j < steal_advices(s).len() ==> advice_of_stolen_node(s, #[trigger] steal_advices(s)[j]),
        forall|k: int| 0 <= k < s.len() && mostly_stolen(#[trigger] s[k]) ==> steal_advices(s).contains(pinning_text(s[k])),
    decreases s.len(),
{
    if s.len() > 0 {
        let p = s.drop_last();
        lemma_steal_advices_shape(p);
        let a = steal_advice(s.last());
        let q = steal_advices(p);
        assert(steal_advices(s) == q + a);
        assert(s[s.len() - 1] == s.last());
        assert forall|j: int| 0 <= j < steal_advices(s).len() implies advice_of_stolen_node(s, #[trigger] steal_advices(s)[j]) by {
            if j < q.len() {
                assert(steal_advices(s)[j] == q[j]);
                assert(advice_of_stolen_node(p, q[j]));
                let k = choose|k: int| 0 <= k < p.len() && mostly_stolen(#[trigger] p[k]) && q[j] == pinning_text(p[k]);
                assert(s[k] == p[k]);
                assert(0 <= k < s.len() && mostly_stolen(s[k]) && steal_advices(s)[j] == pinning_text(s[k]));
            } else {
                assert(steal_advices(s)[j] == a[j - q.len()]);
                assert(a.len() > 0);
                assert(a =~= seq![pinning_text(s.last())]);
                assert(mostly_stolen(s[s.len() - 1]));
                assert(steal_advices(s)[j] == pinning_text(s[s.len() - 1]));
            }
        }
        assert forall|k: int| 0 <= k < s.len() && mostly_stolen(#[trigger] s[k]) implies steal_advices(s).contains(
            pinning_text(s[k]),
        ) by {
            if k < p.len() {
                assert(s[k] == p[k]);
                let j = choose|j: int| 0 <= j < q.len() && q[j] == pinning_text(p[k]);
                assert(steal_advices(s)[j] == q[j]);
            } else {
                assert(a =~= seq![pinning_text(s.last())]);
                assert(steal_advices(s)[q.len() as int] == a[0]);
            }
        }
    }
}

/// A report advises pinning work to a node exactly for the nodes whose work
/// is mostly stolen (over 100 tasks, local plus stolen, and more stolen than
/// local): each such node gets its advice, the number of pinning advices is
/// the number of such nodes, and every recommendation that names a node is
/// the advice of such a node. A node with no more stolen tasks than local
/// executions never gets one.
pub proof fn law_pinning_advice(s: Seq<NodeStats>, health: LocalityHealth)
    ensures
        forall|k: int|
            0 <= k < s.len() && mostly_stolen(#[trigger] s[k]) ==> recommendations_for(s, health).contains(
                pinning_text(s[k]),
            ),
        forall|j: int|
            0 <= j < recommendations_for(s, health).len() && (#[trigger] recommendations_for(s, health)[j]).len() > 0
                && recommendations_for(s, health)[j][0] == 'n' ==> advice_of_stolen_node(s, recommendations_for(s, health)[j]),
        steal_advices(s).len() == mostly_stolen_count(s),
{
    lemma_steal_advices_shape(s);
    lemma_queue_advice_other(s);
    let h = health_advice(health);
    let q = queue_advice(s);
    let st = steal_advices(s);
    let none = "No tasks processed yet. Collect more data before drawing conclusions."@;
    let z: Seq<Seq<char>> = if sum_local(s) + sum_steals(s) == 0 {
        seq![none]
    } else {
        Seq::empty()
    };
    let recs = recommendations_for(s, health);
    assert(recs == h + q + st + z);
    reveal_strlit("Consider using StealPolicy::LocalOnly to prevent cross-node stealing");
    reveal_strlit("Consider using StealPolicy::LocalThenSocketThenRemote for better locality");
    reveal_strlit("Review work submission patterns - tasks should be submitted to their data's home node");
    reveal_strlit("No tasks processed yet. Collect more data before drawing conclusions.");
    reveal_strlit("Some nodes have empty queues while others are busy. Distribute work more evenly.");
    reveal_strlit("Queue imbalance detected: min=");
    assert forall|k: int| 0 <= k < s.len() && mostly_stolen(#[trigger] s[k]) implies recs.contains(pinning_text(s[k])) by {
        let j = choose|j: int| 0 <= j < st.len() && st[j] == pinning_text(s[k]);
        assert(recs[h.len() + q.len() + j] == st[j]);
    }
    assert forall|j: int| 0 <= j < recs.len() && (#[trigger] recs[j]).len() > 0 && recs[j][0] == 'n' implies advice_of_stolen_node(s, recs[j]) by {
        if j < h.len() {
            assert(recs[j] == h[j]);
        } else if j < h.len() + q.len() {
            assert(recs[j] == q[j - h.len()]);
            assert(other_advice(q[j - h.len()]));
        } else if j < h.len() + q.len() + st.len() {
            assert(recs[j] == st[j - h.len() - q.len()]);
        } else {
            assert(recs[j] == z[j - h.len() - q.len() - st.len()]);
        }
    }
}

// ---------------------------------------------------------------------------
// Pending tasks
// ---------------------------------------------------------------------------

/// Replacing one queue changes the pending count by the change in that
/// queue's length.
proof fn lemma_pending_update<T>(qs: Seq<Seq<T>>, i: int, q: Seq<T>)
    requires
        0 <= i < qs.len(),
    ensures
        pending_of(qs.update(i, q)) + qs[i].len() == pending_of(qs) + q.len(),
    decreases qs.len(),
{
    if i < qs.len() - 1 {
        lemma_pending_update(qs.drop_last(), i, q);
        assert(qs.update(i, q).drop_last() =~= qs.drop_last().update(i, q));
    } else {
        assert(qs.update(i, q).drop_last() =~= qs.drop_last());
    }
}

/// The pending count is the number of queued tasks: no queues hold none,
/// one queue holds its length, and pushing a task onto any queue raises the
/// count by exactly one, while popping or stealing one from a non-empty
/// queue lowers it by exactly one.
pub proof fn law_pending_tasks<T>(qs: Seq<Seq<T>>, i: int, t: T)
    requires
        0 <= i < qs.len(),
    ensures
        pending_of(Seq::<Seq<T>>::empty()) == 0,
        pending_of(seq![qs[i]]) == qs[i].len(),
        pending_of(qs.update(i, qs[i].push(t))) == pending_of(qs) + 1,
        qs[i].len() > 0 ==> pending_of(qs.update(i, qs[i].drop_last())) + 1 == pending_of(qs),
        qs[i].len() > 0 ==> pending_of(qs.update(i, qs[i].drop_first())) + 1 == pending_of(qs),
{
    assert(seq![qs[i]].drop_last() =~= Seq::<Seq<T>>::empty());
    lemma_pending_update(qs, i, qs[i].push(t));
    if qs[i].len() > 0 {
        lemma_pending_update(qs, i, qs[i].drop_last());
        lemma_pending_update(qs, i, qs[i].drop_first());
    }
}

} // verus!
