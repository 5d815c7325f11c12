//! The Linux CPU list format ("0-3,8-11"): parsing into a `CpuSet` and
//! writing a `CpuSet` back as ranges.
use vstd::prelude::*;

use crate::text::{
    dec, first_index, find_char, parse_unsigned, parse_unsigned_range, push_char,
    push_decimal, push_str, split, string_of, chars_of, trim, trim_bounds,
};
use crate::types::{ascending, CpuSet, MAX_CPUS};

verus! {

/// Error parsing a CPU set string.
#[derive(Debug, Clone, PartialEq, Eq)]
pub enum ParseCpuSetError {
    /// Invalid number in CPU list.
    InvalidNumber(String),
    /// CPU ID exceeds maximum.
    CpuOutOfRange(u32),
    /// Invalid range (start > end).
    InvalidRange(u32, u32),
}

/// What a CPU list parse error reports.
pub enum CpuListFault {
    InvalidNumber(Seq<char>),
    CpuOutOfRange(u32),
    InvalidRange(u32, u32),
}

impl View for ParseCpuSetError {
    type V = CpuListFault;

    open spec fn view(&self) -> CpuListFault {
        match self {
            ParseCpuSetError::InvalidNumber(s) => CpuListFault::InvalidNumber(s@),
            ParseCpuSetError::CpuOutOfRange(c) => CpuListFault::CpuOutOfRange(*c),
            ParseCpuSetError::InvalidRange(a, b) => CpuListFault::InvalidRange(*a, *b),
        }
    }
}

/// The message of a CPU list parse error.
pub open spec fn fault_text(f: CpuListFault) -> Seq<char> {
    match f {
        CpuListFault::InvalidNumber(s) => "invalid CPU number: "@ + s,
        CpuListFault::CpuOutOfRange(c) => "CPU "@ + dec(c as nat) + " exceeds maximum 1024"@,
        CpuListFault::InvalidRange(a, b) => "invalid range: "@ + dec(a as nat) + "-"@ + dec(b as nat),
    }
}

impl ParseCpuSetError {
    /// The error message.
    pub fn to_string(&self) -> (r: String)
        ensures
            r@ == fault_text(self@),
    {
        let mut s = String::new();
        match self {
            ParseCpuSetError::InvalidNumber(t) => {
                push_str(&mut s, "invalid CPU number: ");
                push_str(&mut s, t.as_str());
            },
            ParseCpuSetError::CpuOutOfRange(c) => {
                push_str(&mut s, "CPU ");
                push_decimal(&mut s, *c as u64);
                push_str(&mut s, " exceeds maximum 1024");
            },
            ParseCpuSetError::InvalidRange(a, b) => {
                push_str(&mut s, "invalid range: ");
                push_decimal(&mut s, *a as u64);
                push_str(&mut s, "-");
                push_decimal(&mut s, *b as u64);
            },
        }
        assert(s@ =~= fault_text(self@));
        s
    }
}

/// The value of a decimal CPU number text (`u32::from_str`).
pub open spec fn cpu_number(s: Seq<char>) -> Option<u32> {
    match parse_unsigned(s, 10, 0xffff_ffff) {
        Some(v) => Some(v as u32),
        None => None,
    }
}

/// The CPUs from `a` to `b`, both included.
pub open spec fn cpu_range(a: u32, b: u32) -> Set<u32> {
    Set::new(|c: u32| a <= c && c <= b)
}

/// The CPUs named by one trimmed, non-empty item of a CPU list: a number
/// or a range `start-end`.
pub open spec fn item_cpus(p: Seq<char>) -> Result<Set<u32>, CpuListFault> {
    let k = first_index(p, '-');
    if k >= 0 {
        let start = p.take(k);
        let end = p.skip(k + 1);
        match cpu_number(trim(start)) {
            None => Err(CpuListFault::InvalidNumber(start)),
            Some(a) => match cpu_number(trim(end)) {
                None => Err(CpuListFault::InvalidNumber(end)),
                Some(b) => if a > b {
                    Err(CpuListFault::InvalidRange(a, b))
                } else if b >= 1024 {
                    Err(CpuListFault::CpuOutOfRange(b))
                } else {
                    Ok(cpu_range(a, b))
                },
            },
        }
    } else {
        match cpu_number(p) {
            None => Err(CpuListFault::InvalidNumber(p)),
            Some(c) => if c >= 1024 {
                Err(CpuListFault::CpuOutOfRange(c))
            } else {
                Ok(set![c])
            },
        }
    }
}

/// The CPUs named by the comma-separated items `parts`, read in order:
/// blank items are skipped and the first faulty item decides the error.
pub open spec fn items_cpus(parts: Seq<Seq<char>>) -> Result<Set<u32>, CpuListFault>
    decreases parts.len(),
{
    if parts.len() == 0 {
        Ok(Set::empty())
    } else {
        match items_cpus(parts.drop_last()) {
            Err(e) => Err(e),
            Ok(acc) => {
                let p = trim(parts.last());
                if p.len() == 0 {
                    Ok(acc)
                } else {
                    match item_cpus(p) {
                        Err(e) => Err(e),
                        Ok(s) => Ok(acc.union(s)),
                    }
                }
            },
        }
    }
}

/// The meaning of a CPU list text such as "0-3,8-11" or "1,3,5".
pub open spec fn parse_cpu_list(s: Seq<char>) -> Result<Set<u32>, CpuListFault> {
    if trim(s).len() == 0 {
        Ok(Set::empty())
    } else {
        items_cpus(split(s, ','))
    }
}

/// Adds the CPUs `a..=b` to `set`.
fn add_range(set: &mut CpuSet, a: u32, b: u32)
    requires
        a <= b < MAX_CPUS,
    ensures
        final(set)@ == old(set)@.union(cpu_range(a, b)),
{
    let mut cpu = a;
    while cpu <= b
        invariant
            a <= cpu <= b + 1,
            b < MAX_CPUS,
            set@ == old(set)@.union(Set::new(|c: u32| a <= c && c < cpu)),
        decreases b + 1 - cpu,
    {
        set.add(cpu);
        assert(set@ =~= old(set)@.union(Set::new(|c: u32| a <= c && c < cpu + 1)));
        cpu = cpu + 1;
    }
    assert(set@ =~= old(set)@.union(cpu_range(a, b)));
}

/// Reads the trimmed text `v[from..to]` as a CPU number.
fn read_number(v: &Vec<char>, from: usize, to: usize) -> (r: Option<u32>)
    requires
        from <= to <= v@.len(),
    ensures
        r == cpu_number(trim(v@.subrange(from as int, to as int))),
{
    let (a, b) = trim_bounds(v, from, to);
    match parse_unsigned_range(v, a, b, 10, 0xffff_ffff) {
        Some(x) => Some(x as u32),
        None => None,
    }
}

/// Adds to `set` the CPUs of the item `v[from..to]`.
fn add_item(v: &Vec<char>, from: usize, to: usize, set: &mut CpuSet) -> (r: Result<(), ParseCpuSetError>)
    requires
        from <= to <= v@.len(),
    ensures
        ({
            let p = trim(v@.subrange(from as int, to as int));
            if p.len() == 0 {
                r is Ok && final(set)@ == old(set)@
            } else {
                match item_cpus(p) {
                    Ok(s) => r is Ok && final(set)@ == old(set)@.union(s),
                    Err(e) => r matches Err(x) && x@ == e,
                }
            }
        }),
{
    let (a, b) = trim_bounds(v, from, to);
    let ghost p = v@.subrange(a as int, b as int);
    if a == b {
        return Ok(());
    }
    match find_char(v, a, b, '-') {
        Some(k) => {
            let dash = a + k;
            assert(p.take(k as int) =~= v@.subrange(a as int, dash as int));
            assert(p.skip(k + 1) =~= v@.subrange(dash + 1, b as int));
            match read_number(v, a, dash) {
                None => Err(ParseCpuSetError::InvalidNumber(string_of(v, a, dash))),
                Some(start) => match read_number(v, dash + 1, b) {
                    None => Err(ParseCpuSetError::InvalidNumber(string_of(v, dash + 1, b))),
                    Some(end) => {
                        if start > end {
                            Err(ParseCpuSetError::InvalidRange(start, end))
                        } else if end >= MAX_CPUS {
                            Err(ParseCpuSetError::CpuOutOfRange(end))
                        } else {
                            add_range(set, start, end);
                            Ok(())
                        }
                    },
                },
            }
        },
        None => {
            match parse_unsigned_range(v, a, b, 10, 0xffff_ffff) {
                None => Err(ParseCpuSetError::InvalidNumber(string_of(v, a, b))),
                Some(x) => {
                    let cpu = x as u32;
                    if cpu >= MAX_CPUS {
                        Err(ParseCpuSetError::CpuOutOfRange(cpu))
                    } else {
                        set.add(cpu);
                        assert(final(set)@ =~= old(set)@.union(set![cpu]));
                        Ok(())
                    }
                },
            }
        },
    }
}

impl CpuSet {
    /// Parse a CPU list string like "0-3,8-11" or "0,1,2,3".
    ///
    /// Items are separated by commas and may be surrounded by whitespace;
    /// blank items are skipped. A blank string gives the empty set.
    pub fn parse(s: &str) -> (r: Result<CpuSet, ParseCpuSetError>)
        ensures
            match r {
                Ok(set) => parse_cpu_list(s@) == Ok::<Set<u32>, CpuListFault>(set@),
                Err(e) => parse_cpu_list(s@) matches Err(f) && e@ == f,
            },
    {
        let v = chars_of(s);
        let mut set = CpuSet::new();
        let (ta, tb) = trim_bounds(&v, 0, v.len());
        assert(v@.subrange(0, v@.len() as int) =~= s@);
        if ta == tb {
            return Ok(set);
        }
        let ghost mut done: Seq<Seq<char>> = Seq::empty();
        let mut start: usize = 0;
        let mut i: usize = 0;
        assert(v@.take(0) =~= Seq::<char>::empty());
        assert(split(v@.take(0), ',') =~= seq![Seq::<char>::empty()]);
        while i < v.len()
            invariant
                v@ == s@,
                trim(s@).len() > 0,
                start <= i <= v@.len(),
                split(v@.take(i as int), ',') == done.push(v@.subrange(start as int, i as int)),
                items_cpus(done) == Ok::<Set<u32>, CpuListFault>(set@),
            decreases v@.len() - i,
        {
            assert(v@.take(i + 1).drop_last() =~= v@.take(i as int));
            assert(v@.take(i + 1).last() == v@[i as int]);
            if v[i] == ',' {
                let ghost part = v@.subrange(start as int, i as int);
                match add_item(&v, start, i, &mut set) {
                    Err(e) => {
                        proof {
                            assert(v@.take(i as int + 1).take(i as int) =~= v@.take(i as int));
                            assert(done.push(part).drop_last() =~= done);
                            lemma_items_prefix_error(v@, i as int + 1, done.push(part), e@);
                        }
                        return Err(e);
                    },
                    Ok(()) => {},
                }
                proof {
                    assert(done.push(part).drop_last() =~= done);
                    done = done.push(part);
                    assert(v@.subrange(i + 1, i + 1) =~= Seq::<char>::empty());
                }
                start = i + 1;
            } else {
                proof {
                    assert(v@.subrange(start as int, i + 1) =~= v@.subrange(start as int, i as int).push(v@[i as int]));
                    assert(done.push(v@.subrange(start as int, i as int)).update(done.len() as int, v@.subrange(start as int, i + 1)) =~= done.push(v@.subrange(start as int, i + 1)));
                }
            }
            i = i + 1;
        }
        let ghost part = v@.subrange(start as int, v@.len() as int);
        assert(v@.take(v@.len() as int) =~= v@);
        let n = v.len();
        match add_item(&v, start, n, &mut set) {
            Err(e) => {
                assert(done.push(part).drop_last() =~= done);
                Err(e)
            },
            Ok(()) => {
                assert(done.push(part).drop_last() =~= done);
                Ok(set)
            },
        }
    }
}

/// If the items before a separator at `n - 1` end in a fault, so does the
/// whole list.
proof fn lemma_items_prefix_error(v: Seq<char>, n: int, parts: Seq<Seq<char>>, e: CpuListFault)
    requires
        0 < n <= v.len(),
        v[n - 1] == ',',
        split(v.take(n - 1), ',') == parts,
        items_cpus(parts) == Err::<Set<u32>, CpuListFault>(e),
    ensures
        items_cpus(split(v, ',')) == Err::<Set<u32>, CpuListFault>(e),
{
    let x = v.take(n - 1);
    let y = v.skip(n);
    assert(v =~= x + seq![','] + y);
    lemma_split_concat(x, y, ',');
    lemma_items_error_extends(parts, split(y, ','), e);
}

/// Splitting `x`, a separator, then `y` gives the items of `x` then those of `y`.
pub proof fn lemma_split_concat(x: Seq<char>, y: Seq<char>, sep: char)
    ensures
        split(x + seq![sep] + y, sep) == split(x, sep) + split(y, sep),
    decreases y.len(),
{
    let xs = x + seq![sep];
    if y.len() == 0 {
        assert(xs + y =~= xs);
        assert(xs.drop_last() =~= x);
        assert(split(x, sep).push(Seq::<char>::empty()) =~= split(x, sep) + split(y, sep));
    } else {
        lemma_split_concat(x, y.drop_last(), sep);
        assert((xs + y).drop_last() =~= xs + y.drop_last());
        assert((xs + y).last() == y.last());
        let a = split(x, sep);
        let b = split(y.drop_last(), sep);
        crate::text::lemma_split_nonempty(y.drop_last(), sep);
        if y.last() == sep {
            assert((a + b).push(Seq::<char>::empty()) =~= a + b.push(Seq::<char>::empty()));
        } else {
            assert((a + b).update((a + b).len() - 1, (a + b).last().push(y.last())) =~= a + b.update(
                b.len() - 1,
                b.last().push(y.last()),
            ));
        }
    }
}

/// A fault among the first items stays the fault of a longer list.
pub proof fn lemma_items_error_extends(p: Seq<Seq<char>>, q: Seq<Seq<char>>, e: CpuListFault)
    requires
        items_cpus(p) == Err::<Set<u32>, CpuListFault>(e),
    ensures
        items_cpus(p + q) == Err::<Set<u32>, CpuListFault>(e),
    decreases q.len(),
{
    if q.len() == 0 {
        assert(p + q =~= p);
    } else {
        lemma_items_error_extends(p, q.drop_last(), e);
        assert((p + q).drop_last() =~= p + q.drop_last());
    }
}

/// The maximal runs of consecutive values in `c`, as `(first, last)` pairs.
pub open spec fn runs(c: Seq<u32>) -> Seq<(u32, u32)>
    decreases c.len(),
{
    if c.len() == 0 {
        Seq::empty()
    } else {
        let r = runs(c.drop_last());
        let x = c.last();
        if r.len() > 0 && r.last().1 as int + 1 == x as int {
            r.update(r.len() - 1, (r.last().0, x))
        } else {
            r.push((x, x))
        }
    }
}

/// A run written as "a" or "a-b".
pub open spec fn run_text(r: (u32, u32)) -> Seq<char> {
    if r.0 == r.1 {
        dec(r.0 as nat)
    } else {
        dec(r.0 as nat) + seq!['-'] + dec(r.1 as nat)
    }
}

/// The runs written one after the other, separated by `sep`.
pub open spec fn join_runs(rs: Seq<(u32, u32)>, sep: Seq<char>) -> Seq<char>
    decreases rs.len(),
{
    if rs.len() == 0 {
        Seq::empty()
    } else if rs.len() == 1 {
        run_text(rs[0])
    } else {
        join_runs(rs.drop_last(), sep) + sep + run_text(rs.last())
    }
}

/// The values of `c` written as ranges separated by `sep` ("0-3,8-11").
pub open spec fn range_list(c: Seq<u32>, sep: Seq<char>) -> Seq<char> {
    join_runs(runs(c), sep)
}

/// Appends the text of one run.
fn push_run(out: &mut String, a: u32, b: u32)
    ensures
        final(out)@ == old(out)@ + run_text((a, b)),
{
    push_decimal(out, a as u64);
    if a != b {
        push_char(out, '-');
        push_decimal(out, b as u64);
    }
    assert(final(out)@ =~= old(out)@ + run_text((a, b)));
}

/// Writes the values of `c` as ranges of consecutive values separated by `sep`.
pub fn format_ranges(c: &Vec<u32>, sep: &str) -> (r: String)
    ensures
        r@ == range_list(c@, sep@),
{
    let mut out = String::new();
    if c.len() == 0 {
        assert(out@ =~= range_list(c@, sep@));
        return out;
    }
    let mut start = c[0];
    let mut end = c[0];
    let ghost mut done: Seq<(u32, u32)> = Seq::empty();
    let mut emitted = false;
    assert(c@.take(1).drop_last() =~= Seq::<u32>::empty());
    assert(c@.take(1).last() == c@[0]);
    assert(runs(Seq::<u32>::empty()) =~= Seq::<(u32, u32)>::empty());
    assert(runs(c@.take(1)) =~= Seq::<(u32, u32)>::empty().push((start, end)));
    let mut i: usize = 1;
    while i < c.len()
        invariant
            1 <= i <= c@.len(),
            runs(c@.take(i as int)) == done.push((start, end)),
            out@ == join_runs(done, sep@),
            emitted == (done.len() > 0),
        decreases c@.len() - i,
    {
        let x = c[i];
        assert(c@.take(i + 1).drop_last() =~= c@.take(i as int));
        assert(done.push((start, end)).last() == (start, end));
        if (x as u64) == (end as u64) + 1 {
            assert(done.push((start, end)).update(done.len() as int, (start, x)) =~= done.push((start, x)));
            end = x;
        } else {
            let ghost nd = done.push((start, end));
            if emitted {
                push_str(&mut out, sep);
            }
            push_run(&mut out, start, end);
            emitted = true;
            proof {
                assert(nd.drop_last() =~= done);
                assert(out@ =~= join_runs(nd, sep@));
                done = nd;
            }
            start = x;
            end = x;
        }
        i = i + 1;
    }
    let ghost nd = done.push((start, end));
    if emitted {
        push_str(&mut out, sep);
    }
    push_run(&mut out, start, end);
    assert(nd.drop_last() =~= done);
    assert(c@.take(c@.len() as int) =~= c@);
    assert(out@ =~= join_runs(nd, sep@));
    out
}

/// The debug text of a CPU set: "CpuSet(" + its CPU list + ")".
pub open spec fn cpuset_debug_text(cpus: Set<u32>) -> Seq<char> {
    "CpuSet("@ + range_list(ascending(cpus, 1024), ","@) + ")"@
}

impl CpuSet {
    /// The set written in CPU list format: ascending ranges separated by
    /// commas ("0-3,8-11"); the empty set gives an empty string.
    pub fn to_string(&self) -> (r: String)
        ensures
            r@ == range_list(ascending(self@, 1024), ","@),
    {
        let cpus = self.iter();
        format_ranges(&cpus, ",")
    }

    /// The debug text of the set: "CpuSet(" + the CPU list + ")".
    pub fn debug_string(&self) -> (r: String)
        ensures
            r@ == cpuset_debug_text(self@),
    {
        let mut s = String::new();
        push_str(&mut s, "CpuSet(");
        let body = self.to_string();
        push_str(&mut s, body.as_str());
        push_str(&mut s, ")");
        assert(s@ =~= "CpuSet("@ + range_list(ascending(self@, 1024), ","@) + ")"@);
        s
    }
}

} // verus!
