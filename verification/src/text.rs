//! Character-level text helpers: whitespace trimming, splitting, integer
//! parsing and decimal formatting, all specified over `Seq<char>`.
use vstd::prelude::*;

verus! {

// ---------------------------------------------------------------------------
// Strings and character vectors
// ---------------------------------------------------------------------------

/// Appends one character to a string (`String::push`): the contract claims
/// the string afterwards is the one before with `c` added at the end.
#[verifier::external_body]
pub(crate) fn push_char(s: &mut String, c: char)
    ensures
        final(s)@ == old(s)@.push(c),
{
    s.push(c);
}

/// The characters of a string slice.
pub fn chars_of(s: &str) -> (r: Vec<char>)
    ensures
        r@ == s@,
{
    let n = s.unicode_len();
    let mut out: Vec<char> = Vec::new();
    let mut i: usize = 0;
    while i < n
        invariant
            n == s@.len(),
            i <= n,
            out@ == s@.take(i as int),
        decreases n - i,
    {
        let c = s.get_char(i);
        out.push(c);
        assert(s@.take(i + 1) =~= s@.take(i as int).push(c));
        i = i + 1;
    }
    assert(s@.take(n as int) =~= s@);
    out
}

/// Appends the characters `v[from..to]` to a string.
pub fn push_chars(s: &mut String, v: &Vec<char>, from: usize, to: usize)
    requires
        from <= to <= v@.len(),
    ensures
        final(s)@ == old(s)@ + v@.subrange(from as int, to as int),
{
    let mut i = from;
    while i < to
        invariant
            from <= i <= to <= v@.len(),
            s@ == old(s)@ + v@.subrange(from as int, i as int),
        decreases to - i,
    {
        push_char(s, v[i]);
        assert(v@.subrange(from as int, i + 1) =~= v@.subrange(from as int, i as int).push(v@[i as int]));
        i = i + 1;
    }
}

/// A string holding the characters `v[from..to]`.
pub fn string_of(v: &Vec<char>, from: usize, to: usize) -> (r: String)
    requires
        from <= to <= v@.len(),
    ensures
        r@ == v@.subrange(from as int, to as int),
{
    let mut s = String::new();
    push_chars(&mut s, v, from, to);
    assert(s@ =~= v@.subrange(from as int, to as int));
    s
}

/// Appends a string slice to a string.
pub fn push_str(s: &mut String, t: &str)
    ensures
        final(s)@ == old(s)@ + t@,
{
    let v = chars_of(t);
    push_chars(s, &v, 0, v.len());
    assert(v@.subrange(0, v@.len() as int) =~= t@);
}

/// A string with the characters of `t`.
pub fn owned(t: &str) -> (r: String)
    ensures
        r@ == t@,
{
    let mut s = String::new();
    push_str(&mut s, t);
    assert(s@ =~= t@);
    s
}

// ---------------------------------------------------------------------------
// Whitespace and trimming
// ---------------------------------------------------------------------------

/// Unicode `White_Space` (what `char::is_whitespace` accepts).
pub open spec fn is_ws(c: char) -> bool {
    ||| ('\u{9}' <= c && c <= '\u{d}')
    ||| c == ' '
    ||| c == '\u{85}'
    ||| c == '\u{a0}'
    ||| c == '\u{1680}'
    ||| ('\u{2000}' <= c && c <= '\u{200a}')
    ||| c == '\u{2028}'
    ||| c == '\u{2029}'
    ||| c == '\u{202f}'
    ||| c == '\u{205f}'
    ||| c == '\u{3000}'
}

/// Whether `c` is Unicode whitespace.
pub fn is_whitespace(c: char) -> (r: bool)
    ensures
        r == is_ws(c),
{
    ('\u{9}' <= c && c <= '\u{d}') || c == ' ' || c == '\u{85}' || c == '\u{a0}' || c == '\u{1680}'
        || ('\u{2000}' <= c && c <= '\u{200a}') || c == '\u{2028}' || c == '\u{2029}' || c
        == '\u{202f}' || c == '\u{205f}' || c == '\u{3000}'
}

/// `s` without its leading whitespace.
pub open spec fn trim_start(s: Seq<char>) -> Seq<char>
    decreases s.len(),
{
    if s.len() > 0 && is_ws(s[0]) {
        trim_start(s.drop_first())
    } else {
        s
    }
}

/// `s` without its trailing whitespace.
pub open spec fn trim_end(s: Seq<char>) -> Seq<char>
    decreases s.len(),
{
    if s.len() > 0 && is_ws(s.last()) {
        trim_end(s.drop_last())
    } else {
        s
    }
}

/// `s` without leading and trailing whitespace (`str::trim`).
pub open spec fn trim(s: Seq<char>) -> Seq<char> {
    trim_end(trim_start(s))
}

/// The bounds `(a, b)` of `v[from..to]` once trimmed.
pub fn trim_bounds(v: &Vec<char>, from: usize, to: usize) -> (r: (usize, usize))
    requires
        from <= to <= v@.len(),
    ensures
        from <= r.0 <= r.1 <= to,
        v@.subrange(r.0 as int, r.1 as int) == trim(v@.subrange(from as int, to as int)),
{
    let ghost whole = v@.subrange(from as int, to as int);
    let mut a = from;
    while a < to && is_whitespace(v[a])
        invariant
            from <= a <= to <= v@.len(),
            trim_start(whole) == trim_start(v@.subrange(a as int, to as int)),
        decreases to - a,
    {
        assert(v@.subrange(a as int, to as int).drop_first() =~= v@.subrange(a + 1, to as int));
        a = a + 1;
    }
    assert(trim_start(whole) == v@.subrange(a as int, to as int));
    let mut b = to;
    while b > a && is_whitespace(v[b - 1])
        invariant
            from <= a <= b <= to <= v@.len(),
            trim(whole) == trim_end(v@.subrange(a as int, b as int)),
        decreases b - a,
    {
        assert(v@.subrange(a as int, b as int).drop_last() =~= v@.subrange(a as int, b - 1));
        b = b - 1;
    }
    (a, b)
}

/// The trimmed characters of a string slice.
pub fn trimmed_chars(s: &str) -> (r: Vec<char>)
    ensures
        r@ == trim(s@),
{
    let v = chars_of(s);
    let (a, b) = trim_bounds(&v, 0, v.len());
    assert(v@.subrange(0, v@.len() as int) =~= s@);
    let mut out: Vec<char> = Vec::new();
    let mut i = a;
    while i < b
        invariant
            a <= i <= b <= v@.len(),
            out@ == v@.subrange(a as int, i as int),
        decreases b - i,
    {
        out.push(v[i]);
        assert(v@.subrange(a as int, i + 1) =~= v@.subrange(a as int, i as int).push(v@[i as int]));
        i = i + 1;
    }
    out
}

// ---------------------------------------------------------------------------
// Splitting
// ---------------------------------------------------------------------------

/// The pieces of `s` between occurrences of `sep` (`str::split`).
pub open spec fn split(s: Seq<char>, sep: char) -> Seq<Seq<char>>
    decreases s.len(),
{
    if s.len() == 0 {
        seq![Seq::<char>::empty()]
    } else {
        let prev = split(s.drop_last(), sep);
        if s.last() == sep {
            prev.push(Seq::<char>::empty())
        } else {
            prev.update(prev.len() - 1, prev.last().push(s.last()))
        }
    }
}

pub proof fn lemma_split_nonempty(s: Seq<char>, sep: char)
    ensures
        split(s, sep).len() >= 1,
    decreases s.len(),
{
    if s.len() > 0 {
        lemma_split_nonempty(s.drop_last(), sep);
    }
}

/// Index of the first occurrence of `c` in `s`, or -1.
pub open spec fn first_index(s: Seq<char>, c: char) -> int
    decreases s.len(),
{
    if s.len() == 0 {
        -1
    } else if s[0] == c {
        0
    } else {
        let r = first_index(s.drop_first(), c);
        if r < 0 {
            -1
        } else {
            r + 1
        }
    }
}

/// Position in `v[from..to]` of the first `c`, relative to `from`.
pub fn find_char(v: &Vec<char>, from: usize, to: usize, c: char) -> (r: Option<usize>)
    requires
        from <= to <= v@.len(),
    ensures
        match r {
            Some(k) => k == first_index(v@.subrange(from as int, to as int), c) && from + k < to,
            None => first_index(v@.subrange(from as int, to as int), c) == -1,
        },
{
    let mut i = to;
    let mut found: Option<usize> = None;
    // Scan from the back so that each step extends the suffix by one character.
    while i > from
        invariant
            from <= i <= to <= v@.len(),
            match found {
                Some(k) => k == first_index(v@.subrange(i as int, to as int), c) + (i - from)
                    && i - from + first_index(v@.subrange(i as int, to as int), c) < to - from
                    && first_index(v@.subrange(i as int, to as int), c) >= 0,
                None => first_index(v@.subrange(i as int, to as int), c) == -1,
            },
        decreases i - from,
    {
        let j = i - 1;
        assert(v@.subrange(j as int, to as int).drop_first() =~= v@.subrange(i as int, to as int));
        if v[j] == c {
            found = Some(j - from);
        }
        i = j;
    }
    found
}

/// The pieces of `v[from..to]` between occurrences of `sep`, as bounds.
pub fn split_bounds(v: &Vec<char>, from: usize, to: usize, sep: char) -> (r: Vec<(usize, usize)>)
    requires
        from <= to <= v@.len(),
    ensures
        r@.len() == split(v@.subrange(from as int, to as int), sep).len(),
        forall|k: int|
            #![trigger r@[k]]
            0 <= k < r@.len() ==> r@[k].0 <= r@[k].1 <= to && from <= r@[k].0 && v@.subrange(
                r@[k].0 as int,
                r@[k].1 as int,
            ) == split(v@.subrange(from as int, to as int), sep)[k],
{
    let mut out: Vec<(usize, usize)> = Vec::new();
    let mut start = from;
    let mut i = from;
    assert(v@.subrange(from as int, from as int) =~= Seq::<char>::empty());
    assert(split(v@.subrange(from as int, from as int), sep) =~= seq![Seq::<char>::empty()]);
    while i < to
        invariant
            from <= start <= i <= to <= v@.len(),
            out@.len() + 1 == split(v@.subrange(from as int, i as int), sep).len(),
            split(v@.subrange(from as int, i as int), sep).last() == v@.subrange(start as int, i as int),
            forall|k: int|
                #![trigger out@[k]]
                0 <= k < out@.len() ==> out@[k].0 <= out@[k].1 <= to && from <= out@[k].0 && v@.subrange(
                    out@[k].0 as int,
                    out@[k].1 as int,
                ) == split(v@.subrange(from as int, i as int), sep)[k],
        decreases to - i,
    {
        let ghost prev = split(v@.subrange(from as int, i as int), sep);
        assert(v@.subrange(from as int, i + 1).drop_last() =~= v@.subrange(from as int, i as int));
        assert(v@.subrange(from as int, i + 1).last() == v@[i as int]);
        let ghost old_out = out@;
        if v[i] == sep {
            out.push((start, i));
            start = i + 1;
            assert(v@.subrange(start as int, i + 1) =~= Seq::<char>::empty());
            proof {
                let next = split(v@.subrange(from as int, i + 1), sep);
                assert(next == prev.push(Seq::<char>::empty()));
                assert forall|k: int| 0 <= k < out@.len() implies out@[k].0 <= out@[k].1 <= to && from <= out@[k].0
                    && v@.subrange(out@[k].0 as int, out@[k].1 as int) == next[k] by {
                    if k < old_out.len() {
                        assert(out@[k] == old_out[k]);
                        assert(next[k] == prev[k]);
                    } else {
                        assert(next[k] == prev[k]);
                    }
                }
            }
        } else {
            assert(v@.subrange(start as int, i + 1) =~= v@.subrange(start as int, i as int).push(v@[i as int]));
            proof {
                let next = split(v@.subrange(from as int, i + 1), sep);
                assert(next == prev.update(prev.len() - 1, prev.last().push(v@[i as int])));
                assert forall|k: int| 0 <= k < out@.len() implies out@[k].0 <= out@[k].1 <= to && from <= out@[k].0
                    && v@.subrange(out@[k].0 as int, out@[k].1 as int) == next[k] by {
                    assert(next[k] == prev[k]);
                }
            }
        }
        i = i + 1;
    }
    out.push((start, to));
    out
}

/// The lines of `s` (`str::lines`): pieces between '\n', without a final
/// empty piece, and without the '\r' that precedes a '\n'.
pub open spec fn lines(s: Seq<char>) -> Seq<Seq<char>> {
    let parts = split(s, '\n');
    let n = if parts.last().len() == 0 {
        parts.len() - 1
    } else {
        parts.len() as int
    };
    Seq::new(
        n as nat,
        |i: int|
            if i < parts.len() - 1 && parts[i].len() > 0 && parts[i].last() == '\r' {
                parts[i].drop_last()
            } else {
                parts[i]
            },
    )
}

/// The lines of `v`, as bounds.
pub fn line_bounds(v: &Vec<char>) -> (r: Vec<(usize, usize)>)
    ensures
        r@.len() == lines(v@).len(),
        forall|k: int|
            #![trigger r@[k]]
            0 <= k < r@.len() ==> r@[k].0 <= r@[k].1 <= v@.len() && v@.subrange(
                r@[k].0 as int,
                r@[k].1 as int,
            ) == lines(v@)[k],
{
    let parts = split_bounds(v, 0, v.len(), '\n');
    assert(v@.subrange(0, v@.len() as int) =~= v@);
    proof {
        lemma_split_nonempty(v@, '\n');
    }
    let ghost ps = split(v@, '\n');
    assert forall|j: int| 0 <= j < parts@.len() implies parts@[j].0 <= parts@[j].1 <= v@.len() && v@.subrange(
        parts@[j].0 as int,
        parts@[j].1 as int,
    ) == ps[j] by {
        assert(split(v@.subrange(0, v@.len() as int), '\n')[j] == ps[j]);
    }
    let n = parts.len();
    let last = parts[n - 1];
    assert(v@.subrange(last.0 as int, last.1 as int) == ps[n - 1]);
    let count = if last.0 == last.1 {
        n - 1
    } else {
        n
    };
    assert(count == lines(v@).len());
    let mut out: Vec<(usize, usize)> = Vec::new();
    let mut k: usize = 0;
    while k < count
        invariant
            count <= n == parts@.len() == ps.len(),
            ps == split(v@, '\n'),
            count == lines(v@).len(),
            k <= count,
            out@.len() == k,
            forall|j: int|
                #![trigger parts@[j]]
                0 <= j < parts@.len() ==> parts@[j].0 <= parts@[j].1 <= v@.len() && v@.subrange(
                    parts@[j].0 as int,
                    parts@[j].1 as int,
                ) == ps[j],
            forall|j: int|
                #![trigger out@[j]]
                0 <= j < k ==> out@[j].0 <= out@[j].1 <= v@.len() && v@.subrange(
                    out@[j].0 as int,
                    out@[j].1 as int,
                ) == lines(v@)[j],
        decreases count - k,
    {
        let (a, b) = parts[k];
        assert(v@.subrange(a as int, b as int) == ps[k as int]);
        let ghost old_out = out@;
        if k + 1 < n && a < b && v[b - 1] == '\r' {
            assert(v@.subrange(a as int, b - 1) =~= ps[k as int].drop_last());
            out.push((a, b - 1));
        } else {
            out.push((a, b));
        }
        assert forall|j: int| 0 <= j < k + 1 implies out@[j].0 <= out@[j].1 <= v@.len() && v@.subrange(
            out@[j].0 as int,
            out@[j].1 as int,
        ) == lines(v@)[j] by {
            if j < k {
                assert(out@[j] == old_out[j]);
            }
        }
        k = k + 1;
    }
    out
}

/// The whitespace-separated words of `s` (`str::split_whitespace`).
pub open spec fn words(s: Seq<char>) -> Seq<Seq<char>>
    decreases s.len(),
{
    if s.len() == 0 {
        Seq::empty()
    } else {
        let w = words(s.drop_last());
        let c = s.last();
        if is_ws(c) {
            w
        } else if s.len() > 1 && !is_ws(s[s.len() - 2]) && w.len() > 0 {
            w.update(w.len() - 1, w.last().push(c))
        } else {
            w.push(seq![c])
        }
    }
}

/// The words of `v[from..to]`, as bounds.
pub fn word_bounds(v: &Vec<char>, from: usize, to: usize) -> (r: Vec<(usize, usize)>)
    requires
        from <= to <= v@.len(),
    ensures
        r@.len() == words(v@.subrange(from as int, to as int)).len(),
        forall|k: int|
            #![trigger r@[k]]
            0 <= k < r@.len() ==> r@[k].0 <= r@[k].1 <= to && from <= r@[k].0 && v@.subrange(
                r@[k].0 as int,
                r@[k].1 as int,
            ) == words(v@.subrange(from as int, to as int))[k],
{
    let mut out: Vec<(usize, usize)> = Vec::new();
    let mut i = from;
    let mut in_word = false;
    let mut start = from;
    assert(v@.subrange(from as int, from as int) =~= Seq::<char>::empty());
    while i < to
        invariant
            from <= start <= i <= to <= v@.len(),
            in_word ==> words(v@.subrange(from as int, i as int)).len() == out@.len() + 1
                && words(v@.subrange(from as int, i as int)).last() == v@.subrange(start as int, i as int)
                && i > from && !is_ws(v@[i - 1]) && start < i,
            !in_word ==> words(v@.subrange(from as int, i as int)).len() == out@.len() && (i > from
                ==> is_ws(v@[i - 1])),
            forall|k: int|
                #![trigger out@[k]]
                0 <= k < out@.len() ==> out@[k].0 <= out@[k].1 <= to && from <= out@[k].0 && v@.subrange(
                    out@[k].0 as int,
                    out@[k].1 as int,
                ) == words(v@.subrange(from as int, i as int))[k],
        decreases to - i,
    {
        let ghost cur = v@.subrange(from as int, i + 1);
        assert(cur.drop_last() =~= v@.subrange(from as int, i as int));
        assert(cur.last() == v@[i as int]);
        let c = v[i];
        let ghost old_out = out@;
        let ghost prev = words(v@.subrange(from as int, i as int));
        if is_whitespace(c) {
            if in_word {
                out.push((start, i));
                in_word = false;
            }
            assert forall|k: int| 0 <= k < out@.len() implies out@[k].0 <= out@[k].1 <= to && from <= out@[k].0
                && v@.subrange(out@[k].0 as int, out@[k].1 as int) == words(cur)[k] by {
                if k < old_out.len() {
                    assert(out@[k] == old_out[k]);
                }
            }
        } else {
            if in_word {
                assert(cur[cur.len() - 2] == v@[i - 1]);
                assert(v@.subrange(start as int, i + 1) =~= v@.subrange(start as int, i as int).push(c));
                assert(words(cur) == prev.update(prev.len() - 1, prev.last().push(c)));
                assert forall|k: int| 0 <= k < out@.len() implies out@[k].0 <= out@[k].1 <= to && from <= out@[k].0
                    && v@.subrange(out@[k].0 as int, out@[k].1 as int) == words(cur)[k] by {
                    assert(words(cur)[k] == prev[k]);
                }
            } else {
                start = i;
                in_word = true;
                assert(v@.subrange(start as int, i + 1) =~= seq![c]);
                if i > from {
                    assert(cur[cur.len() - 2] == v@[i - 1]);
                }
                assert(words(cur) == prev.push(seq![c]));
                assert forall|k: int| 0 <= k < out@.len() implies out@[k].0 <= out@[k].1 <= to && from <= out@[k].0
                    && v@.subrange(out@[k].0 as int, out@[k].1 as int) == words(cur)[k] by {
                    assert(words(cur)[k] == prev[k]);
                }
            }
        }
        i = i + 1;
    }
    let ghost old_out = out@;
    if in_word {
        out.push((start, to));
    }
    assert forall|k: int| 0 <= k < out@.len() implies out@[k].0 <= out@[k].1 <= to && from <= out@[k].0
        && v@.subrange(out@[k].0 as int, out@[k].1 as int) == words(v@.subrange(from as int, to as int))[k] by {
        if k < old_out.len() {
            assert(out@[k] == old_out[k]);
        }
    }
    out
}

/// Whether `s` starts with `p`.
pub open spec fn has_prefix(s: Seq<char>, p: Seq<char>) -> bool {
    p.len() <= s.len() && s.take(p.len() as int) == p
}

/// Whether `v[from..to]` starts with `p`.
pub fn starts_with(v: &Vec<char>, from: usize, to: usize, p: &str) -> (r: bool)
    requires
        from <= to <= v@.len(),
    ensures
        r == has_prefix(v@.subrange(from as int, to as int), p@),
{
    let pv = chars_of(p);
    if pv.len() > to - from {
        return false;
    }
    let mut i: usize = 0;
    while i < pv.len()
        invariant
            pv@ == p@,
            pv@.len() <= to - from,
            from <= to <= v@.len(),
            i <= pv@.len(),
            forall|j: int| 0 <= j < i ==> v@[from + j] == pv@[j],
        decreases pv@.len() - i,
    {
        if v[from + i] != pv[i] {
            assert(v@.subrange(from as int, to as int).take(pv@.len() as int)[i as int] != p@[i as int]);
            return false;
        }
        i = i + 1;
    }
    assert(v@.subrange(from as int, to as int).take(pv@.len() as int) =~= p@);
    true
}

// ---------------------------------------------------------------------------
// Integer parsing (the rules of `str::parse` / `from_str_radix`)
// ---------------------------------------------------------------------------

/// Digit value of `c` in base 10 or 16, if it is a digit of that base.
pub open spec fn digit_of(c: char, radix: nat) -> Option<nat> {
    if '0' <= c && c <= '9' {
        Some((c as nat - '0' as nat) as nat)
    } else if radix == 16 && 'a' <= c && c <= 'f' {
        Some((c as nat - 'a' as nat + 10) as nat)
    } else if radix == 16 && 'A' <= c && c <= 'F' {
        Some((c as nat - 'A' as nat + 10) as nat)
    } else {
        None
    }
}

/// Whether every character of `d` is a digit of `radix`.
pub open spec fn all_digits(d: Seq<char>, radix: nat) -> bool {
    forall|i: int| 0 <= i < d.len() ==> (#[trigger] digit_of(d[i], radix)) is Some
}

/// The value of the digit string `d` in base `radix`.
pub open spec fn digits_value(d: Seq<char>, radix: nat) -> nat
    decreases d.len(),
{
    if d.len() == 0 {
        0
    } else {
        digits_value(d.drop_last(), radix) * radix + match digit_of(d.last(), radix) {
            Some(v) => v,
            None => 0,
        }
    }
}

/// The digits of an unsigned number text: an optional `+` is dropped.
pub open spec fn unsigned_digits(s: Seq<char>) -> Seq<char> {
    if s.len() > 0 && s[0] == '+' {
        s.drop_first()
    } else {
        s
    }
}

/// The value of `s` read as an unsigned integer of base `radix` no larger
/// than `max`, as `u32::from_str` / `u64::from_str_radix` read it.
pub open spec fn parse_unsigned(s: Seq<char>, radix: nat, max: nat) -> Option<nat> {
    let d = unsigned_digits(s);
    if d.len() == 0 || !all_digits(d, radix) || digits_value(d, radix) > max {
        None
    } else {
        Some(digits_value(d, radix))
    }
}

/// The value of `s` read as an `i32` (`i32::from_str`).
pub open spec fn parse_i32_spec(s: Seq<char>) -> Option<int> {
    if s.len() > 0 && s[0] == '-' {
        let d = s.drop_first();
        if d.len() == 0 || !all_digits(d, 10) || digits_value(d, 10) > 0x8000_0000 {
            None
        } else {
            Some(-digits_value(d, 10))
        }
    } else {
        match parse_unsigned(s, 10, 0x7fff_ffff) {
            Some(v) => Some(v as int),
            None => None,
        }
    }
}

pub proof fn lemma_digits_value_step(d: Seq<char>, i: int, radix: nat)
    requires
        0 <= i < d.len(),
    ensures
        digits_value(d.take(i + 1), radix) == digits_value(d.take(i), radix) * radix + match digit_of(d[i], radix) {
            Some(v) => v,
            None => 0,
        },
{
    assert(d.take(i + 1).drop_last() =~= d.take(i));
}

pub proof fn lemma_digits_value_grows(d: Seq<char>, i: int, j: int, radix: nat)
    requires
        0 <= i <= j <= d.len(),
        radix >= 1,
    ensures
        digits_value(d.take(i), radix) <= digits_value(d.take(j), radix),
    decreases j - i,
{
    if i < j {
        lemma_digits_value_grows(d, i, j - 1, radix);
        lemma_digits_value_step(d, j - 1, radix);
        let x = digits_value(d.take(j - 1), radix);
        assert(x <= x * radix) by (nonlinear_arith)
            requires
                radix >= 1,
        ;
    }
}

/// Digit value of `c` in base 10 or 16.
pub fn digit_value(c: char, radix: u64) -> (r: Option<u64>)
    requires
        radix == 10 || radix == 16,
    ensures
        match digit_of(c, radix as nat) {
            Some(v) => r == Some(v as u64),
            None => r is None,
        },
{
    if '0' <= c && c <= '9' {
        Some((c as u64) - ('0' as u64))
    } else if radix == 16 && 'a' <= c && c <= 'f' {
        Some((c as u64) - ('a' as u64) + 10)
    } else if radix == 16 && 'A' <= c && c <= 'F' {
        Some((c as u64) - ('A' as u64) + 10)
    } else {
        None
    }
}

/// Reads the digits `v[from..to]` in base `radix`; `None` unless they are
/// all digits, at least one, and their value is at most `max`.
pub fn parse_digits(v: &Vec<char>, from: usize, to: usize, radix: u64, max: u64) -> (r: Option<u64>)
    requires
        from <= to <= v@.len(),
        radix == 10 || radix == 16,
    ensures
        ({
            let d = v@.subrange(from as int, to as int);
            if d.len() == 0 || !all_digits(d, radix as nat) || digits_value(d, radix as nat) > max {
                r is None
            } else {
                r == Some(digits_value(d, radix as nat) as u64)
            }
        }),
{
    let ghost d = v@.subrange(from as int, to as int);
    if from == to {
        return None;
    }
    let mut acc: u64 = 0;
    let mut i = from;
    assert(d.take(0) =~= Seq::<char>::empty());
    while i < to
        invariant
            from <= i <= to <= v@.len(),
            radix == 10 || radix == 16,
            d == v@.subrange(from as int, to as int),
            all_digits(d.take(i - from), radix as nat),
            acc == digits_value(d.take(i - from), radix as nat),
            acc <= max,
        decreases to - i,
    {
        let k: Ghost<int> = Ghost(i - from);
        proof {
            lemma_digits_value_step(d, k@, radix as nat);
            assert(d[k@] == v@[i as int]);
        }
        match digit_value(v[i], radix) {
            None => {
                assert(!all_digits(d, radix as nat)) by {
                    assert(digit_of(d[k@], radix as nat) is None);
                }
                return None;
            },
            Some(dv) => {
                if dv > max {
                    proof {
                        assert(acc * radix + dv > max) by (nonlinear_arith)
                            requires
                                dv > max,
                                acc >= 0,
                                radix > 0,
                        ;
                        lemma_digits_value_grows(d, k@ + 1, d.len() as int, radix as nat);
                        assert(d.take(d.len() as int) =~= d);
                    }
                    return None;
                }
                let q = (max - dv) / radix;
                if acc > q {
                    proof {
                        assert(acc * radix + dv > max) by (nonlinear_arith)
                            requires
                                acc > q,
                                q == (max - dv) as int / radix as int,
                                radix > 0,
                                dv <= max,
                        ;
                        lemma_digits_value_grows(d, k@ + 1, d.len() as int, radix as nat);
                        assert(d.take(d.len() as int) =~= d);
                    }
                    return None;
                }
                proof {
                    assert(acc * radix + dv <= max) by (nonlinear_arith)
                        requires
                            acc <= q,
                            q == (max - dv) as int / radix as int,
                            radix > 0,
                            dv <= max,
                    ;
                    assert forall|j: int| 0 <= j < k@ + 1 implies (#[trigger] digit_of(d.take(k@ + 1)[j], radix as nat)) is Some by {
                        if j < k@ {
                            assert(d.take(k@ + 1)[j] == d.take(k@)[j]);
                        }
                    }
                }
                acc = acc * radix + dv;
            },
        }
        i = i + 1;
    }
    assert(d.take(to - from) =~= d);
    Some(acc)
}

/// Reads `v[from..to]` as an unsigned integer of base `radix` no larger than `max`.
pub fn parse_unsigned_range(v: &Vec<char>, from: usize, to: usize, radix: u64, max: u64) -> (r: Option<u64>)
    requires
        from <= to <= v@.len(),
        radix == 10 || radix == 16,
    ensures
        match parse_unsigned(v@.subrange(from as int, to as int), radix as nat, max as nat) {
            Some(x) => r == Some(x as u64),
            None => r is None,
        },
{
    let ghost s = v@.subrange(from as int, to as int);
    if from < to && v[from] == '+' {
        assert(s.drop_first() =~= v@.subrange(from + 1, to as int));
        parse_digits(v, from + 1, to, radix, max)
    } else {
        parse_digits(v, from, to, radix, max)
    }
}

/// Reads `v[from..to]` as an `i32`.
pub fn parse_i32_range(v: &Vec<char>, from: usize, to: usize) -> (r: Option<i32>)
    requires
        from <= to <= v@.len(),
    ensures
        match parse_i32_spec(v@.subrange(from as int, to as int)) {
            Some(x) => r == Some(x as i32),
            None => r is None,
        },
{
    let ghost s = v@.subrange(from as int, to as int);
    if from < to && v[from] == '-' {
        assert(s.drop_first() =~= v@.subrange(from + 1, to as int));
        match parse_digits(v, from + 1, to, 10, 0x8000_0000) {
            None => None,
            Some(m) => {
                let x: i64 = 0 - (m as i64);
                Some(x as i32)
            },
        }
    } else {
        match parse_unsigned_range(v, from, to, 10, 0x7fff_ffff) {
            None => None,
            Some(m) => Some(m as i32),
        }
    }
}

// ---------------------------------------------------------------------------
// Decimal formatting
// ---------------------------------------------------------------------------

/// The ASCII digit for `d < 10`.
pub open spec fn digit_char(d: nat) -> char {
    (d + '0' as nat) as char
}

/// The decimal representation of `n` (what `format!("{}", n)` writes).
pub open spec fn dec(n: nat) -> Seq<char>
    decreases n,
{
    if n < 10 {
        seq![digit_char(n)]
    } else {
        dec(n / 10).push(digit_char(n % 10))
    }
}

/// Appends the decimal representation of `n`.
pub fn push_decimal(s: &mut String, n: u64)
    ensures
        final(s)@ == old(s)@ + dec(n as nat),
    decreases n,
{
    if n >= 10 {
        push_decimal(s, n / 10);
    }
    let d: u32 = (n % 10) as u32;
    let c = char_from_digit(d);
    push_char(s, c);
    proof {
        if n >= 10 {
            assert(dec(n as nat) == dec((n / 10) as nat).push(digit_char((n % 10) as nat)));
        }
    }
    assert(final(s)@ =~= old(s)@ + dec(n as nat));
}

/// The ASCII digit character of `d < 10`.
pub fn char_from_digit(d: u32) -> (c: char)
    requires
        d < 10,
    ensures
        c == digit_char(d as nat),
{
    if d == 0 {
        '0'
    } else if d == 1 {
        '1'
    } else if d == 2 {
        '2'
    } else if d == 3 {
        '3'
    } else if d == 4 {
        '4'
    } else if d == 5 {
        '5'
    } else if d == 6 {
        '6'
    } else if d == 7 {
        '7'
    } else if d == 8 {
        '8'
    } else {
        '9'
    }
}

/// The decimal representation of `n` as a string.
pub fn decimal(n: u64) -> (r: String)
    ensures
        r@ == dec(n as nat),
{
    let mut s = String::new();
    push_decimal(&mut s, n);
    assert(s@ =~= dec(n as nat));
    s
}

// ---------------------------------------------------------------------------
// Comparing texts
// ---------------------------------------------------------------------------

/// Whether two string slices hold the same characters.
pub fn same_text(a: &str, b: &str) -> (r: bool)
    ensures
        r == (a@ == b@),
{
    let n = a.unicode_len();
    if n != b.unicode_len() {
        return false;
    }
    let mut i: usize = 0;
    while i < n
        invariant
            n == a@.len() == b@.len(),
            i <= n,
            a@.take(i as int) == b@.take(i as int),
        decreases n - i,
    {
        if a.get_char(i) != b.get_char(i) {
            assert(a@[i as int] != b@[i as int]);
            return false;
        }
        assert(a@.take(i + 1) =~= a@.take(i as int).push(a@[i as int]));
        assert(b@.take(i + 1) =~= b@.take(i as int).push(b@[i as int]));
        i = i + 1;
    }
    assert(a@.take(n as int) =~= a@);
    assert(b@.take(n as int) =~= b@);
    true
}

/// Lexicographic order of character sequences by code point (the order of
/// `str`'s `cmp`, since UTF-8 keeps the order of code points).
pub open spec fn text_less(a: Seq<char>, b: Seq<char>) -> bool
    decreases a.len(),
{
    if a.len() == 0 {
        b.len() > 0
    } else if b.len() == 0 {
        false
    } else if a[0] != b[0] {
        a[0] < b[0]
    } else {
        text_less(a.drop_first(), b.drop_first())
    }
}

/// Whether `a` comes strictly before `b` in lexicographic order.
pub fn less_text(a: &str, b: &str) -> (r: bool)
    ensures
        r == text_less(a@, b@),
{
    let n = a.unicode_len();
    let m = b.unicode_len();
    let mut i: usize = 0;
    assert(a@.skip(0) =~= a@);
    assert(b@.skip(0) =~= b@);
    while i < n && i < m
        invariant
            n == a@.len(),
            m == b@.len(),
            i <= n,
            i <= m,
            text_less(a@, b@) == text_less(a@.skip(i as int), b@.skip(i as int)),
        decreases n - i,
    {
        let x = a.get_char(i);
        let y = b.get_char(i);
        assert(a@.skip(i as int)[0] == x);
        assert(b@.skip(i as int)[0] == y);
        if x != y {
            return x < y;
        }
        assert(a@.skip(i as int).drop_first() =~= a@.skip(i + 1));
        assert(b@.skip(i as int).drop_first() =~= b@.skip(i + 1));
        i = i + 1;
    }
    i == n && i < m
}

/// `text_less` is total on distinct sequences.
pub proof fn lemma_text_less_total(a: Seq<char>, b: Seq<char>)
    requires
        a != b,
    ensures
        text_less(a, b) || text_less(b, a),
    decreases a.len(),
{
    if a.len() > 0 && b.len() > 0 && a[0] == b[0] {
        if a.drop_first() == b.drop_first() {
            assert(a =~= seq![a[0]] + a.drop_first());
            assert(b =~= seq![b[0]] + b.drop_first());
        }
        lemma_text_less_total(a.drop_first(), b.drop_first());
    } else if a.len() == 0 && b.len() == 0 {
        assert(a =~= b);
    }
}

/// `text_less` is asymmetric.
pub proof fn lemma_text_less_asymmetric(a: Seq<char>, b: Seq<char>)
    ensures
        !(text_less(a, b) && text_less(b, a)),
    decreases a.len(),
{
    if a.len() > 0 && b.len() > 0 && a[0] == b[0] {
        lemma_text_less_asymmetric(a.drop_first(), b.drop_first());
    }
}

/// `text_less` is transitive.
pub proof fn lemma_text_less_transitive(a: Seq<char>, b: Seq<char>, c: Seq<char>)
    requires
        text_less(a, b),
        text_less(b, c),
    ensures
        text_less(a, c),
    decreases a.len(),
{
    if a.len() > 0 && b.len() > 0 && c.len() > 0 && a[0] == b[0] && b[0] == c[0] {
        lemma_text_less_transitive(a.drop_first(), b.drop_first(), c.drop_first());
    }
}

} // verus!
