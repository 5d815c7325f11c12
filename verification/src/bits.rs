use vstd::prelude::*;

verus! {

/// Whether bit `b` of the word `w` is set.
pub open spec fn bit_set(w: u64, b: u64) -> bool {
    (w >> b) & 1u64 == 1u64
}

pub proof fn lemma_bit_or(w: u64, b: u64, c: u64)
    by (bit_vector)
    requires
        b < 64,
        c < 64,
    ensures
        ((w | (1u64 << b)) >> c) & 1u64 == 1u64 <==> (c == b || (w >> c) & 1u64 == 1u64),
{
}

pub proof fn lemma_bit_clear(w: u64, b: u64, c: u64)
    by (bit_vector)
    requires
        b < 64,
        c < 64,
    ensures
        ((w & !(1u64 << b)) >> c) & 1u64 == 1u64 <==> (c != b && (w >> c) & 1u64 == 1u64),
{
}

pub proof fn lemma_bit_test(w: u64, b: u64)
    by (bit_vector)
    requires
        b < 64,
    ensures
        (w & (1u64 << b)) != 0u64 <==> (w >> b) & 1u64 == 1u64,
{
}

pub proof fn lemma_bit_union(x: u64, y: u64, c: u64)
    by (bit_vector)
    requires
        c < 64,
    ensures
        ((x | y) >> c) & 1u64 == 1u64 <==> ((x >> c) & 1u64 == 1u64 || (y >> c) & 1u64 == 1u64),
{
}

pub proof fn lemma_bit_inter(x: u64, y: u64, c: u64)
    by (bit_vector)
    requires
        c < 64,
    ensures
        ((x & y) >> c) & 1u64 == 1u64 <==> ((x >> c) & 1u64 == 1u64 && (y >> c) & 1u64 == 1u64),
{
}

pub proof fn lemma_zero_word(c: u64)
    by (bit_vector)
    requires
        c < 64,
    ensures
        !((0u64 >> c) & 1u64 == 1u64),
{
}

proof fn lemma_shift_all(w: u64)
    by (bit_vector)
    ensures
        (w >> 64u64) == 0u64,
        (w >> 0u64) == w,
{
}

proof fn lemma_shift_zero_step(w: u64, k: u64)
    by (bit_vector)
    requires
        k < 64,
        (w >> (k + 1)) == 0u64,
        (w >> k) & 1u64 != 1u64,
    ensures
        (w >> k) == 0u64,
{
}

/// With no bit from `k` up set, the word shifted by `k` is zero.
proof fn lemma_high_bits_zero(w: u64, k: u64)
    requires
        k <= 64,
        forall|b: u64| k <= b < 64 ==> !#[trigger] bit_set(w, b),
    ensures
        (w >> k) == 0u64,
    decreases 64 - k,
{
    if k == 64 {
        lemma_shift_all(w);
    } else {
        lemma_high_bits_zero(w, (k + 1) as u64);
        assert(!bit_set(w, k));
        lemma_shift_zero_step(w, k);
    }
}

/// A word with no bit set is zero.
pub proof fn lemma_no_bits_zero(w: u64)
    requires
        forall|b: u64| b < 64 ==> !#[trigger] bit_set(w, b),
    ensures
        w == 0,
{
    lemma_high_bits_zero(w, 0);
    lemma_shift_all(w);
}

/// The integers below `n` of a set of `u32`.
pub open spec fn below(s: Set<u32>, n: int) -> Set<u32> {
    s.filter(|c: u32| (c as int) < n)
}

pub proof fn lemma_below_step(s: Set<u32>, n: int)
    requires
        0 <= n < 0x1_0000_0000,
    ensures
        below(s, n + 1) =~= (if s.contains(n as u32) {
            below(s, n).insert(n as u32)
        } else {
            below(s, n)
        }),
{
}

/// A set of `u32` below `n` is finite and has at most `n` elements.
pub proof fn lemma_bounded_set_finite(s: Set<u32>, n: int)
    requires
        0 <= n < 0x1_0000_0000,
        forall|c: u32| #[trigger] s.contains(c) ==> (c as int) < n,
    ensures
        s.finite(),
        s.len() <= n,
{
    lemma_below_len(s, n);
    assert(below(s, n) =~= s);
}

pub proof fn lemma_below_len(s: Set<u32>, n: int)
    requires
        0 <= n < 0x1_0000_0000,
    ensures
        below(s, n).finite(),
        below(s, n).len() <= n,
    decreases n,
{
    if n == 0 {
        assert(below(s, 0) =~= Set::<u32>::empty());
    } else {
        lemma_below_len(s, n - 1);
        lemma_below_step(s, n - 1);
    }
}

/// Appending an element to a sequence adds it to the sequence's set.
pub proof fn lemma_push_contains<A>(s: Seq<A>, x: A)
    ensures
        forall|a: A| #[trigger] s.push(x).contains(a) <==> (a == x || s.contains(a)),
        s.push(x).to_set() =~= s.to_set().insert(x),
{
    assert forall|a: A| #[trigger] s.push(x).contains(a) <==> (a == x || s.contains(a)) by {
        if s.contains(a) {
            let k = choose|k: int| 0 <= k < s.len() && s[k] == a;
            assert(s.push(x)[k] == a);
        }
        if a == x {
            assert(s.push(x)[s.len() as int] == a);
        }
        if s.push(x).contains(a) {
            let k = choose|k: int| 0 <= k < s.len() + 1 && s.push(x)[k] == a;
            if k < s.len() {
                assert(s[k] == a);
            }
        }
    }
}

} // verus!
