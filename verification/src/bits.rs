//! Bit sets stored in machine integers: membership, counting and lowest members.

use vstd::prelude::*;

verus! {

/// Bit `i` of `x` is set.
pub open spec fn has_bit64(x: u64, i: usize) -> bool {
    x & (1u64 << i) != 0
}

/// Bit `i` of `x` is set.
pub open spec fn has_bit128(x: u128, i: usize) -> bool {
    x & (1u128 << i) != 0
}

/// Number of set bits of `x` among the positions below `k`.
pub open spec fn ones64(x: u64, k: usize) -> nat
    decreases k,
{
    if k == 0 {
        0
    } else {
        ones64(x, (k - 1) as usize) + if has_bit64(x, (k - 1) as usize) {
            1nat
        } else {
            0nat
        }
    }
}

/// Number of set bits of `x` among the positions below `k`.
pub open spec fn ones128(x: u128, k: usize) -> nat
    decreases k,
{
    if k == 0 {
        0
    } else {
        ones128(x, (k - 1) as usize) + if has_bit128(x, (k - 1) as usize) {
            1nat
        } else {
            0nat
        }
    }
}

/// Number of set bits of `x`.
pub open spec fn popcount64(x: u64) -> nat {
    ones64(x, 64)
}

/// Number of set bits of `x`.
pub open spec fn popcount128(x: u128) -> nat {
    ones128(x, 128)
}

/// `i` is the lowest set bit of `x`.
pub open spec fn is_lowest_bit128(x: u128, i: usize) -> bool {
    &&& i < 128
    &&& has_bit128(x, i)
    &&& forall|j: usize| j < i ==> !#[trigger] has_bit128(x, j)
}

/// `i` is the lowest set bit of `x`.
pub open spec fn is_lowest_bit64(x: u64, i: usize) -> bool {
    &&& i < 64
    &&& has_bit64(x, i)
    &&& forall|j: usize| j < i ==> !#[trigger] has_bit64(x, j)
}

pub proof fn lemma_ones128_le(x: u128, k: usize)
    ensures
        ones128(x, k) <= k,
    decreases k,
{
    if k > 0 {
        lemma_ones128_le(x, (k - 1) as usize);
    }
}

pub proof fn lemma_ones64_le(x: u64, k: usize)
    ensures
        ones64(x, k) <= k,
    decreases k,
{
    if k > 0 {
        lemma_ones64_le(x, (k - 1) as usize);
    }
}

proof fn lemma_xor_bit128(x: u128, i: usize, j: usize)
    by (bit_vector)
    requires
        i < 128,
        j < 128,
    ensures
        i != j ==> ((x ^ (1u128 << i)) & (1u128 << j) != 0) == (x & (1u128 << j) != 0),
        x & (1u128 << i) != 0 ==> (x ^ (1u128 << i)) & (1u128 << i) == 0,
        x & (1u128 << i) == 0 ==> (x ^ (1u128 << i)) & (1u128 << i) != 0,
{
}

proof fn lemma_xor_bit64(x: u64, i: usize, j: usize)
    by (bit_vector)
    requires
        i < 64,
        j < 64,
    ensures
        i != j ==> ((x ^ (1u64 << i)) & (1u64 << j) != 0) == (x & (1u64 << j) != 0),
        x & (1u64 << i) != 0 ==> (x ^ (1u64 << i)) & (1u64 << i) == 0,
        x & (1u64 << i) == 0 ==> (x ^ (1u64 << i)) & (1u64 << i) != 0,
{
}

/// Clearing a set bit removes exactly one member, and makes the number smaller.
pub proof fn lemma_clear_bit128(x: u128, i: usize, k: usize)
    requires
        i < 128,
        k <= 128,
        has_bit128(x, i),
    ensures
        ones128(x ^ (1u128 << i), k) == ones128(x, k) - (if i < k {
            1int
        } else {
            0int
        }),
        (x ^ (1u128 << i)) < x,
    decreases k,
{
    assert((x ^ (1u128 << i)) < x) by (bit_vector)
        requires
            i < 128,
            x & (1u128 << i) != 0,
    ;
    if k > 0 {
        lemma_clear_bit128(x, i, (k - 1) as usize);
        lemma_xor_bit128(x, i, (k - 1) as usize);
    }
}

/// Clearing a set bit removes exactly one member, and makes the number smaller.
pub proof fn lemma_clear_bit64(x: u64, i: usize, k: usize)
    requires
        i < 64,
        k <= 64,
        has_bit64(x, i),
    ensures
        ones64(x ^ (1u64 << i), k) == ones64(x, k) - (if i < k {
            1int
        } else {
            0int
        }),
        (x ^ (1u64 << i)) < x,
    decreases k,
{
    assert((x ^ (1u64 << i)) < x) by (bit_vector)
        requires
            i < 64,
            x & (1u64 << i) != 0,
    ;
    if k > 0 {
        lemma_clear_bit64(x, i, (k - 1) as usize);
        lemma_xor_bit64(x, i, (k - 1) as usize);
    }
}

/// Setting a clear bit adds exactly one member; toggling a set bit removes it.
pub proof fn lemma_toggle_bit64(x: u64, i: usize, k: usize)
    requires
        i < 64,
        k <= 64,
    ensures
        has_bit64(x, i) ==> ones64(x ^ (1u64 << i), k) + (if i < k {
            1int
        } else {
            0int
        }) == ones64(x, k),
        !has_bit64(x, i) ==> ones64(x ^ (1u64 << i), k) == ones64(x, k) + (if i < k {
            1int
        } else {
            0int
        }),
    decreases k,
{
    if k > 0 {
        lemma_toggle_bit64(x, i, (k - 1) as usize);
        lemma_xor_bit64(x, i, (k - 1) as usize);
    }
}

/// Membership after toggling bit `i`.
pub proof fn lemma_toggle_members128(x: u128, i: usize)
    requires
        i < 128,
    ensures
        forall|j: usize|
            j < 128 ==> #[trigger] has_bit128(x ^ (1u128 << i), j) == (if j == i {
                !has_bit128(x, j)
            } else {
                has_bit128(x, j)
            }),
{
    assert forall|j: usize| j < 128 implies #[trigger] has_bit128(x ^ (1u128 << i), j) == (if j
        == i {
        !has_bit128(x, j)
    } else {
        has_bit128(x, j)
    }) by {
        lemma_xor_bit128(x, i, j);
    }
}

/// Membership after toggling bit `i`.
pub proof fn lemma_toggle_members64(x: u64, i: usize)
    requires
        i < 64,
    ensures
        forall|j: usize|
            j < 64 ==> #[trigger] has_bit64(x ^ (1u64 << i), j) == (if j == i {
                !has_bit64(x, j)
            } else {
                has_bit64(x, j)
            }),
{
    assert forall|j: usize| j < 64 implies #[trigger] has_bit64(x ^ (1u64 << i), j) == (if j
        == i {
        !has_bit64(x, j)
    } else {
        has_bit64(x, j)
    }) by {
        lemma_xor_bit64(x, i, j);
    }
}

/// Counts the set bits of `x`.
pub fn count_ones64(x: u64) -> (n: u32)
    ensures
        n == popcount64(x),
        n <= 64,
{
    let mut n: u32 = 0;
    let mut k: usize = 0;
    while k < 64
        invariant
            k <= 64,
            n == ones64(x, k),
            n <= k,
        decreases 64 - k,
    {
        if x & (1u64 << k) != 0 {
            n = n + 1;
        }
        k = k + 1;
    }
    n
}

/// Counts the set bits of `x`.
pub fn count_ones128(x: u128) -> (n: u32)
    ensures
        n == popcount128(x),
        n <= 128,
{
    let mut n: u32 = 0;
    let mut k: usize = 0;
    while k < 128
        invariant
            k <= 128,
            n == ones128(x, k),
            n <= k,
        decreases 128 - k,
    {
        if x & (1u128 << k) != 0 {
            n = n + 1;
        }
        k = k + 1;
    }
    n
}


/// `x` with its `k` lowest set bits cleared.
pub open spec fn drop_lowest64(x: u64, k: nat) -> u64
    decreases k,
{
    if k == 0 {
        x
    } else {
        let y = drop_lowest64(x, (k - 1) as nat);
        y & ((y - 1) as u64)
    }
}

/// The position of the `k`-th set bit of `x`, counted from 0 in increasing order.
pub open spec fn nth_set_bit64(x: u64, k: nat) -> usize {
    choose|t: usize| is_lowest_bit64(drop_lowest64(x, k), t)
}

proof fn lemma_shift_base64(x: u64)
    by (bit_vector)
    ensures
        (x >> 0usize) << 0usize == x,
{
}

proof fn lemma_shift_step64(x: u64, i: usize, j: usize)
    by (bit_vector)
    requires
        i < 64,
        j == i + 1,
        (x >> i) << i == x,
        x & (1u64 << i) == 0,
    ensures
        j < 64 ==> (x >> j) << j == x,
        j == 64 ==> x == 0,
{
}

proof fn lemma_low_clear64(x: u64, t: usize, j: usize)
    by (bit_vector)
    requires
        t < 64,
        j < t,
        (x >> t) << t == x,
    ensures
        x & (1u64 << j) == 0,
{
}

pub proof fn lemma_clear_lowest_step64(x: u64, t: usize)
    by (bit_vector)
    requires
        t < 64,
        (x >> t) << t == x,
        x & (1u64 << t) != 0,
    ensures
        x & ((x - 1) as u64) == x ^ (1u64 << t),
{
}

pub proof fn lemma_zero_bits64(j: usize)
    by (bit_vector)
    requires
        j < 64,
    ensures
        0u64 & (1u64 << j) == 0,
{
}

proof fn lemma_lowest_from64(x: u64, i: usize) -> (t: usize)
    requires
        x != 0,
        i < 64,
        (x >> i) << i == x,
    ensures
        is_lowest_bit64(x, t),
        (x >> t) << t == x,
    decreases 64 - i,
{
    if x & (1u64 << i) != 0 {
        assert forall|j: usize| j < i implies !#[trigger] has_bit64(x, j) by {
            lemma_low_clear64(x, i, j);
        }
        i
    } else {
        lemma_shift_step64(x, i, (i + 1) as usize);
        lemma_lowest_from64(x, (i + 1) as usize)
    }
}

/// A non-zero set has a lowest member, below which `x` has no bits.
pub proof fn lemma_lowest_bit64(x: u64) -> (t: usize)
    requires
        x != 0,
    ensures
        is_lowest_bit64(x, t),
        (x >> t) << t == x,
{
    lemma_shift_base64(x);
    lemma_lowest_from64(x, 0)
}

proof fn lemma_lowest_unique64(x: u64, t1: usize, t2: usize)
    requires
        is_lowest_bit64(x, t1),
        is_lowest_bit64(x, t2),
    ensures
        t1 == t2,
{
    if t1 < t2 {
        assert(!has_bit64(x, t1));
    } else if t2 < t1 {
        assert(!has_bit64(x, t2));
    }
}

/// The empty set has no members below `k`.
pub proof fn lemma_popcount_zero64(k: usize)
    requires
        k <= 64,
    ensures
        ones64(0u64, k) == 0,
    decreases k,
{
    if k > 0 {
        lemma_zero_bits64((k - 1) as usize);
        lemma_popcount_zero64((k - 1) as usize);
    }
}

/// Clearing the `k` lowest members of a set with more than `k` members leaves a
/// non-empty subset with `k` fewer members.
pub proof fn lemma_drop_lowest64(x: u64, k: nat)
    requires
        k <= popcount64(x),
    ensures
        popcount64(drop_lowest64(x, k)) == popcount64(x) - k,
        forall|i: usize| i < 64 && #[trigger] has_bit64(drop_lowest64(x, k), i) ==> has_bit64(x, i),
    decreases k,
{
    if k > 0 {
        lemma_drop_lowest64(x, (k - 1) as nat);
        let y = drop_lowest64(x, (k - 1) as nat);
        if y == 0 {
            lemma_popcount_zero64(64);
        }
        let t = lemma_lowest_bit64(y);
        lemma_clear_lowest_step64(y, t);
        lemma_clear_bit64(y, t, 64);
        lemma_toggle_members64(y, t);
    }
}

/// The lowest set bit of a non-zero `x`.
pub fn lowest_bit64(x: u64) -> (t: u32)
    requires
        x != 0,
    ensures
        is_lowest_bit64(x, t as usize),
        (x >> (t as usize)) << (t as usize) == x,
{
    let mut t: u32 = 0;
    proof {
        lemma_shift_base64(x);
    }
    while x & (1u64 << t) == 0
        invariant
            x != 0,
            t < 64,
            (x >> (t as usize)) << (t as usize) == x,
        decreases 64 - t,
    {
        proof {
            lemma_shift_step64(x, t as usize, (t + 1) as usize);
        }
        t = t + 1;
    }
    proof {
        assert forall|j: usize| j < t implies !#[trigger] has_bit64(x, j) by {
            lemma_low_clear64(x, t as usize, j);
        }
    }
    t
}

/// Clears the `index` lowest set bits of a copy of `x` and returns the lowest bit left:
/// the position of the `index`-th member of `x`.
pub fn nth_bit64(x: u64, index: u32) -> (t: u32)
    requires
        index < popcount64(x),
    ensures
        is_lowest_bit64(drop_lowest64(x, index as nat), t as usize),
        t as usize == nth_set_bit64(x, index as nat),
        has_bit64(x, t as usize),
{
    let mut bits = x;
    let mut c: u32 = 0;
    while c < index
        invariant
            c <= index,
            index < popcount64(x),
            bits == drop_lowest64(x, c as nat),
        decreases index - c,
    {
        proof {
            lemma_drop_lowest64(x, c as nat);
            if bits == 0 {
                lemma_popcount_zero64(64);
            }
        }
        bits = bits & (bits - 1);
        c = c + 1;
    }
    proof {
        lemma_drop_lowest64(x, index as nat);
        if bits == 0 {
            lemma_popcount_zero64(64);
        }
    }
    let t = lowest_bit64(bits);
    proof {
        let t2 = choose|t2: usize| is_lowest_bit64(drop_lowest64(x, index as nat), t2);
        lemma_lowest_unique64(bits, t as usize, t2);
    }
    t
}

/// `x` with its `k` lowest set bits cleared.
pub open spec fn drop_lowest128(x: u128, k: nat) -> u128
    decreases k,
{
    if k == 0 {
        x
    } else {
        let y = drop_lowest128(x, (k - 1) as nat);
        y & ((y - 1) as u128)
    }
}

/// The position of the `k`-th set bit of `x`, counted from 0 in increasing order.
pub open spec fn nth_set_bit128(x: u128, k: nat) -> usize {
    choose|t: usize| is_lowest_bit128(drop_lowest128(x, k), t)
}

proof fn lemma_shift_base128(x: u128)
    by (bit_vector)
    ensures
        (x >> 0usize) << 0usize == x,
{
}

proof fn lemma_shift_step128(x: u128, i: usize, j: usize)
    by (bit_vector)
    requires
        i < 128,
        j == i + 1,
        (x >> i) << i == x,
        x & (1u128 << i) == 0,
    ensures
        j < 128 ==> (x >> j) << j == x,
        j == 128 ==> x == 0,
{
}

proof fn lemma_low_clear128(x: u128, t: usize, j: usize)
    by (bit_vector)
    requires
        t < 128,
        j < t,
        (x >> t) << t == x,
    ensures
        x & (1u128 << j) == 0,
{
}

pub proof fn lemma_clear_lowest_step128(x: u128, t: usize)
    by (bit_vector)
    requires
        t < 128,
        (x >> t) << t == x,
        x & (1u128 << t) != 0,
    ensures
        x & ((x - 1) as u128) == x ^ (1u128 << t),
{
}

pub proof fn lemma_zero_bits128(j: usize)
    by (bit_vector)
    requires
        j < 128,
    ensures
        0u128 & (1u128 << j) == 0,
{
}

proof fn lemma_lowest_from128(x: u128, i: usize) -> (t: usize)
    requires
        x != 0,
        i < 128,
        (x >> i) << i == x,
    ensures
        is_lowest_bit128(x, t),
        (x >> t) << t == x,
    decreases 128 - i,
{
    if x & (1u128 << i) != 0 {
        assert forall|j: usize| j < i implies !#[trigger] has_bit128(x, j) by {
            lemma_low_clear128(x, i, j);
        }
        i
    } else {
        lemma_shift_step128(x, i, (i + 1) as usize);
        lemma_lowest_from128(x, (i + 1) as usize)
    }
}

/// A non-zero set has a lowest member, below which `x` has no bits.
pub proof fn lemma_lowest_bit128(x: u128) -> (t: usize)
    requires
        x != 0,
    ensures
        is_lowest_bit128(x, t),
        (x >> t) << t == x,
{
    lemma_shift_base128(x);
    lemma_lowest_from128(x, 0)
}

/// Two sets with the same members are the same.
pub proof fn lemma_same_bits128(x: u128, y: u128)
    requires
        forall|i: usize| i < 128 ==> #[trigger] has_bit128(x, i) == has_bit128(y, i),
    ensures
        x == y,
{
    if x != y {
        let d = x ^ y;
        assert(d != 0) by (bit_vector)
            requires
                x != y,
                d == x ^ y,
        ;
        let t = lemma_lowest_bit128(d);
        assert(has_bit128(x, t) == has_bit128(y, t));
        assert(d & (1u128 << t) != 0);
        assert(false) by (bit_vector)
            requires
                t < 128,
                d == x ^ y,
                d & (1u128 << t) != 0,
                (x & (1u128 << t) != 0) == (y & (1u128 << t) != 0),
        ;
    }
}

proof fn lemma_lowest_unique128(x: u128, t1: usize, t2: usize)
    requires
        is_lowest_bit128(x, t1),
        is_lowest_bit128(x, t2),
    ensures
        t1 == t2,
{
    if t1 < t2 {
        assert(!has_bit128(x, t1));
    } else if t2 < t1 {
        assert(!has_bit128(x, t2));
    }
}

proof fn lemma_popcount_zero128(k: usize)
    requires
        k <= 128,
    ensures
        ones128(0u128, k) == 0,
    decreases k,
{
    if k > 0 {
        lemma_zero_bits128((k - 1) as usize);
        lemma_popcount_zero128((k - 1) as usize);
    }
}

/// Clearing the `k` lowest members of a set with more than `k` members leaves a
/// non-empty subset with `k` fewer members.
pub proof fn lemma_drop_lowest128(x: u128, k: nat)
    requires
        k <= popcount128(x),
    ensures
        popcount128(drop_lowest128(x, k)) == popcount128(x) - k,
        forall|i: usize| i < 128 && #[trigger] has_bit128(drop_lowest128(x, k), i) ==> has_bit128(x, i),
    decreases k,
{
    if k > 0 {
        lemma_drop_lowest128(x, (k - 1) as nat);
        let y = drop_lowest128(x, (k - 1) as nat);
        if y == 0 {
            lemma_popcount_zero128(128);
        }
        let t = lemma_lowest_bit128(y);
        lemma_clear_lowest_step128(y, t);
        lemma_clear_bit128(y, t, 128);
        lemma_toggle_members128(y, t);
    }
}

/// The lowest set bit of a non-zero `x`.
pub fn lowest_bit128(x: u128) -> (t: u32)
    requires
        x != 0,
    ensures
        is_lowest_bit128(x, t as usize),
        (x >> (t as usize)) << (t as usize) == x,
{
    let mut t: u32 = 0;
    proof {
        lemma_shift_base128(x);
    }
    while x & (1u128 << t) == 0
        invariant
            x != 0,
            t < 128,
            (x >> (t as usize)) << (t as usize) == x,
        decreases 128 - t,
    {
        proof {
            lemma_shift_step128(x, t as usize, (t + 1) as usize);
        }
        t = t + 1;
    }
    proof {
        assert forall|j: usize| j < t implies !#[trigger] has_bit128(x, j) by {
            lemma_low_clear128(x, t as usize, j);
        }
    }
    t
}

/// Clears the `index` lowest set bits of a copy of `x` and returns the lowest bit left:
/// the position of the `index`-th member of `x`.
pub fn nth_bit128(x: u128, index: u32) -> (t: u32)
    requires
        index < popcount128(x),
    ensures
        is_lowest_bit128(drop_lowest128(x, index as nat), t as usize),
        t as usize == nth_set_bit128(x, index as nat),
        has_bit128(x, t as usize),
{
    let mut bits = x;
    let mut c: u32 = 0;
    while c < index
        invariant
            c <= index,
            index < popcount128(x),
            bits == drop_lowest128(x, c as nat),
        decreases index - c,
    {
        proof {
            lemma_drop_lowest128(x, c as nat);
            if bits == 0 {
                lemma_popcount_zero128(128);
            }
        }
        bits = bits & (bits - 1);
        c = c + 1;
    }
    proof {
        lemma_drop_lowest128(x, index as nat);
        if bits == 0 {
            lemma_popcount_zero128(128);
        }
    }
    let t = lowest_bit128(bits);
    proof {
        let t2 = choose|t2: usize| is_lowest_bit128(drop_lowest128(x, index as nat), t2);
        lemma_lowest_unique128(bits, t as usize, t2);
    }
    t
}


/// The `k`-th member of a set with more than `k` members is a member, below 64.
pub proof fn lemma_nth_set_bit64(x: u64, k: nat)
    requires
        k < popcount64(x),
    ensures
        nth_set_bit64(x, k) < 64,
        has_bit64(x, nth_set_bit64(x, k)),
{
    lemma_drop_lowest64(x, k);
    let y = drop_lowest64(x, k);
    if y == 0 {
        lemma_popcount_zero64(64);
    }
    let t = lemma_lowest_bit64(y);
    let c = nth_set_bit64(x, k);
    assert(is_lowest_bit64(y, c));
}

} // verus!
