use vstd::prelude::*;

verus! {

/// The low `w` bits set.
pub open spec fn mask(w: u64) -> u64 {
    ((1u64 << w) - 1) as u64
}

/// The `w`-bit field of `d` that starts at bit `off`.
pub open spec fn field(d: u64, off: u64, w: u64) -> u64 {
    (d >> off) & mask(w)
}

/// `d` with its `w`-bit field at `off` replaced by the low `w` bits of `v`.
pub open spec fn with_field(d: u64, off: u64, w: u64, v: u64) -> u64 {
    (d & !(mask(w) << off)) | ((v & mask(w)) << off)
}

/// Fields are what was written to them, and writing one leaves the
/// fields beside it alone.
pub proof fn lemma_fields()
    by (bit_vector)
    ensures
        forall|d: u64, off: u64, w: u64, v: u64|
            1 <= w <= 16 && off + w <= 64 ==> #[trigger] field(with_field(d, off, w, v), off, w)
                == v & mask(w),
        forall|d: u64, o1: u64, w1: u64, v: u64, o2: u64, w2: u64|
            1 <= w1 <= 16 && 1 <= w2 <= 16 && o1 + w1 <= 64 && o2 + w2 <= 64 && (o1 + w1 <= o2
                || o2 + w2 <= o1) ==> #[trigger] field(with_field(d, o1, w1, v), o2, w2) == field(
                d,
                o2,
                w2,
            ),
        forall|off: u64, w: u64| 1 <= w <= 16 && off + w <= 64 ==> #[trigger] field(0u64, off, w) == 0,
{
}

/// A field is below `2^w`; a value below `2^w` passes the mask unchanged.
pub proof fn lemma_masks()
    by (bit_vector)
    ensures
        mask(1) == 1,
        mask(2) == 3,
        mask(3) == 7,
        mask(4) == 15,
        forall|w: u64| w <= 16 ==> #[trigger] (1u64 << w) >= 1,
        forall|v: u64, w: u64| 1 <= w <= 16 ==> #[trigger] (v & mask(w)) <= mask(w),
        forall|v: u64, w: u64| 1 <= w <= 16 && v <= mask(w) ==> #[trigger] (v & mask(w)) == v,
{
}

/// Reads a field.
pub fn get_field(d: u64, off: u64, w: u64) -> (r: u64)
    requires
        1 <= w <= 16,
        off + w <= 64,
    ensures
        r == field(d, off, w),
        r <= mask(w),
{
    proof {
        lemma_masks();
    }
    (d >> off) & ((1u64 << w) - 1)
}

/// Writes a field.
pub fn put_field(d: u64, off: u64, w: u64, v: u64) -> (r: u64)
    requires
        1 <= w <= 16,
        off + w <= 64,
    ensures
        r == with_field(d, off, w, v),
{
    proof {
        lemma_masks();
    }
    let m = (1u64 << w) - 1;
    (d & !(m << off)) | ((v & m) << off)
}

/// Number of set bits among the low `n` bits of `d`.
pub open spec fn ones(d: u64, n: nat) -> nat
    decreases n,
{
    if n == 0 {
        0
    } else {
        ones(d, (n - 1) as nat) + field(d, (n - 1) as u64, 1) as nat
    }
}

/// Writing bit `k` changes the count of set bits by what the bit changed.
pub proof fn lemma_ones_with_bit(d: u64, k: u64, b: u64, n: nat)
    requires
        k < 64,
        b <= 1,
        n <= 64,
    ensures
        k < n ==> ones(with_field(d, k, 1, b), n) + field(d, k, 1) == ones(d, n) + b,
        k >= n ==> ones(with_field(d, k, 1, b), n) == ones(d, n),
    decreases n,
{
    lemma_fields();
    lemma_masks();
    if n > 0 {
        lemma_ones_with_bit(d, k, b, (n - 1) as nat);
        let i = (n - 1) as u64;
        if i != k {
            assert(field(with_field(d, k, 1, b), i, 1) == field(d, i, 1));
        } else {
            assert(field(with_field(d, k, 1, b), k, 1) == b & mask(1));
        }
    }
}

pub proof fn lemma_ones_bound(d: u64, n: nat)
    ensures
        ones(d, n) <= n,
    decreases n,
{
    lemma_masks();
    if n > 0 {
        lemma_ones_bound(d, (n - 1) as nat);
        assert(field(d, (n - 1) as u64, 1) <= mask(1));
    }
}

/// Counts the set bits among the low `n` bits of `d`.
pub fn count_ones(d: u64, n: u64) -> (r: u64)
    requires
        n <= 64,
    ensures
        r == ones(d, n as nat),
{
    let mut c: u64 = 0;
    let mut i: u64 = 0;
    while i < n
        invariant
            i <= n <= 64,
            c == ones(d, i as nat),
        decreases n - i,
    {
        proof {
            lemma_ones_bound(d, (i + 1) as nat);
        }
        c = c + get_field(d, i, 1);
        i = i + 1;
    }
    c
}

} // verus!
