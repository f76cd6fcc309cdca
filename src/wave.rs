use vstd::prelude::*;

verus! {

/// Bound on the timing quantities of `render`, so that sums of them fit.
pub const WAVE_LIMIT: u128 = 0x10000000000000000000000000;

/// The level that a segment settles at: `amp` above or below the centre.
pub open spec fn level_target(high: bool, amp: int) -> int {
    if high {
        128 + amp
    } else {
        128 - amp
    }
}

/// Sample `i` of an `n`-sample segment at one level. With a ramp of `ramp`
/// samples, a sample `k` samples from the nearer end of the segment (the
/// ends counting as 1) lies `k / ramp` of the way from the centre to the
/// level; with `ramp` at most 1 the segment is square.
pub open spec fn sample_at(i: int, n: int, high: bool, amp: int, ramp: int) -> u8 {
    let k = (if i <= n - 1 - i {
        i
    } else {
        n - 1 - i
    }) + 1;
    if ramp <= k {
        level_target(high, amp) as u8
    } else if high {
        (128 + amp * k / ramp) as u8
    } else {
        (128 - amp * k / ramp) as u8
    }
}

/// An `n`-sample segment at one level.
pub open spec fn segment(n: int, high: bool, amp: int, ramp: int) -> Seq<u8> {
    Seq::new(n as nat, |i: int| sample_at(i, n, high, amp, ramp))
}

/// The biphase-mark cell of one bit, from signal level `high` and carried
/// remainder `rem`: a half bit lasts `unit / q` samples, the fraction being
/// carried to the next cell. A 0 is one level change and a whole bit at the
/// new level; a 1 changes level again at mid-bit. Gives the samples, the
/// remainder and the level after the cell.
pub open spec fn bit_wave(
    bit: bool,
    unit: int,
    q: int,
    amp: int,
    ramp: int,
    rem: int,
    high: bool,
) -> (Seq<u8>, int, bool) {
    if !bit {
        let n = (2 * unit + rem) / q;
        (segment(n, !high, amp, ramp), (2 * unit + rem) % q, !high)
    } else {
        let n1 = (unit + rem) / q;
        let r1 = (unit + rem) % q;
        let n2 = (unit + r1) / q;
        (
            segment(n1, !high, amp, ramp) + segment(n2, high, amp, ramp),
            (unit + r1) % q,
            high,
        )
    }
}

/// The biphase-mark signal of a bit sequence, cell after cell.
pub open spec fn wave(
    bits: Seq<bool>,
    unit: int,
    q: int,
    amp: int,
    ramp: int,
    rem: int,
    high: bool,
) -> (Seq<u8>, int, bool)
    decreases bits.len(),
{
    if bits.len() == 0 {
        (Seq::empty(), rem, high)
    } else {
        let p = wave(bits.drop_last(), unit, q, amp, ramp, rem, high);
        let b = bit_wave(bits.last(), unit, q, amp, ramp, p.1, p.2);
        (p.0 + b.0, b.1, b.2)
    }
}

/// The signal of a prefix of the bits is a prefix of the signal.
pub proof fn lemma_wave_prefix(
    bits: Seq<bool>,
    i: int,
    unit: int,
    q: int,
    amp: int,
    ramp: int,
    rem: int,
    high: bool,
)
    requires
        0 <= i <= bits.len(),
    ensures
        wave(bits.subrange(0, i), unit, q, amp, ramp, rem, high).0.len() <= wave(
            bits,
            unit,
            q,
            amp,
            ramp,
            rem,
            high,
        ).0.len(),
    decreases bits.len() - i,
{
    if i < bits.len() {
        lemma_wave_prefix(bits.drop_last(), i, unit, q, amp, ramp, rem, high);
        assert(bits.drop_last().subrange(0, i) =~= bits.subrange(0, i));
    } else {
        assert(bits.subrange(0, i) =~= bits);
    }
}

fn sample_value(i: usize, n: usize, high: bool, amp: u8, ramp: u64) -> (r: u8)
    requires
        i < n,
        amp <= 127,
    ensures
        r == sample_at(i as int, n as int, high, amp as int, ramp as int),
{
    let k: u64 = (if i <= n - 1 - i {
        i
    } else {
        n - 1 - i
    }) as u64 + 1;
    if ramp <= k {
        if high {
            128 + amp
        } else {
            128 - amp
        }
    } else {
        proof {
            assert(amp as int * k as int <= 127 * k as int) by (nonlinear_arith)
                requires
                    amp <= 127,
            ;
            assert(amp as int * k as int / ramp as int <= amp as int) by (nonlinear_arith)
                requires
                    k < ramp,
                    amp >= 0,
            ;
        }
        let step = (amp as u128 * k as u128 / ramp as u128) as u8;
        if high {
            128 + step
        } else {
            128 - step
        }
    }
}

/// Appends a segment.
fn push_segment(out: &mut Vec<u8>, n: usize, high: bool, amp: u8, ramp: u64)
    requires
        amp <= 127,
    ensures
        final(out)@ == old(out)@ + segment(n as int, high, amp as int, ramp as int),
{
    let ghost start = out@;
    let mut i: usize = 0;
    while i < n
        invariant
            i <= n,
            amp <= 127,
            out@ == start + Seq::new(
                i as nat,
                |j: int| sample_at(j, n as int, high, amp as int, ramp as int),
            ),
        decreases n - i,
    {
        let v = sample_value(i, n, high, amp, ramp);
        out.push(v);
        i = i + 1;
        assert(out@ =~= start + Seq::new(
            i as nat,
            |j: int| sample_at(j, n as int, high, amp as int, ramp as int),
        ));
    }
    assert(out@ =~= start + segment(n as int, high, amp as int, ramp as int));
}

/// Renders the biphase-mark signal of `bits` (see `wave`), or `None` when
/// it would take more than `limit` samples.
pub fn render(
    bits: &Vec<bool>,
    unit: u128,
    q: u128,
    amp: u8,
    ramp: u64,
    rem: u128,
    high: bool,
    limit: usize,
) -> (r: Option<(Vec<u8>, u128, bool)>)
    requires
        0 < q,
        rem < q,
        unit < WAVE_LIMIT,
        q < WAVE_LIMIT,
        amp <= 127,
    ensures
        match r {
            Some((v, r2, h2)) => {
                &&& (v@, r2 as int, h2) == wave(
                    bits@,
                    unit as int,
                    q as int,
                    amp as int,
                    ramp as int,
                    rem as int,
                    high,
                )
                &&& v@.len() <= limit
                &&& r2 < q
            },
            None => wave(
                bits@,
                unit as int,
                q as int,
                amp as int,
                ramp as int,
                rem as int,
                high,
            ).0.len() > limit,
        },
{
    let mut out: Vec<u8> = Vec::new();
    let mut r = rem;
    let mut h = high;
    let mut i: usize = 0;
    while i < bits.len()
        invariant
            0 < q < WAVE_LIMIT,
            unit < WAVE_LIMIT,
            r < q,
            amp <= 127,
            i <= bits.len(),
            out@.len() <= limit,
            (out@, r as int, h) == wave(
                bits@.subrange(0, i as int),
                unit as int,
                q as int,
                amp as int,
                ramp as int,
                rem as int,
                high,
            ),
        decreases bits.len() - i,
    {
        let ghost prev = bits@.subrange(0, i as int);
        let ghost next = bits@.subrange(0, i as int + 1);
        assert(next.drop_last() =~= prev);
        let bit = bits[i];
        if !bit {
            let total = 2 * unit + r;
            let n = total / q;
            if n > (limit - out.len()) as u128 {
                proof {
                    lemma_wave_prefix(
                        bits@,
                        i as int + 1,
                        unit as int,
                        q as int,
                        amp as int,
                        ramp as int,
                        rem as int,
                        high,
                    );
                }
                return None;
            }
            push_segment(&mut out, n as usize, !h, amp, ramp);
            r = total % q;
            h = !h;
        } else {
            let t1 = unit + r;
            let n1 = t1 / q;
            let r1 = t1 % q;
            let t2 = unit + r1;
            let n2 = t2 / q;
            if n1 > (limit - out.len()) as u128 || n2 > (limit - out.len()) as u128 - n1 {
                proof {
                    lemma_wave_prefix(
                        bits@,
                        i as int + 1,
                        unit as int,
                        q as int,
                        amp as int,
                        ramp as int,
                        rem as int,
                        high,
                    );
                }
                return None;
            }
            push_segment(&mut out, n1 as usize, !h, amp, ramp);
            push_segment(&mut out, n2 as usize, h, amp, ramp);
            r = t2 % q;
        }
        i = i + 1;
    }
    assert(bits@.subrange(0, bits.len() as int) =~= bits@);
    Some((out, r, h))
}

} // verus!
