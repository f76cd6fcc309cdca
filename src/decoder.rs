use std::collections::VecDeque;
use vstd::prelude::*;

use crate::bits::{field, lemma_fields, lemma_masks, put_field};
use crate::error::LTCDecoderError;
use crate::frame::{LTCFrame, SYNC_WORD};

verus! {

/// The last 16 bits read forwards: the sync word that closes a frame.
pub const SYNC_FORWARD: u16 = 0x3FFD;

/// The last 16 bits read when the signal plays backwards.
pub const SYNC_REVERSE: u16 = 0xBFFC;

/// Longest bit period, in sixteenths of a sample, that the decoder tracks.
pub const MAX_PERIOD: u64 = 0x100_0000_0000;

/// One decoded bit and the stretch of the sample stream it covered.
#[derive(Debug, Clone, Copy, PartialEq, Eq, Structural)]
pub struct BitCell {
    pub value: bool,
    /// Position of the level change that opened the bit.
    pub start: i64,
    /// Position of the level change that closed the bit.
    pub end: i64,
    /// Bit period, in whole samples, that the decoder expected for it.
    pub tic: u32,
}

/// A decoded frame with where it was found in the sample stream.
#[derive(Debug, Clone)]
pub struct LTCFrameExt {
    pub ltc: LTCFrame,
    /// Position where the frame's first bit began.
    pub off_start: i64,
    /// Position where the frame's last bit ended.
    pub off_end: i64,
    /// The frame was read from a signal playing backwards.
    pub reverse: bool,
    /// Expected bit period, in samples, at each of the 80 bits, in the order read.
    pub biphase_tics: Vec<u32>,
    /// Lowest and highest sample levels tracked when the frame was completed.
    pub sample_min: u8,
    pub sample_max: u8,
}

impl Default for LTCFrameExt {
    /// The zero frame at position 0, read forwards, with no bit timings.
    fn default() -> (r: Self)
        ensures
            r.ltc.data == 0,
            r.ltc.sync_word == SYNC_WORD,
            r.off_start == 0 && r.off_end == 0,
            !r.reverse,
            r.biphase_tics@.len() == 0,
            r.sample_min == 128 && r.sample_max == 128,
    {
        LTCFrameExt {
            ltc: LTCFrame::new(),
            off_start: 0,
            off_end: 0,
            reverse: false,
            biphase_tics: Vec::new(),
            sample_min: 128,
            sample_max: 128,
        }
    }
}

impl LTCFrameExt {
    pub fn ltc(&self) -> (r: LTCFrame)
        ensures
            r == self.ltc,
    {
        self.ltc
    }

    pub fn off_start(&self) -> (r: i64)
        ensures
            r == self.off_start,
    {
        self.off_start
    }

    pub fn set_off_start(&mut self, off_start: i64)
        ensures
            *final(self) == (LTCFrameExt { off_start, ..*old(self) }),
    {
        self.off_start = off_start;
    }

    pub fn off_end(&self) -> (r: i64)
        ensures
            r == self.off_end,
    {
        self.off_end
    }

    pub fn set_off_end(&mut self, off_end: i64)
        ensures
            *final(self) == (LTCFrameExt { off_end, ..*old(self) }),
    {
        self.off_end = off_end;
    }

    pub fn reverse(&self) -> (r: bool)
        ensures
            r == self.reverse,
    {
        self.reverse
    }

    pub fn set_reverse(&mut self, reverse: bool)
        ensures
            *final(self) == (LTCFrameExt { reverse, ..*old(self) }),
    {
        self.reverse = reverse;
    }

    pub fn biphase_tics(&self) -> (r: &Vec<u32>)
        ensures
            r@ == self.biphase_tics@,
    {
        &self.biphase_tics
    }

    pub fn set_biphase_tics(&mut self, biphase_tics: Vec<u32>)
        ensures
            *final(self) == (LTCFrameExt { biphase_tics, ..*old(self) }),
    {
        self.biphase_tics = biphase_tics;
    }

    pub fn sample_min(&self) -> (r: u8)
        ensures
            r == self.sample_min,
    {
        self.sample_min
    }

    pub fn set_sample_min(&mut self, sample_min: u8)
        ensures
            *final(self) == (LTCFrameExt { sample_min, ..*old(self) }),
    {
        self.sample_min = sample_min;
    }

    pub fn sample_max(&self) -> (r: u8)
        ensures
            r == self.sample_max,
    {
        self.sample_max
    }

    pub fn set_sample_max(&mut self, sample_max: u8)
        ensures
            *final(self) == (LTCFrameExt { sample_max, ..*old(self) }),
    {
        self.sample_max = sample_max;
    }
}

/// `x` is the frame that the 80 bits `c` carry: read forwards, bit `j`
/// of the data is `c[j]`; read backwards, the 64 data bits came last bit
/// first and bit `j` is `c[63 - j]`.
pub open spec fn frame_of_cells(c: Seq<BitCell>, reverse: bool, lo: u8, hi: u8, x: LTCFrameExt) -> bool {
    &&& c.len() == 80
    &&& x.ltc.sync_word == SYNC_WORD
    &&& forall|j: int|
        0 <= j < 64 ==> (#[trigger] field(x.ltc.data, j as u64, 1) == 1) == (if reverse {
            c[63 - j].value
        } else {
            c[j].value
        })
    &&& x.off_start == c[0].start
    &&& x.off_end == c[79].end
    &&& x.reverse == reverse
    &&& x.biphase_tics@ == Seq::new(80, |i: int| c[i].tic)
    &&& x.sample_min == lo
    &&& x.sample_max == hi
}

/// `x` is a frame that some 80 decoded bits carry (see `frame_of_cells`).
pub open spec fn decoded(x: LTCFrameExt) -> bool {
    exists|c: Seq<BitCell>, reverse: bool, lo: u8, hi: u8| #[trigger]
        frame_of_cells(c, reverse, lo, hi, x)
}

/// `q2` is `q` after queueing some decoded frames in turn.
pub open spec fn queued_from(q: Seq<LTCFrameExt>, q2: Seq<LTCFrameExt>, cap: nat) -> bool {
    exists|xs: Seq<LTCFrameExt>|
        #[trigger] push_all(q, xs, cap) == q2 && forall|i: int| 0 <= i < xs.len() ==> decoded(
            #[trigger] xs[i],
        )
}

/// `q2` is `q` after queueing some decoded frames in turn, each completed
/// at a position from `lo` up to, not including, `hi`, in increasing order;
/// when `ordered` holds, each frame also begins before it ends.
pub open spec fn queued_within(
    q: Seq<LTCFrameExt>,
    q2: Seq<LTCFrameExt>,
    cap: nat,
    lo: int,
    hi: int,
    ordered: bool,
) -> bool {
    exists|xs: Seq<LTCFrameExt>|
        #[trigger] push_all(q, xs, cap) == q2 && (forall|i: int|
            0 <= i < xs.len() ==> decoded(#[trigger] xs[i]) && lo <= xs[i].off_end < hi && (ordered
                ==> xs[i].off_start < xs[i].off_end)) && (forall|
            i: int,
            j: int,
        | 0 <= i < j < xs.len() ==> #[trigger] xs[i].off_end < #[trigger] xs[j].off_end)
}

/// `q` with `x` added at the back; when `q` already holds `cap` items, its
/// oldest one goes.
pub open spec fn push_evict<T>(q: Seq<T>, x: T, cap: nat) -> Seq<T> {
    if q.len() >= cap {
        q.drop_first().push(x)
    } else {
        q.push(x)
    }
}

/// `q` after `push_evict` of each item of `xs` in turn.
pub open spec fn push_all<T>(q: Seq<T>, xs: Seq<T>, cap: nat) -> Seq<T>
    decreases xs.len(),
{
    if xs.len() == 0 {
        q
    } else {
        push_evict(push_all(q, xs.drop_last(), cap), xs.last(), cap)
    }
}

/// A queue of capacity `cap` that was empty and took `xs`, with nothing
/// read in between, holds the last `min(cap, |xs|)` of them in order: its
/// length stops at `cap` and the older items are gone.
pub proof fn lemma_queue_keeps_latest<T>(xs: Seq<T>, cap: nat)
    requires
        cap >= 1,
    ensures
        push_all(Seq::<T>::empty(), xs, cap) == xs.subrange(
            if xs.len() > cap {
                xs.len() - cap
            } else {
                0
            },
            xs.len() as int,
        ),
        push_all(Seq::<T>::empty(), xs, cap).len() == if xs.len() > cap {
            cap
        } else {
            xs.len()
        },
    decreases xs.len(),
{
    if xs.len() > 0 {
        let p = xs.drop_last();
        lemma_queue_keeps_latest(p, cap);
        let n = xs.len() as int;
        if p.len() >= cap {
            assert(p.subrange(n - 1 - cap, n - 1).drop_first().push(xs.last()) =~= xs.subrange(
                n - cap,
                n,
            ));
        } else {
            assert(p.subrange(0, n - 1).push(xs.last()) =~= xs.subrange(0, n));
        }
    } else {
        assert(xs.subrange(0, 0) =~= Seq::<T>::empty());
    }
}

proof fn lemma_push_all_one_more<T>(q: Seq<T>, xs: Seq<T>, x: T, cap: nat)
    ensures
        push_all(q, xs.push(x), cap) == push_evict(push_all(q, xs, cap), x, cap),
{
    assert(xs.push(x).drop_last() =~= xs);
}

proof fn lemma_push_all_concat<T>(q: Seq<T>, xs: Seq<T>, ys: Seq<T>, cap: nat)
    ensures
        push_all(push_all(q, xs, cap), ys, cap) == push_all(q, xs + ys, cap),
    decreases ys.len(),
{
    if ys.len() == 0 {
        assert(xs + ys =~= xs);
    } else {
        lemma_push_all_concat(q, xs, ys.drop_last(), cap);
        assert((xs + ys).drop_last() =~= xs + ys.drop_last());
        assert((xs + ys).last() == ys.last());
    }
}

/// Queueing decoded frames in two runs is queueing them in one.
pub proof fn lemma_queued_from_trans(
    q0: Seq<LTCFrameExt>,
    q1: Seq<LTCFrameExt>,
    q2: Seq<LTCFrameExt>,
    cap: nat,
)
    requires
        queued_from(q0, q1, cap),
        queued_from(q1, q2, cap),
    ensures
        queued_from(q0, q2, cap),
{
    let xs = choose|xs: Seq<LTCFrameExt>|
        #[trigger] push_all(q0, xs, cap) == q1 && forall|i: int|
            0 <= i < xs.len() ==> decoded(#[trigger] xs[i]);
    let ys = choose|ys: Seq<LTCFrameExt>|
        #[trigger] push_all(q1, ys, cap) == q2 && forall|i: int|
            0 <= i < ys.len() ==> decoded(#[trigger] ys[i]);
    lemma_push_all_concat(q0, xs, ys, cap);
    assert forall|i: int| 0 <= i < (xs + ys).len() implies decoded(#[trigger] (xs + ys)[i]) by {
        if i < xs.len() {
            assert((xs + ys)[i] == xs[i]);
        } else {
            assert((xs + ys)[i] == ys[i - xs.len()]);
        }
    }
    assert(push_all(q0, xs + ys, cap) == q2);
}

/// A decoder whose queue was empty, and that was written to without any
/// read, holds the most recent of the frames it decoded, oldest first, and
/// at most as many as its capacity; the older ones are gone.
pub proof fn lemma_queue_holds_latest(q: Seq<LTCFrameExt>, cap: nat)
    requires
        cap >= 1,
        queued_from(Seq::empty(), q, cap),
    ensures
        q.len() <= cap,
        exists|xs: Seq<LTCFrameExt>|
            (forall|i: int| 0 <= i < xs.len() ==> decoded(#[trigger] xs[i])) && q == xs.subrange(
                if xs.len() > cap {
                    xs.len() - cap
                } else {
                    0
                },
                xs.len() as int,
            ) && (xs.len() > cap ==> q.len() == cap),
{
    let xs = choose|xs: Seq<LTCFrameExt>|
        #[trigger] push_all(Seq::empty(), xs, cap) == q && forall|i: int|
            0 <= i < xs.len() ==> decoded(#[trigger] xs[i]);
    lemma_queue_keeps_latest(xs, cap);
}

/// The sync register after bit `b`: shifted up one place, `b` at the bottom.
pub open spec fn shifted(sync: u16, b: bool) -> u16 {
    ((sync % 32768) * 2 + if b {
        1int
    } else {
        0int
    }) as u16
}

/// The bits kept towards the next frame after `cell`: the last 80.
pub open spec fn kept(c: Seq<BitCell>, cell: BitCell) -> Seq<BitCell> {
    if c.len() >= 80 {
        c.drop_first().push(cell)
    } else {
        c.push(cell)
    }
}

/// Bit-level state of a decoder: bits kept, sync register and queued frames.
pub type BitState = (Seq<BitCell>, u16, Seq<LTCFrameExt>);

/// `s2` is `s` after bit `cell`, with `lo` and `hi` the tracked extremes and
/// `cap` the queue's capacity. The bit enters the sync register and the last
/// 80 bits are kept; when the register then holds the sync word, read
/// forwards or backwards, the kept bits, if there are 80, are queued as a
/// frame (see `frame_of_cells`), and reading starts afresh.
pub open spec fn bit_step(s: BitState, cell: BitCell, lo: u8, hi: u8, cap: nat, s2: BitState) -> bool {
    let k = kept(s.0, cell);
    let sync = shifted(s.1, cell.value);
    &&& s2.1 == sync
    &&& if sync == SYNC_FORWARD || sync == SYNC_REVERSE {
        &&& s2.0.len() == 0
        &&& k.len() == 80 ==> s2.2 == push_evict(s.2, s2.2.last(), cap) && frame_of_cells(
            k,
            sync == SYNC_REVERSE,
            lo,
            hi,
            s2.2.last(),
        )
        &&& k.len() < 80 ==> s2.2 == s.2
    } else {
        &&& s2.0 == k
        &&& s2.2 == s.2
    }
}

/// `states` runs from `s0` through the bits of `cells` in turn: each state
/// is the one before it after one bit (see `bit_step`).
pub open spec fn bit_chain(
    s0: BitState,
    cells: Seq<(BitCell, u8, u8)>,
    cap: nat,
    states: Seq<BitState>,
) -> bool {
    &&& states.len() == cells.len() + 1
    &&& states[0] == s0
    &&& forall|i: int|
        0 <= i < cells.len() ==> bit_step(
            #[trigger] states[i],
            cells[i].0,
            cells[i].1,
            cells[i].2,
            cap,
            states[i + 1],
        )
}

/// `s` is `s0` after the bits of `cells` in turn, each with the extremes
/// tracked when it was completed.
pub open spec fn feeds(s0: BitState, cells: Seq<(BitCell, u8, u8)>, cap: nat, s: BitState) -> bool {
    exists|states: Seq<BitState>| #[trigger]
        bit_chain(s0, cells, cap, states) && states.last() == s
}

/// Sample-level state of a decoder.
#[derive(Debug, Clone, Copy, PartialEq, Eq, Structural)]
pub struct Detector {
    /// Lowest and highest levels tracked; both decay towards the centre.
    pub smin: u8,
    pub smax: u8,
    /// Level of the signal since the last level change.
    pub level_high: bool,
    /// A level change has been seen.
    pub seen_edge: bool,
    /// Position of the last level change.
    pub last_edge: i64,
    /// Samples since the last level change.
    pub count: u64,
    /// Expected bit period in sixteenths of a sample.
    pub period: u64,
    /// Half of a 1 was read and waits for its second half.
    pub half_pending: bool,
    /// Where that half began.
    pub half_start: i64,
}

pub open spec fn detector_ok(d: Detector) -> bool {
    &&& d.smin <= 128 <= d.smax
    &&& 16 <= d.period <= MAX_PERIOD
    &&& d.count <= u32::MAX
}

/// A detector that has seen no sample, expecting bits of `apv / 80`
/// samples (at least one).
pub open spec fn initial_detector(apv: i32) -> Detector {
    Detector {
        smin: 128,
        smax: 128,
        level_high: false,
        seen_edge: false,
        last_edge: 0,
        count: 0,
        period: if apv <= 80 {
            16
        } else {
            (apv / 5) as u64
        },
        half_pending: false,
        half_start: 0,
    }
}

/// The stretch between two level changes, `n` samples from `start` to
/// `end`, as bits. Over four periods it is a gap that drops a pending
/// half bit. Over three quarters of a period it is a 0. Shorter it is half
/// of a 1, which is complete with the next such half. The period estimate
/// moves a quarter of the way towards what the stretch shows.
pub open spec fn interval_step(d: Detector, n: u64, start: i64, end: i64) -> (Detector, Option<BitCell>) {
    let p = d.period;
    if 16 * n > 4 * p {
        (Detector { half_pending: false, ..d }, None)
    } else {
        let tic = if p / 16 > u32::MAX {
            u32::MAX
        } else {
            (p / 16) as u32
        };
        let long = 64 * n > 3 * p;
        let np = if long {
            (3 * p + 16 * n) / 4
        } else {
            (3 * p + 32 * n) / 4
        };
        let np2 = (if np < 16 {
            16
        } else if np > MAX_PERIOD {
            MAX_PERIOD as int
        } else {
            np
        }) as u64;
        if long {
            (
                Detector { half_pending: false, period: np2, ..d },
                Some(BitCell { value: false, start, end, tic }),
            )
        } else if d.half_pending {
            (
                Detector { half_pending: false, period: np2, ..d },
                Some(BitCell { value: true, start: d.half_start, end, tic }),
            )
        } else {
            (Detector { half_pending: true, half_start: start, period: np2, ..d }, None)
        }
    }
}

/// With the period estimate at the length of a bit of `2 * h` samples, the
/// stretches of a biphase-mark cell read back as the bit that made them: a
/// whole bit as a 0, two half bits as a 1. The estimate stays where it is.
pub proof fn lemma_matched_period_reads_bits(d: Detector, h: u64, start: i64, mid: i64, end: i64)
    requires
        detector_ok(d),
        1 <= h <= u32::MAX / 2,
        d.period == 32 * h,
    ensures
        interval_step(d, (2 * h) as u64, start, end) == (
            Detector { half_pending: false, ..d },
            Some(BitCell { value: false, start, end, tic: (2 * h) as u32 }),
        ),
        !d.half_pending ==> interval_step(d, h, start, mid) == (
            Detector { half_pending: true, half_start: start, ..d },
            None::<BitCell>,
        ),
        !d.half_pending ==> interval_step(
            Detector { half_pending: true, half_start: start, ..d },
            h,
            mid,
            end,
        ) == (
            Detector { half_pending: false, half_start: start, ..d },
            Some(BitCell { value: true, start, end, tic: (2 * h) as u32 }),
        ),
{
}

/// One sample `v` at position `pos`. The extremes decay by a sixteenth
/// towards the centre and take in `v`. A level change is a sample beyond
/// half way to the opposite extreme; it closes the stretch since the
/// previous change (see `interval_step`).
pub open spec fn sample_step(d: Detector, v: u8, pos: i64) -> (Detector, Option<BitCell>) {
    let smin1 = 128 - ((128 - d.smin) * 15) / 16;
    let smax1 = 128 + ((d.smax - 128) * 15) / 16;
    let smin2 = (if v < smin1 {
        v as int
    } else {
        smin1
    }) as u8;
    let smax2 = (if v > smax1 {
        v as int
    } else {
        smax1
    }) as u8;
    let lo = 128 - (128 - smin2) / 2;
    let hi = 128 + (smax2 - 128) / 2;
    let crossing = if d.level_high {
        v < lo
    } else {
        v > hi
    };
    let d1 = Detector { smin: smin2, smax: smax2, ..d };
    let (d2, bit) = if crossing {
        let (di, b) = if d.seen_edge {
            interval_step(d1, d.count, d.last_edge, pos)
        } else {
            (d1, None)
        };
        (Detector { level_high: !d.level_high, seen_edge: true, last_edge: pos, count: 0, ..di }, b)
    } else {
        (d1, None)
    };
    (
        Detector {
            count: if d2.count < u32::MAX {
                (d2.count + 1) as u64
            } else {
                d2.count
            },
            ..d2
        },
        bit,
    )
}

/// The tracked extremes lie within `a` of the centre.
pub open spec fn within_amplitude(d: Detector, a: int) -> bool {
    128 - a <= d.smin && d.smax <= 128 + a
}

/// On a square wave of amplitude `a` whose extremes the detector tracks,
/// a sample at the level the signal already has is no level change, and
/// the first sample at the other level is one: it closes the stretch since
/// the previous change (see `interval_step`) and opens a new one.
pub proof fn lemma_square_wave_edges(d: Detector, a: int, v: u8, pos: i64)
    requires
        detector_ok(d),
        1 <= a <= 127,
        within_amplitude(d, a),
        v == 128 + a || v == 128 - a,
    ensures
        within_amplitude(sample_step(d, v, pos).0, a),
        detector_ok(sample_step(d, v, pos).0),
        (v > 128) == d.level_high ==> ({
            let r = sample_step(d, v, pos);
            &&& r.1 is None
            &&& r.0.level_high == d.level_high
            &&& r.0.last_edge == d.last_edge
            &&& r.0.seen_edge == d.seen_edge
            &&& r.0.count == if d.count < u32::MAX {
                d.count + 1
            } else {
                d.count as int
            }
            &&& r.0.period == d.period
            &&& r.0.half_pending == d.half_pending
            &&& r.0.half_start == d.half_start
        }),
        (v > 128) != d.level_high ==> ({
            let r = sample_step(d, v, pos);
            &&& r.0.level_high == (v > 128)
            &&& r.0.seen_edge
            &&& r.0.last_edge == pos
            &&& r.0.count == 1
            &&& d.seen_edge ==> {
                let i = interval_step(
                    Detector { smin: r.0.smin, smax: r.0.smax, ..d },
                    d.count,
                    d.last_edge,
                    pos,
                );
                r.1 == i.1 && r.0.period == i.0.period && r.0.half_pending == i.0.half_pending
                    && r.0.half_start == i.0.half_start
            }
            &&& !d.seen_edge ==> r.1 is None && r.0.period == d.period
        }),
{
}

/// Positions in a detector are consistent up to `p`: the last level
/// change, and a pending half bit, lie before `p`.
pub open spec fn detector_before(d: Detector, p: int) -> bool {
    &&& d.seen_edge ==> d.last_edge < p
    &&& d.half_pending ==> d.seen_edge && d.half_start <= d.last_edge
}

proof fn lemma_step_positions(d: Detector, v: u8, pos: i64)
    requires
        detector_ok(d),
        detector_before(d, pos as int),
    ensures
        detector_before(sample_step(d, v, pos).0, pos + 1),
        d.seen_edge ==> sample_step(d, v, pos).0.seen_edge && d.last_edge <= sample_step(
            d,
            v,
            pos,
        ).0.last_edge,
        sample_step(d, v, pos).1 matches Some(c) ==> c.end == pos && c.start <= d.last_edge
            && d.seen_edge && sample_step(d, v, pos).0.last_edge == pos,
{
}

/// Bits in stream order, each beginning before it ends, all ending by `last`.
pub open spec fn cells_ordered(cs: Seq<BitCell>, last: int) -> bool {
    &&& forall|i: int| 0 <= i < cs.len() ==> #[trigger] cs[i].end <= last
    &&& forall|i: int, j: int|
        0 <= i <= j < cs.len() ==> #[trigger] cs[i].start < #[trigger] cs[j].end
}

proof fn lemma_kept_ordered(cs: Seq<BitCell>, c: BitCell, last: int)
    requires
        cells_ordered(cs, last),
        last < c.end,
        c.start < c.end,
    ensures
        cells_ordered(kept(cs, c), c.end as int),
{
    let base = if cs.len() >= 80 {
        cs.drop_first()
    } else {
        cs
    };
    let k = base.push(c);
    assert(k == kept(cs, c));
    assert forall|i: int| 0 <= i < base.len() implies #[trigger] base[i].end <= last
        && base[i].start < base[i].end by {
        if cs.len() >= 80 {
            assert(base[i] == cs[i + 1]);
        }
    }
    assert forall|i: int, j: int| 0 <= i <= j < base.len() implies #[trigger] base[i].start
        < #[trigger] base[j].end by {
        if cs.len() >= 80 {
            assert(base[i] == cs[i + 1] && base[j] == cs[j + 1]);
        }
    }
    assert forall|i: int| 0 <= i < k.len() implies #[trigger] k[i].end <= c.end by {
        if i < base.len() {
            assert(k[i] == base[i]);
        }
    }
    assert forall|i: int, j: int| 0 <= i <= j < k.len() implies #[trigger] k[i].start
        < #[trigger] k[j].end by {
        if j < base.len() {
            assert(k[i] == base[i] && k[j] == base[j]);
        } else if i < base.len() {
            assert(k[i] == base[i] && k[j] == c);
            assert(base[i].end <= last && base[i].start < base[i].end);
        }
    }
}

/// The samples `vs`, the first at position `posinfo`, one after another:
/// the state after them and the bits completed, each with the extremes
/// tracked at its completion.
pub open spec fn run_samples(d: Detector, vs: Seq<u8>, posinfo: int) -> (Detector, Seq<(BitCell, u8, u8)>)
    decreases vs.len(),
{
    if vs.len() == 0 {
        (d, Seq::empty())
    } else {
        let p = run_samples(d, vs.drop_last(), posinfo);
        let r = sample_step(p.0, vs.last(), (posinfo + vs.len() - 1) as i64);
        (
            r.0,
            match r.1 {
                Some(c) => p.1.push((c, r.0.smin, r.0.smax)),
                None => p.1,
            },
        )
    }
}

proof fn lemma_feeds_start(s0: BitState, cap: nat)
    ensures
        feeds(s0, Seq::empty(), cap, s0),
{
    assert(bit_chain(s0, Seq::empty(), cap, seq![s0]));
}

proof fn lemma_feeds_step(
    s0: BitState,
    fed: Seq<(BitCell, u8, u8)>,
    cap: nat,
    mid: BitState,
    e: (BitCell, u8, u8),
    s: BitState,
)
    requires
        feeds(s0, fed, cap, mid),
        bit_step(mid, e.0, e.1, e.2, cap, s),
    ensures
        feeds(s0, fed.push(e), cap, s),
{
    let states = choose|states: Seq<BitState>| #[trigger]
        bit_chain(s0, fed, cap, states) && states.last() == mid;
    let st2 = states.push(s);
    let cells = fed.push(e);
    assert forall|i: int| 0 <= i < cells.len() implies bit_step(
        #[trigger] st2[i],
        cells[i].0,
        cells[i].1,
        cells[i].2,
        cap,
        st2[i + 1],
    ) by {
        if i < fed.len() {
            assert(st2[i] == states[i] && st2[i + 1] == states[i + 1] && cells[i] == fed[i]);
        } else {
            assert(st2[i] == mid && st2[i + 1] == s && cells[i] == e);
        }
    }
    assert(bit_chain(s0, cells, cap, st2));
}

proof fn lemma_run_step(d0: Detector, vs: Seq<u8>, i: int, posinfo: int)
    requires
        0 <= i < vs.len(),
    ensures
        ({
            let p = run_samples(d0, vs.subrange(0, i), posinfo);
            let r = sample_step(p.0, vs[i], (posinfo + i) as i64);
            run_samples(d0, vs.subrange(0, i + 1), posinfo) == (
                r.0,
                match r.1 {
                    Some(c) => p.1.push((c, r.0.smin, r.0.smax)),
                    None => p.1,
                },
            )
        }),
{
    assert(vs.subrange(0, i + 1).drop_last() =~= vs.subrange(0, i));
}

fn interval_step_exec(d: Detector, n: u64, start: i64, end: i64) -> (r: (Detector, Option<BitCell>))
    requires
        detector_ok(d),
        n <= u32::MAX,
    ensures
        r == interval_step(d, n, start, end),
        detector_ok(r.0),
{
    let p = d.period;
    if 16 * n > 4 * p {
        return (Detector { half_pending: false, ..d }, None);
    }
    let tic: u32 = if p / 16 > u32::MAX as u64 {
        u32::MAX
    } else {
        (p / 16) as u32
    };
    let long = 64 * n > 3 * p;
    let np = if long {
        (3 * p + 16 * n) / 4
    } else {
        (3 * p + 32 * n) / 4
    };
    let np2 = if np < 16 {
        16
    } else if np > MAX_PERIOD {
        MAX_PERIOD
    } else {
        np
    };
    if long {
        (Detector { half_pending: false, period: np2, ..d }, Some(BitCell { value: false, start, end, tic }))
    } else if d.half_pending {
        (
            Detector { half_pending: false, period: np2, ..d },
            Some(BitCell { value: true, start: d.half_start, end, tic }),
        )
    } else {
        (Detector { half_pending: true, half_start: start, period: np2, ..d }, None)
    }
}

/// Computes `sample_step`.
pub fn detector_step(d: Detector, v: u8, pos: i64) -> (r: (Detector, Option<BitCell>))
    requires
        detector_ok(d),
    ensures
        r == sample_step(d, v, pos),
        detector_ok(r.0),
{
    let smin1 = (128 - ((128 - d.smin as u32) * 15) / 16) as u8;
    let smax1 = (128 + ((d.smax as u32 - 128) * 15) / 16) as u8;
    let smin2 = if v < smin1 {
        v
    } else {
        smin1
    };
    let smax2 = if v > smax1 {
        v
    } else {
        smax1
    };
    let lo = 128 - (128 - smin2) / 2;
    let hi = 128 + (smax2 - 128) / 2;
    let crossing = if d.level_high {
        v < lo
    } else {
        v > hi
    };
    let d1 = Detector { smin: smin2, smax: smax2, ..d };
    let (d2, bit) = if crossing {
        let (di, b) = if d.seen_edge {
            interval_step_exec(d1, d.count, d.last_edge, pos)
        } else {
            (d1, None)
        };
        (Detector { level_high: !d.level_high, seen_edge: true, last_edge: pos, count: 0, ..di }, b)
    } else {
        (d1, None)
    };
    let count = if d2.count < u32::MAX as u64 {
        d2.count + 1
    } else {
        d2.count
    };
    (Detector { count, ..d2 }, bit)
}

/// Recovers LTC frames from sample blocks and queues them for reading.
#[derive(Debug)]
pub struct LTCDecoder {
    queue: VecDeque<LTCFrameExt>,
    queue_size: usize,
    cells: Vec<BitCell>,
    sync: u16,
    det: Detector,
}

impl LTCDecoder {
    pub closed spec fn wf(&self) -> bool {
        &&& 1 <= self.queue_size <= i32::MAX
        &&& self.queue@.len() <= self.queue_size
        &&& self.cells@.len() <= 80
        &&& detector_ok(self.det)
    }

    /// The sample-level state.
    pub closed spec fn detector(&self) -> Detector {
        self.det
    }

    /// The sample-level state agrees.
    pub open spec fn same_detector(&self, other: &Self) -> bool {
        self.detector() == other.detector()
    }

    /// The bit-level state: bits kept, sync register and queue.
    pub open spec fn bit_state(&self) -> BitState {
        (self.cells(), self.sync_register(), self.frames())
    }

    /// Every position the decoder has taken in lies before `p`, and the
    /// bits it keeps are in stream order, each beginning before it ends.
    /// A fresh decoder has it for every `p`; `write` keeps it when the next
    /// block starts at or after `p`.
    pub closed spec fn positions_ok(&self, p: int) -> bool {
        &&& detector_before(self.det, p)
        &&& !self.det.seen_edge ==> self.cells@.len() == 0
        &&& cells_ordered(self.cells@, self.det.last_edge as int)
    }

    /// Frames waiting to be read, oldest first.
    pub closed spec fn frames(&self) -> Seq<LTCFrameExt> {
        self.queue@
    }

    /// Most frames that wait to be read.
    pub closed spec fn capacity(&self) -> nat {
        self.queue_size as nat
    }

    /// Bits read since the last sync word, at most the last 80.
    pub closed spec fn cells(&self) -> Seq<BitCell> {
        self.cells@
    }

    /// The last 16 bits read, the newest lowest.
    pub closed spec fn sync_register(&self) -> u16 {
        self.sync
    }

    pub open spec fn spec_sample_min(&self) -> u8 {
        self.detector().smin
    }

    pub open spec fn spec_sample_max(&self) -> u8 {
        self.detector().smax
    }

    /// A decoder whose queue holds up to `queue_size` frames, tuned to
    /// `apv` samples per frame. Fails when `queue_size` is not positive.
    pub fn try_new(apv: i32, queue_size: i32) -> (r: Result<Self, LTCDecoderError>)
        ensures
            queue_size > 0 <==> r is Ok,
            r is Err ==> r == Err::<Self, LTCDecoderError>(LTCDecoderError::CreateError),
            r matches Ok(d) ==> {
                &&& d.wf()
                &&& d.capacity() == queue_size
                &&& d.frames().len() == 0
                &&& d.cells().len() == 0
                &&& d.sync_register() == 0
                &&& d.detector() == initial_detector(apv)
                &&& forall|p: int| #[trigger] d.positions_ok(p)
            },
    {
        if queue_size <= 0 {
            return Err(LTCDecoderError::CreateError);
        }
        let period: u64 = if apv <= 80 {
            16
        } else {
            apv as u64 / 5
        };
        Ok(LTCDecoder {
            queue: VecDeque::new(),
            queue_size: queue_size as usize,
            cells: Vec::new(),
            sync: 0,
            det: Detector {
                smin: 128,
                smax: 128,
                level_high: false,
                seen_edge: false,
                last_edge: 0,
                count: 0,
                period,
                half_pending: false,
                half_start: 0,
            },
        })
    }

    fn enqueue(&mut self, x: LTCFrameExt)
        requires
            old(self).wf(),
        ensures
            final(self).wf(),
            final(self).frames() == push_evict(old(self).frames(), x, old(self).capacity()),
            final(self).cells() == old(self).cells(),
            final(self).sync_register() == old(self).sync_register(),
            final(self).capacity() == old(self).capacity(),
            final(self).same_detector(old(self)),
    {
        if self.queue.len() >= self.queue_size {
            let _ = self.queue.pop_front();
        }
        self.queue.push_back(x);
    }

    fn build_frame(&self, reverse: bool) -> (x: LTCFrameExt)
        requires
            self.cells@.len() == 80,
        ensures
            frame_of_cells(self.cells@, reverse, self.det.smin, self.det.smax, x),
    {
        proof {
            lemma_fields();
            lemma_masks();
        }
        let mut d: u64 = 0;
        let mut j: u64 = 0;
        while j < 64
            invariant
                j <= 64,
                self.cells@.len() == 80,
                forall|i: int|
                    0 <= i < j ==> (#[trigger] field(d, i as u64, 1) == 1) == (if reverse {
                        self.cells@[63 - i].value
                    } else {
                        self.cells@[i].value
                    }),
                forall|i: int| j <= i < 64 ==> #[trigger] field(d, i as u64, 1) == 0,
            decreases 64 - j,
        {
            let b = if reverse {
                self.cells[(63 - j) as usize].value
            } else {
                self.cells[j as usize].value
            };
            let v: u64 = if b {
                1
            } else {
                0
            };
            let ghost old_d = d;
            d = put_field(d, j, 1, v);
            proof {
                lemma_fields();
                lemma_masks();
                assert forall|i: int| 0 <= i < 64 && i != j implies #[trigger] field(d, i as u64, 1)
                    == field(old_d, i as u64, 1) by {}
                assert(field(d, j, 1) == v);
            }
            j = j + 1;
        }
        let mut tics: Vec<u32> = Vec::new();
        let mut k: usize = 0;
        while k < 80
            invariant
                k <= 80,
                self.cells@.len() == 80,
                tics@.len() == k,
                forall|i: int| 0 <= i < k ==> tics@[i] == self.cells@[i].tic,
            decreases 80 - k,
        {
            tics.push(self.cells[k].tic);
            k = k + 1;
        }
        assert(tics@ =~= Seq::new(80, |i: int| self.cells@[i].tic));
        LTCFrameExt {
            ltc: LTCFrame { data: d, sync_word: SYNC_WORD },
            off_start: self.cells[0].start,
            off_end: self.cells[79].end,
            reverse,
            biphase_tics: tics,
            sample_min: self.det.smin,
            sample_max: self.det.smax,
        }
    }

    /// Takes one decoded bit. The bit enters the sync register and the
    /// last 80 bits are kept; when the register holds the sync word, read
    /// forwards or backwards, the kept bits, if there are 80, are queued as
    /// a frame, and reading starts afresh.
    pub fn push_bit(&mut self, cell: BitCell)
        requires
            old(self).wf(),
        ensures
            final(self).wf(),
            final(self).capacity() == old(self).capacity(),
            final(self).sync_register() == shifted(old(self).sync_register(), cell.value),
            final(self).same_detector(old(self)),
            final(self).frames() == old(self).frames() || (final(self).frames() == push_evict(
                old(self).frames(),
                final(self).frames().last(),
                old(self).capacity(),
            ) && decoded(final(self).frames().last()) && final(self).frames().last().off_end
                == cell.end),
            bit_step(
                old(self).bit_state(),
                cell,
                old(self).spec_sample_min(),
                old(self).spec_sample_max(),
                old(self).capacity(),
                final(self).bit_state(),
            ),
    {
        let b: u16 = if cell.value {
            1
        } else {
            0
        };
        self.sync = (self.sync % 32768) * 2 + b;
        if self.cells.len() >= 80 {
            let _ = self.cells.remove(0);
        }
        self.cells.push(cell);
        let ghost k = self.cells@;
        assert(k =~= kept(old(self).cells@, cell));
        if self.sync == SYNC_FORWARD || self.sync == SYNC_REVERSE {
            if self.cells.len() == 80 {
                let x = self.build_frame(self.sync == SYNC_REVERSE);
                self.enqueue(x);
                assert(frame_of_cells(k, self.sync == SYNC_REVERSE, self.det.smin, self.det.smax, x));
            }
            self.cells.clear();
        }
    }

    /// Takes one sample at position `pos` (see `sample_step`), handing a
    /// completed bit on to `push_bit`.
    fn on_sample(&mut self, v: u8, pos: i64) -> (emitted: Ghost<Option<(BitCell, u8, u8)>>)
        requires
            old(self).wf(),
        ensures
            final(self).wf(),
            final(self).capacity() == old(self).capacity(),
            final(self).detector() == sample_step(old(self).detector(), v, pos).0,
            match sample_step(old(self).detector(), v, pos).1 {
                Some(c) => emitted@ == Some(
                    (c, final(self).spec_sample_min(), final(self).spec_sample_max()),
                ) && bit_step(
                    old(self).bit_state(),
                    c,
                    final(self).spec_sample_min(),
                    final(self).spec_sample_max(),
                    old(self).capacity(),
                    final(self).bit_state(),
                ),
                None => emitted@ is None && final(self).bit_state() == old(self).bit_state(),
            },
            final(self).frames() == old(self).frames() || (final(self).frames() == push_evict(
                old(self).frames(),
                final(self).frames().last(),
                old(self).capacity(),
            ) && decoded(final(self).frames().last()) && final(self).frames().last().off_end
                == pos),
            old(self).positions_ok(pos as int) ==> final(self).positions_ok(pos + 1),
            old(self).positions_ok(pos as int) && final(self).frames() != old(self).frames()
                ==> final(self).frames().last().off_start < final(self).frames().last().off_end,
    {
        let ghost old_cells = self.cells@;
        let ghost old_det = self.det;
        proof {
            if self.positions_ok(pos as int) {
                lemma_step_positions(self.det, v, pos);
            }
        }
        let (d, bit) = detector_step(self.det, v, pos);
        self.det = d;
        match bit {
            Some(c) => {
                self.push_bit(c);
                proof {
                    if old(self).positions_ok(pos as int) {
                        lemma_kept_ordered(old_cells, c, old_det.last_edge as int);
                        let k = kept(old_cells, c);
                        if self.frames() != old(self).frames() {
                            assert(k.len() == 80);
                            assert(k[0].start < k[79].end);
                        }
                    }
                }
                Ghost(Some((c, d.smin, d.smax)))
            },
            None => Ghost(None),
        }
    }

    /// Decodes a block of unsigned 8-bit samples whose first sample sits at
    /// position `posinfo` of the stream. Completed frames join the queue;
    /// when it is full the oldest frame goes.
    pub fn write(&mut self, buf: &[u8], posinfo: i64)
        requires
            old(self).wf(),
            posinfo + buf@.len() <= i64::MAX,
        ensures
            final(self).wf(),
            final(self).capacity() == old(self).capacity(),
            queued_from(old(self).frames(), final(self).frames(), old(self).capacity()),
            queued_within(
                old(self).frames(),
                final(self).frames(),
                old(self).capacity(),
                posinfo as int,
                posinfo + buf@.len(),
                old(self).positions_ok(posinfo as int),
            ),
            old(self).positions_ok(posinfo as int) ==> final(self).positions_ok(
                posinfo + buf@.len(),
            ),
            final(self).detector() == run_samples(old(self).detector(), buf@, posinfo as int).0,
            feeds(
                old(self).bit_state(),
                run_samples(old(self).detector(), buf@, posinfo as int).1,
                old(self).capacity(),
                final(self).bit_state(),
            ),
    {
        let ghost vs = buf@;
        let ghost fed: Seq<(BitCell, u8, u8)> = Seq::empty();
        assert(vs.subrange(0, 0) =~= Seq::<u8>::empty());
        proof {
            lemma_feeds_start(self.bit_state(), self.capacity());
        }
        let ghost pushed: Seq<LTCFrameExt> = Seq::empty();
        let mut i: usize = 0;
        while i < buf.len()
            invariant
                self.wf(),
                self.capacity() == old(self).capacity(),
                i <= buf@.len(),
                posinfo + buf@.len() <= i64::MAX,
                push_all(old(self).frames(), pushed, old(self).capacity()) == self.frames(),
                forall|j: int| 0 <= j < pushed.len() ==> decoded(#[trigger] pushed[j]),
                forall|j: int|
                    0 <= j < pushed.len() ==> posinfo <= #[trigger] pushed[j].off_end < posinfo + i,
                forall|j: int, k: int|
                    0 <= j < k < pushed.len() ==> #[trigger] pushed[j].off_end
                        < #[trigger] pushed[k].off_end,
                old(self).positions_ok(posinfo as int) ==> self.positions_ok(posinfo + i),
                old(self).positions_ok(posinfo as int) ==> forall|j: int|
                    0 <= j < pushed.len() ==> #[trigger] pushed[j].off_start < pushed[j].off_end,
                vs == buf@,
                run_samples(old(self).detector(), vs.subrange(0, i as int), posinfo as int) == (
                    self.detector(),
                    fed,
                ),
                feeds(old(self).bit_state(), fed, old(self).capacity(), self.bit_state()),
            decreases buf@.len() - i,
        {
            let ghost before = self.frames();
            let ghost state_before = self.bit_state();
            let emitted = self.on_sample(buf[i], (posinfo as i128 + i as i128) as i64);
            proof {
                lemma_run_step(old(self).detector(), vs, i as int, posinfo as int);
                if let Some(e) = emitted@ {
                    lemma_feeds_step(
                        old(self).bit_state(),
                        fed,
                        old(self).capacity(),
                        state_before,
                        e,
                        self.bit_state(),
                    );
                    fed = fed.push(e);
                }
                if self.frames() != before {
                    lemma_push_all_one_more(
                        old(self).frames(),
                        pushed,
                        self.frames().last(),
                        old(self).capacity(),
                    );
                    pushed = pushed.push(self.frames().last());
                }
            }
            i = i + 1;
        }
        assert(push_all(old(self).frames(), pushed, old(self).capacity()) == self.frames());
        assert(vs.subrange(0, buf@.len() as int) =~= vs);
    }

    /// Decodes a block of signed 16-bit samples, each read as the unsigned
    /// 8-bit sample `s16_to_sample` gives.
    pub fn write_i16(&mut self, buf: &[i16], posinfo: i64)
        requires
            old(self).wf(),
            posinfo + buf@.len() <= i64::MAX,
        ensures
            final(self).wf(),
            final(self).capacity() == old(self).capacity(),
            queued_from(old(self).frames(), final(self).frames(), old(self).capacity()),
            queued_within(
                old(self).frames(),
                final(self).frames(),
                old(self).capacity(),
                posinfo as int,
                posinfo + buf@.len(),
                old(self).positions_ok(posinfo as int),
            ),
            old(self).positions_ok(posinfo as int) ==> final(self).positions_ok(
                posinfo + buf@.len(),
            ),
            final(self).detector() == run_samples(old(self).detector(), buf@.map_values(|v: i16| s16_sample(v)), posinfo as int).0,
            feeds(
                old(self).bit_state(),
                run_samples(old(self).detector(), buf@.map_values(|v: i16| s16_sample(v)), posinfo as int).1,
                old(self).capacity(),
                final(self).bit_state(),
            ),
    {
        let ghost vs = buf@.map_values(|v: i16| s16_sample(v));
        let ghost fed: Seq<(BitCell, u8, u8)> = Seq::empty();
        assert(vs.subrange(0, 0) =~= Seq::<u8>::empty());
        proof {
            lemma_feeds_start(self.bit_state(), self.capacity());
        }
        let ghost pushed: Seq<LTCFrameExt> = Seq::empty();
        let mut i: usize = 0;
        while i < buf.len()
            invariant
                self.wf(),
                self.capacity() == old(self).capacity(),
                i <= buf@.len(),
                posinfo + buf@.len() <= i64::MAX,
                push_all(old(self).frames(), pushed, old(self).capacity()) == self.frames(),
                forall|j: int| 0 <= j < pushed.len() ==> decoded(#[trigger] pushed[j]),
                forall|j: int|
                    0 <= j < pushed.len() ==> posinfo <= #[trigger] pushed[j].off_end < posinfo + i,
                forall|j: int, k: int|
                    0 <= j < k < pushed.len() ==> #[trigger] pushed[j].off_end
                        < #[trigger] pushed[k].off_end,
                old(self).positions_ok(posinfo as int) ==> self.positions_ok(posinfo + i),
                old(self).positions_ok(posinfo as int) ==> forall|j: int|
                    0 <= j < pushed.len() ==> #[trigger] pushed[j].off_start < pushed[j].off_end,
                vs == buf@.map_values(|v: i16| s16_sample(v)),
                run_samples(old(self).detector(), vs.subrange(0, i as int), posinfo as int) == (
                    self.detector(),
                    fed,
                ),
                feeds(old(self).bit_state(), fed, old(self).capacity(), self.bit_state()),
            decreases buf@.len() - i,
        {
            let ghost before = self.frames();
            let ghost state_before = self.bit_state();
            let emitted = self.on_sample(s16_to_sample(buf[i]), (posinfo as i128 + i as i128) as i64);
            proof {
                lemma_run_step(old(self).detector(), vs, i as int, posinfo as int);
                if let Some(e) = emitted@ {
                    lemma_feeds_step(
                        old(self).bit_state(),
                        fed,
                        old(self).capacity(),
                        state_before,
                        e,
                        self.bit_state(),
                    );
                    fed = fed.push(e);
                }
                if self.frames() != before {
                    lemma_push_all_one_more(
                        old(self).frames(),
                        pushed,
                        self.frames().last(),
                        old(self).capacity(),
                    );
                    pushed = pushed.push(self.frames().last());
                }
            }
            i = i + 1;
        }
        assert(push_all(old(self).frames(), pushed, old(self).capacity()) == self.frames());
        assert(vs.subrange(0, buf@.len() as int) =~= vs);
    }

    /// Decodes a block of unsigned 16-bit samples, each read as the
    /// unsigned 8-bit sample `u16_to_sample` gives.
    pub fn write_u16(&mut self, buf: &[u16], posinfo: i64)
        requires
            old(self).wf(),
            posinfo + buf@.len() <= i64::MAX,
        ensures
            final(self).wf(),
            final(self).capacity() == old(self).capacity(),
            queued_from(old(self).frames(), final(self).frames(), old(self).capacity()),
            queued_within(
                old(self).frames(),
                final(self).frames(),
                old(self).capacity(),
                posinfo as int,
                posinfo + buf@.len(),
                old(self).positions_ok(posinfo as int),
            ),
            old(self).positions_ok(posinfo as int) ==> final(self).positions_ok(
                posinfo + buf@.len(),
            ),
            final(self).detector() == run_samples(old(self).detector(), buf@.map_values(|v: u16| u16_sample(v)), posinfo as int).0,
            feeds(
                old(self).bit_state(),
                run_samples(old(self).detector(), buf@.map_values(|v: u16| u16_sample(v)), posinfo as int).1,
                old(self).capacity(),
                final(self).bit_state(),
            ),
    {
        let ghost vs = buf@.map_values(|v: u16| u16_sample(v));
        let ghost fed: Seq<(BitCell, u8, u8)> = Seq::empty();
        assert(vs.subrange(0, 0) =~= Seq::<u8>::empty());
        proof {
            lemma_feeds_start(self.bit_state(), self.capacity());
        }
        let ghost pushed: Seq<LTCFrameExt> = Seq::empty();
        let mut i: usize = 0;
        while i < buf.len()
            invariant
                self.wf(),
                self.capacity() == old(self).capacity(),
                i <= buf@.len(),
                posinfo + buf@.len() <= i64::MAX,
                push_all(old(self).frames(), pushed, old(self).capacity()) == self.frames(),
                forall|j: int| 0 <= j < pushed.len() ==> decoded(#[trigger] pushed[j]),
                forall|j: int|
                    0 <= j < pushed.len() ==> posinfo <= #[trigger] pushed[j].off_end < posinfo + i,
                forall|j: int, k: int|
                    0 <= j < k < pushed.len() ==> #[trigger] pushed[j].off_end
                        < #[trigger] pushed[k].off_end,
                old(self).positions_ok(posinfo as int) ==> self.positions_ok(posinfo + i),
                old(self).positions_ok(posinfo as int) ==> forall|j: int|
                    0 <= j < pushed.len() ==> #[trigger] pushed[j].off_start < pushed[j].off_end,
                vs == buf@.map_values(|v: u16| u16_sample(v)),
                run_samples(old(self).detector(), vs.subrange(0, i as int), posinfo as int) == (
                    self.detector(),
                    fed,
                ),
                feeds(old(self).bit_state(), fed, old(self).capacity(), self.bit_state()),
            decreases buf@.len() - i,
        {
            let ghost before = self.frames();
            let ghost state_before = self.bit_state();
            let emitted = self.on_sample(u16_to_sample(buf[i]), (posinfo as i128 + i as i128) as i64);
            proof {
                lemma_run_step(old(self).detector(), vs, i as int, posinfo as int);
                if let Some(e) = emitted@ {
                    lemma_feeds_step(
                        old(self).bit_state(),
                        fed,
                        old(self).capacity(),
                        state_before,
                        e,
                        self.bit_state(),
                    );
                    fed = fed.push(e);
                }
                if self.frames() != before {
                    lemma_push_all_one_more(
                        old(self).frames(),
                        pushed,
                        self.frames().last(),
                        old(self).capacity(),
                    );
                    pushed = pushed.push(self.frames().last());
                }
            }
            i = i + 1;
        }
        assert(push_all(old(self).frames(), pushed, old(self).capacity()) == self.frames());
        assert(vs.subrange(0, buf@.len() as int) =~= vs);
    }

    /// Positions consistent up to `p` are consistent up to any later `q`:
    /// a block may start after a gap.
    pub proof fn lemma_positions_later(&self, p: int, q: int)
        requires
            self.positions_ok(p),
            p <= q,
        ensures
            self.positions_ok(q),
    {
    }

    /// Takes the oldest queued frame, or `None` when there is none.
    pub fn read(&mut self) -> (r: Option<LTCFrameExt>)
        requires
            old(self).wf(),
        ensures
            final(self).wf(),
            final(self).capacity() == old(self).capacity(),
            old(self).frames().len() == 0 ==> r is None && final(self).frames() == old(self).frames(),
            old(self).frames().len() > 0 ==> r == Some(old(self).frames()[0]) && final(self).frames()
                == old(self).frames().drop_first(),
            final(self).cells() == old(self).cells(),
            final(self).sync_register() == old(self).sync_register(),
            final(self).same_detector(old(self)),
            forall|p: int| #[trigger] final(self).positions_ok(p) == old(self).positions_ok(p),
    {
        let r = self.queue.pop_front();
        proof {
            if old(self).frames().len() > 0 {
                assert(self.queue@ =~= old(self).frames().drop_first());
            }
        }
        r
    }

    /// Drops every queued frame.
    pub fn queue_flush(&mut self)
        requires
            old(self).wf(),
        ensures
            final(self).wf(),
            final(self).capacity() == old(self).capacity(),
            final(self).frames().len() == 0,
            final(self).cells() == old(self).cells(),
            final(self).sync_register() == old(self).sync_register(),
            final(self).same_detector(old(self)),
            forall|p: int| #[trigger] final(self).positions_ok(p) == old(self).positions_ok(p),
    {
        self.queue.clear();
    }

    /// Number of queued frames.
    pub fn queue_length(&self) -> (r: i32)
        requires
            self.wf(),
        ensures
            r == self.frames().len(),
    {
        self.queue.len() as i32
    }
}

/// A signed 16-bit sample as an unsigned 8-bit one: its high byte,
/// moved up by 128.
pub open spec fn s16_sample(v: i16) -> u8 {
    ((v as int) / 256 + 128) as u8
}

/// An unsigned 16-bit sample as an unsigned 8-bit one: its high byte.
pub open spec fn u16_sample(v: u16) -> u8 {
    (v / 256) as u8
}

/// 16-bit samples that hold 8-bit ones in their high byte read as those
/// 8-bit samples, so `write_u16` and `write_i16` on them decode what
/// `write` decodes on the 8-bit samples.
pub proof fn lemma_wide_samples_match(narrow: Seq<u8>, wide_u: Seq<u16>, wide_i: Seq<i16>)
    requires
        wide_u.len() == narrow.len(),
        wide_i.len() == narrow.len(),
        forall|k: int| 0 <= k < narrow.len() ==> wide_u[k] == narrow[k] * 256,
        forall|k: int| 0 <= k < narrow.len() ==> wide_i[k] == (narrow[k] - 128) * 256,
    ensures
        wide_u.map_values(|v: u16| u16_sample(v)) == narrow,
        wide_i.map_values(|v: i16| s16_sample(v)) == narrow,
{
    assert(wide_u.map_values(|v: u16| u16_sample(v)) =~= narrow);
    assert(wide_i.map_values(|v: i16| s16_sample(v)) =~= narrow);
}

/// A signed 16-bit sample as an unsigned 8-bit one: its high byte,
/// moved up by 128.
pub fn s16_to_sample(v: i16) -> (r: u8)
    ensures
        r == s16_sample(v),
{
    let hi: i16 = if v >= 0 {
        v / 256
    } else {
        -((-(v as i32) + 255) / 256) as i16
    };
    (hi + 128) as u8
}

/// An unsigned 16-bit sample as an unsigned 8-bit one: its high byte.
pub fn u16_to_sample(v: u16) -> (r: u8)
    ensures
        r == u16_sample(v),
{
    (v / 256) as u8
}

} // verus!
