use vstd::prelude::*;

use crate::bits::{
    count_ones, field, get_field, lemma_fields, lemma_masks, lemma_ones_bound,
    lemma_ones_with_bit, ones, put_field, with_field,
};
use crate::clock::{
    advance, lemma_advance_valid, lemma_fps_steps_make_a_second, lemma_minute_of_steps,
    second_after, date_steppable, days_in_month, next_date, prev_date, step_back, step_forward, time_valid,
    wraps_back, wraps_forward, Hmsf, Ymd,
};
use crate::consts::{LtcBgFlags, LtcBgFlagsKind};
use crate::error::TimecodeError;
use crate::timecode::{
    lemma_zone_code_stable, zone_code, zone_of_code, zone_text, LTCTVStandard, SMPTETimecode,
    TimecodeWasWrapped,
    Timezone,
};

verus! {

/// The sync word that closes every frame, read from bit 64 upwards.
pub const SYNC_WORD: u16 = 0xBFFC;

// Bit offsets of the frame's fields, counted from the first bit sent.
pub const FRAME_UNITS: u64 = 0;
pub const USER1: u64 = 4;
pub const FRAME_TENS: u64 = 8;
pub const DFBIT: u64 = 10;
pub const COL_FRAME: u64 = 11;
pub const USER2: u64 = 12;
pub const SECS_UNITS: u64 = 16;
pub const USER3: u64 = 20;
pub const SECS_TENS: u64 = 24;
pub const BGF_27: u64 = 27;
pub const USER4: u64 = 28;
pub const MINS_UNITS: u64 = 32;
pub const USER5: u64 = 36;
pub const MINS_TENS: u64 = 40;
pub const BGF_43: u64 = 43;
pub const USER6: u64 = 44;
pub const HOURS_UNITS: u64 = 48;
pub const USER7: u64 = 52;
pub const HOURS_TENS: u64 = 56;
pub const BGF_58: u64 = 58;
pub const BGF_59: u64 = 59;
pub const USER8: u64 = 60;

/// One 80-bit LTC frame. Bits 0 to 63 (time, user bits and flags) are
/// `data`, bit `i` being `(data >> i) & 1`; bits 64 to 79 are `sync_word`.
#[derive(Debug, Clone, Copy, PartialEq, Eq, Structural)]
pub struct LTCFrame {
    pub data: u64,
    pub sync_word: u16,
}

/// Bit that carries the parity correction.
pub open spec fn parity_pos(standard: LTCTVStandard) -> u64 {
    if standard == LTCTVStandard::LTCTV_625_50 {
        BGF_59
    } else {
        BGF_27
    }
}

/// Binary-group flag bit that marks a date in the user bits.
pub open spec fn date_flag_pos(standard: LTCTVStandard) -> u64 {
    if standard == LTCTVStandard::LTCTV_625_50 {
        BGF_43
    } else {
        BGF_59
    }
}

/// Binary-group flag bit that marks 8-bit characters in the user bits.
pub open spec fn char_flag_pos(standard: LTCTVStandard) -> u64 {
    if standard == LTCTVStandard::LTCTV_625_50 {
        BGF_27
    } else {
        BGF_43
    }
}

fn parity_pos_of(standard: LTCTVStandard) -> (r: u64)
    ensures
        r == parity_pos(standard),
{
    if standard == LTCTVStandard::LTCTV_625_50 {
        BGF_59
    } else {
        BGF_27
    }
}

fn date_flag_pos_of(standard: LTCTVStandard) -> (r: u64)
    ensures
        r == date_flag_pos(standard),
{
    if standard == LTCTVStandard::LTCTV_625_50 {
        BGF_43
    } else {
        BGF_59
    }
}

fn char_flag_pos_of(standard: LTCTVStandard) -> (r: u64)
    ensures
        r == char_flag_pos(standard),
{
    if standard == LTCTVStandard::LTCTV_625_50 {
        BGF_27
    } else {
        BGF_43
    }
}

/// `d` with the eight time digits of `h:m:s:f` written in BCD.
pub open spec fn written_time(d: u64, h: u64, m: u64, s: u64, f: u64) -> u64 {
    with_field(
        with_field(
            with_field(
                with_field(
                    with_field(
                        with_field(
                            with_field(with_field(d, FRAME_UNITS, 4, f % 10), FRAME_TENS, 2, f / 10),
                            SECS_UNITS,
                            4,
                            s % 10,
                        ),
                        SECS_TENS,
                        3,
                        s / 10,
                    ),
                    MINS_UNITS,
                    4,
                    m % 10,
                ),
                MINS_TENS,
                3,
                m / 10,
            ),
            HOURS_UNITS,
            4,
            h % 10,
        ),
        HOURS_TENS,
        2,
        h / 10,
    )
}

/// `d` with a date in BCD in user fields 1 (day units) to 6 (year tens).
pub open spec fn written_ymd(d: u64, y: u64, mo: u64, day: u64) -> u64 {
    with_field(
        with_field(
            with_field(
                with_field(
                    with_field(with_field(d, USER1, 4, day % 10), USER2, 4, day / 10),
                    USER3,
                    4,
                    mo % 10,
                ),
                USER4,
                4,
                mo / 10,
            ),
            USER5,
            4,
            y % 10,
        ),
        USER6,
        4,
        y / 10,
    )
}

/// `d` with a date in user fields 1 to 6 and a zone code in 7 and 8.
pub open spec fn written_date(d: u64, y: u64, mo: u64, day: u64, zone: u64) -> u64 {
    with_field(with_field(written_ymd(d, y, mo, day), USER7, 4, zone % 16), USER8, 4, zone / 16)
}

/// Drop-frame counting has no frames 0 and 1 in minutes not divisible by
/// ten: with the drop-frame bit set, such a frame number moves up by two.
pub open spec fn drop_fixed(d: u64) -> u64 {
    if field(d, DFBIT, 1) == 1 && field(d, MINS_UNITS, 4) != 0 && field(d, SECS_UNITS, 4) == 0
        && field(d, SECS_TENS, 3) == 0 && field(d, FRAME_TENS, 2) == 0 && field(d, FRAME_UNITS, 4)
        < 2 {
        with_field(d, FRAME_UNITS, 4, (field(d, FRAME_UNITS, 4) + 2) as u64)
    } else {
        d
    }
}

/// `d` with the binary-group flag bits set from `flags`: date and clock
/// as asked, character set off.
pub open spec fn written_bgf(d: u64, standard: LTCTVStandard, flags: LtcBgFlags) -> u64 {
    with_field(
        with_field(
            with_field(
                d,
                date_flag_pos(standard),
                1,
                if flags.has(LtcBgFlagsKind::LTC_USE_DATE) {
                    1
                } else {
                    0
                },
            ),
            BGF_58,
            1,
            if flags.has(LtcBgFlagsKind::LTC_TC_CLOCK) {
                1
            } else {
                0
            },
        ),
        char_flag_pos(standard),
        1,
        0,
    )
}

/// Number of set bits over all 80 bits of a frame.
pub open spec fn frame_ones(f: LTCFrame) -> nat {
    ones(f.data, 64) + ones(f.sync_word as u64, 16)
}

/// Even parity over the whole frame, as SMPTE 12M asks of the parity bit.
pub open spec fn parity_even(f: LTCFrame) -> bool {
    frame_ones(f) % 2 == 0
}

/// `f` with the parity bit of `standard` chosen to make the frame's parity even.
pub open spec fn with_parity(f: LTCFrame, standard: LTCTVStandard) -> LTCFrame {
    let d0 = with_field(f.data, parity_pos(standard), 1, 0);
    let c = ones(d0, 64) + ones(f.sync_word as u64, 16);
    LTCFrame { data: with_field(d0, parity_pos(standard), 1, (c % 2) as u64), sync_word: f.sync_word }
}

/// `f` with bit `k` of its data inverted.
pub open spec fn flip_bit(f: LTCFrame, k: u64) -> LTCFrame {
    LTCFrame { data: with_field(f.data, k, 1, (1 - field(f.data, k, 1)) as u64), ..f }
}

/// The frame that a timecode is written into, from `f`: date and zone when
/// `flags` asks for them, the time, the drop-frame correction, the
/// binary-group flags unless `flags` says to leave them, the sync word,
/// and the parity bit unless `flags` declines it.
pub open spec fn time_to_frame(
    f: LTCFrame,
    tc: SMPTETimecode,
    standard: LTCTVStandard,
    flags: LtcBgFlags,
) -> LTCFrame {
    let d1 = if flags.has(LtcBgFlagsKind::LTC_USE_DATE) {
        written_date(
            f.data,
            tc.years as u64,
            tc.months as u64,
            tc.days as u64,
            zone_code(tc.timezone.0@) as u64,
        )
    } else {
        f.data
    };
    let d2 = drop_fixed(
        written_time(d1, tc.hours as u64, tc.mins as u64, tc.secs as u64, tc.frame as u64),
    );
    let d3 = if flags.has(LtcBgFlagsKind::LTC_BGF_DONT_TOUCH) {
        d2
    } else {
        written_bgf(d2, standard, flags)
    };
    let g = LTCFrame { data: d3, sync_word: SYNC_WORD };
    if flags.has(LtcBgFlagsKind::LTC_NO_PARITY) {
        g
    } else {
        with_parity(g, standard)
    }
}

/// The frame one step forward (or back) from `f` at `fps` frames per
/// second: the new time in BCD, the next (or previous) date when midnight is
/// passed and `flags` asks for dates, and the parity bit unless declined.
pub open spec fn stepped(
    f: LTCFrame,
    fps: int,
    standard: LTCTVStandard,
    flags: LtcBgFlags,
    forward: bool,
) -> LTCFrame {
    let t = f.time_of();
    let n = if forward {
        step_forward(t, fps, f.drop_frame())
    } else {
        step_back(t, fps, f.drop_frame())
    };
    let d1 = written_time(f.data, n.0 as u64, n.1 as u64, n.2 as u64, n.3 as u64);
    let nd = if forward {
        next_date(f.date_of())
    } else {
        prev_date(f.date_of())
    };
    let d2 = if f.steps_date(fps, flags, forward) {
        written_ymd(d1, nd.0 as u64, nd.1 as u64, nd.2 as u64)
    } else {
        d1
    };
    let g = LTCFrame { data: d2, sync_word: f.sync_word };
    if flags.has(LtcBgFlagsKind::LTC_NO_PARITY) {
        g
    } else {
        with_parity(g, standard)
    }
}

/// The all-zero frame with its sync word.
pub open spec fn zero_frame() -> LTCFrame {
    LTCFrame { data: 0, sync_word: SYNC_WORD }
}

impl LTCFrame {
    pub open spec fn frame_units(self) -> u64 {
        field(self.data, FRAME_UNITS, 4)
    }

    pub open spec fn frame_tens(self) -> u64 {
        field(self.data, FRAME_TENS, 2)
    }

    pub open spec fn secs_units(self) -> u64 {
        field(self.data, SECS_UNITS, 4)
    }

    pub open spec fn secs_tens(self) -> u64 {
        field(self.data, SECS_TENS, 3)
    }

    pub open spec fn mins_units(self) -> u64 {
        field(self.data, MINS_UNITS, 4)
    }

    pub open spec fn mins_tens(self) -> u64 {
        field(self.data, MINS_TENS, 3)
    }

    pub open spec fn hours_units(self) -> u64 {
        field(self.data, HOURS_UNITS, 4)
    }

    pub open spec fn hours_tens(self) -> u64 {
        field(self.data, HOURS_TENS, 2)
    }

    /// User field `k`, 1 to 8.
    pub open spec fn user(self, k: int) -> u64 {
        field(self.data, (8 * k - 4) as u64, 4)
    }

    pub open spec fn spec_hours(self) -> int {
        self.hours_units() + 10 * self.hours_tens()
    }

    pub open spec fn spec_mins(self) -> int {
        self.mins_units() + 10 * self.mins_tens()
    }

    pub open spec fn spec_secs(self) -> int {
        self.secs_units() + 10 * self.secs_tens()
    }

    pub open spec fn spec_frame(self) -> int {
        self.frame_units() + 10 * self.frame_tens()
    }

    /// Two-digit year in user fields 5 and 6.
    pub open spec fn spec_years(self) -> int {
        self.user(5) + 10 * self.user(6)
    }

    /// Month in user fields 3 and 4.
    pub open spec fn spec_months(self) -> int {
        self.user(3) + 10 * self.user(4)
    }

    /// Day in user fields 1 and 2.
    pub open spec fn spec_days(self) -> int {
        self.user(1) + 10 * self.user(2)
    }

    /// Time-zone code in user fields 7 (low nibble) and 8 (high nibble).
    pub open spec fn spec_zone(self) -> int {
        self.user(7) + 16 * self.user(8)
    }

    /// The 32 user bits, user field 1 lowest.
    pub open spec fn spec_user_bits(self) -> int {
        self.user(1) + 16 * self.user(2) + 256 * self.user(3) + 4096 * self.user(4) + 65536
            * self.user(5) + 1048576 * self.user(6) + 16777216 * self.user(7) + 268435456
            * self.user(8)
    }

    pub open spec fn time_of(self) -> Hmsf {
        (self.spec_hours(), self.spec_mins(), self.spec_secs(), self.spec_frame())
    }

    pub open spec fn date_of(self) -> Ymd {
        (self.spec_years(), self.spec_months(), self.spec_days())
    }

    pub open spec fn drop_frame(self) -> bool {
        field(self.data, DFBIT, 1) == 1
    }

    /// A step in the given direction passes midnight.
    pub open spec fn step_wraps(self, fps: int, forward: bool) -> bool {
        if forward {
            wraps_forward(self.time_of(), fps)
        } else {
            wraps_back(self.time_of())
        }
    }

    /// The frame holds a time that a step at `fps` can take: `fps` from 1
    /// to 40 (above 2 under drop-frame numbering) and a valid time of day.
    pub open spec fn can_step(self, fps: int) -> bool {
        &&& 1 <= fps <= 40
        &&& time_valid(self.time_of(), fps)
        &&& self.drop_frame() ==> fps > 2
    }

    /// The step passes midnight with dates on, and the date can be stepped.
    pub open spec fn steps_date(self, fps: int, flags: LtcBgFlags, forward: bool) -> bool {
        &&& self.step_wraps(fps, forward)
        &&& flags.has(LtcBgFlagsKind::LTC_USE_DATE)
        &&& date_steppable(self.date_of())
    }

    /// `tc` is what the frame reads as under `flags`.
    pub open spec fn decodes_to(self, flags: LtcBgFlags, tc: SMPTETimecode) -> bool {
        &&& tc.hours == self.spec_hours()
        &&& tc.mins == self.spec_mins()
        &&& tc.secs == self.spec_secs()
        &&& tc.frame == self.spec_frame()
        &&& if flags.has(LtcBgFlagsKind::LTC_USE_DATE) {
            &&& tc.years == self.spec_years()
            &&& tc.months == self.spec_months()
            &&& tc.days == self.spec_days()
            &&& tc.timezone.0@ == zone_of_code(self.spec_zone() as u8)
        } else {
            &&& tc.years == 0 && tc.months == 0 && tc.days == 0
            &&& tc.timezone.0@ == zone_text(43, 0)
        }
    }

    /// The flags that the frame's binary-group bits and parity report.
    pub open spec fn reports(self, standard: LTCTVStandard, flags: LtcBgFlags) -> bool {
        &&& flags.has(LtcBgFlagsKind::LTC_USE_DATE) == (field(
            self.data,
            date_flag_pos(standard),
            1,
        ) == 1)
        &&& flags.has(LtcBgFlagsKind::LTC_TC_CLOCK) == (field(self.data, BGF_58, 1) == 1)
        &&& flags.has(LtcBgFlagsKind::LTC_NO_PARITY) == !parity_even(self)
        &&& !flags.has(LtcBgFlagsKind::LTC_BGF_DONT_TOUCH)
        &&& flags.0 < 16
    }

    /// The frame with all time, user and flag bits zero, closed by the sync word.
    pub fn new() -> (r: Self)
        ensures
            r == zero_frame(),
    {
        LTCFrame { data: 0, sync_word: SYNC_WORD }
    }

    /// The drop-frame flag bit.
    pub fn dfbit(&self) -> (r: u32)
        ensures
            r == field(self.data, DFBIT, 1),
    {
        proof {
            lemma_masks();
        }
        get_field(self.data, DFBIT, 1) as u32
    }

    /// Reads the time, and under `LTC_USE_DATE` the date and time zone, that
    /// the frame carries. Without it the date is zero and the zone UTC.
    pub fn to_timecode(&self, flags: LtcBgFlags) -> (r: SMPTETimecode)
        ensures
            self.decodes_to(flags, r),
    {
        proof {
            lemma_masks();
        }
        let d = self.data;
        let hours = (get_field(d, HOURS_UNITS, 4) + 10 * get_field(d, HOURS_TENS, 2)) as u8;
        let mins = (get_field(d, MINS_UNITS, 4) + 10 * get_field(d, MINS_TENS, 3)) as u8;
        let secs = (get_field(d, SECS_UNITS, 4) + 10 * get_field(d, SECS_TENS, 3)) as u8;
        let frame = (get_field(d, FRAME_UNITS, 4) + 10 * get_field(d, FRAME_TENS, 2)) as u8;
        if flags.contains(LtcBgFlagsKind::LTC_USE_DATE) {
            let years = (get_field(d, USER5, 4) + 10 * get_field(d, USER6, 4)) as u8;
            let months = (get_field(d, USER3, 4) + 10 * get_field(d, USER4, 4)) as u8;
            let days = (get_field(d, USER1, 4) + 10 * get_field(d, USER2, 4)) as u8;
            let zone = (get_field(d, USER7, 4) + 16 * get_field(d, USER8, 4)) as u8;
            SMPTETimecode {
                timezone: Timezone::from_code(zone),
                years,
                months,
                days,
                hours,
                mins,
                secs,
                frame,
            }
        } else {
            SMPTETimecode {
                timezone: Timezone::default(),
                years: 0,
                months: 0,
                days: 0,
                hours,
                mins,
                secs,
                frame,
            }
        }
    }

    /// Writes `timecode` into this frame (see `time_to_frame`); bits that
    /// it does not name keep their value.
    pub fn from_timecode_inplace(
        &mut self,
        timecode: &SMPTETimecode,
        standard: LTCTVStandard,
        flags: LtcBgFlags,
    )
        ensures
            *final(self) == time_to_frame(*old(self), *timecode, standard, flags),
    {
        let mut d = self.data;
        if flags.contains(LtcBgFlagsKind::LTC_USE_DATE) {
            let zone = timecode.timezone.code() as u64;
            d = write_ymd(d, timecode.years as u64, timecode.months as u64, timecode.days as u64);
            d = put_field(d, USER7, 4, zone % 16);
            d = put_field(d, USER8, 4, zone / 16);
        }
        d = write_time(
            d,
            timecode.hours as u64,
            timecode.mins as u64,
            timecode.secs as u64,
            timecode.frame as u64,
        );
        d = fix_drop_frame(d);
        if !flags.contains(LtcBgFlagsKind::LTC_BGF_DONT_TOUCH) {
            let date_bit: u64 = if flags.contains(LtcBgFlagsKind::LTC_USE_DATE) {
                1
            } else {
                0
            };
            let clock_bit: u64 = if flags.contains(LtcBgFlagsKind::LTC_TC_CLOCK) {
                1
            } else {
                0
            };
            d = put_field(d, date_flag_pos_of(standard), 1, date_bit);
            d = put_field(d, BGF_58, 1, clock_bit);
            d = put_field(d, char_flag_pos_of(standard), 1, 0);
        }
        self.data = d;
        self.sync_word = SYNC_WORD;
        if !flags.contains(LtcBgFlagsKind::LTC_NO_PARITY) {
            self.set_parity(standard);
        }
    }

    /// A fresh frame holding `timecode`: `time_to_frame` applied to the zero frame.
    pub fn from_timecode(timecode: &SMPTETimecode, standard: LTCTVStandard, flags: LtcBgFlags) -> (r:
        Self)
        ensures
            r == time_to_frame(zero_frame(), *timecode, standard, flags),
    {
        let mut frame = Self::new();
        frame.from_timecode_inplace(timecode, standard, flags);
        frame
    }

    /// Sets the parity bit of `standard` so that the frame's 80 bits hold an
    /// even number of ones.
    pub fn set_parity(&mut self, standard: LTCTVStandard)
        ensures
            *final(self) == with_parity(*old(self), standard),
            parity_even(*final(self)),
    {
        let p = parity_pos_of(standard);
        let d0 = put_field(self.data, p, 1, 0);
        proof {
            lemma_ones_bound(d0, 64);
            lemma_ones_bound(self.sync_word as u64, 16);
        }
        let c = count_ones(d0, 64) + count_ones(self.sync_word as u64, 16);
        self.data = put_field(d0, p, 1, c % 2);
        proof {
            lemma_with_parity_even(*old(self), standard);
        }
    }

    /// Whether the frame's 80 bits hold an even number of ones.
    pub fn parity_ok(&self) -> (r: bool)
        ensures
            r == parity_even(*self),
    {
        proof {
            lemma_ones_bound(self.data, 64);
            lemma_ones_bound(self.sync_word as u64, 16);
        }
        (count_ones(self.data, 64) + count_ones(self.sync_word as u64, 16)) % 2 == 0
    }

    /// The options that this frame reports under `standard`: date and clock
    /// from the binary-group flag bits, and `LTC_NO_PARITY` when the parity
    /// check fails.
    pub fn parse_bcg_flags(&self, standard: LTCTVStandard) -> (r: LtcBgFlags)
        ensures
            self.reports(standard, r),
    {
        let date = get_field(self.data, date_flag_pos_of(standard), 1) as u32;
        let clock = get_field(self.data, BGF_58, 1) as u32;
        let bad: u32 = if self.parity_ok() {
            0
        } else {
            1
        };
        proof {
            lemma_masks();
            lemma_flag_word(date, clock, bad);
        }
        LtcBgFlags(date + 2 * clock + 8 * bad)
    }

    /// The 32 user bits, user field 1 in the lowest nibble.
    pub fn get_user_bits(&self) -> (r: u32)
        ensures
            r == self.spec_user_bits(),
    {
        proof {
            lemma_masks();
        }
        let d = self.data;
        let mut r: u64 = get_field(d, USER8, 4);
        r = r * 16 + get_field(d, USER7, 4);
        r = r * 16 + get_field(d, USER6, 4);
        r = r * 16 + get_field(d, USER5, 4);
        r = r * 16 + get_field(d, USER4, 4);
        r = r * 16 + get_field(d, USER3, 4);
        r = r * 16 + get_field(d, USER2, 4);
        r = r * 16 + get_field(d, USER1, 4);
        r as u32
    }

    /// Spreads `data` over the eight user fields, lowest nibble to user
    /// field 1; no other bit changes.
    pub fn set_user_bits(&mut self, data: u32)
        ensures
            final(self).spec_user_bits() == data,
            forall|k: int|
                1 <= k <= 8 ==> #[trigger] final(self).user(k) == ((data >> (4 * (k - 1)) as u32)
                    & 15) as u64,
            final(self).sync_word == old(self).sync_word,
            forall|o: u64, w: u64|
                1 <= w <= 16 && o + w <= 64 && (o + w <= 4 || (8 <= o && o + w <= 12) || (16 <= o
                    && o + w <= 20) || (24 <= o && o + w <= 28) || (32 <= o && o + w <= 36) || (40
                    <= o && o + w <= 44) || (48 <= o && o + w <= 52) || (56 <= o && o + w
                    <= 60)) ==> #[trigger] field(final(self).data, o, w)
                    == field(old(self).data, o, w),
    {
        let mut d = self.data;
        let x = data as u64;
        d = put_field(d, USER1, 4, x & 15);
        d = put_field(d, USER2, 4, (x >> 4) & 15);
        d = put_field(d, USER3, 4, (x >> 8) & 15);
        d = put_field(d, USER4, 4, (x >> 12) & 15);
        d = put_field(d, USER5, 4, (x >> 16) & 15);
        d = put_field(d, USER6, 4, (x >> 20) & 15);
        d = put_field(d, USER7, 4, (x >> 24) & 15);
        d = put_field(d, USER8, 4, (x >> 28) & 15);
        self.data = d;
        proof {
            lemma_fields();
            lemma_masks();
            lemma_nibbles(data);
            let g = *final(self);
            assert(g.user(1) == (data & 15) as u64);
            assert(g.user(2) == ((data >> 4) & 15) as u64);
            assert(g.user(3) == ((data >> 8) & 15) as u64);
            assert(g.user(4) == ((data >> 12) & 15) as u64);
            assert(g.user(5) == ((data >> 16) & 15) as u64);
            assert(g.user(6) == ((data >> 20) & 15) as u64);
            assert(g.user(7) == ((data >> 24) & 15) as u64);
            assert(g.user(8) == ((data >> 28) & 15) as u64);
            assert forall|k: int| 1 <= k <= 8 implies #[trigger] g.user(k) == ((data >> (4 * (k
                - 1)) as u32) & 15) as u64 by {
                if k == 1 {
                } else if k == 2 {
                } else if k == 3 {
                } else if k == 4 {
                } else if k == 5 {
                } else if k == 6 {
                } else if k == 7 {
                } else {
                }
            }
        }
    }
}

impl LTCFrame {
    fn time_parts(&self) -> (r: (u64, u64, u64, u64))
        ensures
            r.0 == self.spec_hours(),
            r.1 == self.spec_mins(),
            r.2 == self.spec_secs(),
            r.3 == self.spec_frame(),
    {
        proof {
            lemma_masks();
        }
        let d = self.data;
        (
            get_field(d, HOURS_UNITS, 4) + 10 * get_field(d, HOURS_TENS, 2),
            get_field(d, MINS_UNITS, 4) + 10 * get_field(d, MINS_TENS, 3),
            get_field(d, SECS_UNITS, 4) + 10 * get_field(d, SECS_TENS, 3),
            get_field(d, FRAME_UNITS, 4) + 10 * get_field(d, FRAME_TENS, 2),
        )
    }

    fn date_parts(&self) -> (r: (u64, u64, u64))
        ensures
            r.0 == self.spec_years(),
            r.1 == self.spec_months(),
            r.2 == self.spec_days(),
    {
        proof {
            lemma_masks();
        }
        let d = self.data;
        (
            get_field(d, USER5, 4) + 10 * get_field(d, USER6, 4),
            get_field(d, USER3, 4) + 10 * get_field(d, USER4, 4),
            get_field(d, USER1, 4) + 10 * get_field(d, USER2, 4),
        )
    }

    fn step(&mut self, fps: i32, standard: LTCTVStandard, flags: LtcBgFlags, forward: bool) -> (r:
        Result<TimecodeWasWrapped, TimecodeError>)
        ensures
            old(self).can_step(fps as int) ==> {
                &&& r == Ok::<TimecodeWasWrapped, TimecodeError>(
                    if old(self).step_wraps(fps as int, forward) {
                        TimecodeWasWrapped::Yes
                    } else {
                        TimecodeWasWrapped::No
                    },
                )
                &&& *final(self) == stepped(*old(self), fps as int, standard, flags, forward)
            },
            !old(self).can_step(fps as int) ==> r == Err::<
                TimecodeWasWrapped,
                TimecodeError,
            >(TimecodeError::InvalidReturn) && *final(self) == *old(self),
    {
        if fps < 1 || fps > 40 {
            return Err(TimecodeError::InvalidReturn);
        }
        let fps = fps as u64;
        let (h, m, s, f) = self.time_parts();
        let df = self.dfbit() == 1;
        if !(h < 24 && m < 60 && s < 60 && f < fps) || (df && fps <= 2) {
            return Err(TimecodeError::InvalidReturn);
        }
        let wrapped = if forward {
            h == 23 && m == 59 && s == 59 && f == fps - 1
        } else {
            h == 0 && m == 0 && s == 0 && f == 0
        };
        let use_date = flags.contains(LtcBgFlagsKind::LTC_USE_DATE);
        let (y, mo, day) = self.date_parts();
        let date_steps = wrapped && use_date && y < 100 && 1 <= mo && mo <= 12 && day <= 31;
        let (h2, m2, s2, f2) = if forward {
            let (nh, nm, ns, nf) = if f + 1 < fps {
                (h, m, s, f + 1)
            } else if s + 1 < 60 {
                (h, m, s + 1, 0)
            } else if m + 1 < 60 {
                (h, m + 1, 0, 0)
            } else if h + 1 < 24 {
                (h + 1, 0, 0, 0)
            } else {
                (0, 0, 0, 0)
            };
            if df && nm % 10 != 0 && ns == 0 && nf < 2 {
                (nh, nm, ns, 2)
            } else {
                (nh, nm, ns, nf)
            }
        } else {
            let (ph, pm, ps, pf) = if f > 0 {
                (h, m, s, f - 1)
            } else if s > 0 {
                (h, m, s - 1, fps - 1)
            } else if m > 0 {
                (h, m - 1, 59, fps - 1)
            } else if h > 0 {
                (h - 1, 59, 59, fps - 1)
            } else {
                (23, 59, 59, fps - 1)
            };
            if df && pm % 10 != 0 && ps == 0 && pf < 2 {
                (ph, pm - 1, 59, fps - 1)
            } else {
                (ph, pm, ps, pf)
            }
        };
        let mut d = write_time(self.data, h2, m2, s2, f2);
        if date_steps {
            let (y2, mo2, day2) = if forward {
                if day + 1 > month_days(mo, y) {
                    if mo + 1 > 12 {
                        ((y + 1) % 100, 1, 1)
                    } else {
                        (y, mo + 1, 1)
                    }
                } else {
                    (y, mo, day + 1)
                }
            } else {
                if day > 1 {
                    (y, mo, day - 1)
                } else if mo == 1 {
                    ((y + 99) % 100, 12, 31)
                } else {
                    (y, mo - 1, month_days(mo - 1, y))
                }
            };
            d = write_ymd(d, y2, mo2, day2);
        }
        self.data = d;
        if !flags.contains(LtcBgFlagsKind::LTC_NO_PARITY) {
            self.set_parity(standard);
        }
        if wrapped {
            Ok(TimecodeWasWrapped::Yes)
        } else {
            Ok(TimecodeWasWrapped::No)
        }
    }

    /// Moves the frame one frame forward at `fps` frames per second (see
    /// `stepped`) and says whether midnight was passed. A frame without a
    /// time that can be stepped is left as it is and gives an error.
    pub fn increment(&mut self, fps: i32, standard: LTCTVStandard, flags: LtcBgFlags) -> (r:
        Result<TimecodeWasWrapped, TimecodeError>)
        ensures
            old(self).can_step(fps as int) ==> {
                &&& r == Ok::<TimecodeWasWrapped, TimecodeError>(
                    if wraps_forward(old(self).time_of(), fps as int) {
                        TimecodeWasWrapped::Yes
                    } else {
                        TimecodeWasWrapped::No
                    },
                )
                &&& *final(self) == stepped(*old(self), fps as int, standard, flags, true)
                &&& final(self).time_of() == step_forward(
                    old(self).time_of(),
                    fps as int,
                    old(self).drop_frame(),
                )
                &&& old(self).steps_date(fps as int, flags, true) ==> final(self).date_of()
                    == next_date(old(self).date_of())
                &&& !old(self).steps_date(fps as int, flags, true) ==> final(self).date_of()
                    == old(self).date_of()
                &&& time_valid(final(self).time_of(), fps as int)
                &&& final(self).sync_word == old(self).sync_word
                &&& !flags.has(LtcBgFlagsKind::LTC_NO_PARITY) ==> parity_even(*final(self))
            },
            !old(self).can_step(fps as int) ==> r == Err::<
                TimecodeWasWrapped,
                TimecodeError,
            >(TimecodeError::InvalidReturn) && *final(self) == *old(self),
    {
        let r = self.step(fps, standard, flags, true);
        proof {
            if old(self).can_step(fps as int) {
                lemma_stepped_reads(*old(self), fps as int, standard, flags, true);
            }
        }
        r
    }

    /// Moves the frame one frame back at `fps` frames per second (see
    /// `stepped`) and says whether midnight was passed. A frame without a
    /// time that can be stepped is left as it is and gives an error.
    pub fn decrement(&mut self, fps: i32, standard: LTCTVStandard, flags: LtcBgFlags) -> (r:
        Result<TimecodeWasWrapped, TimecodeError>)
        ensures
            old(self).can_step(fps as int) ==> {
                &&& r == Ok::<TimecodeWasWrapped, TimecodeError>(
                    if wraps_back(old(self).time_of()) {
                        TimecodeWasWrapped::Yes
                    } else {
                        TimecodeWasWrapped::No
                    },
                )
                &&& *final(self) == stepped(*old(self), fps as int, standard, flags, false)
                &&& final(self).time_of() == step_back(
                    old(self).time_of(),
                    fps as int,
                    old(self).drop_frame(),
                )
                &&& old(self).steps_date(fps as int, flags, false) ==> final(self).date_of()
                    == prev_date(old(self).date_of())
                &&& !old(self).steps_date(fps as int, flags, false) ==> final(self).date_of()
                    == old(self).date_of()
                &&& time_valid(final(self).time_of(), fps as int)
                &&& final(self).sync_word == old(self).sync_word
                &&& !flags.has(LtcBgFlagsKind::LTC_NO_PARITY) ==> parity_even(*final(self))
            },
            !old(self).can_step(fps as int) ==> r == Err::<
                TimecodeWasWrapped,
                TimecodeError,
            >(TimecodeError::InvalidReturn) && *final(self) == *old(self),
    {
        let r = self.step(fps, standard, flags, false);
        proof {
            if old(self).can_step(fps as int) {
                lemma_stepped_reads(*old(self), fps as int, standard, flags, false);
            }
        }
        r
    }
}

fn month_days(mo: u64, y: u64) -> (r: u64)
    ensures
        r == days_in_month(mo as int, y as int),
{
    if mo == 2 {
        if y % 4 == 0 {
            29
        } else {
            28
        }
    } else if mo == 4 || mo == 6 || mo == 9 || mo == 11 {
        30
    } else {
        31
    }
}

/// A stepped frame reads as the stepped time, and as the stepped date when
/// the step passed midnight with dates on.
proof fn lemma_stepped_reads(
    f: LTCFrame,
    fps: int,
    standard: LTCTVStandard,
    flags: LtcBgFlags,
    forward: bool,
)
    requires
        f.can_step(fps),
    ensures
        stepped(f, fps, standard, flags, forward).time_of() == (if forward {
            step_forward(f.time_of(), fps, f.drop_frame())
        } else {
            step_back(f.time_of(), fps, f.drop_frame())
        }),
        stepped(f, fps, standard, flags, forward).drop_frame() == f.drop_frame(),
        time_valid(stepped(f, fps, standard, flags, forward).time_of(), fps),
        stepped(f, fps, standard, flags, forward).sync_word == f.sync_word,
        !flags.has(LtcBgFlagsKind::LTC_NO_PARITY) ==> parity_even(
            stepped(f, fps, standard, flags, forward),
        ),
        !f.steps_date(fps, flags, forward) ==> stepped(f, fps, standard, flags, forward).date_of()
            == f.date_of(),
        f.steps_date(fps, flags, forward) ==> stepped(
            f,
            fps,
            standard,
            flags,
            forward,
        ).date_of() == (if forward {
            next_date(f.date_of())
        } else {
            prev_date(f.date_of())
        }),
{
    let t = f.time_of();
    let n = if forward {
        step_forward(t, fps, f.drop_frame())
    } else {
        step_back(t, fps, f.drop_frame())
    };
    let d1 = written_time(f.data, n.0 as u64, n.1 as u64, n.2 as u64, n.3 as u64);
    lemma_written_time_reads(f.data, n.0 as u64, n.1 as u64, n.2 as u64, n.3 as u64);
    let nd = if forward {
        next_date(f.date_of())
    } else {
        prev_date(f.date_of())
    };
    let d2 = if f.steps_date(fps, flags, forward) {
        lemma_written_ymd_reads(d1, nd.0 as u64, nd.1 as u64, nd.2 as u64);
        written_ymd(d1, nd.0 as u64, nd.1 as u64, nd.2 as u64)
    } else {
        d1
    };
    let g = LTCFrame { data: d2, sync_word: f.sync_word };
    lemma_parity_keeps_fields(g, standard);
    lemma_with_parity_even(g, standard);
}

/// The parity bit lies outside the time and user fields.
proof fn lemma_parity_keeps_fields(g: LTCFrame, standard: LTCTVStandard)
    ensures
        with_parity(g, standard).time_of() == g.time_of(),
        with_parity(g, standard).date_of() == g.date_of(),
        with_parity(g, standard).drop_frame() == g.drop_frame(),
{
    lemma_fields();
}

proof fn lemma_written_time_reads(d: u64, h: u64, m: u64, s: u64, f: u64)
    requires
        h < 24,
        m < 60,
        s < 60,
        f < 40,
    ensures
        (LTCFrame { data: written_time(d, h, m, s, f), sync_word: 0 }).time_of() == (
            h as int,
            m as int,
            s as int,
            f as int,
        ),
        (LTCFrame { data: written_time(d, h, m, s, f), sync_word: 0 }).date_of() == (LTCFrame {
            data: d,
            sync_word: 0,
        }).date_of(),
        (LTCFrame { data: written_time(d, h, m, s, f), sync_word: 0 }).drop_frame() == (LTCFrame {
            data: d,
            sync_word: 0,
        }).drop_frame(),
{
    lemma_fields();
    lemma_masks();
}

proof fn lemma_written_ymd_reads(d: u64, y: u64, mo: u64, day: u64)
    requires
        y < 100,
        mo < 100,
        day < 100,
    ensures
        (LTCFrame { data: written_ymd(d, y, mo, day), sync_word: 0 }).date_of() == (
            y as int,
            mo as int,
            day as int,
        ),
        (LTCFrame { data: written_ymd(d, y, mo, day), sync_word: 0 }).time_of() == (LTCFrame {
            data: d,
            sync_word: 0,
        }).time_of(),
        (LTCFrame { data: written_ymd(d, y, mo, day), sync_word: 0 }).drop_frame() == (LTCFrame {
            data: d,
            sync_word: 0,
        }).drop_frame(),
{
    lemma_fields();
    lemma_masks();
}

/// Offset in samples between the start of the LTC frame and the start of
/// the video frame: the nearest whole number to 4/525 of a frame for the
/// 525-line standard and to 1/625 of a frame for the 625-line standard;
/// 0 for the others.
pub fn calc_frame_alignment(samples_per_frame: u32, standard: LTCTVStandard) -> (r: i64)
    ensures
        standard == LTCTVStandard::LTCTV_525_60 ==> r == (4 * samples_per_frame + 262) / 525,
        standard == LTCTVStandard::LTCTV_625_50 ==> r == (samples_per_frame + 312) / 625,
        standard != LTCTVStandard::LTCTV_525_60 && standard != LTCTVStandard::LTCTV_625_50 ==> r
            == 0,
{
    let spf = samples_per_frame as i64;
    match standard {
        LTCTVStandard::LTCTV_525_60 => (4 * spf + 262) / 525,
        LTCTVStandard::LTCTV_625_50 => (spf + 312) / 625,
        _ => 0,
    }
}

impl Default for LTCFrame {
    fn default() -> (r: Self)
        ensures
            r == zero_frame(),
    {
        Self::new()
    }
}

fn write_time(d: u64, h: u64, m: u64, s: u64, f: u64) -> (r: u64)
    ensures
        r == written_time(d, h, m, s, f),
{
    let mut d = put_field(d, FRAME_UNITS, 4, f % 10);
    d = put_field(d, FRAME_TENS, 2, f / 10);
    d = put_field(d, SECS_UNITS, 4, s % 10);
    d = put_field(d, SECS_TENS, 3, s / 10);
    d = put_field(d, MINS_UNITS, 4, m % 10);
    d = put_field(d, MINS_TENS, 3, m / 10);
    d = put_field(d, HOURS_UNITS, 4, h % 10);
    put_field(d, HOURS_TENS, 2, h / 10)
}

fn write_ymd(d: u64, y: u64, mo: u64, day: u64) -> (r: u64)
    ensures
        r == written_ymd(d, y, mo, day),
{
    let mut d = put_field(d, USER1, 4, day % 10);
    d = put_field(d, USER2, 4, day / 10);
    d = put_field(d, USER3, 4, mo % 10);
    d = put_field(d, USER4, 4, mo / 10);
    d = put_field(d, USER5, 4, y % 10);
    put_field(d, USER6, 4, y / 10)
}

fn fix_drop_frame(d: u64) -> (r: u64)
    ensures
        r == drop_fixed(d),
{
    let fu = get_field(d, FRAME_UNITS, 4);
    if get_field(d, DFBIT, 1) == 1 && get_field(d, MINS_UNITS, 4) != 0 && get_field(d, SECS_UNITS, 4)
        == 0 && get_field(d, SECS_TENS, 3) == 0 && get_field(d, FRAME_TENS, 2) == 0 && fu < 2 {
        put_field(d, FRAME_UNITS, 4, fu + 2)
    } else {
        d
    }
}

proof fn lemma_flag_word(date: u32, clock: u32, bad: u32)
    by (bit_vector)
    requires
        date <= 1,
        clock <= 1,
        bad <= 1,
    ensures
        ((date + 2 * clock + 8 * bad) as u32 & 1 != 0) == (date == 1),
        ((date + 2 * clock + 8 * bad) as u32 & 2 != 0) == (clock == 1),
        ((date + 2 * clock + 8 * bad) as u32 & 8 != 0) == (bad == 1),
        (date + 2 * clock + 8 * bad) as u32 & 4 == 0,
{
}

proof fn lemma_nibbles(x: u32)
    by (bit_vector)
    ensures
        x >> 0u32 == x,
        x == (x & 15) + 16 * ((x >> 4) & 15) + 256 * ((x >> 8) & 15) + 4096 * ((x >> 12) & 15)
            + 65536 * ((x >> 16) & 15) + 1048576 * ((x >> 20) & 15) + 16777216 * ((x >> 24) & 15)
            + 268435456 * ((x >> 28) & 15),
        (x as u64 & 15) == (x & 15) as u64,
        ((x as u64 >> 4) & 15) == ((x >> 4) & 15) as u64,
        ((x as u64 >> 8) & 15) == ((x >> 8) & 15) as u64,
        ((x as u64 >> 12) & 15) == ((x >> 12) & 15) as u64,
        ((x as u64 >> 16) & 15) == ((x >> 16) & 15) as u64,
        ((x as u64 >> 20) & 15) == ((x >> 20) & 15) as u64,
        ((x as u64 >> 24) & 15) == ((x >> 24) & 15) as u64,
        ((x as u64 >> 28) & 15) == ((x >> 28) & 15) as u64,
{
}

proof fn lemma_with_parity_even(f: LTCFrame, standard: LTCTVStandard)
    ensures
        parity_even(with_parity(f, standard)),
{
    lemma_fields();
    lemma_masks();
    let p = parity_pos(standard);
    let d0 = with_field(f.data, p, 1, 0);
    let c = ones(d0, 64) + ones(f.sync_word as u64, 16);
    assert(field(d0, p, 1) == 0);
    lemma_ones_with_bit(d0, p, (c % 2) as u64, 64);
}

/// A frame whose parity bit was just set passes the parity check, and
/// inverting any one of its 64 data bits makes the check fail.
pub proof fn lemma_parity_detects_flip(f: LTCFrame, standard: LTCTVStandard, k: u64)
    requires
        k < 64,
    ensures
        parity_even(with_parity(f, standard)),
        !parity_even(flip_bit(with_parity(f, standard), k)),
{
    lemma_with_parity_even(f, standard);
    lemma_fields();
    lemma_masks();
    let g = with_parity(f, standard);
    assert(field(g.data, k, 1) <= 1);
    lemma_ones_with_bit(g.data, k, (1 - field(g.data, k, 1)) as u64, 64);
}

/// Parsing the flags of a frame reports the parity as valid right after the
/// parity bit was set, and as failed once any data bit is inverted.
pub proof fn lemma_parse_after_set_parity(
    f: LTCFrame,
    standard: LTCTVStandard,
    k: u64,
    good: LtcBgFlags,
    bad: LtcBgFlags,
)
    requires
        k < 64,
        with_parity(f, standard).reports(standard, good),
        flip_bit(with_parity(f, standard), k).reports(standard, bad),
    ensures
        !good.has(LtcBgFlagsKind::LTC_NO_PARITY),
        bad.has(LtcBgFlagsKind::LTC_NO_PARITY),
{
    lemma_parity_detects_flip(f, standard, k);
}

/// A frame built from a fresh frame and a timecode whose fields are in
/// range reads back as a timecode that builds exactly the same frame.
pub proof fn lemma_timecode_round_trip(
    tc: SMPTETimecode,
    standard: LTCTVStandard,
    flags: LtcBgFlags,
    back: SMPTETimecode,
)
    requires
        tc.time_valid(standard.spec_fps()),
        flags.has(LtcBgFlagsKind::LTC_USE_DATE) ==> tc.date_valid(),
        time_to_frame(zero_frame(), tc, standard, flags).decodes_to(flags, back),
    ensures
        time_to_frame(zero_frame(), back, standard, flags) == time_to_frame(
            zero_frame(),
            tc,
            standard,
            flags,
        ),
{
    lemma_fields();
    lemma_masks();
    let f = time_to_frame(zero_frame(), tc, standard, flags);
    let use_date = flags.has(LtcBgFlagsKind::LTC_USE_DATE);
    let zc = zone_code(tc.timezone.0@) as u64;
    let d1 = if use_date {
        written_date(0, tc.years as u64, tc.months as u64, tc.days as u64, zc)
    } else {
        0
    };
    let d2w = written_time(d1, tc.hours as u64, tc.mins as u64, tc.secs as u64, tc.frame as u64);
    assert(field(d2w, DFBIT, 1) == 0);
    assert(drop_fixed(d2w) == d2w);
    assert(f.spec_hours() == tc.hours);
    assert(f.spec_mins() == tc.mins);
    assert(f.spec_secs() == tc.secs);
    assert(f.spec_frame() == tc.frame);
    if use_date {
        assert(f.spec_years() == tc.years);
        assert(f.spec_months() == tc.months);
        assert(f.spec_days() == tc.days);
        assert(f.user(7) == zc % 16);
        assert(f.user(8) == zc / 16);
        assert(f.spec_zone() == zc);
        lemma_zone_code_stable(tc.timezone.0@);
        assert(zone_code(back.timezone.0@) == zc);
    }
}

/// `n` forward steps of `f` (see `stepped`): what `n` successful calls of
/// `increment` make of it.
pub open spec fn stepped_n(
    f: LTCFrame,
    fps: int,
    standard: LTCTVStandard,
    flags: LtcBgFlags,
    n: nat,
) -> LTCFrame
    decreases n,
{
    if n == 0 {
        f
    } else {
        stepped(stepped_n(f, fps, standard, flags, (n - 1) as nat), fps, standard, flags, true)
    }
}

/// Without drop-frame numbering, every one of `n` forward steps
/// from a valid time can be taken (so each `increment` succeeds), and the
/// frame's time after them is the clock time `n` frames on.
pub proof fn lemma_steps_follow_clock(
    f: LTCFrame,
    fps: int,
    standard: LTCTVStandard,
    flags: LtcBgFlags,
    n: nat,
)
    requires
        1 <= fps <= 40,
        time_valid(f.time_of(), fps),
        !f.drop_frame(),
    ensures
        forall|k: nat| k < n ==> #[trigger] stepped_n(f, fps, standard, flags, k).can_step(fps),
        stepped_n(f, fps, standard, flags, n).time_of() == advance(f.time_of(), fps, n),
        !stepped_n(f, fps, standard, flags, n).drop_frame(),
    decreases n,
{
    if n > 0 {
        let m = (n - 1) as nat;
        lemma_steps_follow_clock(f, fps, standard, flags, m);
        let g = stepped_n(f, fps, standard, flags, m);
        lemma_advance_valid(f.time_of(), fps, m);
        assert(g.can_step(fps));
        lemma_stepped_reads(g, fps, standard, flags, true);
        assert forall|k: nat| k < n implies #[trigger] stepped_n(f, fps, standard, flags, k).can_step(fps) by {
            if k == m {
            }
        }
    }
}

/// Without drop-frame numbering, `fps` successful increments bring a frame
/// back to its frame number with the time one second on, and `60 * fps`
/// bring it back to its seconds and frame number with the minutes one on.
pub proof fn lemma_increments_make_second_and_minute(
    f: LTCFrame,
    fps: int,
    standard: LTCTVStandard,
    flags: LtcBgFlags,
)
    requires
        1 <= fps <= 40,
        time_valid(f.time_of(), fps),
        !f.drop_frame(),
    ensures
        stepped_n(f, fps, standard, flags, fps as nat).time_of() == second_after(f.time_of()),
        f.time_of().1 < 59 ==> stepped_n(f, fps, standard, flags, (60 * fps) as nat).time_of() == (
            f.time_of().0,
            f.time_of().1 + 1,
            f.time_of().2,
            f.time_of().3,
        ),
{
    lemma_steps_follow_clock(f, fps, standard, flags, fps as nat);
    lemma_steps_follow_clock(f, fps, standard, flags, (60 * fps) as nat);
    lemma_fps_steps_make_a_second(f.time_of(), fps);
    if f.time_of().1 < 59 {
        lemma_minute_of_steps(f.time_of(), fps);
    }
}

} // verus!
