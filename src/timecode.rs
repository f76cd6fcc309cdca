use vstd::prelude::*;

use crate::error::TimecodeError;

verus! {

/// ASCII code of a decimal digit.
pub open spec fn is_digit(c: i8) -> bool {
    48 <= c <= 57
}

/// Binary-coded decimal of a value below 100: tens in the high nibble.
pub open spec fn bcd(v: int) -> int {
    (v / 10) * 16 + v % 10
}

/// The SMPTE 309M time-zone code of a textual offset `[+-]HH00`.
/// Whole-hour offsets from -12 to +13 have a code; any other text gets
/// code 0, the code of UTC.
pub open spec fn zone_code(tz: Seq<i8>) -> u8 {
    if tz.len() >= 5 && is_digit(tz[1]) && is_digit(tz[2]) && tz[3] == 48 && tz[4] == 48 {
        let h = (tz[1] - 48) * 10 + (tz[2] - 48);
        if tz[0] == 45 && h <= 12 {
            bcd(h) as u8
        } else if tz[0] == 43 && 1 <= h <= 13 {
            bcd(26 - h) as u8
        } else {
            0
        }
    } else {
        0
    }
}

/// The text `s HH 0 0 NUL` for a sign character and an hour below 100.
pub open spec fn zone_text(sign: i8, h: int) -> Seq<i8> {
    seq![sign, (48 + h / 10) as i8, (48 + h % 10) as i8, 48i8, 48i8, 0i8]
}

/// The textual offset that a time-zone code stands for; codes without a
/// whole-hour offset read as UTC.
pub open spec fn zone_of_code(c: u8) -> Seq<i8> {
    let hi = c / 16;
    let lo = c % 16;
    let v = hi * 10 + lo;
    if hi <= 9 && lo <= 9 && 1 <= v <= 12 {
        zone_text(45, v as int)
    } else if hi <= 9 && lo <= 9 && 13 <= v <= 25 {
        zone_text(43, 26 - v)
    } else {
        zone_text(43, 0)
    }
}

/// Reading a zone code back as text and coding that text again gives the
/// same code.
pub proof fn lemma_zone_code_stable(tz: Seq<i8>)
    ensures
        zone_code(zone_of_code(zone_code(tz))) == zone_code(tz),
{
}

/// A six-character textual UTC offset such as `+0100`, NUL padded.
#[derive(Debug, Clone, Copy, PartialEq, Eq)]
pub struct Timezone(pub [i8; 6]);

impl Timezone {
    pub fn new(timezone: [i8; 6]) -> (r: Self)
        ensures
            r.0 == timezone,
    {
        Timezone(timezone)
    }

    pub fn to_raw(&self) -> (r: [i8; 6])
        ensures
            r == self.0,
    {
        self.0
    }

    /// The offset given as ASCII bytes.
    pub fn from_bytes(bytes: [u8; 6]) -> (r: Self)
        ensures
            forall|i: int| 0 <= i < 6 ==> r.0@[i] == bytes@[i] as i8,
    {
        let mut out: [i8; 6] = [0i8; 6];
        let mut i: usize = 0;
        while i < 6
            invariant
                0 <= i <= 6,
                forall|j: int| 0 <= j < i ==> out@[j] == bytes@[j] as i8,
            decreases 6 - i,
        {
            out[i] = bytes[i] as i8;
            i = i + 1;
        }
        Timezone(out)
    }

    /// The SMPTE time-zone code of this offset.
    pub fn code(&self) -> (r: u8)
        ensures
            r == zone_code(self.0@),
    {
        let tz = &self.0;
        let c1 = tz[1];
        let c2 = tz[2];
        if 48 <= c1 && c1 <= 57 && 48 <= c2 && c2 <= 57 && tz[3] == 48 && tz[4] == 48 {
            let h: i8 = (c1 - 48) * 10 + (c2 - 48);
            if tz[0] == 45 && h <= 12 {
                ((h / 10) * 16 + h % 10) as u8
            } else if tz[0] == 43 && 1 <= h && h <= 13 {
                let v: i8 = 26 - h;
                ((v / 10) * 16 + v % 10) as u8
            } else {
                0
            }
        } else {
            0
        }
    }

    /// The offset that a SMPTE time-zone code stands for.
    pub fn from_code(c: u8) -> (r: Self)
        ensures
            r.0@ == zone_of_code(c),
    {
        let hi = c / 16;
        let lo = c % 16;
        let (sign, h): (i8, u8) = if hi <= 9 && lo <= 9 && 1 <= hi * 10 + lo && hi * 10 + lo
            <= 12 {
            (45, hi * 10 + lo)
        } else if hi <= 9 && lo <= 9 && 13 <= hi * 10 + lo && hi * 10 + lo <= 25 {
            (43, 26 - (hi * 10 + lo))
        } else {
            (43, 0)
        };
        let r = Timezone([sign, (48 + h / 10) as i8, (48 + h % 10) as i8, 48i8, 48i8, 0i8]);
        assert(r.0@ =~= zone_of_code(c));
        r
    }
}

impl Default for Timezone {
    fn default() -> (r: Self)
        ensures
            r.0@ == zone_text(43, 0),
    {
        let r = Timezone([43i8, 48i8, 48i8, 48i8, 48i8, 0i8]);
        assert(r.0@ =~= zone_text(43, 0));
        r
    }
}

/// A time of day with frame number, and an optional date with time zone.
#[derive(Debug, Clone, Copy, PartialEq, Eq)]
pub struct SMPTETimecode {
    pub timezone: Timezone,
    /// Two-digit year, 0 to 99.
    pub years: u8,
    pub months: u8,
    pub days: u8,
    pub hours: u8,
    pub mins: u8,
    pub secs: u8,
    pub frame: u8,
}

/// The year that a two-digit year stands for: 1967 to 2066.
pub open spec fn century_year(years: int) -> int {
    if years < 67 {
        2000 + years
    } else {
        1900 + years
    }
}

impl SMPTETimecode {
    /// Time fields within a day at `fps` frames per second.
    pub open spec fn time_valid(self, fps: int) -> bool {
        self.hours < 24 && self.mins < 60 && self.secs < 60 && self.frame < fps
    }

    /// Date fields of a calendar date with a two-digit year.
    pub open spec fn date_valid(self) -> bool {
        self.years < 100 && 1 <= self.months <= 12 && 1 <= self.days <= 31
    }

    #[allow(clippy::too_many_arguments)]
    pub fn new(
        timezone: Timezone,
        years: u8,
        months: u8,
        days: u8,
        hours: u8,
        minutes: u8,
        seconds: u8,
        frame: u8,
    ) -> (r: Self)
        ensures
            r == (SMPTETimecode {
                timezone,
                years,
                months,
                days,
                hours,
                mins: minutes,
                secs: seconds,
                frame,
            }),
    {
        SMPTETimecode { timezone, years, months, days, hours, mins: minutes, secs: seconds, frame }
    }

    pub fn timezone(&self) -> (r: Timezone)
        ensures
            r == self.timezone,
    {
        self.timezone
    }

    pub fn years(&self) -> (r: u8)
        ensures
            r == self.years,
    {
        self.years
    }

    pub fn months(&self) -> (r: u8)
        ensures
            r == self.months,
    {
        self.months
    }

    pub fn days(&self) -> (r: u8)
        ensures
            r == self.days,
    {
        self.days
    }

    pub fn hours(&self) -> (r: u8)
        ensures
            r == self.hours,
    {
        self.hours
    }

    pub fn minutes(&self) -> (r: u8)
        ensures
            r == self.mins,
    {
        self.mins
    }

    pub fn seconds(&self) -> (r: u8)
        ensures
            r == self.secs,
    {
        self.secs
    }

    pub fn frame(&self) -> (r: u8)
        ensures
            r == self.frame,
    {
        self.frame
    }

    /// The four-digit year, by the rule that two-digit years below 67 are
    /// in the 2000s and the others in the 1900s.
    pub fn full_year(&self) -> (r: u16)
        ensures
            r == century_year(self.years as int),
    {
        if self.years < 67 {
            2000 + self.years as u16
        } else {
            1900 + self.years as u16
        }
    }
}

impl Default for SMPTETimecode {
    fn default() -> (r: Self)
        ensures
            r.timezone.0@ == zone_text(43, 0),
            r.years == 0 && r.months == 0 && r.days == 0,
            r.hours == 0 && r.mins == 0 && r.secs == 0 && r.frame == 0,
    {
        SMPTETimecode {
            timezone: Timezone::default(),
            years: 0,
            months: 0,
            days: 0,
            hours: 0,
            mins: 0,
            secs: 0,
            frame: 0,
        }
    }
}

/// Whether a timecode step went past midnight.
#[derive(Debug, Clone, Copy, PartialEq, Eq, Structural)]
pub enum TimecodeWasWrapped {
    No,
    Yes,
}

impl TimecodeWasWrapped {
    /// Reads a step outcome coded as 0 (not wrapped) or 1 (wrapped); any
    /// other code is an error.
    pub fn from_raw(code: i32) -> (r: Result<TimecodeWasWrapped, TimecodeError>)
        ensures
            code == 0 ==> r == Ok::<TimecodeWasWrapped, TimecodeError>(TimecodeWasWrapped::No),
            code == 1 ==> r == Ok::<TimecodeWasWrapped, TimecodeError>(TimecodeWasWrapped::Yes),
            code != 0 && code != 1 ==> r == Err::<TimecodeWasWrapped, TimecodeError>(
                TimecodeError::InvalidReturn,
            ),
    {
        match code {
            0 => Ok(TimecodeWasWrapped::No),
            1 => Ok(TimecodeWasWrapped::Yes),
            _ => Err(TimecodeError::InvalidReturn),
        }
    }
}

/// The television systems whose frame rates LTC serves.
#[allow(non_camel_case_types)]
#[derive(Debug, Clone, Copy, PartialEq, Eq, Structural)]
pub enum LTCTVStandard {
    /// 525 lines, 60 fields: 30 frames per second, drop-frame optional.
    LTCTV_525_60,
    /// 625 lines, 50 fields: 25 frames per second.
    LTCTV_625_50,
    /// 1125 lines, 60 fields: 30 frames per second.
    LTCTV_1125_60,
    /// Film: 24 frames per second.
    LTCTV_FILM_24,
}

impl LTCTVStandard {
    pub open spec fn spec_fps(self) -> int {
        match self {
            LTCTVStandard::LTCTV_625_50 => 25,
            LTCTVStandard::LTCTV_FILM_24 => 24,
            _ => 30,
        }
    }

    /// Nominal whole frames per second.
    pub fn fps(self) -> (r: u8)
        ensures
            r == self.spec_fps(),
    {
        match self {
            LTCTVStandard::LTCTV_625_50 => 25,
            LTCTVStandard::LTCTV_FILM_24 => 24,
            _ => 30,
        }
    }

    /// Number of the standard, in the order the variants are listed.
    pub fn to_raw(self) -> (r: u32)
        ensures
            self == LTCTVStandard::LTCTV_525_60 ==> r == 0,
            self == LTCTVStandard::LTCTV_625_50 ==> r == 1,
            self == LTCTVStandard::LTCTV_1125_60 ==> r == 2,
            self == LTCTVStandard::LTCTV_FILM_24 ==> r == 3,
    {
        match self {
            LTCTVStandard::LTCTV_525_60 => 0,
            LTCTVStandard::LTCTV_625_50 => 1,
            LTCTVStandard::LTCTV_1125_60 => 2,
            LTCTVStandard::LTCTV_FILM_24 => 3,
        }
    }

    /// Whether frame numbers may be dropped under this standard.
    pub fn allows_drop_frame(self) -> (r: bool)
        ensures
            r == (self == LTCTVStandard::LTCTV_525_60),
    {
        match self {
            LTCTVStandard::LTCTV_525_60 => true,
            _ => false,
        }
    }
}

impl Default for LTCTVStandard {
    fn default() -> (r: Self)
        ensures
            r == LTCTVStandard::LTCTV_525_60,
    {
        LTCTVStandard::LTCTV_525_60
    }
}

} // verus!
