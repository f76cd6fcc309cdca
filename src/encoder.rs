use vstd::prelude::*;

use crate::bits::{field, get_field, put_field, with_field};
use crate::clock::{step_back, step_forward};
use crate::consts::{LtcBgFlags, LtcBgFlagsKind};
use crate::error::{LTCEncoderError, TimecodeError};
use crate::frame::{
    char_flag_pos, date_flag_pos, stepped, time_to_frame, with_parity, written_bgf, zero_frame,
    LTCFrame, BGF_58, DFBIT,
};
use crate::timecode::{LTCTVStandard, SMPTETimecode, TimecodeWasWrapped};
use crate::wave::{level_target, render, wave};

verus! {

/// Largest output buffer, in samples, that an encoder takes on.
pub const LTC_MAX_BUFFER_SIZE: usize = 16777216;

/// Peak distance from the centre of a new encoder's signal: -3 dBFS.
pub const DEFAULT_AMPLITUDE: u8 = 90;

/// Rise time, in microseconds, of a new encoder's signal edges.
pub const DEFAULT_RISE_TIME_US: u32 = 40;

/// A frame rate as the fraction `num / den` frames per second
/// (25 as 25/1, NTSC as 30000/1001).
#[derive(Debug, Clone, Copy, PartialEq, Eq, Structural)]
pub struct FrameRate {
    pub num: u32,
    pub den: u32,
}

impl FrameRate {
    pub open spec fn valid(self) -> bool {
        self.num > 0 && self.den > 0
    }

    /// Whole frames per second, rounded up (30 for NTSC).
    pub open spec fn spec_whole(self) -> int {
        (self.num + self.den - 1) / self.den as int
    }

    /// The NTSC rate: 29.97 when rounded to hundredths.
    pub open spec fn spec_is_ntsc(self) -> bool {
        (100 * self.num + self.den / 2) / self.den as int == 2997
    }

    pub fn new(num: u32, den: u32) -> (r: Self)
        ensures
            r == (FrameRate { num, den }),
    {
        FrameRate { num, den }
    }

    pub open spec fn whole_spec(fps: u32) -> FrameRate {
        FrameRate { num: fps, den: 1 }
    }

    /// `fps` frames per second.
    pub fn whole(fps: u32) -> (r: Self)
        ensures
            r == (FrameRate { num: fps, den: 1 }),
    {
        FrameRate { num: fps, den: 1 }
    }

    fn is_ntsc(self) -> (r: bool)
        requires
            self.valid(),
        ensures
            r == self.spec_is_ntsc(),
    {
        (100 * self.num as u64 + self.den as u64 / 2) / self.den as u64 == 2997
    }
}

/// Samples that one frame at `fps` takes at `sample_rate`, rounded up, plus one.
pub open spec fn required_size(sample_rate: u32, fps: FrameRate) -> int {
    1 + (sample_rate * fps.den + fps.num - 1) / fps.num as int
}

/// A sample rate and frame rate that an encoder can be set up for.
pub open spec fn rates_ok(sample_rate: u32, fps: FrameRate) -> bool {
    sample_rate > 0 && fps.valid() && required_size(sample_rate, fps) <= LTC_MAX_BUFFER_SIZE
}

fn buffer_size_for(sample_rate: u32, fps: FrameRate) -> (r: Option<usize>)
    ensures
        rates_ok(sample_rate, fps) ==> r == Some(required_size(sample_rate, fps) as usize),
        !rates_ok(sample_rate, fps) ==> r is None,
{
    if sample_rate == 0 || fps.num == 0 || fps.den == 0 {
        return None;
    }
    proof {
        assert(sample_rate * fps.den <= 0xffff_ffffu64 * 0xffff_ffffu64) by (nonlinear_arith)
            requires
                sample_rate <= 0xffff_ffffu32,
                fps.den <= 0xffff_ffffu32,
        ;
    }
    let size = 1 + (sample_rate as u128 * fps.den as u128 + fps.num as u128 - 1) / fps.num as u128;
    if size > LTC_MAX_BUFFER_SIZE as u128 {
        None
    } else {
        Some(size as usize)
    }
}

/// The frame as the encoder sets it up: drop-frame bit on for the NTSC
/// rate, binary-group flags from `flags` unless it says to leave them, and
/// the parity bit unless declined.
pub open spec fn configured_frame(
    f: LTCFrame,
    fps: FrameRate,
    standard: LTCTVStandard,
    flags: LtcBgFlags,
) -> LTCFrame {
    let d0 = with_field(
        f.data,
        DFBIT,
        1,
        if fps.spec_is_ntsc() {
            1
        } else {
            0
        },
    );
    let d1 = if flags.has(LtcBgFlagsKind::LTC_BGF_DONT_TOUCH) {
        d0
    } else {
        written_bgf(d0, standard, flags)
    };
    let g = LTCFrame { data: d1, sync_word: f.sync_word };
    if flags.has(LtcBgFlagsKind::LTC_NO_PARITY) {
        g
    } else {
        with_parity(g, standard)
    }
}

/// Bit `i` of a frame, in the order of sending.
pub open spec fn frame_bit(f: LTCFrame, i: int) -> bool {
    if i < 64 {
        field(f.data, i as u64, 1) == 1
    } else {
        field(f.sync_word as u64, (i - 64) as u64, 1) == 1
    }
}

/// The 80 bits of a frame in the order of sending.
pub open spec fn frame_bits(f: LTCFrame) -> Seq<bool> {
    Seq::new(80, |i: int| frame_bit(f, i))
}

/// The 8 bits of byte `k` of a frame, first bit first, or last bit first
/// when `backwards`.
pub open spec fn byte_bits(f: LTCFrame, k: int, backwards: bool) -> Seq<bool> {
    if backwards {
        Seq::new(8, |j: int| frame_bit(f, 8 * k + 7 - j))
    } else {
        Seq::new(8, |j: int| frame_bit(f, 8 * k + j))
    }
}

fn frame_bit_of(f: &LTCFrame, i: u64) -> (r: bool)
    requires
        i < 80,
    ensures
        r == frame_bit(*f, i as int),
{
    if i < 64 {
        get_field(f.data, i, 1) == 1
    } else {
        get_field(f.sync_word as u64, i - 64, 1) == 1
    }
}

/// What a well-formed encoder holds: its samples fit in its buffer, the
/// buffer in `LTC_MAX_BUFFER_SIZE`, the rates are positive, the amplitude
/// is 1 to 127 and the carried fraction is below one sample.
pub proof fn lemma_encoder_bounds(e: &LTCEncoder)
    requires
        e.wf(),
    ensures
        e.samples().len() <= e.capacity() <= LTC_MAX_BUFFER_SIZE,
        e.spec_sample_rate() > 0,
        e.spec_fps().valid(),
        1 <= e.spec_amplitude() <= 127,
        0 <= e.carried() < e.cell_q(),
{
}

/// What a timecode step of frame `f` gives: on a frame that can be stepped,
/// whether midnight was passed and the stepped frame `g`; on another, the
/// timecode error and `f` unchanged.
pub open spec fn step_outcome(
    f: LTCFrame,
    fps: int,
    standard: LTCTVStandard,
    flags: LtcBgFlags,
    forward: bool,
    r: Result<TimecodeWasWrapped, LTCEncoderError>,
    g: LTCFrame,
) -> bool {
    if f.can_step(fps) {
        &&& r == Ok::<TimecodeWasWrapped, LTCEncoderError>(
            if f.step_wraps(fps, forward) {
                TimecodeWasWrapped::Yes
            } else {
                TimecodeWasWrapped::No
            },
        )
        &&& g == stepped(f, fps, standard, flags, forward)
        &&& g.time_of() == if forward {
            step_forward(f.time_of(), fps, f.drop_frame())
        } else {
            step_back(f.time_of(), fps, f.drop_frame())
        }
    } else {
        &&& r == Err::<TimecodeWasWrapped, LTCEncoderError>(
            LTCEncoderError::TimecodeError(TimecodeError::InvalidReturn),
        )
        &&& g == f
    }
}

/// Configuration of an encoder.
#[derive(Debug, Clone, Copy, PartialEq, Eq)]
pub struct LTCEncoderConfig {
    /// Samples per second.
    pub sample_rate: u32,
    pub fps: FrameRate,
    pub standard: LTCTVStandard,
    pub flags: LtcBgFlags,
}

impl Default for LTCEncoderConfig {
    fn default() -> (r: Self)
        ensures
            r.sample_rate == 48000,
            r.fps == FrameRate::whole_spec(25),
            r.standard == LTCTVStandard::LTCTV_625_50,
            r.flags.0 == 0,
    {
        LTCEncoderConfig {
            sample_rate: 48000,
            fps: FrameRate { num: 25, den: 1 },
            standard: LTCTVStandard::LTCTV_625_50,
            flags: LtcBgFlags(0),
        }
    }
}

/// Renders LTC frames as unsigned 8-bit PCM into a buffer of bounded size.
#[derive(Debug)]
pub struct LTCEncoder {
    sample_rate: u32,
    fps: FrameRate,
    standard: LTCTVStandard,
    flags: LtcBgFlags,
    frame: LTCFrame,
    buf: Vec<u8>,
    flush_pending: bool,
    bufsize: usize,
    high: bool,
    rem: u128,
    amplitude: u8,
    rise_time_us: u32,
}

impl LTCEncoder {
    pub closed spec fn wf(&self) -> bool {
        &&& self.sample_rate > 0
        &&& self.fps.valid()
        &&& self.bufsize <= LTC_MAX_BUFFER_SIZE
        &&& self.buf@.len() <= self.bufsize
        &&& 1 <= self.amplitude <= 127
        &&& self.rem < self.fps.num * 160
    }

    /// The samples rendered and not yet flushed.
    pub closed spec fn samples(&self) -> Seq<u8> {
        if self.flush_pending {
            Seq::empty()
        } else {
            self.buf@
        }
    }

    /// Most samples the buffer holds.
    pub closed spec fn capacity(&self) -> int {
        self.bufsize as int
    }

    pub closed spec fn spec_frame(&self) -> LTCFrame {
        self.frame
    }

    pub closed spec fn spec_sample_rate(&self) -> u32 {
        self.sample_rate
    }

    pub closed spec fn spec_fps(&self) -> FrameRate {
        self.fps
    }

    pub closed spec fn spec_standard(&self) -> LTCTVStandard {
        self.standard
    }

    pub closed spec fn spec_flags(&self) -> LtcBgFlags {
        self.flags
    }

    pub closed spec fn spec_amplitude(&self) -> int {
        self.amplitude as int
    }

    pub closed spec fn spec_rise_time(&self) -> u32 {
        self.rise_time_us
    }

    /// Signal level at the end of the samples.
    pub closed spec fn level_high(&self) -> bool {
        self.high
    }

    /// Fraction of a sample carried into the next bit cell, in units of `1 / cell_q`.
    pub closed spec fn carried(&self) -> int {
        self.rem as int
    }

    /// Length of a half bit in samples is `cell_unit / cell_q`:
    /// `sample_rate / (160 * fps)`.
    pub open spec fn cell_unit(&self) -> int {
        self.spec_sample_rate() * self.spec_fps().den
    }

    pub open spec fn cell_q(&self) -> int {
        self.spec_fps().num * 160
    }

    /// Samples that an edge takes from the centre to its level: half the
    /// rise time.
    pub open spec fn ramp(&self) -> int {
        self.spec_rise_time() * self.spec_sample_rate() / 2_000_000
    }

    /// The signal of `bits` from where the samples end, at `mult` times the
    /// cell length.
    pub open spec fn wave_of(&self, bits: Seq<bool>, mult: int) -> (Seq<u8>, int, bool) {
        wave(
            bits,
            self.cell_unit() * mult,
            self.cell_q(),
            self.spec_amplitude(),
            self.ramp(),
            self.carried(),
            self.level_high(),
        )
    }

    /// The settings other than the signal agree.
    pub open spec fn same_setup(&self, other: &Self) -> bool {
        &&& self.spec_sample_rate() == other.spec_sample_rate()
        &&& self.spec_fps() == other.spec_fps()
        &&& self.spec_standard() == other.spec_standard()
        &&& self.spec_flags() == other.spec_flags()
        &&& self.capacity() == other.capacity()
        &&& self.spec_amplitude() == other.spec_amplitude()
        &&& self.spec_rise_time() == other.spec_rise_time()
    }

    /// The signal agrees: samples, level and carried fraction.
    pub open spec fn same_signal(&self, other: &Self) -> bool {
        &&& self.samples() == other.samples()
        &&& self.level_high() == other.level_high()
        &&& self.carried() == other.carried()
    }

    /// An encoder for `config`, with an empty buffer of
    /// `1 + ceil(sample_rate / fps)` samples, the zero frame set up for the
    /// configuration, amplitude `DEFAULT_AMPLITUDE` and rise time
    /// `DEFAULT_RISE_TIME_US`. Fails when a rate is zero or the buffer would
    /// exceed `LTC_MAX_BUFFER_SIZE`.
    pub fn try_new(config: &LTCEncoderConfig) -> (r: Result<Self, LTCEncoderError>)
        ensures
            rates_ok(config.sample_rate, config.fps) <==> r is Ok,
            !rates_ok(config.sample_rate, config.fps) ==> r == Err::<Self, LTCEncoderError>(
                LTCEncoderError::CreateError,
            ),
            r matches Ok(e) ==> {
                &&& e.wf()
                &&& e.capacity() == required_size(config.sample_rate, config.fps)
                &&& e.samples().len() == 0
                &&& e.spec_sample_rate() == config.sample_rate
                &&& e.spec_fps() == config.fps
                &&& e.spec_standard() == config.standard
                &&& e.spec_flags() == config.flags
                &&& e.spec_frame() == configured_frame(
                    zero_frame(),
                    config.fps,
                    config.standard,
                    config.flags,
                )
                &&& e.spec_amplitude() == DEFAULT_AMPLITUDE
                &&& e.spec_rise_time() == DEFAULT_RISE_TIME_US
                &&& !e.level_high()
                &&& e.carried() == config.fps.num * 80
            },
    {
        match buffer_size_for(config.sample_rate, config.fps) {
            None => Err(LTCEncoderError::CreateError),
            Some(size) => {
                let mut e = LTCEncoder {
                    sample_rate: config.sample_rate,
                    fps: config.fps,
                    standard: config.standard,
                    flags: config.flags,
                    frame: LTCFrame::new(),
                    buf: Vec::new(),
                    flush_pending: false,
                    bufsize: size,
                    high: false,
                    rem: 0,
                    amplitude: DEFAULT_AMPLITUDE,
                    rise_time_us: DEFAULT_RISE_TIME_US,
                };
                e.configure(config.sample_rate, config.fps, config.standard, config.flags);
                Ok(e)
            },
        }
    }

    fn configure(&mut self, sample_rate: u32, fps: FrameRate, standard: LTCTVStandard, flags: LtcBgFlags)
        requires
            sample_rate > 0,
            fps.valid(),
            old(self).bufsize <= LTC_MAX_BUFFER_SIZE,
            1 <= old(self).amplitude <= 127,
        ensures
            final(self).wf(),
            final(self).samples().len() <= final(self).capacity(),
            final(self).samples().len() == 0,
            final(self).sample_rate == sample_rate,
            final(self).fps == fps,
            final(self).standard == standard,
            final(self).flags == flags,
            final(self).frame == configured_frame(old(self).frame, fps, standard, flags),
            final(self).bufsize == old(self).bufsize,
            final(self).amplitude == old(self).amplitude,
            final(self).rise_time_us == DEFAULT_RISE_TIME_US,
            !final(self).high,
            final(self).rem == fps.num * 80,
    {
        self.sample_rate = sample_rate;
        self.fps = fps;
        self.standard = standard;
        self.flags = flags;
        self.buf.clear();
        self.flush_pending = false;
        self.high = false;
        self.rem = fps.num as u128 * 80;
        self.rise_time_us = DEFAULT_RISE_TIME_US;
        let df: u64 = if fps.is_ntsc() {
            1
        } else {
            0
        };
        let mut d = put_field(self.frame.data, DFBIT, 1, df);
        if !flags.contains(LtcBgFlagsKind::LTC_BGF_DONT_TOUCH) {
            let date_bit: u64 = if flags.contains(LtcBgFlagsKind::LTC_USE_DATE) {
                1
            } else {
                0
            };
            let clock_bit: u64 = if flags.contains(LtcBgFlagsKind::LTC_TC_CLOCK) {
                1
            } else {
                0
            };
            let p_date = if standard == LTCTVStandard::LTCTV_625_50 {
                43
            } else {
                59
            };
            let p_char = if standard == LTCTVStandard::LTCTV_625_50 {
                27
            } else {
                43
            };
            assert(p_date == date_flag_pos(standard));
            assert(p_char == char_flag_pos(standard));
            d = put_field(d, p_date, 1, date_bit);
            d = put_field(d, BGF_58, 1, clock_bit);
            d = put_field(d, p_char, 1, 0);
        }
        self.frame.data = d;
        if !flags.contains(LtcBgFlagsKind::LTC_NO_PARITY) {
            self.frame.set_parity(standard);
        }
    }

    /// Sets the encoder up for new rates, standard and flags, emptying the
    /// buffer and resizing it to `1 + ceil(sample_rate / fps)` samples. Fails,
    /// changing nothing, when a rate is zero or the current buffer is smaller
    /// than that.
    pub fn reinit(
        &mut self,
        sample_rate: u32,
        fps: FrameRate,
        standard: LTCTVStandard,
        flags: LtcBgFlags,
    ) -> (r: Result<(), LTCEncoderError>)
        requires
            old(self).wf(),
        ensures
            final(self).wf(),
            final(self).samples().len() <= final(self).capacity(),
            (sample_rate > 0 && fps.valid() && required_size(sample_rate, fps) <= old(self).capacity()) <==> r is Ok,
            r is Err ==> r == Err::<(), LTCEncoderError>(LTCEncoderError::ReinitError) && *final(self) == *old(self),
            r is Ok ==> {
                &&& final(self).capacity() == required_size(sample_rate, fps)
                &&& final(self).samples().len() == 0
                &&& final(self).spec_sample_rate() == sample_rate
                &&& final(self).spec_fps() == fps
                &&& final(self).spec_standard() == standard
                &&& final(self).spec_flags() == flags
                &&& final(self).spec_frame() == configured_frame(
                    old(self).spec_frame(),
                    fps,
                    standard,
                    flags,
                )
                &&& final(self).spec_amplitude() == old(self).spec_amplitude()
                &&& final(self).spec_rise_time() == DEFAULT_RISE_TIME_US
                &&& !final(self).level_high()
                &&& final(self).carried() == fps.num * 80
            },
    {
        if sample_rate == 0 || fps.num == 0 || fps.den == 0 {
            return Err(LTCEncoderError::ReinitError);
        }
        proof {
            assert(sample_rate * fps.den <= 0xffff_ffffu64 * 0xffff_ffffu64) by (nonlinear_arith)
                requires
                    sample_rate <= 0xffff_ffffu32,
                    fps.den <= 0xffff_ffffu32,
            ;
        }
        let size = 1 + (sample_rate as u128 * fps.den as u128 + fps.num as u128 - 1)
            / fps.num as u128;
        if size > self.bufsize as u128 {
            return Err(LTCEncoderError::ReinitError);
        }
        self.bufsize = size as usize;
        self.configure(sample_rate, fps, standard, flags);
        Ok(())
    }

    /// Resizes the buffer to `1 + ceil(sample_rate / fps)` samples and
    /// empties it. Fails, changing nothing, when a rate is zero or the size
    /// would exceed `LTC_MAX_BUFFER_SIZE`.
    pub fn set_buffersize(&mut self, sample_rate: u32, fps: FrameRate) -> (r: Result<
        (),
        LTCEncoderError,
    >)
        requires
            old(self).wf(),
        ensures
            final(self).wf(),
            final(self).samples().len() <= final(self).capacity(),
            rates_ok(sample_rate, fps) <==> r is Ok,
            r is Err ==> r == Err::<(), LTCEncoderError>(LTCEncoderError::BufferSizeError) && *final(self) == *old(self),
            r is Ok ==> {
                &&& final(self).capacity() == required_size(sample_rate, fps)
                &&& final(self).samples().len() == 0
                &&& final(self).spec_sample_rate() == old(self).spec_sample_rate()
                &&& final(self).spec_fps() == old(self).spec_fps()
                &&& final(self).spec_standard() == old(self).spec_standard()
                &&& final(self).spec_flags() == old(self).spec_flags()
                &&& final(self).spec_amplitude() == old(self).spec_amplitude()
                &&& final(self).spec_rise_time() == old(self).spec_rise_time()
                &&& final(self).spec_frame() == old(self).spec_frame()
                &&& final(self).level_high() == old(self).level_high()
                &&& final(self).carried() == old(self).carried()
            },
    {
        match buffer_size_for(sample_rate, fps) {
            None => Err(LTCEncoderError::BufferSizeError),
            Some(size) => {
                self.buf.clear();
                self.flush_pending = false;
                self.bufsize = size;
                Ok(())
            },
        }
    }

    /// Size of the buffer in samples.
    pub fn get_buffersize(&self) -> (r: usize)
        ensures
            r == self.capacity(),
    {
        self.bufsize
    }

    /// Sets the peak distance of the signal from the centre value 128.
    /// Fails, changing nothing, outside 1 to 127.
    pub fn set_amplitude(&mut self, amplitude: u8) -> (r: Result<(), LTCEncoderError>)
        requires
            old(self).wf(),
        ensures
            final(self).wf(),
            final(self).samples().len() <= final(self).capacity(),
            (1 <= amplitude <= 127) <==> r is Ok,
            r is Err ==> r == Err::<(), LTCEncoderError>(LTCEncoderError::VolumeError) && *final(self) == *old(self),
            r is Ok ==> final(self).spec_amplitude() == amplitude && final(self).spec_frame()
                == old(self).spec_frame() && final(self).same_signal(old(self)),
    {
        if amplitude == 0 || amplitude > 127 {
            return Err(LTCEncoderError::VolumeError);
        }
        self.amplitude = amplitude;
        Ok(())
    }

    pub fn amplitude(&self) -> (r: u8)
        ensures
            r == self.spec_amplitude(),
    {
        self.amplitude
    }

    /// Sets the rise time of the signal edges in microseconds; 0 gives a
    /// square wave.
    pub fn set_filter(&mut self, rise_time_us: u32)
        requires
            old(self).wf(),
        ensures
            final(self).wf(),
            final(self).samples().len() <= final(self).capacity(),
            final(self).spec_rise_time() == rise_time_us,
            final(self).spec_frame() == old(self).spec_frame(),
            final(self).same_signal(old(self)),
    {
        self.rise_time_us = rise_time_us;
    }

    /// Rise time of the signal edges in microseconds.
    pub fn get_filter(&self) -> (r: u32)
        ensures
            r == self.spec_rise_time(),
    {
        self.rise_time_us
    }

    /// Writes `timecode` into the encoder's frame under its standard and flags.
    pub fn set_timecode(&mut self, timecode: &SMPTETimecode)
        requires
            old(self).wf(),
        ensures
            final(self).wf(),
            final(self).samples().len() <= final(self).capacity(),
            final(self).spec_frame() == time_to_frame(
                old(self).spec_frame(),
                *timecode,
                old(self).spec_standard(),
                old(self).spec_flags(),
            ),
            final(self).same_setup(old(self)),
            final(self).same_signal(old(self)),
    {
        let standard = self.standard;
        let flags = self.flags;
        self.frame.from_timecode_inplace(timecode, standard, flags);
    }

    /// The timecode that the encoder's frame holds, read under its flags.
    pub fn get_timecode(&self) -> (r: SMPTETimecode)
        ensures
            self.spec_frame().decodes_to(self.spec_flags(), r),
    {
        self.frame.to_timecode(self.flags)
    }

    /// Writes the timecode that the encoder's frame holds into `timecode`.
    pub fn get_timecode_inplace(&self, timecode: &mut SMPTETimecode)
        ensures
            self.spec_frame().decodes_to(self.spec_flags(), *final(timecode)),
    {
        *timecode = self.frame.to_timecode(self.flags);
    }

    /// Sets the 32 user bits of the encoder's frame.
    pub fn set_user_bits(&mut self, data: u32)
        requires
            old(self).wf(),
        ensures
            final(self).wf(),
            final(self).samples().len() <= final(self).capacity(),
            final(self).spec_frame().spec_user_bits() == data,
            final(self).spec_frame().time_of() == old(self).spec_frame().time_of(),
            final(self).spec_frame().sync_word == old(self).spec_frame().sync_word,
            forall|o: u64, w: u64|
                1 <= w <= 16 && o + w <= 64 && (o + w <= 4 || (8 <= o && o + w <= 12) || (16 <= o
                    && o + w <= 20) || (24 <= o && o + w <= 28) || (32 <= o && o + w <= 36) || (40
                    <= o && o + w <= 44) || (48 <= o && o + w <= 52) || (56 <= o && o + w
                    <= 60)) ==> #[trigger] field(final(self).spec_frame().data, o, w) == field(
                    old(self).spec_frame().data,
                    o,
                    w,
                ),
            final(self).same_setup(old(self)),
            final(self).same_signal(old(self)),
    {
        self.frame.set_user_bits(data);
    }

    fn whole_fps(&self) -> (r: i32)
        requires
            self.fps.valid(),
        ensures
            self.fps.spec_whole() <= 40 ==> r == self.fps.spec_whole(),
            self.fps.spec_whole() > 40 ==> r == 41,
    {
        let w = (self.fps.num as u64 + self.fps.den as u64 - 1) / self.fps.den as u64;
        if w > 40 {
            41
        } else {
            w as i32
        }
    }

    /// Moves the frame one frame forward at the whole frame rate (see
    /// `LTCFrame::increment`) and says whether midnight was passed.
    pub fn inc_timecode(&mut self) -> (r: Result<TimecodeWasWrapped, LTCEncoderError>)
        requires
            old(self).wf(),
        ensures
            final(self).wf(),
            final(self).samples().len() <= final(self).capacity(),
            final(self).same_setup(old(self)),
            final(self).same_signal(old(self)),
            step_outcome(
                old(self).spec_frame(),
                old(self).spec_fps().spec_whole(),
                old(self).spec_standard(),
                old(self).spec_flags(),
                true,
                r,
                final(self).spec_frame(),
            ),
    {
        let fps = self.whole_fps();
        let standard = self.standard;
        let flags = self.flags;
        match self.frame.increment(fps, standard, flags) {
            Ok(w) => Ok(w),
            Err(e) => Err(LTCEncoderError::TimecodeError(e)),
        }
    }

    /// Moves the frame one frame back at the whole frame rate (see
    /// `LTCFrame::decrement`) and says whether midnight was passed.
    pub fn dec_timecode(&mut self) -> (r: Result<TimecodeWasWrapped, LTCEncoderError>)
        requires
            old(self).wf(),
        ensures
            final(self).wf(),
            final(self).samples().len() <= final(self).capacity(),
            final(self).same_setup(old(self)),
            final(self).same_signal(old(self)),
            step_outcome(
                old(self).spec_frame(),
                old(self).spec_fps().spec_whole(),
                old(self).spec_standard(),
                old(self).spec_flags(),
                false,
                r,
                final(self).spec_frame(),
            ),
    {
        let fps = self.whole_fps();
        let standard = self.standard;
        let flags = self.flags;
        match self.frame.decrement(fps, standard, flags) {
            Ok(w) => Ok(w),
            Err(e) => Err(LTCEncoderError::TimecodeError(e)),
        }
    }

    pub fn set_frame(&mut self, frame: &LTCFrame)
        requires
            old(self).wf(),
        ensures
            final(self).wf(),
            final(self).samples().len() <= final(self).capacity(),
            final(self).spec_frame() == *frame,
            final(self).same_setup(old(self)),
            final(self).same_signal(old(self)),
    {
        self.frame = *frame;
    }

    pub fn get_frame(&self) -> (r: LTCFrame)
        ensures
            r == self.spec_frame(),
    {
        self.frame
    }

    /// Drops a flush that was asked for, so that the buffer holds the samples.
    fn settle(&mut self)
        requires
            old(self).wf(),
        ensures
            final(self).wf(),
            final(self).samples().len() <= final(self).capacity(),
            !final(self).flush_pending,
            final(self).same_setup(old(self)),
            final(self).same_signal(old(self)),
            final(self).spec_frame() == old(self).spec_frame(),
    {
        if self.flush_pending {
            self.buf.clear();
            self.flush_pending = false;
        }
    }

    /// Appends the signal of `bits` at `mult` times the cell length when it
    /// fits in the buffer; otherwise changes nothing and says so.
    fn emit(&mut self, bits: &Vec<bool>, mult: u32) -> (ok: bool)
        requires
            old(self).wf(),
            1 <= mult,
        ensures
            final(self).wf(),
            final(self).samples().len() <= final(self).capacity(),
            final(self).same_setup(old(self)),
            final(self).spec_frame() == old(self).spec_frame(),
            ({
                let w = old(self).wave_of(bits@, mult as int);
                &&& ok <==> old(self).samples().len() + w.0.len() <= old(self).capacity()
                &&& ok ==> final(self).samples() == old(self).samples() + w.0 && final(self).level_high() == w.2 && final(self).carried() == w.1
                &&& !ok ==> final(self).same_signal(old(self))
            }),
    {
        self.settle();
        proof {
            assert(self.sample_rate * self.fps.den <= 0xffff_ffffu64 * 0xffff_ffffu64)
                by (nonlinear_arith)
                requires
                    self.sample_rate <= 0xffff_ffffu32,
                    self.fps.den <= 0xffff_ffffu32,
            ;
            assert(self.sample_rate * self.fps.den * mult <= 0xffff_ffffu64 * 0xffff_ffffu64
                * 0xffff_ffffu64) by (nonlinear_arith)
                requires
                    self.sample_rate * self.fps.den <= 0xffff_ffffu64 * 0xffff_ffffu64,
                    mult <= 0xffff_ffffu32,
            ;
            assert(self.rise_time_us * self.sample_rate <= 0xffff_ffffu64 * 0xffff_ffffu64)
                by (nonlinear_arith)
                requires
                    self.rise_time_us <= 0xffff_ffffu32,
                    self.sample_rate <= 0xffff_ffffu32,
            ;
        }
        let unit = self.sample_rate as u128 * self.fps.den as u128 * mult as u128;
        let q = self.fps.num as u128 * 160;
        let ramp = self.rise_time_us as u64 * self.sample_rate as u64 / 2_000_000;
        let room = self.bufsize - self.buf.len();
        match render(bits, unit, q, self.amplitude, ramp, self.rem, self.high, room) {
            None => false,
            Some((mut v, r2, h2)) => {
                self.buf.append(&mut v);
                self.rem = r2;
                self.high = h2;
                true
            },
        }
    }

    /// Encodes byte `byte` (0 to 9) of the frame, first bit first at
    /// `speed` times the cell length, or last bit first for a negative
    /// `speed`. Fails, changing nothing, on another byte, a zero speed or a
    /// signal that does not fit in the buffer.
    pub fn encode_byte(&mut self, byte: i32, speed: i32) -> (r: Result<(), LTCEncoderError>)
        requires
            old(self).wf(),
        ensures
            final(self).wf(),
            final(self).samples().len() <= final(self).capacity(),
            final(self).same_setup(old(self)),
            final(self).spec_frame() == old(self).spec_frame(),
            (0 <= byte <= 9 && speed != 0) ==> ({
                let w = old(self).wave_of(
                    byte_bits(old(self).spec_frame(), byte as int, speed < 0),
                    if speed < 0 {
                        -speed
                    } else {
                        speed as int
                    },
                );
                &&& r is Ok <==> old(self).samples().len() + w.0.len() <= old(self).capacity()
                &&& r is Ok ==> final(self).samples() == old(self).samples() + w.0 && final(self).level_high() == w.2 && final(self).carried() == w.1
            }),
            !(0 <= byte <= 9 && speed != 0) ==> r == Err::<(), LTCEncoderError>(
                LTCEncoderError::EncodeError,
            ),
            r is Err ==> r == Err::<(), LTCEncoderError>(LTCEncoderError::EncodeError) && final(self).same_signal(old(self)),
    {
        if byte < 0 || byte > 9 || speed == 0 {
            return Err(LTCEncoderError::EncodeError);
        }
        let backwards = speed < 0;
        let mult: u32 = if backwards {
            (-(speed as i64)) as u32
        } else {
            speed as u32
        };
        let mut bits: Vec<bool> = Vec::new();
        let mut j: u64 = 0;
        while j < 8
            invariant
                0 <= byte <= 9,
                j <= 8,
                bits@.len() == j,
                forall|i: int|
                    0 <= i < j ==> bits@[i] == byte_bits(self.frame, byte as int, backwards)[i],
            decreases 8 - j,
        {
            let pos = if backwards {
                8 * byte as u64 + 7 - j
            } else {
                8 * byte as u64 + j
            };
            bits.push(frame_bit_of(&self.frame, pos));
            j = j + 1;
        }
        assert(bits@ =~= byte_bits(self.frame, byte as int, backwards));
        if self.emit(&bits, mult) {
            Ok(())
        } else {
            Err(LTCEncoderError::EncodeError)
        }
    }

    /// Encodes the whole frame, bit 0 first, when its signal fits in the
    /// buffer; otherwise changes nothing.
    pub fn encode_frame(&mut self)
        requires
            old(self).wf(),
        ensures
            final(self).wf(),
            final(self).samples().len() <= final(self).capacity(),
            final(self).same_setup(old(self)),
            final(self).spec_frame() == old(self).spec_frame(),
            ({
                let w = old(self).wave_of(frame_bits(old(self).spec_frame()), 1);
                &&& old(self).samples().len() + w.0.len() <= old(self).capacity() ==> final(self).samples() == old(self).samples() + w.0 && final(self).level_high() == w.2
                    && final(self).carried() == w.1
                &&& old(self).samples().len() + w.0.len() > old(self).capacity() ==> final(self).same_signal(old(self))
            }),
    {
        let mut bits: Vec<bool> = Vec::new();
        let mut i: u64 = 0;
        while i < 80
            invariant
                i <= 80,
                bits@.len() == i,
                forall|k: int| 0 <= k < i ==> bits@[k] == frame_bits(self.frame)[k],
            decreases 80 - i,
        {
            bits.push(frame_bit_of(&self.frame, i));
            i = i + 1;
        }
        assert(bits@ =~= frame_bits(self.frame));
        self.emit(&bits, 1);
    }

    /// Encodes the whole frame backwards, bit 79 first, so that the signal
    /// played in reverse reads as the frame; when it fits in the buffer,
    /// otherwise changes nothing.
    pub fn encode_reversed_frame(&mut self)
        requires
            old(self).wf(),
        ensures
            final(self).wf(),
            final(self).samples().len() <= final(self).capacity(),
            final(self).same_setup(old(self)),
            final(self).spec_frame() == old(self).spec_frame(),
            ({
                let w = old(self).wave_of(frame_bits(old(self).spec_frame()).reverse(), 1);
                &&& old(self).samples().len() + w.0.len() <= old(self).capacity() ==> final(self).samples() == old(self).samples() + w.0 && final(self).level_high() == w.2
                    && final(self).carried() == w.1
                &&& old(self).samples().len() + w.0.len() > old(self).capacity() ==> final(self).same_signal(old(self))
            }),
    {
        let mut bits: Vec<bool> = Vec::new();
        let mut i: u64 = 0;
        while i < 80
            invariant
                i <= 80,
                bits@.len() == i,
                forall|k: int| 0 <= k < i ==> bits@[k] == frame_bits(self.frame).reverse()[k],
            decreases 80 - i,
        {
            bits.push(frame_bit_of(&self.frame, 79 - i));
            i = i + 1;
        }
        assert(bits@ =~= frame_bits(self.frame).reverse());
        self.emit(&bits, 1);
    }

    /// Closes the signal with one last level change: one sample at the
    /// other level. Fails, changing nothing, when the buffer is full.
    pub fn end_encode(&mut self) -> (r: Result<(), LTCEncoderError>)
        requires
            old(self).wf(),
        ensures
            final(self).wf(),
            final(self).samples().len() <= final(self).capacity(),
            final(self).same_setup(old(self)),
            final(self).spec_frame() == old(self).spec_frame(),
            old(self).samples().len() < old(self).capacity() <==> r is Ok,
            r is Ok ==> final(self).samples() == old(self).samples().push(
                level_target(!old(self).level_high(), old(self).spec_amplitude()) as u8,
            ) && final(self).level_high() == !old(self).level_high() && final(self).carried()
                == old(self).carried(),
            r is Err ==> r == Err::<(), LTCEncoderError>(LTCEncoderError::EncodeError) && final(self).same_signal(old(self)),
    {
        self.settle();
        if self.buf.len() >= self.bufsize {
            return Err(LTCEncoderError::EncodeError);
        }
        self.high = !self.high;
        let v = if self.high {
            128 + self.amplitude
        } else {
            128 - self.amplitude
        };
        self.buf.push(v);
        Ok(())
    }

    /// The samples rendered so far and their number; with `flush`, the
    /// buffer counts as empty afterwards.
    pub fn get_buf_ref(&mut self, flush: bool) -> (r: (&[u8], usize))
        requires
            old(self).wf(),
        ensures
            final(self).wf(),
            final(self).samples().len() <= final(self).capacity(),
            r.0@ == old(self).samples(),
            r.1 == old(self).samples().len(),
            r.1 <= old(self).capacity(),
            final(self).same_setup(old(self)),
            final(self).spec_frame() == old(self).spec_frame(),
            final(self).level_high() == old(self).level_high(),
            final(self).carried() == old(self).carried(),
            flush ==> final(self).samples().len() == 0,
            !flush ==> final(self).samples() == old(self).samples(),
    {
        self.settle();
        if flush {
            self.flush_pending = true;
        }
        let n = self.buf.len();
        (self.buf.as_slice(), n)
    }

    /// The samples rendered so far, writable in place, and their number;
    /// with `flush`, the buffer counts as empty afterwards.
    pub fn get_buf_ref_mut(&mut self, flush: bool) -> (r: (&mut [u8], usize))
        requires
            old(self).wf(),
        ensures
            r.0@ == old(self).samples(),
            r.1 == old(self).samples().len(),
            r.1 <= old(self).capacity(),
            final(r.0)@.len() == r.0@.len() ==> final(self).wf(),
            final(self).same_setup(old(self)),
            final(self).spec_frame() == old(self).spec_frame(),
            final(self).level_high() == old(self).level_high(),
            final(self).carried() == old(self).carried(),
            flush ==> final(self).samples().len() == 0,
            !flush ==> final(self).samples() == final(r.0)@,
    {
        self.settle();
        if flush {
            self.flush_pending = true;
        }
        let n = self.buf.len();
        (self.buf.as_mut_slice(), n)
    }

    /// A copy of the whole buffer, `get_buffersize()` samples: the samples
    /// rendered so far, then zeros; and the number of rendered samples.
    pub fn copy_buffer(&self) -> (r: (Vec<u8>, usize))
        requires
            self.wf(),
        ensures
            r.0@.len() == self.capacity(),
            r.1 == self.samples().len(),
            r.1 <= self.capacity(),
            r.0@.subrange(0, r.1 as int) == self.samples(),
            forall|i: int| r.1 <= i < r.0@.len() ==> r.0@[i] == 0,
    {
        let n: usize = if self.flush_pending {
            0
        } else {
            self.buf.len()
        };
        let mut out: Vec<u8> = Vec::new();
        let mut i: usize = 0;
        while i < self.bufsize
            invariant
                i <= self.bufsize,
                n <= self.bufsize,
                self.flush_pending ==> n == 0,
                !self.flush_pending ==> n == self.buf@.len(),
                out@.len() == i,
                forall|j: int| 0 <= j < i && j < n ==> out@[j] == self.buf@[j],
                forall|j: int| 0 <= j < i && n <= j ==> out@[j] == 0,
            decreases self.bufsize - i,
        {
            if i < n {
                out.push(self.buf[i]);
            } else {
                out.push(0);
            }
            i = i + 1;
        }
        assert(out@.subrange(0, n as int) =~= self.samples());
        (out, n)
    }

    /// Copies as many of the rendered samples as `buf` holds into its
    /// start, and gives their number.
    pub fn copy_buffer_inplace(&self, buf: &mut [u8]) -> (r: usize)
        ensures
            r == if self.samples().len() < old(buf)@.len() {
                self.samples().len()
            } else {
                old(buf)@.len()
            },
            final(buf)@.len() == old(buf)@.len(),
            forall|i: int| 0 <= i < r ==> final(buf)@[i] == self.samples()[i],
            forall|i: int| r <= i < old(buf)@.len() ==> final(buf)@[i] == old(buf)@[i],
    {
        let n = if self.flush_pending {
            0
        } else if self.buf.len() < buf.len() {
            self.buf.len()
        } else {
            buf.len()
        };
        let mut i: usize = 0;
        while i < n
            invariant
                i <= n,
                n <= buf@.len(),
                !self.flush_pending ==> n <= self.buf@.len(),
                self.flush_pending ==> n == 0,
                buf@.len() == old(buf)@.len(),
                forall|j: int| 0 <= j < i ==> buf@[j] == self.samples()[j],
                forall|j: int| i <= j < buf@.len() ==> buf@[j] == old(buf)@[j],
            decreases n - i,
        {
            buf[i] = self.buf[i];
            i = i + 1;
        }
        n
    }

    /// Empties the buffer.
    pub fn buffer_flush(&mut self)
        requires
            old(self).wf(),
        ensures
            final(self).wf(),
            final(self).samples().len() <= final(self).capacity(),
            final(self).samples().len() == 0,
            final(self).same_setup(old(self)),
            final(self).spec_frame() == old(self).spec_frame(),
            final(self).level_high() == old(self).level_high(),
            final(self).carried() == old(self).carried(),
    {
        self.buf.clear();
        self.flush_pending = false;
    }

    /// Back to the zero frame, an empty buffer and a low signal.
    pub fn reset(&mut self)
        requires
            old(self).wf(),
        ensures
            final(self).wf(),
            final(self).samples().len() <= final(self).capacity(),
            final(self).spec_frame() == zero_frame(),
            final(self).samples().len() == 0,
            !final(self).level_high(),
            final(self).carried() == final(self).spec_fps().num * 80,
            final(self).same_setup(old(self)),
    {
        self.frame = LTCFrame::new();
        self.buf.clear();
        self.flush_pending = false;
        self.high = false;
        self.rem = self.fps.num as u128 * 80;
    }
}

} // verus!
