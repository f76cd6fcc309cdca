use libltc_rs::decoder::{s16_to_sample, u16_to_sample};
use libltc_rs::{
    FrameRate, LTCDecoder, LTCDecoderError, LTCEncoder, LTCEncoderConfig, LTCTVStandard,
    LtcBgFlags, SMPTETimecode, Timezone,
};

fn encode_run(first: &SMPTETimecode, frames: usize, sample_rate: u32, fps: u32) -> Vec<u8> {
    let standard = if fps == 25 { LTCTVStandard::LTCTV_625_50 } else { LTCTVStandard::LTCTV_525_60 };
    let config = LTCEncoderConfig {
        sample_rate,
        fps: FrameRate::whole(fps),
        standard,
        flags: LtcBgFlags::default(),
    };
    let mut e = LTCEncoder::try_new(&config).unwrap();
    e.set_timecode(first);
    let mut out = Vec::new();
    for _ in 0..frames {
        e.encode_frame();
        let (buf, n) = e.get_buf_ref(true);
        assert!(n > 0);
        out.extend_from_slice(buf);
        e.inc_timecode().unwrap();
    }
    assert!(e.end_encode().is_ok());
    out.extend_from_slice(e.get_buf_ref(true).0);
    out
}

fn hmsf(t: &SMPTETimecode) -> (u8, u8, u8, u8) {
    (t.hours(), t.minutes(), t.seconds(), t.frame())
}

#[test]
fn encode_decode_loop() {
    let start = SMPTETimecode::new(Timezone::default(), 0, 0, 0, 10, 0, 0, 0);
    for (rate, fps) in [(48_000u32, 25u32), (44_100, 25), (48_000, 30)] {
        let signal = encode_run(&start, fps as usize, rate, fps);
        let mut d = LTCDecoder::try_new((rate / fps) as i32, 64).unwrap();
        d.write(&signal, 0);
        assert_eq!(d.queue_length(), fps as i32);
        let mut k = 0u8;
        let mut last_end = -1i64;
        while let Some(x) = d.read() {
            assert!(!x.reverse());
            assert_eq!(hmsf(&x.ltc().to_timecode(LtcBgFlags::default())), (10, 0, 0, k));
            assert!(x.off_start() >= last_end);
            assert!(x.off_end() > x.off_start());
            assert_eq!(x.biphase_tics().len(), 80);
            last_end = x.off_end();
            k += 1;
        }
        assert_eq!(k as u32, fps);
    }
}

#[test]
fn reversed_signal_decodes_backwards() {
    let start = SMPTETimecode::new(Timezone::default(), 0, 0, 0, 10, 0, 0, 0);
    let mut signal = encode_run(&start, 25, 48_000, 25);
    signal.reverse();
    let mut d = LTCDecoder::try_new(1920, 64).unwrap();
    d.write(&signal, 0);
    let mut frames = Vec::new();
    while let Some(x) = d.read() {
        assert!(x.reverse());
        frames.push(x.ltc().to_timecode(LtcBgFlags::default()).frame());
    }
    assert!(frames.len() >= 20);
    assert_eq!(frames[0], 24);
    for w in frames.windows(2) {
        assert_eq!(w[0], w[1] + 1);
    }
}

#[test]
fn queue_keeps_the_latest_frames() {
    let start = SMPTETimecode::new(Timezone::default(), 0, 0, 0, 1, 2, 3, 0);
    let signal = encode_run(&start, 10, 48_000, 25);
    let mut d = LTCDecoder::try_new(1920, 3).unwrap();
    d.write(&signal, 0);
    assert_eq!(d.queue_length(), 3);
    let frames: Vec<u8> = std::iter::from_fn(|| d.read())
        .map(|x| x.ltc().to_timecode(LtcBgFlags::default()).frame())
        .collect();
    assert_eq!(frames, vec![7, 8, 9]);
    assert_eq!(d.queue_length(), 0);
    assert!(d.read().is_none());
}

#[test]
fn decoder_blocks_and_flush() {
    let start = SMPTETimecode::new(Timezone::default(), 0, 0, 0, 0, 0, 0, 0);
    let signal = encode_run(&start, 4, 48_000, 25);
    let mut d = LTCDecoder::try_new(1920, 8).unwrap();
    for (i, chunk) in signal.chunks(100).enumerate() {
        d.write(chunk, (i * 100) as i64);
    }
    assert_eq!(d.queue_length(), 4);
    let first = d.read().unwrap();
    assert_eq!(first.off_start(), 0);
    d.queue_flush();
    assert_eq!(d.queue_length(), 0);
}

#[test]
fn sixteen_bit_samples() {
    assert_eq!(s16_to_sample(0), 128);
    assert_eq!(s16_to_sample(-1), 127);
    assert_eq!(s16_to_sample(i16::MAX), 255);
    assert_eq!(s16_to_sample(i16::MIN), 0);
    assert_eq!(u16_to_sample(65535), 255);
    assert_eq!(u16_to_sample(0x80FF), 128);
    let start = SMPTETimecode::new(Timezone::default(), 0, 0, 0, 0, 0, 0, 0);
    let signal = encode_run(&start, 2, 48_000, 25);
    let wide: Vec<i16> = signal.iter().map(|&v| ((v as i16) - 128) * 256).collect();
    let mut d = LTCDecoder::try_new(1920, 8).unwrap();
    d.write_i16(&wide, 0);
    assert_eq!(d.queue_length(), 2);
    let wide: Vec<u16> = signal.iter().map(|&v| (v as u16) * 256).collect();
    let mut d = LTCDecoder::try_new(1920, 8).unwrap();
    d.write_u16(&wide, 0);
    assert_eq!(d.queue_length(), 2);
}

#[test]
fn decoder_needs_a_queue() {
    assert_eq!(LTCDecoder::try_new(1920, 0).err().map(|e| e.message()), Some(LTCDecoderError::CreateError.message()));
    assert!(LTCDecoder::try_new(1920, 1).is_ok());
}

#[test]
fn empty_block_and_single_slot_queue() {
    let mut d = LTCDecoder::try_new(1920, 1).unwrap();
    d.write(&[], 0);
    assert_eq!(d.queue_length(), 0);
    let start = SMPTETimecode::new(Timezone::default(), 0, 0, 0, 0, 0, 0, 0);
    let signal = encode_run(&start, 3, 48_000, 25);
    d.write(&signal, 0);
    assert_eq!(d.queue_length(), 1);
    assert_eq!(d.read().unwrap().ltc().to_timecode(LtcBgFlags::default()).frame(), 2);
}

#[test]
fn frames_end_inside_the_block_that_completed_them() {
    let start = SMPTETimecode::new(Timezone::default(), 0, 0, 0, 0, 0, 0, 0);
    let signal = encode_run(&start, 3, 48_000, 25);
    let mut d = LTCDecoder::try_new(1920, 8).unwrap();
    let half = signal.len() / 2;
    d.write(&signal[..half], 1000);
    let n1 = d.queue_length();
    d.write(&signal[half..], 1000 + half as i64);
    let mut prev = i64::MIN;
    let mut k = 0;
    while let Some(x) = d.read() {
        let (lo, hi) = if k < n1 { (1000, 1000 + half as i64) } else { (1000 + half as i64, 1000 + signal.len() as i64) };
        assert!(lo <= x.off_end() && x.off_end() < hi);
        assert!(x.off_end() > prev);
        prev = x.off_end();
        k += 1;
    }
    assert_eq!(k, 3);
}

#[test]
fn positions_stay_ordered_across_blocks() {
    let start = SMPTETimecode::new(Timezone::default(), 0, 0, 0, 0, 0, 0, 0);
    let signal = encode_run(&start, 4, 48_000, 25);
    let mut d = LTCDecoder::try_new(1920, 8).unwrap();
    for (i, chunk) in signal.chunks(333).enumerate() {
        d.write(chunk, (i * 333) as i64 + 50);
    }
    let mut prev_end = i64::MIN;
    while let Some(x) = d.read() {
        assert!(x.off_start() < x.off_end());
        assert!(x.off_start() >= prev_end);
        prev_end = x.off_end();
    }
}
