use libltc_rs::{
    FrameRate, LTCEncoder, LTCEncoderConfig, LTCEncoderError, LTCFrame, LTCTVStandard, LtcBgFlags,
    SMPTETimecode, TimecodeError, TimecodeWasWrapped, Timezone,
};

fn config(sample_rate: u32, fps: FrameRate, standard: LTCTVStandard) -> LTCEncoderConfig {
    LTCEncoderConfig { sample_rate, fps, standard, flags: LtcBgFlags::default() }
}

#[test]
fn test_encoder_volume() {
    let encoder_config = config(48_000, FrameRate::whole(25), LTCTVStandard::LTCTV_625_50);
    let mut encoder = LTCEncoder::try_new(&encoder_config).unwrap();
    // -18 dBFS is a peak of 16 steps from the centre.
    assert!(encoder.set_amplitude(16).is_ok());
    assert_eq!(encoder.amplitude(), 16);
    // +1 dBFS would be a peak above full scale.
    assert!(encoder.set_amplitude(143).is_err());
    assert_eq!(encoder.amplitude(), 16);
}

#[test]
fn test_encoder_reinit() {
    let encoder_config = config(48_000, FrameRate::whole(25), LTCTVStandard::LTCTV_625_50);
    let mut encoder = LTCEncoder::try_new(&encoder_config).unwrap();
    assert_eq!(encoder.get_buffersize(), 1921);

    encoder.set_buffersize(192_000, FrameRate::whole(25)).unwrap();
    assert_eq!(encoder.get_buffersize(), 7681);
    assert!(encoder
        .reinit(192_000, FrameRate::whole(25), LTCTVStandard::LTCTV_525_60, 0.into())
        .is_ok());

    encoder.set_buffersize(192_000, FrameRate::whole(30)).unwrap();
    assert_eq!(encoder.get_buffersize(), 6401);
    assert!(encoder
        .reinit(192_000, FrameRate::whole(25), LTCTVStandard::LTCTV_525_60, 0.into())
        .is_err());
}

#[test]
fn buffer_size_is_one_frame_plus_one() {
    let e = LTCEncoder::try_new(&config(44_100, FrameRate::new(30000, 1001), LTCTVStandard::LTCTV_525_60))
        .unwrap();
    assert_eq!(e.get_buffersize(), 1473);
    let mut e = LTCEncoder::try_new(&config(48_000, FrameRate::whole(24), LTCTVStandard::LTCTV_FILM_24))
        .unwrap();
    assert_eq!(e.get_buffersize(), 2001);
    // A smaller frame fits in the buffer, which shrinks to it.
    assert!(e.reinit(48_000, FrameRate::whole(30), LTCTVStandard::LTCTV_1125_60, 0.into()).is_ok());
    assert_eq!(e.get_buffersize(), 1601);
}

#[test]
fn encoder_errors() {
    assert_eq!(
        LTCEncoder::try_new(&config(0, FrameRate::whole(25), LTCTVStandard::LTCTV_625_50)).err(),
        Some(LTCEncoderError::CreateError)
    );
    assert_eq!(
        LTCEncoder::try_new(&config(48_000, FrameRate::whole(0), LTCTVStandard::LTCTV_625_50)).err(),
        Some(LTCEncoderError::CreateError)
    );
    let mut e =
        LTCEncoder::try_new(&config(48_000, FrameRate::whole(25), LTCTVStandard::LTCTV_625_50)).unwrap();
    assert_eq!(e.set_buffersize(0, FrameRate::whole(25)), Err(LTCEncoderError::BufferSizeError));
    assert_eq!(e.get_buffersize(), 1921);
    assert_eq!(
        e.reinit(96_000, FrameRate::whole(25), LTCTVStandard::LTCTV_625_50, 0.into()),
        Err(LTCEncoderError::ReinitError)
    );
    assert_eq!(e.set_amplitude(0), Err(LTCEncoderError::VolumeError));
    assert_eq!(e.encode_byte(10, 1), Err(LTCEncoderError::EncodeError));
    assert_eq!(e.encode_byte(0, 0), Err(LTCEncoderError::EncodeError));
    let mut f = LTCFrame::new();
    let bad = SMPTETimecode::new(Timezone::default(), 0, 0, 0, 25, 0, 0, 0);
    f.from_timecode_inplace(&bad, LTCTVStandard::LTCTV_625_50, LtcBgFlags::default());
    e.set_frame(&f);
    assert_eq!(
        e.inc_timecode(),
        Err(LTCEncoderError::TimecodeError(TimecodeError::InvalidReturn))
    );
}

#[test]
fn encode_frame_is_biphase_mark() {
    let mut e =
        LTCEncoder::try_new(&config(48_000, FrameRate::whole(25), LTCTVStandard::LTCTV_625_50)).unwrap();
    e.set_frame(&LTCFrame::new());
    e.encode_frame();
    let (buf, n) = e.copy_buffer();
    assert_eq!(n, 1920);
    assert_eq!(buf.len(), 1921);
    assert_eq!(buf[1920], 0);
    // Bits 0 and 1 are zeros: one whole bit of 24 samples at each level.
    assert!(buf[0..24].iter().all(|&v| v == 218));
    assert!(buf[24..48].iter().all(|&v| v == 38));
    // The sync word's bits 66 and 67 are ones: a level change at mid-bit.
    let start = 66 * 24;
    let first = buf[start];
    assert!(buf[start..start + 12].iter().all(|&v| v == first));
    assert!(buf[start + 12..start + 24].iter().all(|&v| v != first));
    // A second frame does not fit until the buffer is flushed.
    e.encode_frame();
    assert_eq!(e.copy_buffer().1, 1920);
    let (slice, len) = e.get_buf_ref(true);
    assert_eq!(len, 1920);
    assert_eq!(slice.len(), 1920);
    assert_eq!(e.copy_buffer().1, 0);
    assert!(e.end_encode().is_ok());
    let (buf, n) = e.copy_buffer();
    assert_eq!(n, 1);
    assert_eq!(buf[0], 38);
    assert_eq!(buf.len(), 1921);
}

#[test]
fn encode_byte_and_reset() {
    let mut e =
        LTCEncoder::try_new(&config(48_000, FrameRate::whole(25), LTCTVStandard::LTCTV_625_50)).unwrap();
    e.set_frame(&LTCFrame::new());
    assert!(e.encode_byte(0, 2).is_ok());
    assert_eq!(e.copy_buffer().1, 8 * 48);
    e.buffer_flush();
    assert_eq!(e.copy_buffer().1, 0);
    assert!(e.encode_byte(9, -1).is_ok());
    assert_eq!(e.copy_buffer().1, 8 * 24);
    let mut out = [0u8; 4];
    assert_eq!(e.copy_buffer_inplace(&mut out), 4);
    e.reset();
    assert_eq!(e.copy_buffer().1, 0);
    assert_eq!(e.get_frame(), LTCFrame::new());
}

#[test]
fn filter_shapes_the_edges() {
    let mut e =
        LTCEncoder::try_new(&config(48_000, FrameRate::whole(25), LTCTVStandard::LTCTV_625_50)).unwrap();
    assert_eq!(e.get_filter(), 40);
    e.set_filter(250);
    assert_eq!(e.get_filter(), 250);
    e.set_frame(&LTCFrame::new());
    e.encode_frame();
    let (buf, _) = e.copy_buffer();
    // 250 us at 48 kHz is a ramp of 6 samples from the centre: 90 * k / 6.
    assert_eq!(buf[0], 128 + 15);
    assert_eq!(buf[1], 128 + 30);
    assert_eq!(buf[5], 218);
    assert_eq!(buf[23], 128 + 15);
}

#[test]
fn encoder_timecode_steps() {
    let mut e =
        LTCEncoder::try_new(&config(48_000, FrameRate::whole(25), LTCTVStandard::LTCTV_625_50)).unwrap();
    let tc = SMPTETimecode::new(Timezone::default(), 0, 0, 0, 23, 59, 59, 24);
    e.set_timecode(&tc);
    assert_eq!(e.get_timecode().hours(), 23);
    assert_eq!(e.inc_timecode(), Ok(TimecodeWasWrapped::Yes));
    let t = e.get_timecode();
    assert_eq!((t.hours(), t.minutes(), t.seconds(), t.frame()), (0, 0, 0, 0));
    assert_eq!(e.dec_timecode(), Ok(TimecodeWasWrapped::Yes));
    assert_eq!(e.get_timecode().frame(), 24);
    assert_eq!(e.dec_timecode(), Ok(TimecodeWasWrapped::No));
    assert_eq!(e.get_timecode().frame(), 23);
    e.set_user_bits(0xDEAD_BEEF);
    assert_eq!(e.get_frame().get_user_bits(), 0xDEAD_BEEF);
}

#[test]
fn ntsc_rate_sets_drop_frame() {
    let e = LTCEncoder::try_new(&config(48_000, FrameRate::new(30000, 1001), LTCTVStandard::LTCTV_525_60))
        .unwrap();
    assert_eq!(e.get_frame().dfbit(), 1);
    let e = LTCEncoder::try_new(&config(48_000, FrameRate::whole(30), LTCTVStandard::LTCTV_525_60)).unwrap();
    assert_eq!(e.get_frame().dfbit(), 0);
}

#[test]
fn buffer_can_be_edited_in_place() {
    let mut e =
        LTCEncoder::try_new(&config(48_000, FrameRate::whole(25), LTCTVStandard::LTCTV_625_50)).unwrap();
    e.encode_frame();
    {
        let (buf, n) = e.get_buf_ref_mut(false);
        assert_eq!(n, 1920);
        buf[0] = 7;
    }
    assert_eq!(e.copy_buffer().0[0], 7);
    let (_, n) = e.get_buf_ref_mut(true);
    assert_eq!(n, 1920);
    assert_eq!(e.copy_buffer().1, 0);
}

#[test]
fn copy_buffer_spans_the_whole_buffer() {
    let e =
        LTCEncoder::try_new(&config(48_000, FrameRate::whole(25), LTCTVStandard::LTCTV_625_50)).unwrap();
    let (buf, n) = e.copy_buffer();
    assert_eq!(n, 0);
    assert_eq!(buf.len(), 1921);
    assert!(buf.iter().all(|&v| v == 0));
}

#[test]
fn user_bits_leave_the_time_alone() {
    let mut e =
        LTCEncoder::try_new(&config(48_000, FrameRate::whole(25), LTCTVStandard::LTCTV_625_50)).unwrap();
    let tc = SMPTETimecode::new(Timezone::default(), 0, 0, 0, 12, 34, 56, 7);
    e.set_timecode(&tc);
    e.set_user_bits(0xFFFF_FFFF);
    let t = e.get_timecode();
    assert_eq!((t.hours(), t.minutes(), t.seconds(), t.frame()), (12, 34, 56, 7));
    assert_eq!(e.get_frame().get_user_bits(), 0xFFFF_FFFF);
    assert_eq!(e.encode_byte(-1, 1), Err(LTCEncoderError::EncodeError));
    assert_eq!(e.copy_buffer().1, 0);
}
