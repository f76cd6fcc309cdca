use libltc_rs::{
    calc_frame_alignment, LTCFrame, LTCTVStandard, LtcBgFlags, LtcBgFlagsKind, SMPTETimecode,
    TimecodeError, TimecodeWasWrapped, Timezone,
};

fn tc(h: u8, m: u8, s: u8, f: u8) -> SMPTETimecode {
    SMPTETimecode::new(Timezone::default(), 0, 0, 0, h, m, s, f)
}

fn date_flags() -> LtcBgFlags {
    *LtcBgFlags::default().set(LtcBgFlagsKind::LTC_USE_DATE)
}

fn hmsf(f: &LTCFrame) -> (u8, u8, u8, u8) {
    let t = f.to_timecode(LtcBgFlags::default());
    (t.hours(), t.minutes(), t.seconds(), t.frame())
}

#[test]
fn timecode_round_trip() {
    let zone = Timezone::from_bytes(*b"+0100\0");
    let t = SMPTETimecode::new(zone, 24, 2, 29, 12, 34, 56, 12);
    for standard in [LTCTVStandard::LTCTV_525_60, LTCTVStandard::LTCTV_625_50] {
        let f = LTCFrame::from_timecode(&t, standard, date_flags());
        let back = f.to_timecode(date_flags());
        assert_eq!(back, t);
        assert_eq!(LTCFrame::from_timecode(&back, standard, date_flags()), f);
    }
    assert_eq!(zone.code(), 0x25);
    assert_eq!(Timezone::from_code(0x25), zone);
}

#[test]
fn timecode_without_date_reads_zero_date() {
    let t = SMPTETimecode::new(Timezone::from_bytes(*b"-0500\0"), 24, 2, 29, 1, 2, 3, 4);
    let f = LTCFrame::from_timecode(&t, LTCTVStandard::LTCTV_625_50, LtcBgFlags::default());
    let back = f.to_timecode(date_flags());
    assert_eq!((back.years(), back.months(), back.days()), (0, 0, 0));
    let back = f.to_timecode(LtcBgFlags::default());
    assert_eq!((back.hours(), back.minutes(), back.seconds(), back.frame()), (1, 2, 3, 4));
    assert_eq!(back.timezone(), Timezone::default());
    assert_eq!(back.timezone().to_raw(), [43, 48, 48, 48, 48, 0]);
    assert_eq!(Timezone::from_bytes(*b"-0500\0").code(), 0x05);
    assert_eq!(Timezone::from_bytes(*b"+1300\0").code(), 0x13);
    assert_eq!(Timezone::from_bytes(*b"+0130\0").code(), 0x00);
}

#[test]
fn full_year_uses_century_rule() {
    let a = SMPTETimecode::new(Timezone::default(), 66, 1, 1, 0, 0, 0, 0);
    let b = SMPTETimecode::new(Timezone::default(), 67, 1, 1, 0, 0, 0, 0);
    assert_eq!(a.full_year(), 2066);
    assert_eq!(b.full_year(), 1967);
}

#[test]
fn fps_increments_make_a_second_and_a_minute() {
    let mut f = LTCFrame::from_timecode(&tc(1, 10, 10, 5), LTCTVStandard::LTCTV_625_50, LtcBgFlags::default());
    for _ in 0..25 {
        assert_eq!(f.increment(25, LTCTVStandard::LTCTV_625_50, LtcBgFlags::default()), Ok(TimecodeWasWrapped::No));
    }
    assert_eq!(hmsf(&f), (1, 10, 11, 5));
    for _ in 0..(60 * 25) {
        f.increment(25, LTCTVStandard::LTCTV_625_50, LtcBgFlags::default()).unwrap();
    }
    assert_eq!(hmsf(&f), (1, 11, 11, 5));
    for _ in 0..(60 * 25) {
        f.decrement(25, LTCTVStandard::LTCTV_625_50, LtcBgFlags::default()).unwrap();
    }
    assert_eq!(hmsf(&f), (1, 10, 11, 5));
}

#[test]
fn drop_frame_skips_frames_zero_and_one() {
    let mut f = LTCFrame::from_timecode(&tc(0, 0, 59, 29), LTCTVStandard::LTCTV_525_60, LtcBgFlags::default());
    f.data |= 1 << 10;
    assert_eq!(f.dfbit(), 1);
    f.increment(30, LTCTVStandard::LTCTV_525_60, LtcBgFlags::default()).unwrap();
    assert_eq!(hmsf(&f), (0, 1, 0, 2));
    f.decrement(30, LTCTVStandard::LTCTV_525_60, LtcBgFlags::default()).unwrap();
    assert_eq!(hmsf(&f), (0, 0, 59, 29));
    // Minute 10 keeps its frames 0 and 1.
    let mut g = LTCFrame::from_timecode(&tc(0, 9, 59, 29), LTCTVStandard::LTCTV_525_60, LtcBgFlags::default());
    g.data |= 1 << 10;
    g.increment(30, LTCTVStandard::LTCTV_525_60, LtcBgFlags::default()).unwrap();
    assert_eq!(hmsf(&g), (0, 10, 0, 0));
}

#[test]
fn midnight_advances_the_date() {
    let t = SMPTETimecode::new(Timezone::default(), 23, 12, 31, 23, 59, 59, 24);
    let mut f = LTCFrame::from_timecode(&t, LTCTVStandard::LTCTV_625_50, date_flags());
    assert_eq!(f.increment(25, LTCTVStandard::LTCTV_625_50, date_flags()), Ok(TimecodeWasWrapped::Yes));
    let back = f.to_timecode(date_flags());
    assert_eq!((back.years(), back.months(), back.days()), (24, 1, 1));
    assert_eq!((back.hours(), back.minutes(), back.seconds(), back.frame()), (0, 0, 0, 0));
    assert_eq!(f.decrement(25, LTCTVStandard::LTCTV_625_50, date_flags()), Ok(TimecodeWasWrapped::Yes));
    let back = f.to_timecode(date_flags());
    assert_eq!((back.years(), back.months(), back.days()), (23, 12, 31));
    // 2024 is a leap year.
    let t = SMPTETimecode::new(Timezone::default(), 24, 2, 28, 23, 59, 59, 24);
    let mut f = LTCFrame::from_timecode(&t, LTCTVStandard::LTCTV_625_50, date_flags());
    f.increment(25, LTCTVStandard::LTCTV_625_50, date_flags()).unwrap();
    assert_eq!(f.to_timecode(date_flags()).days(), 29);
}

#[test]
fn invalid_times_are_refused() {
    let mut f = LTCFrame::from_timecode(&tc(1, 2, 3, 30), LTCTVStandard::LTCTV_625_50, LtcBgFlags::default());
    let before = f;
    assert_eq!(f.increment(25, LTCTVStandard::LTCTV_625_50, LtcBgFlags::default()), Err(TimecodeError::InvalidReturn));
    assert_eq!(f, before);
    let mut g = LTCFrame::new();
    assert_eq!(g.increment(0, LTCTVStandard::LTCTV_625_50, LtcBgFlags::default()), Err(TimecodeError::InvalidReturn));
    // Month 13 cannot be stepped: the time still wraps, the date stays.
    let t = SMPTETimecode::new(Timezone::default(), 23, 13, 31, 23, 59, 59, 24);
    let mut h = LTCFrame::from_timecode(&t, LTCTVStandard::LTCTV_625_50, date_flags());
    assert_eq!(h.increment(25, LTCTVStandard::LTCTV_625_50, date_flags()), Ok(TimecodeWasWrapped::Yes));
    let back = h.to_timecode(date_flags());
    assert_eq!((back.years(), back.months(), back.days()), (23, 13, 31));
    assert_eq!((back.hours(), back.minutes(), back.seconds(), back.frame()), (0, 0, 0, 0));
    assert!(h.parity_ok());
}

#[test]
fn parity_then_parse_reports_valid_and_catches_a_flip() {
    for standard in [LTCTVStandard::LTCTV_525_60, LTCTVStandard::LTCTV_625_50] {
        let mut f = LTCFrame::from_timecode(&tc(10, 20, 30, 15), standard, LtcBgFlags::new(8));
        f.set_user_bits(0x1234_5678);
        f.set_parity(standard);
        assert!(f.parity_ok());
        assert!(!f.parse_bcg_flags(standard).contains(LtcBgFlagsKind::LTC_NO_PARITY));
        for k in 0..64 {
            let mut g = f;
            g.data ^= 1u64 << k;
            assert!(g.parse_bcg_flags(standard).contains(LtcBgFlagsKind::LTC_NO_PARITY));
        }
    }
}

#[test]
fn flags_are_written_and_parsed() {
    let flags = *LtcBgFlags::default().set(LtcBgFlagsKind::LTC_USE_DATE).set(LtcBgFlagsKind::LTC_TC_CLOCK);
    let f = LTCFrame::from_timecode(&tc(1, 1, 1, 1), LTCTVStandard::LTCTV_1125_60, flags);
    let parsed = f.parse_bcg_flags(LTCTVStandard::LTCTV_1125_60);
    assert!(parsed.contains(LtcBgFlagsKind::LTC_USE_DATE));
    assert!(parsed.contains(LtcBgFlagsKind::LTC_TC_CLOCK));
    assert!(!parsed.contains(LtcBgFlagsKind::LTC_NO_PARITY));
    assert!(!parsed.contains(LtcBgFlagsKind::LTC_BGF_DONT_TOUCH));
}

#[test]
fn user_bits_round_trip() {
    let mut f = LTCFrame::from_timecode(&tc(5, 6, 7, 8), LTCTVStandard::LTCTV_FILM_24, LtcBgFlags::default());
    f.set_user_bits(0xCAFE_F00D);
    assert_eq!(f.get_user_bits(), 0xCAFE_F00D);
    assert_eq!(hmsf(&f), (5, 6, 7, 8));
    assert_eq!(LTCFrame::new().get_user_bits(), 0);
}

#[test]
fn frame_alignment_values() {
    assert_eq!(calc_frame_alignment(1920, LTCTVStandard::LTCTV_625_50), 3);
    assert_eq!(calc_frame_alignment(1600, LTCTVStandard::LTCTV_525_60), 12);
    assert_eq!(calc_frame_alignment(1600, LTCTVStandard::LTCTV_FILM_24), 0);
}

#[test]
fn standard_numbers_and_step_codes() {
    assert_eq!(LTCTVStandard::LTCTV_525_60.to_raw(), 0);
    assert_eq!(LTCTVStandard::LTCTV_FILM_24.to_raw(), 3);
    assert_eq!(LTCTVStandard::LTCTV_625_50.fps(), 25);
    assert!(LTCTVStandard::LTCTV_525_60.allows_drop_frame());
    assert_eq!(TimecodeWasWrapped::from_raw(0), Ok(TimecodeWasWrapped::No));
    assert_eq!(TimecodeWasWrapped::from_raw(1), Ok(TimecodeWasWrapped::Yes));
    assert_eq!(TimecodeWasWrapped::from_raw(-1), Err(TimecodeError::InvalidReturn));
    let flags: LtcBgFlags = 3i32.into();
    let back: i32 = flags.into();
    assert_eq!(back, 3);
}
