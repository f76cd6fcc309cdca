use libltc_rs::{LtcBgFlags, LtcBgFlagsKind};

#[test]
fn test_ltc_bg_flags() {
    let mut flags: LtcBgFlags =
        (LtcBgFlagsKind::LTC_USE_DATE.bits() | LtcBgFlagsKind::LTC_TC_CLOCK.bits()).into();

    assert!(flags.contains(LtcBgFlagsKind::LTC_USE_DATE));
    assert!(flags.contains(LtcBgFlagsKind::LTC_TC_CLOCK));
    assert!(!flags.contains(LtcBgFlagsKind::LTC_BGF_DONT_TOUCH));
    assert!(!flags.contains(LtcBgFlagsKind::LTC_NO_PARITY));

    flags.set(LtcBgFlagsKind::LTC_BGF_DONT_TOUCH);
    assert!(flags.contains(LtcBgFlagsKind::LTC_USE_DATE));
    assert!(flags.contains(LtcBgFlagsKind::LTC_TC_CLOCK));
    assert!(flags.contains(LtcBgFlagsKind::LTC_BGF_DONT_TOUCH));
    assert!(!flags.contains(LtcBgFlagsKind::LTC_NO_PARITY));

    flags.set(LtcBgFlagsKind::LTC_NO_PARITY);
    assert!(flags.contains(LtcBgFlagsKind::LTC_USE_DATE));
    assert!(flags.contains(LtcBgFlagsKind::LTC_TC_CLOCK));
    assert!(flags.contains(LtcBgFlagsKind::LTC_BGF_DONT_TOUCH));
    assert!(flags.contains(LtcBgFlagsKind::LTC_NO_PARITY));

    flags.unset(LtcBgFlagsKind::LTC_BGF_DONT_TOUCH);
    assert!(flags.contains(LtcBgFlagsKind::LTC_USE_DATE));
    assert!(flags.contains(LtcBgFlagsKind::LTC_TC_CLOCK));
    assert!(!flags.contains(LtcBgFlagsKind::LTC_BGF_DONT_TOUCH));
    assert!(flags.contains(LtcBgFlagsKind::LTC_NO_PARITY));

    flags.unset(LtcBgFlagsKind::LTC_NO_PARITY);
    assert!(flags.contains(LtcBgFlagsKind::LTC_USE_DATE));
    assert!(flags.contains(LtcBgFlagsKind::LTC_TC_CLOCK));
    assert!(!flags.contains(LtcBgFlagsKind::LTC_BGF_DONT_TOUCH));
    assert!(!flags.contains(LtcBgFlagsKind::LTC_NO_PARITY));

    flags.unset(LtcBgFlagsKind::LTC_USE_DATE);
    assert!(!flags.contains(LtcBgFlagsKind::LTC_USE_DATE));
    assert!(flags.contains(LtcBgFlagsKind::LTC_TC_CLOCK));
    assert!(!flags.contains(LtcBgFlagsKind::LTC_BGF_DONT_TOUCH));
    assert!(!flags.contains(LtcBgFlagsKind::LTC_NO_PARITY));

    flags.unset(LtcBgFlagsKind::LTC_TC_CLOCK);
    assert!(!flags.contains(LtcBgFlagsKind::LTC_USE_DATE));
    assert!(!flags.contains(LtcBgFlagsKind::LTC_TC_CLOCK));
    assert!(!flags.contains(LtcBgFlagsKind::LTC_BGF_DONT_TOUCH));
    assert!(!flags.contains(LtcBgFlagsKind::LTC_NO_PARITY));

    assert_eq!(flags, LtcBgFlags::default());
}

#[test]
fn flags_convert_to_and_from_words() {
    let flags = LtcBgFlags::new(9);
    assert!(flags.contains(LtcBgFlagsKind::LTC_USE_DATE));
    assert!(flags.contains(LtcBgFlagsKind::LTC_NO_PARITY));
    let word: u32 = flags.into();
    assert_eq!(word, 9);
    assert_eq!(LtcBgFlagsKind::LTC_BGF_DONT_TOUCH.bits(), 4);
}
