use watch_rs::rtc_pcf85063::{
    bcd_decode, bcd_encode, datetime_is_valid, datetime_to_unix, decode_datetime, encode_datetime,
    rtc_retry_delay_ms, rtc_seconds_from_read, unix_to_datetime, DateTime, Pcf85063,
};
use watch_rs::sleep::{release_wait_step, restored_clock_secs, rtc_time_to_save_us, sleep_hold_update};
use watch_rs::time::{
    clock_now_seconds_u32, current_edit_state, format_clock_hm, get_clock_seconds, mark_watch_face_dirty,
    new_clock_state, reset_clock_state, reset_hand_cache, set_clock_seconds, take_watch_face_dirty, watch_edit_active,
    watch_edit_adjust, watch_edit_advance, watch_edit_cancel, watch_edit_start, ClockEditState, HandCache,
};

#[test]
fn clock_counts_whole_seconds_since_set() {
    let mut c = new_clock_state();
    set_clock_seconds(&mut c, 100, 5_000);
    assert_eq!(get_clock_seconds(&c, 5_000, 1_000), 100);
    assert_eq!(get_clock_seconds(&c, 7_999, 1_000), 102);
    assert_eq!(get_clock_seconds(&c, 8_000, 1_000), 103);
    assert_eq!(get_clock_seconds(&c, 10, 1_000), 100);
    assert!(take_watch_face_dirty(&mut c));
    assert!(!take_watch_face_dirty(&mut c));
}

#[test]
fn clock_saturates_and_truncates_to_u32() {
    let mut c = new_clock_state();
    c.base_secs = u64::MAX - 1;
    assert_eq!(get_clock_seconds(&c, 10_000, 1_000), u64::MAX);
    c.base_secs = 0x1_0000_0005;
    assert_eq!(clock_now_seconds_u32(&c, 0, 1_000), 5);
}

#[test]
fn format_clock_writes_hh_mm() {
    let mut c = new_clock_state();
    set_clock_seconds(&mut c, 86_400 * 3 + 13 * 3600 + 7 * 60 + 59, 0);
    let mut buf = [b'0'; 5];
    let s = format_clock_hm(&c, 0, 1_000, &mut buf);
    assert_eq!(s, "13:07");
    let s2 = format_clock_hm(&c, 1_000, 1_000, &mut buf);
    assert_eq!(s2, "13:08");
    assert_eq!(&buf, b"13:08");
}

#[test]
fn edit_start_shows_current_time() {
    let mut c = new_clock_state();
    set_clock_seconds(&mut c, 23 * 3600 + 59 * 60, 0);
    assert!(!watch_edit_active(&c));
    watch_edit_start(&mut c, 0, 1_000);
    assert!(watch_edit_active(&c));
    assert_eq!(current_edit_state(&c), Some(ClockEditState { digits: [2, 3, 5, 9], idx: 0 }));
    watch_edit_cancel(&mut c);
    assert_eq!(current_edit_state(&c), None);
}

#[test]
fn edit_adjust_wraps_in_digit_range() {
    let mut c = new_clock_state();
    watch_edit_start(&mut c, 0, 1_000);
    watch_edit_adjust(&mut c, -1);
    assert_eq!(c.edit.unwrap().digits[0], 2);
    watch_edit_adjust(&mut c, 1);
    assert_eq!(c.edit.unwrap().digits[0], 0);
    watch_edit_adjust(&mut c, 2);
    assert_eq!(c.edit.unwrap().digits[0], 2);
    watch_edit_advance(&mut c, 0);
    watch_edit_adjust(&mut c, 4);
    assert_eq!(c.edit.unwrap().digits[1], 0);
    watch_edit_adjust(&mut c, 3);
    assert_eq!(c.edit.unwrap().digits[1], 3);
    watch_edit_adjust(&mut c, 0);
    assert_eq!(c.edit.unwrap().digits[1], 3);
    watch_edit_advance(&mut c, 0);
    watch_edit_adjust(&mut c, -1);
    assert_eq!(c.edit.unwrap().digits[2], 5);
}

#[test]
fn edit_roundtrip_sets_minute_of_day() {
    let mut c = new_clock_state();
    let secs: u32 = 86_400 * 2 + 17 * 3600 + 42 * 60 + 31;
    set_clock_seconds(&mut c, secs, 0);
    watch_edit_start(&mut c, 0, 1_000);
    for _ in 0..4 {
        watch_edit_advance(&mut c, 77);
    }
    assert!(!watch_edit_active(&c));
    assert_eq!(c.base_secs, (17 * 3600 + 42 * 60) as u64);
    assert_eq!(c.base_ticks, 77);
    assert!(c.hand_cache.sec.is_none());
}

#[test]
fn hand_cache_and_reset() {
    let mut c = new_clock_state();
    c.hand_cache = HandCache { sec: Some((1, 2)), min: None, hour: Some((3, 4)) };
    reset_hand_cache(&mut c);
    assert_eq!(c.hand_cache, HandCache::new());
    mark_watch_face_dirty(&mut c);
    watch_edit_start(&mut c, 0, 1);
    reset_clock_state(&mut c);
    assert!(!watch_edit_active(&c));
    assert!(!take_watch_face_dirty(&mut c));
}

#[test]
fn bcd_roundtrip_and_values() {
    assert_eq!(bcd_decode(0x59), 59);
    assert_eq!(bcd_decode(0x00), 0);
    assert_eq!(bcd_encode(47), 0x47);
    for v in 0u8..100 {
        assert_eq!(bcd_decode(bcd_encode(v)), v);
    }
}

#[test]
fn decode_registers_with_integrity_flag() {
    let regs = [0x80 | 0x30, 0x15, 0x23, 0x31, 0x02, 0x12, 0x24];
    let (dt, vl) = decode_datetime(&regs);
    assert!(vl);
    assert_eq!(dt, DateTime { year: 2024, month: 12, day: 31, hour: 23, minute: 15, second: 30 });
    let regs19 = [0x00, 0x00, 0x00, 0x01, 0x00, 0x81, 0x99];
    let (dt2, vl2) = decode_datetime(&regs19);
    assert!(!vl2);
    assert_eq!(dt2.year, 1999);
    assert_eq!(dt2.month, 1);
}

#[test]
fn encode_then_decode_gives_back_time() {
    let dt = DateTime { year: 2031, month: 7, day: 4, hour: 9, minute: 5, second: 58 };
    let bytes = encode_datetime(&dt);
    assert_eq!(bytes, [0x04, 0x58, 0x05, 0x09, 0x04, 0x00, 0x07, 0x31]);
    let mut regs = [0u8; 7];
    regs.copy_from_slice(&bytes[1..]);
    assert_eq!(decode_datetime(&regs), (dt, false));
}

#[test]
fn unix_conversions() {
    let epoch = DateTime { year: 1970, month: 1, day: 1, hour: 0, minute: 0, second: 0 };
    assert_eq!(datetime_to_unix(&epoch), 0);
    let dt = DateTime { year: 2024, month: 2, day: 29, hour: 12, minute: 34, second: 56 };
    assert_eq!(datetime_to_unix(&dt), 1_709_210_096);
    assert_eq!(unix_to_datetime(1_709_210_096), dt);
    assert_eq!(unix_to_datetime(0), epoch);
    let y2k = DateTime { year: 2000, month: 3, day: 1, hour: 0, minute: 0, second: 0 };
    assert_eq!(datetime_to_unix(&y2k), 951_868_800);
    for ts in [0u32, 59, 86_399, 86_400, 951_868_799, 1_700_000_000, 4_102_444_799, u32::MAX] {
        assert_eq!(datetime_to_unix(&unix_to_datetime(ts)), ts);
    }
}

#[test]
fn existing_dates_survive_unix_round_trip() {
    for (year, month, day) in [(2020u16, 1u8, 1u8), (2024, 2, 29), (2023, 2, 28), (2099, 12, 31), (2050, 4, 30)] {
        let dt = DateTime { year, month, day, hour: 23, minute: 59, second: 59 };
        assert_eq!(unix_to_datetime(datetime_to_unix(&dt)), dt);
    }
    let missing = DateTime { year: 2023, month: 2, day: 30, hour: 0, minute: 0, second: 0 };
    assert_eq!(unix_to_datetime(datetime_to_unix(&missing)), DateTime { month: 3, day: 2, ..missing });
}

#[test]
fn saved_clock_reads_back_from_registers() {
    for ts in [1_577_836_800u32, 1_709_210_096, 4_102_444_799] {
        let bytes = encode_datetime(&unix_to_datetime(ts));
        let mut regs = [0u8; 7];
        regs.copy_from_slice(&bytes[1..]);
        assert_eq!(rtc_seconds_from_read(Some(decode_datetime(&regs))), Some(ts));
    }
}

#[test]
fn datetime_validity() {
    let ok = DateTime { year: 2020, month: 1, day: 1, hour: 0, minute: 0, second: 0 };
    assert!(datetime_is_valid(&ok));
    assert!(!datetime_is_valid(&DateTime { year: 2019, ..ok }));
    assert!(!datetime_is_valid(&DateTime { year: 2100, ..ok }));
    assert!(!datetime_is_valid(&DateTime { month: 13, ..ok }));
    assert!(!datetime_is_valid(&DateTime { day: 0, ..ok }));
    assert!(!datetime_is_valid(&DateTime { hour: 24, ..ok }));
    assert!(!datetime_is_valid(&DateTime { second: 60, ..ok }));
}

#[test]
fn rtc_read_decision() {
    let dt = DateTime { year: 2025, month: 6, day: 1, hour: 8, minute: 0, second: 0 };
    assert_eq!(rtc_seconds_from_read(Some((dt, false))), Some(datetime_to_unix(&dt)));
    assert_eq!(rtc_seconds_from_read(Some((dt, true))), None);
    assert_eq!(rtc_seconds_from_read(Some((DateTime { year: 2001, ..dt }, false))), None);
    assert_eq!(rtc_seconds_from_read(None), None);
    assert_eq!(rtc_retry_delay_ms(0), 10);
    assert_eq!(rtc_retry_delay_ms(2), 30);
}

#[test]
fn rtc_driver_shell_keeps_bus() {
    let mut d = Pcf85063::new(7u32);
    *d.bus_mut() = 9;
    assert_eq!(d.into_inner(), 9);
}

#[test]
fn deep_sleep_hold_tracking() {
    let mut hold = None;
    assert!(!sleep_hold_update(&mut hold, 1_000, true, 5_000));
    assert_eq!(hold, Some(1_000));
    assert!(!sleep_hold_update(&mut hold, 5_999, true, 5_000));
    assert!(sleep_hold_update(&mut hold, 6_000, true, 5_000));
    assert!(!sleep_hold_update(&mut hold, 6_001, false, 5_000));
    assert_eq!(hold, None);
}

#[test]
fn sleep_time_conversions() {
    assert_eq!(rtc_time_to_save_us(12, 3_500_000, 1_000_000), 12_500_000);
    assert_eq!(rtc_time_to_save_us(12, 10, 1_000_000), 12_000_000);
    assert_eq!(restored_clock_secs(12_999_999), 12);
    assert_eq!(restored_clock_secs((1u64 << 32) * 1_000_000 + 3_000_000), 3);
    assert_eq!(release_wait_step(0, true), None);
    assert_eq!(release_wait_step(0, false), Some(10));
    assert_eq!(release_wait_step(2_990, false), None);
}

#[test]
fn calendar_round_trip_from_1970_to_2105() {
    let first = DateTime { year: 1970, month: 1, day: 1, hour: 0, minute: 0, second: 0 };
    assert_eq!(unix_to_datetime(datetime_to_unix(&first)), first);
    let last = DateTime { year: 2105, month: 12, day: 31, hour: 23, minute: 59, second: 59 };
    assert_eq!(datetime_to_unix(&last), 4_291_747_199);
    assert_eq!(unix_to_datetime(4_291_747_199), last);
    for (year, month, day) in [(1972u16, 2u8, 29u8), (1999, 12, 31), (2000, 2, 29), (2100, 3, 1), (2104, 2, 29)] {
        let dt = DateTime { year, month, day, hour: 6, minute: 7, second: 8 };
        assert_eq!(unix_to_datetime(datetime_to_unix(&dt)), dt);
    }
}

#[test]
fn timestamps_follow_calendar_order() {
    let a = DateTime { year: 2023, month: 12, day: 31, hour: 23, minute: 59, second: 59 };
    let b = DateTime { year: 2024, month: 1, day: 1, hour: 0, minute: 0, second: 0 };
    assert_eq!(datetime_to_unix(&b) - datetime_to_unix(&a), 1);
    let c = DateTime { year: 2100, month: 2, day: 28, hour: 12, minute: 0, second: 0 };
    let d = DateTime { year: 2100, month: 3, day: 1, hour: 11, minute: 59, second: 59 };
    assert!(datetime_to_unix(&c) < datetime_to_unix(&d));
    assert_eq!(datetime_to_unix(&d) - datetime_to_unix(&c), 86_399);
}

#[test]
fn plausible_timestamps_span_2020_to_2099() {
    assert!(!datetime_is_valid(&unix_to_datetime(1_577_836_799)));
    assert!(datetime_is_valid(&unix_to_datetime(1_577_836_800)));
    assert!(datetime_is_valid(&unix_to_datetime(4_102_444_799)));
    assert!(!datetime_is_valid(&unix_to_datetime(4_102_444_800)));
    assert!(!datetime_is_valid(&unix_to_datetime(0)));
    assert!(!datetime_is_valid(&unix_to_datetime(u32::MAX)));
}

#[test]
fn timestamps_saturate_after_2106() {
    let last = DateTime { year: 2106, month: 2, day: 7, hour: 6, minute: 28, second: 15 };
    assert_eq!(unix_to_datetime(u32::MAX), last);
    assert_eq!(datetime_to_unix(&last), u32::MAX);
    assert_eq!(datetime_to_unix(&DateTime { second: 16, ..last }), u32::MAX);
    assert_eq!(datetime_to_unix(&DateTime { year: 2200, month: 1, day: 1, hour: 0, minute: 0, second: 0 }), u32::MAX);
    assert_eq!(datetime_to_unix(&DateTime { second: 14, ..last }), u32::MAX - 1);
}

#[test]
fn decoded_dates_exist() {
    assert_eq!(unix_to_datetime(4_107_456_000), DateTime { year: 2100, month: 2, day: 28, hour: 0, minute: 0, second: 0 });
    assert_eq!(unix_to_datetime(4_107_542_400), DateTime { year: 2100, month: 3, day: 1, hour: 0, minute: 0, second: 0 });
    assert_eq!(unix_to_datetime(951_782_400), DateTime { year: 2000, month: 2, day: 29, hour: 0, minute: 0, second: 0 });
}
