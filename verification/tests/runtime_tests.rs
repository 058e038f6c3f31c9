use watch_rs::brightness::{brightness_adjust, brightness_edit_set, new_brightness_state};
use watch_rs::imu;
use watch_rs::qmi8658_imu::{init_writes, le_i16, who_am_i_accepted, ImuSample, Qmi8658, SmashDetector};
use watch_rs::runtime::{
    begin_frame, count_smash, detent_of, imu_should_read, new_loop_state, rotary_in_range, rotary_update, rtc_sync_due,
    schedule_poll,
};
use watch_rs::time::{new_clock_state, set_clock_seconds, watch_edit_start, HandCache};
use watch_rs::ui_state::{Dialog, MainMenuState, OmnitrixState, Page, SettingsMenuState, UiState, WatchAppState};
use watch_rs::watch_page::{
    analog_hands_update, clamp_rect, clock_edit_text, copy_bg_rect, edit_underline_x, new_watch_page_state, render,
    reset_on_exit, WatchDraw, PANEL_BYTES,
};

fn home() -> UiState {
    UiState { page: Page::Main(MainMenuState::Home), dialog: None }
}

#[test]
fn loop_redraw_decisions() {
    let mut ls = new_loop_state(home());
    let mut b = new_brightness_state();
    assert!(begin_frame(&mut ls, home(), &mut b));
    assert!(!begin_frame(&mut ls, home(), &mut b));
    let w = UiState { page: Page::Watch(WatchAppState::Analog), dialog: None };
    assert!(begin_frame(&mut ls, w, &mut b));
    assert!(begin_frame(&mut ls, w, &mut b));
    let adj = UiState { page: Page::Settings(SettingsMenuState::BrightnessAdjust), dialog: None };
    begin_frame(&mut ls, adj, &mut b);
    assert!(!begin_frame(&mut ls, adj, &mut b));
    brightness_adjust(&mut b, -10);
    assert!(begin_frame(&mut ls, adj, &mut b));
    assert!(!b.dirty);
    let d = UiState { page: Page::Omnitrix(OmnitrixState::Alien1), dialog: Some(Dialog::TransformPage) };
    begin_frame(&mut ls, d, &mut b);
    assert!(begin_frame(&mut ls, d, &mut b));
}

#[test]
fn imu_poll_and_smash_counting() {
    assert!(imu_should_read(true, false, true, 0, 100));
    assert!(imu_should_read(false, true, true, 0, 100));
    assert!(imu_should_read(false, false, false, 0, 100));
    assert!(imu_should_read(false, false, true, 100, 100));
    assert!(!imu_should_read(false, false, true, 99, 100));
    let mut ls = new_loop_state(home());
    schedule_poll(&mut ls, 1_000);
    assert_eq!(ls.next_poll_ms, 1_050);
    schedule_poll(&mut ls, u64::MAX);
    assert_eq!(ls.next_poll_ms, u64::MAX);
    assert!(!count_smash(&mut ls, false));
    assert!(count_smash(&mut ls, true));
    assert_eq!(ls.smash_count, 0);
}

#[test]
fn detent_division_rounds_toward_zero() {
    assert_eq!(detent_of(9, 4), 2);
    assert_eq!(detent_of(-9, 4), -2);
    assert_eq!(detent_of(-3, 4), 0);
    assert_eq!(detent_of(9, -4), -2);
    assert_eq!(detent_of(i32::MIN, 1), i32::MIN);
    assert_eq!(detent_of(i32::MIN, 2), i32::MIN / 2);
}

#[test]
fn knob_moves_menu_or_adjusts_values() {
    let mut ls = new_loop_state(home());
    let mut ui = home();
    let mut clock = new_clock_state();
    let mut b = new_brightness_state();
    assert_eq!(rotary_update(&mut ls, &mut ui, &mut clock, &mut b, 5), (false, None));
    assert_eq!(rotary_update(&mut ls, &mut ui, &mut clock, &mut b, 4), (true, None));
    assert_eq!(ui.page, Page::Main(MainMenuState::WatchApp));
    assert_eq!(rotary_update(&mut ls, &mut ui, &mut clock, &mut b, 5), (true, None));
    assert_eq!(ui.page, Page::Main(MainMenuState::Home));
    assert_eq!(rotary_update(&mut ls, &mut ui, &mut clock, &mut b, 5), (false, None));
    ui = UiState { page: Page::Settings(SettingsMenuState::BrightnessAdjust), dialog: None };
    brightness_edit_set(&mut b, true);
    assert_eq!(rotary_update(&mut ls, &mut ui, &mut clock, &mut b, 8), (true, Some(97)));
    set_clock_seconds(&mut clock, 0, 0);
    watch_edit_start(&mut clock, 0, 1);
    rotary_update(&mut ls, &mut ui, &mut clock, &mut b, 7);
    assert_eq!(clock.edit.unwrap().digits[0], 1);
    assert!(!rtc_sync_due(&mut ls, true));
    assert!(rtc_sync_due(&mut ls, false));
    assert!(!rtc_sync_due(&mut ls, false));
}

#[test]
fn watch_page_frames() {
    let mut page = new_watch_page_state();
    let mut clock = new_clock_state();
    let bg = miniz_oxide::deflate::compress_to_vec_zlib(&vec![1u8; PANEL_BYTES], 6);
    let f = render(&mut page, &mut clock, WatchAppState::Digital, &bg);
    assert!(f.repaint_background);
    assert!(matches!(f.draw, WatchDraw::DigitalTime));
    assert_eq!(page.bg.as_ref().map(|v| v.len()), Some(PANEL_BYTES));
    let f = render(&mut page, &mut clock, WatchAppState::Digital, &bg);
    assert!(!f.repaint_background);
    watch_edit_start(&mut clock, 0, 1);
    let f = render(&mut page, &mut clock, WatchAppState::Digital, &bg);
    assert!(matches!(f.draw, WatchDraw::DigitalEdit(_)));
    clock.edit = None;
    let f = render(&mut page, &mut clock, WatchAppState::Digital, &bg);
    assert!(f.repaint_background);
    let f = render(&mut page, &mut clock, WatchAppState::Analog, &bg);
    assert!(f.repaint_background);
    assert!(matches!(f.draw, WatchDraw::Analog));
    reset_on_exit(&mut page);
    assert!(page.bg.is_none());
}

#[test]
fn hands_dirty_area_and_background_copy() {
    let mut clock = new_clock_state();
    let r = analog_hands_update(&mut clock, (233, 30), (400, 233), (233, 300));
    assert_eq!(r, (211, 22, 408, 310));
    assert_eq!(clock.hand_cache, HandCache { sec: Some((233, 30)), min: Some((400, 233)), hour: Some((233, 300)) });
    let r2 = analog_hands_update(&mut clock, (240, 30), (400, 240), (200, 300));
    assert_eq!(r2, (190, 22, 408, 310));
    assert_eq!(clamp_rect((-5, 10, 500, 465)), (0, 10, 465, 465));
    let bg: Vec<u8> = (0..PANEL_BYTES).map(|i| (i % 256) as u8).collect();
    let part = copy_bg_rect(&bg, 2, 1, 3, 2);
    let row1 = (466 + 2) * 2;
    let row2 = (2 * 466 + 2) * 2;
    let expect: Vec<u8> = bg[row1..row1 + 4].iter().chain(bg[row2..row2 + 4].iter()).copied().collect();
    assert_eq!(part, expect);
}

#[test]
fn clock_editor_layout() {
    let mut clock = new_clock_state();
    set_clock_seconds(&mut clock, 19 * 3600 + 4 * 60, 0);
    watch_edit_start(&mut clock, 0, 1);
    let mut ed = clock.edit.unwrap();
    assert_eq!(&clock_edit_text(&ed), b"19:04");
    assert_eq!(edit_underline_x(&ed), 208);
    ed.idx = 2;
    assert_eq!(edit_underline_x(&ed), 238);
    ed.idx = 9;
    assert_eq!(edit_underline_x(&ed), 248);
}

fn sample(a: [i16; 3]) -> ImuSample {
    ImuSample { accel: a, gyro: [0, 0, 0] }
}

#[test]
fn imu_register_decoding() {
    assert_eq!(le_i16(0x34, 0x12), 0x1234);
    assert_eq!(le_i16(0xFF, 0xFF), -1);
    assert_eq!(le_i16(0x00, 0x80), i16::MIN);
    let s = ImuSample::from_registers(&[0xE8, 0x03, 0, 0, 0x18, 0xFC, 1, 0, 2, 0, 3, 0]);
    assert_eq!(s.accel, [1000, 0, -1000]);
    assert_eq!(s.gyro, [1, 2, 3]);
    assert_eq!(s.accel_mag_sq(), 2_000_000);
    assert_eq!(s.gyro_mag_sq(), 14);
    assert!(who_am_i_accepted(0x05));
    assert!(who_am_i_accepted(0x0F));
    assert!(!who_am_i_accepted(0x00));
    assert_eq!(init_writes()[1], (0x02, 0x78, false));
    assert_eq!(init_writes()[3], (0x08, 0x03, true));
    let mut dev = Qmi8658::attach(5u8, 0x6B);
    assert_eq!(dev.address(), 0x6B);
    *dev.bus_mut() = 6;
    assert_eq!(dev.into_inner(), 6);
}

#[test]
fn smash_detector_fires_once_per_cooldown() {
    let mut d = SmashDetector::default_rough();
    let mut t = 0;
    for _ in 0..20 {
        assert!(!d.update(t, &sample([0, 0, 1000])));
        t += 10;
    }
    assert_eq!(d.gravity_dot(&sample([0, 0, 1000])), 1_000_000);
    assert!(d.update(t, &sample([0, 0, 2100])));
    assert!(!d.update(t + 10, &sample([0, 0, 1000])));
    assert!(!d.update(t + 20, &sample([0, 0, 2100])));
    let quiet = SmashDetector::new(1800, 700, 60_000, 200, 160);
    assert_eq!(quiet.threshold_sq, 1800 * 1800);
}

#[test]
fn older_smash_detector_needs_threefold_jump() {
    let mut d = imu::SmashDetector::default_rough();
    let mut t = 0;
    for _ in 0..20 {
        assert!(!d.update(t, &sample([0, 0, 1000])));
        t += 10;
    }
    assert!(!d.update(t, &sample([0, 0, 1700])));
    t += 200;
    d.update(t, &sample([0, 0, 1000]));
    t += 10;
    assert!(d.update(t, &sample([0, 0, 2000])));
}

#[test]
fn rotary_moves_checked_against_overflow() {
    let mut ls = new_loop_state(home());
    let clock = new_clock_state();
    let b = new_brightness_state();
    assert!(rotary_in_range(&ls, &clock, &b, i32::MIN));
    ls.last_detent = Some(0);
    assert!(rotary_in_range(&ls, &clock, &b, 5));
    assert!(rotary_in_range(&ls, &clock, &b, -1));
    ls.last_detent = Some(i32::MAX);
    assert!(!rotary_in_range(&ls, &clock, &b, i32::MIN));
    ls.last_detent = Some(1);
    assert!(!rotary_in_range(&ls, &clock, &b, i32::MIN));
}

fn spun(a: [i16; 3]) -> ImuSample {
    ImuSample { accel: a, gyro: [100, 0, 0] }
}

#[test]
fn smash_hits_are_a_cooldown_apart() {
    let mut d = SmashDetector::new(1800, 700, 60_000, 200, 160);
    assert!(d.update(1000, &spun([2000, 0, 0])));
    assert!(!d.update(1050, &spun([500, 0, 0])));
    assert!(!d.update(1100, &spun([2000, 0, 0])));
    assert!(!d.update(1150, &spun([500, 0, 0])));
    assert!(d.update(1200, &spun([2000, 0, 0])));
    assert_eq!(d.last_trigger_ms, 1200);
    assert_eq!(d.threshold_sq, 1800 * 1800);
    assert_eq!(d.cooldown_ms, 160);
}

#[test]
fn smash_needs_rise_out_of_freefall() {
    let mut d = SmashDetector::new(1800, 700, 60_000, 200, 160);
    assert!(!d.update(1000, &spun([0, 0, 0])));
    assert!(d.last_freefall);
    assert!(!d.update(1010, &spun([2000, 0, 0])));
    assert!(!d.update(1020, &spun([1900, 0, 0])));
    assert_eq!(d.last_mag_sq, 1900 * 1900);
    assert!(!d.update(1300, &spun([2000, 0, 0])));
    assert!(!d.update(1310, &spun([500, 0, 0])));
    assert!(d.update(1320, &spun([2000, 0, 0])));
    let mut old = imu::SmashDetector::new(1800, 700, 60_000, 200, 160);
    assert!(!old.update(1000, &spun([0, 0, 0])));
    assert!(!old.update(1010, &spun([2000, 0, 0])));
    assert!(!old.update(1020, &spun([500, 0, 0])));
    assert!(old.update(1030, &spun([2000, 0, 0])));
    assert!(!old.update(1100, &spun([500, 0, 0])));
    assert!(!old.update(1110, &spun([2000, 0, 0])));
}
