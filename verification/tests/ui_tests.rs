use watch_rs::brightness::{
    brightness_adjust, brightness_edit_active, brightness_edit_set, brightness_pct, brightness_set_pct,
    brightness_take_dirty, get_brightness_last_pct, get_brightness_pct, new_brightness_state, reset_brightness_last,
    reset_flags, set_brightness_last_pct,
};
use watch_rs::controller::{handle_back, handle_select, handle_transform};
use watch_rs::time::new_clock_state;
use watch_rs::ui_frame::{new_ui_tracker, update_ui};
use watch_rs::ui_state::{
    clear_nav, page_kind, Dialog, MainMenuState, NavHistory, OmnitrixState, Page, PageKind, SettingsMenuState,
    UiState, WatchAppState,
};

fn home() -> UiState {
    UiState { page: Page::Main(MainMenuState::Home), dialog: None }
}

#[test]
fn next_and_prev_walk_the_main_menu() {
    let s = home();
    let n = s.next_item();
    assert_eq!(n.page, Page::Main(MainMenuState::WatchApp));
    assert_eq!(n.next_item().page, Page::Main(MainMenuState::SettingsApp));
    assert_eq!(n.next_item().next_item().page, Page::Main(MainMenuState::Home));
    assert_eq!(s.prev_item().page, Page::Main(MainMenuState::SettingsApp));
}

#[test]
fn next_then_prev_is_identity_on_every_alien() {
    let aliens = [
        OmnitrixState::Alien1,
        OmnitrixState::Alien2,
        OmnitrixState::Alien3,
        OmnitrixState::Alien4,
        OmnitrixState::Alien5,
        OmnitrixState::Alien6,
        OmnitrixState::Alien7,
        OmnitrixState::Alien8,
        OmnitrixState::Alien9,
        OmnitrixState::Alien10,
    ];
    for a in aliens {
        let s = UiState { page: Page::Omnitrix(a), dialog: None };
        assert_eq!(s.next_item().prev_item(), s);
    }
    let last = UiState { page: Page::Omnitrix(OmnitrixState::Alien10), dialog: None };
    assert_eq!(last.next_item().page, Page::Omnitrix(OmnitrixState::Alien1));
}

#[test]
fn rotary_is_ignored_while_dialog_open() {
    let s = UiState { page: Page::Omnitrix(OmnitrixState::Alien3), dialog: Some(Dialog::TransformPage) };
    assert_eq!(s.next_item(), s);
    assert_eq!(s.prev_item(), s);
}

#[test]
fn select_then_back_returns_to_menu() {
    let mut nav = NavHistory::new();
    let s = home().select(&mut nav);
    assert_eq!(s.page, Page::Omnitrix(OmnitrixState::Alien1));
    assert_eq!(nav.len(), 1);
    let b = s.back(&mut nav);
    assert_eq!(b, home());
    assert_eq!(nav.len(), 0);
}

#[test]
fn back_with_empty_history_goes_home() {
    let mut nav = NavHistory::new();
    let s = UiState { page: Page::Watch(WatchAppState::Digital), dialog: None };
    assert_eq!(s.back(&mut nav), home());
}

#[test]
fn settings_brightness_flow() {
    let mut nav = NavHistory::new();
    let s = UiState { page: Page::Main(MainMenuState::SettingsApp), dialog: None };
    let s = s.select(&mut nav);
    assert_eq!(s.page, Page::Settings(SettingsMenuState::BrightnessPrompt));
    let s = s.select(&mut nav);
    assert_eq!(s.page, Page::Settings(SettingsMenuState::BrightnessAdjust));
    assert_eq!(nav.len(), 2);
    let s = s.back(&mut nav);
    assert_eq!(s.page, Page::Settings(SettingsMenuState::BrightnessPrompt));
    assert_eq!(nav.len(), 1);
}

#[test]
fn easter_egg_back_goes_to_settings_entry() {
    let mut nav = NavHistory::new();
    let s = UiState { page: Page::Settings(SettingsMenuState::EasterEgg), dialog: None };
    let s = s.select(&mut nav);
    assert_eq!(s.page, Page::EasterEgg);
    let s = s.back(&mut nav);
    assert_eq!(s.page, Page::Settings(SettingsMenuState::EasterEgg));
    clear_nav(&mut nav);
    assert_eq!(nav.len(), 0);
}

#[test]
fn transform_opens_dialog_only_on_omnitrix() {
    let o = UiState { page: Page::Omnitrix(OmnitrixState::Alien5), dialog: None };
    assert_eq!(o.transform().dialog, Some(Dialog::TransformPage));
    assert_eq!(home().transform(), home());
    let mut nav = NavHistory::new();
    let closed = o.transform().back(&mut nav);
    assert_eq!(closed, o);
}

#[test]
fn page_kinds() {
    assert_eq!(page_kind(Page::EasterEgg), PageKind::EasterEgg);
    assert_eq!(page_kind(Page::Watch(WatchAppState::Analog)), PageKind::Watch);
    assert_eq!(page_kind(Page::Omnitrix(OmnitrixState::Alien2)), PageKind::Omnitrix);
}

#[test]
fn brightness_adjust_clamps_and_marks_dirty() {
    let mut b = new_brightness_state();
    assert_eq!(get_brightness_pct(&b), 100);
    assert_eq!(brightness_adjust(&mut b, 5), 100);
    assert!(!brightness_take_dirty(&mut b));
    assert_eq!(brightness_adjust(&mut b, -30), 70);
    assert!(brightness_take_dirty(&mut b));
    assert!(!brightness_take_dirty(&mut b));
    assert_eq!(brightness_adjust(&mut b, -500), 0);
    assert_eq!(brightness_adjust(&mut b, 0), 0);
    assert_eq!(brightness_adjust(&mut b, 30), 30);
    assert_eq!(brightness_adjust(&mut b, -30), 0);
}

#[test]
fn brightness_set_pct_clamps() {
    let mut b = new_brightness_state();
    assert_eq!(brightness_set_pct(&mut b, 250), 100);
    assert_eq!(brightness_set_pct(&mut b, -4), 0);
    assert_eq!(brightness_set_pct(&mut b, 42), 42);
    assert_eq!(brightness_pct(&b), 42);
    assert!(brightness_take_dirty(&mut b));
}

#[test]
fn brightness_flags_reset() {
    let mut b = new_brightness_state();
    brightness_edit_set(&mut b, true);
    set_brightness_last_pct(&mut b, Some(40));
    assert!(brightness_edit_active(&b));
    assert_eq!(get_brightness_last_pct(&b), Some(40));
    reset_brightness_last(&mut b);
    assert_eq!(get_brightness_last_pct(&b), None);
    set_brightness_last_pct(&mut b, Some(3));
    brightness_adjust(&mut b, -1);
    reset_flags(&mut b);
    assert!(!brightness_edit_active(&b));
    assert_eq!(get_brightness_last_pct(&b), None);
    assert!(!brightness_take_dirty(&mut b));
    assert_eq!(get_brightness_pct(&b), 99);
}

#[test]
fn controller_back_cancels_clock_editor_first() {
    let mut ui = UiState { page: Page::Watch(WatchAppState::Digital), dialog: None };
    let mut nav = NavHistory::new();
    nav.nav_push(Page::Main(MainMenuState::WatchApp));
    let mut clock = new_clock_state();
    assert!(handle_select(&mut ui, &mut nav, &mut clock, 0, 1000));
    assert!(clock.edit.is_some());
    assert!(handle_back(&mut ui, &mut nav, &mut clock));
    assert!(clock.edit.is_none());
    assert_eq!(ui.page, Page::Watch(WatchAppState::Digital));
    assert!(handle_back(&mut ui, &mut nav, &mut clock));
    assert_eq!(ui.page, Page::Main(MainMenuState::WatchApp));
}

#[test]
fn controller_select_commits_after_four_digits() {
    let mut ui = UiState { page: Page::Watch(WatchAppState::Digital), dialog: None };
    let mut nav = NavHistory::new();
    let mut clock = new_clock_state();
    watch_rs::time::set_clock_seconds(&mut clock, 3 * 3600 + 25 * 60 + 7, 0);
    handle_select(&mut ui, &mut nav, &mut clock, 0, 1000);
    assert_eq!(clock.edit.unwrap().digits, [0, 3, 2, 5]);
    for _ in 0..3 {
        handle_select(&mut ui, &mut nav, &mut clock, 0, 1000);
    }
    assert_eq!(clock.edit.unwrap().idx, 3);
    handle_select(&mut ui, &mut nav, &mut clock, 5000, 1000);
    assert!(clock.edit.is_none());
    assert_eq!(clock.base_secs, 3 * 3600 + 25 * 60);
    assert_eq!(clock.base_ticks, 5000);
}

#[test]
fn controller_select_elsewhere_selects() {
    let mut ui = home();
    let mut nav = NavHistory::new();
    let mut clock = new_clock_state();
    assert!(handle_select(&mut ui, &mut nav, &mut clock, 0, 1000));
    assert_eq!(ui.page, Page::Omnitrix(OmnitrixState::Alien1));
    assert!(handle_transform(&mut ui, true));
    assert_eq!(ui.dialog, Some(Dialog::TransformPage));
    assert!(!handle_transform(&mut ui, false));
}

#[test]
fn frame_plan_clears_when_entering_omnitrix() {
    let mut t = new_ui_tracker();
    let mut b = new_brightness_state();
    assert!(update_ui(&mut t, &mut b, home(), false).is_none());
    let p = update_ui(&mut t, &mut b, home(), true).unwrap();
    assert!(!p.clear_screen);
    assert!(p.leave_watch);
    let o = UiState { page: Page::Omnitrix(OmnitrixState::Alien1), dialog: None };
    assert!(update_ui(&mut t, &mut b, o, true).unwrap().clear_screen);
    assert!(!update_ui(&mut t, &mut b, o, true).unwrap().clear_screen);
    let d = o.transform();
    let p = update_ui(&mut t, &mut b, d, true).unwrap();
    assert!(p.draw_transform && p.transform_hard_clear);
    let p = update_ui(&mut t, &mut b, d, true).unwrap();
    assert!(p.draw_transform && !p.transform_hard_clear);
    assert!(update_ui(&mut t, &mut b, o, true).unwrap().clear_screen);
}

#[test]
fn frame_plan_resets_brightness_editor_off_settings() {
    let mut t = new_ui_tracker();
    let mut b = new_brightness_state();
    brightness_edit_set(&mut b, true);
    set_brightness_last_pct(&mut b, Some(10));
    let adj = UiState { page: Page::Settings(SettingsMenuState::BrightnessAdjust), dialog: None };
    update_ui(&mut t, &mut b, adj, true);
    assert!(brightness_edit_active(&b));
    assert_eq!(get_brightness_last_pct(&b), None);
    set_brightness_last_pct(&mut b, Some(20));
    update_ui(&mut t, &mut b, adj, true);
    assert_eq!(get_brightness_last_pct(&b), Some(20));
    update_ui(&mut t, &mut b, home(), true);
    assert!(!brightness_edit_active(&b));
    assert_eq!(get_brightness_last_pct(&b), None);
}
