use watch_rs::assets::{asset_need, cache_decoded, get_cached_asset, AssetCache, AssetId};
use watch_rs::boot::{boot_assets, boot_load_due, boot_load_interval_ms, boot_pulse, BOOT_ASSET_COUNT, BOOT_FRAMES};
use watch_rs::brightness::{brightness_hw_level, brightness_set_pct, brightness_ui_plan, new_brightness_state, RingUpdate};
use watch_rs::framebuffer::{clip_area, even_window, FbError, Framebuffer};
use watch_rs::panel::{blit_end, chunk_opcode, fill_pattern, panel_window, rect_end, RAMWRC_OPCODE, RAMWR_OPCODE};
use watch_rs::ring::{align_bbox, block_in_ring, block_runs};
use watch_rs::geometry::{rgb565_from_888, CENTER, RESOLUTION};
use watch_rs::terminal::{new_term_page_state, terminal_line_count, terminal_push_byte, TerminalState};
use watch_rs::time::{new_clock_state, set_clock_seconds, watch_edit_active, watch_edit_start};
use watch_rs::timer::{delay_end_ticks, MICROS_PER_SEC, MILLIS_PER_SEC, NANOS_PER_SEC};
use watch_rs::ui_frame::{clear_all_caches, new_ui_tracker, UiTracker};
use watch_rs::ui_state::{MainMenuState, NavHistory, Page};
use watch_rs::watch_page::new_watch_page_state;

fn pixel(fb: &Framebuffer, x: u16, y: u16) -> u16 {
    let b = fb.rect_be_bytes(x, y, x, y);
    assert_eq!(b.len(), 2);
    ((b[0] as u16) << 8) | b[1] as u16
}

#[test]
fn new_framebuffer_is_black_and_sized() {
    let fb = Framebuffer::new(4, 3);
    assert_eq!(fb.width_px(), 4);
    assert_eq!(fb.height_px(), 3);
    assert_eq!(fb.rect_be_bytes(0, 0, 3, 2), vec![0u8; 24]);
}

#[test]
fn fill_rect_accepts_swapped_corners_and_clips() {
    let mut fb = Framebuffer::new(4, 4);
    fb.fill_rect_fb(5, 2, 2, -1, 0xF800);
    for y in 0..4u16 {
        for x in 0..4u16 {
            let inside = x >= 2 && y <= 2;
            assert_eq!(pixel(&fb, x, y), if inside { 0xF800 } else { 0 }, "pixel {x},{y}");
        }
    }
}

#[test]
fn fill_rect_entirely_off_the_buffer_changes_nothing() {
    let mut fb = Framebuffer::new(3, 3);
    fb.fill_rect_fb(10, 10, 20, 20, 0xFFFF);
    assert_eq!(fb.rect_be_bytes(0, 0, 2, 2), vec![0u8; 18]);
}

#[test]
fn write_rect_copies_big_endian_words() {
    let mut fb = Framebuffer::new(4, 4);
    let data = [0x12, 0x34, 0xAB, 0xCD, 0x00, 0x01, 0xFF, 0xFE];
    assert_eq!(fb.write_rect_fb(1, 2, 2, 2, &data), Ok(()));
    assert_eq!(pixel(&fb, 1, 2), 0x1234);
    assert_eq!(pixel(&fb, 2, 2), 0xABCD);
    assert_eq!(pixel(&fb, 1, 3), 0x0001);
    assert_eq!(pixel(&fb, 2, 3), 0xFFFE);
    assert_eq!(pixel(&fb, 0, 2), 0);
    assert_eq!(pixel(&fb, 3, 3), 0);
    assert_eq!(fb.rect_be_bytes(1, 2, 2, 3), data.to_vec());
}

#[test]
fn write_rect_rejects_wrong_length_and_overflow() {
    let mut fb = Framebuffer::new(4, 4);
    assert_eq!(fb.write_rect_fb(0, 0, 2, 2, &[1, 2, 3]), Err(FbError::OutOfBounds));
    assert_eq!(fb.write_rect_fb(3, 0, 2, 1, &[1, 2, 3, 4]), Err(FbError::OutOfBounds));
    assert_eq!(fb.write_rect_fb(0, 4, 1, 1, &[1, 2]), Err(FbError::OutOfBounds));
    assert_eq!(fb.rect_be_bytes(0, 0, 3, 3), vec![0u8; 32]);
}

#[test]
fn draw_pixels_skips_off_buffer_and_reports_bounds() {
    let mut fb = Framebuffer::new(5, 5);
    let r = fb.draw_pixels(&[(1, 3, 7), (-1, 0, 9), (4, 1, 8), (5, 5, 1)]);
    assert_eq!(r, Some((1, 1, 4, 3)));
    assert_eq!(pixel(&fb, 1, 3), 7);
    assert_eq!(pixel(&fb, 4, 1), 8);
    assert_eq!(fb.draw_pixels(&[(9, 9, 1)]), None);
    assert_eq!(fb.draw_pixels(&[]), None);
}

#[test]
fn horizontal_line_paints_each_point() {
    let mut fb = Framebuffer::new(6, 3);
    let r = fb.draw_line_fb(1, 1, 4, 1, 0x07E0, 1);
    assert_eq!(r, Some((1, 1, 4, 1)));
    for x in 0..6u16 {
        assert_eq!(pixel(&fb, x, 1), if (1..=4).contains(&x) { 0x07E0 } else { 0 });
        assert_eq!(pixel(&fb, x, 0), 0);
    }
}

#[test]
fn diagonal_line_and_zero_stroke() {
    let mut fb = Framebuffer::new(4, 4);
    let r = fb.draw_line_fb(3, 3, 0, 0, 5, 0);
    assert_eq!(r, Some((0, 0, 3, 3)));
    for i in 0..4u16 {
        assert_eq!(pixel(&fb, i, i), 5);
    }
    assert_eq!(pixel(&fb, 1, 0), 0);
}

#[test]
fn wide_stroke_line_is_clipped_at_the_edge() {
    let mut fb = Framebuffer::new(5, 5);
    let r = fb.draw_line_fb(0, 0, 0, 0, 3, 3);
    assert_eq!(r, Some((0, 0, 1, 1)));
    assert_eq!(pixel(&fb, 0, 0), 3);
    assert_eq!(pixel(&fb, 1, 1), 3);
    assert_eq!(pixel(&fb, 2, 2), 0);
}

#[test]
fn line_off_the_buffer_paints_nothing() {
    let mut fb = Framebuffer::new(4, 4);
    assert_eq!(fb.draw_line_fb(10, 10, 20, 12, 1, 1), None);
    assert_eq!(fb.rect_be_bytes(0, 0, 3, 3), vec![0u8; 32]);
}

#[test]
fn clip_area_cases() {
    assert_eq!(clip_area(-2, 3, 5, 10, 4, 6), Some((0, 3, 2, 5)));
    assert_eq!(clip_area(0, 0, 0, 3, 4, 4), None);
    assert_eq!(clip_area(4, 0, 2, 2, 4, 4), None);
    assert_eq!(clip_area(1, 1, 2, 2, 466, 466), Some((1, 1, 2, 2)));
}

#[test]
fn even_window_widens_to_pixel_pairs() {
    assert_eq!(even_window(3, 5, 6, 8, 466, 466), Some((2, 4, 7, 9)));
    assert_eq!(even_window(2, 4, 3, 5, 466, 466), Some((2, 4, 3, 5)));
    assert_eq!(even_window(460, 0, 465, 0, 466, 466), Some((460, 0, 465, 1)));
    assert_eq!(even_window(5, 0, 4, 0, 466, 466), None);
    assert_eq!(even_window(466, 0, 466, 0, 466, 466), None);
}

#[test]
fn rgb565_components() {
    assert_eq!(rgb565_from_888(255, 255, 255), (31, 63, 31));
    assert_eq!(rgb565_from_888(0, 0, 0), (0, 0, 0));
    assert_eq!(rgb565_from_888(0, 200, 83), (0, 50, 10));
    assert_eq!(CENTER, (RESOLUTION / 2) as i32);
}

#[test]
fn boot_assets_are_aliens_then_menus() {
    let ids = boot_assets();
    assert_eq!(ids.len(), BOOT_ASSET_COUNT);
    assert_eq!(ids[0], AssetId::Alien1);
    assert_eq!(ids[9], AssetId::Alien10);
    assert_eq!(ids[10], AssetId::SettingsImage);
    assert_eq!(ids[12], AssetId::Logo);
}

#[test]
fn boot_load_interval_spreads_animation_time() {
    assert_eq!(boot_load_interval_ms(), 73);
    assert!(boot_load_due(0, 73, 0, 73));
    assert!(!boot_load_due(0, 72, 0, 73));
    assert!(!boot_load_due(BOOT_ASSET_COUNT, 1000, 0, 73));
    assert!(boot_load_due(1, 5, 10, 0));
}

#[test]
fn boot_pulse_toggles_every_twenty_frames() {
    assert_eq!(boot_pulse(10, false, true), (false, None, false));
    assert_eq!(boot_pulse(BOOT_FRAMES, false, false), (true, Some(255), false));
    assert_eq!(boot_pulse(BOOT_FRAMES + 5, true, true), (true, None, false));
    assert_eq!(boot_pulse(BOOT_FRAMES + 20, true, true), (false, Some(64), false));
    assert_eq!(boot_pulse(BOOT_FRAMES + 40, false, true), (true, Some(255), true));
}

#[test]
fn delay_rounds_up_and_saturates() {
    assert_eq!(delay_end_ticks(100, 1, 16_000_000, MILLIS_PER_SEC), 16_100);
    assert_eq!(delay_end_ticks(0, 1, 16_000_000, NANOS_PER_SEC), 1);
    assert_eq!(delay_end_ticks(0, 125, 16_000_000, NANOS_PER_SEC), 2);
    assert_eq!(delay_end_ticks(7, 0, 16_000_000, MICROS_PER_SEC), 7);
    assert_eq!(delay_end_ticks(u64::MAX - 3, 1, 16_000_000, MICROS_PER_SEC), u64::MAX);
}

#[test]
fn brightness_ring_plan_full_partial_unchanged() {
    let mut b = new_brightness_state();
    let first = brightness_ui_plan(&mut b);
    assert_eq!(first.1, RingUpdate::Full { draw_arc: true });
    assert_eq!(brightness_ui_plan(&mut b).1, RingUpdate::Unchanged);
    brightness_set_pct(&mut b, 40);
    assert_eq!(brightness_ui_plan(&mut b), (40, RingUpdate::Partial { from_pct: first.0 }));
    let mut z = new_brightness_state();
    brightness_set_pct(&mut z, 0);
    assert_eq!(brightness_ui_plan(&mut z), (0, RingUpdate::Full { draw_arc: false }));
}

#[test]
fn clear_all_caches_keeps_time_and_level() {
    let mut assets = AssetCache::new();
    assert!(cache_decoded(&mut assets, AssetId::Logo, Some(vec![1u8; asset_need(AssetId::Logo)])));
    let mut bright = new_brightness_state();
    brightness_set_pct(&mut bright, 55);
    let _ = brightness_ui_plan(&mut bright);
    let mut clock = new_clock_state();
    set_clock_seconds(&mut clock, 3600, 0);
    watch_edit_start(&mut clock, 0, 1);
    let mut watch = new_watch_page_state();
    let mut term_page = new_term_page_state();
    let mut term = TerminalState::new();
    for b in b"hello\n" {
        terminal_push_byte(&mut term, *b);
    }
    let mut nav = NavHistory::new();
    nav.nav_push(Page::Main(MainMenuState::Home));
    let mut t = new_ui_tracker();
    t.last_omni_transform = true;
    clear_all_caches(&mut assets, &mut bright, &mut clock, &mut watch, &mut term_page, &mut term, &mut nav, &mut t);
    assert!(get_cached_asset(&assets, AssetId::Logo).is_none());
    assert_eq!(bright.pct, 55);
    assert_eq!(bright.last, None);
    assert!(!watch_edit_active(&clock));
    assert_eq!(clock.base_secs, 3600);
    assert_eq!(terminal_line_count(&term), 0);
    assert_eq!(nav.len(), 0);
    assert_eq!(
        t,
        UiTracker { last_kind: None, last_omni_transform: false, last_transform_active: false, last_settings: None }
    );
}

#[test]
fn ring_bbox_is_cut_and_block_aligned() {
    assert_eq!(align_bbox(-5, 3, 470, 100), (0, 2, 465, 101));
    assert_eq!(align_bbox(7, 8, 9, 10), (6, 8, 9, 11));
    assert_eq!(align_bbox(0, 0, -4, -3), (0, 0, -3, -3));
}

#[test]
fn ring_block_test_uses_squared_radii() {
    assert!(block_in_ring(3, 4, 25, 16));
    assert!(!block_in_ring(3, 4, 24, 16));
    assert!(!block_in_ring(1, 1, 25, 16));
    assert!(block_in_ring(-3, -4, 25, 25));
    assert!(!block_in_ring(i32::MIN, i32::MIN, i32::MAX, 0));
}

#[test]
fn block_runs_are_maximal_and_ordered() {
    let mask = [true, true, false, true, false, false, true, true, true];
    assert_eq!(block_runs(10, &mask), vec![(10, 4), (16, 2), (22, 6)]);
    assert_eq!(block_runs(0, &[false, false]), vec![]);
    assert_eq!(block_runs(4, &[true]), vec![(4, 2)]);
    assert_eq!(block_runs(0, &[]), vec![]);
}

#[test]
fn panel_window_applies_offsets() {
    assert_eq!(panel_window(0, 0, 465, 465, 466, 466, 6, 0), Ok(([0, 6, 1, 215], [0, 0, 1, 209])));
    assert_eq!(panel_window(2, 3, 1, 5, 466, 466, 6, 0), Err(FbError::OutOfBounds));
    assert_eq!(panel_window(0, 0, 466, 5, 466, 466, 6, 0), Err(FbError::OutOfBounds));
}

#[test]
fn rect_and_blit_bounds() {
    assert_eq!(rect_end(0, 0, 0, 10, 466, 466), Ok(None));
    assert_eq!(rect_end(10, 20, 5, 6, 466, 466), Ok(Some((14, 25))));
    assert_eq!(rect_end(460, 0, 7, 1, 466, 466), Err(FbError::OutOfBounds));
    assert_eq!(rect_end(466, 0, 1, 1, 466, 466), Err(FbError::OutOfBounds));
    assert_eq!(blit_end(0, 0, 2, 2, 466, 466, 8), Ok(Some((1, 1))));
    assert_eq!(blit_end(0, 0, 2, 2, 466, 466, 7), Err(FbError::OutOfBounds));
    assert_eq!(blit_end(0, 0, 2, 0, 466, 466, 7), Ok(None));
}

#[test]
fn fill_pattern_repeats_big_endian_color() {
    assert_eq!(fill_pattern(0xF81F, 5), vec![0xF8, 0x1F, 0xF8, 0x1F, 0xF8]);
    assert_eq!(fill_pattern(0x1234, 0), vec![]);
    assert_eq!(chunk_opcode(true), RAMWR_OPCODE);
    assert_eq!(chunk_opcode(false), RAMWRC_OPCODE);
}

#[test]
fn brightness_percent_to_panel_level() {
    assert_eq!(brightness_hw_level(0), 0);
    assert_eq!(brightness_hw_level(50), 127);
    assert_eq!(brightness_hw_level(100), 255);
    assert_eq!(brightness_hw_level(200), 254);
}
