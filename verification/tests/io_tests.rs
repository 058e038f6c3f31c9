use watch_rs::assets::{
    asset_id_for_state, asset_meta, asset_need, cache_decoded, clear_cache, clear_cached_asset, decompress_image,
    ensure_watch_background_loaded, get_cached_asset, precache_all, precache_asset, AssetCache, AssetId,
};
use watch_rs::input::{
    button1_flag, button2_flag, button3_flag, clear_pending_events, handle_button_generic, handle_encoder_generic,
    imu_int_flag, inputs_enabled, set_inputs_enabled, take_button1_event, take_button2_event, take_button3_event,
    take_imu_int_flag, ticks_to_ms, ButtonState, InputFlags, RotaryState, DEBOUNCE_MS,
};
use watch_rs::terminal::{
    new_term_page_state, render, reset_on_exit, terminal_dirty, terminal_line_count, terminal_push_byte,
    terminal_reset, terminal_take_dirty, terminal_with_lines, TermRenderMode, TerminalState,
};
use watch_rs::ui_state::OmnitrixState;

fn rows(term: &TerminalState) -> Vec<String> {
    let mut out = Vec::new();
    terminal_with_lines(term, |lines| {
        for l in lines.iter() {
            out.push(String::from(l.as_str()));
        }
    });
    out
}

fn push_str(term: &mut TerminalState, s: &str) {
    for b in s.bytes() {
        terminal_push_byte(term, b);
    }
}

#[test]
fn terminal_lines_wrap_at_sixteen() {
    let mut t = TerminalState::new();
    push_str(&mut t, "hello\r\n");
    assert_eq!(rows(&t), vec!["hello"]);
    assert!(terminal_dirty(&t));
    assert!(terminal_take_dirty(&mut t));
    assert!(!terminal_dirty(&t));
    push_str(&mut t, "0123456789abcdefXYZ\n");
    assert_eq!(rows(&t), vec!["hello", "0123456789abcdef", "XYZ"]);
    push_str(&mut t, "\n");
    assert_eq!(rows(&t), vec!["hello", "0123456789abcdef", "XYZ", ""]);
    assert_eq!(terminal_line_count(&t), 4);
}

#[test]
fn terminal_keeps_last_eight_rows() {
    let mut t = TerminalState::new();
    for i in 0..10u8 {
        terminal_push_byte(&mut t, b'a' + i);
        terminal_push_byte(&mut t, b'\n');
    }
    assert_eq!(rows(&t), vec!["c", "d", "e", "f", "g", "h", "i", "j"]);
    assert_eq!(terminal_line_count(&t), 8);
}

#[test]
fn terminal_drops_control_bytes_and_flushes_full_buffer() {
    let mut t = TerminalState::new();
    push_str(&mut t, "a\tb\x7f\x01c");
    assert!(!terminal_dirty(&t));
    assert_eq!(terminal_line_count(&t), 0);
    terminal_push_byte(&mut t, b'\n');
    assert_eq!(rows(&t), vec!["abc"]);
    terminal_reset(&mut t);
    assert_eq!(terminal_line_count(&t), 0);
    for _ in 0..256 {
        terminal_push_byte(&mut t, b'x');
    }
    assert_eq!(terminal_line_count(&t), 0);
    terminal_push_byte(&mut t, b'y');
    assert_eq!(terminal_line_count(&t), 8);
    let r = rows(&t);
    assert!(r.iter().all(|l| l == "xxxxxxxxxxxxxxxx"));
    terminal_push_byte(&mut t, b'\n');
    assert_eq!(rows(&t).last().unwrap(), "y");
}

#[test]
fn terminal_page_render_modes() {
    let mut page = new_term_page_state();
    let mut t = TerminalState::new();
    let p = render(&mut page, &mut t);
    assert_eq!(p.mode, TermRenderMode::Initial);
    assert_eq!(p.flush, (73, 73, 393, 393));
    push_str(&mut t, "a\nb\n");
    let p = render(&mut page, &mut t);
    assert_eq!(p.mode, TermRenderMode::Incremental { first_row: 0, end_row: 2 });
    assert_eq!(p.flush, (73, 73, 393, 153));
    assert!(!terminal_dirty(&t));
    let p = render(&mut page, &mut t);
    assert_eq!(p.mode, TermRenderMode::Redraw);
    for _ in 0..7 {
        push_str(&mut t, "z\n");
    }
    render(&mut page, &mut t);
    push_str(&mut t, "w\n");
    assert_eq!(render(&mut page, &mut t).mode, TermRenderMode::Redraw);
    reset_on_exit(&mut page);
    assert_eq!(render(&mut page, &mut t).mode, TermRenderMode::Initial);
}

fn zlib(data: &[u8]) -> Vec<u8> {
    miniz_oxide::deflate::compress_to_vec_zlib(data, 6)
}

#[test]
fn asset_table() {
    assert_eq!(asset_meta(AssetId::Alien1), (0, 308, 374));
    assert_eq!(asset_meta(AssetId::Logo), (10, 466, 466));
    assert_eq!(asset_meta(AssetId::SnakeIcon), (16, 297, 276));
    assert_eq!(asset_need(AssetId::PongIcon), 276 * 276 * 2);
    assert_eq!(asset_id_for_state(OmnitrixState::Alien7), AssetId::Alien7);
    assert_eq!(asset_id_for_state(OmnitrixState::Alien10), AssetId::Alien10);
}

#[test]
fn precache_decompresses_exact_size_only() {
    let mut cache = AssetCache::new();
    let need = asset_need(AssetId::PongIcon);
    let image: Vec<u8> = (0..need).map(|i| (i % 251) as u8).collect();
    let blob = zlib(&image);
    assert!(get_cached_asset(&cache, AssetId::PongIcon).is_none());
    assert!(precache_asset(&mut cache, AssetId::PongIcon, &blob));
    let (bytes, w, h) = get_cached_asset(&cache, AssetId::PongIcon).unwrap();
    assert_eq!((w, h), (276, 276));
    assert_eq!(bytes, &image[..]);
    assert!(precache_asset(&mut cache, AssetId::PongIcon, b"not zlib"));
    let short = zlib(&image[..100]);
    assert!(!precache_asset(&mut cache, AssetId::SnakeIcon, &short));
    assert!(!precache_asset(&mut cache, AssetId::SnakeIcon, b"garbage"));
    assert!(get_cached_asset(&cache, AssetId::SnakeIcon).is_none());
    clear_cached_asset(&mut cache, AssetId::PongIcon);
    assert!(get_cached_asset(&cache, AssetId::PongIcon).is_none());
}

#[test]
fn cache_decoded_checks_size() {
    let mut cache = AssetCache::new();
    assert!(!cache_decoded(&mut cache, AssetId::WatchIcon, Some(vec![0u8; 10])));
    assert!(!cache_decoded(&mut cache, AssetId::WatchIcon, None));
    let need = asset_need(AssetId::WatchIcon);
    assert!(cache_decoded(&mut cache, AssetId::WatchIcon, Some(vec![7u8; need])));
    assert!(cache_decoded(&mut cache, AssetId::WatchIcon, None));
    clear_cache(&mut cache);
    assert!(get_cached_asset(&cache, AssetId::WatchIcon).is_none());
}

#[test]
fn precache_all_stops_at_first_failure() {
    let mut cache = AssetCache::new();
    let good: Vec<Vec<u8>> = (0..17usize)
        .map(|slot| {
            let id = [
                AssetId::Alien1,
                AssetId::Alien2,
                AssetId::Alien3,
                AssetId::Alien4,
                AssetId::Alien5,
                AssetId::Alien6,
                AssetId::Alien7,
                AssetId::Alien8,
                AssetId::Alien9,
                AssetId::Alien10,
                AssetId::Logo,
                AssetId::InfoPage,
                AssetId::SettingsImage,
                AssetId::WatchIcon,
                AssetId::GamesIcon,
                AssetId::PongIcon,
                AssetId::SnakeIcon,
            ][slot];
            if slot == 10 {
                b"broken".to_vec()
            } else {
                zlib(&vec![slot as u8; asset_need(id)])
            }
        })
        .collect();
    let blobs: Vec<&[u8]> = good.iter().map(|b| b.as_slice()).collect();
    assert_eq!(precache_all(&mut cache, &blobs), 10);
    assert!(get_cached_asset(&cache, AssetId::Alien10).is_some());
    assert!(get_cached_asset(&cache, AssetId::Logo).is_none());
    assert!(get_cached_asset(&cache, AssetId::SettingsImage).is_none());
}

#[test]
fn decompress_image_and_background() {
    let img = vec![3u8; 64];
    let blob = zlib(&img);
    assert_eq!(decompress_image(&blob, 64), Some(img.clone()));
    assert_eq!(decompress_image(&blob, 65), None);
    assert_eq!(decompress_image(&blob, 10), None);
    let mut bg = None;
    assert!(ensure_watch_background_loaded(&mut bg, &blob));
    assert_eq!(bg.as_deref(), Some(&img[..]));
    assert!(ensure_watch_background_loaded(&mut bg, b"ignored"));
    let mut bg2 = None;
    assert!(!ensure_watch_background_loaded(&mut bg2, b"bad"));
    assert!(bg2.is_none());
}

#[test]
fn button_debounce_falling_edges() {
    let mut b = ButtonState::new(true, 0);
    assert!(handle_button_generic(&mut b, true, 200, DEBOUNCE_MS));
    assert_eq!(b.last_interrupt, 200);
    assert!(!handle_button_generic(&mut b, false, 250, DEBOUNCE_MS));
    assert!(!handle_button_generic(&mut b, true, 300, DEBOUNCE_MS));
    assert!(!handle_button_generic(&mut b, false, 360, DEBOUNCE_MS));
    assert!(handle_button_generic(&mut b, true, 400, DEBOUNCE_MS));
    assert!(!handle_button_generic(&mut b, true, 1000, DEBOUNCE_MS));
}

#[test]
fn encoder_quadrature_cycles() {
    let mut e = RotaryState::new(false, false);
    for (clk, dt) in [(true, false), (true, true), (false, true), (false, false)] {
        handle_encoder_generic(&mut e, clk, dt);
    }
    assert_eq!(e.position, 4);
    assert_eq!(e.last_step, 1);
    for (clk, dt) in [(false, true), (true, true), (true, false), (false, false)] {
        handle_encoder_generic(&mut e, clk, dt);
    }
    assert_eq!(e.position, 0);
    assert_eq!(e.last_step, -1);
    handle_encoder_generic(&mut e, true, true);
    assert_eq!(e.position, 0);
    e.position = i32::MAX;
    e.last_qstate = 0;
    handle_encoder_generic(&mut e, true, false);
    assert_eq!(e.position, i32::MAX);
}

#[test]
fn input_flags_take_and_clear() {
    let mut f = InputFlags::new();
    assert!(!inputs_enabled(&f));
    set_inputs_enabled(&mut f, true);
    assert!(inputs_enabled(&f));
    *button1_flag(&mut f) = true;
    *button2_flag(&mut f) = true;
    *button3_flag(&mut f) = true;
    *imu_int_flag(&mut f) = true;
    assert!(take_button1_event(&mut f));
    assert!(!take_button1_event(&mut f));
    assert!(take_button2_event(&mut f));
    assert!(take_imu_int_flag(&mut f));
    assert!(!take_imu_int_flag(&mut f));
    clear_pending_events(&mut f);
    assert!(!take_button3_event(&mut f));
    assert!(inputs_enabled(&f));
    assert_eq!(ticks_to_ms(16_000_000, 16_000_000), 1000);
    assert_eq!(ticks_to_ms(u64::MAX, 1_000), u64::MAX / 1_000);
}
