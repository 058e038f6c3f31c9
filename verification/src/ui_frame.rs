// Per-frame decisions of the display update: when the panel must be blanked, when the
// transformation dialog is entered, and what leaving or entering a page resets.
use vstd::prelude::*;
use crate::brightness::{BrightnessState, brightness_edit_set, reset_brightness_last};
use crate::assets::{AssetCache, ASSET_MAX, clear_cache};
use crate::brightness::reset_flags;
use crate::terminal::{TermPageState, TerminalState, terminal_reset};
use crate::time::{ClockState, reset_clock_state};
use crate::ui_state::{Dialog, NavHistory, Page, PageKind, SettingsMenuState, UiState, clear_nav, page_kind, page_kind_spec};
use crate::watch_page::WatchPageState;

verus! {

/// What the display update remembers between frames.
#[derive(Copy, Clone, Debug, PartialEq, Eq, Structural)]
pub struct UiTracker {
    pub last_kind: Option<PageKind>,
    /// The last frame showed the transformation dialog on the Omnitrix page.
    pub last_omni_transform: bool,
    /// The transformation dialog has been drawn since it was opened.
    pub last_transform_active: bool,
    pub last_settings: Option<SettingsMenuState>,
}

pub fn new_ui_tracker() -> (r: UiTracker)
    ensures
        r.last_kind is None && !r.last_omni_transform && !r.last_transform_active && r.last_settings is None,
{
    UiTracker { last_kind: None, last_omni_transform: false, last_transform_active: false, last_settings: None }
}

/// Forgets everything about previous frames.
pub fn reset_ui_tracker(t: &mut UiTracker)
    ensures
        *final(t) == (UiTracker { last_kind: None, last_omni_transform: false, last_transform_active: false, last_settings: None }),
{
    *t = new_ui_tracker();
}

/// What to do for one frame.
#[derive(Copy, Clone, Debug, PartialEq, Eq, Structural)]
pub struct UiFramePlan {
    /// Blank the panel first (entering the Omnitrix page, or closing its dialog).
    pub clear_screen: bool,
    /// Draw the transformation dialog instead of the page.
    pub draw_transform: bool,
    /// The dialog was just opened: blank the panel and its frame buffer.
    pub transform_hard_clear: bool,
    /// The watch page is not shown: drop its remembered state and background.
    pub leave_watch: bool,
}

/// Whether this frame shows the transformation dialog on an Omnitrix page.
pub open spec fn transform_shown(s: UiState) -> bool {
    s.page is Omnitrix && s.dialog == Some(Dialog::TransformPage)
}

pub open spec fn settings_of(p: Page) -> Option<SettingsMenuState> {
    match p {
        Page::Settings(x) => Some(x),
        _ => None,
    }
}

/// The decisions for a frame showing `s`, after a frame remembered by `t`.
pub open spec fn frame_plan_spec(t: UiTracker, s: UiState) -> UiFramePlan {
    let kind = page_kind_spec(s.page);
    UiFramePlan {
        clear_screen: (kind == PageKind::Omnitrix && t.last_kind != Some(PageKind::Omnitrix)) || (t.last_omni_transform
            && kind == PageKind::Omnitrix && !transform_shown(s)),
        draw_transform: s.dialog is Some,
        transform_hard_clear: s.dialog is Some && !t.last_transform_active,
        leave_watch: s.dialog is None && !(s.page is Watch),
    }
}

/// Decides one frame of the display update for state `s` (nothing when `redraw` is
/// false) and applies what leaving or entering the brightness page resets: outside the
/// settings pages the brightness editor is off and its drawn value forgotten; inside,
/// the editor is off except on the adjust page, whose drawn value is forgotten when
/// it is entered.
pub fn update_ui(t: &mut UiTracker, bright: &mut BrightnessState, s: UiState, redraw: bool) -> (r: Option<UiFramePlan>)
    ensures
        !redraw ==> r is None && *final(t) == *old(t) && *final(bright) == *old(bright),
        redraw ==> r == Some(frame_plan_spec(*old(t), s)),
        redraw ==> final(t).last_kind == Some(page_kind_spec(s.page)),
        redraw ==> final(t).last_omni_transform == transform_shown(s),
        redraw ==> final(t).last_transform_active == s.dialog is Some,
        redraw && s.dialog is Some ==> final(t).last_settings == old(t).last_settings && *final(bright) == *old(bright),
        redraw && s.dialog is None ==> {
            let now = settings_of(s.page);
            let entering = old(t).last_settings != now && now == Some(SettingsMenuState::BrightnessAdjust);
            &&& final(t).last_settings == now
            &&& final(bright).pct == old(bright).pct
            &&& final(bright).dirty == old(bright).dirty
            &&& final(bright).edit == (if s.page == Page::Settings(SettingsMenuState::BrightnessAdjust) { old(bright).edit } else { false })
            &&& final(bright).last == (if !(s.page is Settings) || entering { None } else { old(bright).last })
        },
{
    if !redraw {
        return None;
    }
    let kind = page_kind(s.page);
    let omni = match s.page {
        Page::Omnitrix(_) => true,
        _ => false,
    };
    let transform_active = omni && s.dialog == Some(Dialog::TransformPage);
    let entering_omni = kind == PageKind::Omnitrix && t.last_kind != Some(PageKind::Omnitrix);
    let exiting_transform = t.last_omni_transform && kind == PageKind::Omnitrix && !transform_active;
    t.last_kind = Some(kind);
    t.last_omni_transform = transform_active;
    let clear_screen = entering_omni || exiting_transform;

    match s.dialog {
        Some(_) => {
            let entering = !t.last_transform_active;
            t.last_transform_active = true;
            return Some(UiFramePlan { clear_screen, draw_transform: true, transform_hard_clear: entering, leave_watch: false });
        },
        None => {},
    }

    let leave_watch = match s.page {
        Page::Watch(_) => false,
        _ => true,
    };
    let now: Option<SettingsMenuState> = match s.page {
        Page::Settings(x) => Some(x),
        _ => None,
    };
    let was = t.last_settings;
    t.last_settings = now;
    let entering_brightness = was != now && now == Some(SettingsMenuState::BrightnessAdjust);
    match s.page {
        Page::Settings(x) => {
            if x != SettingsMenuState::BrightnessAdjust {
                brightness_edit_set(bright, false);
            }
            if entering_brightness {
                reset_brightness_last(bright);
            }
        },
        _ => {
            brightness_edit_set(bright, false);
            reset_brightness_last(bright);
        },
    }
    t.last_transform_active = false;
    Some(UiFramePlan { clear_screen, draw_transform: false, transform_hard_clear: false, leave_watch })
}

/// Drops every cache and remembered drawing state, keeping the settings (brightness
/// level and time). Used after waking from deep sleep.
pub fn clear_all_caches(
    assets: &mut AssetCache,
    bright: &mut BrightnessState,
    clock: &mut ClockState,
    watch: &mut WatchPageState,
    term_page: &mut TermPageState,
    term: &mut TerminalState,
    nav: &mut NavHistory,
    t: &mut UiTracker,
)
    requires
        old(assets).wf(),
    ensures
        final(assets).wf(),
        forall|i: int| 0 <= i < ASSET_MAX ==> #[trigger] final(assets)@[i] is None,
        final(bright).last is None && !final(bright).dirty && !final(bright).edit,
        final(bright).pct == old(bright).pct,
        final(clock).edit is None && final(clock).hand_cache.is_empty() && !final(clock).watch_face_dirty,
        final(clock).base_secs == old(clock).base_secs && final(clock).base_ticks == old(clock).base_ticks,
        final(watch).last_watch is None && !final(watch).last_edit_active && final(watch).bg is None,
        final(term_page).last_drawn_count == 0 && !final(term_page).initialized,
        final(term).wf(),
        final(term).rows() == Seq::<Seq<u8>>::empty() && final(term).pending() == Seq::<u8>::empty(),
        !final(term).is_dirty(),
        final(nav)@ == Seq::<Page>::empty(),
        *final(t) == (UiTracker { last_kind: None, last_omni_transform: false, last_transform_active: false, last_settings: None }),
{
    clear_cache(assets);
    reset_flags(bright);
    reset_clock_state(clock);
    crate::watch_page::reset_on_exit(watch);
    crate::terminal::reset_on_exit(term_page);
    terminal_reset(term);
    clear_nav(nav);
    reset_ui_tracker(t);
}

} // verus!
