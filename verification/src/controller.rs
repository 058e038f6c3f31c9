// What the three buttons do, given the page shown and the clock editor.
use vstd::prelude::*;
use crate::time::{
    ClockEditState, ClockState, clock_seconds_spec, edit_commit_secs, edit_from_secs, watch_edit_active, watch_edit_advance,
    watch_edit_cancel, watch_edit_start,
};
use crate::ui_state::{NavHistory, Page, UiState, WatchAppState, back_spec, select_spec, transform_spec};

verus! {

/// Back button: cancels the clock editor when it is open, otherwise goes back one step.
/// The event is always consumed.
pub fn handle_back(ui: &mut UiState, nav: &mut NavHistory, clock: &mut ClockState) -> (r: bool)
    ensures
        r,
        old(clock).edit is Some ==> {
            &&& *final(clock) == (ClockState { edit: None, ..*old(clock) })
            &&& *final(ui) == *old(ui)
            &&& final(nav)@ == old(nav)@
        },
        old(clock).edit is None ==> {
            &&& (*final(ui), final(nav)@) == back_spec(*old(ui), old(nav)@)
            &&& *final(clock) == *old(clock)
        },
{
    if watch_edit_active(clock) {
        watch_edit_cancel(clock);
    } else {
        let s = *ui;
        *ui = s.back(nav);
    }
    true
}

/// Select button: on the digital watch face it opens the clock editor or moves it to the
/// next digit (committing after the last one, as of tick `now_ticks`); elsewhere it selects
/// the highlighted item. The event is always consumed.
pub fn handle_select(
    ui: &mut UiState,
    nav: &mut NavHistory,
    clock: &mut ClockState,
    now_ticks: u64,
    ticks_per_second: u64,
) -> (r: bool)
    requires
        ticks_per_second > 0,
    ensures
        r,
        old(ui).page == Page::Watch(WatchAppState::Digital) ==> {
            &&& *final(ui) == *old(ui)
            &&& final(nav)@ == old(nav)@
            &&& match old(clock).edit {
                None => *final(clock) == (ClockState {
                    edit: Some(edit_from_secs(clock_seconds_spec(*old(clock), now_ticks, ticks_per_second))),
                    ..*old(clock)
                }),
                Some(ed) => if ed.idx < 3 {
                    *final(clock) == (ClockState { edit: Some(ClockEditState { digits: ed.digits, idx: (ed.idx + 1) as u8 }), ..*old(clock) })
                } else {
                    &&& final(clock).edit is None
                    &&& final(clock).base_secs == edit_commit_secs(ed)
                    &&& final(clock).base_ticks == now_ticks
                    &&& final(clock).hand_cache.is_empty()
                    &&& final(clock).watch_face_dirty
                },
            }
        },
        old(ui).page != Page::Watch(WatchAppState::Digital) ==> {
            &&& (*final(ui), final(nav)@) == select_spec(*old(ui), old(nav)@)
            &&& *final(clock) == *old(clock)
        },
        old(clock).wf() ==> final(clock).wf(),
{
    if ui.page == Page::Watch(WatchAppState::Digital) {
        if watch_edit_active(clock) {
            watch_edit_advance(clock, now_ticks);
        } else {
            watch_edit_start(clock, now_ticks, ticks_per_second);
        }
    } else {
        let s = *ui;
        *ui = s.select(nav);
    }
    true
}

/// Transform button: toggles the transformation on the Omnitrix pages and
/// returns `in_omnitrix`, whether the caller is on one of them.
pub fn handle_transform(ui: &mut UiState, in_omnitrix: bool) -> (r: bool)
    ensures
        r == in_omnitrix,
        *final(ui) == transform_spec(*old(ui)),
{
    let s = *ui;
    *ui = s.transform();
    in_omnitrix
}

} // verus!
