//! The tray icon's events and what the application does on each.
use vstd::prelude::*;

use crate::monitor::Monitor;
use crate::window::{
    lemma_supported_ids_are_all_supporting_monitors, supported_ids, supporting_monitors,
};

verus! {

/// What the tray icon's menu asks of the application.
#[derive(Debug, Clone, Copy, PartialEq, Eq, Structural)]
pub enum TrayEvent {
    ToggleWindow,
    Detect,
    Preset(u8),
    Quit,
}

/// What the application does with the main window or the monitors in
/// answer to a tray event.
#[derive(Debug, Clone, Copy, PartialEq, Eq, Structural)]
pub enum TrayAction {
    HideWindow,
    PresentWindow,
    /// Set every monitor that supports brightness to this level.
    ApplyPreset(u8),
    Quit,
}

/// The brightness levels of the tray menu's presets, in menu order.
pub fn preset_levels() -> (levels: Vec<u8>)
    ensures
        levels@ == seq![0u8, 25, 50, 75, 100],
{
    let levels = vec![0u8, 25, 50, 75, 100];
    assert(levels@ =~= seq![0u8, 25, 50, 75, 100]);
    levels
}

/// The answer to a tray event: the show/hide item and a click on the icon
/// hide a visible window and present a hidden one, "Detect monitors"
/// presents the window, a preset is applied, and "Quit" quits.
pub fn tray_action(event: TrayEvent, window_visible: bool) -> (action: TrayAction)
    ensures
        action == (match event {
            TrayEvent::ToggleWindow => if window_visible {
                TrayAction::HideWindow
            } else {
                TrayAction::PresentWindow
            },
            TrayEvent::Detect => TrayAction::PresentWindow,
            TrayEvent::Preset(level) => TrayAction::ApplyPreset(level),
            TrayEvent::Quit => TrayAction::Quit,
        }),
{
    match event {
        TrayEvent::ToggleWindow => if window_visible {
            TrayAction::HideWindow
        } else {
            TrayAction::PresentWindow
        },
        TrayEvent::Detect => TrayAction::PresentWindow,
        TrayEvent::Preset(level) => TrayAction::ApplyPreset(level),
        TrayEvent::Quit => TrayAction::Quit,
    }
}

/// The display numbers that a preset is sent to: those of the monitors that
/// support brightness, in order.
pub fn preset_targets(monitors: &[Monitor]) -> (ids: Vec<u32>)
    ensures
        ids@ == supported_ids(monitors@),
        forall|k: int|
            0 <= k < monitors@.len() && monitors@[k].supports_brightness ==> ids@.contains(
                #[trigger] monitors@[k].display_id,
            ),
        ids@.len() == supporting_monitors(monitors@).len(),
{
    let ghost ms = monitors@;
    let n = monitors.len();
    let mut ids: Vec<u32> = Vec::new();
    let mut i: usize = 0;
    assert(ms.take(0) =~= Seq::<Monitor>::empty());
    while i < n
        invariant
            n == ms.len(),
            ms == monitors@,
            i <= n,
            ids@ == supported_ids(ms.take(i as int)),
        decreases n - i,
    {
        assert(ms.take(i + 1).drop_last() =~= ms.take(i as int));
        if monitors[i].supports_brightness {
            ids.push(monitors[i].display_id);
        }
        i += 1;
    }
    assert(ms.take(n as int) =~= ms);
    proof {
        lemma_supported_ids_are_all_supporting_monitors(ms);
    }
    ids
}

} // verus!
