//! Window and interface preferences, their defaults, and the panel-mode
//! transitions.

use vstd::prelude::*;

verus! {

#[derive(Debug, Clone, Copy, PartialEq, Eq, Structural)]
pub enum PanelMode {
    Mini,
    Expanded,
}

#[derive(Debug, Clone, Copy, PartialEq, Eq, Structural)]
pub enum MotionMode {
    Balanced,
    High,
    Low,
}

#[derive(Debug, Clone, Copy, PartialEq, Eq, Structural)]
pub enum ReadabilityMode {
    Adaptive,
    Pure,
    Strong,
}

#[derive(Debug, Clone, Copy, PartialEq, Eq, Structural)]
pub enum ReduceMotionOverride {
    System,
    On,
    Off,
}

/// Window geometry in logical pixels, the panel mode and whether the window
/// stays on top.
#[derive(Debug, Clone, Copy, PartialEq, Eq, Structural)]
pub struct WindowPrefs {
    pub x: i64,
    pub y: i64,
    pub width: i64,
    pub height: i64,
    pub mode: PanelMode,
    pub always_on_top: bool,
}

#[derive(Debug, Clone, Copy, PartialEq, Eq, Structural)]
pub struct UiPrefs {
    pub motion_mode: MotionMode,
    pub readability_mode: ReadabilityMode,
    pub reduce_motion_override: ReduceMotionOverride,
}

impl Default for WindowPrefs {
    fn default() -> (r: Self)
        ensures
            r == (WindowPrefs {
                x: 80,
                y: 80,
                width: 380,
                height: 520,
                mode: PanelMode::Mini,
                always_on_top: true,
            }),
    {
        WindowPrefs { x: 80, y: 80, width: 380, height: 520, mode: PanelMode::Mini, always_on_top: true }
    }
}

impl Default for UiPrefs {
    fn default() -> (r: Self)
        ensures
            r == (UiPrefs {
                motion_mode: MotionMode::Balanced,
                readability_mode: ReadabilityMode::Adaptive,
                reduce_motion_override: ReduceMotionOverride::System,
            }),
    {
        UiPrefs {
            motion_mode: MotionMode::Balanced,
            readability_mode: ReadabilityMode::Adaptive,
            reduce_motion_override: ReduceMotionOverride::System,
        }
    }
}

/// The window size that belongs to each panel mode.
pub open spec fn spec_panel_size(mode: PanelMode) -> (i64, i64) {
    match mode {
        PanelMode::Mini => (380, 520),
        PanelMode::Expanded => (920, 680),
    }
}

pub fn panel_size(mode: PanelMode) -> (r: (i64, i64))
    ensures
        r == spec_panel_size(mode),
{
    match mode {
        PanelMode::Mini => (380, 520),
        PanelMode::Expanded => (920, 680),
    }
}

/// The preferences after switching to `mode`: the mode and its size are
/// taken, the rest is kept.
pub fn set_panel_mode(prefs: WindowPrefs, mode: PanelMode) -> (r: WindowPrefs)
    ensures
        r == (WindowPrefs {
            mode,
            width: spec_panel_size(mode).0,
            height: spec_panel_size(mode).1,
            ..prefs
        }),
{
    let (width, height) = panel_size(mode);
    WindowPrefs { mode, width, height, ..prefs }
}

/// The preferences with the always-on-top flag set to `enabled`.
pub fn set_always_on_top(prefs: WindowPrefs, enabled: bool) -> (r: WindowPrefs)
    ensures
        r == (WindowPrefs { always_on_top: enabled, ..prefs }),
{
    WindowPrefs { always_on_top: enabled, ..prefs }
}

/// The preferences after the window moved to (`x`, `y`).
pub fn save_window_position(prefs: WindowPrefs, x: i64, y: i64) -> (r: WindowPrefs)
    ensures
        r == (WindowPrefs { x, y, ..prefs }),
{
    WindowPrefs { x, y, ..prefs }
}

/// The preferences after the window was resized to `width` by `height`.
pub fn save_window_size(prefs: WindowPrefs, width: i64, height: i64) -> (r: WindowPrefs)
    ensures
        r == (WindowPrefs { width, height, ..prefs }),
{
    WindowPrefs { width, height, ..prefs }
}

/// The stored preferences where there are some, the defaults otherwise.
pub fn window_prefs_or_default(stored: Option<WindowPrefs>) -> (r: WindowPrefs)
    ensures
        r == (match stored {
            Some(p) => p,
            None => WindowPrefs {
                x: 80,
                y: 80,
                width: 380,
                height: 520,
                mode: PanelMode::Mini,
                always_on_top: true,
            },
        }),
{
    match stored {
        Some(p) => p,
        None => WindowPrefs::default(),
    }
}

/// The stored preferences where there are some, the defaults otherwise.
pub fn ui_prefs_or_default(stored: Option<UiPrefs>) -> (r: UiPrefs)
    ensures
        r == (match stored {
            Some(p) => p,
            None => UiPrefs {
                motion_mode: MotionMode::Balanced,
                readability_mode: ReadabilityMode::Adaptive,
                reduce_motion_override: ReduceMotionOverride::System,
            },
        }),
{
    match stored {
        Some(p) => p,
        None => UiPrefs::default(),
    }
}

/// Switching to a mode and back to the first one gives that mode's size
/// again, whatever came between.
pub proof fn lemma_panel_mode_round_trip(prefs: WindowPrefs, a: PanelMode, b: PanelMode)
    ensures
        ({
            let mid = WindowPrefs {
                mode: b,
                width: spec_panel_size(b).0,
                height: spec_panel_size(b).1,
                ..prefs
            };
            let back = WindowPrefs {
                mode: a,
                width: spec_panel_size(a).0,
                height: spec_panel_size(a).1,
                ..mid
            };
            back.width == spec_panel_size(a).0 && back.height == spec_panel_size(a).1 && back.mode == a
                && back.x == prefs.x && back.y == prefs.y && back.always_on_top == prefs.always_on_top
        }),
{
}

} // verus!
