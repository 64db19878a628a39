use vstd::prelude::*;

verus! {

/// Registry key, under the current user's hive, that remembers the window size.
pub const SETTINGS_KEY: &'static str = "Software\\vgplay";

/// Registry value holding the remembered width.
pub const WIDTH_VALUE: &'static str = "WindowWidth";

/// Registry value holding the remembered height.
pub const HEIGHT_VALUE: &'static str = "WindowHeight";

/// Window size used when none is remembered.
pub const DEFAULT_WIDTH: u32 = 640;

/// Window height used when none is remembered.
pub const DEFAULT_HEIGHT: u32 = 260;

/// The two remembered values as the registry holds them: each may be absent
/// (never written, or unreadable).
#[derive(Clone, Copy, Debug, PartialEq, Eq)]
pub struct StoredSize {
    pub width: Option<u32>,
    pub height: Option<u32>,
}

/// The remembered size that a stored record yields: both values present and
/// neither zero, else none.
pub open spec fn spec_load(stored: StoredSize) -> Option<(u32, u32)> {
    match (stored.width, stored.height) {
        (Some(w), Some(h)) => if w > 0 && h > 0 {
            Some((w, h))
        } else {
            None
        },
        _ => None,
    }
}

/// The remembered window size, if both values are present and non-zero;
/// missing, zero or unreadable values mean "use the default".
pub fn load_window_size(stored: StoredSize) -> (size: Option<(u32, u32)>)
    ensures
        size == spec_load(stored),
{
    match (stored.width, stored.height) {
        (Some(w), Some(h)) => if w > 0 && h > 0 {
            Some((w, h))
        } else {
            None
        },
        _ => None,
    }
}

/// The record that remembering `w × h` writes: both values.
pub fn save_window_size(w: u32, h: u32) -> (stored: StoredSize)
    ensures
        stored == (StoredSize { width: Some(w), height: Some(h) }),
{
    StoredSize { width: Some(w), height: Some(h) }
}

/// What to remember on exit for a window of logical size `w × h`: nothing
/// when it is maximized (its size is the screen's, not one the user chose) or
/// when a side is zero; otherwise the size.
pub fn persist_window_size(maximized: bool, w: u32, h: u32) -> (stored: Option<StoredSize>)
    ensures
        stored == if !maximized && w > 0 && h > 0 {
            Some(StoredSize { width: Some(w), height: Some(h) })
        } else {
            None
        },
{
    if maximized {
        return None;
    }
    if w > 0 && h > 0 {
        Some(save_window_size(w, h))
    } else {
        None
    }
}

/// The size the window opens at: the remembered one, else the default.
pub fn initial_window_size(stored: StoredSize) -> (size: (u32, u32))
    ensures
        size == match spec_load(stored) {
            Some(s) => s,
            None => (DEFAULT_WIDTH, DEFAULT_HEIGHT),
        },
{
    match load_window_size(stored) {
        Some(s) => s,
        None => (DEFAULT_WIDTH, DEFAULT_HEIGHT),
    }
}

/// A size remembered on exit is the size the next launch opens with; a size
/// that is not remembered leaves the earlier record in place.
pub proof fn lemma_persist_then_load(maximized: bool, w: u32, h: u32)
    ensures
        !maximized && w > 0 && h > 0 ==> spec_load(StoredSize { width: Some(w), height: Some(h) })
            == Some((w, h)),
        (w == 0 || h == 0) ==> spec_load(StoredSize { width: Some(w), height: Some(h) }) is None,
{
}

} // verus!
