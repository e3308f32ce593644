//! Borderless window geometry: where the invisible resize frame answers hit
//! tests, and how a maximized window keeps its content on screen. The window
//! procedure itself, and the Win32 calls, stay with the caller.

use vstd::prelude::*;

verus! {

/// The resize handle a point on the window edge stands for.
#[derive(PartialEq, Eq, Structural, Clone, Copy, Debug)]
pub enum HitZone {
    TopLeft,
    TopRight,
    BottomLeft,
    BottomRight,
    Left,
    Right,
    Top,
    Bottom,
}

/// A window rectangle in screen coordinates.
#[derive(PartialEq, Eq, Structural, Clone, Copy, Debug)]
pub struct Rect {
    pub left: i32,
    pub top: i32,
    pub right: i32,
    pub bottom: i32,
}

/// The resize frame thickness: size frame plus DWM padding.
pub fn frame_thickness(size_frame: i32, padded_border: i32) -> (t: i32)
    requires
        i32::MIN <= size_frame + padded_border <= i32::MAX,
    ensures
        t == size_frame + padded_border,
{
    size_frame + padded_border
}

/// A 16-bit word read as a signed (two's complement) number.
pub open spec fn sign_extend16(w: int) -> int {
    if w >= 0x8000 {
        w - 0x10000
    } else {
        w
    }
}

/// The point packed in a hit-test `lparam`: its low and high 16-bit words,
/// each read as a signed screen coordinate (monitors left of or above the
/// primary one have negative coordinates).
pub open spec fn spec_point(lparam: i64) -> (int, int) {
    (
        sign_extend16((lparam as int) % 0x10000),
        sign_extend16(((lparam as int) / 0x10000) % 0x10000),
    )
}

/// Unpack the cursor position of a hit-test message: the low word is `x`,
/// the next word `y`, both signed.
pub fn point_from_lparam(lparam: i64) -> (pt: (i32, i32))
    ensures
        pt.0 as int == spec_point(lparam).0,
        pt.1 as int == spec_point(lparam).1,
{
    let lo = lparam & 0xFFFF;
    let hi = (lparam >> 16u64) & 0xFFFF;
    proof {
        assert(lo as int == (lparam as int) % 0x10000 && 0 <= lo < 0x10000) by (bit_vector)
            requires
                lo == lparam & 0xFFFF,
        ;
        assert(hi as int == ((lparam as int) / 0x10000) % 0x10000 && 0 <= hi < 0x10000) by (
        bit_vector)
            requires
                hi == (lparam >> 16u64) & 0xFFFF,
        ;
    }
    let x: i64 = if lo >= 0x8000 {
        lo - 0x10000
    } else {
        lo
    };
    let y: i64 = if hi >= 0x8000 {
        hi - 0x10000
    } else {
        hi
    };
    (x as i32, y as i32)
}

/// The resize handle under `(x, y)` for a window `rect` with frame margin
/// `m`, if the point lies within `m` of an edge; corners win over edges.
pub open spec fn spec_zone(x: int, y: int, rect: Rect, m: int) -> Option<HitZone> {
    let left = x - rect.left < m;
    let right = rect.right - x < m;
    let top = y - rect.top < m;
    let bottom = rect.bottom - y < m;
    if top && left {
        Some(HitZone::TopLeft)
    } else if top && right {
        Some(HitZone::TopRight)
    } else if bottom && left {
        Some(HitZone::BottomLeft)
    } else if bottom && right {
        Some(HitZone::BottomRight)
    } else if left {
        Some(HitZone::Left)
    } else if right {
        Some(HitZone::Right)
    } else if top {
        Some(HitZone::Top)
    } else if bottom {
        Some(HitZone::Bottom)
    } else {
        None
    }
}

/// The hit-test answer of the borderless window: `None` keeps the original
/// window procedure's answer (anything but the client area, a maximized
/// window, an unreadable window rectangle, or a point away from the edges);
/// otherwise the resize handle to report.
pub open spec fn spec_nc_hit_test(
    prev_is_client: bool,
    zoomed: bool,
    lparam: i64,
    rect: Option<Rect>,
    frame: int,
) -> Option<HitZone> {
    if !prev_is_client || zoomed {
        None
    } else {
        match rect {
            None => None,
            Some(r) => spec_zone(spec_point(lparam).0, spec_point(lparam).1, r, frame + 2),
        }
    }
}

/// The distances from the cursor of `lparam` to the four edges of `r`
/// fit in an `i32`, so they are computed without overflow.
pub open spec fn distances_fit(lparam: i64, r: Rect) -> bool {
    let x = spec_point(lparam).0;
    let y = spec_point(lparam).1;
    &&& i32::MIN <= x - r.left <= i32::MAX
    &&& i32::MIN <= r.right - x <= i32::MAX
    &&& i32::MIN <= y - r.top <= i32::MAX
    &&& i32::MIN <= r.bottom - y <= i32::MAX
}

/// Decide the hit-test answer; see [`spec_nc_hit_test`].
pub fn nc_hit_test(prev_is_client: bool, zoomed: bool, lparam: i64, rect: Option<Rect>, frame: i32) -> (z:
    Option<HitZone>)
    requires
        frame <= i32::MAX - 2,
        rect matches Some(r) ==> distances_fit(lparam, r),
    ensures
        z == spec_nc_hit_test(prev_is_client, zoomed, lparam, rect, frame as int),
{
    if !prev_is_client || zoomed {
        return None;
    }
    let r = match rect {
        Some(r) => r,
        None => {
            return None;
        },
    };
    let (x, y) = point_from_lparam(lparam);
    let m = frame + 2;
    let left = x - r.left < m;
    let right = r.right - x < m;
    let top = y - r.top < m;
    let bottom = r.bottom - y < m;
    if top && left {
        Some(HitZone::TopLeft)
    } else if top && right {
        Some(HitZone::TopRight)
    } else if bottom && left {
        Some(HitZone::BottomLeft)
    } else if bottom && right {
        Some(HitZone::BottomRight)
    } else if left {
        Some(HitZone::Left)
    } else if right {
        Some(HitZone::Right)
    } else if top {
        Some(HitZone::Top)
    } else if bottom {
        Some(HitZone::Bottom)
    } else {
        None
    }
}

/// The client rectangle of a maximized window: inset by the frame on every
/// side, so the content stays off the screen edges and the taskbar.
pub fn maximized_client_rect(proposed: Rect, frame: i32) -> (r: Rect)
    requires
        i32::MIN <= proposed.top + frame <= i32::MAX,
        i32::MIN <= proposed.left + frame <= i32::MAX,
        i32::MIN <= proposed.right - frame <= i32::MAX,
        i32::MIN <= proposed.bottom - frame <= i32::MAX,
    ensures
        r.top == proposed.top + frame,
        r.left == proposed.left + frame,
        r.right == proposed.right - frame,
        r.bottom == proposed.bottom - frame,
{
    Rect {
        left: proposed.left + frame,
        top: proposed.top + frame,
        right: proposed.right - frame,
        bottom: proposed.bottom - frame,
    }
}

/// A point near a corner is answered with that corner, not with either edge.
pub proof fn law_corners_win(x: int, y: int, rect: Rect, m: int)
    requires
        x - rect.left < m,
        y - rect.top < m,
    ensures
        spec_zone(x, y, rect, m) == Some(HitZone::TopLeft),
{
}

/// A maximized window never reports a resize handle.
pub proof fn law_maximized_never_resizes(prev: bool, lparam: i64, rect: Option<Rect>, frame: int)
    ensures
        spec_nc_hit_test(prev, true, lparam, rect, frame) is None,
{
}

/// The cursor words are signed: each coordinate lies in `-32768..32768`.
pub proof fn law_cursor_words_signed(lparam: i64)
    ensures
        -0x8000 <= spec_point(lparam).0 < 0x8000,
        -0x8000 <= spec_point(lparam).1 < 0x8000,
{
}

/// A point within the frame of the left edge, and away from the other
/// three, is answered with the left edge, wherever the window lies on the
/// screen.
pub proof fn law_left_edge(x: int, y: int, rect: Rect, m: int)
    requires
        x - rect.left < m,
        rect.right - x >= m,
        y - rect.top >= m,
        rect.bottom - y >= m,
    ensures
        spec_zone(x, y, rect, m) == Some(HitZone::Left),
{
}

} // verus!
