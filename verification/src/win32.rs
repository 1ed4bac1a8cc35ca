//! Window-message decisions of the desktop window's subclass procedure:
//! guarding against Win+D hiding the window, and letting clicks pass through
//! the content while keeping the top handle zone usable.
use vstd::prelude::*;

verus! {

/// `WM_SHOWWINDOW`.
pub const WM_SHOWWINDOW: u32 = 0x0018;
/// `WM_NCHITTEST`.
pub const WM_NCHITTEST: u32 = 0x0084;
/// Height in pixels of the handle zone at the top of the window that stays
/// clickable while clicks pass through.
pub const HANDLE_ZONE: i32 = 30;

/// What the subclass procedure does with a message.
#[derive(Clone, Copy, Debug)]
pub enum MessageDecision {
    /// A hide request without a show flag (Win+D): answer 0 and show the
    /// window again shortly after.
    KeepShown,
    /// A hit test while clicks pass through: decide by the cursor position.
    HitTest,
    /// Hand the message to the default procedure.
    PassOn,
}

/// The answer to a hit test while clicks pass through.
#[derive(Clone, Copy, Debug)]
pub enum HitDecision {
    /// In the handle zone: the default answer, so the page handles the click.
    Default,
    /// Elsewhere: transparent, so the click reaches the desktop.
    Transparent,
}

/// Classifies a window message.
pub fn classify_message(msg: u32, wparam: usize, lparam: isize, penetrating: bool) -> (d: MessageDecision)
    ensures
        msg == WM_SHOWWINDOW && wparam == 0 && lparam == 0 ==> d is KeepShown,
        !(msg == WM_SHOWWINDOW && wparam == 0 && lparam == 0) && msg == WM_NCHITTEST && penetrating ==> d is HitTest,
        !(msg == WM_SHOWWINDOW && wparam == 0 && lparam == 0) && !(msg == WM_NCHITTEST && penetrating) ==> d is PassOn,
{
    if msg == WM_SHOWWINDOW && wparam == 0 && lparam == 0 {
        MessageDecision::KeepShown
    } else if msg == WM_NCHITTEST && penetrating {
        MessageDecision::HitTest
    } else {
        MessageDecision::PassOn
    }
}

/// The signed screen y coordinate carried in the high word of the low 32
/// bits of a hit-test `lparam`.
pub open spec fn screen_y(lparam: isize) -> int {
    let hi: int = ((#[verifier::truncate] (lparam as u32)) / 0x10000) as int;
    if hi >= 0x8000 { hi - 0x10000 } else { hi }
}

/// A hit-test `lparam` built from a screen point, with `x` in its low word and
/// `y` in its high word (each as a signed 16-bit value), gives back `y`.
pub proof fn law_screen_y_of_point(x: int, y: int, lparam: isize)
    requires
        -0x8000 <= x < 0x8000,
        -0x8000 <= y < 0x8000,
        (#[verifier::truncate] (lparam as u32)) as int == (if y < 0 { y + 0x10000 } else { y }) * 0x10000 + (if x
            < 0 { x + 0x10000 } else { x }),
    ensures
        screen_y(lparam) == y,
{
    let low: int = (#[verifier::truncate] (lparam as u32)) as int;
    let yy: int = if y < 0 { y + 0x10000 } else { y };
    let xx: int = if x < 0 { x + 0x10000 } else { x };
    assert(low / 0x10000 == yy) by (nonlinear_arith)
        requires
            low == yy * 0x10000 + xx,
            0 <= xx < 0x10000,
            0 <= yy < 0x10000,
    ;
}

/// Extracts the screen y coordinate of a hit test.
pub fn screen_y_of(lparam: isize) -> (y: i32)
    ensures
        y == screen_y(lparam),
{
    let low: u32 = #[verifier::truncate] (lparam as u32);
    let hi: u32 = (low >> 16u32) & 0xFFFFu32;
    assert(hi == low / 0x10000) by (bit_vector)
        requires hi == (low >> 16u32) & 0xFFFFu32;
    if hi >= 0x8000 {
        (hi as i32) - 0x10000
    } else {
        hi as i32
    }
}

/// Decides a hit test while clicks pass through, given the window's top edge
/// in screen coordinates (`None` when it could not be read).
pub fn hit_test(lparam: isize, window_top: Option<i32>) -> (d: HitDecision)
    requires
        window_top matches Some(top) ==> i32::MIN <= screen_y(lparam) - top <= i32::MAX,
    ensures
        window_top matches Some(top) && 0 <= screen_y(lparam) - top <= HANDLE_ZONE ==> d is Default,
        !(window_top matches Some(top) && 0 <= screen_y(lparam) - top <= HANDLE_ZONE) ==> d is Transparent,
{
    let y = screen_y_of(lparam);
    match window_top {
        Some(top) => {
            let client_y = y - top;
            if client_y >= 0 && client_y <= HANDLE_ZONE {
                HitDecision::Default
            } else {
                HitDecision::Transparent
            }
        },
        None => HitDecision::Transparent,
    }
}

} // verus!
