//! Shaping the installer's console window: a fixed-size, frameless window
//! centred on the screen, with a buffer no taller than the window and no
//! mouse selection.
use vstd::prelude::*;

verus! {

/// The width the installer gives its console window.
pub const CONSOLE_WIDTH: i32 = 560;

/// The height the installer gives its console window.
pub const CONSOLE_HEIGHT: i32 = 360;

/// The window style bits the installer clears: caption, sizing frame,
/// minimise box and maximise box (`WS_CAPTION | WS_THICKFRAME |
/// WS_MINIMIZEBOX | WS_MAXIMIZEBOX`).
pub const FRAME_STYLE_BITS: u32 = 0x00CF_0000;

/// The console input mode bit that turns on mouse input
/// (`ENABLE_MOUSE_INPUT`).
pub const MOUSE_INPUT_BIT: u32 = 0x0010;

/// Half of `v`, rounded toward zero as integer division in Rust rounds.
pub open spec fn half_toward_zero(v: int) -> int {
    if v >= 0 {
        v / 2
    } else {
        -((-v) / 2)
    }
}

/// The top-left corner that centres the console window on a screen of
/// `screen_w` by `screen_h`.
pub fn console_origin(screen_w: i32, screen_h: i32) -> (r: (i32, i32))
    requires
        screen_w >= i32::MIN + CONSOLE_WIDTH,
        screen_h >= i32::MIN + CONSOLE_HEIGHT,
    ensures
        r.0 == half_toward_zero(screen_w - CONSOLE_WIDTH),
        r.1 == half_toward_zero(screen_h - CONSOLE_HEIGHT),
{
    ((screen_w - CONSOLE_WIDTH) / 2, (screen_h - CONSOLE_HEIGHT) / 2)
}

/// `style` without the frame bits, so the window has no caption, no sizing
/// frame and no minimise or maximise box.
pub fn frameless_style(style: u32) -> (r: u32)
    ensures
        r == style & !FRAME_STYLE_BITS,
{
    style & !FRAME_STYLE_BITS
}

/// `mode` without mouse input, so a click cannot start a selection that
/// would pause the output.
pub fn without_mouse_input(mode: u32) -> (r: u32)
    ensures
        r == mode & !MOUSE_INPUT_BIT,
{
    mode & !MOUSE_INPUT_BIT
}

/// The height the screen buffer is set to so that it is exactly as tall as
/// the window spanning rows `top` to `bottom`; `None` where it already is.
pub fn fitted_buffer_rows(buffer_rows: i16, top: i16, bottom: i16) -> (r: Option<i16>)
    requires
        i16::MIN <= bottom - top,
        bottom - top + 1 <= i16::MAX,
    ensures
        buffer_rows == bottom - top + 1 ==> r is None,
        buffer_rows != bottom - top + 1 ==> r == Some((bottom - top + 1) as i16),
{
    let window_rows = bottom - top + 1;
    if buffer_rows != window_rows {
        Some(window_rows)
    } else {
        None
    }
}

} // verus!
