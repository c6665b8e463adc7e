//! The tray icon: what its menu entries and clicks ask of the runtime, and
//! the pixels of its icon.
use vstd::prelude::*;

use crate::app_core::contract::{AppCommand, AppEvent};
use crate::text::str_eq;

verus! {

/// The ids of the tray menu's entries.
#[derive(Debug, Clone, PartialEq, Eq)]
pub struct TrayMenuIds {
    pub show_main: String,
    pub widget: String,
    pub exit: String,
}

/// "Show main window" shows it; "toggle widget" hides a visible widget and
/// shows a hidden one; "exit" exits; any other entry asks nothing.
pub fn menu_event_to_command(event_id: &str, ids: &TrayMenuIds, widget_visible: bool) -> (r: Option<
    AppCommand,
>)
    ensures
        event_id@ == ids.show_main@ ==> r matches Some(AppCommand::RequestShowMainWindow),
        event_id@ != ids.show_main@ && event_id@ == ids.widget@ ==> if widget_visible {
            r matches Some(AppCommand::RequestHideWidget)
        } else {
            r matches Some(AppCommand::RequestShowWidget)
        },
        event_id@ != ids.show_main@ && event_id@ != ids.widget@ && event_id@ == ids.exit@
            ==> r matches Some(AppCommand::RequestExitApp),
        event_id@ != ids.show_main@ && event_id@ != ids.widget@ && event_id@ != ids.exit@
            ==> r is None,
{
    if str_eq(event_id, ids.show_main.as_str()) {
        Some(AppCommand::RequestShowMainWindow)
    } else if str_eq(event_id, ids.widget.as_str()) {
        Some(
            if widget_visible {
                AppCommand::RequestHideWidget
            } else {
                AppCommand::RequestShowWidget
            },
        )
    } else if str_eq(event_id, ids.exit.as_str()) {
        Some(AppCommand::RequestExitApp)
    } else {
        None
    }
}

/// What the tray takes the widget's visibility to be after a runtime event:
/// a visibility change sets it, and every other event leaves it.
pub fn widget_visible_after(current: bool, event: &AppEvent) -> (v: bool)
    ensures
        match *event {
            AppEvent::WidgetVisibilityChanged { visible } => v == visible,
            _ => v == current,
        },
{
    match event {
        AppEvent::WidgetVisibilityChanged { visible } => *visible,
        _ => current,
    }
}

/// A mouse button on the tray icon.
#[derive(Debug, Clone, Copy, PartialEq, Eq, Structural)]
pub enum TrayMouseButton {
    Left,
    Right,
    Middle,
}

/// Whether the button went down or up.
#[derive(Debug, Clone, Copy, PartialEq, Eq, Structural)]
pub enum TrayButtonState {
    Up,
    Down,
}

/// What happened on the tray icon, as far as commands go.
#[derive(Debug, Clone, Copy, PartialEq, Eq, Structural)]
pub enum TrayIconEventKind {
    Click { button: TrayMouseButton, button_state: TrayButtonState },
    Other,
}

/// Releasing the left button on the icon shows the main window; nothing else
/// asks anything.
pub fn map_tray_click_to_command(event: &TrayIconEventKind) -> (r: Option<AppCommand>)
    ensures
        *event == (TrayIconEventKind::Click {
            button: TrayMouseButton::Left,
            button_state: TrayButtonState::Up,
        }) ==> r matches Some(AppCommand::RequestShowMainWindow),
        *event != (TrayIconEventKind::Click {
            button: TrayMouseButton::Left,
            button_state: TrayButtonState::Up,
        }) ==> r is None,
{
    match event {
        TrayIconEventKind::Click { button: TrayMouseButton::Left, button_state: TrayButtonState::Up } => {
            Some(AppCommand::RequestShowMainWindow)
        },
        _ => None,
    }
}

/// The side of the square icon, in pixels.
pub const ICON_SIZE: u32 = 32u32;

/// The colour of the icon's pixel at column `x` and row `y`: a dark frame, an
/// amber upright bar, two green trend lines, on a dark ground.
pub open spec fn icon_pixel(x: int, y: int) -> (u8, u8, u8, u8) {
    let border = x == 0 || y == 0 || x == 31 || y == 31;
    let trend_line = (x > 6 && x < 26) && (y == 11 || y == 20);
    let accent = x >= 14 && x <= 18 && y >= 7 && y <= 25;
    if border {
        (26, 30, 36, 255)
    } else if accent {
        (245, 173, 0, 255)
    } else if trend_line {
        (72, 196, 142, 255)
    } else {
        (33, 39, 46, 255)
    }
}

/// Channel `c` (red, green, blue, alpha) of a pixel.
pub open spec fn channel(p: (u8, u8, u8, u8), c: int) -> u8 {
    if c == 0 {
        p.0
    } else if c == 1 {
        p.1
    } else if c == 2 {
        p.2
    } else {
        p.3
    }
}

proof fn lemma_pixel_index(x: int, y: int, c: int)
    requires
        0 <= x < 32,
        0 <= y < 32,
        0 <= c < 4,
    ensures
        ((y * 32 + x) * 4 + c) / 4 == y * 32 + x,
        ((y * 32 + x) * 4 + c) % 4 == c,
        (y * 32 + x) % 32 == x,
        (y * 32 + x) / 32 == y,
{
    assert(((y * 32 + x) * 4 + c) / 4 == y * 32 + x) by (nonlinear_arith)
        requires
            0 <= x < 32,
            0 <= y < 32,
            0 <= c < 4,
    ;
    assert(((y * 32 + x) * 4 + c) % 4 == c) by (nonlinear_arith)
        requires
            0 <= x < 32,
            0 <= y < 32,
            0 <= c < 4,
    ;
    assert((y * 32 + x) % 32 == x) by (nonlinear_arith)
        requires
            0 <= x < 32,
            0 <= y < 32,
    ;
    assert((y * 32 + x) / 32 == y) by (nonlinear_arith)
        requires
            0 <= x < 32,
            0 <= y < 32,
    ;
}

/// The RGBA bytes of the tray icon, row by row.
pub fn default_tray_icon_rgba() -> (rgba: Vec<u8>)
    ensures
        rgba@.len() == 4096,
        forall|i: int|
            0 <= i < 4096 ==> #[trigger] rgba@[i] == channel(
                icon_pixel((i / 4) % 32, (i / 4) / 32),
                i % 4,
            ),
{
    let mut rgba: Vec<u8> = Vec::new();
    let mut y: u32 = 0;
    while y < ICON_SIZE
        invariant
            y <= 32,
            rgba@.len() == 128 * y,
            forall|i: int|
                0 <= i < rgba@.len() ==> #[trigger] rgba@[i] == channel(
                    icon_pixel((i / 4) % 32, (i / 4) / 32),
                    i % 4,
                ),
        decreases 32 - y,
    {
        let mut x: u32 = 0;
        while x < ICON_SIZE
            invariant
                y < 32,
                x <= 32,
                rgba@.len() == 128 * y + 4 * x,
                forall|i: int|
                    0 <= i < rgba@.len() ==> #[trigger] rgba@[i] == channel(
                        icon_pixel((i / 4) % 32, (i / 4) / 32),
                        i % 4,
                    ),
            decreases 32 - x,
        {
            let border = x == 0 || y == 0 || x == ICON_SIZE - 1 || y == ICON_SIZE - 1;
            let trend_line = (x > 6 && x < 26) && (y == 11 || y == 20);
            let accent = x >= 14 && x <= 18 && y >= 7 && y <= 25;
            let (r, g, b, a): (u8, u8, u8, u8) = if border {
                (26, 30, 36, 255)
            } else if accent {
                (245, 173, 0, 255)
            } else if trend_line {
                (72, 196, 142, 255)
            } else {
                (33, 39, 46, 255)
            };
            let ghost base = rgba@.len() as int;
            assert((r, g, b, a) == icon_pixel(x as int, y as int));
            assert(base == (y * 32 + x) * 4);
            rgba.push(r);
            rgba.push(g);
            rgba.push(b);
            rgba.push(a);
            proof {
                let px = (r, g, b, a);
                assert forall|i: int| 0 <= i < rgba@.len() implies #[trigger] rgba@[i] == channel(
                    icon_pixel((i / 4) % 32, (i / 4) / 32),
                    i % 4,
                ) by {
                    if i >= base {
                        lemma_pixel_index(x as int, y as int, i - base);
                    }
                }
            }
            x = x + 1;
        }
        y = y + 1;
    }
    rgba
}

} // verus!
