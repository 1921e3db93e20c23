//! Where the window may stand: on a monitor, within its size, and whether
//! it is shown or hidden next.

use vstd::prelude::*;
use crate::settings::WindowBounds;

verus! {

/// The smallest width the window is given.
pub const MIN_WINDOW_WIDTH: u32 = 400;

/// The smallest height the window is given.
pub const MIN_WINDOW_HEIGHT: u32 = 300;

/// A monitor's place on the desktop and its size, in pixels.
#[derive(Clone, Copy, Debug, PartialEq, Eq, Structural)]
pub struct MonitorRect {
    pub x: i32,
    pub y: i32,
    pub width: u32,
    pub height: u32,
}

/// Whether a rectangle and a monitor share any area.
pub open spec fn intersects(x: int, y: int, width: int, height: int, monitor: MonitorRect) -> bool {
    &&& x < monitor.x + monitor.width
    &&& x + width > monitor.x
    &&& y < monitor.y + monitor.height
    &&& y + height > monitor.y
}

/// Whether the rectangle at `(x, y)` of the given size shares any area with
/// the monitor.
pub fn rect_intersects_monitor(x: i32, y: i32, width: u32, height: u32, monitor: &MonitorRect) -> (r:
    bool)
    ensures
        r == intersects(x as int, y as int, width as int, height as int, *monitor),
{
    let left: i64 = x as i64;
    let top: i64 = y as i64;
    let right: i64 = left + width as i64;
    let bottom: i64 = top + height as i64;
    let monitor_left: i64 = monitor.x as i64;
    let monitor_top: i64 = monitor.y as i64;
    let monitor_right: i64 = monitor_left + monitor.width as i64;
    let monitor_bottom: i64 = monitor_top + monitor.height as i64;
    left < monitor_right && right > monitor_left && top < monitor_bottom && bottom > monitor_top
}

/// Whether a window is on screen: its position and size are known and it
/// shares area with one of the monitors.
pub open spec fn on_screen(
    position: Option<(i32, i32)>,
    size: Option<(u32, u32)>,
    monitors: Seq<MonitorRect>,
) -> bool {
    match (position, size) {
        (Some(at), Some(extent)) => exists|i: int|
            0 <= i < monitors.len() && intersects(
                at.0 as int,
                at.1 as int,
                extent.0 as int,
                extent.1 as int,
                #[trigger] monitors[i],
            ),
        _ => false,
    }
}

/// Whether a window has to be moved to the centre before it is shown: it
/// has unless it is on screen.
pub fn ensure_window_on_screen(
    position: Option<(i32, i32)>,
    size: Option<(u32, u32)>,
    monitors: &Vec<MonitorRect>,
) -> (center: bool)
    ensures
        center == !on_screen(position, size, monitors@),
{
    match (position, size) {
        (Some(at), Some(extent)) => {
            let mut i: usize = 0;
            while i < monitors.len()
                invariant
                    i <= monitors.len(),
                    position == Some(at),
                    size == Some(extent),
                    forall|j: int|
                        0 <= j < i ==> !intersects(
                            at.0 as int,
                            at.1 as int,
                            extent.0 as int,
                            extent.1 as int,
                            #[trigger] monitors[j],
                        ),
                decreases monitors.len() - i,
            {
                if rect_intersects_monitor(at.0, at.1, extent.0, extent.1, &monitors[i]) {
                    assert(intersects(
                        at.0 as int,
                        at.1 as int,
                        extent.0 as int,
                        extent.1 as int,
                        monitors@[i as int],
                    ));
                    return false;
                }
                i += 1;
            }
            true
        },
        _ => true,
    }
}

/// What a toggle does to the window.
#[derive(Clone, Copy, Debug, PartialEq, Eq, Structural)]
pub enum WindowAction {
    /// Hide it.
    Hide,
    /// Bring it on screen, show it, restore it and give it the focus.
    Show,
}

/// What a toggle does: a window that is visible and not minimised is
/// hidden, any other is shown.
pub fn toggle_window(is_visible: bool, is_minimized: bool) -> (action: WindowAction)
    ensures
        action == if is_visible && !is_minimized {
            WindowAction::Hide
        } else {
            WindowAction::Show
        },
{
    if is_visible && !is_minimized {
        WindowAction::Hide
    } else {
        WindowAction::Show
    }
}

/// Whether a window that is maximised is restored by the maximise button,
/// and one that is not is maximised.
pub fn maximize_window(is_maximized: bool) -> (maximize: bool)
    ensures
        maximize == !is_maximized,
{
    !is_maximized
}

/// The size and place at which a window is opened.
#[derive(Clone, Copy, Debug)]
pub struct Placement {
    pub width: u32,
    pub height: u32,
    pub position: Option<(i32, i32)>,
}

pub open spec fn at_least(value: int, floor: int) -> int {
    if value < floor {
        floor
    } else {
        value
    }
}

pub open spec fn at_most(value: int, ceiling: int) -> int {
    if value > ceiling {
        ceiling
    } else {
        value
    }
}

/// A coordinate held between the monitor's edge and the last place at
/// which the window still fits on it.
pub open spec fn held_within(value: int, origin: int, room: int, extent: int) -> int {
    at_most(at_least(value, origin), origin + room - extent)
}

/// The width or height at which the window is opened: the remembered one,
/// not below the minimum and not above the monitor's.
pub open spec fn fitted_extent(remembered: int, minimum: int, monitor: Option<int>) -> int {
    match monitor {
        Some(room) => at_most(at_least(remembered, minimum), room),
        None => at_least(remembered, minimum),
    }
}

/// The placement for remembered bounds on a primary monitor, if there is
/// one.
pub open spec fn placement_of(bounds: WindowBounds, monitor: Option<MonitorRect>) -> Placement {
    let width = fitted_extent(
        bounds.width as int,
        MIN_WINDOW_WIDTH as int,
        match monitor {
            Some(m) => Some(m.width as int),
            None => None,
        },
    );
    let height = fitted_extent(
        bounds.height as int,
        MIN_WINDOW_HEIGHT as int,
        match monitor {
            Some(m) => Some(m.height as int),
            None => None,
        },
    );
    Placement {
        width: width as u32,
        height: height as u32,
        position: match (bounds.x, bounds.y) {
            (Some(x), Some(y)) => match monitor {
                Some(m) => Some(
                    (
                        held_within(x as int, m.x as int, m.width as int, width) as i32,
                        held_within(y as int, m.y as int, m.height as int, height) as i32,
                    ),
                ),
                None => Some((x, y)),
            },
            _ => None,
        },
    }
}

fn hold_within(value: i32, origin: i32, room: u32, extent: u32) -> (r: i32)
    requires
        extent <= room,
    ensures
        r == held_within(value as int, origin as int, room as int, extent as int),
{
    let last: i64 = origin as i64 + room as i64 - extent as i64;
    if value < origin {
        origin
    } else if value as i64 > last {
        last as i32
    } else {
        value
    }
}

/// The size and place at which the window is opened, from the bounds it
/// had last: at least the minimum size; on the primary monitor, where
/// there is one, no larger than the monitor and wholly on it.
pub fn place_window(bounds: &WindowBounds, monitor: Option<MonitorRect>) -> (placement: Placement)
    ensures
        placement == placement_of(*bounds, monitor),
{
    let mut width = if bounds.width < MIN_WINDOW_WIDTH {
        MIN_WINDOW_WIDTH
    } else {
        bounds.width
    };
    let mut height = if bounds.height < MIN_WINDOW_HEIGHT {
        MIN_WINDOW_HEIGHT
    } else {
        bounds.height
    };
    let mut position = match (bounds.x, bounds.y) {
        (Some(x), Some(y)) => Some((x, y)),
        _ => None,
    };
    match monitor {
        Some(m) => {
            if width > m.width {
                width = m.width;
            }
            if height > m.height {
                height = m.height;
            }
            position = match position {
                Some((x, y)) => Some(
                    (hold_within(x, m.x, m.width, width), hold_within(y, m.y, m.height, height)),
                ),
                None => None,
            };
        },
        None => {},
    }
    Placement { width, height, position }
}

} // verus!
