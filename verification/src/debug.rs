//! Names for the log.

use vstd::prelude::*;

verus! {

/// The name of the kind of event that a response type of the core protocol
/// stands for.
pub open spec fn event_name(response_type: u8) -> Seq<char> {
    match response_type {
        2 => "KeyPress"@,
        3 => "KeyRelease"@,
        4 => "ButtonPress"@,
        5 => "ButtonRelease"@,
        6 => "MotionNotify"@,
        7 => "EnterNotify"@,
        8 => "LeaveNotify"@,
        9 => "FocusIn"@,
        10 => "FocusOut"@,
        11 => "KeymapNotify"@,
        12 => "Expose"@,
        13 => "GraphicsExpose"@,
        14 => "NoExpose"@,
        15 => "VisibilityNotify"@,
        16 => "CreateNotify"@,
        17 => "DestroyNotify"@,
        18 => "UnmapNotify"@,
        19 => "MapNotify"@,
        20 => "MapRequest"@,
        21 => "ReparentNotify"@,
        22 => "ConfigureNotify"@,
        23 => "ConfigureRequest"@,
        24 => "GravityNotify"@,
        25 => "ResizeRequest"@,
        26 => "CirculateNotify"@,
        27 => "CirculateRequest"@,
        28 => "PropertyNotify"@,
        29 => "SelectionClear"@,
        30 => "SelectionRequest"@,
        31 => "SelectionNotify"@,
        32 => "ColormapNotify"@,
        33 => "ClientMessage"@,
        34 => "MappingNotify"@,
        35 => "GenericEvent"@,
        36 => "LASTEvent"@,
        _ => "Unknown"@,
    }
}

/// Returns the name of the kind of event that a response type stands for,
/// and "Unknown" for one that stands for none.
pub fn xcb_event_to_str(response_type: u8) -> (name: &'static str)
    ensures
        name@ == event_name(response_type),
{
    match response_type {
        2 => "KeyPress",
        3 => "KeyRelease",
        4 => "ButtonPress",
        5 => "ButtonRelease",
        6 => "MotionNotify",
        7 => "EnterNotify",
        8 => "LeaveNotify",
        9 => "FocusIn",
        10 => "FocusOut",
        11 => "KeymapNotify",
        12 => "Expose",
        13 => "GraphicsExpose",
        14 => "NoExpose",
        15 => "VisibilityNotify",
        16 => "CreateNotify",
        17 => "DestroyNotify",
        18 => "UnmapNotify",
        19 => "MapNotify",
        20 => "MapRequest",
        21 => "ReparentNotify",
        22 => "ConfigureNotify",
        23 => "ConfigureRequest",
        24 => "GravityNotify",
        25 => "ResizeRequest",
        26 => "CirculateNotify",
        27 => "CirculateRequest",
        28 => "PropertyNotify",
        29 => "SelectionClear",
        30 => "SelectionRequest",
        31 => "SelectionNotify",
        32 => "ColormapNotify",
        33 => "ClientMessage",
        34 => "MappingNotify",
        35 => "GenericEvent",
        36 => "LASTEvent",
        _ => "Unknown",
    }
}

} // verus!
