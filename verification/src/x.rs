//! The words that the manager and its display driver exchange: window
//! handles, the requests that the manager makes of the driver, the events that
//! the driver reports, and the rules by which raw protocol events become
//! events for the manager.

use crate::keys::{KeyCombo, ModKey};
use std::collections::HashMap;
use vstd::prelude::*;

verus! {

broadcast use vstd::std_specs::hash::group_hash_axioms;

/// A handle to an X window. The display server owns the window itself.
#[derive(Clone, Copy, Debug, PartialEq, Eq, Hash, Structural)]
pub struct WindowId(pub u32);

impl WindowId {
    /// The handle as the protocol carries it.
    pub fn to_x(&self) -> (raw: u32)
        ensures
            raw == self.0,
    {
        self.0
    }
}

/// The kinds of window that `_NET_WM_WINDOW_TYPE` tells apart.
#[derive(Copy, Clone, Debug, PartialEq, Eq, Structural)]
pub enum WindowType {
    Desktop,
    Dock,
    Toolbar,
    Menu,
    Utility,
    Splash,
    Dialog,
    DropdownMenu,
    PopupMenu,
    Tooltip,
    Notification,
    Combo,
    Dnd,
    Normal,
}

/// The states of a window that `_NET_WM_STATE` tells apart.
#[derive(Copy, Clone, Debug, PartialEq, Eq, Structural)]
pub enum WindowState {
    Modal,
    Sticky,
    MaximizedVert,
    MaximizedHorz,
    Shaded,
    SkipTaskbar,
    SkipPager,
    Hidden,
    Fullscreen,
    Above,
    Below,
    DemandsAttention,
}

/// The space that a dock reserves at the edges of the screen, as
/// `_NET_WM_STRUT_PARTIAL` gives it.
#[derive(Copy, Clone, Debug, PartialEq, Eq, Structural)]
pub struct StrutPartial {
    pub left: u32,
    pub right: u32,
    pub top: u32,
    pub bottom: u32,
    pub left_start_y: u32,
    pub left_end_y: u32,
    pub right_start_y: u32,
    pub right_end_y: u32,
    pub top_start_x: u32,
    pub top_end_x: u32,
    pub bottom_start_x: u32,
    pub bottom_end_x: u32,
}

impl StrutPartial {
    pub fn left(&self) -> (width: u32)
        ensures
            width == self.left,
    {
        self.left
    }

    pub fn right(&self) -> (width: u32)
        ensures
            width == self.right,
    {
        self.right
    }

    pub fn top(&self) -> (height: u32)
        ensures
            height == self.top,
    {
        self.top
    }

    pub fn bottom(&self) -> (height: u32)
        ensures
            height == self.bottom,
    {
        self.bottom
    }
}

/// What the manager asks of the display driver. The manager hands its requests
/// out in the order in which the driver is to carry them out.
#[derive(Copy, Clone, Debug, PartialEq, Eq, Structural)]
pub enum Request {
    /// Set the window's position and size.
    ConfigureWindow { window: WindowId, x: u32, y: u32, width: u32, height: u32 },
    MapWindow(WindowId),
    UnmapWindow(WindowId),
    /// Close the window: by its own consent where it offers that, else by force.
    CloseWindow(WindowId),
    /// Give the window the input focus and publish it as the active window.
    FocusWindow(WindowId),
    /// Publish that no window is active.
    FocusNothing,
    /// Grab every key combination of the key table on the window.
    EnableWindowKeyEvents(WindowId),
    /// Report when the pointer enters the window and when the window changes.
    EnableWindowTracking(WindowId),
    /// Report nothing of the window.
    DisableWindowTracking(WindowId),
    /// Publish the desktops as the manager now has them.
    UpdateEwmhDesktops,
    /// Start the program that the key table binds to the combination.
    Spawn(KeyCombo),
}

/// Events received from the driver's event loop.
#[derive(Copy, Clone, Debug, PartialEq, Eq, Structural)]
pub enum Event {
    MapRequest(WindowId),
    UnmapNotify(WindowId),
    DestroyNotify(WindowId),
    KeyPress(KeyCombo),
    EnterNotify(WindowId),
}

/// What the driver was last told to focus, after `requests` were carried out:
/// the window of the last `FocusWindow`, nothing after a later `FocusNothing`,
/// and `before` where `requests` tell neither.
pub open spec fn focus_told(before: Option<WindowId>, requests: Seq<Request>) -> Option<WindowId>
    decreases requests.len(),
{
    if requests.len() == 0 {
        before
    } else {
        match requests.last() {
            Request::FocusWindow(window) => Some(window),
            Request::FocusNothing => None,
            _ => focus_told(before, requests.drop_last()),
        }
    }
}

pub const CONFIG_WINDOW_X: u16 = 1;

pub const CONFIG_WINDOW_Y: u16 = 2;

pub const CONFIG_WINDOW_WIDTH: u16 = 4;

pub const CONFIG_WINDOW_HEIGHT: u16 = 8;

pub const CONFIG_WINDOW_BORDER_WIDTH: u16 = 16;

pub const CONFIG_WINDOW_SIBLING: u16 = 32;

pub const CONFIG_WINDOW_STACK_MODE: u16 = 64;

/// A client's request to change a window's geometry or stacking.
#[derive(Copy, Clone, Debug, PartialEq, Eq, Structural)]
pub struct ConfigureRequest {
    pub window: WindowId,
    /// One bit for each of the values below that the client set.
    pub value_mask: u16,
    pub x: i16,
    pub y: i16,
    pub width: u16,
    pub height: u16,
    pub border_width: u16,
    pub sibling: u32,
    pub stack_mode: u8,
}

impl ConfigureRequest {
    /// All seven values of the request, each with its bit, in protocol order.
    pub open spec fn all_values(self) -> Seq<(u16, u32)> {
        seq![
            (CONFIG_WINDOW_X, self.x as u32),
            (CONFIG_WINDOW_Y, self.y as u32),
            (CONFIG_WINDOW_WIDTH, self.width as u32),
            (CONFIG_WINDOW_HEIGHT, self.height as u32),
            (CONFIG_WINDOW_BORDER_WIDTH, self.border_width as u32),
            (CONFIG_WINDOW_SIBLING, self.sibling),
            (CONFIG_WINDOW_STACK_MODE, self.stack_mode as u32),
        ]
    }

    /// Whether the client set the value with this bit.
    pub open spec fn is_set(self, value: (u16, u32)) -> bool {
        value.0 & self.value_mask != 0
    }

    /// The values that the client set, in protocol order.
    pub open spec fn granted_values(self) -> Seq<(u16, u32)> {
        self.all_values().filter(|value: (u16, u32)| self.is_set(value))
    }

    /// The values to configure the window with, so that the request is granted
    /// unchanged: those that the client set, and no others.
    pub fn values(&self) -> (values: Vec<(u16, u32)>)
        ensures
            values@ == self.granted_values(),
    {
        let all: [(u16, u32); 7] = [
            (CONFIG_WINDOW_X, #[verifier::truncate] (self.x as u32)),
            (CONFIG_WINDOW_Y, #[verifier::truncate] (self.y as u32)),
            (CONFIG_WINDOW_WIDTH, self.width as u32),
            (CONFIG_WINDOW_HEIGHT, self.height as u32),
            (CONFIG_WINDOW_BORDER_WIDTH, self.border_width as u32),
            (CONFIG_WINDOW_SIBLING, self.sibling),
            (CONFIG_WINDOW_STACK_MODE, self.stack_mode as u32),
        ];
        assert(all@ =~= self.all_values());
        let mut values: Vec<(u16, u32)> = Vec::new();
        let mut index: usize = 0;
        let ghost is_set = |value: (u16, u32)| self.is_set(value);
        proof {
            reveal(Seq::filter);
            assert(all@.take(0) =~= Seq::<(u16, u32)>::empty());
        }
        while index < 7
            invariant
                index <= 7,
                all@ == self.all_values(),
                is_set == (|value: (u16, u32)| self.is_set(value)),
                values@ == all@.take(index as int).filter(is_set),
            decreases 7 - index,
        {
            let value = all[index];
            proof {
                assert(all@.take(index + 1).drop_last() =~= all@.take(index as int));
                reveal(Seq::filter);
            }
            if value.0 & self.value_mask != 0 {
                values.push(value);
            }
            index = index + 1;
        }
        assert(all@.take(7) =~= all@);
        values
    }
}

/// An event as the display server sends it, reduced to what the manager reads.
#[derive(Copy, Clone, Debug, PartialEq, Eq, Structural)]
pub enum RawEvent {
    ConfigureRequest(ConfigureRequest),
    MapRequest { window: WindowId },
    /// `event` is the window that the notification was selected on, `window`
    /// the one that was unmapped.
    UnmapNotify { event: WindowId, window: WindowId },
    DestroyNotify { window: WindowId },
    /// `state` holds the modifiers and buttons held, `keysym` the symbol that
    /// the pressed key stands for with no modifier applied.
    KeyPress { state: u16, keysym: u32 },
    /// `event` is the window that the pointer entered.
    EnterNotify { event: WindowId },
    /// Any other event.
    Other,
}

/// What becomes of a raw event.
#[derive(Debug, PartialEq, Eq)]
pub enum Filtered {
    /// The manager is to handle the event.
    Emit(Event),
    /// The driver is to configure the window with these values; the manager
    /// hears nothing of it.
    Grant { window: WindowId, values: Vec<(u16, u32)> },
    /// Nothing is to be done.
    Swallow,
}

impl RawEvent {
    /// The event that the manager is to handle, if there is one.
    ///
    /// An unmap notification counts only where it was selected on the unmapped
    /// window itself: what the root window reports of its children is the echo
    /// of the manager's own requests.
    pub open spec fn emitted(self, root: WindowId) -> Option<Event> {
        match self {
            RawEvent::ConfigureRequest(_) => None,
            RawEvent::MapRequest { window } => Some(Event::MapRequest(window)),
            RawEvent::UnmapNotify { event, window } => if event != root {
                Some(Event::UnmapNotify(window))
            } else {
                None
            },
            RawEvent::DestroyNotify { window } => Some(Event::DestroyNotify(window)),
            RawEvent::KeyPress { state, keysym } => Some(
                Event::KeyPress(
                    KeyCombo { mod_mask: (state as u32) & ModKey::spec_mask_all(), keysym },
                ),
            ),
            RawEvent::EnterNotify { event } => Some(Event::EnterNotify(event)),
            RawEvent::Other => None,
        }
    }

    /// Decides what becomes of a raw event on a display whose root window is
    /// `root`.
    pub fn filter(&self, root: WindowId) -> (filtered: Filtered)
        ensures
            match filtered {
                Filtered::Emit(event) => self.emitted(root) == Some(event),
                Filtered::Grant { window, values } => {
                    &&& *self matches RawEvent::ConfigureRequest(request)
                    &&& window == request.window
                    &&& values@ == request.granted_values()
                },
                Filtered::Swallow => self.emitted(root) is None && !(*self is ConfigureRequest),
            },
    {
        match self {
            RawEvent::ConfigureRequest(request) => Filtered::Grant {
                window: request.window,
                values: request.values(),
            },
            RawEvent::MapRequest { window } => Filtered::Emit(Event::MapRequest(*window)),
            RawEvent::UnmapNotify { event, window } => {
                if *event != root {
                    Filtered::Emit(Event::UnmapNotify(*window))
                } else {
                    Filtered::Swallow
                }
            },
            RawEvent::DestroyNotify { window } => Filtered::Emit(Event::DestroyNotify(*window)),
            RawEvent::KeyPress { state, keysym } => {
                let mod_mask = (*state as u32) & ModKey::mask_all();
                Filtered::Emit(Event::KeyPress(KeyCombo { mod_mask, keysym: *keysym }))
            },
            RawEvent::EnterNotify { event } => Filtered::Emit(Event::EnterNotify(*event)),
            RawEvent::Other => Filtered::Swallow,
        }
    }
}

/// How a window is closed.
#[derive(Copy, Clone, Debug, PartialEq, Eq, Structural)]
pub enum CloseMethod {
    /// The window is sent a client message of type `WM_PROTOCOLS` that names
    /// `WM_DELETE_WINDOW`, and closes itself.
    DeleteMessage,
    /// The window is destroyed.
    Destroy,
}

/// Chooses how to close a window that lists `protocols` under `WM_PROTOCOLS`,
/// or for which that list could not be read, where `delete_window` is the atom
/// `WM_DELETE_WINDOW`: gracefully if the window takes part in that protocol.
pub fn close_method(protocols: Option<&Vec<u32>>, delete_window: u32) -> (method: CloseMethod)
    ensures
        method == if protocols is Some && protocols->0@.contains(delete_window) {
            CloseMethod::DeleteMessage
        } else {
            CloseMethod::Destroy
        },
{
    let mut has_delete_window = false;
    if let Some(atoms) = protocols {
        let mut index: usize = 0;
        while index < atoms.len()
            invariant
                index <= atoms@.len(),
                has_delete_window == atoms@.take(index as int).contains(delete_window),
            decreases atoms@.len() - index,
        {
            proof {
                let next = atoms@.take(index + 1);
                assert(next.drop_last() =~= atoms@.take(index as int));
                assert(next.last() == atoms@[index as int]);
                if atoms@.take(index as int).contains(delete_window) {
                    let at = choose|at: int|
                        0 <= at < index && atoms@.take(index as int)[at] == delete_window;
                    assert(next[at] == delete_window);
                }
                if next.contains(delete_window) && atoms@[index as int] != delete_window {
                    let at = choose|at: int| 0 <= at < next.len() && next[at] == delete_window;
                    assert(atoms@.take(index as int)[at] == delete_window);
                }
            }
            if atoms[index] == delete_window {
                has_delete_window = true;
            }
            index = index + 1;
        }
        assert(atoms@.take(atoms@.len() as int) =~= atoms@);
    }
    if has_delete_window {
        CloseMethod::DeleteMessage
    } else {
        CloseMethod::Destroy
    }
}

/// The time stamp that stands for "now" in a request.
pub const CURRENT_TIME: u32 = 0;

/// The 32-bit data of the client message that asks a window to close itself,
/// where `delete_window` is the atom `WM_DELETE_WINDOW`.
pub fn delete_message_data(delete_window: u32) -> (data: [u32; 5])
    ensures
        data@ == seq![delete_window, CURRENT_TIME, 0, 0, 0],
{
    let data = [delete_window, CURRENT_TIME, 0, 0, 0];
    assert(data@ =~= seq![delete_window, CURRENT_TIME, 0, 0, 0]);
    data
}

/// What the atoms of a display stand for: the kinds of window, or the states
/// of one. The atoms differ from display to display, so the table is filled
/// when the connection is made.
pub struct AtomLookup<T> {
    map: HashMap<u32, T>,
}

impl<T> View for AtomLookup<T> {
    type V = Map<u32, T>;

    closed spec fn view(&self) -> Map<u32, T> {
        self.map@
    }
}

/// What the atoms of `atoms` stand for in `table`, in order; an atom that the
/// table does not hold is passed over.
pub open spec fn understood<T>(table: Map<u32, T>, atoms: Seq<u32>) -> Seq<T> {
    atoms.filter_map(
        |atom: u32|
            if table.contains_key(atom) {
                Some(table[atom])
            } else {
                None
            },
    )
}

impl<T: Copy> AtomLookup<T> {
    pub fn new() -> (table: Self)
        ensures
            table@ == Map::<u32, T>::empty(),
    {
        AtomLookup { map: HashMap::new() }
    }

    /// Lets `atom` stand for `value`.
    pub fn insert(&mut self, atom: u32, value: T)
        ensures
            final(self)@ == old(self)@.insert(atom, value),
    {
        self.map.insert(atom, value);
    }

    /// What `atom` stands for, if the table holds it.
    pub fn get(&self, atom: u32) -> (value: Option<T>)
        ensures
            value == if self@.contains_key(atom) {
                Some(self@[atom])
            } else {
                None
            },
    {
        match self.map.get(&atom) {
            Some(value) => Some(*value),
            None => None,
        }
    }

    /// What a window's property says: what each atom that the table holds
    /// stands for, in order. Atoms that the table does not hold are passed
    /// over, and a property that could not be read says nothing.
    pub fn values_of(&self, atoms: Option<&Vec<u32>>) -> (values: Vec<T>)
        ensures
            values@ == match atoms {
                Some(atoms) => understood(self@, atoms@),
                None => Seq::empty(),
            },
    {
        let mut values: Vec<T> = Vec::new();
        if let Some(atoms) = atoms {
            let mut index: usize = 0;
            assert(atoms@.take(0) =~= Seq::<u32>::empty());
            while index < atoms.len()
                invariant
                    index <= atoms@.len(),
                    values@ == understood(self@, atoms@.take(index as int)),
                decreases atoms@.len() - index,
            {
                proof {
                    assert(atoms@.take(index + 1).drop_last() =~= atoms@.take(index as int));
                }
                if let Some(value) = self.get(atoms[index]) {
                    values.push(value);
                    assert(values@ =~= understood(self@, atoms@.take(index as int)) + seq![value]);
                }
                index = index + 1;
            }
            assert(atoms@.take(atoms@.len() as int) =~= atoms@);
        }
        values
    }
}

} // verus!
