//! Layouts: the rules by which the windows of a group share the viewport.

use crate::screen::Viewport;
use crate::stack::{Stack, StackView};
use crate::x::{Request, WindowId};
use vstd::prelude::*;

pub mod stack;
pub mod tiled;

pub use self::stack::StackLayout;
pub use self::tiled::TiledLayout;

verus! {

/// A rectangle as a layout computes it, before it is known to lie on the
/// screen.
pub struct Rect {
    pub x: int,
    pub y: int,
    pub width: int,
    pub height: int,
}

impl Rect {
    /// Each of the four numbers is one that a request can carry.
    pub open spec fn representable(self) -> bool {
        &&& 0 <= self.x <= u32::MAX
        &&& 0 <= self.y <= u32::MAX
        &&& 0 <= self.width <= u32::MAX
        &&& 0 <= self.height <= u32::MAX
    }

    /// The request that gives `window` this position and size.
    pub open spec fn configure(self, window: WindowId) -> Request {
        Request::ConfigureWindow {
            window,
            x: self.x as u32,
            y: self.y as u32,
            width: self.width as u32,
            height: self.height as u32,
        }
    }
}

/// The requests that show `window` at `rect` among other windows: it is
/// mapped, then given its place. The driver is not to report what the manager
/// itself does to the window, so tracking is off in between.
pub open spec fn show_requests(window: WindowId, rect: Rect) -> Seq<Request> {
    seq![
        Request::DisableWindowTracking(window),
        Request::MapWindow(window),
        rect.configure(window),
        Request::EnableWindowTracking(window),
    ]
}

/// The requests that present `window` alone at `rect`: it is given its place
/// first and mapped then, so that it comes up where it belongs. Tracking is
/// off in between.
pub open spec fn present_requests(window: WindowId, rect: Rect) -> Seq<Request> {
    seq![
        Request::DisableWindowTracking(window),
        rect.configure(window),
        Request::MapWindow(window),
        Request::EnableWindowTracking(window),
    ]
}

/// The requests that hide `window`, with tracking off in between.
pub open spec fn hide_requests(window: WindowId) -> Seq<Request> {
    seq![
        Request::DisableWindowTracking(window),
        Request::UnmapWindow(window),
        Request::EnableWindowTracking(window),
    ]
}

/// Appends the requests that show `window` at the given position and size.
pub fn push_show_requests(
    requests: &mut Vec<Request>,
    window: WindowId,
    x: u32,
    y: u32,
    width: u32,
    height: u32,
)
    ensures
        final(requests)@ == old(requests)@ + show_requests(
            window,
            Rect { x: x as int, y: y as int, width: width as int, height: height as int },
        ),
{
    requests.push(Request::DisableWindowTracking(window));
    requests.push(Request::MapWindow(window));
    requests.push(Request::ConfigureWindow { window, x, y, width, height });
    requests.push(Request::EnableWindowTracking(window));
    assert(requests@ =~= old(requests)@ + show_requests(
        window,
        Rect { x: x as int, y: y as int, width: width as int, height: height as int },
    ));
}

/// Appends the requests that present `window` alone at the given position and
/// size.
pub fn push_present_requests(
    requests: &mut Vec<Request>,
    window: WindowId,
    x: u32,
    y: u32,
    width: u32,
    height: u32,
)
    ensures
        final(requests)@ == old(requests)@ + present_requests(
            window,
            Rect { x: x as int, y: y as int, width: width as int, height: height as int },
        ),
{
    requests.push(Request::DisableWindowTracking(window));
    requests.push(Request::ConfigureWindow { window, x, y, width, height });
    requests.push(Request::MapWindow(window));
    requests.push(Request::EnableWindowTracking(window));
    assert(requests@ =~= old(requests)@ + present_requests(
        window,
        Rect { x: x as int, y: y as int, width: width as int, height: height as int },
    ));
}

/// Appends the requests that hide `window`.
pub fn push_hide_requests(requests: &mut Vec<Request>, window: WindowId)
    ensures
        final(requests)@ == old(requests)@ + hide_requests(window),
{
    requests.push(Request::DisableWindowTracking(window));
    requests.push(Request::UnmapWindow(window));
    requests.push(Request::EnableWindowTracking(window));
    assert(requests@ =~= old(requests)@ + hide_requests(window));
}

/// A rule by which the windows of a group share a viewport.
pub trait Layout {
    /// The name by which a group picks the layout.
    spec fn spec_name(&self) -> Seq<char>;

    /// Whether every position and size that the layout computes for these
    /// windows in this viewport is one that a request can carry.
    spec fn fits(&self, viewport: Viewport, windows: StackView<WindowId>) -> bool;

    /// The requests that arrange the windows in the viewport, in order.
    spec fn requests(&self, viewport: Viewport, windows: StackView<WindowId>) -> Seq<Request>;

    fn name(&self) -> (name: &str)
        ensures
            name@ == self.spec_name(),
    ;

    /// Returns whether the layout can arrange the windows in the viewport.
    fn can_layout(&self, viewport: &Viewport, stack: &Stack<WindowId>) -> (fits: bool)
        requires
            stack.wf(),
        ensures
            fits == self.fits(*viewport, stack@),
    ;

    /// Returns the requests that arrange the windows in the viewport.
    fn layout(&self, viewport: &Viewport, stack: &Stack<WindowId>) -> (requests: Vec<Request>)
        requires
            stack.wf(),
            self.fits(*viewport, stack@),
        ensures
            requests@ == self.requests(*viewport, stack@),
    ;
}

/// One of the layouts that this crate offers.
#[derive(Debug)]
pub enum AnyLayout {
    Tiled(TiledLayout),
    Stack(StackLayout),
}

impl Clone for AnyLayout {
    fn clone(&self) -> (copy: Self)
        ensures
            copy == *self,
    {
        match self {
            AnyLayout::Tiled(layout) => AnyLayout::Tiled(layout.clone()),
            AnyLayout::Stack(layout) => AnyLayout::Stack(layout.clone()),
        }
    }
}

impl Layout for AnyLayout {
    open spec fn spec_name(&self) -> Seq<char> {
        match self {
            AnyLayout::Tiled(layout) => layout.spec_name(),
            AnyLayout::Stack(layout) => layout.spec_name(),
        }
    }

    open spec fn fits(&self, viewport: Viewport, windows: StackView<WindowId>) -> bool {
        match self {
            AnyLayout::Tiled(layout) => layout.fits(viewport, windows),
            AnyLayout::Stack(layout) => layout.fits(viewport, windows),
        }
    }

    open spec fn requests(&self, viewport: Viewport, windows: StackView<WindowId>) -> Seq<
        Request,
    > {
        match self {
            AnyLayout::Tiled(layout) => layout.requests(viewport, windows),
            AnyLayout::Stack(layout) => layout.requests(viewport, windows),
        }
    }

    fn name(&self) -> (name: &str) {
        match self {
            AnyLayout::Tiled(layout) => layout.name(),
            AnyLayout::Stack(layout) => layout.name(),
        }
    }

    fn can_layout(&self, viewport: &Viewport, stack: &Stack<WindowId>) -> (fits: bool) {
        match self {
            AnyLayout::Tiled(layout) => layout.can_layout(viewport, stack),
            AnyLayout::Stack(layout) => layout.can_layout(viewport, stack),
        }
    }

    fn layout(&self, viewport: &Viewport, stack: &Stack<WindowId>) -> (requests: Vec<Request>) {
        match self {
            AnyLayout::Tiled(layout) => layout.layout(viewport, stack),
            AnyLayout::Stack(layout) => layout.layout(viewport, stack),
        }
    }
}

/// Copies a layout into a value that a group can hold beside layouts of other
/// kinds.
pub trait LayoutClone: Layout {
    fn clone_box(&self) -> (copy: AnyLayout)
        ensures
            copy.spec_name() == self.spec_name(),
            forall|viewport: Viewport, windows: StackView<WindowId>|
                #![trigger copy.fits(viewport, windows)]
                #![trigger copy.requests(viewport, windows)]
                copy.fits(viewport, windows) == self.fits(viewport, windows) && copy.requests(
                    viewport,
                    windows,
                ) == self.requests(viewport, windows),
    ;
}

impl LayoutClone for TiledLayout {
    fn clone_box(&self) -> (copy: AnyLayout)
        ensures
            copy == AnyLayout::Tiled(*self),
    {
        AnyLayout::Tiled(self.clone())
    }
}

impl LayoutClone for StackLayout {
    fn clone_box(&self) -> (copy: AnyLayout)
        ensures
            copy == AnyLayout::Stack(*self),
    {
        AnyLayout::Stack(self.clone())
    }
}

impl LayoutClone for AnyLayout {
    fn clone_box(&self) -> (copy: AnyLayout)
        ensures
            copy == *self,
    {
        self.clone()
    }
}

/// Copies a list of layouts, so that each group has its own.
pub fn clone_layouts(layouts: &Vec<AnyLayout>) -> (copies: Vec<AnyLayout>)
    ensures
        copies@ == layouts@,
{
    let mut copies: Vec<AnyLayout> = Vec::new();
    let mut index: usize = 0;
    while index < layouts.len()
        invariant
            index <= layouts@.len(),
            copies@ == layouts@.take(index as int),
        decreases layouts@.len() - index,
    {
        copies.push(layouts[index].clone());
        index = index + 1;
        assert(copies@ =~= layouts@.take(index as int));
    }
    assert(layouts@.take(layouts@.len() as int) =~= layouts@);
    copies
}

} // verus!
