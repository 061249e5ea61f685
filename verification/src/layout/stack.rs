//! The layout that shows the focused window alone.

use crate::layout::{hide_requests, present_requests, push_hide_requests};
use crate::layout::push_present_requests;
use crate::layout::{Layout, Rect};
use crate::screen::Viewport;
use crate::stack::{Stack, StackView};
use crate::x::{Request, WindowId};
use vstd::prelude::*;

verus! {

/// Shows the focused window alone, maximized within the viewport less a
/// padding on each side.
#[derive(Debug)]
pub struct StackLayout {
    name: String,
    padding: u32,
}

impl Clone for StackLayout {
    fn clone(&self) -> (copy: Self)
        ensures
            copy == *self,
    {
        StackLayout { name: self.name.clone(), padding: self.padding }
    }
}

impl StackLayout {
    pub closed spec fn spec_padding(&self) -> u32 {
        self.padding
    }

    pub fn new(name: &str, padding: u32) -> (layout: StackLayout)
        ensures
            layout.spec_name() == name@,
            layout.spec_padding() == padding,
    {
        StackLayout { name: name.to_owned(), padding }
    }

    /// The padding on each side of the focused window.
    pub fn padding(&self) -> (padding: u32)
        ensures
            padding == self.spec_padding(),
    {
        self.padding
    }

    /// Where the focused window goes: the viewport less the padding on each
    /// side.
    pub open spec fn rect(&self, viewport: Viewport) -> Rect {
        Rect {
            x: viewport.x + self.spec_padding(),
            y: viewport.y + self.spec_padding(),
            width: viewport.width - 2 * self.spec_padding(),
            height: viewport.height - 2 * self.spec_padding(),
        }
    }

    /// The requests that hide every window of `windows` but `focused`, in
    /// order.
    pub open spec fn hidden(windows: Seq<WindowId>, focused: WindowId) -> Seq<Request>
        decreases windows.len(),
    {
        if windows.len() == 0 {
            Seq::empty()
        } else if windows.last() == focused {
            Self::hidden(windows.drop_last(), focused)
        } else {
            Self::hidden(windows.drop_last(), focused) + hide_requests(windows.last())
        }
    }
}

impl Layout for StackLayout {
    closed spec fn spec_name(&self) -> Seq<char> {
        self.name@
    }

    /// The windows fit where there are none, or where the rectangle of the
    /// focused window can be told to the driver.
    open spec fn fits(&self, viewport: Viewport, windows: StackView<WindowId>) -> bool {
        windows.len() > 0 ==> self.rect(viewport).representable()
    }

    /// Every window but the focused one is hidden, in order; then the focused
    /// one is given its place and mapped. Nothing is asked for an empty stack.
    open spec fn requests(&self, viewport: Viewport, windows: StackView<WindowId>) -> Seq<
        Request,
    > {
        if windows.len() == 0 {
            Seq::empty()
        } else {
            let focused = windows.items[windows.focus];
            Self::hidden(windows.items, focused) + present_requests(
                focused,
                self.rect(viewport),
            )
        }
    }

    fn name(&self) -> (name: &str) {
        self.name.as_str()
    }

    fn can_layout(&self, viewport: &Viewport, stack: &Stack<WindowId>) -> (fits: bool) {
        if stack.is_empty() {
            return true;
        }
        let padding = self.padding as u64;
        viewport.x as u64 + padding <= u32::MAX as u64 && viewport.y as u64 + padding
            <= u32::MAX as u64 && 2 * padding <= viewport.width as u64 && 2 * padding
            <= viewport.height as u64
    }

    fn layout(&self, viewport: &Viewport, stack: &Stack<WindowId>) -> (requests: Vec<Request>) {
        let mut requests: Vec<Request> = Vec::new();
        // A non-empty `Stack` is guaranteed to have something focused.
        let focused_id = match stack.focused() {
            Some(window_id) => *window_id,
            None => {
                return requests;
            },
        };
        let windows = stack.iter();
        let mut index: usize = 0;
        assert(stack@.items.take(0) =~= Seq::<WindowId>::empty());
        while index < windows.len()
            invariant
                index <= windows@.len(),
                windows@.len() == stack@.len(),
                forall|i: int| 0 <= i < stack@.len() ==> *#[trigger] windows@[i] == stack@.items[i],
                requests@ == Self::hidden(stack@.items.take(index as int), focused_id),
            decreases windows@.len() - index,
        {
            let window_id = *windows[index];
            proof {
                let next = stack@.items.take(index + 1);
                assert(next.drop_last() =~= stack@.items.take(index as int));
                assert(next.last() == window_id);
            }
            if focused_id != window_id {
                push_hide_requests(&mut requests, window_id);
            }
            index = index + 1;
        }
        assert(stack@.items.take(stack@.len() as int) =~= stack@.items);
        push_present_requests(
            &mut requests,
            focused_id,
            viewport.x + self.padding,
            viewport.y + self.padding,
            viewport.width - (self.padding * 2),
            viewport.height - (self.padding * 2),
        );
        requests
    }
}

} // verus!
