//! The layout that gives each window a row of the viewport.

use crate::layout::{push_show_requests, show_requests};
use crate::layout::{Layout, Rect};
use crate::screen::Viewport;
use crate::stack::{Stack, StackView};
use crate::x::{Request, WindowId};
use vstd::prelude::*;

verus! {

/// Shows all windows, one below the other in rows of equal height, with a
/// padding around each.
#[derive(Debug)]
pub struct TiledLayout {
    name: String,
    padding: u32,
}

impl Clone for TiledLayout {
    fn clone(&self) -> (copy: Self)
        ensures
            copy == *self,
    {
        TiledLayout { name: self.name.clone(), padding: self.padding }
    }
}

impl TiledLayout {
    pub closed spec fn spec_padding(&self) -> u32 {
        self.padding
    }

    pub fn new(name: &str, padding: u32) -> (layout: TiledLayout)
        ensures
            layout.spec_name() == name@,
            layout.spec_padding() == padding,
    {
        TiledLayout { name: name.to_owned(), padding }
    }

    /// The padding around each row.
    pub fn padding(&self) -> (padding: u32)
        ensures
            padding == self.spec_padding(),
    {
        self.padding
    }

    /// The height of each of `count` rows: what is left of the viewport's
    /// height below the topmost padding, shared out and rounded down, less the
    /// padding below the row.
    pub open spec fn row_height(&self, viewport: Viewport, count: int) -> int {
        (viewport.height - self.spec_padding()) / count - self.spec_padding()
    }

    /// Where the window at `index` of `count` goes.
    pub open spec fn row(&self, viewport: Viewport, count: int, index: int) -> Rect {
        Rect {
            x: viewport.x + self.spec_padding(),
            y: viewport.y + self.spec_padding() + index * (self.row_height(viewport, count)
                + self.spec_padding()),
            width: viewport.width - 2 * self.spec_padding(),
            height: self.row_height(viewport, count),
        }
    }

    /// The requests that show the first `shown` of `windows`, in order, each in
    /// its row.
    pub open spec fn rows(&self, viewport: Viewport, windows: Seq<WindowId>, shown: int) -> Seq<
        Request,
    >
        decreases shown,
    {
        if shown <= 0 {
            Seq::empty()
        } else {
            self.rows(viewport, windows, shown - 1) + show_requests(
                windows[shown - 1],
                self.row(viewport, windows.len() as int, shown - 1),
            )
        }
    }
}

impl Layout for TiledLayout {
    closed spec fn spec_name(&self) -> Seq<char> {
        self.name@
    }

    /// The windows fit where the rectangle of each row can be told to the
    /// driver, and the number of windows is one that a `u32` holds.
    open spec fn fits(&self, viewport: Viewport, windows: StackView<WindowId>) -> bool {
        &&& windows.len() <= u32::MAX
        &&& forall|index: int|
            0 <= index < windows.len() ==> (#[trigger] self.row(
                viewport,
                windows.len() as int,
                index,
            )).representable()
    }

    /// Every window is shown in its row, in order.
    open spec fn requests(&self, viewport: Viewport, windows: StackView<WindowId>) -> Seq<
        Request,
    > {
        self.rows(viewport, windows.items, windows.len() as int)
    }

    fn name(&self) -> (name: &str) {
        self.name.as_str()
    }

    fn can_layout(&self, viewport: &Viewport, stack: &Stack<WindowId>) -> (fits: bool) {
        let count = match stack.checked_len() {
            Some(count) => count,
            None => {
                return false;
            },
        };
        if count == 0 {
            return true;
        }
        if count > u32::MAX as usize {
            return false;
        }
        let count = count as u64;
        let padding = self.padding as u64;
        let ghost last = self.row(*viewport, count as int, count - 1);
        let ghost first = self.row(*viewport, count as int, 0);
        if padding > viewport.height as u64 {
            assert(!first.representable()) by {
                lemma_div_negative(viewport.height - padding, count as int);
            }
            return false;
        }
        let stride = (viewport.height as u64 - padding) / count;
        if stride < padding {
            assert(!first.representable());
            return false;
        }
        if viewport.x as u64 + padding > u32::MAX as u64 {
            assert(!first.representable());
            return false;
        }
        if 2 * padding > viewport.width as u64 {
            assert(!first.representable());
            return false;
        }
        assert((count - 1) * stride <= 0xffff_ffff * 0xffff_ffff) by (nonlinear_arith)
            requires
                0 <= count - 1 <= 0xffff_ffff,
                0 <= stride <= 0xffff_ffff,
        ;
        if viewport.y as u64 + padding + (count - 1) * stride > u32::MAX as u64 {
            assert(!last.representable());
            return false;
        }
        assert forall|index: int| 0 <= index < count implies (#[trigger] self.row(
            *viewport,
            count as int,
            index,
        )).representable() by {
            assert(0 <= index * stride <= (count - 1) * stride) by (nonlinear_arith)
                requires
                    0 <= index <= count - 1,
                    0 <= stride,
            ;
        }
        true
    }

    fn layout(&self, viewport: &Viewport, stack: &Stack<WindowId>) -> (requests: Vec<Request>) {
        let mut requests: Vec<Request> = Vec::new();
        if stack.is_empty() {
            return requests;
        }
        let windows = stack.iter();
        let count = windows.len();
        let ghost first = self.row(*viewport, count as int, 0);
        assert(first.representable());
        assert(viewport.height >= self.padding) by {
            if viewport.height < self.padding {
                lemma_div_negative(viewport.height - self.padding, count as int);
            }
        }
        assert((viewport.height - self.padding) / (count as int) <= viewport.height
            - self.padding) by (nonlinear_arith)
            requires
                viewport.height - self.padding >= 0,
                count >= 1,
        ;
        let tile_height = ((viewport.height - self.padding) / count as u32) - self.padding;
        let mut index: usize = 0;
        while index < count
            invariant
                index <= count,
                count == windows@.len(),
                windows@.len() == stack@.len(),
                0 < count <= u32::MAX,
                tile_height == self.row_height(*viewport, count as int),
                tile_height + self.padding <= u32::MAX,
                self.fits(*viewport, stack@),
                forall|i: int| 0 <= i < stack@.len() ==> *#[trigger] windows@[i] == stack@.items[i],
                requests@ == self.rows(*viewport, stack@.items, index as int),
            decreases count - index,
        {
            let window_id = *windows[index];
            let ghost rect = self.row(*viewport, count as int, index as int);
            assert(rect.representable());
            assert(0 <= index * (tile_height + self.padding)) by (nonlinear_arith)
                requires
                    0 <= index,
                    0 <= tile_height + self.padding,
            ;
            push_show_requests(
                &mut requests,
                window_id,
                viewport.x + self.padding,
                viewport.y + self.padding + (index as u32 * (tile_height + self.padding)),
                viewport.width - (self.padding * 2),
                tile_height,
            );
            index = index + 1;
        }
        requests
    }
}

/// A negative number shared out among a positive count stays negative.
proof fn lemma_div_negative(amount: int, count: int)
    requires
        amount < 0,
        count > 0,
    ensures
        amount / count < 0,
{
    assert(amount / count < 0) by (nonlinear_arith)
        requires
            amount < 0,
            count > 0,
    ;
}

} // verus!
