//! The screen: the docks on it and the area that they leave to other windows.

use crate::x::{StrutPartial, WindowId};
use vstd::prelude::*;

verus! {

/// A rectangle of the screen: the area available to the windows of a group.
#[derive(Clone, Copy, Debug, PartialEq, Eq, Structural)]
pub struct Viewport {
    pub x: u32,
    pub y: u32,
    pub width: u32,
    pub height: u32,
}

impl Default for Viewport {
    /// The empty viewport at the origin.
    fn default() -> (viewport: Viewport)
        ensures
            viewport == (Viewport { x: 0, y: 0, width: 0, height: 0 }),
    {
        Viewport { x: 0, y: 0, width: 0, height: 0 }
    }
}

/// A window that reserves space at the edges of the screen, such as a panel.
#[derive(Clone, Copy, Debug, PartialEq, Eq)]
pub struct Dock {
    pub window_id: WindowId,
    /// The space that the dock reserves, where it says so.
    pub strut_partial: Option<StrutPartial>,
}

/// The space reserved at each edge of the screen.
#[derive(Clone, Copy, Debug, PartialEq, Eq, Structural)]
pub struct Margins {
    pub left: u32,
    pub right: u32,
    pub top: u32,
    pub bottom: u32,
}

pub open spec fn spec_max(a: u32, b: u32) -> u32 {
    if a >= b {
        a
    } else {
        b
    }
}

fn max(a: u32, b: u32) -> (larger: u32)
    ensures
        larger == spec_max(a, b),
{
    if a >= b {
        a
    } else {
        b
    }
}

impl Margins {
    /// The margins that reserve, at each edge, the larger of what `self` and
    /// the strut reserve there. Where along the edge the strut lies is not
    /// looked at.
    pub open spec fn widen(self, strut: StrutPartial) -> Margins {
        Margins {
            left: spec_max(self.left, strut.left),
            right: spec_max(self.right, strut.right),
            top: spec_max(self.top, strut.top),
            bottom: spec_max(self.bottom, strut.bottom),
        }
    }

    /// Whether the margins leave an area, maybe an empty one, of a screen of
    /// this width and height.
    pub open spec fn fit(self, screen_width: u32, screen_height: u32) -> bool {
        self.left + self.right <= screen_width && self.top + self.bottom <= screen_height
    }

    /// The area that the margins leave of a screen of this width and height.
    pub open spec fn viewport(self, screen_width: u32, screen_height: u32) -> Viewport {
        Viewport {
            x: self.left,
            y: self.top,
            width: (screen_width - self.left - self.right) as u32,
            height: (screen_height - self.top - self.bottom) as u32,
        }
    }
}

/// The space that `docks` reserve together: at each edge the largest
/// reservation of any of them, and nothing where none reserves.
pub open spec fn reserved(docks: Seq<Dock>) -> Margins
    decreases docks.len(),
{
    if docks.len() == 0 {
        Margins { left: 0, right: 0, top: 0, bottom: 0 }
    } else {
        match docks.last().strut_partial {
            Some(strut) => reserved(docks.drop_last()).widen(strut),
            None => reserved(docks.drop_last()),
        }
    }
}

impl Dock {
    /// The space that the dock reserves; none where it does not say.
    pub open spec fn margins(self) -> Margins {
        match self.strut_partial {
            Some(strut) => Margins {
                left: strut.left,
                right: strut.right,
                top: strut.top,
                bottom: strut.bottom,
            },
            None => Margins { left: 0, right: 0, top: 0, bottom: 0 },
        }
    }
}

/// The reservation at each edge is that of one of the docks, or nothing, and
/// no dock reserves more.
pub proof fn lemma_reserved_is_largest(docks: Seq<Dock>)
    ensures
        forall|i: int|
            #![trigger docks[i]]
            0 <= i < docks.len() ==> {
                &&& docks[i].margins().left <= reserved(docks).left
                &&& docks[i].margins().right <= reserved(docks).right
                &&& docks[i].margins().top <= reserved(docks).top
                &&& docks[i].margins().bottom <= reserved(docks).bottom
            },
        reserved(docks).left == 0 || exists|i: int|
            0 <= i < docks.len() && (#[trigger] docks[i]).margins().left == reserved(docks).left,
        reserved(docks).right == 0 || exists|i: int|
            0 <= i < docks.len() && (#[trigger] docks[i]).margins().right == reserved(docks).right,
        reserved(docks).top == 0 || exists|i: int|
            0 <= i < docks.len() && (#[trigger] docks[i]).margins().top == reserved(docks).top,
        reserved(docks).bottom == 0 || exists|i: int|
            0 <= i < docks.len() && (#[trigger] docks[i]).margins().bottom == reserved(
                docks,
            ).bottom,
    decreases docks.len(),
{
    if docks.len() > 0 {
        let rest = docks.drop_last();
        lemma_reserved_is_largest(rest);
        assert forall|i: int| 0 <= i < rest.len() implies #[trigger] rest[i] == docks[i] by {}
        let all = reserved(docks);
        let last = docks.len() - 1;
        assert forall|i: int|
            #![trigger docks[i]]
            0 <= i < docks.len() implies {
            &&& docks[i].margins().left <= all.left
            &&& docks[i].margins().right <= all.right
            &&& docks[i].margins().top <= all.top
            &&& docks[i].margins().bottom <= all.bottom
        } by {
            if i < last {
                assert(rest[i] == docks[i]);
            }
        }
        if all.left != 0 {
            if all.left == reserved(rest).left {
                let at = choose|i: int|
                    0 <= i < rest.len() && (#[trigger] rest[i]).margins().left == reserved(
                        rest,
                    ).left;
                assert(docks[at] == rest[at]);
            } else {
                assert(docks[last].margins().left == all.left);
            }
        }
        if all.right != 0 {
            if all.right == reserved(rest).right {
                let at = choose|i: int|
                    0 <= i < rest.len() && (#[trigger] rest[i]).margins().right == reserved(
                        rest,
                    ).right;
                assert(docks[at] == rest[at]);
            } else {
                assert(docks[last].margins().right == all.right);
            }
        }
        if all.top != 0 {
            if all.top == reserved(rest).top {
                let at = choose|i: int|
                    0 <= i < rest.len() && (#[trigger] rest[i]).margins().top == reserved(
                        rest,
                    ).top;
                assert(docks[at] == rest[at]);
            } else {
                assert(docks[last].margins().top == all.top);
            }
        }
        if all.bottom != 0 {
            if all.bottom == reserved(rest).bottom {
                let at = choose|i: int|
                    0 <= i < rest.len() && (#[trigger] rest[i]).margins().bottom == reserved(
                        rest,
                    ).bottom;
                assert(docks[at] == rest[at]);
            } else {
                assert(docks[last].margins().bottom == all.bottom);
            }
        }
    }
}

/// The docks on the screen, in the order in which they came.
#[derive(Debug)]
pub struct Screen {
    vec: Vec<Dock>,
}

impl Default for Screen {
    /// A screen without docks.
    fn default() -> (screen: Screen)
        ensures
            screen@ == Seq::<Dock>::empty(),
    {
        Screen::new()
    }
}

impl View for Screen {
    type V = Seq<Dock>;

    closed spec fn view(&self) -> Seq<Dock> {
        self.vec@
    }
}

impl Screen {
    pub fn new() -> (screen: Screen)
        ensures
            screen@ == Seq::<Dock>::empty(),
    {
        Screen { vec: Vec::new() }
    }

    /// Takes up a dock with the space that it reserves, as the driver read it.
    pub fn add_dock(&mut self, window_id: WindowId, strut_partial: Option<StrutPartial>)
        ensures
            final(self)@ == old(self)@.push(Dock { window_id, strut_partial }),
    {
        self.vec.push(Dock { window_id, strut_partial });
    }

    /// Drops every dock of this window.
    pub fn remove_dock(&mut self, window_id: &WindowId)
        ensures
            final(self)@ == old(self)@.filter(|dock: Dock| dock.window_id != *window_id),
    {
        let ghost kept = |dock: Dock| dock.window_id != *window_id;
        let mut docks: Vec<Dock> = Vec::new();
        let mut index: usize = 0;
        proof {
            reveal(Seq::filter);
            assert(self.vec@.take(0) =~= Seq::<Dock>::empty());
        }
        while index < self.vec.len()
            invariant
                index <= self.vec@.len(),
                kept == (|dock: Dock| dock.window_id != *window_id),
                docks@ == self.vec@.take(index as int).filter(kept),
            decreases self.vec@.len() - index,
        {
            let dock = self.vec[index];
            proof {
                reveal(Seq::filter);
                assert(self.vec@.take(index + 1).drop_last() =~= self.vec@.take(index as int));
            }
            if dock.window_id != *window_id {
                docks.push(dock);
            }
            index = index + 1;
        }
        assert(self.vec@.take(self.vec@.len() as int) =~= self.vec@);
        self.vec = docks;
    }

    /// The space that the docks reserve together.
    pub fn margins(&self) -> (margins: Margins)
        ensures
            margins == reserved(self@),
    {
        let mut margins = Margins { left: 0, right: 0, top: 0, bottom: 0 };
        let mut index: usize = 0;
        assert(self.vec@.take(0) =~= Seq::<Dock>::empty());
        while index < self.vec.len()
            invariant
                index <= self.vec@.len(),
                margins == reserved(self.vec@.take(index as int)),
            decreases self.vec@.len() - index,
        {
            proof {
                assert(self.vec@.take(index + 1).drop_last() =~= self.vec@.take(index as int));
            }
            // We don't bother looking at the start/end members of the
            // StrutPartial - treating it more like a Strut.
            if let Some(strut) = self.vec[index].strut_partial {
                margins = Margins {
                    left: max(margins.left, strut.left()),
                    right: max(margins.right, strut.right()),
                    top: max(margins.top, strut.top()),
                    bottom: max(margins.bottom, strut.bottom()),
                };
            }
            index = index + 1;
        }
        assert(self.vec@.take(self.vec@.len() as int) =~= self.vec@);
        margins
    }

    /// Whether the docks leave an area of a screen of this width and height.
    pub fn fits(&self, screen_width: u32, screen_height: u32) -> (fits: bool)
        ensures
            fits == reserved(self@).fit(screen_width, screen_height),
    {
        let margins = self.margins();
        margins.left as u64 + margins.right as u64 <= screen_width as u64 && margins.top as u64
            + margins.bottom as u64 <= screen_height as u64
    }

    /// Figure out the usable area of the screen based on the STRUT_PARTIAL of
    /// all docks.
    pub fn viewport(&self, screen_width: u32, screen_height: u32) -> (viewport: Viewport)
        requires
            reserved(self@).fit(screen_width, screen_height),
        ensures
            viewport == reserved(self@).viewport(screen_width, screen_height),
            viewport.x == reserved(self@).left,
            viewport.y == reserved(self@).top,
            viewport.width == screen_width - reserved(self@).left - reserved(self@).right,
            viewport.height == screen_height - reserved(self@).top - reserved(self@).bottom,
    {
        let margins = self.margins();
        Viewport {
            x: margins.left,
            y: margins.top,
            width: screen_width - margins.left - margins.right,
            height: screen_height - margins.top - margins.bottom,
        }
    }
}

} // verus!
