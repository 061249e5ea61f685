//! Groups: the workspaces among which the windows are shared out.

use crate::layout::{hide_requests, push_hide_requests, AnyLayout, Layout};
use crate::names::same_name;
use crate::screen::Viewport;
use crate::stack::{lemma_first_match_by_key, lemma_no_match_by_key};
use crate::stack::{is_first_match, NotFound, Stack, StackView};
use crate::x::{focus_told, Request, WindowId};
use vstd::prelude::*;

verus! {

/// The names of `layouts`, in order.
pub open spec fn layout_names(layouts: Seq<AnyLayout>) -> Seq<Seq<char>> {
    layouts.map_values(|layout: AnyLayout| layout.spec_name())
}

/// What a [`Group`] holds.
pub struct GroupView {
    pub name: Seq<char>,
    /// Whether the group's windows are the ones on the screen.
    pub active: bool,
    pub windows: StackView<WindowId>,
    /// The layouts among which the group can switch; the focused one is in use.
    pub layouts: StackView<AnyLayout>,
    pub viewport: Viewport,
}

impl GroupView {
    /// Both stacks are well formed, and there is a layout to use.
    pub open spec fn wf(self) -> bool {
        &&& self.windows.wf()
        &&& self.layouts.wf()
        &&& self.layouts.len() > 0
    }

    /// The layout in use.
    pub open spec fn layout(self) -> AnyLayout {
        self.layouts.items[self.layouts.focus]
    }

    /// The request that tells the driver which window is focused.
    pub open spec fn focus_request(self) -> Request {
        match self.windows.focused() {
            Some(window) => Request::FocusWindow(window),
            None => Request::FocusNothing,
        }
    }

    /// The requests by which the layout in use arranges the windows. A layout
    /// that cannot tell its rectangles to the driver arranges nothing.
    pub open spec fn arrangement(self) -> Seq<Request> {
        if self.layout().fits(self.viewport, self.windows) {
            self.layout().requests(self.viewport, self.windows)
        } else {
            Seq::empty()
        }
    }

    /// The requests of a layout pass: none while the group is inactive; else the
    /// arrangement, and then the focus.
    pub open spec fn layout_pass(self) -> Seq<Request> {
        if self.active {
            self.arrangement().push(self.focus_request())
        } else {
            Seq::empty()
        }
    }

    /// The requests that hide each of `windows`, in order.
    pub open spec fn hide_all(windows: Seq<WindowId>) -> Seq<Request>
        decreases windows.len(),
    {
        if windows.len() == 0 {
            Seq::empty()
        } else {
            Self::hide_all(windows.drop_last()) + hide_requests(windows.last())
        }
    }

    pub open spec fn with_windows(self, windows: StackView<WindowId>) -> Self {
        GroupView { windows, ..self }
    }

    pub open spec fn with_layouts(self, layouts: StackView<AnyLayout>) -> Self {
        GroupView { layouts, ..self }
    }

    /// The group is active and has the viewport.
    pub open spec fn activate(self, viewport: Viewport) -> Self {
        GroupView { active: true, viewport, ..self }
    }

    pub open spec fn update_viewport(self, viewport: Viewport) -> Self {
        GroupView { viewport, ..self }
    }

    pub open spec fn deactivate(self) -> Self {
        GroupView { active: false, ..self }
    }

    pub open spec fn contains(self, window: WindowId) -> bool {
        self.windows.items.contains(window)
    }

    /// The first occurrence of `window` has left, if there was one.
    pub open spec fn remove_window(self, window: WindowId) -> Self {
        match self.windows.items.index_of_first(window) {
            Some(index) => self.with_windows(self.windows.remove_at(index)),
            None => self,
        }
    }

    /// The first occurrence of `window` is focused, if there is one.
    pub open spec fn focus(self, window: WindowId) -> Self {
        match self.windows.items.index_of_first(window) {
            Some(index) => self.with_windows(self.windows.focus_at(index)),
            None => self,
        }
    }
}

/// The name of a group and of the layout that it starts with.
#[derive(Debug)]
pub struct GroupBuilder {
    name: String,
    default_layout: String,
}

impl Clone for GroupBuilder {
    fn clone(&self) -> (copy: Self)
        ensures
            copy == *self,
    {
        GroupBuilder { name: self.name.clone(), default_layout: self.default_layout.clone() }
    }
}

impl GroupBuilder {
    pub closed spec fn spec_name(&self) -> Seq<char> {
        self.name@
    }

    pub closed spec fn spec_default_layout(&self) -> Seq<char> {
        self.default_layout@
    }

    pub fn new(name: &str, default_layout: &str) -> (builder: GroupBuilder)
        ensures
            builder.spec_name() == name@,
            builder.spec_default_layout() == default_layout@,
    {
        GroupBuilder { name: name.to_owned(), default_layout: default_layout.to_owned() }
    }

    /// The group as it is when the builder has done its work on `layouts`, of
    /// which the one at `index` is the default.
    pub open spec fn built(&self, layouts: Seq<AnyLayout>, index: int) -> GroupView {
        GroupView {
            name: self.spec_name(),
            active: false,
            windows: StackView::empty(),
            layouts: StackView::from_seq(layouts).focus_at(index),
            viewport: Viewport { x: 0, y: 0, width: 0, height: 0 },
        }
    }

    /// Builds the group: inactive, without windows, with `layouts` to choose
    /// from and the first layout of the default name in use. Fails where no
    /// layout has that name.
    pub fn build(self, layouts: Vec<AnyLayout>) -> (built: Result<Group, NotFound>)
        ensures
            match built {
                Ok(group) => {
                    &&& group.wf()
                    &&& layout_names(layouts@).index_of_first(self.spec_default_layout()) is Some
                    &&& group@ == self.built(
                        layouts@,
                        layout_names(layouts@).index_of_first(self.spec_default_layout())->0,
                    )
                },
                Err(_) => layout_names(layouts@).index_of_first(self.spec_default_layout())
                    is None,
            },
    {
        let ghost key = |layout: AnyLayout| layout.spec_name();
        let mut layouts_stack = Stack::from(layouts);
        let default_layout = self.default_layout;
        let is_default = |layout: &AnyLayout| -> (accepted: bool)
            ensures
                accepted == (layout.spec_name() == default_layout@),
            { same_name(layout.name(), default_layout.as_str()) };
        let found = layouts_stack.focus(&is_default);
        match found {
            Ok(_) => {
                proof {
                    let index = choose|index: int|
                        is_first_match(&is_default, layouts@, index) && layouts_stack@
                            == StackView::from_seq(layouts@).focus_at(index);
                    lemma_first_match_by_key(&is_default, layouts@, key, default_layout@, index);
                }
                Ok(
                    Group {
                        name: self.name,
                        active: false,
                        stack: Stack::new(),
                        layouts: layouts_stack,
                        viewport: Viewport::default(),
                    },
                )
            },
            Err(error) => {
                proof {
                    lemma_no_match_by_key(&is_default, layouts@, key, default_layout@);
                }
                Err(error)
            },
        }
    }
}

/// A workspace: a stack of windows, the layouts to show them with, and the
/// viewport to show them in.
#[derive(Debug)]
pub struct Group {
    name: String,
    active: bool,
    stack: Stack<WindowId>,
    layouts: Stack<AnyLayout>,
    viewport: Viewport,
}

impl View for Group {
    type V = GroupView;

    closed spec fn view(&self) -> GroupView {
        GroupView {
            name: self.name@,
            active: self.active,
            windows: self.stack@,
            layouts: self.layouts@,
            viewport: self.viewport,
        }
    }
}

impl Group {
    pub open spec fn wf(&self) -> bool {
        self@.wf()
    }

    pub fn name(&self) -> (name: &str)
        ensures
            name@ == self@.name,
    {
        self.name.as_str()
    }

    /// Whether the group's windows are the ones on the screen.
    pub fn is_active(&self) -> (active: bool)
        ensures
            active == self@.active,
    {
        self.active
    }

    /// The viewport that the group last was given.
    pub fn viewport(&self) -> (viewport: Viewport)
        ensures
            viewport == self@.viewport,
    {
        self.viewport
    }

    /// The focused window of the group, if it has one.
    pub fn focused(&self) -> (focused: Option<WindowId>)
        requires
            self.wf(),
        ensures
            focused == self@.windows.focused(),
    {
        match self.stack.focused() {
            Some(window_id) => Some(*window_id),
            None => None,
        }
    }

    /// The windows of the group, in order.
    pub fn windows(&self) -> (windows: Vec<WindowId>)
        ensures
            windows@ == self@.windows.items,
    {
        let elements = self.stack.iter();
        let mut windows: Vec<WindowId> = Vec::new();
        let mut index: usize = 0;
        while index < elements.len()
            invariant
                index <= elements@.len(),
                elements@.len() == self.stack@.len(),
                forall|i: int|
                    0 <= i < self.stack@.len() ==> *#[trigger] elements@[i]
                        == self.stack@.items[i],
                windows@ == self.stack@.items.take(index as int),
            decreases elements@.len() - index,
        {
            windows.push(*elements[index]);
            index = index + 1;
            assert(windows@ =~= self.stack@.items.take(index as int));
        }
        assert(self.stack@.items.take(self.stack@.len() as int) =~= self.stack@.items);
        windows
    }

    /// Makes the group the one on the screen, within `viewport`.
    pub fn activate(&mut self, viewport: Viewport) -> (requests: Vec<Request>)
        requires
            old(self).wf(),
        ensures
            final(self).wf(),
            final(self)@ == old(self)@.activate(viewport),
            requests@ == final(self)@.layout_pass(),
    {
        self.active = true;
        self.viewport = viewport;
        self.perform_layout()
    }

    pub fn update_viewport(&mut self, viewport: Viewport) -> (requests: Vec<Request>)
        requires
            old(self).wf(),
        ensures
            final(self).wf(),
            final(self)@ == old(self)@.update_viewport(viewport),
            requests@ == final(self)@.layout_pass(),
    {
        self.viewport = viewport;
        self.perform_layout()
    }

    /// Takes the group off the screen: each of its windows is hidden, in order.
    pub fn deactivate(&mut self) -> (requests: Vec<Request>)
        requires
            old(self).wf(),
        ensures
            final(self).wf(),
            final(self)@ == old(self)@.deactivate(),
            requests@ == GroupView::hide_all(old(self)@.windows.items),
    {
        let mut requests: Vec<Request> = Vec::new();
        let windows = self.stack.iter();
        let mut index: usize = 0;
        assert(self.stack@.items.take(0) =~= Seq::<WindowId>::empty());
        while index < windows.len()
            invariant
                index <= windows@.len(),
                windows@.len() == self.stack@.len(),
                forall|i: int|
                    0 <= i < self.stack@.len() ==> *#[trigger] windows@[i] == self.stack@.items[i],
                requests@ == GroupView::hide_all(self.stack@.items.take(index as int)),
            decreases windows@.len() - index,
        {
            let window_id = *windows[index];
            proof {
                let next = self.stack@.items.take(index + 1);
                assert(next.drop_last() =~= self.stack@.items.take(index as int));
                assert(next.last() == window_id);
            }
            push_hide_requests(&mut requests, window_id);
            index = index + 1;
        }
        assert(self.stack@.items.take(self.stack@.len() as int) =~= self.stack@.items);
        self.active = false;
        requests
    }

    /// Runs a layout pass: while the group is active, the layout in use arranges
    /// the windows, and the driver is then told which window is focused, or that
    /// none is. An inactive group asks nothing. The group itself stays as it is.
    pub fn perform_layout(&self) -> (requests: Vec<Request>)
        requires
            self.wf(),
        ensures
            requests@ == self@.layout_pass(),
            !self@.active ==> requests@.len() == 0,
            self@.active ==> requests@.len() > 0 && requests@.last() == self@.focus_request(),
            self@.active ==> requests@.drop_last() == self@.arrangement(),
            forall|before: Option<WindowId>| #[trigger]
                focus_told(before, requests@) == if self@.active {
                    self@.windows.focused()
                } else {
                    before
                },
    {
        let mut requests: Vec<Request> = Vec::new();
        if !self.active {
            return requests;
        }
        if let Some(layout) = self.layouts.focused() {
            if layout.can_layout(&self.viewport, &self.stack) {
                requests = layout.layout(&self.viewport, &self.stack);
            }
        }
        // Tell X to focus the focused window for this group, or to unset
        // it's focus if we have no windows.
        match self.stack.focused() {
            Some(window_id) => requests.push(Request::FocusWindow(*window_id)),
            None => requests.push(Request::FocusNothing),
        }
        assert(requests@.drop_last() =~= self@.arrangement());
        requests
    }

    /// Adds a window at the end of the group and focuses it.
    pub fn add_window(&mut self, window_id: WindowId) -> (requests: Vec<Request>)
        requires
            old(self).wf(),
        ensures
            final(self).wf(),
            final(self)@ == old(self)@.with_windows(old(self)@.windows.push(window_id)),
            requests@ == final(self)@.layout_pass(),
    {
        self.stack.push(window_id);
        self.perform_layout()
    }

    /// Removes the first occurrence of a window from the group and hides it.
    /// Does nothing where the group does not hold the window.
    pub fn remove_window(&mut self, window_id: &WindowId) -> (removed: (
        Option<WindowId>,
        Vec<Request>,
    ))
        requires
            old(self).wf(),
        ensures
            final(self).wf(),
            final(self)@ == old(self)@.remove_window(*window_id),
            removed.0 == if old(self)@.contains(*window_id) {
                Some(*window_id)
            } else {
                None
            },
            removed.1@ == if old(self)@.contains(*window_id) {
                final(self)@.layout_pass() + hide_requests(*window_id)
            } else {
                Seq::empty()
            },
    {
        let ghost key = |window: WindowId| window;
        let ghost items = self.stack@.items;
        assert(items.map_values(key) =~= items);
        proof {
            items.index_of_first_ensures(*window_id);
        }
        let is_window = |window: &WindowId| -> (accepted: bool)
            ensures
                accepted == (*window == *window_id),
            { *window == *window_id };
        let found = self.stack.remove(&is_window);
        match found {
            Ok(window) => {
                proof {
                    let index = choose|index: int|
                        is_first_match(&is_window, items, index) && window == items[index]
                            && self.stack@ == old(self).stack@.remove_at(index);
                    lemma_first_match_by_key(&is_window, items, key, *window_id, index);
                }
                let mut requests = self.perform_layout();
                push_hide_requests(&mut requests, window);
                (Some(window), requests)
            },
            Err(_) => {
                proof {
                    lemma_no_match_by_key(&is_window, items, key, *window_id);
                }
                (None, Vec::new())
            },
        }
    }

    /// Removes the focused window from the group, if there is one, and hides it.
    pub fn remove_focused(&mut self) -> (removed: (Option<WindowId>, Vec<Request>))
        requires
            old(self).wf(),
        ensures
            final(self).wf(),
            final(self)@ == old(self)@.with_windows(old(self)@.windows.remove_focused()),
            removed.0 == old(self)@.windows.focused(),
            removed.1@ == match old(self)@.windows.focused() {
                Some(window) => final(self)@.layout_pass() + hide_requests(window),
                None => final(self)@.layout_pass(),
            },
    {
        let removed = self.stack.remove_focused();
        let mut requests = self.perform_layout();
        match removed {
            Some(window) => {
                push_hide_requests(&mut requests, window);
            },
            None => {
                assert(requests@ + Seq::<Request>::empty() =~= requests@);
            },
        }
        (removed, requests)
    }

    pub fn contains(&self, window_id: &WindowId) -> (held: bool)
        ensures
            held == self@.contains(*window_id),
    {
        let windows = self.stack.iter();
        let mut index: usize = 0;
        while index < windows.len()
            invariant
                index <= windows@.len(),
                windows@.len() == self.stack@.len(),
                forall|i: int|
                    0 <= i < self.stack@.len() ==> *#[trigger] windows@[i] == self.stack@.items[i],
                forall|i: int| 0 <= i < index ==> self.stack@.items[i] != *window_id,
            decreases windows@.len() - index,
        {
            if *windows[index] == *window_id {
                assert(self.stack@.items[index as int] == *window_id);
                return true;
            }
            index = index + 1;
        }
        false
    }

    /// Focuses the first occurrence of a window. Does nothing where the group
    /// does not hold the window.
    pub fn focus(&mut self, window_id: &WindowId) -> (requests: Vec<Request>)
        requires
            old(self).wf(),
        ensures
            final(self).wf(),
            final(self)@ == old(self)@.focus(*window_id),
            requests@ == if old(self)@.contains(*window_id) {
                final(self)@.layout_pass()
            } else {
                Seq::empty()
            },
    {
        let ghost key = |window: WindowId| window;
        let ghost items = self.stack@.items;
        assert(items.map_values(key) =~= items);
        proof {
            items.index_of_first_ensures(*window_id);
        }
        let is_window = |window: &WindowId| -> (accepted: bool)
            ensures
                accepted == (*window == *window_id),
            { *window == *window_id };
        let found = self.stack.focus(&is_window);
        match found {
            Ok(_) => {
                proof {
                    let index = choose|index: int|
                        is_first_match(&is_window, items, index) && self.stack@
                            == old(self).stack@.focus_at(index);
                    lemma_first_match_by_key(&is_window, items, key, *window_id, index);
                }
                self.perform_layout()
            },
            Err(_) => {
                proof {
                    lemma_no_match_by_key(&is_window, items, key, *window_id);
                }
                Vec::new()
            },
        }
    }

    /// Asks for the focused window to be closed, if there is one.
    pub fn close_focused(&self) -> (requests: Vec<Request>)
        requires
            self.wf(),
        ensures
            requests@ == match self@.windows.focused() {
                Some(window) => seq![Request::CloseWindow(window)],
                None => Seq::empty(),
            },
    {
        let mut requests: Vec<Request> = Vec::new();
        if let Some(window_id) = self.stack.focused() {
            requests.push(Request::CloseWindow(*window_id));
        }
        requests
    }

    pub fn focus_next(&mut self) -> (requests: Vec<Request>)
        requires
            old(self).wf(),
        ensures
            final(self).wf(),
            final(self)@ == old(self)@.with_windows(old(self)@.windows.focus_next()),
            requests@ == final(self)@.layout_pass(),
    {
        self.stack.focus_next();
        self.perform_layout()
    }

    pub fn focus_previous(&mut self) -> (requests: Vec<Request>)
        requires
            old(self).wf(),
        ensures
            final(self).wf(),
            final(self)@ == old(self)@.with_windows(old(self)@.windows.focus_previous()),
            requests@ == final(self)@.layout_pass(),
    {
        self.stack.focus_previous();
        self.perform_layout()
    }

    pub fn shuffle_next(&mut self) -> (requests: Vec<Request>)
        requires
            old(self).wf(),
        ensures
            final(self).wf(),
            final(self)@ == old(self)@.with_windows(old(self)@.windows.shuffle_next()),
            requests@ == final(self)@.layout_pass(),
    {
        proof {
            if self@.windows.len() > 0 {
                self@.windows.lemma_move_focused(self@.windows.next_index());
            }
        }
        self.stack.shuffle_next();
        self.perform_layout()
    }

    pub fn shuffle_previous(&mut self) -> (requests: Vec<Request>)
        requires
            old(self).wf(),
        ensures
            final(self).wf(),
            final(self)@ == old(self)@.with_windows(old(self)@.windows.shuffle_previous()),
            requests@ == final(self)@.layout_pass(),
    {
        self.stack.shuffle_previous();
        self.perform_layout()
    }

    /// Puts the next layout in use.
    pub fn layout_next(&mut self) -> (requests: Vec<Request>)
        requires
            old(self).wf(),
        ensures
            final(self).wf(),
            final(self)@ == old(self)@.with_layouts(old(self)@.layouts.focus_next()),
            requests@ == final(self)@.layout_pass(),
    {
        self.layouts.focus_next();
        self.perform_layout()
    }

    /// Puts the previous layout in use.
    pub fn layout_previous(&mut self) -> (requests: Vec<Request>)
        requires
            old(self).wf(),
        ensures
            final(self).wf(),
            final(self)@ == old(self)@.with_layouts(old(self)@.layouts.focus_previous()),
            requests@ == final(self)@.layout_pass(),
    {
        self.layouts.focus_previous();
        self.perform_layout()
    }
}

} // verus!
