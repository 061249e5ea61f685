//! The workspace manager: the groups, the screen and the key table, and what
//! becomes of them when the display reports an event.

use crate::cmd::Command;
use crate::errors::Error;
use crate::groups::{layout_names, Group, GroupBuilder};
use crate::keys::{KeyCombo, KeyHandlers};
use crate::layout::{clone_layouts, AnyLayout};
use crate::names::same_name;
use crate::screen::{Screen, Viewport};
use crate::stack::{is_first_match, lemma_first_match_by_key, lemma_no_match_by_key};
use crate::stack::{Stack, StackView};
use crate::x::{focus_told, Event, Request, StrutPartial, WindowId, WindowType};
use vstd::prelude::*;

pub mod laws;
pub mod model;

pub use self::model::LantaView;

use self::laws::{lemma_focus_told_concat, lemma_index_of_first, lemma_initial};
use self::laws::{lemma_layout_pass_tells_focus, lemma_manage_all, lemma_manage_all_keeps_root};
use self::laws::{lemma_manage_keeps_activity, lemma_manage_window};
use self::laws::{lemma_move_focused_to_group, lemma_release, lemma_start, lemma_switch_group};
use self::laws::{lemma_switch_group_turned, lemma_take_focused, lemma_unmanage_window};
use self::laws::lemma_with_group_keeps_wf;
use self::model::{buildable, built_groups, group_names, group_views, holders};

verus! {

/// What the driver read of a window before the manager takes it up.
#[derive(Debug)]
pub struct WindowProperties {
    /// The kinds that the window claims to be of.
    pub types: Vec<WindowType>,
    /// The space that the window reserves at the edges of the screen.
    pub strut_partial: Option<StrutPartial>,
}

impl WindowProperties {
    /// A window is a dock where it claims that kind among its kinds.
    pub open spec fn spec_is_dock(&self) -> bool {
        self.types@.contains(WindowType::Dock)
    }

    #[verifier::when_used_as_spec(spec_is_dock)]
    pub fn is_dock(&self) -> (dock: bool)
        ensures
            dock == self.spec_is_dock(),
    {
        let mut index: usize = 0;
        while index < self.types.len()
            invariant
                index <= self.types@.len(),
                forall|i: int| 0 <= i < index ==> self.types@[i] != WindowType::Dock,
            decreases self.types@.len() - index,
        {
            if self.types[index] == WindowType::Dock {
                return true;
            }
            index = index + 1;
        }
        false
    }
}

/// What a command or an event handler did: the requests to the driver, and
/// the failure to log, if there was one.
#[derive(Debug)]
pub struct Outcome {
    pub requests: Vec<Request>,
    pub error: Option<Error>,
}

/// The desktops as the manager publishes them: one for each group.
#[derive(Debug)]
pub struct Desktops {
    /// The names of the groups, in order.
    pub names: Vec<String>,
    /// The number of groups.
    pub number: u32,
    /// The position of the active group.
    pub current: u32,
}

/// The workspace manager.
pub struct Lanta {
    keys: KeyHandlers,
    groups: Stack<Group>,
    screen: Screen,
    root_width: u32,
    root_height: u32,
}

impl View for Lanta {
    type V = LantaView;

    closed spec fn view(&self) -> LantaView {
        LantaView {
            keys: self.keys@,
            groups: StackView {
                items: group_views(self.groups@.items),
                focus: self.groups@.focus,
            },
            docks: self.screen@,
            root_width: self.root_width,
            root_height: self.root_height,
        }
    }
}

impl Lanta {
    pub open spec fn inv(&self) -> bool {
        self@.inv()
    }

    pub open spec fn wf(&self) -> bool {
        self@.wf()
    }

    /// The key table.
    pub fn keys(&self) -> (keys: &KeyHandlers)
        ensures
            keys@ == self@.keys,
    {
        &self.keys
    }

    /// The active group.
    pub fn group(&self) -> (group: &Group)
        requires
            self.inv(),
        ensures
            group@ == self@.active(),
            group.wf(),
    {
        match self.groups.focused() {
            Some(group) => {
                assert(group@ == group_views(self.groups@.items)[self.groups@.focus]);
                group
            },
            None => vstd::pervasive::unreached(),
        }
    }

    /// Moves the focus to the next window of the active group.
    pub fn focus_next(&mut self) -> (requests: Vec<Request>)
        requires
            old(self).wf(),
        ensures
            final(self).wf(),
            final(self)@ == old(self)@.with_active(
                old(self)@.active().with_windows(old(self)@.active().windows.focus_next()),
            ),
            requests@ == final(self)@.active().layout_pass(),
            focus_told(old(self)@.focused(), requests@) == final(self)@.focused(),
    {
        let ghost before = self@;
        let mut requests: Vec<Request> = Vec::new();
        match self.groups.focused_mut() {
            Some(group) => {
                assert(group@ == before.active());
                requests = group.focus_next();
            },
            None => {},
        }
        proof {
            let group = before.active().with_windows(before.active().windows.focus_next());
            assert(self@.groups.items =~= before.groups.items.update(before.groups.focus, group));
            assert(self@ == before.with_active(group));
            lemma_with_group_keeps_wf(before, before.groups.focus, group);
            lemma_layout_pass_tells_focus(group, before.focused());
        }
        requests
    }

    /// Moves the focus to the previous window of the active group.
    pub fn focus_previous(&mut self) -> (requests: Vec<Request>)
        requires
            old(self).wf(),
        ensures
            final(self).wf(),
            final(self)@ == old(self)@.with_active(
                old(self)@.active().with_windows(old(self)@.active().windows.focus_previous()),
            ),
            requests@ == final(self)@.active().layout_pass(),
            focus_told(old(self)@.focused(), requests@) == final(self)@.focused(),
    {
        let ghost before = self@;
        let mut requests: Vec<Request> = Vec::new();
        match self.groups.focused_mut() {
            Some(group) => {
                assert(group@ == before.active());
                requests = group.focus_previous();
            },
            None => {},
        }
        proof {
            let active = before.active();
            let group = active.with_windows(active.windows.focus_previous());
            assert(self@.groups.items =~= before.groups.items.update(before.groups.focus, group));
            assert(self@ == before.with_active(group));
            lemma_with_group_keeps_wf(before, before.groups.focus, group);
            lemma_layout_pass_tells_focus(group, before.focused());
        }
        requests
    }

    /// Moves the focused window of the active group one position on.
    pub fn shuffle_next(&mut self) -> (requests: Vec<Request>)
        requires
            old(self).wf(),
        ensures
            final(self).wf(),
            final(self)@ == old(self)@.with_active(
                old(self)@.active().with_windows(old(self)@.active().windows.shuffle_next()),
            ),
            requests@ == final(self)@.active().layout_pass(),
            focus_told(old(self)@.focused(), requests@) == final(self)@.focused(),
    {
        let ghost before = self@;
        let mut requests: Vec<Request> = Vec::new();
        match self.groups.focused_mut() {
            Some(group) => {
                assert(group@ == before.active());
                requests = group.shuffle_next();
            },
            None => {},
        }
        proof {
            let active = before.active();
            let group = active.with_windows(active.windows.shuffle_next());
            if active.windows.len() > 0 {
                active.windows.lemma_move_focused(active.windows.next_index());
            }
            assert(self@.groups.items =~= before.groups.items.update(before.groups.focus, group));
            assert(self@ == before.with_active(group));
            lemma_with_group_keeps_wf(before, before.groups.focus, group);
            lemma_layout_pass_tells_focus(group, before.focused());
        }
        requests
    }

    /// Moves the focused window of the active group one position back.
    pub fn shuffle_previous(&mut self) -> (requests: Vec<Request>)
        requires
            old(self).wf(),
        ensures
            final(self).wf(),
            final(self)@ == old(self)@.with_active(
                old(self)@.active().with_windows(old(self)@.active().windows.shuffle_previous()),
            ),
            requests@ == final(self)@.active().layout_pass(),
            focus_told(old(self)@.focused(), requests@) == final(self)@.focused(),
    {
        let ghost before = self@;
        let mut requests: Vec<Request> = Vec::new();
        match self.groups.focused_mut() {
            Some(group) => {
                assert(group@ == before.active());
                requests = group.shuffle_previous();
            },
            None => {},
        }
        proof {
            let active = before.active();
            let group = active.with_windows(active.windows.shuffle_previous());
            if active.windows.len() > 0 {
                active.windows.lemma_move_focused(active.windows.previous_index());
            }
            assert(self@.groups.items =~= before.groups.items.update(before.groups.focus, group));
            assert(self@ == before.with_active(group));
            lemma_with_group_keeps_wf(before, before.groups.focus, group);
            lemma_layout_pass_tells_focus(group, before.focused());
        }
        requests
    }

    /// Puts the next layout of the active group in use.
    pub fn layout_next(&mut self) -> (requests: Vec<Request>)
        requires
            old(self).wf(),
        ensures
            final(self).wf(),
            final(self)@ == old(self)@.with_active(
                old(self)@.active().with_layouts(old(self)@.active().layouts.focus_next()),
            ),
            requests@ == final(self)@.active().layout_pass(),
            focus_told(old(self)@.focused(), requests@) == final(self)@.focused(),
    {
        let ghost before = self@;
        let mut requests: Vec<Request> = Vec::new();
        match self.groups.focused_mut() {
            Some(group) => {
                assert(group@ == before.active());
                requests = group.layout_next();
            },
            None => {},
        }
        proof {
            let active = before.active();
            let group = active.with_layouts(active.layouts.focus_next());
            assert(self@.groups.items =~= before.groups.items.update(before.groups.focus, group));
            assert(self@ == before.with_active(group));
            lemma_with_group_keeps_wf(before, before.groups.focus, group);
            lemma_layout_pass_tells_focus(group, before.focused());
        }
        requests
    }

    /// Puts the previous layout of the active group in use.
    pub fn layout_previous(&mut self) -> (requests: Vec<Request>)
        requires
            old(self).wf(),
        ensures
            final(self).wf(),
            final(self)@ == old(self)@.with_active(
                old(self)@.active().with_layouts(old(self)@.active().layouts.focus_previous()),
            ),
            requests@ == final(self)@.active().layout_pass(),
            focus_told(old(self)@.focused(), requests@) == final(self)@.focused(),
    {
        let ghost before = self@;
        let mut requests: Vec<Request> = Vec::new();
        match self.groups.focused_mut() {
            Some(group) => {
                assert(group@ == before.active());
                requests = group.layout_previous();
            },
            None => {},
        }
        proof {
            let active = before.active();
            let group = active.with_layouts(active.layouts.focus_previous());
            assert(self@.groups.items =~= before.groups.items.update(before.groups.focus, group));
            assert(self@ == before.with_active(group));
            lemma_with_group_keeps_wf(before, before.groups.focus, group);
            lemma_layout_pass_tells_focus(group, before.focused());
        }
        requests
    }

    /// Asks for the focused window of the active group to be closed.
    pub fn close_focused_window(&self) -> (requests: Vec<Request>)
        requires
            self.wf(),
        ensures
            requests@ == match self@.focused() {
                Some(window) => seq![Request::CloseWindow(window)],
                None => Seq::empty(),
            },
            focus_told(self@.focused(), requests@) == self@.focused(),
    {
        let requests = self.group().close_focused();
        proof {
            reveal_with_fuel(focus_told, 2);
            assert(requests@.len() > 0 ==> requests@.drop_last() =~= Seq::<Request>::empty());
        }
        requests
    }

    /// The position of the first group that holds the window.
    fn owner_index(&self, window_id: &WindowId) -> (owner: Option<usize>)
        requires
            self.inv(),
        ensures
            match owner {
                Some(index) => self@.owner(*window_id) == Some(index as int),
                None => self@.owner(*window_id) is None,
            },
    {
        let ghost held = holders(self@.groups.items, *window_id);
        let mut index: usize = 0;
        loop
            invariant
                self.inv(),
                held == holders(self@.groups.items, *window_id),
                index <= self.groups@.len(),
                forall|j: int| 0 <= j < index ==> #[trigger] held[j] != true,
            decreases self.groups@.len() - index,
        {
            match self.groups.get(index) {
                Some(group) => {
                    assert(group@ == self@.groups.items[index as int]);
                    if group.contains(window_id) {
                        proof {
                            lemma_index_of_first(held, true, index as int);
                        }
                        return Some(index);
                    }
                    assert(held[index as int] != true);
                },
                None => {
                    proof {
                        lemma_index_of_first(held, true, index as int);
                    }
                    return None;
                },
            }
            index = index + 1;
        }
    }

    /// Returns whether the window is a member of any group.
    pub fn is_window_managed(&self, window_id: &WindowId) -> (managed: bool)
        requires
            self.inv(),
        ensures
            managed == self@.is_managed(*window_id),
    {
        proof {
            holders(self@.groups.items, *window_id).index_of_first_ensures(true);
        }
        self.owner_index(window_id).is_some()
    }

    /// The area that the docks leave of the root window, as far as the manager
    /// knows its size.
    fn viewport(&self) -> (viewport: Viewport)
        requires
            self.inv(),
        ensures
            viewport == self@.usable(),
    {
        if self.screen.fits(self.root_width, self.root_height) {
            self.screen.viewport(self.root_width, self.root_height)
        } else {
            self.group().viewport()
        }
    }

    /// Takes note of the root window's size and gives the active group the
    /// area that the docks leave of it.
    fn refresh(&mut self, root_width: u32, root_height: u32) -> (requests: Vec<Request>)
        requires
            old(self).inv(),
        ensures
            final(self).inv(),
            final(self)@ == old(self)@.refresh(root_width, root_height),
            final(self)@.viewport_current(),
            old(self)@.one_active() ==> final(self)@.one_active(),
            requests@ == final(self)@.active().layout_pass(),
    {
        self.root_width = root_width;
        self.root_height = root_height;
        let ghost rooted = self@;
        assert(rooted == old(self)@.with_root(root_width, root_height));
        let viewport = self.viewport();
        let mut requests: Vec<Request> = Vec::new();
        match self.groups.focused_mut() {
            Some(group) => {
                assert(group@ == rooted.active());
                requests = group.update_viewport(viewport);
            },
            None => {},
        }
        proof {
            let group = rooted.active().update_viewport(viewport);
            assert(self@.groups.items =~= rooted.groups.items.update(rooted.groups.focus, group));
            assert(self@ == rooted.with_active(group));
            lemma_with_group_keeps_wf(rooted, rooted.groups.focus, group);
        }
        requests
    }

    /// Takes up a window of which the driver read `properties`, unless a group
    /// holds it already: a dock goes to the screen, any other window to the
    /// active group.
    pub fn manage_window(
        &mut self,
        window_id: WindowId,
        properties: &WindowProperties,
        root_width: u32,
        root_height: u32,
    ) -> (requests: Vec<Request>)
        requires
            old(self).inv(),
        ensures
            final(self).inv(),
            old(self).wf() ==> final(self).wf(),
            final(self)@ == old(self)@.manage_window(
                window_id,
                properties.is_dock(),
                properties.strut_partial,
                root_width,
                root_height,
            ),
            requests@ == old(self)@.manage_requests(
                window_id,
                properties.is_dock(),
                properties.strut_partial,
                root_width,
                root_height,
            ),
            old(self).wf() ==> focus_told(old(self)@.focused(), requests@) == final(self)@.focused(),
    {
        let ghost before = self@;
        let mut requests: Vec<Request> = Vec::new();
        proof {
            lemma_manage_window(
                before,
                window_id,
                properties.is_dock(),
                properties.strut_partial,
                root_width,
                root_height,
            );
            lemma_manage_keeps_activity(
                before,
                window_id,
                properties.is_dock(),
                properties.strut_partial,
                root_width,
                root_height,
            );
        }
        // If we are already managing the window, then do nothing. We do not
        // want the window to end up in two groups at once.
        if self.is_window_managed(&window_id) {
            return requests;
        }
        let dock = properties.is_dock();
        requests.push(Request::EnableWindowKeyEvents(window_id));
        if dock {
            requests.push(Request::MapWindow(window_id));
            self.screen.add_dock(window_id, properties.strut_partial);
            assert(self@ == before.dock(window_id, properties.strut_partial));
            let mut pass = self.refresh(root_width, root_height);
            requests.append(&mut pass);
        } else {
            requests.push(Request::EnableWindowTracking(window_id));
            let mut pass: Vec<Request> = Vec::new();
            match self.groups.focused_mut() {
                Some(group) => {
                    assert(group@ == before.active());
                    pass = group.add_window(window_id);
                },
                None => {},
            }
            requests.append(&mut pass);
            assert(self@.groups.items =~= before.adopt(window_id).groups.items);
        }
        assert(requests@ =~= before.manage_requests(
            window_id,
            properties.is_dock(),
            properties.strut_partial,
            root_width,
            root_height,
        ));
        requests
    }

    /// Lets go of a window: the group that holds it, if one does, holds it no
    /// more, it is no dock any more, and the viewport is refreshed.
    pub fn unmanage_window(
        &mut self,
        window_id: &WindowId,
        root_width: u32,
        root_height: u32,
    ) -> (requests: Vec<Request>)
        requires
            old(self).inv(),
        ensures
            final(self).inv(),
            old(self).wf() ==> final(self).wf(),
            final(self)@ == old(self)@.unmanage_window(*window_id, root_width, root_height),
            requests@ == old(self)@.unmanage_requests(*window_id, root_width, root_height),
            old(self).wf() ==> focus_told(old(self)@.focused(), requests@) == final(self)@.focused(),
    {
        let ghost before = self@;
        let mut requests: Vec<Request> = Vec::new();
        proof {
            lemma_release(before, *window_id);
            lemma_unmanage_window(before, *window_id, root_width, root_height);
            holders(before.groups.items, *window_id).index_of_first_ensures(true);
        }
        // Remove the window from whichever Group it is in. Special case for
        // docks which aren't in any group.
        if let Some(index) = self.owner_index(window_id) {
            match self.groups.get_mut(index) {
                Some(group) => {
                    assert(group@ == before.groups.items[index as int]);
                    let removed = group.remove_window(window_id);
                    requests = removed.1;
                },
                None => {},
            }
            assert(self@.groups.items =~= before.release(*window_id).groups.items);
        }
        assert(self@ == before.release(*window_id));
        self.screen.remove_dock(window_id);
        assert(self@ == before.release(*window_id).undock(*window_id));
        // The viewport may have changed.
        let mut pass = self.refresh(root_width, root_height);
        requests.append(&mut pass);
        requests
    }

    /// The position of the first group of the name.
    fn named_index(&self, name: &str) -> (found: Option<usize>)
        requires
            self.inv(),
        ensures
            match found {
                Some(index) => self@.named(name@) == Some(index as int),
                None => self@.named(name@) is None,
            },
    {
        let ghost names = group_names(self@.groups.items);
        let mut index: usize = 0;
        loop
            invariant
                self.inv(),
                names == group_names(self@.groups.items),
                index <= self.groups@.len(),
                forall|j: int| 0 <= j < index ==> #[trigger] names[j] != name@,
            decreases self.groups@.len() - index,
        {
            match self.groups.get(index) {
                Some(group) => {
                    assert(group@ == self@.groups.items[index as int]);
                    if same_name(group.name(), name) {
                        proof {
                            lemma_index_of_first(names, name@, index as int);
                        }
                        return Some(index);
                    }
                    assert(names[index as int] != name@);
                },
                None => {
                    proof {
                        lemma_index_of_first(names, name@, index as int);
                    }
                    return None;
                },
            }
            index = index + 1;
        }
    }

    /// Switches to the first group of the name. Does nothing where that is the
    /// name of the active group; fails, and changes nothing, where no group
    /// has the name.
    pub fn switch_group(&mut self, name: &str, root_width: u32, root_height: u32) -> (outcome:
        Outcome)
        requires
            old(self).wf(),
        ensures
            final(self).wf(),
            final(self)@ == old(self)@.switch_group(name@, root_width, root_height),
            outcome.requests@ == old(self)@.switch_requests(name@, root_width, root_height),
            outcome.error == if old(self)@.active().name != name@ && old(self)@.named(name@)
                is None {
                Some(Error::UnknownGroup)
            } else {
                None
            },
            focus_told(old(self)@.focused(), outcome.requests@) == final(self)@.focused(),
    {
        let ghost before = self@;
        proof {
            lemma_switch_group(before, name@, root_width, root_height);
        }
        // If we're already on this group, do nothing.
        if same_name(self.group().name(), name) {
            return Outcome { requests: Vec::new(), error: None };
        }
        if self.named_index(name).is_none() {
            return Outcome { requests: Vec::new(), error: Some(Error::UnknownGroup) };
        }
        let ghost index = before.named(name@)->0;
        let mut requests: Vec<Request> = Vec::new();
        match self.groups.focused_mut() {
            Some(group) => {
                assert(group@ == before.active());
                requests = group.deactivate();
            },
            None => {},
        }
        let ghost left = self@;
        assert(left.groups.items =~= before.with_active(
            before.active().deactivate(),
        ).groups.items);
        let ghost key = |group: Group| group@.name;
        let ghost held = self.groups@;
        let is_named = |group: &Group| -> (accepted: bool)
            ensures
                accepted == (group@.name == name@),
            { same_name(group.name(), name) };
        let found = self.groups.focus(&is_named);
        proof {
            assert(held.items.map_values(key) =~= group_names(before.groups.items));
            match found {
                Ok(_) => {
                    let at = choose|at: int|
                        is_first_match(&is_named, held.items, at) && self.groups@ == held.focus_at(
                            at,
                        );
                    lemma_first_match_by_key(&is_named, held.items, key, name@, at);
                },
                Err(_) => {
                    lemma_no_match_by_key(&is_named, held.items, key, name@);
                },
            }
        }
        self.root_width = root_width;
        self.root_height = root_height;
        let ghost turned = self@;
        assert(turned == (LantaView { groups: left.groups.focus_at(index), ..left }).with_root(
            root_width,
            root_height,
        ));
        proof {
            lemma_switch_group_turned(before, name@, root_width, root_height);
        }
        let viewport = self.viewport();
        let mut pass: Vec<Request> = Vec::new();
        match self.groups.focused_mut() {
            Some(group) => {
                assert(group@ == turned.active());
                pass = group.activate(viewport);
            },
            None => {},
        }
        requests.append(&mut pass);
        requests.push(Request::UpdateEwmhDesktops);
        assert(self@.groups.items =~= before.switch_group(
            name@,
            root_width,
            root_height,
        ).groups.items);
        Outcome { requests, error: None }
    }

    /// Move the focused window from the active group to another named group.
    ///
    /// If the other named group does not exist, then the window is
    /// (unfortunately) lost, and the outcome says so.
    pub fn move_focused_to_group(&mut self, name: &str) -> (outcome: Outcome)
        requires
            old(self).wf(),
        ensures
            final(self).wf(),
            final(self)@ == old(self)@.move_focused_to_group(name@),
            outcome.requests@ == old(self)@.move_requests(name@),
            outcome.error == if old(self)@.active().name != name@ && old(self)@.named(name@)
                is None {
                Some(Error::UnknownGroup)
            } else {
                None
            },
            focus_told(old(self)@.focused(), outcome.requests@) == final(self)@.focused(),
    {
        let ghost before = self@;
        proof {
            lemma_move_focused_to_group(before, name@);
            lemma_take_focused(before);
        }
        // If the group is currently active, then do nothing. This avoids flicker as we
        // unmap/remap.
        if same_name(self.group().name(), name) {
            return Outcome { requests: Vec::new(), error: None };
        }
        let mut requests: Vec<Request> = Vec::new();
        let mut removed: Option<WindowId> = None;
        match self.groups.focused_mut() {
            Some(group) => {
                assert(group@ == before.active());
                let taken = group.remove_focused();
                removed = taken.0;
                requests = taken.1;
            },
            None => {},
        }
        let ghost taken = self@;
        proof {
            assert(taken.groups.items =~= before.take_focused().groups.items);
            assert(group_names(taken.groups.items) =~= group_names(before.groups.items));
            group_names(before.groups.items).index_of_first_ensures(name@);
        }
        let error = match self.named_index(name) {
            Some(index) => {
                if let Some(window) = removed {
                    let mut pass: Vec<Request> = Vec::new();
                    match self.groups.get_mut(index) {
                        Some(group) => {
                            assert(group@ == taken.groups.items[index as int]);
                            pass = group.add_window(window);
                        },
                        None => {},
                    }
                    requests.append(&mut pass);
                    assert(self@.groups.items =~= before.move_focused_to_group(
                        name@,
                    ).groups.items);
                }
                None
            },
            None => {
                // It would be nice to put the window back in its group (or avoid taking it out
                // of its group until we've checked the new group exists).
                Some(Error::UnknownGroup)
            },
        };
        assert(requests@ =~= before.move_requests(name@));
        Outcome { requests, error }
    }

    /// Focuses a window of the active group. Does nothing where the active
    /// group does not hold the window.
    pub fn focus_window(&mut self, window_id: &WindowId) -> (requests: Vec<Request>)
        requires
            old(self).wf(),
        ensures
            final(self).wf(),
            final(self)@ == old(self)@.focus_window(*window_id),
            requests@ == old(self)@.focus_window_requests(*window_id),
            focus_told(old(self)@.focused(), requests@) == final(self)@.focused(),
    {
        let ghost before = self@;
        let mut requests: Vec<Request> = Vec::new();
        match self.groups.focused_mut() {
            Some(group) => {
                assert(group@ == before.active());
                requests = group.focus(window_id);
            },
            None => {},
        }
        proof {
            let active = before.active();
            let group = active.focus(*window_id);
            assert(self@.groups.items =~= before.groups.items.update(before.groups.focus, group));
            assert(self@ == before.with_active(group));
            lemma_with_group_keeps_wf(before, before.groups.focus, group);
            lemma_layout_pass_tells_focus(group, before.focused());
            active.windows.items.index_of_first_ensures(*window_id);
        }
        requests
    }

    /// A window asks to be mapped.
    pub fn on_map_request(
        &mut self,
        window_id: WindowId,
        properties: &WindowProperties,
        root_width: u32,
        root_height: u32,
    ) -> (requests: Vec<Request>)
        requires
            old(self).wf(),
        ensures
            final(self).wf(),
            final(self)@ == old(self)@.on_map_request(
                window_id,
                properties.is_dock(),
                properties.strut_partial,
                root_width,
                root_height,
            ),
            requests@ == old(self)@.on_map_request_requests(
                window_id,
                properties.is_dock(),
                properties.strut_partial,
                root_width,
                root_height,
            ),
            focus_told(old(self)@.focused(), requests@) == final(self)@.focused(),
    {
        if !self.is_window_managed(&window_id) {
            // If the window isn't in any group, then add it to the current group.
            // (This will have the side-effect of mapping the window, as new windows are focused
            // and focused windows are mapped).
            self.manage_window(window_id, properties, root_width, root_height)
        } else if self.group().contains(&window_id) {
            // Otherwise, if the window is in the active group, focus it. The application probably
            // wants us to make it prominent.
            self.focus_window(&window_id)
        } else {
            proof {
                self@.active().windows.items.index_of_first_ensures(window_id);
                assert(self@.focus_window(window_id).groups.items =~= self@.groups.items);
            }
            Vec::new()
        }
    }

    /// A window was unmapped by its application.
    pub fn on_unmap_notify(&mut self, window_id: &WindowId, root_width: u32, root_height: u32) -> (requests:
        Vec<Request>)
        requires
            old(self).wf(),
        ensures
            final(self).wf(),
            final(self)@ == old(self)@.unmanage_window(*window_id, root_width, root_height),
            requests@ == old(self)@.unmanage_requests(*window_id, root_width, root_height),
            focus_told(old(self)@.focused(), requests@) == final(self)@.focused(),
    {
        // We only receive an unmap notify event when the window is actually
        // unmapped by its application. When our layouts unmap windows, they
        // (should) do it by disabling event tracking first.
        self.unmanage_window(window_id, root_width, root_height)
    }

    /// A window was destroyed.
    pub fn on_destroy_notify(&mut self, window_id: &WindowId, root_width: u32, root_height: u32) -> (requests:
        Vec<Request>)
        requires
            old(self).wf(),
        ensures
            final(self).wf(),
            final(self)@ == old(self)@.unmanage_window(*window_id, root_width, root_height),
            requests@ == old(self)@.unmanage_requests(*window_id, root_width, root_height),
            focus_told(old(self)@.focused(), requests@) == final(self)@.focused(),
    {
        self.unmanage_window(window_id, root_width, root_height)
    }

    /// The pointer entered a window.
    pub fn on_enter_notify(&mut self, window_id: &WindowId) -> (requests: Vec<Request>)
        requires
            old(self).wf(),
        ensures
            final(self).wf(),
            final(self)@ == old(self)@.focus_window(*window_id),
            requests@ == old(self)@.focus_window_requests(*window_id),
            focus_told(old(self)@.focused(), requests@) == final(self)@.focused(),
    {
        self.focus_window(window_id)
    }

    /// Runs a command that the key combination `key` is bound to.
    pub fn run_command(
        &mut self,
        command: &Command,
        key: KeyCombo,
        root_width: u32,
        root_height: u32,
    ) -> (outcome: Outcome)
        requires
            old(self).wf(),
        ensures
            final(self).wf(),
            final(self)@ == old(self)@.run_command(command@, root_width, root_height),
            outcome.requests@ == old(self)@.command_requests(
                command@,
                key,
                root_width,
                root_height,
            ),
            outcome.error == old(self)@.command_error(command@),
            focus_told(old(self)@.focused(), outcome.requests@) == final(self)@.focused(),
    {
        match command {
            Command::CloseFocusedWindow => Outcome {
                requests: self.close_focused_window(),
                error: None,
            },
            Command::FocusNext => Outcome { requests: self.focus_next(), error: None },
            Command::FocusPrevious => Outcome { requests: self.focus_previous(), error: None },
            Command::ShuffleNext => Outcome { requests: self.shuffle_next(), error: None },
            Command::ShufflePrevious => Outcome { requests: self.shuffle_previous(), error: None },
            Command::LayoutNext => Outcome { requests: self.layout_next(), error: None },
            Command::Spawn { .. } => {
                let mut requests: Vec<Request> = Vec::new();
                requests.push(Request::Spawn(key));
                proof {
                    reveal_with_fuel(focus_told, 2);
                    assert(requests@.drop_last() =~= Seq::<Request>::empty());
                }
                Outcome { requests, error: None }
            },
            Command::SwitchGroup(name) => self.switch_group(
                name.as_str(),
                root_width,
                root_height,
            ),
            Command::MoveWindowToGroup(name) => self.move_focused_to_group(name.as_str()),
        }
    }

    /// A key combination was pressed: the command bound to it is run, if one
    /// is.
    pub fn on_key_press(&mut self, key: KeyCombo, root_width: u32, root_height: u32) -> (outcome:
        Outcome)
        requires
            old(self).wf(),
        ensures
            final(self).wf(),
            final(self)@ == old(self)@.handle(
                Event::KeyPress(key),
                false,
                None,
                root_width,
                root_height,
            ),
            outcome.requests@ == old(self)@.handle_requests(
                Event::KeyPress(key),
                false,
                None,
                root_width,
                root_height,
            ),
            outcome.error == old(self)@.handle_error(Event::KeyPress(key)),
            focus_told(old(self)@.focused(), outcome.requests@) == final(self)@.focused(),
    {
        match self.keys.get(&key) {
            Some(command) => self.run_command(&command, key, root_width, root_height),
            None => Outcome { requests: Vec::new(), error: None },
        }
    }

    /// Handles an event, given what the driver read of the root window and,
    /// for a map request, of the window.
    pub fn handle(
        &mut self,
        event: Event,
        properties: &WindowProperties,
        root_width: u32,
        root_height: u32,
    ) -> (outcome: Outcome)
        requires
            old(self).wf(),
        ensures
            final(self).wf(),
            final(self)@ == old(self)@.handle(
                event,
                properties.is_dock(),
                properties.strut_partial,
                root_width,
                root_height,
            ),
            outcome.requests@ == old(self)@.handle_requests(
                event,
                properties.is_dock(),
                properties.strut_partial,
                root_width,
                root_height,
            ),
            outcome.error == old(self)@.handle_error(event),
            focus_told(old(self)@.focused(), outcome.requests@) == final(self)@.focused(),
    {
        match event {
            Event::MapRequest(window_id) => Outcome {
                requests: self.on_map_request(window_id, properties, root_width, root_height),
                error: None,
            },
            Event::UnmapNotify(window_id) => Outcome {
                requests: self.on_unmap_notify(&window_id, root_width, root_height),
                error: None,
            },
            Event::DestroyNotify(window_id) => Outcome {
                requests: self.on_destroy_notify(&window_id, root_width, root_height),
                error: None,
            },
            Event::KeyPress(key) => self.on_key_press(key, root_width, root_height),
            Event::EnterNotify(window_id) => Outcome {
                requests: self.on_enter_notify(&window_id),
                error: None,
            },
        }
    }

    /// The desktops to publish: the names of the groups in order, their number,
    /// and the position of the active group.
    pub fn ewmh_desktops(&self) -> (desktops: Desktops)
        requires
            self.inv(),
        ensures
            desktops.names@.len() == self@.groups.len(),
            forall|i: int|
                0 <= i < self@.groups.len() ==> (#[trigger] desktops.names@[i])@
                    == self@.groups.items[i].name,
            desktops.number == self@.groups.len() as u32,
            desktops.current == self@.groups.focus as u32,
    {
        let mut names: Vec<String> = Vec::new();
        let mut index: usize = 0;
        loop
            invariant
                self.inv(),
                index <= self.groups@.len(),
                names@.len() == index,
                forall|i: int|
                    0 <= i < index ==> (#[trigger] names@[i])@ == self@.groups.items[i].name,
            ensures
                index == self.groups@.len(),
                names@.len() == index,
                forall|i: int|
                    0 <= i < index ==> (#[trigger] names@[i])@ == self@.groups.items[i].name,
            decreases self.groups@.len() - index,
        {
            match self.groups.get(index) {
                Some(group) => {
                    assert(group@ == self@.groups.items[index as int]);
                    names.push(group.name().to_owned());
                },
                None => {
                    break ;
                },
            }
            index = index + 1;
        }
        let current = match self.groups.focused_index() {
            Some(current) => current,
            None => 0,
        };
        Desktops {
            names,
            number: #[verifier::truncate]
            (index as u32),
            current: #[verifier::truncate]
            (current as u32),
        }
    }

    /// Sets the manager up: builds the groups, each with its own copy of
    /// `layouts`; takes up the windows that are there already, each with what
    /// the driver read of it; makes the first group active in the area that
    /// the docks leave of the root window; and publishes the desktops.
    ///
    /// Fails where there is no group, or where a group's default layout is not
    /// among `layouts`.
    pub fn new(
        keys: KeyHandlers,
        groups: Vec<GroupBuilder>,
        layouts: &Vec<AnyLayout>,
        existing_windows: &Vec<(WindowId, WindowProperties)>,
        root_width: u32,
        root_height: u32,
    ) -> (made: Result<(Lanta, Vec<Request>), Error>)
        ensures
            match made {
                Ok((wm, requests)) => {
                    &&& groups@.len() > 0
                    &&& buildable(groups@, layouts@)
                    &&& wm.wf()
                    &&& wm@ == LantaView::initial(
                        keys@,
                        groups@,
                        layouts@,
                        root_width,
                        root_height,
                    ).manage_all(existing_windows@, root_width, root_height).start(
                        root_width,
                        root_height,
                    )
                    &&& requests@ == (LantaView::initial(
                        keys@,
                        groups@,
                        layouts@,
                        root_width,
                        root_height,
                    ).manage_all_requests(existing_windows@, root_width, root_height)
                        + wm@.active().layout_pass()).push(Request::UpdateEwmhDesktops)
                    &&& focus_told(None, requests@) == wm@.focused()
                },
                Err(Error::NoGroups) => groups@.len() == 0,
                Err(Error::UnknownLayout) => groups@.len() > 0 && !buildable(groups@, layouts@),
                Err(Error::UnknownGroup) => false,
            },
    {
        if groups.len() == 0 {
            return Err(Error::NoGroups);
        }
        let mut built: Vec<Group> = Vec::new();
        let mut index: usize = 0;
        while index < groups.len()
            invariant
                index <= groups@.len(),
                built@.len() == index,
                forall|i: int|
                    0 <= i < index ==> layout_names(layouts@).index_of_first(
                        (#[trigger] groups@[i]).spec_default_layout(),
                    ) is Some,
                forall|i: int| 0 <= i < index ==> (#[trigger] built@[i]).wf(),
                group_views(built@) =~= built_groups(groups@, layouts@).take(index as int),
            decreases groups@.len() - index,
        {
            let builder = groups[index].clone();
            match builder.build(clone_layouts(layouts)) {
                Ok(group) => {
                    built.push(group);
                },
                Err(_) => {
                    return Err(Error::UnknownLayout);
                },
            }
            index = index + 1;
        }
        let ghost initial = LantaView::initial(keys@, groups@, layouts@, root_width, root_height);
        let mut wm = Lanta {
            keys,
            groups: Stack::from(built),
            screen: Screen::new(),
            root_width,
            root_height,
        };
        proof {
            assert(built_groups(groups@, layouts@).take(groups@.len() as int) =~= built_groups(
                groups@,
                layouts@,
            ));
            assert(wm@.groups.items =~= initial.groups.items);
            lemma_initial(keys@, groups@, layouts@, root_width, root_height);
        }
        // Learn about existing top-level windows.
        let mut requests: Vec<Request> = Vec::new();
        let mut index: usize = 0;
        while index < existing_windows.len()
            invariant
                index <= existing_windows@.len(),
                initial.inv(),
                initial.none_active(),
                wm.inv(),
                wm@ == initial.manage_all(
                    existing_windows@.take(index as int),
                    root_width,
                    root_height,
                ),
                requests@ == initial.manage_all_requests(
                    existing_windows@.take(index as int),
                    root_width,
                    root_height,
                ),
            decreases existing_windows@.len() - index,
        {
            let mut managed = wm.manage_window(
                existing_windows[index].0,
                &existing_windows[index].1,
                root_width,
                root_height,
            );
            requests.append(&mut managed);
            proof {
                let next = existing_windows@.take(index + 1);
                assert(next.drop_last() =~= existing_windows@.take(index as int));
                assert(next.last() == existing_windows@[index as int]);
            }
            index = index + 1;
        }
        assert(existing_windows@.take(existing_windows@.len() as int) =~= existing_windows@);
        let ghost managed = wm@;
        let ghost head = requests@;
        proof {
            lemma_manage_all(initial, existing_windows@, root_width, root_height);
            lemma_manage_all_keeps_root(initial, existing_windows@, root_width, root_height);
            lemma_start(managed, root_width, root_height, focus_told(None, head));
            assert(managed.with_root(root_width, root_height) == managed);
        }
        let viewport = wm.viewport();
        let mut pass: Vec<Request> = Vec::new();
        match wm.groups.focused_mut() {
            Some(group) => {
                assert(group@ == managed.active());
                pass = group.activate(viewport);
            },
            None => {},
        }
        requests.append(&mut pass);
        requests.push(Request::UpdateEwmhDesktops);
        proof {
            let after = managed.start(root_width, root_height);
            assert(wm@.groups.items =~= after.groups.items);
            lemma_focus_told_concat(None, head, after.active().layout_pass());
            assert(requests@.drop_last() =~= head + after.active().layout_pass());
        }
        Ok((wm, requests))
    }
}

} // verus!
