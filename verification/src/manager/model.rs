//! What the manager holds, as plain values, and what becomes of it: the
//! mathematical model that the contracts of the manager speak of.

use crate::cmd::CommandView;
use crate::errors::Error;
use crate::groups::{layout_names, Group, GroupBuilder, GroupView};
use crate::keys::KeyCombo;
use crate::layout::{hide_requests, AnyLayout};
use crate::manager::WindowProperties;
use crate::screen::{reserved, Dock, Viewport};
use crate::stack::StackView;
use crate::x::{Event, Request, StrutPartial, WindowId};
use vstd::prelude::*;

verus! {

/// The names of `groups`, in order.
pub open spec fn group_names(groups: Seq<GroupView>) -> Seq<Seq<char>> {
    groups.map_values(|group: GroupView| group.name)
}

/// For each of `groups`, in order, whether it holds `window`.
pub open spec fn holders(groups: Seq<GroupView>, window: WindowId) -> Seq<bool> {
    groups.map_values(|group: GroupView| group.contains(window))
}

/// How often `window` occurs in `group`.
pub open spec fn count_in(group: GroupView, window: WindowId) -> nat {
    group.windows.items.to_multiset().count(window)
}

/// How often `window` occurs in all of `groups` together.
pub open spec fn occurrences(groups: Seq<GroupView>, window: WindowId) -> nat
    decreases groups.len(),
{
    if groups.len() == 0 {
        0
    } else {
        occurrences(groups.drop_last(), window) + count_in(groups.last(), window)
    }
}

/// What a [`Lanta`] holds.
pub struct LantaView {
    pub keys: Map<KeyCombo, CommandView>,
    /// The groups; the focused one is the active one.
    pub groups: StackView<GroupView>,
    pub docks: Seq<Dock>,
    /// The width and height of the root window when the manager last heard of
    /// them.
    pub root_width: u32,
    pub root_height: u32,
}

impl LantaView {
    /// The active group.
    pub open spec fn active(self) -> GroupView {
        self.groups.items[self.groups.focus]
    }

    /// The focused window of the active group.
    pub open spec fn focused(self) -> Option<WindowId> {
        self.active().windows.focused()
    }

    pub open spec fn with_group(self, index: int, group: GroupView) -> Self {
        LantaView { groups: self.groups.replace_at(index, group), ..self }
    }

    pub open spec fn with_active(self, group: GroupView) -> Self {
        self.with_group(self.groups.focus, group)
    }

    pub open spec fn with_root(self, root_width: u32, root_height: u32) -> Self {
        LantaView { root_width, root_height, ..self }
    }

    /// Whether some group holds the window.
    pub open spec fn is_managed(self, window: WindowId) -> bool {
        holders(self.groups.items, window).contains(true)
    }

    /// The first group that holds the window, if one does.
    pub open spec fn owner(self, window: WindowId) -> Option<int> {
        holders(self.groups.items, window).index_of_first(true)
    }

    /// The first group of the name, if there is one.
    pub open spec fn named(self, name: Seq<char>) -> Option<int> {
        group_names(self.groups.items).index_of_first(name)
    }

    /// There is a group, the focus is on one, and every group is well formed.
    pub open spec fn groups_wf(self) -> bool {
        &&& self.groups.wf()
        &&& 0 < self.groups.len() <= usize::MAX
        &&& forall|i: int| 0 <= i < self.groups.len() ==> (#[trigger] self.groups.items[i]).wf()
    }

    /// No window is in two groups, nor twice in one.
    pub open spec fn windows_unique(self) -> bool {
        forall|window: WindowId| #[trigger] occurrences(self.groups.items, window) <= 1
    }

    /// The focused group is active, and no other.
    pub open spec fn one_active(self) -> bool {
        forall|i: int|
            0 <= i < self.groups.len() ==> ((#[trigger] self.groups.items[i]).active <==> i
                == self.groups.focus)
    }

    /// Whether the docks leave an area of the root window.
    pub open spec fn screen_fits(self) -> bool {
        reserved(self.docks).fit(self.root_width, self.root_height)
    }

    /// The area that the docks leave of the root window. Where they reserve
    /// more than it has, the active group keeps the viewport that it has.
    pub open spec fn usable(self) -> Viewport {
        if self.screen_fits() {
            reserved(self.docks).viewport(self.root_width, self.root_height)
        } else {
            self.active().viewport
        }
    }

    /// The active group's viewport is the area that the docks leave of the root
    /// window.
    pub open spec fn viewport_current(self) -> bool {
        self.active().viewport == self.usable()
    }

    /// The manager has heard of the root window's size, and the active group
    /// has the area that the docks leave of it.
    pub open spec fn refresh(self, root_width: u32, root_height: u32) -> Self {
        let rooted = self.with_root(root_width, root_height);
        rooted.with_active(rooted.active().update_viewport(rooted.usable()))
    }

    /// The window is a dock of the screen.
    pub open spec fn dock(self, window: WindowId, strut_partial: Option<StrutPartial>) -> Self {
        LantaView { docks: self.docks.push(Dock { window_id: window, strut_partial }), ..self }
    }

    /// The window is no dock of the screen.
    pub open spec fn undock(self, window: WindowId) -> Self {
        LantaView { docks: self.docks.filter(|dock: Dock| dock.window_id != window), ..self }
    }

    /// The window is the last and the focused one of the active group.
    pub open spec fn adopt(self, window: WindowId) -> Self {
        self.with_active(self.active().with_windows(self.active().windows.push(window)))
    }

    /// The manager after it was asked to manage a window: as before where a
    /// group holds the window already; with the window among the docks and
    /// the viewport refreshed where it is a dock; else with the window in the
    /// active group.
    pub open spec fn manage_window(
        self,
        window: WindowId,
        dock: bool,
        strut_partial: Option<StrutPartial>,
        root_width: u32,
        root_height: u32,
    ) -> Self {
        if self.is_managed(window) {
            self
        } else if dock {
            self.dock(window, strut_partial).refresh(root_width, root_height)
        } else {
            self.adopt(window)
        }
    }

    /// The requests that go with `manage_window`: none for a window that a
    /// group holds; else the key table is grabbed on the window, a dock is
    /// mapped and any other window tracked, and the active group runs a layout
    /// pass.
    pub open spec fn manage_requests(
        self,
        window: WindowId,
        dock: bool,
        strut_partial: Option<StrutPartial>,
        root_width: u32,
        root_height: u32,
    ) -> Seq<Request> {
        if self.is_managed(window) {
            Seq::empty()
        } else {
            seq![
                Request::EnableWindowKeyEvents(window),
                if dock {
                    Request::MapWindow(window)
                } else {
                    Request::EnableWindowTracking(window)
                },
            ] + self.manage_window(
                window,
                dock,
                strut_partial,
                root_width,
                root_height,
            ).active().layout_pass()
        }
    }

    /// The first group that holds the window holds it no more.
    pub open spec fn release(self, window: WindowId) -> Self {
        match self.owner(window) {
            Some(index) => self.with_group(
                index,
                self.groups.items[index].remove_window(window),
            ),
            None => self,
        }
    }

    /// The requests that go with `release`: the group that held the window
    /// runs a layout pass, and the window is hidden.
    pub open spec fn release_requests(self, window: WindowId) -> Seq<Request> {
        match self.owner(window) {
            Some(index) => self.release(window).groups.items[index].layout_pass() + hide_requests(
                window,
            ),
            None => Seq::empty(),
        }
    }

    /// The manager after a window has gone: no group holds its first
    /// occurrence, it is no dock, and the viewport is refreshed.
    pub open spec fn unmanage_window(
        self,
        window: WindowId,
        root_width: u32,
        root_height: u32,
    ) -> Self {
        self.release(window).undock(window).refresh(root_width, root_height)
    }

    /// The requests that go with `unmanage_window`: those of the release, and
    /// a layout pass of the active group.
    pub open spec fn unmanage_requests(
        self,
        window: WindowId,
        root_width: u32,
        root_height: u32,
    ) -> Seq<Request> {
        self.release_requests(window) + self.unmanage_window(
            window,
            root_width,
            root_height,
        ).active().layout_pass()
    }

    /// The manager after a switch to the group of `name`: as before where the
    /// active group has that name or no group has it; else the active group is
    /// inactive, and the first group of the name is focused and active in the
    /// area that the docks leave of the root window.
    pub open spec fn switch_group(self, name: Seq<char>, root_width: u32, root_height: u32) -> Self {
        if self.active().name == name {
            self
        } else {
            match self.named(name) {
                Some(index) => {
                    let left = self.with_active(self.active().deactivate());
                    let turned = LantaView { groups: left.groups.focus_at(index), ..left }.with_root(
                        root_width,
                        root_height,
                    );
                    turned.with_active(turned.active().activate(turned.usable()))
                },
                None => self,
            }
        }
    }

    /// The requests that go with `switch_group`: the windows of the group that
    /// was active are hidden, the group that is active now runs a layout pass,
    /// and the desktops are published.
    pub open spec fn switch_requests(
        self,
        name: Seq<char>,
        root_width: u32,
        root_height: u32,
    ) -> Seq<Request> {
        if self.active().name == name || self.named(name) is None {
            Seq::empty()
        } else {
            (GroupView::hide_all(self.active().windows.items) + self.switch_group(
                name,
                root_width,
                root_height,
            ).active().layout_pass()).push(Request::UpdateEwmhDesktops)
        }
    }

    /// The active group without its focused window.
    pub open spec fn take_focused(self) -> Self {
        self.with_active(self.active().with_windows(self.active().windows.remove_focused()))
    }

    /// The manager after the focused window was moved to the group of `name`:
    /// as before where the active group has that name; else the window has
    /// left the active group, and is the last and focused one of the first
    /// group of the name, where there is such a group.
    pub open spec fn move_focused_to_group(self, name: Seq<char>) -> Self {
        if self.active().name == name {
            self
        } else {
            match (self.named(name), self.focused()) {
                (Some(index), Some(window)) => {
                    let taken = self.take_focused();
                    taken.with_group(
                        index,
                        taken.groups.items[index].with_windows(
                            taken.groups.items[index].windows.push(window),
                        ),
                    )
                },
                _ => self.take_focused(),
            }
        }
    }

    /// The requests that go with `move_focused_to_group`: the active group
    /// runs a layout pass, the window is hidden, and the group that takes the
    /// window runs a layout pass.
    pub open spec fn move_requests(self, name: Seq<char>) -> Seq<Request> {
        if self.active().name == name {
            Seq::empty()
        } else {
            let after = self.move_focused_to_group(name);
            self.take_focused().active().layout_pass() + (match self.focused() {
                Some(window) => hide_requests(window),
                None => Seq::empty(),
            }) + (match (self.named(name), self.focused()) {
                (Some(index), Some(window)) => after.groups.items[index].layout_pass(),
                _ => Seq::empty(),
            })
        }
    }

    /// The first occurrence of the window in the active group is focused, if
    /// there is one.
    pub open spec fn focus_window(self, window: WindowId) -> Self {
        self.with_active(self.active().focus(window))
    }

    /// The requests that go with `focus_window`: a layout pass of the active
    /// group where it holds the window, and none where it does not.
    pub open spec fn focus_window_requests(self, window: WindowId) -> Seq<Request> {
        if self.active().contains(window) {
            self.focus_window(window).active().layout_pass()
        } else {
            Seq::empty()
        }
    }

    /// The manager after a window asked to be mapped: a window that no group
    /// holds is taken up; one that the active group holds is focused; one of
    /// another group is left alone.
    pub open spec fn on_map_request(
        self,
        window: WindowId,
        dock: bool,
        strut_partial: Option<StrutPartial>,
        root_width: u32,
        root_height: u32,
    ) -> Self {
        if self.is_managed(window) {
            self.focus_window(window)
        } else {
            self.manage_window(window, dock, strut_partial, root_width, root_height)
        }
    }

    pub open spec fn on_map_request_requests(
        self,
        window: WindowId,
        dock: bool,
        strut_partial: Option<StrutPartial>,
        root_width: u32,
        root_height: u32,
    ) -> Seq<Request> {
        if self.is_managed(window) {
            self.focus_window_requests(window)
        } else {
            self.manage_requests(window, dock, strut_partial, root_width, root_height)
        }
    }

    /// The active group with other windows, in order and focus.
    pub open spec fn with_windows(self, windows: StackView<WindowId>) -> Self {
        self.with_active(self.active().with_windows(windows))
    }

    /// The manager after a command.
    pub open spec fn run_command(
        self,
        command: CommandView,
        root_width: u32,
        root_height: u32,
    ) -> Self {
        match command {
            CommandView::CloseFocusedWindow => self,
            CommandView::FocusNext => self.with_windows(self.active().windows.focus_next()),
            CommandView::FocusPrevious => self.with_windows(self.active().windows.focus_previous()),
            CommandView::ShuffleNext => self.with_windows(self.active().windows.shuffle_next()),
            CommandView::ShufflePrevious => self.with_windows(
                self.active().windows.shuffle_previous(),
            ),
            CommandView::LayoutNext => self.with_active(
                self.active().with_layouts(self.active().layouts.focus_next()),
            ),
            CommandView::Spawn { .. } => self,
            CommandView::SwitchGroup(name) => self.switch_group(name, root_width, root_height),
            CommandView::MoveWindowToGroup(name) => self.move_focused_to_group(name),
        }
    }

    /// The requests of a command that the key combination `key` is bound to.
    pub open spec fn command_requests(
        self,
        command: CommandView,
        key: KeyCombo,
        root_width: u32,
        root_height: u32,
    ) -> Seq<Request> {
        match command {
            CommandView::CloseFocusedWindow => match self.focused() {
                Some(window) => seq![Request::CloseWindow(window)],
                None => Seq::empty(),
            },
            CommandView::Spawn { .. } => seq![Request::Spawn(key)],
            CommandView::SwitchGroup(name) => self.switch_requests(name, root_width, root_height),
            CommandView::MoveWindowToGroup(name) => self.move_requests(name),
            _ => self.run_command(command, root_width, root_height).active().layout_pass(),
        }
    }

    /// The failure of a command: that of a command that names a group which
    /// is not the active one, where no group has the name.
    pub open spec fn command_error(self, command: CommandView) -> Option<Error> {
        match command {
            CommandView::SwitchGroup(name) | CommandView::MoveWindowToGroup(name) => if
                self.active().name != name && self.named(name) is None {
                Some(Error::UnknownGroup)
            } else {
                None
            },
            _ => None,
        }
    }

    /// The manager after an event. `dock` and `strut_partial` are what the
    /// driver read of the window of a map request.
    pub open spec fn handle(
        self,
        event: Event,
        dock: bool,
        strut_partial: Option<StrutPartial>,
        root_width: u32,
        root_height: u32,
    ) -> Self {
        match event {
            Event::MapRequest(window) => self.on_map_request(
                window,
                dock,
                strut_partial,
                root_width,
                root_height,
            ),
            Event::UnmapNotify(window) | Event::DestroyNotify(window) => self.unmanage_window(
                window,
                root_width,
                root_height,
            ),
            Event::KeyPress(key) => if self.keys.contains_key(key) {
                self.run_command(self.keys[key], root_width, root_height)
            } else {
                self
            },
            Event::EnterNotify(window) => self.focus_window(window),
        }
    }

    /// The requests that go with an event.
    pub open spec fn handle_requests(
        self,
        event: Event,
        dock: bool,
        strut_partial: Option<StrutPartial>,
        root_width: u32,
        root_height: u32,
    ) -> Seq<Request> {
        match event {
            Event::MapRequest(window) => self.on_map_request_requests(
                window,
                dock,
                strut_partial,
                root_width,
                root_height,
            ),
            Event::UnmapNotify(window) | Event::DestroyNotify(window) => self.unmanage_requests(
                window,
                root_width,
                root_height,
            ),
            Event::KeyPress(key) => if self.keys.contains_key(key) {
                self.command_requests(self.keys[key], key, root_width, root_height)
            } else {
                Seq::empty()
            },
            Event::EnterNotify(window) => self.focus_window_requests(window),
        }
    }

    /// The failure to log after an event: that of the command of a key press.
    pub open spec fn handle_error(self, event: Event) -> Option<Error> {
        match event {
            Event::KeyPress(key) => if self.keys.contains_key(key) {
                self.command_error(self.keys[key])
            } else {
                None
            },
            _ => None,
        }
    }

    /// The manager before it has taken up a window: the groups as their
    /// builders make them, the first one focused, none active yet.
    pub open spec fn initial(
        keys: Map<KeyCombo, CommandView>,
        builders: Seq<GroupBuilder>,
        layouts: Seq<AnyLayout>,
        root_width: u32,
        root_height: u32,
    ) -> Self {
        LantaView {
            keys,
            groups: StackView::from_seq(built_groups(builders, layouts)),
            docks: Seq::empty(),
            root_width,
            root_height,
        }
    }

    /// The manager after it was asked to manage each of `windows`, in order.
    pub open spec fn manage_all(
        self,
        windows: Seq<(WindowId, WindowProperties)>,
        root_width: u32,
        root_height: u32,
    ) -> Self
        decreases windows.len(),
    {
        if windows.len() == 0 {
            self
        } else {
            self.manage_all(windows.drop_last(), root_width, root_height).manage_window(
                windows.last().0,
                windows.last().1.is_dock(),
                windows.last().1.strut_partial,
                root_width,
                root_height,
            )
        }
    }

    /// The requests that go with `manage_all`.
    pub open spec fn manage_all_requests(
        self,
        windows: Seq<(WindowId, WindowProperties)>,
        root_width: u32,
        root_height: u32,
    ) -> Seq<Request>
        decreases windows.len(),
    {
        if windows.len() == 0 {
            Seq::empty()
        } else {
            self.manage_all_requests(windows.drop_last(), root_width, root_height)
                + self.manage_all(windows.drop_last(), root_width, root_height).manage_requests(
                windows.last().0,
                windows.last().1.is_dock(),
                windows.last().1.strut_partial,
                root_width,
                root_height,
            )
        }
    }

    /// The focused group is active in the area that the docks leave of the
    /// root window.
    pub open spec fn start(self, root_width: u32, root_height: u32) -> Self {
        let rooted = self.with_root(root_width, root_height);
        rooted.with_active(rooted.active().activate(rooted.usable()))
    }

    /// No group is active.
    pub open spec fn none_active(self) -> bool {
        forall|i: int| 0 <= i < self.groups.len() ==> !(#[trigger] self.groups.items[i]).active
    }

    /// What holds of the manager while it is being set up, and ever after.
    pub open spec fn inv(self) -> bool {
        self.groups_wf() && self.windows_unique()
    }

    /// What holds of the manager between any two events.
    pub open spec fn wf(self) -> bool {
        &&& self.inv()
        &&& self.one_active()
        &&& self.viewport_current()
    }
}

/// The views of `groups`, in order.
pub open spec fn group_views(groups: Seq<Group>) -> Seq<GroupView> {
    groups.map_values(|group: Group| group@)
}

/// The groups that `builders` make of `layouts`, each with the first layout of
/// its default name in use.
pub open spec fn built_groups(builders: Seq<GroupBuilder>, layouts: Seq<AnyLayout>) -> Seq<
    GroupView,
> {
    builders.map_values(
        |builder: GroupBuilder|
            builder.built(
                layouts,
                layout_names(layouts).index_of_first(builder.spec_default_layout())->0,
            ),
    )
}

/// Whether each of `builders` finds its default layout among `layouts`.
pub open spec fn buildable(builders: Seq<GroupBuilder>, layouts: Seq<AnyLayout>) -> bool {
    forall|i: int|
        0 <= i < builders.len() ==> layout_names(layouts).index_of_first(
            (#[trigger] builders[i]).spec_default_layout(),
        ) is Some
}

/// An event, with what the driver read of the display when it came: of the
/// window of a map request whether it is a dock and what it reserves, and the
/// size of the root window.
pub struct Observed {
    pub event: Event,
    pub dock: bool,
    pub strut_partial: Option<StrutPartial>,
    pub root_width: u32,
    pub root_height: u32,
}

impl LantaView {
    /// The manager after one event.
    pub open spec fn step(self, observed: Observed) -> Self {
        self.handle(
            observed.event,
            observed.dock,
            observed.strut_partial,
            observed.root_width,
            observed.root_height,
        )
    }

    /// The requests that go with one event.
    pub open spec fn step_requests(self, observed: Observed) -> Seq<Request> {
        self.handle_requests(
            observed.event,
            observed.dock,
            observed.strut_partial,
            observed.root_width,
            observed.root_height,
        )
    }

    /// The manager after the events of `observed`, in order.
    pub open spec fn run(self, observed: Seq<Observed>) -> Self
        decreases observed.len(),
    {
        if observed.len() == 0 {
            self
        } else {
            self.run(observed.drop_last()).step(observed.last())
        }
    }

    /// All requests that go with the events of `observed`, in order.
    pub open spec fn run_requests(self, observed: Seq<Observed>) -> Seq<Request>
        decreases observed.len(),
    {
        if observed.len() == 0 {
            Seq::empty()
        } else {
            self.run_requests(observed.drop_last()) + self.run(
                observed.drop_last(),
            ).step_requests(observed.last())
        }
    }
}

} // verus!
