//! What holds of the manager whatever happens: proofs over its model.

use crate::groups::GroupView;
use crate::layout::hide_requests;
use crate::cmd::CommandView;
use crate::groups::{layout_names, GroupBuilder};
use crate::keys::KeyCombo;
use crate::layout::AnyLayout;
use crate::manager::model::{buildable, count_in, group_names, holders};
use crate::manager::model::{occurrences, LantaView, Observed};
use crate::x::Event;
use crate::manager::WindowProperties;
use crate::screen::reserved;
use crate::stack::StackView;
use crate::x::{focus_told, Request, StrutPartial, WindowId};
use vstd::prelude::*;

verus! {

/// Replacing one group changes how often a window occurs by what the two
/// groups differ in.
pub proof fn lemma_occurrences_update(
    groups: Seq<GroupView>,
    index: int,
    group: GroupView,
    window: WindowId,
)
    requires
        0 <= index < groups.len(),
    ensures
        occurrences(groups.update(index, group), window) + count_in(groups[index], window)
            == occurrences(groups, window) + count_in(group, window),
    decreases groups.len(),
{
    let updated = groups.update(index, group);
    if index == groups.len() - 1 {
        assert(updated.drop_last() =~= groups.drop_last());
    } else {
        assert(updated.drop_last() =~= groups.drop_last().update(index, group));
        lemma_occurrences_update(groups.drop_last(), index, group, window);
    }
}

/// A window occurs at least as often in all groups as in one of them, and it
/// occurs in one where it occurs at all.
pub proof fn lemma_occurrences_bounds(groups: Seq<GroupView>, window: WindowId)
    ensures
        forall|i: int|
            0 <= i < groups.len() ==> count_in(#[trigger] groups[i], window) <= occurrences(
                groups,
                window,
            ),
        occurrences(groups, window) > 0 <==> holders(groups, window).contains(true),
    decreases groups.len(),
{
    let held = holders(groups, window);
    if groups.len() > 0 {
        let rest = groups.drop_last();
        lemma_occurrences_bounds(rest, window);
        assert forall|i: int| 0 <= i < groups.len() implies count_in(
            #[trigger] groups[i],
            window,
        ) <= occurrences(groups, window) by {
            if i < rest.len() {
                assert(rest[i] == groups[i]);
            }
        }
        groups.last().windows.items.to_multiset_ensures();
        if holders(rest, window).contains(true) {
            let at = choose|at: int|
                0 <= at < rest.len() && holders(rest, window)[at] == true;
            assert(rest[at] == groups[at]);
            assert(held[at] == true);
        }
        if held.contains(true) {
            let at = choose|at: int| 0 <= at < held.len() && held[at] == true;
            if at < rest.len() {
                assert(rest[at] == groups[at]);
                assert(holders(rest, window)[at] == true);
            }
        }
        if count_in(groups.last(), window) > 0 {
            assert(held[groups.len() - 1] == true);
        }
    }
}

/// A layout pass of an active group ends by telling the driver the group's
/// focused window.
pub proof fn lemma_layout_pass_tells_focus(group: GroupView, before: Option<WindowId>)
    ensures
        group.active ==> focus_told(before, group.layout_pass()) == group.windows.focused(),
        !group.active ==> focus_told(before, group.layout_pass()) == before,
{
    if group.active {
        let pass = group.layout_pass();
        assert(pass.last() == group.focus_request());
    }
}

/// What the driver was told to focus after two runs of requests is what it was
/// told after the second, given what it was told after the first.
pub proof fn lemma_focus_told_concat(
    before: Option<WindowId>,
    first: Seq<Request>,
    second: Seq<Request>,
)
    ensures
        focus_told(before, first + second) == focus_told(focus_told(before, first), second),
    decreases second.len(),
{
    if second.len() == 0 {
        assert(first + second =~= first);
    } else {
        assert((first + second).drop_last() =~= first + second.drop_last());
        assert((first + second).last() == second.last());
        lemma_focus_told_concat(before, first, second.drop_last());
    }
}

/// Hiding a window tells the driver nothing of the focus.
pub proof fn lemma_hide_tells_nothing(before: Option<WindowId>, window: WindowId)
    ensures
        focus_told(before, hide_requests(window)) == before,
{
    let hide = hide_requests(window);
    assert(hide.drop_last().drop_last().drop_last() =~= Seq::<Request>::empty());
    reveal_with_fuel(focus_told, 4);
}

/// Replacing a group by one that holds no window that another group holds,
/// and none twice, keeps the manager's invariant; what holds of the active
/// group's state and viewport is kept where the two groups agree in them.
pub proof fn lemma_with_group_keeps_wf(state: LantaView, index: int, group: GroupView)
    requires
        state.inv(),
        0 <= index < state.groups.len(),
        group.wf(),
        forall|window: WindowId|
            #![trigger count_in(group, window)]
            occurrences(state.groups.items, window) + count_in(group, window) - count_in(
                state.groups.items[index],
                window,
            ) <= 1,
    ensures
        state.with_group(index, group).inv(),
        group.active == state.groups.items[index].active && state.one_active()
            ==> state.with_group(index, group).one_active(),
        group.viewport == state.groups.items[index].viewport && state.viewport_current()
            ==> state.with_group(index, group).viewport_current(),
{
    let after = state.with_group(index, group);
    assert forall|window: WindowId| #[trigger] occurrences(after.groups.items, window) <= 1 by {
        lemma_occurrences_update(state.groups.items, index, group, window);
        assert(occurrences(state.groups.items, window) + count_in(group, window) - count_in(
            state.groups.items[index],
            window,
        ) <= 1);
    }
}

/// The first position at which a sequence holds a value is the one before
/// which it does not hold it.
pub proof fn lemma_index_of_first<K>(keys: Seq<K>, wanted: K, index: int)
    requires
        0 <= index <= keys.len(),
        forall|j: int| 0 <= j < index ==> #[trigger] keys[j] != wanted,
        index < keys.len() ==> keys[index] == wanted,
    ensures
        keys.index_of_first(wanted) == if index < keys.len() {
            Some(index)
        } else {
            None
        },
{
    keys.index_of_first_ensures(wanted);
    if index < keys.len() {
        assert(keys.contains(wanted));
        let first = keys.index_of_first(wanted)->0;
        if first > index {
            assert(keys[index] == wanted);
        }
    } else if keys.contains(wanted) {
        let at = choose|at: int| 0 <= at < keys.len() && keys[at] == wanted;
        assert(keys[at] != wanted);
    }
}

/// Taking an element out of a sequence takes one occurrence of it away and
/// leaves the others as often as they were.
pub proof fn lemma_count_after_remove(items: Seq<WindowId>, index: int, window: WindowId)
    requires
        0 <= index < items.len(),
    ensures
        items.remove(index).to_multiset().count(window) == if window == items[index] {
            items.to_multiset().count(window) - 1
        } else {
            items.to_multiset().count(window) as int
        },
        items.to_multiset().count(items[index]) > 0,
{
    vstd::seq_lib::to_multiset_remove(items, index);
    items.to_multiset_ensures();
    assert(items.contains(items[index]));
}

/// Appending an element to a sequence adds one occurrence of it.
pub proof fn lemma_count_after_push(items: Seq<WindowId>, pushed: WindowId, window: WindowId)
    ensures
        items.push(pushed).to_multiset().count(window) == if window == pushed {
            items.to_multiset().count(window) + 1
        } else {
            items.to_multiset().count(window)
        },
{
    vstd::seq_lib::to_multiset_build(items, pushed);
}

/// No window occurs in groups without windows.
pub proof fn lemma_occurrences_of_empty_groups(groups: Seq<GroupView>, window: WindowId)
    requires
        forall|i: int| 0 <= i < groups.len() ==> (#[trigger] groups[i]).windows.len() == 0,
    ensures
        occurrences(groups, window) == 0,
    decreases groups.len(),
{
    if groups.len() > 0 {
        let rest = groups.drop_last();
        assert forall|i: int| 0 <= i < rest.len() implies (#[trigger] rest[i]).windows.len()
            == 0 by {
            assert(rest[i] == groups[i]);
        }
        lemma_occurrences_of_empty_groups(rest, window);
        assert(groups.last() == groups[groups.len() - 1]);
        groups.last().windows.items.to_multiset_ensures();
        assert(!groups.last().windows.items.contains(window));
    }
}

/// Managing a window makes no group active or inactive.
pub proof fn lemma_manage_keeps_activity(
    state: LantaView,
    window: WindowId,
    dock: bool,
    strut_partial: Option<StrutPartial>,
    root_width: u32,
    root_height: u32,
)
    requires
        state.inv(),
    ensures
        state.none_active() ==> state.manage_window(
            window,
            dock,
            strut_partial,
            root_width,
            root_height,
        ).none_active(),
        state.none_active() ==> state.manage_requests(
            window,
            dock,
            strut_partial,
            root_width,
            root_height,
        ).len() <= 2,
{
}

/// Two groups that hold the same window are one group.
proof fn lemma_holders_are_one(state: LantaView, window: WindowId, first: int, second: int)
    requires
        state.inv(),
        0 <= first < state.groups.len(),
        0 <= second < state.groups.len(),
        state.groups.items[first].contains(window),
        state.groups.items[second].contains(window),
    ensures
        first == second,
{
    let groups = state.groups.items;
    if first != second {
        let emptied = GroupView {
            windows: StackView { items: Seq::empty(), focus: 0 },
            ..groups[first]
        };
        let others = groups.update(first, emptied);
        lemma_occurrences_update(groups, first, emptied, window);
        lemma_occurrences_bounds(others, window);
        assert(others[second] == groups[second]);
        groups[first].windows.items.to_multiset_ensures();
        groups[second].windows.items.to_multiset_ensures();
        emptied.windows.items.to_multiset_ensures();
        assert(!emptied.windows.items.contains(window));
        assert(occurrences(groups, window) <= 1);
    }
}

/// In a well-formed manager a window is in at most one group, and once in
/// it.
pub proof fn lemma_window_in_one_group(
    state: LantaView,
    window: WindowId,
    first: int,
    second: int,
)
    requires
        state.inv(),
        0 <= first < state.groups.len(),
        0 <= second < state.groups.len(),
        state.groups.items[first].contains(window),
        state.groups.items[second].contains(window),
    ensures
        first == second,
        count_in(state.groups.items[first], window) == 1,
        state.owner(window) == Some(first),
{
    let groups = state.groups.items;
    lemma_holders_are_one(state, window, first, second);
    lemma_occurrences_bounds(groups, window);
    groups[first].windows.items.to_multiset_ensures();
    assert(occurrences(groups, window) <= 1);
    let held = holders(groups, window);
    held.index_of_first_ensures(true);
    assert(held[first] == true);
    lemma_holders_are_one(state, window, first, held.index_of_first(true)->0);
}

/// In a well-formed manager the active group's viewport is the root window
/// less the largest reservation of the docks at each edge, where that leaves
/// anything.
pub proof fn lemma_viewport_is_what_docks_leave(state: LantaView)
    requires
        state.wf(),
        state.screen_fits(),
    ensures
        state.active().active,
        state.active().viewport == reserved(state.docks).viewport(
            state.root_width,
            state.root_height,
        ),
        state.active().viewport.x == reserved(state.docks).left,
        state.active().viewport.y == reserved(state.docks).top,
        state.active().viewport.width == state.root_width - reserved(state.docks).left
            - reserved(state.docks).right,
        state.active().viewport.height == state.root_height - reserved(state.docks).top
            - reserved(state.docks).bottom,
{
}

/// Managing windows with the root window's size known leaves that size as
/// it is.
pub proof fn lemma_manage_all_keeps_root(
    state: LantaView,
    windows: Seq<(WindowId, WindowProperties)>,
    root_width: u32,
    root_height: u32,
)
    requires
        state.root_width == root_width,
        state.root_height == root_height,
    ensures
        state.manage_all(windows, root_width, root_height).root_width == root_width,
        state.manage_all(windows, root_width, root_height).root_height == root_height,
    decreases windows.len(),
{
    if windows.len() > 0 {
        lemma_manage_all_keeps_root(state, windows.drop_last(), root_width, root_height);
    }
}

/// Giving the active group another viewport, or other windows that are the
/// same ones as often, keeps the manager's invariant.
proof fn lemma_with_active(state: LantaView, group: GroupView)
    requires
        state.inv(),
        group.wf(),
        forall|window: WindowId|
            #![trigger count_in(group, window)]
            count_in(group, window) == count_in(state.active(), window),
    ensures
        state.with_active(group).inv(),
        group.active == state.active().active && state.one_active() ==> state.with_active(
            group,
        ).one_active(),
        group.viewport == state.active().viewport && state.viewport_current()
            ==> state.with_active(group).viewport_current(),
{
    assert forall|window: WindowId|
        #![trigger count_in(group, window)]
        occurrences(state.groups.items, window) + count_in(group, window) - count_in(
            state.groups.items[state.groups.focus],
            window,
        ) <= 1 by {
        assert(occurrences(state.groups.items, window) <= 1);
    }
    lemma_with_group_keeps_wf(state, state.groups.focus, group);
}

/// Refreshing the viewport keeps the manager's invariant and leaves the
/// active group with the area that the docks leave of the root window.
pub proof fn lemma_refresh(state: LantaView, root_width: u32, root_height: u32)
    requires
        state.inv(),
    ensures
        state.refresh(root_width, root_height).inv(),
        state.refresh(root_width, root_height).viewport_current(),
        state.one_active() ==> state.refresh(root_width, root_height).one_active(),
        state.refresh(root_width, root_height).focused() == state.focused(),
        state.refresh(root_width, root_height).active().active == state.active().active,
{
    let rooted = state.with_root(root_width, root_height);
    lemma_with_active(rooted, rooted.active().update_viewport(rooted.usable()));
}

/// Managing a window keeps the manager well formed, and the driver is told
/// which window is then focused.
pub proof fn lemma_manage_window(
    state: LantaView,
    window: WindowId,
    dock: bool,
    strut_partial: Option<StrutPartial>,
    root_width: u32,
    root_height: u32,
)
    requires
        state.inv(),
    ensures
        state.manage_window(window, dock, strut_partial, root_width, root_height).inv(),
        state.wf() ==> state.manage_window(
            window,
            dock,
            strut_partial,
            root_width,
            root_height,
        ).wf(),
        state.wf() ==> focus_told(
            state.focused(),
            state.manage_requests(window, dock, strut_partial, root_width, root_height),
        ) == state.manage_window(window, dock, strut_partial, root_width, root_height).focused(),
{
    let after = state.manage_window(window, dock, strut_partial, root_width, root_height);
    let requests = state.manage_requests(window, dock, strut_partial, root_width, root_height);
    if !state.is_managed(window) {
        let head = seq![
            Request::EnableWindowKeyEvents(window),
            if dock {
                Request::MapWindow(window)
            } else {
                Request::EnableWindowTracking(window)
            },
        ];
        if dock {
            lemma_refresh(state.dock(window, strut_partial), root_width, root_height);
        } else {
            let active = state.active();
            let group = active.with_windows(active.windows.push(window));
            lemma_occurrences_bounds(state.groups.items, window);
            assert forall|other: WindowId|
                #![trigger count_in(group, other)]
                occurrences(state.groups.items, other) + count_in(group, other) - count_in(
                    state.groups.items[state.groups.focus],
                    other,
                ) <= 1 by {
                lemma_count_after_push(active.windows.items, window, other);
                assert(occurrences(state.groups.items, other) <= 1);
            }
            lemma_with_group_keeps_wf(state, state.groups.focus, group);
        }
        lemma_layout_pass_tells_focus(after.active(), focus_told(state.focused(), head));
        lemma_focus_told_concat(state.focused(), head, after.active().layout_pass());
    }
}

/// Letting go of a window keeps the manager well formed, and the driver is
/// told which window is then focused.
pub proof fn lemma_unmanage_window(
    state: LantaView,
    window: WindowId,
    root_width: u32,
    root_height: u32,
)
    requires
        state.inv(),
    ensures
        state.unmanage_window(window, root_width, root_height).inv(),
        state.wf() ==> state.unmanage_window(window, root_width, root_height).wf(),
        state.wf() ==> focus_told(
            state.focused(),
            state.unmanage_requests(window, root_width, root_height),
        ) == state.unmanage_window(window, root_width, root_height).focused(),
        !state.unmanage_window(window, root_width, root_height).is_managed(window),
{
    let released = state.release(window);
    let after = state.unmanage_window(window, root_width, root_height);
    lemma_release(state, window);
    lemma_refresh(released.undock(window), root_width, root_height);
    lemma_layout_pass_tells_focus(
        after.active(),
        focus_told(state.focused(), state.release_requests(window)),
    );
    lemma_focus_told_concat(
        state.focused(),
        state.release_requests(window),
        after.active().layout_pass(),
    );
    assert(occurrences(state.groups.items, window) <= 1);
    lemma_occurrences_bounds(after.groups.items, window);
    assert forall|other: WindowId|
        occurrences(after.groups.items, other) == occurrences(
            released.groups.items,
            other,
        ) by {
        let rooted = released.undock(window).with_root(root_width, root_height);
        lemma_occurrences_update(
            rooted.groups.items,
            rooted.groups.focus,
            rooted.active().update_viewport(rooted.usable()),
            other,
        );
    }
}

/// Releasing a window keeps the manager's invariant; the window is then in
/// no group.
pub proof fn lemma_release(state: LantaView, window: WindowId)
    requires
        state.inv(),
    ensures
        state.release(window).inv(),
        state.one_active() ==> state.release(window).one_active(),
        state.release(window).groups.focus == state.groups.focus,
        state.release(window).active().viewport == state.active().viewport,
        occurrences(state.release(window).groups.items, window) == 0,
{
    let held = holders(state.groups.items, window);
    held.index_of_first_ensures(true);
    lemma_occurrences_bounds(state.groups.items, window);
    assert(occurrences(state.groups.items, window) <= 1);
    match state.owner(window) {
        Some(index) => {
            let owner = state.groups.items[index];
            assert(held[index] == true);
            let group = owner.remove_window(window);
            owner.windows.items.index_of_first_ensures(window);
            let at = owner.windows.items.index_of_first(window)->0;
            assert forall|other: WindowId|
                #![trigger count_in(group, other)]
                occurrences(state.groups.items, other) + count_in(group, other) - count_in(
                    state.groups.items[index],
                    other,
                ) <= 1 by {
                lemma_count_after_remove(owner.windows.items, at, other);
                assert(occurrences(state.groups.items, other) <= 1);
            }
            lemma_with_group_keeps_wf(state, index, group);
            lemma_count_after_remove(owner.windows.items, at, window);
            lemma_occurrences_update(state.groups.items, index, group, window);
        },
        None => {},
    }
}

/// Focusing a window keeps the manager well formed, and the driver is told
/// which window is then focused.
pub proof fn lemma_focus_window(state: LantaView, window: WindowId)
    requires
        state.wf(),
    ensures
        state.focus_window(window).wf(),
        focus_told(state.focused(), state.focus_window_requests(window)) == state.focus_window(
            window,
        ).focused(),
{
    let active = state.active();
    let group = active.focus(window);
    active.windows.items.index_of_first_ensures(window);
    lemma_with_active(state, group);
    lemma_layout_pass_tells_focus(group, state.focused());
}

/// Giving the windows of the active group another order or focus keeps the
/// manager well formed, and a layout pass tells the driver the focus.
pub proof fn lemma_with_windows(state: LantaView, windows: StackView<WindowId>)
    requires
        state.wf(),
        windows.wf(),
        windows.items.to_multiset() == state.active().windows.items.to_multiset(),
    ensures
        state.with_windows(windows).wf(),
        focus_told(state.focused(), state.with_windows(windows).active().layout_pass())
            == state.with_windows(windows).focused(),
{
    let group = state.active().with_windows(windows);
    lemma_with_active(state, group);
    lemma_layout_pass_tells_focus(group, state.focused());
}

/// On the way to another group, when the group that was active is inactive
/// and the other is focused, the manager's invariant holds.
pub proof fn lemma_switch_group_turned(
    state: LantaView,
    name: Seq<char>,
    root_width: u32,
    root_height: u32,
)
    requires
        state.wf(),
        state.named(name) is Some,
    ensures
        0 <= state.named(name)->0 < state.groups.len(),
        (LantaView {
            groups: state.with_active(state.active().deactivate()).groups.focus_at(
                state.named(name)->0,
            ),
            ..state
        }).with_root(root_width, root_height).inv(),
{
    group_names(state.groups.items).index_of_first_ensures(name);
    lemma_with_active(state, state.active().deactivate());
}

/// Without its focused window the active group keeps the manager's
/// invariant.
pub proof fn lemma_take_focused(state: LantaView)
    requires
        state.inv(),
    ensures
        state.take_focused().inv(),
{
    let active = state.active();
    let group = active.with_windows(active.windows.remove_focused());
    assert forall|window: WindowId|
        #![trigger count_in(group, window)]
        occurrences(state.groups.items, window) + count_in(group, window) - count_in(
            state.groups.items[state.groups.focus],
            window,
        ) <= 1 by {
        if active.windows.len() > 0 {
            lemma_count_after_remove(active.windows.items, active.windows.focus, window);
        }
        assert(occurrences(state.groups.items, window) <= 1);
    }
    lemma_with_group_keeps_wf(state, state.groups.focus, group);
}

/// Switching groups keeps the manager well formed, and the driver is told
/// which window is then focused.
pub proof fn lemma_switch_group(
    state: LantaView,
    name: Seq<char>,
    root_width: u32,
    root_height: u32,
)
    requires
        state.wf(),
    ensures
        state.switch_group(name, root_width, root_height).wf(),
        focus_told(state.focused(), state.switch_requests(name, root_width, root_height))
            == state.switch_group(name, root_width, root_height).focused(),
{
    let after = state.switch_group(name, root_width, root_height);
    if state.active().name != name && state.named(name) is Some {
        let index = state.named(name)->0;
        group_names(state.groups.items).index_of_first_ensures(name);
        let left = state.with_active(state.active().deactivate());
        lemma_with_active(state, state.active().deactivate());
        let turned = (LantaView { groups: left.groups.focus_at(index), ..left }).with_root(
            root_width,
            root_height,
        );
        let group = turned.active().activate(turned.usable());
        lemma_with_active(turned, group);
        assert(after == turned.with_active(group));
        assert forall|i: int| 0 <= i < after.groups.len() implies ((
        #[trigger] after.groups.items[i]).active <==> i == after.groups.focus) by {
            if i != index && i != state.groups.focus {
                assert(after.groups.items[i] == state.groups.items[i]);
            }
        }
        let hidden = GroupView::hide_all(state.active().windows.items);
        lemma_layout_pass_tells_focus(group, focus_told(state.focused(), hidden));
        lemma_focus_told_concat(state.focused(), hidden, group.layout_pass());
        let requests = state.switch_requests(name, root_width, root_height);
        assert(requests.drop_last() =~= hidden + group.layout_pass());
    }
}

/// Moving the focused window to another group keeps the manager well formed:
/// the window is in one group still, or in none. The driver is told which
/// window is then focused.
pub proof fn lemma_move_focused_to_group(state: LantaView, name: Seq<char>)
    requires
        state.wf(),
    ensures
        state.move_focused_to_group(name).wf(),
        focus_told(state.focused(), state.move_requests(name)) == state.move_focused_to_group(
            name,
        ).focused(),
{
    if state.active().name != name {
        let active = state.active();
        let taken = state.take_focused();
        let group = active.with_windows(active.windows.remove_focused());
        assert forall|window: WindowId|
            #![trigger count_in(group, window)]
            occurrences(state.groups.items, window) + count_in(group, window) - count_in(
                state.groups.items[state.groups.focus],
                window,
            ) <= 1 by {
            if active.windows.len() > 0 {
                lemma_count_after_remove(active.windows.items, active.windows.focus, window);
            }
            assert(occurrences(state.groups.items, window) <= 1);
        }
        lemma_with_group_keeps_wf(state, state.groups.focus, group);
        assert(group_names(taken.groups.items) =~= group_names(state.groups.items));
        lemma_layout_pass_tells_focus(group, state.focused());
        let first = taken.active().layout_pass() + (match state.focused() {
            Some(window) => hide_requests(window),
            None => Seq::empty(),
        });
        match state.focused() {
            Some(window) => {
                lemma_hide_tells_nothing(
                    focus_told(state.focused(), taken.active().layout_pass()),
                    window,
                );
                lemma_focus_told_concat(
                    state.focused(),
                    taken.active().layout_pass(),
                    hide_requests(window),
                );
            },
            None => {
                assert(first =~= taken.active().layout_pass());
            },
        }
        match (state.named(name), state.focused()) {
            (Some(index), Some(window)) => {
                group_names(state.groups.items).index_of_first_ensures(name);
                let held = taken.groups.items[index];
                let target = held.with_windows(held.windows.push(window));
                lemma_count_after_remove(active.windows.items, active.windows.focus, window);
                lemma_occurrences_update(state.groups.items, state.groups.focus, group, window);
                lemma_occurrences_bounds(state.groups.items, window);
                assert(occurrences(taken.groups.items, window) == 0);
                lemma_occurrences_bounds(taken.groups.items, window);
                assert forall|other: WindowId|
                    #![trigger count_in(target, other)]
                    occurrences(taken.groups.items, other) + count_in(target, other) - count_in(
                        taken.groups.items[index],
                        other,
                    ) <= 1 by {
                    lemma_count_after_push(held.windows.items, window, other);
                    assert(occurrences(taken.groups.items, other) <= 1);
                    assert(count_in(taken.groups.items[index], window) <= occurrences(
                        taken.groups.items,
                        window,
                    ));
                }
                lemma_with_group_keeps_wf(taken, index, target);
                assert(!target.active);
                assert(state.move_requests(name) =~= first);
            },
            _ => {
                assert(state.move_requests(name) =~= first);
            },
        }
    }
}

/// A command keeps the manager well formed, and the driver is told which
/// window is then focused.
pub proof fn lemma_run_command(
    state: LantaView,
    command: CommandView,
    key: KeyCombo,
    root_width: u32,
    root_height: u32,
)
    requires
        state.wf(),
    ensures
        state.run_command(command, root_width, root_height).wf(),
        focus_told(state.focused(), state.command_requests(command, key, root_width, root_height))
            == state.run_command(command, root_width, root_height).focused(),
{
    let windows = state.active().windows;
    match command {
        CommandView::CloseFocusedWindow => {
            let requests = state.command_requests(command, key, root_width, root_height);
            reveal_with_fuel(focus_told, 2);
            assert(requests.len() > 0 ==> requests.drop_last() =~= Seq::<Request>::empty());
        },
        CommandView::Spawn { .. } => {
            let requests = state.command_requests(command, key, root_width, root_height);
            reveal_with_fuel(focus_told, 2);
            assert(requests.drop_last() =~= Seq::<Request>::empty());
        },
        CommandView::FocusNext => {
            lemma_with_windows(state, windows.focus_next());
        },
        CommandView::FocusPrevious => {
            lemma_with_windows(state, windows.focus_previous());
        },
        CommandView::ShuffleNext => {
            if windows.len() > 0 {
                windows.lemma_move_focused(windows.next_index());
            }
            lemma_with_windows(state, windows.shuffle_next());
        },
        CommandView::ShufflePrevious => {
            if windows.len() > 0 {
                windows.lemma_move_focused(windows.previous_index());
            }
            lemma_with_windows(state, windows.shuffle_previous());
        },
        CommandView::LayoutNext => {
            let group = state.active().with_layouts(state.active().layouts.focus_next());
            lemma_with_active(state, group);
            lemma_layout_pass_tells_focus(group, state.focused());
        },
        CommandView::SwitchGroup(name) => {
            lemma_switch_group(state, name, root_width, root_height);
        },
        CommandView::MoveWindowToGroup(name) => {
            lemma_move_focused_to_group(state, name);
        },
    }
}

/// Whatever the event, the manager stays well formed: a window is in at most
/// one group, the focused group is the one active group, and its viewport is
/// what the docks leave of the root window. And the driver has been told to
/// focus the window that is focused then, or to focus nothing where none is.
pub proof fn lemma_handle(
    state: LantaView,
    event: Event,
    dock: bool,
    strut_partial: Option<StrutPartial>,
    root_width: u32,
    root_height: u32,
)
    requires
        state.wf(),
    ensures
        state.handle(event, dock, strut_partial, root_width, root_height).wf(),
        focus_told(
            state.focused(),
            state.handle_requests(event, dock, strut_partial, root_width, root_height),
        ) == state.handle(event, dock, strut_partial, root_width, root_height).focused(),
{
    match event {
        Event::MapRequest(window) => {
            if state.is_managed(window) {
                lemma_focus_window(state, window);
            } else {
                lemma_manage_window(state, window, dock, strut_partial, root_width, root_height);
            }
        },
        Event::UnmapNotify(window) | Event::DestroyNotify(window) => {
            lemma_unmanage_window(state, window, root_width, root_height);
        },
        Event::KeyPress(key) => {
            if state.keys.contains_key(key) {
                lemma_run_command(state, state.keys[key], key, root_width, root_height);
            }
        },
        Event::EnterNotify(window) => {
            lemma_focus_window(state, window);
        },
    }
}

/// Whatever the events, the manager stays well formed, and after the last of
/// them the driver has been told to focus the window that is focused then.
pub proof fn lemma_run(state: LantaView, observed: Seq<Observed>)
    requires
        state.wf(),
    ensures
        state.run(observed).wf(),
        focus_told(state.focused(), state.run_requests(observed)) == state.run(
            observed,
        ).focused(),
    decreases observed.len(),
{
    if observed.len() > 0 {
        let earlier = observed.drop_last();
        let last = observed.last();
        lemma_run(state, earlier);
        lemma_handle(
            state.run(earlier),
            last.event,
            last.dock,
            last.strut_partial,
            last.root_width,
            last.root_height,
        );
        lemma_focus_told_concat(
            state.focused(),
            state.run_requests(earlier),
            state.run(earlier).step_requests(last),
        );
    }
}

/// Before the manager has taken up a window, its invariant holds and no
/// group is active.
pub proof fn lemma_initial(
    keys: Map<KeyCombo, CommandView>,
    builders: Seq<GroupBuilder>,
    layouts: Seq<AnyLayout>,
    root_width: u32,
    root_height: u32,
)
    requires
        0 < builders.len() <= usize::MAX,
        buildable(builders, layouts),
    ensures
        LantaView::initial(keys, builders, layouts, root_width, root_height).inv(),
        LantaView::initial(keys, builders, layouts, root_width, root_height).none_active(),
{
    let initial = LantaView::initial(keys, builders, layouts, root_width, root_height);
    assert forall|i: int| 0 <= i < initial.groups.len() implies (
    #[trigger] initial.groups.items[i]).wf() by {
        let wanted = builders[i].spec_default_layout();
        assert(layout_names(layouts).index_of_first(wanted) is Some);
        layout_names(layouts).index_of_first_ensures(wanted);
    }
    assert forall|window: WindowId| #[trigger]
        occurrences(initial.groups.items, window) <= 1 by {
        lemma_occurrences_of_empty_groups(initial.groups.items, window);
    }
}

/// Taking up the windows that are there keeps the manager's invariant,
/// makes no group active and tells the driver nothing of the focus.
pub proof fn lemma_manage_all(
    state: LantaView,
    windows: Seq<(WindowId, WindowProperties)>,
    root_width: u32,
    root_height: u32,
)
    requires
        state.inv(),
        state.none_active(),
    ensures
        state.manage_all(windows, root_width, root_height).inv(),
        state.manage_all(windows, root_width, root_height).none_active(),
        focus_told(None, state.manage_all_requests(windows, root_width, root_height)) is None,
    decreases windows.len(),
{
    if windows.len() > 0 {
        let earlier = windows.drop_last();
        let last = windows.last();
        let before = state.manage_all(earlier, root_width, root_height);
        lemma_manage_all(state, earlier, root_width, root_height);
        lemma_manage_window(
            before,
            last.0,
            last.1.is_dock(),
            last.1.strut_partial,
            root_width,
            root_height,
        );
        lemma_manage_keeps_activity(
            before,
            last.0,
            last.1.is_dock(),
            last.1.strut_partial,
            root_width,
            root_height,
        );
        let added = before.manage_requests(
            last.0,
            last.1.is_dock(),
            last.1.strut_partial,
            root_width,
            root_height,
        );
        lemma_focus_told_concat(
            None,
            state.manage_all_requests(earlier, root_width, root_height),
            added,
        );
        reveal_with_fuel(focus_told, 3);
        assert(added.len() == 2 ==> added.drop_last().drop_last() =~= Seq::<Request>::empty());
    }
}

/// Making the focused group active makes the manager well formed, and its
/// layout pass tells the driver which window is focused.
pub proof fn lemma_start(
    state: LantaView,
    root_width: u32,
    root_height: u32,
    before: Option<WindowId>,
)
    requires
        state.inv(),
        state.none_active(),
    ensures
        state.start(root_width, root_height).wf(),
        focus_told(before, state.start(root_width, root_height).active().layout_pass())
            == state.start(root_width, root_height).focused(),
{
    let rooted = state.with_root(root_width, root_height);
    let group = rooted.active().activate(rooted.usable());
    let after = state.start(root_width, root_height);
    lemma_with_active(rooted, group);
    assert forall|i: int| 0 <= i < after.groups.len() implies ((
    #[trigger] after.groups.items[i]).active <==> i == after.groups.focus) by {
        if i != rooted.groups.focus {
            assert(after.groups.items[i] == state.groups.items[i]);
        }
    }
    lemma_layout_pass_tells_focus(group, before);
}

} // verus!
