use lanta::cmd::lazy;
use lanta::cmd::Command;
use lanta::errors::Error;
use lanta::keys::{KeyCombo, KeyHandlers};
use lanta::layout::{AnyLayout, StackLayout, TiledLayout};
use lanta::manager::WindowProperties;
use lanta::x::{Event, Filtered, RawEvent, Request, StrutPartial, WindowId, WindowType};
use lanta::{GroupBuilder, Lanta, ModKey, Viewport};

const A: WindowId = WindowId(11);
const B: WindowId = WindowId(12);
const C: WindowId = WindowId(13);
const PANEL: WindowId = WindowId(90);

const XK_J: u32 = 0x6a;
const XK_K: u32 = 0x6b;
const XK_W: u32 = 0x77;
const XK_TAB: u32 = 0xff09;
const XK_RETURN: u32 = 0xff0d;
const XK_A: u32 = 0x61;
const XK_S: u32 = 0x73;
const XK_X: u32 = 0x78;

fn keys() -> KeyHandlers {
    let handlers: Vec<(Vec<ModKey>, u32, Command)> = vec![
        (vec![ModKey::Mod4], XK_W, lazy::close_focused_window()),
        (vec![ModKey::Mod4], XK_J, lazy::focus_next()),
        (vec![ModKey::Mod4], XK_K, lazy::focus_previous()),
        (vec![ModKey::Mod4, ModKey::Shift], XK_J, lazy::shuffle_next()),
        (vec![ModKey::Mod4, ModKey::Shift], XK_K, lazy::shuffle_previous()),
        (vec![ModKey::Mod4], XK_TAB, lazy::layout_next()),
        (vec![ModKey::Mod4], XK_RETURN, lazy::spawn("urxvt", vec!["-e".to_owned()])),
        (vec![ModKey::Mod4], XK_A, lazy::switch_group("a")),
        (vec![ModKey::Mod4], XK_S, lazy::switch_group("b")),
        (vec![ModKey::Mod4], XK_X, lazy::switch_group("nonexistent")),
        (vec![ModKey::Mod4, ModKey::Shift], XK_S, lazy::move_window_to_group("b")),
        (vec![ModKey::Mod4, ModKey::Shift], XK_X, lazy::move_window_to_group("nonexistent")),
    ];
    KeyHandlers::from(handlers)
}

fn combo(mods: &[ModKey], keysym: u32) -> KeyCombo {
    KeyCombo::new(mods, keysym)
}

fn layouts() -> Vec<AnyLayout> {
    vec![
        AnyLayout::Tiled(TiledLayout::new("tiled", 10)),
        AnyLayout::Stack(StackLayout::new("stack", 20)),
    ]
}

fn plain() -> WindowProperties {
    WindowProperties { types: vec![WindowType::Normal], strut_partial: None }
}

fn dock(top: u32) -> WindowProperties {
    WindowProperties {
        types: vec![WindowType::Utility, WindowType::Dock],
        strut_partial: Some(StrutPartial {
            left: 0,
            right: 0,
            top,
            bottom: 0,
            left_start_y: 0,
            left_end_y: 0,
            right_start_y: 0,
            right_end_y: 0,
            top_start_x: 0,
            top_end_x: 999,
            bottom_start_x: 0,
            bottom_end_x: 0,
        }),
    }
}

fn manager() -> Lanta {
    let groups = vec![GroupBuilder::new("a", "tiled"), GroupBuilder::new("b", "stack")];
    let (wm, requests) = Lanta::new(keys(), groups, &layouts(), &vec![], 1000, 800).unwrap();
    assert_eq!(requests, vec![Request::FocusNothing, Request::UpdateEwmhDesktops]);
    wm
}

fn showing(window: WindowId, x: u32, y: u32, width: u32, height: u32) -> Vec<Request> {
    vec![
        Request::DisableWindowTracking(window),
        Request::MapWindow(window),
        Request::ConfigureWindow { window, x, y, width, height },
        Request::EnableWindowTracking(window),
    ]
}

fn presenting(window: WindowId, x: u32, y: u32, width: u32, height: u32) -> Vec<Request> {
    vec![
        Request::DisableWindowTracking(window),
        Request::ConfigureWindow { window, x, y, width, height },
        Request::MapWindow(window),
        Request::EnableWindowTracking(window),
    ]
}

fn hiding(window: WindowId) -> Vec<Request> {
    vec![
        Request::DisableWindowTracking(window),
        Request::UnmapWindow(window),
        Request::EnableWindowTracking(window),
    ]
}

#[test]
fn test_new_without_groups_fails() {
    let made = Lanta::new(keys(), vec![], &layouts(), &vec![], 1000, 800);
    assert_eq!(made.err(), Some(Error::NoGroups));
}

#[test]
fn test_new_with_unknown_layout_fails() {
    let groups = vec![GroupBuilder::new("a", "tiled"), GroupBuilder::new("b", "spiral")];
    let made = Lanta::new(keys(), groups, &layouts(), &vec![], 1000, 800);
    assert_eq!(made.err(), Some(Error::UnknownLayout));
    assert_eq!(Error::NoGroups.message(), "No groups were given");
    assert_eq!(Error::UnknownGroup.message(), "No group has this name");
    assert_eq!(
        Error::UnknownLayout.message(),
        "No layout has the name of a group's default layout"
    );
}

#[test]
fn test_new_adopts_existing_windows() {
    let groups = vec![GroupBuilder::new("a", "tiled"), GroupBuilder::new("b", "stack")];
    let existing = vec![(A, plain()), (PANEL, dock(30)), (B, plain()), (A, plain())];
    let (wm, requests) = Lanta::new(keys(), groups, &layouts(), &existing, 1000, 800).unwrap();
    let mut expected = vec![
        Request::EnableWindowKeyEvents(A),
        Request::EnableWindowTracking(A),
        Request::EnableWindowKeyEvents(PANEL),
        Request::MapWindow(PANEL),
        Request::EnableWindowKeyEvents(B),
        Request::EnableWindowTracking(B),
    ];
    // viewport {0, 30, 1000, 770}: rows of (770 - 10) / 2 - 10 = 370
    expected.extend(showing(A, 10, 40, 980, 370));
    expected.extend(showing(B, 10, 420, 980, 370));
    expected.push(Request::FocusWindow(B));
    expected.push(Request::UpdateEwmhDesktops);
    assert_eq!(requests, expected);
    assert_eq!(wm.group().windows(), vec![A, B]);
    assert_eq!(wm.group().viewport(), Viewport { x: 0, y: 30, width: 1000, height: 770 });
    assert!(wm.group().is_active());
    assert_eq!(wm.group().name(), "a");
    assert!(!wm.is_window_managed(&PANEL));
}

#[test]
fn test_tile_three_windows() {
    let mut wm = manager();
    wm.on_map_request(A, &plain(), 1000, 800);
    wm.on_map_request(B, &plain(), 1000, 800);
    let requests = wm.on_map_request(C, &plain(), 1000, 800);
    let mut expected =
        vec![Request::EnableWindowKeyEvents(C), Request::EnableWindowTracking(C)];
    expected.extend(showing(A, 10, 10, 980, 253));
    expected.extend(showing(B, 10, 273, 980, 253));
    expected.extend(showing(C, 10, 536, 980, 253));
    expected.push(Request::FocusWindow(C));
    assert_eq!(requests, expected);
    assert_eq!(wm.group().focused(), Some(C));
    assert_eq!(wm.group().windows(), vec![A, B, C]);
}

#[test]
fn test_stack_layout_visibility() {
    let mut wm = manager();
    wm.on_map_request(A, &plain(), 1000, 800);
    wm.on_map_request(B, &plain(), 1000, 800);
    wm.on_map_request(C, &plain(), 1000, 800);
    let outcome = wm.on_key_press(combo(&[ModKey::Mod4], XK_TAB), 1000, 800);
    assert_eq!(outcome.error, None);
    let mut expected = hiding(A);
    expected.extend(hiding(B));
    expected.extend(presenting(C, 20, 20, 960, 760));
    expected.push(Request::FocusWindow(C));
    assert_eq!(outcome.requests, expected);
    // A and B are unmapped, C is configured and mapped, and C is focused at the end.
    assert!(outcome.requests.contains(&Request::UnmapWindow(A)));
    assert!(outcome.requests.contains(&Request::UnmapWindow(B)));
    assert!(outcome.requests.contains(&Request::MapWindow(C)));
    assert!(outcome.requests.contains(&Request::ConfigureWindow {
        window: C,
        x: 20,
        y: 20,
        width: 960,
        height: 760
    }));
    assert_eq!(outcome.requests.last(), Some(&Request::FocusWindow(C)));
    // C is given its place before it is mapped.
    let configured = outcome
        .requests
        .iter()
        .position(|request| matches!(request, Request::ConfigureWindow { window, .. } if *window == C));
    let mapped = outcome.requests.iter().position(|request| *request == Request::MapWindow(C));
    assert!(configured.is_some() && mapped.is_some());
    assert!(configured < mapped);
    // A and B are neither mapped nor configured, and C is not unmapped.
    assert!(!outcome.requests.contains(&Request::MapWindow(A)));
    assert!(!outcome.requests.contains(&Request::MapWindow(B)));
    assert!(!outcome.requests.contains(&Request::UnmapWindow(C)));
    assert!(!outcome.requests.iter().any(|request| matches!(
        request,
        Request::ConfigureWindow { window, .. } if *window == A || *window == B
    )));
}

#[test]
fn test_shuffle_next_preserves_focus() {
    let mut wm = manager();
    wm.on_map_request(A, &plain(), 1000, 800);
    wm.on_map_request(B, &plain(), 1000, 800);
    wm.on_map_request(C, &plain(), 1000, 800);
    let shuffle = combo(&[ModKey::Mod4, ModKey::Shift], XK_J);
    let outcome = wm.on_key_press(shuffle, 1000, 800);
    assert_eq!(wm.group().windows(), vec![C, A, B]);
    assert_eq!(wm.group().focused(), Some(C));
    assert_eq!(outcome.requests.last(), Some(&Request::FocusWindow(C)));
    wm.on_key_press(shuffle, 1000, 800);
    assert_eq!(wm.group().windows(), vec![A, C, B]);
    assert_eq!(wm.group().focused(), Some(C));
    wm.on_key_press(shuffle, 1000, 800);
    assert_eq!(wm.group().windows(), vec![A, B, C]);
    assert_eq!(wm.group().focused(), Some(C));
    wm.on_key_press(combo(&[ModKey::Shift, ModKey::Mod4], XK_K), 1000, 800);
    assert_eq!(wm.group().windows(), vec![A, C, B]);
}

#[test]
fn test_close_focused() {
    let mut wm = manager();
    wm.on_map_request(B, &plain(), 1000, 800);
    wm.on_map_request(C, &plain(), 1000, 800);
    let outcome = wm.on_key_press(combo(&[ModKey::Mod4], XK_W), 1000, 800);
    assert_eq!(outcome.requests, vec![Request::CloseWindow(C)]);
    assert_eq!(wm.group().windows(), vec![B, C]);
    let requests = wm.on_unmap_notify(&C, 1000, 800);
    assert_eq!(wm.group().windows(), vec![B]);
    assert_eq!(wm.group().focused(), Some(B));
    let mut expected = showing(B, 10, 10, 980, 780);
    expected.push(Request::FocusWindow(B));
    expected.extend(hiding(C));
    expected.extend(showing(B, 10, 10, 980, 780));
    expected.push(Request::FocusWindow(B));
    assert_eq!(requests, expected);
    assert!(!wm.is_window_managed(&C));
}

#[test]
fn test_move_to_absent_group() {
    let mut wm = manager();
    wm.on_map_request(A, &plain(), 1000, 800);
    let outcome = wm.move_focused_to_group("nonexistent");
    assert_eq!(outcome.error, Some(Error::UnknownGroup));
    let mut expected = vec![Request::FocusNothing];
    expected.extend(hiding(A));
    assert_eq!(outcome.requests, expected);
    assert_eq!(wm.group().windows(), vec![]);
    assert!(!wm.is_window_managed(&A));
    // With no window to move the group is still missed.
    let outcome = wm.on_key_press(combo(&[ModKey::Mod4, ModKey::Shift], XK_X), 1000, 800);
    assert_eq!(outcome.error, Some(Error::UnknownGroup));
    assert_eq!(outcome.requests, vec![Request::FocusNothing]);
}

#[test]
fn test_move_to_other_group() {
    let mut wm = manager();
    wm.on_map_request(A, &plain(), 1000, 800);
    wm.on_map_request(B, &plain(), 1000, 800);
    let outcome = wm.on_key_press(combo(&[ModKey::Mod4, ModKey::Shift], XK_S), 1000, 800);
    assert_eq!(outcome.error, None);
    let mut expected = showing(A, 10, 10, 980, 780);
    expected.push(Request::FocusWindow(A));
    expected.extend(hiding(B));
    assert_eq!(outcome.requests, expected);
    assert_eq!(wm.group().windows(), vec![A]);
    assert!(wm.is_window_managed(&B));
    // Moving to the active group does nothing.
    let outcome = wm.move_focused_to_group("a");
    assert_eq!(outcome.requests, vec![]);
    assert_eq!(outcome.error, None);
    assert_eq!(wm.group().windows(), vec![A]);
    wm.switch_group("b", 1000, 800);
    assert_eq!(wm.group().windows(), vec![B]);
    assert_eq!(wm.group().focused(), Some(B));
}

#[test]
fn test_switch_group_and_back() {
    let mut wm = manager();
    wm.on_map_request(A, &plain(), 1000, 800);
    wm.on_map_request(B, &plain(), 1000, 800);
    let outcome = wm.on_key_press(combo(&[ModKey::Mod4], XK_S), 1000, 800);
    assert_eq!(outcome.error, None);
    let mut expected = hiding(A);
    expected.extend(hiding(B));
    expected.push(Request::FocusNothing);
    expected.push(Request::UpdateEwmhDesktops);
    assert_eq!(outcome.requests, expected);
    assert_eq!(wm.group().name(), "b");
    assert!(wm.group().is_active());
    assert_eq!(wm.group().windows(), vec![]);
    assert_eq!(wm.ewmh_desktops().current, 1);
    // The manager's own unmaps come back from the root window and are dropped.
    let root = WindowId(1);
    assert_eq!(RawEvent::UnmapNotify { event: root, window: A }.filter(root), Filtered::Swallow);
    assert_eq!(RawEvent::UnmapNotify { event: root, window: B }.filter(root), Filtered::Swallow);
    let outcome = wm.switch_group("a", 1000, 800);
    let mut expected = showing(A, 10, 10, 980, 385);
    expected.extend(showing(B, 10, 405, 980, 385));
    expected.push(Request::FocusWindow(B));
    expected.push(Request::UpdateEwmhDesktops);
    assert_eq!(outcome.requests, expected);
    assert_eq!(wm.group().name(), "a");
    assert_eq!(wm.group().windows(), vec![A, B]);
    assert_eq!(wm.group().focused(), Some(B));
    // Switching to the active group does nothing.
    let outcome = wm.switch_group("a", 1000, 800);
    assert_eq!(outcome.requests, vec![]);
    assert_eq!(outcome.error, None);
}

#[test]
fn test_switch_to_unknown_group_changes_nothing() {
    let mut wm = manager();
    wm.on_map_request(A, &plain(), 1000, 800);
    let outcome = wm.on_key_press(combo(&[ModKey::Mod4], XK_X), 1000, 800);
    assert_eq!(outcome.error, Some(Error::UnknownGroup));
    assert_eq!(outcome.requests, vec![]);
    assert_eq!(wm.group().name(), "a");
    assert!(wm.group().is_active());
    assert_eq!(wm.group().windows(), vec![A]);
}

#[test]
fn test_window_is_in_at_most_one_group() {
    let mut wm = manager();
    wm.on_map_request(A, &plain(), 1000, 800);
    wm.switch_group("b", 1000, 800);
    // A is managed by group "a": a second map request does not add it to "b".
    let requests = wm.on_map_request(A, &plain(), 1000, 800);
    assert_eq!(requests, vec![]);
    assert_eq!(wm.group().windows(), vec![]);
    assert_eq!(wm.manage_window(A, &plain(), 1000, 800), vec![]);
    assert_eq!(wm.group().windows(), vec![]);
    wm.switch_group("a", 1000, 800);
    assert_eq!(wm.group().windows(), vec![A]);
    // Unmanaging from the inactive group.
    wm.switch_group("b", 1000, 800);
    let requests = wm.on_destroy_notify(&A, 1000, 800);
    let mut expected = hiding(A);
    expected.push(Request::FocusNothing);
    assert_eq!(requests, expected);
    assert!(!wm.is_window_managed(&A));
}

#[test]
fn test_map_request_of_managed_window_focuses_it() {
    let mut wm = manager();
    wm.on_map_request(A, &plain(), 1000, 800);
    wm.on_map_request(B, &plain(), 1000, 800);
    let requests = wm.on_map_request(A, &plain(), 1000, 800);
    let mut expected = showing(A, 10, 10, 980, 385);
    expected.extend(showing(B, 10, 405, 980, 385));
    expected.push(Request::FocusWindow(A));
    assert_eq!(requests, expected);
    assert_eq!(wm.group().focused(), Some(A));
    assert_eq!(wm.group().windows(), vec![A, B]);
}

#[test]
fn test_enter_notify_focuses_window_of_active_group() {
    let mut wm = manager();
    wm.on_map_request(A, &plain(), 1000, 800);
    wm.on_map_request(B, &plain(), 1000, 800);
    let requests = wm.on_enter_notify(&A);
    assert_eq!(requests.last(), Some(&Request::FocusWindow(A)));
    assert_eq!(wm.group().focused(), Some(A));
    // A window that the active group does not hold: nothing happens.
    assert_eq!(wm.on_enter_notify(&C), vec![]);
    assert_eq!(wm.group().focused(), Some(A));
}

#[test]
fn test_dock_changes_viewport() {
    let mut wm = manager();
    wm.on_map_request(A, &plain(), 1000, 800);
    let requests = wm.on_map_request(PANEL, &dock(24), 1000, 800);
    let mut expected = vec![Request::EnableWindowKeyEvents(PANEL), Request::MapWindow(PANEL)];
    // viewport {0, 24, 1000, 776}: one row of (776 - 10) - 10 = 756
    expected.extend(showing(A, 10, 34, 980, 756));
    expected.push(Request::FocusWindow(A));
    assert_eq!(requests, expected);
    assert_eq!(wm.group().viewport(), Viewport { x: 0, y: 24, width: 1000, height: 776 });
    assert_eq!(wm.group().windows(), vec![A]);
    // The new group gets the same viewport.
    wm.switch_group("b", 1000, 800);
    assert_eq!(wm.group().viewport(), Viewport { x: 0, y: 24, width: 1000, height: 776 });
    // The root window has changed its size.
    wm.on_unmap_notify(&C, 1280, 1024);
    assert_eq!(wm.group().viewport(), Viewport { x: 0, y: 24, width: 1280, height: 1000 });
    // The dock goes.
    let requests = wm.on_unmap_notify(&PANEL, 1280, 1024);
    assert_eq!(requests, vec![Request::FocusNothing]);
    assert_eq!(wm.group().viewport(), Viewport { x: 0, y: 0, width: 1280, height: 1024 });
}

#[test]
fn test_docks_larger_than_the_screen_keep_the_viewport() {
    let mut wm = manager();
    wm.on_map_request(PANEL, &dock(5000), 1000, 800);
    assert_eq!(wm.group().viewport(), Viewport { x: 0, y: 0, width: 1000, height: 800 });
    wm.on_unmap_notify(&C, 1000, 6000);
    assert_eq!(wm.group().viewport(), Viewport { x: 0, y: 5000, width: 1000, height: 1000 });
}

#[test]
fn test_key_press_commands() {
    let mut wm = manager();
    wm.on_map_request(A, &plain(), 1000, 800);
    wm.on_map_request(B, &plain(), 1000, 800);
    let outcome = wm.on_key_press(combo(&[ModKey::Mod4], XK_J), 1000, 800);
    assert_eq!(outcome.requests.last(), Some(&Request::FocusWindow(A)));
    let outcome = wm.on_key_press(combo(&[ModKey::Mod4], XK_K), 1000, 800);
    assert_eq!(outcome.requests.last(), Some(&Request::FocusWindow(B)));
    let spawn = combo(&[ModKey::Mod4], XK_RETURN);
    let outcome = wm.on_key_press(spawn, 1000, 800);
    assert_eq!(outcome.requests, vec![Request::Spawn(spawn)]);
    assert_eq!(outcome.error, None);
    match wm.keys().get(&spawn) {
        Some(Command::Spawn { program, args }) => {
            assert_eq!(program, "urxvt");
            assert_eq!(args, vec!["-e".to_owned()]);
        }
        _ => panic!("the spawn command is bound"),
    }
    // An unbound key does nothing.
    let outcome = wm.on_key_press(combo(&[], XK_J), 1000, 800);
    assert_eq!(outcome.requests, vec![]);
    assert_eq!(outcome.error, None);
    assert_eq!(wm.group().windows(), vec![A, B]);
    assert_eq!(wm.focus_previous().last(), Some(&Request::FocusWindow(A)));
    assert_eq!(wm.layout_previous().last(), Some(&Request::FocusWindow(A)));
}

#[test]
fn test_handle_dispatches_events() {
    let mut wm = manager();
    let outcome = wm.handle(Event::MapRequest(A), &plain(), 1000, 800);
    assert_eq!(outcome.requests.last(), Some(&Request::FocusWindow(A)));
    let outcome = wm.handle(Event::MapRequest(B), &plain(), 1000, 800);
    assert_eq!(outcome.requests.last(), Some(&Request::FocusWindow(B)));
    let outcome = wm.handle(Event::EnterNotify(A), &plain(), 1000, 800);
    assert_eq!(outcome.requests.last(), Some(&Request::FocusWindow(A)));
    let outcome =
        wm.handle(Event::KeyPress(combo(&[ModKey::Mod4], XK_X)), &plain(), 1000, 800);
    assert_eq!(outcome.error, Some(Error::UnknownGroup));
    let outcome = wm.handle(Event::UnmapNotify(A), &plain(), 1000, 800);
    assert_eq!(outcome.requests.last(), Some(&Request::FocusWindow(B)));
    let outcome = wm.handle(Event::DestroyNotify(B), &plain(), 1000, 800);
    assert_eq!(outcome.requests.last(), Some(&Request::FocusNothing));
    assert_eq!(outcome.error, None);
    assert_eq!(wm.group().windows(), vec![]);
}

#[test]
fn test_ewmh_desktops() {
    let mut wm = manager();
    let desktops = wm.ewmh_desktops();
    assert_eq!(desktops.names, vec!["a".to_owned(), "b".to_owned()]);
    assert_eq!(desktops.number, 2);
    assert_eq!(desktops.current, 0);
    wm.switch_group("b", 1000, 800);
    assert_eq!(wm.ewmh_desktops().current, 1);
    assert_eq!(wm.ewmh_desktops().number, 2);
}

#[test]
fn test_window_properties_dock() {
    assert!(dock(1).is_dock());
    assert!(!plain().is_dock());
    assert!(!WindowProperties { types: vec![], strut_partial: None }.is_dock());
}

fn told(before: Option<WindowId>, requests: &[Request]) -> Option<WindowId> {
    let mut told = before;
    for request in requests {
        match request {
            Request::FocusWindow(window) => told = Some(*window),
            Request::FocusNothing => told = None,
            _ => {}
        }
    }
    told
}

#[test]
fn test_driver_is_told_the_focus_after_every_event() {
    let groups = vec![GroupBuilder::new("a", "tiled"), GroupBuilder::new("b", "stack")];
    let existing = vec![(A, plain())];
    let (mut wm, requests) = Lanta::new(keys(), groups, &layouts(), &existing, 1000, 800).unwrap();
    let mut focus = told(None, &requests);
    assert_eq!(focus, wm.group().focused());
    let events = vec![
        Event::MapRequest(B),
        Event::MapRequest(PANEL),
        Event::KeyPress(combo(&[ModKey::Mod4], XK_J)),
        Event::KeyPress(combo(&[ModKey::Mod4, ModKey::Shift], XK_K)),
        Event::KeyPress(combo(&[ModKey::Mod4], XK_W)),
        Event::EnterNotify(B),
        Event::EnterNotify(C),
        Event::KeyPress(combo(&[ModKey::Mod4], XK_RETURN)),
        Event::KeyPress(combo(&[ModKey::Mod4, ModKey::Shift], XK_S)),
        Event::KeyPress(combo(&[ModKey::Mod4], XK_S)),
        Event::MapRequest(C),
        Event::MapRequest(A),
        Event::KeyPress(combo(&[ModKey::Mod4], XK_TAB)),
        Event::UnmapNotify(A),
        Event::DestroyNotify(C),
        Event::KeyPress(combo(&[ModKey::Mod4], XK_X)),
        Event::KeyPress(combo(&[ModKey::Mod4], XK_A)),
        Event::UnmapNotify(PANEL),
        Event::KeyPress(combo(&[ModKey::Mod4, ModKey::Shift], XK_X)),
        Event::DestroyNotify(B),
    ];
    for event in events {
        let properties = match event {
            Event::MapRequest(window) if window == PANEL => dock(24),
            _ => plain(),
        };
        let outcome = wm.handle(event, &properties, 1000, 800);
        focus = told(focus, &outcome.requests);
        assert_eq!(focus, wm.group().focused());
        assert!(wm.group().is_active());
    }
}

#[test]
fn test_viewport_follows_docks_and_root() {
    let mut wm = manager();
    let whole = Viewport { x: 0, y: 0, width: 1000, height: 800 };
    assert_eq!(wm.group().viewport(), whole);
    wm.handle(Event::MapRequest(PANEL), &dock(30), 1000, 800);
    let below = Viewport { x: 0, y: 30, width: 1000, height: 770 };
    assert_eq!(wm.group().viewport(), below);
    wm.handle(Event::MapRequest(A), &plain(), 1000, 800);
    assert_eq!(wm.group().viewport(), below);
    wm.handle(Event::KeyPress(combo(&[ModKey::Mod4], XK_S)), &plain(), 1000, 800);
    assert_eq!(wm.group().viewport(), below);
    wm.handle(Event::KeyPress(combo(&[ModKey::Mod4], XK_A)), &plain(), 1600, 900);
    assert_eq!(wm.group().viewport(), Viewport { x: 0, y: 30, width: 1600, height: 870 });
    wm.handle(Event::DestroyNotify(PANEL), &plain(), 1600, 900);
    assert_eq!(wm.group().viewport(), Viewport { x: 0, y: 0, width: 1600, height: 900 });
}
