use lanta::debug::xcb_event_to_str;
use lanta::keys::KeyCombo;
use lanta::x::{close_method, delete_message_data, AtomLookup, CloseMethod, ConfigureRequest};
use lanta::x::{Event, Filtered, RawEvent, WindowId, WindowState, WindowType};

const ROOT: WindowId = WindowId(1);
const W: WindowId = WindowId(42);

fn request(value_mask: u16) -> ConfigureRequest {
    ConfigureRequest {
        window: W,
        value_mask,
        x: 10,
        y: -20,
        width: 300,
        height: 200,
        border_width: 2,
        sibling: 77,
        stack_mode: 1,
    }
}

#[test]
fn test_configure_request_grants_what_was_set() {
    assert_eq!(request(0).values(), vec![]);
    assert_eq!(request(1 | 4).values(), vec![(1, 10), (4, 300)]);
    assert_eq!(request(2).values(), vec![(2, (-20i32) as u32)]);
    assert_eq!(
        request(127).values(),
        vec![(1, 10), (2, 4294967276), (4, 300), (8, 200), (16, 2), (32, 77), (64, 1)]
    );
    assert_eq!(request(64 | 8).values(), vec![(8, 200), (64, 1)]);
    // Bits that stand for no value grant nothing.
    assert_eq!(request(128).values(), vec![]);
}

#[test]
fn test_filter_configure_request() {
    let filtered = RawEvent::ConfigureRequest(request(3)).filter(ROOT);
    assert_eq!(filtered, Filtered::Grant { window: W, values: vec![(1, 10), (2, 4294967276)] });
}

#[test]
fn test_filter_emits_events() {
    assert_eq!(
        RawEvent::MapRequest { window: W }.filter(ROOT),
        Filtered::Emit(Event::MapRequest(W))
    );
    assert_eq!(
        RawEvent::DestroyNotify { window: W }.filter(ROOT),
        Filtered::Emit(Event::DestroyNotify(W))
    );
    assert_eq!(
        RawEvent::EnterNotify { event: W }.filter(ROOT),
        Filtered::Emit(Event::EnterNotify(W))
    );
    assert_eq!(RawEvent::Other.filter(ROOT), Filtered::Swallow);
}

#[test]
fn test_filter_unmap_notify_by_source() {
    assert_eq!(
        RawEvent::UnmapNotify { event: W, window: W }.filter(ROOT),
        Filtered::Emit(Event::UnmapNotify(W))
    );
    assert_eq!(RawEvent::UnmapNotify { event: ROOT, window: W }.filter(ROOT), Filtered::Swallow);
}

#[test]
fn test_filter_key_press_masks_state() {
    // Mod4 and Shift held, with a button bit (0x100) and bits beyond the
    // modifiers set as well.
    let raw = RawEvent::KeyPress { state: 0x41 | 0x100 | 0x2000, keysym: 0x6a };
    assert_eq!(
        raw.filter(ROOT),
        Filtered::Emit(Event::KeyPress(KeyCombo { mod_mask: 0x41, keysym: 0x6a }))
    );
    let raw = RawEvent::KeyPress { state: 0xffff, keysym: 0xff0d };
    assert_eq!(
        raw.filter(ROOT),
        Filtered::Emit(Event::KeyPress(KeyCombo { mod_mask: 0xff, keysym: 0xff0d }))
    );
}

#[test]
fn test_close_method() {
    let delete_window = 300;
    assert_eq!(close_method(Some(&vec![299, 300, 301]), delete_window), CloseMethod::DeleteMessage);
    assert_eq!(close_method(Some(&vec![300]), delete_window), CloseMethod::DeleteMessage);
    assert_eq!(close_method(Some(&vec![299, 301]), delete_window), CloseMethod::Destroy);
    assert_eq!(close_method(Some(&vec![]), delete_window), CloseMethod::Destroy);
    assert_eq!(close_method(None, delete_window), CloseMethod::Destroy);
    assert_eq!(delete_message_data(delete_window), [300, 0, 0, 0, 0]);
}

#[test]
fn test_atom_lookup() {
    let mut types = AtomLookup::<WindowType>::new();
    types.insert(400, WindowType::Dock);
    types.insert(401, WindowType::Normal);
    types.insert(402, WindowType::Dialog);
    assert_eq!(types.get(400), Some(WindowType::Dock));
    assert_eq!(types.get(7), None);
    assert_eq!(
        types.values_of(Some(&vec![401, 999, 400, 401])),
        vec![WindowType::Normal, WindowType::Dock, WindowType::Normal]
    );
    assert_eq!(types.values_of(Some(&vec![998, 999])), vec![]);
    assert_eq!(types.values_of(Some(&vec![])), vec![]);
    assert_eq!(types.values_of(None), vec![]);
    types.insert(400, WindowType::Toolbar);
    assert_eq!(types.values_of(Some(&vec![400])), vec![WindowType::Toolbar]);
    let mut states = AtomLookup::<WindowState>::new();
    states.insert(500, WindowState::Fullscreen);
    assert_eq!(states.values_of(Some(&vec![500, 400])), vec![WindowState::Fullscreen]);
}

#[test]
fn test_event_names() {
    assert_eq!(xcb_event_to_str(2), "KeyPress");
    assert_eq!(xcb_event_to_str(7), "EnterNotify");
    assert_eq!(xcb_event_to_str(17), "DestroyNotify");
    assert_eq!(xcb_event_to_str(18), "UnmapNotify");
    assert_eq!(xcb_event_to_str(20), "MapRequest");
    assert_eq!(xcb_event_to_str(23), "ConfigureRequest");
    assert_eq!(xcb_event_to_str(36), "LASTEvent");
    assert_eq!(xcb_event_to_str(0), "Unknown");
    assert_eq!(xcb_event_to_str(1), "Unknown");
    assert_eq!(xcb_event_to_str(37), "Unknown");
    assert_eq!(xcb_event_to_str(255), "Unknown");
}
