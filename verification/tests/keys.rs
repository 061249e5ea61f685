use lanta::cmd::lazy;
use lanta::cmd::Command;
use lanta::keys::{KeyCombo, KeyHandlers};
use lanta::ModKey;

#[test]
fn test_mod_masks() {
    assert_eq!(ModKey::Shift.mask(), 1);
    assert_eq!(ModKey::Lock.mask(), 2);
    assert_eq!(ModKey::Control.mask(), 4);
    assert_eq!(ModKey::Mod1.mask(), 8);
    assert_eq!(ModKey::Mod2.mask(), 16);
    assert_eq!(ModKey::Mod3.mask(), 32);
    assert_eq!(ModKey::Mod4.mask(), 64);
    assert_eq!(ModKey::Mod5.mask(), 128);
    assert_eq!(ModKey::mask_all(), 255);
}

#[test]
fn test_key_combo_new() {
    assert_eq!(KeyCombo::new(&[], 0x61), KeyCombo { mod_mask: 0, keysym: 0x61 });
    assert_eq!(
        KeyCombo::new(&[ModKey::Mod4, ModKey::Shift], 0x61),
        KeyCombo { mod_mask: 65, keysym: 0x61 }
    );
    assert_eq!(
        KeyCombo::new(&[ModKey::Shift, ModKey::Mod4, ModKey::Shift], 0x61),
        KeyCombo { mod_mask: 65, keysym: 0x61 }
    );
    assert_eq!(
        KeyCombo::new(&[ModKey::Control, ModKey::Mod1], 0xff0d),
        KeyCombo { mod_mask: 12, keysym: 0xff0d }
    );
}

#[test]
fn test_key_combo_code() {
    let combo = KeyCombo { mod_mask: 65, keysym: 0x61 };
    assert_eq!(combo.code(), 65 * 0x1_0000_0000 + 0x61);
    assert_eq!(KeyCombo::from_code(combo.code()), combo);
    let extreme = KeyCombo { mod_mask: u32::MAX, keysym: u32::MAX };
    assert_eq!(extreme.code(), u64::MAX);
    assert_eq!(KeyCombo::from_code(u64::MAX), extreme);
    assert_ne!(
        KeyCombo { mod_mask: 1, keysym: 0 }.code(),
        KeyCombo { mod_mask: 0, keysym: 1 }.code()
    );
}

#[test]
fn test_key_handlers_get() {
    let handlers: Vec<(Vec<ModKey>, u32, Command)> = vec![
        (vec![ModKey::Mod4], 0x6a, lazy::focus_next()),
        (vec![ModKey::Mod4], 0x6b, lazy::focus_previous()),
        (vec![ModKey::Mod4, ModKey::Shift], 0x6a, lazy::shuffle_next()),
        (vec![ModKey::Mod4], 0x61, lazy::switch_group("chrome")),
        (vec![], 0x1008ff13, lazy::spawn("amixer", vec!["-q".to_owned(), "set".to_owned()])),
    ];
    let keys = KeyHandlers::from(handlers);
    assert!(matches!(
        keys.get(&KeyCombo { mod_mask: 64, keysym: 0x6a }),
        Some(Command::FocusNext)
    ));
    assert!(matches!(
        keys.get(&KeyCombo { mod_mask: 65, keysym: 0x6a }),
        Some(Command::ShuffleNext)
    ));
    match keys.get(&KeyCombo { mod_mask: 64, keysym: 0x61 }) {
        Some(Command::SwitchGroup(name)) => assert_eq!(name, "chrome"),
        _ => panic!("the switch is bound"),
    }
    match keys.get(&KeyCombo { mod_mask: 0, keysym: 0x1008ff13 }) {
        Some(Command::Spawn { program, args }) => {
            assert_eq!(program, "amixer");
            assert_eq!(args, vec!["-q".to_owned(), "set".to_owned()]);
        }
        _ => panic!("the spawn is bound"),
    }
    assert!(keys.get(&KeyCombo { mod_mask: 0, keysym: 0x6a }).is_none());
    assert!(keys.get(&KeyCombo { mod_mask: 64, keysym: 0x6c }).is_none());
}

#[test]
fn test_key_handlers_later_entry_replaces_earlier() {
    let handlers: Vec<(Vec<ModKey>, u32, Command)> = vec![
        (vec![ModKey::Mod4], 0x6a, lazy::focus_next()),
        (vec![ModKey::Mod4], 0x6a, lazy::layout_next()),
    ];
    let keys = KeyHandlers::from(handlers);
    assert!(matches!(
        keys.get(&KeyCombo { mod_mask: 64, keysym: 0x6a }),
        Some(Command::LayoutNext)
    ));
    assert_eq!(keys.key_combos(), vec![KeyCombo { mod_mask: 64, keysym: 0x6a }]);
}

#[test]
fn test_key_combos() {
    let handlers: Vec<(Vec<ModKey>, u32, Command)> = vec![
        (vec![ModKey::Mod4], 0x6a, lazy::focus_next()),
        (vec![ModKey::Mod4], 0x6b, lazy::focus_previous()),
        (vec![ModKey::Shift], 0x6a, lazy::close_focused_window()),
    ];
    let keys = KeyHandlers::from(handlers);
    let mut combos: Vec<(u32, u32)> =
        keys.key_combos().iter().map(|combo| (combo.mod_mask, combo.keysym)).collect();
    combos.sort();
    assert_eq!(combos, vec![(1, 0x6a), (64, 0x6a), (64, 0x6b)]);
    assert_eq!(KeyHandlers::from(vec![]).key_combos(), vec![]);
}

#[test]
fn test_lazy_commands() {
    assert!(matches!(lazy::close_focused_window(), Command::CloseFocusedWindow));
    assert!(matches!(lazy::focus_next(), Command::FocusNext));
    assert!(matches!(lazy::focus_previous(), Command::FocusPrevious));
    assert!(matches!(lazy::shuffle_next(), Command::ShuffleNext));
    assert!(matches!(lazy::shuffle_previous(), Command::ShufflePrevious));
    assert!(matches!(lazy::layout_next(), Command::LayoutNext));
    match lazy::move_window_to_group("misc").clone() {
        Command::MoveWindowToGroup(name) => assert_eq!(name, "misc"),
        _ => panic!("a move command"),
    }
    match lazy::spawn("urxvt", vec![]).clone() {
        Command::Spawn { program, args } => {
            assert_eq!(program, "urxvt");
            assert!(args.is_empty());
        }
        _ => panic!("a spawn command"),
    }
}
