use lanta::screen::{Dock, Margins, Screen};
use lanta::x::{StrutPartial, WindowId};
use lanta::Viewport;

fn strut(left: u32, right: u32, top: u32, bottom: u32) -> StrutPartial {
    StrutPartial {
        left,
        right,
        top,
        bottom,
        left_start_y: 7,
        left_end_y: 8,
        right_start_y: 9,
        right_end_y: 10,
        top_start_x: 11,
        top_end_x: 12,
        bottom_start_x: 13,
        bottom_end_x: 14,
    }
}

#[test]
fn test_viewport_without_docks() {
    let screen = Screen::new();
    assert!(screen.fits(1920, 1080));
    assert_eq!(
        screen.viewport(1920, 1080),
        Viewport { x: 0, y: 0, width: 1920, height: 1080 }
    );
    assert_eq!(Screen::default().margins(), Margins { left: 0, right: 0, top: 0, bottom: 0 });
}

#[test]
fn test_viewport_takes_largest_strut_of_each_side() {
    let mut screen = Screen::new();
    screen.add_dock(WindowId(1), Some(strut(0, 0, 30, 0)));
    screen.add_dock(WindowId(2), Some(strut(40, 10, 20, 0)));
    screen.add_dock(WindowId(3), None);
    screen.add_dock(WindowId(4), Some(strut(5, 60, 0, 25)));
    assert_eq!(screen.margins(), Margins { left: 40, right: 60, top: 30, bottom: 25 });
    assert_eq!(
        screen.viewport(1000, 800),
        Viewport { x: 40, y: 30, width: 900, height: 745 }
    );
}

#[test]
fn test_remove_dock() {
    let mut screen = Screen::new();
    screen.add_dock(WindowId(1), Some(strut(0, 0, 30, 0)));
    screen.add_dock(WindowId(2), Some(strut(0, 0, 50, 0)));
    screen.add_dock(WindowId(1), Some(strut(0, 0, 0, 10)));
    screen.remove_dock(&WindowId(1));
    assert_eq!(screen.viewport(1000, 800), Viewport { x: 0, y: 50, width: 1000, height: 750 });
    screen.remove_dock(&WindowId(7));
    assert_eq!(screen.viewport(1000, 800), Viewport { x: 0, y: 50, width: 1000, height: 750 });
    screen.remove_dock(&WindowId(2));
    assert_eq!(screen.viewport(1000, 800), Viewport { x: 0, y: 0, width: 1000, height: 800 });
}

#[test]
fn test_screen_fits() {
    let mut screen = Screen::new();
    screen.add_dock(WindowId(1), Some(strut(600, 400, 0, 800)));
    assert!(screen.fits(1000, 800));
    assert_eq!(screen.viewport(1000, 800), Viewport { x: 600, y: 0, width: 0, height: 0 });
    assert!(!screen.fits(999, 800));
    assert!(!screen.fits(1000, 799));
    screen.add_dock(WindowId(2), Some(strut(u32::MAX, u32::MAX, 0, 0)));
    assert!(!screen.fits(u32::MAX, u32::MAX));
}

#[test]
fn test_strut_and_dock_fields() {
    let strut = strut(1, 2, 3, 4);
    assert_eq!((strut.left(), strut.right(), strut.top(), strut.bottom()), (1, 2, 3, 4));
    let dock = Dock { window_id: WindowId(5), strut_partial: Some(strut) };
    assert_eq!(dock.window_id.to_x(), 5);
}
