use waypoint::config::{Axis, Button, Cmd, Direction};
use waypoint::ids::{bind_global, Global, Sequence};
use waypoint::pointer::{Buttons, Pointer, Scroll};
use waypoint::region::Region;

fn region(x: i32, y: i32, width: i32, height: i32) -> Region {
    Region { x, y, width, height }
}

#[test]
fn cutting_and_undoing() {
    let screen = region(0, 0, 1920, 1080);
    let mut pointer = Pointer::new(screen, Some(screen));
    pointer.handle_key_pressed(&vec![Cmd::Cut(Direction::Left), Cmd::Cut(Direction::Down)]);
    assert_eq!(pointer.region, region(0, 540, 960, 540));
    assert_eq!(pointer.history, vec![screen, region(0, 0, 960, 1080)]);
    pointer.handle_key_pressed(&vec![Cmd::Undo]);
    assert_eq!(pointer.region, region(0, 0, 960, 1080));
    assert_eq!(pointer.history, vec![screen]);
    pointer.handle_key_pressed(&vec![Cmd::Undo, Cmd::Undo, Cmd::Undo]);
    assert_eq!(pointer.region, screen);
    assert!(pointer.history.is_empty());
    assert!(!pointer.quit);
}

#[test]
fn moving_stays_in_the_bounds() {
    let screen = region(0, 0, 100, 100);
    let mut pointer = Pointer::new(region(0, 0, 50, 50), Some(screen));
    pointer.apply(Cmd::Move(Direction::Right));
    assert_eq!(pointer.region, region(50, 0, 50, 50));
    pointer.apply(Cmd::Move(Direction::Right));
    // out of the bounds: the rectangle stays, and is remembered all the same
    assert_eq!(pointer.region, region(50, 0, 50, 50));
    assert_eq!(pointer.history.len(), 2);
    pointer.apply(Cmd::Move(Direction::Up));
    assert_eq!(pointer.region, region(50, 0, 50, 50));
    pointer.apply(Cmd::Move(Direction::Down));
    assert_eq!(pointer.region, region(50, 50, 50, 50));
    pointer.apply(Cmd::Move(Direction::Left));
    assert_eq!(pointer.region, region(0, 50, 50, 50));
    // without bounds nothing moves
    let mut lost = Pointer::new(region(0, 0, 50, 50), None);
    lost.apply(Cmd::Cut(Direction::Up));
    assert_eq!(lost.region, region(0, 0, 50, 50));
}

#[test]
fn buttons_and_wheels() {
    let screen = region(0, 0, 100, 100);
    let mut pointer = Pointer::new(screen, Some(screen));
    pointer.handle_key_pressed(&vec![
        Cmd::Press(Button::Right),
        Cmd::Scroll(Axis::Vertical, -1),
        Cmd::Scroll(Axis::Horizontal, 1),
        Cmd::Release(Button::Middle),
    ]);
    assert_eq!(pointer.press, Some(0x111));
    assert_eq!(pointer.release, Some(0x112));
    assert_eq!(
        pointer.scroll,
        vec![
            Scroll { axis: Axis::Vertical, amount: -1 },
            Scroll { axis: Axis::Horizontal, amount: 1 }
        ]
    );
    assert!(!pointer.quit);
    pointer.apply(Cmd::Click(Button::Left));
    assert_eq!(pointer.press, Some(0x110));
    assert_eq!(pointer.release, Some(0x110));
    assert!(pointer.quit);
    let mut other = Pointer::new(screen, None);
    other.apply(Cmd::Quit);
    assert!(other.quit);
}

#[test]
fn buttons_held_down() {
    let mut buttons = Buttons::new();
    assert!(buttons.insert(0x110));
    assert!(!buttons.insert(0x110));
    assert!(buttons.insert(0x111));
    assert!(buttons.remove(0x110));
    assert!(!buttons.remove(0x110));
    assert!(!buttons.remove(0x112));
    assert!(buttons.remove(0x111));
    assert!(buttons.insert(0x110));
}

#[test]
fn which_global_to_bind() {
    let offers = vec![
        Global { name: 7, version: 1 },
        Global { name: 8, version: 5 },
        Global { name: 9, version: 3 },
    ];
    assert_eq!(bind_global(&offers, 2, 4), Some(Global { name: 8, version: 4 }));
    assert_eq!(bind_global(&offers, 1, 1), Some(Global { name: 7, version: 1 }));
    assert_eq!(bind_global(&offers, 3, 9), Some(Global { name: 8, version: 5 }));
    assert_eq!(bind_global(&offers, 6, 9), None);
    assert_eq!(bind_global(&vec![], 0, 0), None);
}

#[test]
fn numbers_in_sequence() {
    let mut ids: Sequence<&str> = Sequence::new();
    assert_eq!(ids.create("handshake"), 0);
    assert_eq!(ids.create("connection"), 1);
    assert_eq!(ids.data_for(1), Some(&"connection"));
    assert_eq!(ids.data_for(0), Some(&"handshake"));
    assert_eq!(ids.data_for(2), None);
}
