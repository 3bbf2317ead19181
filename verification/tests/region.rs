use waypoint::config::{Axis, Button, Cmd, Direction, DoubleBuffered};
use waypoint::region::{OutputState, Point, Region};

fn region(x: i32, y: i32, width: i32, height: i32) -> Region {
    Region { x, y, width, height }
}

#[test]
fn halves() {
    let r = region(10, 20, 101, 50);
    assert_eq!(r.cut_up(), region(10, 20, 101, 25));
    assert_eq!(r.cut_down(), region(10, 45, 101, 25));
    assert_eq!(r.cut_left(), region(10, 20, 50, 50));
    assert_eq!(r.cut_right(), region(60, 20, 50, 50));
    assert_eq!(r.center(), Point { x: 60, y: 45 });
    assert_eq!(region(0, 0, -3, -5).cut_left(), region(0, 0, -1, -5));
    assert_eq!(region(0, 0, -3, -5).cut_down(), region(0, -2, -3, -2));
    assert_eq!(region(0, 0, i32::MIN, 0).cut_left().width, i32::MIN / 2);
}

#[test]
fn moves() {
    let r = region(10, 20, 30, 40);
    assert_eq!(r.move_up(), region(10, -20, 30, 40));
    assert_eq!(r.move_down(), region(10, 60, 30, 40));
    assert_eq!(r.move_left(), region(-20, 20, 30, 40));
    assert_eq!(r.move_right(), region(40, 20, 30, 40));
    assert_eq!(region(i32::MAX - 1, i32::MIN + 1, 5, 5).move_right().x, i32::MAX);
    assert_eq!(region(i32::MAX - 1, i32::MIN + 1, 5, 5).move_up().y, i32::MIN);
}

#[test]
fn containing() {
    let r = region(0, 0, 10, 10);
    assert!(r.contains(0, 0));
    assert!(r.contains(9, 9));
    assert!(!r.contains(10, 9));
    assert!(!r.contains(-1, 0));
    assert!(r.contains_region(&region(0, 0, 10, 10)));
    assert!(r.contains_region(&region(5, 5, 5, 5)));
    assert!(!r.contains_region(&region(5, 5, 6, 5)));
    assert!(!r.contains_region(&region(-1, 0, 5, 5)));
    assert_eq!(r.right(), 10);
    assert_eq!(region(3, 4, 5, 6).bottom(), 10);
}

#[test]
fn scaling_and_joining() {
    assert_eq!(region(1, 2, 3, 4).scale(3), region(3, 6, 9, 12));
    assert_eq!(region(0, 0, 10, 10).union(&region(5, -5, 10, 10)), region(0, -5, 15, 15));
    assert_eq!(region(0, 0, 1, 1).union(&region(0, 0, 1, 1)), region(0, 0, 1, 1));
}

#[test]
fn commands_by_name() {
    assert_eq!(Cmd::from_kebab_case("quit"), Some(Cmd::Quit));
    assert_eq!(Cmd::from_kebab_case("undo"), Some(Cmd::Undo));
    assert_eq!(Cmd::from_kebab_case("left-click"), Some(Cmd::Click(Button::Left)));
    assert_eq!(Cmd::from_kebab_case("middle-press"), Some(Cmd::Press(Button::Middle)));
    assert_eq!(Cmd::from_kebab_case("right-release"), Some(Cmd::Release(Button::Right)));
    assert_eq!(Cmd::from_kebab_case("cut-up"), Some(Cmd::Cut(Direction::Up)));
    assert_eq!(Cmd::from_kebab_case("move-right"), Some(Cmd::Move(Direction::Right)));
    assert_eq!(Cmd::from_kebab_case("scroll-up"), Some(Cmd::Scroll(Axis::Vertical, -1)));
    assert_eq!(Cmd::from_kebab_case("scroll-down"), Some(Cmd::Scroll(Axis::Vertical, 1)));
    assert_eq!(Cmd::from_kebab_case("scroll-left"), Some(Cmd::Scroll(Axis::Horizontal, -1)));
    assert_eq!(Cmd::from_kebab_case("scroll-right"), Some(Cmd::Scroll(Axis::Horizontal, 1)));
    assert_eq!(Cmd::from_kebab_case("Quit"), None);
    assert_eq!(Cmd::from_kebab_case(""), None);
    assert_eq!(Axis::Vertical.code(), 0);
    assert_eq!(Axis::Horizontal.code(), 1);
}

#[test]
fn committing() {
    let mut state = DoubleBuffered { pending: 1u32, current: None };
    state.commit();
    assert_eq!(state.current, Some(1));
    state.pending = 2;
    assert_eq!(state.current, Some(1));
    state.commit();
    assert_eq!(state.current, Some(2));
}

#[test]
fn the_region_of_an_output() {
    let state = OutputState {
        integer_scale: 2,
        logical_x: 1920,
        logical_y: 0,
        logical_width: 1280,
        logical_height: 720,
    };
    assert_eq!(state.region(), region(1920, 0, 1280, 720));
}
