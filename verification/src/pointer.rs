//! What the commands of a key do to the rectangle that the pointer aims at,
//! and which buttons and wheels they move.

use crate::config::{Axis, Cmd, Direction};
use crate::region::{clamped, half, Region};
use vstd::prelude::*;

verus! {

/// One step of a wheel: the axis, and 1 for forward or -1 for backward.
#[derive(Clone, Copy, Debug, PartialEq, Eq, Structural)]
pub struct Scroll {
    pub axis: Axis,
    pub amount: i32,
}

/// The rectangle aimed at, the rectangles it was before, the rectangle it is
/// to stay in, and what the commands so far ask of the pointer.
#[derive(Debug)]
pub struct Pointer {
    pub quit: bool,
    pub region: Region,
    pub history: Vec<Region>,
    pub bounds: Option<Region>,
    /// The code of the button to press.
    pub press: Option<u32>,
    /// The code of the button to release.
    pub release: Option<u32>,
    pub scroll: Vec<Scroll>,
}

/// A pointer as a value.
pub struct PointerView {
    pub quit: bool,
    pub region: Region,
    pub history: Seq<Region>,
    pub bounds: Option<Region>,
    pub press: Option<u32>,
    pub release: Option<u32>,
    pub scroll: Seq<Scroll>,
}

impl View for Pointer {
    type V = PointerView;

    open spec fn view(&self) -> PointerView {
        PointerView {
            quit: self.quit,
            region: self.region,
            history: self.history@,
            bounds: self.bounds,
            press: self.press,
            release: self.release,
            scroll: self.scroll@,
        }
    }
}

/// The half of a rectangle in a direction.
pub open spec fn cut(region: Region, direction: Direction) -> Region {
    match direction {
        Direction::Up => Region { height: half(region.height), ..region },
        Direction::Down => Region {
            y: (region.y + half(region.height)) as i32,
            height: half(region.height),
            ..region
        },
        Direction::Left => Region { width: half(region.width), ..region },
        Direction::Right => Region {
            x: (region.x + half(region.width)) as i32,
            width: half(region.width),
            ..region
        },
    }
}

/// A rectangle moved by its own size in a direction, as far as the grid
/// goes.
pub open spec fn moved(region: Region, direction: Direction) -> Region {
    match direction {
        Direction::Up => Region { y: clamped(region.y - region.height), ..region },
        Direction::Down => Region { y: clamped(region.y + region.height), ..region },
        Direction::Left => Region { x: clamped(region.x - region.width), ..region },
        Direction::Right => Region { x: clamped(region.x + region.width), ..region },
    }
}

/// The bounds that count: the empty rectangle where none are known.
pub open spec fn bounds_of(bounds: Option<Region>) -> Region {
    match bounds {
        Some(bounds) => bounds,
        None => Region { x: 0, y: 0, width: 0, height: 0 },
    }
}

/// A pointer after a try to aim at another rectangle: the rectangle so far
/// is remembered, and the other one is aimed at if it lies in the bounds.
pub open spec fn aimed(pointer: PointerView, target: Region) -> PointerView {
    PointerView {
        history: pointer.history.push(pointer.region),
        region: if bounds_of(pointer.bounds).holds_region(target) {
            target
        } else {
            pointer.region
        },
        ..pointer
    }
}

/// A pointer after one command.
pub open spec fn after(pointer: PointerView, cmd: Cmd) -> PointerView {
    match cmd {
        Cmd::Quit => PointerView { quit: true, ..pointer },
        Cmd::Undo => if pointer.history.len() > 0 {
            PointerView {
                region: pointer.history.last(),
                history: pointer.history.drop_last(),
                ..pointer
            }
        } else {
            pointer
        },
        Cmd::Cut(direction) => aimed(pointer, cut(pointer.region, direction)),
        Cmd::Move(direction) => aimed(pointer, moved(pointer.region, direction)),
        Cmd::Click(button) => PointerView {
            press: Some(button.spec_code()),
            release: Some(button.spec_code()),
            quit: true,
            ..pointer
        },
        Cmd::Press(button) => PointerView { press: Some(button.spec_code()), ..pointer },
        Cmd::Release(button) => PointerView { release: Some(button.spec_code()), ..pointer },
        Cmd::Scroll(axis, amount) => PointerView {
            scroll: pointer.scroll.push(Scroll { axis, amount }),
            ..pointer
        },
    }
}

/// A pointer after commands, one after another.
pub open spec fn after_all(pointer: PointerView, cmds: Seq<Cmd>) -> PointerView
    decreases cmds.len(),
{
    if cmds.len() == 0 {
        pointer
    } else {
        after(after_all(pointer, cmds.drop_last()), cmds.last())
    }
}

impl Pointer {
    /// The rectangle aimed at, those it was before, and the bounds have
    /// their right and bottom edges on the grid.
    pub open spec fn wf(&self) -> bool {
        &&& self.region.on_grid()
        &&& bounds_of(self.bounds).on_grid()
        &&& forall|i: int| 0 <= i < self.history@.len() ==> (#[trigger] self.history@[i]).on_grid()
    }

    /// A pointer that aims at a rectangle, with nothing asked of it yet.
    pub fn new(region: Region, bounds: Option<Region>) -> (pointer: Pointer)
        requires
            region.on_grid(),
            bounds_of(bounds).on_grid(),
        ensures
            pointer.wf(),
            pointer@ == (PointerView {
                quit: false,
                region,
                history: Seq::empty(),
                bounds,
                press: None,
                release: None,
                scroll: Seq::empty(),
            }),
    {
        Pointer {
            quit: false,
            region,
            history: Vec::new(),
            bounds,
            press: None,
            release: None,
            scroll: Vec::new(),
        }
    }

    /// Tries to aim at another rectangle.
    fn update(&mut self, target: Region)
        requires
            old(self).wf(),
        ensures
            final(self).wf(),
            final(self)@ == aimed(old(self)@, target),
    {
        self.history.push(self.region);
        let bounds: Region = match self.bounds {
            Some(bounds) => bounds,
            None => Region { x: 0, y: 0, width: 0, height: 0 },
        };
        if bounds.contains_region(&target) {
            self.region = target;
        }
        proof {
            assert forall|i: int| 0 <= i < self.history@.len() implies (
            #[trigger] self.history@[i]).on_grid() by {
                if i < old(self).history@.len() {
                    assert(self.history@[i] == old(self).history@[i]);
                }
            }
        }
    }

    /// Does what one command asks.
    pub fn apply(&mut self, cmd: Cmd)
        requires
            old(self).wf(),
        ensures
            final(self).wf(),
            final(self)@ == after(old(self)@, cmd),
    {
        match cmd {
            Cmd::Quit => {
                self.quit = true;
            },
            Cmd::Undo => {
                match self.history.pop() {
                    Some(region) => {
                        assert(old(self).history@[old(self).history@.len() - 1].on_grid());
                        self.region = region;
                        assert forall|i: int| 0 <= i < self.history@.len() implies (
                        #[trigger] self.history@[i]).on_grid() by {
                            assert(self.history@[i] == old(self).history@[i]);
                        }
                    },
                    None => {},
                }
            },
            Cmd::Cut(direction) => {
                let target: Region = match direction {
                    Direction::Up => self.region.cut_up(),
                    Direction::Down => self.region.cut_down(),
                    Direction::Left => self.region.cut_left(),
                    Direction::Right => self.region.cut_right(),
                };
                self.update(target);
            },
            Cmd::Move(direction) => {
                let target: Region = match direction {
                    Direction::Up => self.region.move_up(),
                    Direction::Down => self.region.move_down(),
                    Direction::Left => self.region.move_left(),
                    Direction::Right => self.region.move_right(),
                };
                self.update(target);
            },
            Cmd::Click(button) => {
                self.press = Some(button.code());
                self.release = Some(button.code());
                self.quit = true;
            },
            Cmd::Press(button) => {
                self.press = Some(button.code());
            },
            Cmd::Release(button) => {
                self.release = Some(button.code());
            },
            Cmd::Scroll(axis, amount) => {
                self.scroll.push(Scroll { axis, amount });
            },
        }
    }

    /// Does what the commands of a key ask, one after another.
    pub fn handle_key_pressed(&mut self, cmds: &Vec<Cmd>)
        requires
            old(self).wf(),
        ensures
            final(self).wf(),
            final(self)@ == after_all(old(self)@, cmds@),
    {
        let mut i: usize = 0;
        assert(cmds@.take(0) =~= Seq::<Cmd>::empty());
        while i < cmds.len()
            invariant
                i <= cmds@.len(),
                self.wf(),
                self@ == after_all(old(self)@, cmds@.take(i as int)),
            decreases cmds@.len() - i,
        {
            assert(cmds@.take(i + 1).drop_last() =~= cmds@.take(i as int));
            assert(cmds@.take(i + 1).last() == cmds@[i as int]);
            self.apply(cmds[i]);
            i = i + 1;
        }
        assert(cmds@.take(i as int) =~= cmds@);
    }
}

/// The buttons that are held down.
#[derive(Debug)]
pub struct Buttons {
    down: Vec<u32>,
}

impl Buttons {
    /// The codes of the buttons that are held down.
    pub closed spec fn held(&self) -> Set<u32> {
        self.down@.to_set()
    }

    /// No button is listed twice.
    pub closed spec fn wf(&self) -> bool {
        self.down@.no_duplicates()
    }

    /// No button held down.
    pub fn new() -> (buttons: Buttons)
        ensures
            buttons.wf(),
            buttons.held() == Set::<u32>::empty(),
    {
        let buttons = Buttons { down: Vec::new() };
        assert(buttons.down@.to_set() =~= Set::<u32>::empty());
        buttons
    }

    /// The place of a button among those held down.
    fn find(&self, button: u32) -> (place: Option<usize>)
        ensures
            match place {
                Some(at) => at < self.down@.len() && self.down@[at as int] == button,
                None => !self.down@.contains(button),
            },
    {
        let mut i: usize = 0;
        while i < self.down.len()
            invariant
                i <= self.down@.len(),
                forall|k: int| 0 <= k < i ==> self.down@[k] != button,
            decreases self.down@.len() - i,
        {
            if self.down[i] == button {
                return Some(i);
            }
            i = i + 1;
        }
        None
    }

    /// Takes note that a button goes down; whether it was up.
    pub fn insert(&mut self, button: u32) -> (pressed: bool)
        requires
            old(self).wf(),
        ensures
            final(self).wf(),
            pressed == !old(self).held().contains(button),
            final(self).held() == old(self).held().insert(button),
    {
        match self.find(button) {
            Some(_) => {
                assert(self.held() =~= old(self).held().insert(button));
                false
            },
            None => {
                self.down.push(button);
                proof {
                    assert(self.down@ == old(self).down@.push(button));
                    assert(self.held() =~= old(self).held().insert(button)) by {
                        assert forall|b: u32| self.down@.contains(b) <==> old(self).down@.contains(b)
                            || b == button by {
                            if self.down@.contains(b) {
                                let k = choose|k: int| 0 <= k < self.down@.len() && self.down@[k] == b;
                                if k < old(self).down@.len() {
                                    assert(old(self).down@[k] == b);
                                }
                            }
                            if old(self).down@.contains(b) {
                                let k = choose|k: int|
                                    0 <= k < old(self).down@.len() && old(self).down@[k] == b;
                                assert(self.down@[k] == b);
                            }
                            if b == button {
                                assert(self.down@[old(self).down@.len() as int] == b);
                            }
                        }
                    }
                }
                true
            },
        }
    }

    /// Takes note that a button goes up; whether it was down.
    pub fn remove(&mut self, button: u32) -> (released: bool)
        requires
            old(self).wf(),
        ensures
            final(self).wf(),
            released == old(self).held().contains(button),
            final(self).held() == old(self).held().remove(button),
    {
        match self.find(button) {
            None => {
                assert(self.held() =~= old(self).held().remove(button));
                false
            },
            Some(at) => {
                self.down.remove(at);
                proof {
                    let before = old(self).down@;
                    let after = self.down@;
                    assert(after == before.remove(at as int));
                    assert forall|i: int, j: int| 0 <= i < j < after.len() implies after[i]
                        != after[j] by {
                        let a = if i < at {
                            i
                        } else {
                            i + 1
                        };
                        let b = if j < at {
                            j
                        } else {
                            j + 1
                        };
                        assert(after[i] == before[a] && after[j] == before[b]);
                    }
                    assert forall|b: u32| after.contains(b) <==> before.contains(b) && b
                        != button by {
                        if after.contains(b) {
                            let k = choose|k: int| 0 <= k < after.len() && after[k] == b;
                            let from = if k < at {
                                k
                            } else {
                                k + 1
                            };
                            assert(before[from] == b);
                            assert(from != at);
                        }
                        if before.contains(b) && b != button {
                            let k = choose|k: int| 0 <= k < before.len() && before[k] == b;
                            let to = if k < at {
                                k
                            } else {
                                k - 1
                            };
                            assert(after[to] == b);
                        }
                    }
                    assert(self.held() =~= old(self).held().remove(button));
                }
                true
            },
        }
    }
}

} // verus!
