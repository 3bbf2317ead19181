//! The words of a key binding: modifier names and pointer buttons.

use crate::text::same_text;
use vstd::prelude::*;
use vstd::string::StringExecFns;
use vstd::string::StringSliceAdditionalSpecFns;

verus! {

/// A pointer button.
#[derive(Clone, Copy, Debug, PartialEq, Eq, Structural)]
pub enum Button {
    Left,
    Right,
    Middle,
}

impl Button {
    /// The code of the button in input events.
    pub open spec fn spec_code(self) -> u32 {
        match self {
            Button::Left => 0x110,
            Button::Right => 0x111,
            Button::Middle => 0x112,
        }
    }

    /// The code of the button in input events.
    pub fn code(self) -> (code: u32)
        ensures
            code == self.spec_code(),
    {
        match self {
            Button::Left => 0x110,
            Button::Right => 0x111,
            Button::Middle => 0x112,
        }
    }
}

/// One of the four directions.
#[derive(Clone, Copy, Debug, PartialEq, Eq, Structural)]
pub enum Direction {
    Up,
    Down,
    Left,
    Right,
}

/// The axis of a scroll wheel.
#[derive(Clone, Copy, Debug, PartialEq, Eq, Structural)]
pub enum Axis {
    Vertical,
    Horizontal,
}

impl Axis {
    /// The number of the axis in pointer events.
    pub fn code(self) -> (code: u32)
        ensures
            code == match self {
                Axis::Vertical => 0u32,
                Axis::Horizontal => 1u32,
            },
    {
        match self {
            Axis::Vertical => 0,
            Axis::Horizontal => 1,
        }
    }
}

/// What a key can be bound to.
#[derive(Clone, Copy, Debug, PartialEq, Eq, Structural)]
pub enum Cmd {
    Quit,
    Undo,
    Click(Button),
    Press(Button),
    Release(Button),
    Cut(Direction),
    Move(Direction),
    /// One step of the wheel of an axis: forward if the number is 1, backward
    /// if it is -1.
    Scroll(Axis, i32),
}

impl Cmd {
    /// The command that a word names.
    pub open spec fn named(word: Seq<char>) -> Option<Cmd> {
        if word == "quit"@ {
            Some(Cmd::Quit)
        } else if word == "undo"@ {
            Some(Cmd::Undo)
        } else if word == "left-click"@ {
            Some(Cmd::Click(Button::Left))
        } else if word == "right-click"@ {
            Some(Cmd::Click(Button::Right))
        } else if word == "middle-click"@ {
            Some(Cmd::Click(Button::Middle))
        } else if word == "left-press"@ {
            Some(Cmd::Press(Button::Left))
        } else if word == "right-press"@ {
            Some(Cmd::Press(Button::Right))
        } else if word == "middle-press"@ {
            Some(Cmd::Press(Button::Middle))
        } else if word == "left-release"@ {
            Some(Cmd::Release(Button::Left))
        } else if word == "right-release"@ {
            Some(Cmd::Release(Button::Right))
        } else if word == "middle-release"@ {
            Some(Cmd::Release(Button::Middle))
        } else if word == "cut-up"@ {
            Some(Cmd::Cut(Direction::Up))
        } else if word == "cut-down"@ {
            Some(Cmd::Cut(Direction::Down))
        } else if word == "cut-left"@ {
            Some(Cmd::Cut(Direction::Left))
        } else if word == "cut-right"@ {
            Some(Cmd::Cut(Direction::Right))
        } else if word == "move-up"@ {
            Some(Cmd::Move(Direction::Up))
        } else if word == "move-down"@ {
            Some(Cmd::Move(Direction::Down))
        } else if word == "move-left"@ {
            Some(Cmd::Move(Direction::Left))
        } else if word == "move-right"@ {
            Some(Cmd::Move(Direction::Right))
        } else if word == "scroll-up"@ {
            Some(Cmd::Scroll(Axis::Vertical, -1i32))
        } else if word == "scroll-down"@ {
            Some(Cmd::Scroll(Axis::Vertical, 1i32))
        } else if word == "scroll-left"@ {
            Some(Cmd::Scroll(Axis::Horizontal, -1i32))
        } else if word == "scroll-right"@ {
            Some(Cmd::Scroll(Axis::Horizontal, 1i32))
        } else {
            None
        }
    }

    /// The command that a word names: `quit`, `undo`, a button and what to do
    /// with it, or a direction and what to do in it.
    pub fn from_kebab_case(word: &str) -> (cmd: Option<Cmd>)
        ensures
            cmd == Cmd::named(word@),
    {
        if same_text(word, "quit") {
            Some(Cmd::Quit)
        } else if same_text(word, "undo") {
            Some(Cmd::Undo)
        } else if same_text(word, "left-click") {
            Some(Cmd::Click(Button::Left))
        } else if same_text(word, "right-click") {
            Some(Cmd::Click(Button::Right))
        } else if same_text(word, "middle-click") {
            Some(Cmd::Click(Button::Middle))
        } else if same_text(word, "left-press") {
            Some(Cmd::Press(Button::Left))
        } else if same_text(word, "right-press") {
            Some(Cmd::Press(Button::Right))
        } else if same_text(word, "middle-press") {
            Some(Cmd::Press(Button::Middle))
        } else if same_text(word, "left-release") {
            Some(Cmd::Release(Button::Left))
        } else if same_text(word, "right-release") {
            Some(Cmd::Release(Button::Right))
        } else if same_text(word, "middle-release") {
            Some(Cmd::Release(Button::Middle))
        } else if same_text(word, "cut-up") {
            Some(Cmd::Cut(Direction::Up))
        } else if same_text(word, "cut-down") {
            Some(Cmd::Cut(Direction::Down))
        } else if same_text(word, "cut-left") {
            Some(Cmd::Cut(Direction::Left))
        } else if same_text(word, "cut-right") {
            Some(Cmd::Cut(Direction::Right))
        } else if same_text(word, "move-up") {
            Some(Cmd::Move(Direction::Up))
        } else if same_text(word, "move-down") {
            Some(Cmd::Move(Direction::Down))
        } else if same_text(word, "move-left") {
            Some(Cmd::Move(Direction::Left))
        } else if same_text(word, "move-right") {
            Some(Cmd::Move(Direction::Right))
        } else if same_text(word, "scroll-up") {
            Some(Cmd::Scroll(Axis::Vertical, -1))
        } else if same_text(word, "scroll-down") {
            Some(Cmd::Scroll(Axis::Vertical, 1))
        } else if same_text(word, "scroll-left") {
            Some(Cmd::Scroll(Axis::Horizontal, -1))
        } else if same_text(word, "scroll-right") {
            Some(Cmd::Scroll(Axis::Horizontal, 1))
        } else {
            None
        }
    }
}

/// A value that is set now and counts from the next commit on.
#[derive(Clone, Copy, Debug, Default)]
pub struct DoubleBuffered<T> {
    pub pending: T,
    pub current: Option<T>,
}

impl<T: Copy> DoubleBuffered<T> {
    /// Makes what is pending count.
    pub fn commit(&mut self)
        ensures
            final(self).current == Some(old(self).pending),
            final(self).pending == old(self).pending,
    {
        self.current = Some(self.pending);
    }
}

/// A set of keyboard modifiers, one bit for each.
#[derive(Clone, Copy, Debug, PartialEq, Eq, Hash, Structural)]
pub struct Mods(pub u8);

/// A letter in lower case; any other byte as it is.
pub open spec fn lower(b: u8) -> u8 {
    if 65 <= b <= 90 {
        (b + 32) as u8
    } else {
        b
    }
}

/// Whether `word` is `name` but for the case of its letters.
pub open spec fn names(word: Seq<u8>, name: Seq<u8>) -> bool {
    &&& word.len() == name.len()
    &&& forall|i: int| 0 <= i < word.len() ==> lower(#[trigger] word[i]) == lower(name[i])
}

/// The bit of the modifier at a place of the table of names.
pub open spec fn bit_at(place: int) -> u8 {
    if place == 0 {
        8
    } else if place == 1 {
        2
    } else if place == 2 {
        4
    } else if place == 3 {
        64
    } else if place == 4 {
        32
    } else if place == 5 {
        128
    } else if place == 6 {
        16
    } else {
        1
    }
}

/// The name of the modifier at a place of the table of names: the names are
/// in the order of the alphabet.
pub open spec fn name_at(place: int) -> Seq<char> {
    if place == 0 {
        "alt"@
    } else if place == 1 {
        "caps"@
    } else if place == 2 {
        "ctrl"@
    } else if place == 3 {
        "logo"@
    } else if place == 4 {
        "mod3"@
    } else if place == 5 {
        "mod5"@
    } else if place == 6 {
        "num"@
    } else {
        "shift"@
    }
}

/// The first place from `from` on whose name `word` is, but for case.
pub open spec fn place_of(word: Seq<u8>, from: int) -> Option<int>
    decreases 8 - from,
{
    if from < 0 || from >= 8 {
        None
    } else if names(word, vstd::utf8::encode_utf8(name_at(from))) {
        Some(from)
    } else {
        place_of(word, from + 1)
    }
}

impl Mods {
    /// The modifier `shift` alone.
    pub fn shift() -> (modifier: Mods)
        ensures
            modifier == Mods(1u8),
    {
        Mods(1)
    }

    /// The modifier `caps` alone.
    pub fn caps() -> (modifier: Mods)
        ensures
            modifier == Mods(2u8),
    {
        Mods(2)
    }

    /// The modifier `ctrl` alone.
    pub fn ctrl() -> (modifier: Mods)
        ensures
            modifier == Mods(4u8),
    {
        Mods(4)
    }

    /// The modifier `alt` alone.
    pub fn alt() -> (modifier: Mods)
        ensures
            modifier == Mods(8u8),
    {
        Mods(8)
    }

    /// The modifier `num` alone.
    pub fn num() -> (modifier: Mods)
        ensures
            modifier == Mods(16u8),
    {
        Mods(16)
    }

    /// The modifier `mod3` alone.
    pub fn mod3() -> (modifier: Mods)
        ensures
            modifier == Mods(32u8),
    {
        Mods(32)
    }

    /// The modifier `logo` alone.
    pub fn logo() -> (modifier: Mods)
        ensures
            modifier == Mods(64u8),
    {
        Mods(64)
    }

    /// The modifier `mod5` alone.
    pub fn mod5() -> (modifier: Mods)
        ensures
            modifier == Mods(128u8),
    {
        Mods(128)
    }

    /// The modifier that a word names, whatever the case of its letters.
    pub open spec fn named(word: Seq<u8>) -> Option<Mods> {
        match place_of(word, 0) {
            Some(place) => Some(Mods(bit_at(place))),
            None => None,
        }
    }

    /// The name and the bit at a place of the table.
    fn entry(place: usize) -> (entry: (&'static str, u8))
        requires
            place < 8,
        ensures
            entry.0@ == name_at(place as int),
            entry.1 == bit_at(place as int),
    {
        if place == 0 {
            ("alt", 8)
        } else if place == 1 {
            ("caps", 2)
        } else if place == 2 {
            ("ctrl", 4)
        } else if place == 3 {
            ("logo", 64)
        } else if place == 4 {
            ("mod3", 32)
        } else if place == 5 {
            ("mod5", 128)
        } else if place == 6 {
            ("num", 16)
        } else {
            ("shift", 1)
        }
    }

    /// The one modifier that a word names, whatever the case of its letters:
    /// `shift`, `caps`, `ctrl`, `alt`, `num`, `mod3`, `logo` or `mod5`.
    pub fn one_from_str(word: &str) -> (modifier: Option<Mods>)
        ensures
            modifier == Mods::named(word.spec_bytes()),
    {
        let bytes: &[u8] = word.as_bytes();
        let mut place: usize = 0;
        while place < 8
            invariant
                place <= 8,
                bytes@ == word.spec_bytes(),
                place_of(bytes@, 0) == place_of(bytes@, place as int),
            decreases 8 - place,
        {
            let entry = Mods::entry(place);
            if same_but_case(bytes, entry.0.as_bytes()) {
                return Some(Mods(entry.1));
            }
            place += 1;
        }
        None
    }

    /// Whether no modifier is in the set.
    pub fn is_empty(self) -> (empty: bool)
        ensures
            empty == (self.0 == 0),
    {
        self.0 == 0
    }

    /// The bits of the set.
    pub fn bits(self) -> (bits: u8)
        ensures
            bits == self.0,
    {
        self.0
    }

    /// Both sets together.
    pub fn union(self, other: Mods) -> (both: Mods)
        ensures
            both.0 == self.0 | other.0,
    {
        Mods(self.0 | other.0)
    }

    /// The name of a single modifier in capitals, as the set is printed;
    /// nothing for any other set.
    pub open spec fn spec_label(self) -> Option<Seq<char>> {
        if self.0 == 1 {
            Some("SHIFT"@)
        } else if self.0 == 2 {
            Some("CAPS"@)
        } else if self.0 == 4 {
            Some("CTRL"@)
        } else if self.0 == 8 {
            Some("ALT"@)
        } else if self.0 == 16 {
            Some("NUM"@)
        } else if self.0 == 32 {
            Some("MOD3"@)
        } else if self.0 == 64 {
            Some("LOGO"@)
        } else if self.0 == 128 {
            Some("MOD5"@)
        } else {
            None
        }
    }

    /// The name of a single modifier in capitals; nothing for any other set.
    pub fn label(self) -> (label: Option<&'static str>)
        ensures
            match self.spec_label() {
                Some(text) => label is Some && label.unwrap()@ == text,
                None => label is None,
            },
    {
        if self.0 == 1 {
            Some("SHIFT")
        } else if self.0 == 2 {
            Some("CAPS")
        } else if self.0 == 4 {
            Some("CTRL")
        } else if self.0 == 8 {
            Some("ALT")
        } else if self.0 == 16 {
            Some("NUM")
        } else if self.0 == 32 {
            Some("MOD3")
        } else if self.0 == 64 {
            Some("LOGO")
        } else if self.0 == 128 {
            Some("MOD5")
        } else {
            None
        }
    }

    /// A single modifier as it is printed: `Mods(` and `)` around its name
    /// in capitals. Any other set has no such form.
    pub fn to_string(self) -> (text: Option<String>)
        ensures
            match self.spec_label() {
                Some(label) => text is Some && text.unwrap()@ == "Mods("@ + label + ")"@,
                None => text is None,
            },
    {
        match self.label() {
            Some(label) => {
                let text = String::from_str("Mods(").concat(label).concat(")");
                Some(text)
            },
            None => None,
        }
    }
}

/// Whether two words are the same but for the case of their letters.
pub fn same_but_case(word: &[u8], name: &[u8]) -> (same: bool)
    ensures
        same == names(word@, name@),
{
    if word.len() != name.len() {
        return false;
    }
    let mut i: usize = 0;
    while i < word.len()
        invariant
            i <= word@.len(),
            word@.len() == name@.len(),
            forall|k: int| 0 <= k < i ==> lower(#[trigger] word@[k]) == lower(name@[k]),
        decreases word@.len() - i,
    {
        let a: u8 = word[i];
        let b: u8 = name[i];
        let la: u8 = if 65 <= a && a <= 90 {
            a + 32
        } else {
            a
        };
        let lb: u8 = if 65 <= b && b <= 90 {
            b + 32
        } else {
            b
        };
        if la != lb {
            return false;
        }
        i += 1;
    }
    true
}

} // verus!
