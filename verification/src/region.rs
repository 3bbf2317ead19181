//! Rectangles on a grid of pixels, and the halving and moving of them.

use vstd::prelude::*;

verus! {

/// A point on the grid.
#[derive(Clone, Copy, Debug, Default, PartialEq, Eq, Structural)]
pub struct Point {
    pub x: i32,
    pub y: i32,
}

/// A rectangle on the grid: its top left corner, its width and its height.
#[derive(Clone, Copy, Debug, Default, PartialEq, Eq, Structural)]
pub struct Region {
    pub x: i32,
    pub y: i32,
    pub width: i32,
    pub height: i32,
}

/// Where an output lies among the outputs, and how many pixels it has to
/// the point.
#[derive(Clone, Copy, Debug, Default, PartialEq, Eq, Structural)]
pub struct OutputState {
    pub integer_scale: u32,
    pub logical_x: i32,
    pub logical_y: i32,
    pub logical_width: i32,
    pub logical_height: i32,
}

impl OutputState {
    /// The rectangle that the output covers.
    pub fn region(&self) -> (covered: Region)
        ensures
            covered == (Region {
                x: self.logical_x,
                y: self.logical_y,
                width: self.logical_width,
                height: self.logical_height,
            }),
    {
        Region {
            x: self.logical_x,
            y: self.logical_y,
            width: self.logical_width,
            height: self.logical_height,
        }
    }
}

/// Half of a length, rounded towards zero.
pub open spec fn half(length: i32) -> i32 {
    if length >= 0 {
        (length / 2) as i32
    } else {
        (-((-length) / 2)) as i32
    }
}

/// A number kept within what 32 bits hold.
pub open spec fn clamped(value: int) -> i32 {
    if value > i32::MAX {
        i32::MAX
    } else if value < i32::MIN {
        i32::MIN
    } else {
        value as i32
    }
}

impl Region {
    /// Whether the right and the bottom edge are on the grid.
    pub open spec fn on_grid(self) -> bool {
        &&& i32::MIN <= self.x + self.width <= i32::MAX
        &&& i32::MIN <= self.y + self.height <= i32::MAX
    }

    /// Whether a point is inside: the left and top edges are, the right and
    /// bottom ones are not.
    pub open spec fn holds(self, x: i32, y: i32) -> bool {
        self.x <= x < self.x + self.width && self.y <= y < self.y + self.height
    }

    /// The column just right of the rectangle.
    pub fn right(&self) -> (edge: i32)
        requires
            self.on_grid(),
        ensures
            edge == self.x + self.width,
    {
        self.x + self.width
    }

    /// The row just below the rectangle.
    pub fn bottom(&self) -> (edge: i32)
        requires
            self.on_grid(),
        ensures
            edge == self.y + self.height,
    {
        self.y + self.height
    }

    /// Whether a point is inside.
    pub fn contains(&self, x: i32, y: i32) -> (inside: bool)
        ensures
            inside == self.holds(x, y),
    {
        x >= self.x && (x as i64) < self.x as i64 + self.width as i64 && y >= self.y && (y as i64)
            < self.y as i64 + self.height as i64
    }

    /// Whether a rectangle lies inside: its top left corner does, and so does
    /// its bottom right pixel.
    pub open spec fn holds_region(self, other: Region) -> bool {
        &&& self.x <= other.x < self.x + self.width
        &&& self.y <= other.y < self.y + self.height
        &&& self.x <= other.x + other.width - 1 < self.x + self.width
        &&& self.y <= other.y + other.height - 1 < self.y + self.height
    }

    /// The point in the middle.
    pub fn center(self) -> (middle: Point)
        requires
            self.on_grid(),
        ensures
            middle.x == self.x + half(self.width),
            middle.y == self.y + half(self.height),
    {
        proof {
            lemma_half_between(self.x, self.width);
            lemma_half_between(self.y, self.height);
        }
        Point { x: self.x + halve(self.width), y: self.y + halve(self.height) }
    }

    /// The upper half.
    pub fn cut_up(self) -> (part: Region)
        ensures
            part == (Region { height: half(self.height), ..self }),
    {
        Region { height: halve(self.height), ..self }
    }

    /// The lower half.
    pub fn cut_down(self) -> (part: Region)
        requires
            self.on_grid(),
        ensures
            part == (Region {
                y: (self.y + half(self.height)) as i32,
                height: half(self.height),
                ..self
            }),
    {
        proof {
            lemma_half_between(self.y, self.height);
        }
        let height: i32 = halve(self.height);
        Region { y: self.y + height, height, ..self }
    }

    /// The left half.
    pub fn cut_left(self) -> (part: Region)
        ensures
            part == (Region { width: half(self.width), ..self }),
    {
        Region { width: halve(self.width), ..self }
    }

    /// The right half.
    pub fn cut_right(self) -> (part: Region)
        requires
            self.on_grid(),
        ensures
            part == (Region {
                x: (self.x + half(self.width)) as i32,
                width: half(self.width),
                ..self
            }),
    {
        proof {
            lemma_half_between(self.x, self.width);
        }
        let width: i32 = halve(self.width);
        Region { x: self.x + width, width, ..self }
    }

    /// The rectangle moved up by its height, as far as the grid goes.
    pub fn move_up(self) -> (moved: Region)
        ensures
            moved == (Region { y: clamped(self.y - self.height), ..self }),
    {
        Region { y: clamp(self.y as i64 - self.height as i64), ..self }
    }

    /// The rectangle moved down by its height, as far as the grid goes.
    pub fn move_down(self) -> (moved: Region)
        ensures
            moved == (Region { y: clamped(self.y + self.height), ..self }),
    {
        Region { y: clamp(self.y as i64 + self.height as i64), ..self }
    }

    /// The rectangle moved left by its width, as far as the grid goes.
    pub fn move_left(self) -> (moved: Region)
        ensures
            moved == (Region { x: clamped(self.x - self.width), ..self }),
    {
        Region { x: clamp(self.x as i64 - self.width as i64), ..self }
    }

    /// The rectangle moved right by its width, as far as the grid goes.
    pub fn move_right(self) -> (moved: Region)
        ensures
            moved == (Region { x: clamped(self.x + self.width), ..self }),
    {
        Region { x: clamp(self.x as i64 + self.width as i64), ..self }
    }

    /// Whether another rectangle lies inside.
    pub fn contains_region(&self, other: &Region) -> (inside: bool)
        ensures
            inside == self.holds_region(*other),
    {
        let right: i64 = other.x as i64 + other.width as i64 - 1;
        let bottom: i64 = other.y as i64 + other.height as i64 - 1;
        let my_right: i64 = self.x as i64 + self.width as i64;
        let my_bottom: i64 = self.y as i64 + self.height as i64;
        self.contains(other.x, other.y) && self.x as i64 <= right && right < my_right
            && self.y as i64 <= bottom && bottom < my_bottom
    }

    /// Whether the rectangle, `scale` times as large, is still on the grid.
    pub open spec fn scales(self, scale: u32) -> bool {
        &&& scale <= i32::MAX
        &&& i32::MIN <= self.x * scale <= i32::MAX
        &&& i32::MIN <= self.y * scale <= i32::MAX
        &&& i32::MIN <= self.width * scale <= i32::MAX
        &&& i32::MIN <= self.height * scale <= i32::MAX
    }

    /// The rectangle, `scale` times as large in each direction.
    pub fn scale(&self, scale: u32) -> (scaled: Region)
        requires
            self.scales(scale),
        ensures
            scaled.x == self.x * scale,
            scaled.y == self.y * scale,
            scaled.width == self.width * scale,
            scaled.height == self.height * scale,
    {
        let factor: i32 = scale as i32;
        Region {
            x: self.x * factor,
            y: self.y * factor,
            width: self.width * factor,
            height: self.height * factor,
        }
    }

    /// Whether the smallest rectangle around both is no wider and no higher
    /// than 32 bits count.
    pub open spec fn joins(self, other: Region) -> bool {
        &&& spec_max(self.x + self.width, other.x + other.width) - spec_min(
            self.x as int,
            other.x as int,
        ) <= i32::MAX
        &&& spec_max(self.y + self.height, other.y + other.height) - spec_min(
            self.y as int,
            other.y as int,
        ) <= i32::MAX
        &&& spec_max(self.x + self.width, other.x + other.width) - spec_min(
            self.x as int,
            other.x as int,
        ) >= i32::MIN
        &&& spec_max(self.y + self.height, other.y + other.height) - spec_min(
            self.y as int,
            other.y as int,
        ) >= i32::MIN
    }

    /// The smallest rectangle around both.
    pub fn union(&self, other: &Region) -> (both: Region)
        requires
            self.on_grid(),
            other.on_grid(),
            self.joins(*other),
        ensures
            both.x == spec_min(self.x as int, other.x as int),
            both.y == spec_min(self.y as int, other.y as int),
            both.x + both.width == spec_max(self.x + self.width, other.x + other.width),
            both.y + both.height == spec_max(self.y + self.height, other.y + other.height),
    {
        let left: i32 = if self.x < other.x {
            self.x
        } else {
            other.x
        };
        let top: i32 = if self.y < other.y {
            self.y
        } else {
            other.y
        };
        let right: i32 = if self.right() > other.right() {
            self.right()
        } else {
            other.right()
        };
        let bottom: i32 = if self.bottom() > other.bottom() {
            self.bottom()
        } else {
            other.bottom()
        };
        Region { x: left, y: top, width: right - left, height: bottom - top }
    }
}

/// The greater of two numbers.
pub open spec fn spec_max(a: int, b: int) -> int {
    if a > b {
        a
    } else {
        b
    }
}

/// The smaller of two numbers.
pub open spec fn spec_min(a: int, b: int) -> int {
    if a < b {
        a
    } else {
        b
    }
}

/// A number kept within what 32 bits hold.
pub fn clamp(value: i64) -> (kept: i32)
    ensures
        kept == clamped(value as int),
{
    if value > i32::MAX as i64 {
        i32::MAX
    } else if value < i32::MIN as i64 {
        i32::MIN
    } else {
        value as i32
    }
}

/// Half of a length, rounded towards zero.
pub fn halve(length: i32) -> (halved: i32)
    ensures
        halved == half(length),
{
    if length >= 0 {
        length / 2
    } else if length == i32::MIN {
        -1073741824
    } else {
        -((-length) / 2)
    }
}

/// A start and half a length lie between the start and the start and the
/// whole length.
proof fn lemma_half_between(start: i32, length: i32)
    requires
        i32::MIN <= start + length <= i32::MAX,
    ensures
        i32::MIN <= start + half(length) <= i32::MAX,
{
}

} // verus!
