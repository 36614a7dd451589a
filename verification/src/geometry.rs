//! Axis-aligned boxes on the integer grid: overlap and dominant axis.
//!
//! A box is a centre and a full size. Halving a size would leave the grid, so
//! every edge is handled at twice its coordinate, which is always whole.

use vstd::prelude::*;

verus! {

/// The farthest from the origin, along either axis, that a coordinate handed
/// to the simulation may lie. It leaves room for every sum the simulation
/// forms to stay within 64 bits.
pub const REACH: i64 = 0x100_0000_0000;

/// A point or a displacement on the grid.
#[derive(Clone, Copy, Debug, PartialEq, Eq, Structural)]
pub struct Vec2 {
    pub x: i64,
    pub y: i64,
}

/// A point or a displacement with unbounded coordinates: what a `Vec2` stands
/// for in contracts.
pub struct Point {
    pub x: int,
    pub y: int,
}

impl View for Vec2 {
    type V = Point;

    open spec fn view(&self) -> Point {
        Point { x: self.x as int, y: self.y as int }
    }
}

impl Point {
    /// The squared Euclidean length.
    pub open spec fn length_squared(self) -> int {
        self.x * self.x + self.y * self.y
    }

    /// Both coordinates lie within `REACH` of the origin.
    pub open spec fn within_reach(self) -> bool {
        &&& -REACH <= self.x <= REACH
        &&& -REACH <= self.y <= REACH
    }

    /// The sum of two displacements.
    pub open spec fn plus(self, other: Point) -> Point {
        Point { x: self.x + other.x, y: self.y + other.y }
    }
}

impl Vec2 {
    pub fn new(x: i64, y: i64) -> (v: Vec2)
        ensures
            v == (Vec2 { x, y }),
    {
        Vec2 { x, y }
    }
}

/// The full width and height of a box.
#[derive(Clone, Copy, Debug, PartialEq, Eq, Structural)]
pub struct Collider {
    pub width: u32,
    pub height: u32,
}

/// The axis along which two overlapping boxes are pushed apart.
#[derive(Clone, Copy, Debug, PartialEq, Eq, Structural)]
pub enum Axis {
    /// The boxes meet on a left or right side.
    Horizontal,
    /// The boxes meet on a top or bottom side.
    Vertical,
}

/// Twice the x coordinate of the left edge.
pub open spec fn left2(pos: Point, size: Collider) -> int {
    2 * pos.x - size.width
}

/// Twice the x coordinate of the right edge.
pub open spec fn right2(pos: Point, size: Collider) -> int {
    2 * pos.x + size.width
}

/// Twice the y coordinate of the bottom edge.
pub open spec fn bottom2(pos: Point, size: Collider) -> int {
    2 * pos.y - size.height
}

/// Twice the y coordinate of the top edge.
pub open spec fn top2(pos: Point, size: Collider) -> int {
    2 * pos.y + size.height
}

/// The interiors of the two boxes share a point. Boxes that only touch do not
/// overlap, and a box of zero extent overlaps only what strictly contains it.
pub open spec fn overlaps(a_pos: Point, a_size: Collider, b_pos: Point, b_size: Collider) -> bool {
    &&& left2(a_pos, a_size) < right2(b_pos, b_size)
    &&& right2(a_pos, a_size) > left2(b_pos, b_size)
    &&& bottom2(a_pos, a_size) < top2(b_pos, b_size)
    &&& top2(a_pos, a_size) > bottom2(b_pos, b_size)
}

/// The farthest from the centre line that the centre of a box of the given
/// size can lie with the box still between the side walls of the court: half
/// the difference of the widths, rounded down to the grid.
pub open spec fn limit_x(court: Collider, size: Collider) -> int {
    (court.width - size.width) / 2
}

/// The highest that the centre of a box of the given size can lie with the
/// box still under the top wall of the court.
pub open spec fn limit_y(court: Collider, size: Collider) -> int {
    (court.height - size.height) / 2
}

/// The box is as wide and as high as the court at most.
pub open spec fn fits(court: Collider, size: Collider) -> bool {
    &&& size.width <= court.width
    &&& size.height <= court.height
}

/// The box lies between the side walls and under the top wall of the court.
/// Nothing is asked of its lower edge.
pub open spec fn inside_walls(pos: Point, size: Collider, court: Collider) -> bool {
    &&& -court.width <= left2(pos, size)
    &&& right2(pos, size) <= court.width
    &&& top2(pos, size) <= court.height
}

/// The smaller of two numbers.
pub open spec fn min_int(a: int, b: int) -> int {
    if a <= b {
        a
    } else {
        b
    }
}

/// Twice the distance that `a` has to move sideways to come clear of `b`: the
/// smaller of moving it out to the left and moving it out to the right.
pub open spec fn depth_x2(a_pos: Point, a_size: Collider, b_pos: Point, b_size: Collider) -> int {
    min_int(
        right2(a_pos, a_size) - left2(b_pos, b_size),
        right2(b_pos, b_size) - left2(a_pos, a_size),
    )
}

/// Twice the distance that `a` has to move up or down to come clear of `b`:
/// the smaller of moving it out downwards and moving it out upwards.
pub open spec fn depth_y2(a_pos: Point, a_size: Collider, b_pos: Point, b_size: Collider) -> int {
    min_int(
        top2(a_pos, a_size) - bottom2(b_pos, b_size),
        top2(b_pos, b_size) - bottom2(a_pos, a_size),
    )
}

/// What a collision test of two boxes answers: nothing where they do not
/// overlap; otherwise the horizontal axis where the way out sideways is
/// strictly the shorter one, and the vertical axis in every other case.
pub open spec fn collision(
    a_pos: Point,
    a_size: Collider,
    b_pos: Point,
    b_size: Collider,
) -> Option<Axis> {
    if !overlaps(a_pos, a_size, b_pos, b_size) {
        None
    } else if depth_x2(a_pos, a_size, b_pos, b_size) < depth_y2(a_pos, a_size, b_pos, b_size) {
        Some(Axis::Horizontal)
    } else {
        Some(Axis::Vertical)
    }
}

impl Collider {
    pub fn new(width: u32, height: u32) -> (c: Collider)
        ensures
            c == (Collider { width, height }),
    {
        Collider { width, height }
    }

    /// The size as a displacement from one corner to the opposite one.
    pub fn get_size(&self) -> (size: Vec2)
        ensures
            size@ == (Point { x: self.width as int, y: self.height as int }),
    {
        Vec2 { x: self.width as i64, y: self.height as i64 }
    }

    /// Half the size, each extent rounded down to the grid.
    pub fn get_half_size(&self) -> (half: Vec2)
        ensures
            half@ == (Point { x: self.width as int / 2, y: self.height as int / 2 }),
    {
        Vec2 { x: (self.width / 2) as i64, y: (self.height / 2) as i64 }
    }
}

/// Tests two boxes, each given by centre and full size, for overlap and names
/// the axis along which the shorter way out lies. Every value of the
/// arguments is taken.
pub fn collide(a_pos: Vec2, a_size: Collider, b_pos: Vec2, b_size: Collider) -> (hit: Option<Axis>)
    ensures
        hit == collision(a_pos@, a_size, b_pos@, b_size),
{
    let a_left: i128 = 2 * (a_pos.x as i128) - (a_size.width as i128);
    let a_right: i128 = 2 * (a_pos.x as i128) + (a_size.width as i128);
    let a_bottom: i128 = 2 * (a_pos.y as i128) - (a_size.height as i128);
    let a_top: i128 = 2 * (a_pos.y as i128) + (a_size.height as i128);
    let b_left: i128 = 2 * (b_pos.x as i128) - (b_size.width as i128);
    let b_right: i128 = 2 * (b_pos.x as i128) + (b_size.width as i128);
    let b_bottom: i128 = 2 * (b_pos.y as i128) - (b_size.height as i128);
    let b_top: i128 = 2 * (b_pos.y as i128) + (b_size.height as i128);
    if a_left < b_right && a_right > b_left && a_bottom < b_top && a_top > b_bottom {
        let out_left: i128 = a_right - b_left;
        let out_right: i128 = b_right - a_left;
        let out_down: i128 = a_top - b_bottom;
        let out_up: i128 = b_top - a_bottom;
        let depth_x: i128 = if out_left <= out_right { out_left } else { out_right };
        let depth_y: i128 = if out_down <= out_up { out_down } else { out_up };
        if depth_x < depth_y {
            Some(Axis::Horizontal)
        } else {
            Some(Axis::Vertical)
        }
    } else {
        None
    }
}

} // verus!
