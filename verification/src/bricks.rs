//! Bricks and the field that holds them.
//!
//! The field is an arena: a brick keeps its index for the whole round, and
//! destroying it only lowers its flag. A brick's index is its identity.

use crate::config::BreakoutConfig;
use crate::geometry::{Collider, Point, Vec2};
use vstd::arithmetic::div_mod::{
    lemma_fundamental_div_mod, lemma_fundamental_div_mod_converse_div,
    lemma_fundamental_div_mod_converse_mod,
};
use vstd::prelude::*;

verus! {

/// The most bricks a field may hold.
pub const MAX_BRICKS: usize = 0xFFFF_FFFF;

/// One brick of the field.
#[derive(Clone, Copy, Debug, PartialEq, Eq, Structural)]
pub struct Brick {
    pub position: Vec2,
    pub size: Collider,
    /// What destroying the brick adds to the score.
    pub points: u32,
    /// Whether the brick still stands.
    pub live: bool,
}

/// What a `Brick` stands for in contracts.
pub struct BrickView {
    pub position: Point,
    pub size: Collider,
    pub points: nat,
    pub live: bool,
}

impl View for Brick {
    type V = BrickView;

    open spec fn view(&self) -> BrickView {
        BrickView {
            position: self.position@,
            size: self.size,
            points: self.points as nat,
            live: self.live,
        }
    }
}

impl BrickView {
    /// The brick lies within reach and its points fit in 32 bits.
    pub open spec fn wf(self) -> bool {
        &&& self.position.within_reach()
        &&& self.points <= u32::MAX
    }

    /// The same brick, destroyed.
    pub open spec fn destroyed(self) -> BrickView {
        BrickView { live: false, ..self }
    }
}

/// A field within the limits: not too many bricks, each of them well formed.
pub open spec fn field_wf(bricks: Seq<BrickView>) -> bool {
    &&& bricks.len() <= MAX_BRICKS
    &&& forall|i: int| 0 <= i < bricks.len() ==> (#[trigger] bricks[i]).wf()
}

/// The index names a brick of the field that still stands.
pub open spec fn standing(bricks: Seq<BrickView>, id: int) -> bool {
    0 <= id < bricks.len() && bricks[id].live
}

/// No brick of the field still stands.
pub open spec fn cleared(bricks: Seq<BrickView>) -> bool {
    forall|i: int| 0 <= i < bricks.len() ==> !(#[trigger] bricks[i]).live
}

/// The points of the bricks that have been destroyed.
pub open spec fn destroyed_points(bricks: Seq<BrickView>) -> nat
    decreases bricks.len(),
{
    if bricks.len() == 0 {
        0
    } else {
        destroyed_points(bricks.drop_last()) + if bricks.last().live {
            0
        } else {
            bricks.last().points
        }
    }
}

/// The points of the bricks that still stand.
pub open spec fn remaining_points(bricks: Seq<BrickView>) -> nat
    decreases bricks.len(),
{
    if bricks.len() == 0 {
        0
    } else {
        remaining_points(bricks.drop_last()) + if bricks.last().live {
            bricks.last().points
        } else {
            0
        }
    }
}

/// Destroying a standing brick moves its points from what remains to what was
/// destroyed, and touches nothing else.
pub proof fn lemma_destroy_moves_points(bricks: Seq<BrickView>, id: int)
    requires
        0 <= id < bricks.len(),
        bricks[id].live,
    ensures
        destroyed_points(bricks.update(id, bricks[id].destroyed())) == destroyed_points(bricks)
            + bricks[id].points,
        remaining_points(bricks.update(id, bricks[id].destroyed())) + bricks[id].points
            == remaining_points(bricks),
    decreases bricks.len(),
{
    let after = bricks.update(id, bricks[id].destroyed());
    if id == bricks.len() - 1 {
        assert(after.drop_last() =~= bricks.drop_last());
    } else {
        lemma_destroy_moves_points(bricks.drop_last(), id);
        assert(after.drop_last() =~= bricks.drop_last().update(
            id,
            bricks.drop_last()[id].destroyed(),
        ));
    }
}

/// All the points of a well-formed field, standing and destroyed together, fit
/// in 64 bits.
pub proof fn lemma_points_bounded(bricks: Seq<BrickView>)
    requires
        field_wf(bricks),
    ensures
        destroyed_points(bricks) + remaining_points(bricks) <= bricks.len() * u32::MAX,
        destroyed_points(bricks) + remaining_points(bricks) <= u64::MAX,
    decreases bricks.len(),
{
    if bricks.len() > 0 {
        lemma_points_bounded(bricks.drop_last());
        assert(bricks.last().wf());
        assert(bricks.len() * u32::MAX == (bricks.len() - 1) * u32::MAX + u32::MAX)
            by (nonlinear_arith);
    }
    assert(bricks.len() * u32::MAX <= u64::MAX) by (nonlinear_arith)
        requires
            bricks.len() <= 0xFFFF_FFFF,
    ;
}

/// The bricks of one round, each found by its index.
pub struct BrickField {
    bricks: Vec<Brick>,
}

impl View for BrickField {
    type V = Seq<BrickView>;

    closed spec fn view(&self) -> Seq<BrickView> {
        Seq::new(self.bricks@.len(), |i: int| self.bricks@[i]@)
    }
}

impl BrickField {
    /// The field is within the limits.
    pub open spec fn wf(&self) -> bool {
        field_wf(self@)
    }

    /// Takes the bricks as the field, in their order.
    pub fn new(bricks: Vec<Brick>) -> (field: BrickField)
        requires
            bricks@.len() <= MAX_BRICKS,
            forall|i: int| 0 <= i < bricks@.len() ==> (#[trigger] bricks@[i])@.wf(),
        ensures
            field.wf(),
            field@.len() == bricks@.len(),
            forall|i: int| 0 <= i < bricks@.len() ==> field@[i] == (#[trigger] bricks@[i])@,
    {
        BrickField { bricks }
    }

    /// The number of bricks, standing or destroyed.
    pub fn len(&self) -> (n: usize)
        ensures
            n == self@.len(),
    {
        self.bricks.len()
    }

    /// The brick with the given index.
    pub fn get(&self, id: usize) -> (brick: Brick)
        requires
            id < self@.len(),
        ensures
            brick@ == self@[id as int],
    {
        self.bricks[id]
    }

    /// Destroys the brick with the given index, if there is one and it
    /// stands, and hands back its points. Otherwise nothing changes.
    pub fn remove(&mut self, id: usize) -> (points: Option<u32>)
        ensures
            standing(old(self)@, id as int) ==> points == Some(old(self)@[id as int].points as u32)
                && final(self)@ == old(self)@.update(
                id as int,
                old(self)@[id as int].destroyed(),
            ),
            !standing(old(self)@, id as int) ==> points is None && final(self)@ == old(self)@,
            old(self).wf() ==> final(self).wf(),
    {
        if id >= self.bricks.len() {
            return None;
        }
        let mut brick = self.bricks[id];
        if !brick.live {
            return None;
        }
        brick.live = false;
        self.bricks.set(id, brick);
        assert(self@ =~= old(self)@.update(id as int, old(self)@[id as int].destroyed()));
        Some(brick.points)
    }
}

// ---------------------------------------------------------------------------
// The grid of a fresh round
// ---------------------------------------------------------------------------
/// The size of every brick of the grid: a cell less half the padding in each
/// extent. A valid configuration leaves neither extent negative.
pub open spec fn brick_size(config: BreakoutConfig) -> Collider {
    Collider {
        width: (config.cell_width() - config.brick_padding / 2) as u32,
        height: (config.brick_height - config.brick_padding / 2) as u32,
    }
}

/// The brick in the given column and row of the grid, column 0 being the
/// leftmost and row 0 the top one. The cells fill the width of the court
/// from the left wall, and hang from the configured offset under the top
/// wall; each brick is centred in its cell, halves rounded down to the grid.
pub open spec fn grid_brick(config: BreakoutConfig, column: int, row: int) -> BrickView {
    BrickView {
        position: Point {
            x: column * config.cell_width() + config.cell_width() / 2 - config.court_size.width
                / 2,
            y: config.court_size.height / 2 - config.brick_height / 2 - row * config.brick_height
                - config.bricks_top_offset,
        },
        size: brick_size(config),
        points: config.row_points(row) as nat,
        live: true,
    }
}

/// The field of a fresh round: every brick of the grid, standing, column by
/// column from the left and in each column from the top.
pub open spec fn grid(config: BreakoutConfig) -> Seq<BrickView> {
    Seq::new(
        (config.brick_columns * config.brick_rows) as nat,
        |k: int|
            grid_brick(config, k / (config.brick_rows as int), k % (config.brick_rows as int)),
    )
}

/// In a valid configuration every brick of the grid lies inside the court,
/// its extents and its points are what the formulas say, without wrapping,
/// and its points are those of the top row at most.
pub proof fn lemma_grid_brick(config: BreakoutConfig, column: int, row: int)
    requires
        config.valid(),
        0 <= column < config.brick_columns,
        0 <= row < config.brick_rows,
    ensures
        grid_brick(config, column, row).wf(),
        brick_size(config).width == config.cell_width() - config.brick_padding / 2,
        brick_size(config).height == config.brick_height - config.brick_padding / 2,
        0 <= column * config.cell_width() <= config.court_size.width,
        0 <= row * config.brick_height <= config.court_size.height,
        config.points_base <= config.row_points(row) <= config.row_points(0) <= u32::MAX,
{
    let w = config.court_size.width as int;
    let c = config.brick_columns as int;
    let h = config.brick_height as int;
    let r = config.brick_rows as int;
    lemma_fundamental_div_mod(w, c);
    assert(0 <= column * (w / c) <= w && 0 <= w / c <= w) by (nonlinear_arith)
        requires
            0 <= column < c,
            w == c * (w / c) + (w % c),
            0 <= w % c,
            0 <= w / c,
    ;
    assert(0 <= row * h <= r * h) by (nonlinear_arith)
        requires
            0 <= row < r,
            0 <= h,
    ;
    assert(0 <= config.points_step * (r - 1 - row) <= config.points_step * (r - 1))
        by (nonlinear_arith)
        requires
            0 <= row < r,
            0 <= config.points_step,
    ;
}

/// A field in which every brick stands has nothing destroyed.
pub proof fn lemma_standing_field(bricks: Seq<BrickView>)
    requires
        forall|i: int| 0 <= i < bricks.len() ==> (#[trigger] bricks[i]).live,
    ensures
        destroyed_points(bricks) == 0,
    decreases bricks.len(),
{
    if bricks.len() > 0 {
        assert(bricks.last() == bricks[bricks.len() - 1]);
        assert forall|i: int| 0 <= i < bricks.drop_last().len() implies (
        #[trigger] bricks.drop_last()[i]).live by {
            assert(bricks.drop_last()[i] == bricks[i]);
        }
        lemma_standing_field(bricks.drop_last());
    }
}

/// The grid of a valid configuration is a field within the limits in which
/// every brick stands.
pub proof fn lemma_grid(config: BreakoutConfig)
    requires
        config.valid(),
    ensures
        field_wf(grid(config)),
        grid(config).len() == config.brick_columns * config.brick_rows,
        forall|i: int| 0 <= i < grid(config).len() ==> (#[trigger] grid(config)[i]).live,
        destroyed_points(grid(config)) == 0,
{
    let rows = config.brick_rows as int;
    assert forall|k: int| 0 <= k < grid(config).len() implies (#[trigger] grid(config)[k]).wf()
        && grid(config)[k].live by {
        lemma_fundamental_div_mod(k, rows);
        assert(0 <= k / rows < config.brick_columns && 0 <= k % rows < rows) by (nonlinear_arith)
            requires
                0 <= k < config.brick_columns * rows,
                0 < rows,
                k == rows * (k / rows) + (k % rows),
                0 <= k % rows < rows,
        ;
        lemma_grid_brick(config, k / rows, k % rows);
    }
    lemma_standing_field(grid(config));
}

/// Makes one brick of the grid.
fn grid_brick_at(config: &BreakoutConfig, column: u32, row: u32) -> (brick: Brick)
    requires
        config.valid(),
        column < config.brick_columns,
        row < config.brick_rows,
    ensures
        brick@ == grid_brick(*config, column as int, row as int),
        brick@.wf(),
{
    let cell_width: u32 = config.court_size.width / config.brick_columns;
    let half_padding: u32 = config.brick_padding / 2;
    proof {
        lemma_grid_brick(*config, column as int, row as int);
    }
    let x: i64 = (column as i64) * (cell_width as i64) + (cell_width / 2) as i64 - (
    config.court_size.width / 2) as i64;
    let y: i64 = (config.court_size.height / 2) as i64 - (config.brick_height / 2) as i64 - (
    row as i64) * (config.brick_height as i64) - config.bricks_top_offset as i64;
    let points: u64 = config.points_base as u64 + config.points_step as u64 * (
    config.brick_rows - 1 - row) as u64;
    Brick {
        position: Vec2 { x, y },
        size: Collider {
            width: cell_width - half_padding,
            height: config.brick_height - half_padding,
        },
        points: points as u32,
        live: true,
    }
}

/// Lays out the field of a fresh round.
pub fn spawn_bricks(config: &BreakoutConfig) -> (field: BrickField)
    requires
        config.valid(),
    ensures
        field@ == grid(*config),
        field.wf(),
{
    let columns = config.brick_columns;
    let rows = config.brick_rows;
    let mut bricks: Vec<Brick> = Vec::new();
    let mut column: u32 = 0;
    while column < columns
        invariant
            config.valid(),
            columns == config.brick_columns,
            rows == config.brick_rows,
            column <= columns,
            bricks@.len() == column * rows,
            forall|k: int|
                0 <= k < bricks@.len() ==> (#[trigger] bricks@[k])@ == grid_brick(
                    *config,
                    k / (rows as int),
                    k % (rows as int),
                ) && bricks@[k]@.wf(),
        decreases columns - column,
    {
        let mut row: u32 = 0;
        while row < rows
            invariant
                config.valid(),
                columns == config.brick_columns,
                rows == config.brick_rows,
                column < columns,
                row <= rows,
                bricks@.len() == column * rows + row,
                forall|k: int|
                    0 <= k < bricks@.len() ==> (#[trigger] bricks@[k])@ == grid_brick(
                        *config,
                        k / (rows as int),
                        k % (rows as int),
                    ) && bricks@[k]@.wf(),
            decreases rows - row,
        {
            let brick = grid_brick_at(config, column, row);
            proof {
                let k = column * rows + row;
                lemma_fundamental_div_mod_converse_div(k, rows as int, column as int, row as int);
                lemma_fundamental_div_mod_converse_mod(k, rows as int, column as int, row as int);
            }
            bricks.push(brick);
            row += 1;
        }
        assert(column * rows + rows == (column + 1) * rows) by (nonlinear_arith);
        column += 1;
    }
    assert(bricks@.len() == columns * rows);
    let field = BrickField::new(bricks);
    assert(field@.len() == grid(*config).len());
    assert forall|k: int| 0 <= k < field@.len() implies field@[k] == grid(*config)[k] by {
        assert(field@[k] == bricks@[k]@);
    }
    assert(field@ =~= grid(*config));
    field
}

/// Whether the field has no standing brick left.
pub fn bricks_cleared(field: &BrickField) -> (empty: bool)
    ensures
        empty == cleared(field@),
{
    let n = field.len();
    let mut i: usize = 0;
    while i < n
        invariant
            i <= n,
            n == field@.len(),
            forall|j: int| 0 <= j < i ==> !(#[trigger] field@[j]).live,
        decreases n - i,
    {
        if field.get(i).live {
            return false;
        }
        i += 1;
    }
    true
}

} // verus!
