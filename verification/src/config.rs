//! The constants of a game, fixed for a session.
//!
//! All lengths are whole numbers of one unit of resolution, and speeds are
//! lengths per tick. The library does not care what the unit is; the default
//! configuration measures in thousandths of a pixel and ticks in milliseconds.

use crate::bricks::MAX_BRICKS;
use crate::geometry::Collider;
use vstd::prelude::*;

verus! {

/// The distance, in units of resolution, that the ball is set clear of the
/// paddle after a bounce.
pub const EPSILON: i64 = 1;

/// The constants of one game.
#[derive(Clone, Copy, Debug, PartialEq, Eq, Structural)]
pub struct BreakoutConfig {
    /// The court, centred on the origin.
    pub court_size: Collider,
    pub paddle_size: Collider,
    /// How far the paddle moves per tick for each unit of move intent.
    pub paddle_speed: u32,
    /// The height of the paddle's centre above the bottom of the court.
    pub paddle_offset: u32,
    /// The speed at which the ball leaves the paddle when served.
    pub serve_speed: u32,
    /// The height of a waiting ball's centre above the paddle's centre.
    pub serve_offset: u32,
    pub brick_columns: u32,
    pub brick_rows: u32,
    /// The gap between the top of the court and the top row of cells.
    pub bricks_top_offset: u32,
    /// The height of one row of cells.
    pub brick_height: u32,
    /// Half of this is taken off each extent of a cell to give the brick.
    pub brick_padding: u32,
    /// The side of the square ball.
    pub ball_size: u32,
    /// The lives a round begins with.
    pub starting_lives: u32,
    /// The points of a brick in the bottom row.
    pub points_base: u32,
    /// What each row adds to the points of the row below it.
    pub points_step: u32,
}

impl BreakoutConfig {
    /// The default configuration: a court of 300 by 450 pixels with a grid
    /// of 14 by 8 bricks and three lives, in thousandths of a pixel; the
    /// ball is served at half a pixel per tick, and a brick is worth one
    /// point in the bottom row and one more in each row above.
    pub open spec fn standard() -> BreakoutConfig {
        BreakoutConfig {
            court_size: Collider { width: 300_000, height: 450_000 },
            paddle_size: Collider { width: 40_000, height: 10_000 },
            paddle_speed: 1,
            paddle_offset: 20_000,
            serve_speed: 500,
            serve_offset: 20_000,
            brick_columns: 14,
            brick_rows: 8,
            bricks_top_offset: 50_000,
            brick_height: 10_000,
            brick_padding: 2_000,
            ball_size: 8_000,
            starting_lives: 3,
            points_base: 1,
            points_step: 1,
        }
    }

    /// The box of the ball.
    pub open spec fn ball_collider(self) -> Collider {
        Collider { width: self.ball_size, height: self.ball_size }
    }

    /// The y coordinate of the paddle's centre.
    pub open spec fn paddle_y(self) -> int {
        self.paddle_offset - self.court_size.height / 2
    }

    /// The y coordinate at which the ball is set down after it bounced off
    /// the paddle: its lower edge `EPSILON` above the paddle's upper edge,
    /// rounded up to the grid.
    pub open spec fn rest_y(self) -> int {
        self.paddle_y() + (self.paddle_size.height + self.ball_size + 1) / 2 + EPSILON
    }

    /// The width of one cell of the brick grid.
    pub open spec fn cell_width(self) -> int {
        self.court_size.width as int / self.brick_columns as int
    }

    /// The points of a brick in the given row, row 0 being the top one.
    pub open spec fn row_points(self, row: int) -> int {
        self.points_base + self.points_step * (self.brick_rows - 1 - row)
    }

    /// The configuration describes a playable game: ball and paddle fit in
    /// the court, a ball set down on the paddle stays under the top wall, the
    /// grid fits between the top wall and the bottom, the padding leaves
    /// something of each cell, and neither the number of bricks nor the
    /// points of the top row exceed 32 bits.
    pub open spec fn valid(self) -> bool {
        &&& self.ball_size <= self.court_size.width
        &&& self.ball_size <= self.court_size.height
        &&& self.paddle_size.width <= self.court_size.width
        &&& 2 * self.rest_y() + self.ball_size <= self.court_size.height
        &&& self.brick_rows * self.brick_height + self.bricks_top_offset
            <= self.court_size.height
        &&& self.brick_padding / 2 <= self.brick_height
        &&& self.brick_columns > 0 ==> self.brick_padding as int / 2 <= self.cell_width()
        &&& self.brick_columns * self.brick_rows <= MAX_BRICKS
        &&& self.brick_rows > 0 ==> self.row_points(0) <= u32::MAX
    }

    /// Decides whether the configuration is `valid`.
    pub fn is_valid(&self) -> (ok: bool)
        ensures
            ok == self.valid(),
    {
        let court_width: i64 = self.court_size.width as i64;
        let court_height: i64 = self.court_size.height as i64;
        let ball: i64 = self.ball_size as i64;
        let paddle_y: i64 = self.paddle_offset as i64 - court_height / 2;
        let rest_y: i64 = paddle_y + (self.paddle_size.height as i64 + ball + 1) / 2 + EPSILON;
        let rows: u64 = self.brick_rows as u64;
        let columns: u64 = self.brick_columns as u64;
        let half_padding: u32 = self.brick_padding / 2;
        assert(rows * self.brick_height as u64 <= 0xFFFF_FFFFu64 * 0xFFFF_FFFFu64)
            by (nonlinear_arith)
            requires
                rows <= 0xFFFF_FFFFu64,
                self.brick_height as u64 <= 0xFFFF_FFFFu64,
        ;
        assert(columns * rows <= 0xFFFF_FFFFu64 * 0xFFFF_FFFFu64) by (nonlinear_arith)
            requires
                rows <= 0xFFFF_FFFFu64,
                columns <= 0xFFFF_FFFFu64,
        ;
        let grid_fits: bool = rows * self.brick_height as u64 + self.bricks_top_offset as u64
            <= self.court_size.height as u64;
        let cells_hold: bool = self.brick_columns == 0 || half_padding
            <= self.court_size.width / self.brick_columns;
        let top_row_fits: bool = if self.brick_rows == 0 {
            true
        } else {
            let above: u64 = rows - 1;
            assert(self.points_step as u64 * above <= 0xFFFF_FFFFu64 * 0xFFFF_FFFFu64)
                by (nonlinear_arith)
                requires
                    above <= 0xFFFF_FFFFu64,
                    self.points_step as u64 <= 0xFFFF_FFFFu64,
            ;
            self.points_base as u64 + self.points_step as u64 * above <= 0xFFFF_FFFFu64
        };
        ball <= court_width && ball <= court_height && self.paddle_size.width as i64
            <= court_width && 2 * rest_y + ball <= court_height && grid_fits && half_padding
            <= self.brick_height && cells_hold && columns * rows <= 0xFFFF_FFFFu64
            && top_row_fits
    }
}

impl Default for BreakoutConfig {
    fn default() -> (config: BreakoutConfig)
        ensures
            config == BreakoutConfig::standard(),
            config.valid(),
    {
        BreakoutConfig {
            court_size: Collider { width: 300_000, height: 450_000 },
            paddle_size: Collider { width: 40_000, height: 10_000 },
            paddle_speed: 1,
            paddle_offset: 20_000,
            serve_speed: 500,
            serve_offset: 20_000,
            brick_columns: 14,
            brick_rows: 8,
            bricks_top_offset: 50_000,
            brick_height: 10_000,
            brick_padding: 2_000,
            ball_size: 8_000,
            starting_lives: 3,
            points_base: 1,
            points_step: 1,
        }
    }
}

} // verus!
