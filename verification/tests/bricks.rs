use breakout::bricks::{bricks_cleared, spawn_bricks, Brick, BrickField};
use breakout::config::BreakoutConfig;
use breakout::geometry::{Collider, Vec2};

fn brick(points: u32, live: bool) -> Brick {
    Brick { position: Vec2::new(0, 0), size: Collider::new(10, 10), points, live }
}

#[test]
fn default_grid_has_every_brick() {
    let field = spawn_bricks(&BreakoutConfig::default());
    assert_eq!(field.len(), 14 * 8);
    for id in 0..field.len() {
        let b = field.get(id);
        assert!(b.live);
        // A cell is 21_428 by 10_000, and a brick 1_000 less each way.
        assert_eq!(b.size, Collider::new(20_428, 9_000));
    }
    assert!(!bricks_cleared(&field));
}

#[test]
fn default_grid_is_laid_out_column_by_column() {
    let field = spawn_bricks(&BreakoutConfig::default());
    // Top left.
    assert_eq!(field.get(0).position, Vec2::new(-139_286, 170_000));
    // Bottom left.
    assert_eq!(field.get(7).position, Vec2::new(-139_286, 100_000));
    // Top of the second column.
    assert_eq!(field.get(8).position, Vec2::new(-117_858, 170_000));
    // Bottom right.
    assert_eq!(field.get(111).position, Vec2::new(139_278, 100_000));
}

#[test]
fn higher_rows_are_worth_more() {
    let field = spawn_bricks(&BreakoutConfig::default());
    for column in 0..14 {
        for row in 0..8 {
            assert_eq!(field.get(column * 8 + row).points, (8 - row) as u32);
        }
    }
}

#[test]
fn points_follow_base_and_step() {
    let config = BreakoutConfig {
        brick_columns: 2,
        brick_rows: 3,
        points_base: 5,
        points_step: 10,
        ..BreakoutConfig::default()
    };
    let field = spawn_bricks(&config);
    assert_eq!(field.len(), 6);
    assert_eq!(field.get(0).points, 25);
    assert_eq!(field.get(1).points, 15);
    assert_eq!(field.get(2).points, 5);
    assert_eq!(field.get(3).points, 25);
    let flat = BreakoutConfig { points_step: 0, ..config };
    let field = spawn_bricks(&flat);
    for id in 0..6 {
        assert_eq!(field.get(id).points, 5);
    }
}

#[test]
fn grid_without_rows_or_columns_is_empty() {
    let config = BreakoutConfig { brick_rows: 0, ..BreakoutConfig::default() };
    let field = spawn_bricks(&config);
    assert_eq!(field.len(), 0);
    assert!(bricks_cleared(&field));
    let config = BreakoutConfig { brick_columns: 0, ..BreakoutConfig::default() };
    assert_eq!(spawn_bricks(&config).len(), 0);
}

#[test]
fn single_brick_fills_the_width() {
    let config = BreakoutConfig {
        court_size: Collider::new(300, 450),
        paddle_size: Collider::new(40, 10),
        paddle_offset: 20,
        serve_offset: 20,
        serve_speed: 5,
        ball_size: 8,
        brick_columns: 1,
        brick_rows: 1,
        bricks_top_offset: 50,
        brick_height: 10,
        brick_padding: 2,
        ..BreakoutConfig::default()
    };
    assert!(config.is_valid());
    let field = spawn_bricks(&config);
    assert_eq!(field.len(), 1);
    let b = field.get(0);
    assert_eq!(b.position, Vec2::new(0, 170));
    assert_eq!(b.size, Collider::new(299, 9));
    assert_eq!(b.points, 1);
}

#[test]
fn removing_a_brick_keeps_its_place() {
    let mut field = BrickField::new(vec![brick(3, true), brick(4, true), brick(5, true)]);
    assert_eq!(field.remove(1), Some(4));
    assert_eq!(field.len(), 3);
    assert_eq!(field.get(0), brick(3, true));
    assert_eq!(field.get(1), brick(4, false));
    assert_eq!(field.get(2), brick(5, true));
    assert!(!bricks_cleared(&field));
}

#[test]
fn brick_is_removed_once() {
    let mut field = BrickField::new(vec![brick(3, true), brick(4, false)]);
    assert_eq!(field.remove(0), Some(3));
    assert_eq!(field.remove(0), None);
    assert_eq!(field.remove(1), None);
    assert_eq!(field.remove(2), None);
    assert_eq!(field.remove(usize::MAX), None);
    assert_eq!(field.get(0), brick(3, false));
    assert_eq!(field.get(1), brick(4, false));
}

#[test]
fn field_is_cleared_when_no_brick_stands() {
    let mut field = BrickField::new(vec![brick(3, true), brick(4, false)]);
    assert!(!bricks_cleared(&field));
    field.remove(0);
    assert!(bricks_cleared(&field));
    assert!(bricks_cleared(&BrickField::new(Vec::new())));
}
