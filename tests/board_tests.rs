use fpt::board::{clear_fulfilled, elapsed_msec, Board, Cell, Moving};
use fpt::tetrimino::{shape_at, Shape, Tetrimino};
use rand::rngs::StdRng;
use rand::SeedableRng;

fn rng() -> StdRng {
    StdRng::seed_from_u64(7)
}

fn pos(x: usize, y: usize) -> usize {
    x * 20 + y
}

fn empty_grid() -> Vec<Cell> {
    let mut g = Vec::new();
    for x in 0..12 {
        for y in 0..20 {
            if x == 0 || x == 11 || y == 19 {
                g.push(Cell::Wall);
            } else {
                g.push(Cell::Empty);
            }
        }
    }
    g
}

fn piece(shape: Shape, rotation: i32) -> Moving {
    Moving { tetrimino: Tetrimino::of(shape), rotation, x: 5, y: 5 }
}

#[test]
fn new_board_has_walls_and_empty_interior() {
    let b = Board::new(rng());
    assert_eq!(b.width(), 12);
    assert_eq!(b.height(), 20);
    assert_eq!(b.rotation(), 0);
    assert_eq!(b.x(), 6);
    assert_eq!(b.y(), 0);
    assert!(!b.is_game_over());
    for x in 0..12 {
        for y in 0..20 {
            let expected = if x == 0 || x == 11 || y == 19 { Cell::Wall } else { Cell::Empty };
            assert_eq!(b.cell(x, y), expected);
        }
    }
}

#[test]
fn first_tick_spawns_and_moves_follow_rotation() {
    let mut b = Board::new(rng());
    b.fall(0);
    assert_eq!(b.x(), 6);
    assert_eq!(b.y(), 0);
    assert_eq!(b.rotation(), 0);
    b.advance(true);
    assert_eq!(b.x(), 6);
    assert_eq!(b.y(), 1);
    b.rotate(true);
    assert_eq!(b.rotation(), 1);
    let (x0, y0) = (b.x(), b.y());
    b.advance(true);
    assert_eq!(b.x(), x0 + 1);
    assert_eq!(b.y(), y0);
}

#[test]
fn spawn_places_t_at_top_center() {
    let mut b = Board::new(rng());
    b.spawn(Tetrimino::of(Shape::T));
    assert_eq!(b.cell(5, 0), Cell::Block(Shape::T));
    assert_eq!(b.cell(6, 0), Cell::Block(Shape::T));
    assert_eq!(b.cell(7, 0), Cell::Block(Shape::T));
    assert_eq!(b.cell(6, 1), Cell::Block(Shape::T));
    assert_eq!(b.cell(6, 2), Cell::Empty);
    b.advance(false);
    // backward at rotation 0 would leave the field at the top: rejected
    assert_eq!(b.y(), 0);
    assert_eq!(b.cell(6, 1), Cell::Block(Shape::T));
}

#[test]
fn advance_mapping_for_every_rotation() {
    let cases = [(0, true, 0, 1), (0, false, 0, -1), (1, true, 1, 0), (1, false, -1, 0),
                 (2, true, 0, -1), (2, false, 0, 1), (3, true, -1, 0), (3, false, 1, 0)];
    for &(r, fwd, dx, dy) in cases.iter() {
        let m = piece(Shape::L, r);
        let n = m.advance(fwd);
        assert_eq!(n.x, 5 + dx);
        assert_eq!(n.y, 5 + dy);
        assert_eq!(n.rotation, r);
    }
}

#[test]
fn fall_adds_one_row() {
    let n = piece(Shape::S, 2).fall();
    assert_eq!((n.x, n.y, n.rotation), (5, 6, 2));
}

#[test]
fn rotation_cycles_after_four_turns() {
    for start in 0..4 {
        for &acw in [true, false].iter() {
            let m = piece(Shape::J, start);
            let once = m.rotate(acw);
            let expected = if acw { (start + 1) % 4 } else { (start + 3) % 4 };
            assert_eq!(once.rotation, expected);
            let back = once.rotate(acw).rotate(acw).rotate(acw);
            assert_eq!(back.rotation, start);
        }
    }
    assert_eq!(piece(Shape::I, 0).rotate(false).rotation, 3);
    assert_eq!(piece(Shape::I, 3).rotate(true).rotation, 0);
}

#[test]
fn catalog_entries() {
    let i = Tetrimino::of(Shape::I);
    assert_eq!(i.rotates[1].points, [(1, -1), (1, 0), (1, 1), (1, 2)]);
    assert_eq!(i.rotates[1].base, (1, 1));
    let s = Tetrimino::of(Shape::S);
    assert_eq!(s.rotates[1].base, (-1, 0));
    let m = Moving { tetrimino: s, rotation: 1, x: 0, y: 0 };
    assert_eq!(m.base(), (-1, 0));
    assert_eq!(m.points(), [(0, 1), (0, 0), (-1, 0), (-1, -1)]);
    assert_eq!(m.shape(), Shape::S);
    assert_eq!(shape_at(0), Shape::I);
    assert_eq!(shape_at(6), Shape::T);
    assert_eq!(Cell::default(), Cell::Empty);
}

#[test]
fn random_pieces_come_from_the_catalog() {
    let mut r = rng();
    for _ in 0..50 {
        let t = Tetrimino::rand(&mut r);
        assert_eq!(t, Tetrimino::of(t.shape));
        let m = Moving::new_random(&mut r, 3, 4);
        assert_eq!((m.rotation, m.x, m.y), (0, 3, 4));
        assert_eq!(m.tetrimino, Tetrimino::of(m.tetrimino.shape));
    }
}

#[test]
fn compaction_without_full_rows_keeps_grid() {
    let mut g = empty_grid();
    g[pos(3, 18)] = Cell::Block(Shape::O);
    g[pos(4, 10)] = Cell::Block(Shape::Z);
    let before = g.clone();
    clear_fulfilled(&mut g);
    assert_eq!(g, before);
}

#[test]
fn compaction_removes_one_full_row() {
    let mut g = empty_grid();
    for x in 1..11 {
        g[pos(x, 12)] = Cell::Block(Shape::I);
    }
    g[pos(2, 11)] = Cell::Block(Shape::S);
    g[pos(3, 0)] = Cell::Block(Shape::J);
    g[pos(4, 15)] = Cell::Block(Shape::T);
    clear_fulfilled(&mut g);
    let mut expected = empty_grid();
    expected[pos(2, 12)] = Cell::Block(Shape::S);
    expected[pos(3, 1)] = Cell::Block(Shape::J);
    expected[pos(4, 15)] = Cell::Block(Shape::T);
    assert_eq!(g, expected);
}

#[test]
fn compaction_removes_two_full_rows() {
    let mut g = empty_grid();
    for x in 1..11 {
        g[pos(x, 18)] = Cell::Block(Shape::I);
        g[pos(x, 16)] = Cell::Block(Shape::O);
    }
    g[pos(5, 17)] = Cell::Block(Shape::L);
    g[pos(6, 15)] = Cell::Block(Shape::Z);
    clear_fulfilled(&mut g);
    let mut expected = empty_grid();
    expected[pos(5, 18)] = Cell::Block(Shape::L);
    expected[pos(6, 17)] = Cell::Block(Shape::Z);
    assert_eq!(g, expected);
}

#[test]
fn with_fixed_rejects_bad_grids() {
    assert!(Board::with_fixed(rng(), Vec::new()).is_none());
    let mut g = empty_grid();
    g[pos(0, 3)] = Cell::Empty;
    assert!(Board::with_fixed(rng(), g).is_none());
    let mut g = empty_grid();
    g[pos(5, 5)] = Cell::Wall;
    assert!(Board::with_fixed(rng(), g).is_none());
    assert!(Board::with_fixed(rng(), empty_grid()).is_some());
}

#[test]
fn blocked_spawn_ends_the_game() {
    let mut g = empty_grid();
    g[pos(6, 0)] = Cell::Block(Shape::O);
    let mut b = Board::with_fixed(rng(), g).unwrap();
    b.fall(0);
    assert!(b.is_game_over());
    assert_eq!(b.cell(6, 0), Cell::Block(Shape::O));
    assert_eq!(b.cell(5, 0), Cell::Empty);
    assert_eq!(b.cell(6, 1), Cell::Empty);
    b.fall(0);
    b.rotate(true);
    b.advance(true);
    assert!(b.is_game_over());
    assert_eq!(b.cell(6, 1), Cell::Empty);
    assert_eq!(b.cell(7, 0), Cell::Empty);
}

#[test]
fn locking_the_last_cell_clears_the_row() {
    let mut g = empty_grid();
    for x in 1..11 {
        if x != 6 {
            g[pos(x, 18)] = Cell::Block(Shape::O);
        }
    }
    let mut b = Board::with_fixed(rng(), g).unwrap();
    b.spawn(Tetrimino::of(Shape::T));
    for _ in 0..17 {
        b.step_down();
    }
    assert_eq!(b.y(), 17);
    assert_eq!(b.cell(6, 18), Cell::Block(Shape::T));
    b.step_down();
    for x in 1..11 {
        let expected = if (5..8).contains(&x) { Cell::Block(Shape::T) } else { Cell::Empty };
        assert_eq!(b.cell(x, 18), expected);
        assert_eq!(b.cell(x, 17), Cell::Empty);
    }
    assert!(!b.is_game_over());
    assert_eq!(b.rotation(), 0);
    assert_eq!(b.x(), 6);
    assert_eq!(b.y(), 0);
}

#[test]
fn piece_stops_at_walls() {
    let mut b = Board::new(rng());
    b.spawn(Tetrimino::of(Shape::O));
    b.rotate(true);
    for _ in 0..10 {
        b.advance(true);
    }
    // rotation 1 moves along +x; the O piece has cells at x and x + 1
    assert_eq!(b.cell(10, 0), Cell::Block(Shape::O));
    assert_eq!(b.cell(11, 0), Cell::Wall);
    assert_eq!(b.cell(9, 0), Cell::Block(Shape::O));
    assert_eq!(b.cell(8, 0), Cell::Empty);
}

#[test]
fn elapsed_time_truncates_toward_zero() {
    assert_eq!(elapsed_msec(0, 2_500_000), 2);
    assert_eq!(elapsed_msec(2_500_000, 0), -2);
    assert_eq!(elapsed_msec(10, 10), 0);
    assert_eq!(elapsed_msec(0, 999_999), 0);
}

#[test]
fn large_threshold_delays_gravity() {
    let mut b = Board::new(rng());
    b.fall(i64::MAX);
    assert_eq!(b.cell(6, 0), Cell::Empty);
    b.fall(0);
    assert_eq!(b.cell(6, 0) == Cell::Empty, false);
}

#[test]
fn tick_before_threshold_changes_nothing() {
    let mut b = Board::new(rng());
    b.tick(0, i64::MAX);
    assert_eq!(b.cell(6, 0), Cell::Empty);
    b.spawn(Tetrimino::of(Shape::I));
    b.tick(0, i64::MAX);
    assert_eq!(b.y(), 0);
    assert_eq!(b.cell(5, 0), Cell::Block(Shape::I));
}

#[test]
fn due_ticks_spawn_then_fall() {
    let mut b = Board::new(rng());
    b.tick(5, i64::MIN);
    assert_eq!((b.x(), b.y(), b.rotation()), (6, 0, 0));
    assert!(b.cell(6, 0) != Cell::Empty);
    b.tick(5, i64::MIN);
    assert_eq!((b.x(), b.y(), b.rotation()), (6, 1, 0));
    assert!(b.cell(6, 1) != Cell::Empty);
    assert!(!b.is_game_over());
}

#[test]
fn tick_after_game_over_changes_nothing() {
    let mut g = empty_grid();
    g[pos(6, 0)] = Cell::Block(Shape::Z);
    let mut b = Board::with_fixed(rng(), g).unwrap();
    b.tick(1, i64::MIN);
    assert!(b.is_game_over());
    b.tick(2, i64::MIN);
    assert!(b.is_game_over());
    assert_eq!(b.cell(6, 1), Cell::Empty);
    assert_eq!(b.cell(5, 0), Cell::Empty);
}

#[test]
fn moves_far_from_the_field() {
    let m = Moving { tetrimino: Tetrimino::of(Shape::T), rotation: 1, x: i32::MAX - 1, y: i32::MIN + 1 };
    assert_eq!(m.advance(true).x, i32::MAX);
    assert_eq!(m.advance(false).x, i32::MAX - 2);
    let n = Moving { rotation: 0, ..m };
    assert_eq!(n.advance(false).y, i32::MIN);
    assert_eq!(n.advance(true).advance(false).y, n.y);
    assert_eq!(n.fall().y, i32::MIN + 2);
}
