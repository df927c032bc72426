use vstd::prelude::*;

use crate::board::{
    cell_at, cell_free, compact_cell, grid_index, in_grid, initial_cell, is_compaction, kept_rows,
    legal, row, row_full, spawn_piece, spawn_result, walled, Board, Cell, Moving,
};
use crate::tetrimino::{lemma_catalog_bounds, spec_points, Shape};

verus! {

/// On every board that the commands can produce, each cell of the falling piece lies
/// between the side walls, and each such cell in the visible rows is empty in the
/// fixed grid.
pub proof fn lemma_piece_in_field(b: &Board)
    requires
        b.wf(),
    ensures
        b.active() matches Some(m) ==> forall|i: int|
            0 <= i < 4 ==> {
                let cx = m.x + (#[trigger] m.offsets()[i]).0;
                let cy = m.y + m.offsets()[i].1;
                &&& 0 <= cx < 12
                &&& 0 <= cy < 20 ==> cell_at(b.fixed(), cx, cy) == Cell::Empty
            },
{
}

/// Four turns in the same direction give the piece back.
pub proof fn lemma_rotate_four_times(m: Moving, is_acw: bool)
    requires
        m.wf(),
    ensures
        m.rotated(is_acw).rotated(is_acw).rotated(is_acw).rotated(is_acw) == m,
{
}

/// Two grids of the field's size that agree on every cell are equal.
pub proof fn lemma_grid_ext(h: Seq<Cell>, g: Seq<Cell>)
    requires
        h.len() == 240,
        g.len() == 240,
        forall|x: int, y: int| in_grid(x, y) ==> #[trigger] cell_at(h, x, y) == cell_at(g, x, y),
    ensures
        h == g,
{
    assert forall|k: int| 0 <= k < 240 implies h[k] == g[k] by {
        let x = k / 20;
        let y = k % 20;
        assert(grid_index(x, y) == k);
        assert(cell_at(h, x, y) == cell_at(g, x, y));
    }
    assert(h =~= g);
}

proof fn lemma_kept_all(g: Seq<Cell>, lo: int)
    requires
        0 <= lo <= 19,
        forall|y: int| 0 <= y < 19 ==> !row_full(g, y),
    ensures
        kept_rows(g, lo).len() == 19 - lo,
        forall|k: int| 0 <= k < 19 - lo ==> #[trigger] kept_rows(g, lo)[k] == row(g, lo + k),
    decreases 19 - lo,
{
    if lo < 19 {
        lemma_kept_all(g, lo + 1);
        let ks = kept_rows(g, lo);
        assert forall|k: int| 0 <= k < 19 - lo implies #[trigger] ks[k] == row(g, lo + k) by {
            if k > 0 {
                assert(ks[k] == kept_rows(g, lo + 1)[k - 1]);
            }
        }
    }
}

/// Compaction of a grid with no full row leaves it unchanged.
pub proof fn lemma_compaction_without_full_rows(h: Seq<Cell>, g: Seq<Cell>)
    requires
        walled(g),
        forall|y: int| 0 <= y < 19 ==> !row_full(g, y),
        is_compaction(h, g),
    ensures
        h == g,
{
    lemma_kept_all(g, 0);
    assert forall|x: int, y: int| in_grid(x, y) implies #[trigger] cell_at(h, x, y) == cell_at(g, x, y) by {
        assert(cell_at(h, x, y) == compact_cell(g, x, y));
        if 1 <= x <= 10 && 0 <= y <= 18 {
            assert(kept_rows(g, 0)[y] == row(g, y));
        }
    }
    lemma_grid_ext(h, g);
}

proof fn lemma_kept_one_full(g: Seq<Cell>, r: int, lo: int)
    requires
        0 <= lo <= 19,
        0 <= r < 19,
        row_full(g, r),
        forall|y: int| 0 <= y < 19 && y != r ==> !row_full(g, y),
    ensures
        lo > r ==> kept_rows(g, lo).len() == 19 - lo,
        lo <= r ==> kept_rows(g, lo).len() == 18 - lo,
        forall|k: int|
            0 <= k < kept_rows(g, lo).len() ==> #[trigger] kept_rows(g, lo)[k] == if lo + k < r {
                row(g, lo + k)
            } else if lo > r {
                row(g, lo + k)
            } else {
                row(g, lo + k + 1)
            },
    decreases 19 - lo,
{
    if lo < 19 {
        lemma_kept_one_full(g, r, lo + 1);
        let ks = kept_rows(g, lo);
        if lo != r {
            assert forall|k: int| 0 <= k < ks.len() implies #[trigger] ks[k] == if lo + k < r {
                row(g, lo + k)
            } else if lo > r {
                row(g, lo + k)
            } else {
                row(g, lo + k + 1)
            } by {
                if k > 0 {
                    assert(ks[k] == kept_rows(g, lo + 1)[k - 1]);
                }
            }
        }
    }
}

/// Compaction of a grid whose one full row is `r`: the rows above `r` move down by
/// one, the top row becomes empty, the rows below `r` and the walls stay.
pub proof fn lemma_compaction_one_full_row(h: Seq<Cell>, g: Seq<Cell>, r: int)
    requires
        walled(g),
        0 <= r < 19,
        row_full(g, r),
        forall|y: int| 0 <= y < 19 && y != r ==> !row_full(g, y),
        is_compaction(h, g),
    ensures
        forall|x: int, y: int|
            1 <= x <= 10 && r < y < 20 ==> #[trigger] cell_at(h, x, y) == cell_at(g, x, y),
        forall|x: int, y: int|
            1 <= x <= 10 && 1 <= y <= r ==> #[trigger] cell_at(h, x, y) == cell_at(g, x, y - 1),
        forall|x: int| 1 <= x <= 10 ==> #[trigger] cell_at(h, x, 0) == Cell::Empty,
        forall|y: int|
            0 <= y < 20 ==> #[trigger] cell_at(h, 0, y) == cell_at(g, 0, y) && cell_at(h, 11, y)
                == cell_at(g, 11, y),
{
    lemma_kept_one_full(g, r, 0);
    let ks = kept_rows(g, 0);
    assert forall|x: int, y: int| 1 <= x <= 10 && r < y < 20 implies #[trigger] cell_at(h, x, y)
        == cell_at(g, x, y) by {
        assert(cell_at(h, x, y) == compact_cell(g, x, y));
        if y < 19 {
            assert(ks[y - 1] == row(g, y));
        }
    }
    assert forall|x: int, y: int| 1 <= x <= 10 && 1 <= y <= r implies #[trigger] cell_at(h, x, y)
        == cell_at(g, x, y - 1) by {
        assert(cell_at(h, x, y) == compact_cell(g, x, y));
        assert(ks[y - 1] == row(g, y - 1));
    }
    assert forall|x: int| 1 <= x <= 10 implies #[trigger] cell_at(h, x, 0) == Cell::Empty by {
        assert(cell_at(h, x, 0) == compact_cell(g, x, 0));
    }
    assert forall|y: int| 0 <= y < 20 implies #[trigger] cell_at(h, 0, y) == cell_at(g, 0, y)
        && cell_at(h, 11, y) == cell_at(g, 11, y) by {
        assert(cell_at(h, 0, y) == compact_cell(g, 0, y));
        assert(cell_at(h, 11, y) == compact_cell(g, 11, y));
    }
}

/// Every spawn orientation occupies the reference cell itself.
proof fn lemma_spawn_covers_reference(s: Shape)
    ensures
        exists|i: int| 0 <= i < 4 && #[trigger] spec_points(s, 0)[i] == (0i32, 0i32),
{
    let p = spec_points(s, 0);
    if p[0] == (0i32, 0i32) {
        assert(p[0] == (0i32, 0i32));
    } else if p[1] == (0i32, 0i32) {
        assert(p[1] == (0i32, 0i32));
    } else {
        assert(p[2] == (0i32, 0i32));
    }
}

/// Where the top center cell is taken, a spawn ends the game and leaves the fixed
/// grid as it was.
pub proof fn lemma_blocked_spawn_ends_game(
    g0: Seq<Cell>,
    t: crate::tetrimino::Tetrimino,
    g1: Seq<Cell>,
    a1: Option<Moving>,
    over1: bool,
)
    requires
        t.is_catalog(),
        cell_at(g0, 6, 0) != Cell::Empty,
        spawn_result(g0, t, g1, a1, over1),
    ensures
        over1,
        a1 is None,
        g1 == g0,
{
    lemma_spawn_covers_reference(t.shape);
    let m = spawn_piece(t);
    let i = choose|i: int| 0 <= i < 4 && #[trigger] spec_points(t.shape, 0)[i] == (0i32, 0i32);
    assert(m.offsets()[i] == (0i32, 0i32));
}

/// On the field of a new board every catalog piece may spawn.
pub proof fn lemma_spawn_on_new_field(g: Seq<Cell>, t: crate::tetrimino::Tetrimino)
    requires
        t.is_catalog(),
        forall|x: int, y: int| in_grid(x, y) ==> #[trigger] cell_at(g, x, y) == initial_cell(x, y),
    ensures
        legal(g, spawn_piece(t)),
{
    let m = spawn_piece(t);
    lemma_catalog_bounds(t.shape, 0);
    assert forall|i: int| 0 <= i < 4 implies cell_free(
        g,
        m.x + (#[trigger] m.offsets()[i]).0,
        m.y + m.offsets()[i].1,
    ) by {
        let cx = m.x + m.offsets()[i].0;
        let cy = m.y + m.offsets()[i].1;
        if 0 <= cy < 20 {
            assert(cell_at(g, cx, cy) == initial_cell(cx, cy));
        }
    }
}
} // verus!
