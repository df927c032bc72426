use rand::rngs::StdRng;
use vstd::prelude::*;

verus! {

/// The seven kinds of falling piece.
#[derive(Clone, Copy, Debug, PartialEq, Eq, Structural)]
pub enum Shape {
    I,
    O,
    S,
    Z,
    J,
    L,
    T,
}

/// A cell offset `(dx, dy)`, or a cell coordinate `(x, y)`.
pub type Point = (i32, i32);

/// One rotation state of a shape: the render anchor and the four occupied offsets.
#[derive(Clone, Copy, Debug, PartialEq, Eq)]
pub struct Rotate {
    pub base: Point,
    pub points: [Point; 4],
}

/// A shape together with its four rotation states; `rotates[0]` is the spawn
/// orientation and `rotates[k]` to `rotates[k + 1]` turns counter-clockwise.
#[derive(Clone, Copy, Debug, PartialEq, Eq)]
pub struct Tetrimino {
    pub shape: Shape,
    pub rotates: [Rotate; 4],
}

/// Number of rotation states of every shape.
pub const NUM_ROTATES: i32 = 4;

/// Number of shapes in the catalog.
pub const NUM_SHAPES: usize = 7;

/// The shape at position `idx` of the catalog.
pub open spec fn shape_at_spec(idx: int) -> Shape {
    if idx == 0 {
        Shape::I
    } else if idx == 1 {
        Shape::O
    } else if idx == 2 {
        Shape::S
    } else if idx == 3 {
        Shape::Z
    } else if idx == 4 {
        Shape::J
    } else if idx == 5 {
        Shape::L
    } else {
        Shape::T
    }
}

/// The render anchor of rotation state `r` of shape `s`.
pub open spec fn spec_base(s: Shape, r: int) -> Point {
    match s {
        Shape::I => if r == 0 { (0i32, 0i32) } else if r == 1 { (1i32, 1i32) } else { (1i32, 0i32) },
        Shape::O => if r == 0 { (0i32, 0i32) } else if r == 1 { (0i32, 1i32) } else if r == 2 { (1i32, 1i32) } else { (1i32, 0i32) },
        Shape::S => if r == 1 { (-1i32, 0i32) } else if r == 2 { (0i32, 1i32) } else { (0i32, 0i32) },
        Shape::Z => if r == 2 { (0i32, 1i32) } else if r == 3 { (1i32, 0i32) } else { (0i32, 0i32) },
        _ => if r == 2 { (0i32, 1i32) } else { (0i32, 0i32) },
    }
}

/// The four occupied offsets of rotation state `r` of shape `s`.
pub open spec fn spec_points(s: Shape, r: int) -> Seq<Point> {
    match s {
        Shape::I => if r % 2 == 0 {
            seq![(-1i32, 0i32), (0i32, 0i32), (1i32, 0i32), (2i32, 0i32)]
        } else {
            seq![(1i32, -1i32), (1i32, 0i32), (1i32, 1i32), (1i32, 2i32)]
        },
        Shape::O => seq![(0i32, 0i32), (1i32, 0i32), (0i32, 1i32), (1i32, 1i32)],
        Shape::S => if r % 2 == 0 {
            seq![(-1i32, 1i32), (0i32, 1i32), (0i32, 0i32), (1i32, 0i32)]
        } else {
            seq![(0i32, 1i32), (0i32, 0i32), (-1i32, 0i32), (-1i32, -1i32)]
        },
        Shape::Z => if r % 2 == 0 {
            seq![(-1i32, 0i32), (0i32, 0i32), (0i32, 1i32), (1i32, 1i32)]
        } else {
            seq![(0i32, 1i32), (0i32, 0i32), (1i32, 0i32), (1i32, -1i32)]
        },
        Shape::J => if r == 0 {
            seq![(-1i32, 0i32), (0i32, 0i32), (1i32, 0i32), (1i32, 1i32)]
        } else if r == 1 {
            seq![(0i32, 1i32), (0i32, 0i32), (0i32, -1i32), (1i32, -1i32)]
        } else if r == 2 {
            seq![(-1i32, 0i32), (-1i32, 1i32), (0i32, 1i32), (1i32, 1i32)]
        } else {
            seq![(-1i32, 1i32), (0i32, 1i32), (0i32, 0i32), (0i32, -1i32)]
        },
        Shape::L => if r == 0 {
            seq![(-1i32, 1i32), (-1i32, 0i32), (0i32, 0i32), (1i32, 0i32)]
        } else if r == 1 {
            seq![(1i32, 1i32), (0i32, 1i32), (0i32, 0i32), (0i32, -1i32)]
        } else if r == 2 {
            seq![(-1i32, 1i32), (0i32, 1i32), (1i32, 1i32), (1i32, 0i32)]
        } else {
            seq![(0i32, 1i32), (0i32, 0i32), (0i32, -1i32), (-1i32, -1i32)]
        },
        Shape::T => if r == 0 {
            seq![(-1i32, 0i32), (0i32, 0i32), (1i32, 0i32), (0i32, 1i32)]
        } else if r == 1 {
            seq![(0i32, 1i32), (0i32, 0i32), (0i32, -1i32), (1i32, 0i32)]
        } else if r == 2 {
            seq![(-1i32, 1i32), (0i32, 1i32), (1i32, 1i32), (0i32, 0i32)]
        } else {
            seq![(0i32, 1i32), (0i32, 0i32), (0i32, -1i32), (-1i32, 0i32)]
        },
    }
}

/// Every offset of the catalog lies in `[-1, 2]` on both axes, and every rotation
/// state holds a cell on the reference row.
pub proof fn lemma_catalog_bounds(s: Shape, r: int)
    requires
        0 <= r < 4,
    ensures
        spec_points(s, r).len() == 4,
        forall|i: int|
            0 <= i < 4 ==> -1 <= #[trigger] spec_points(s, r)[i].0 <= 2 && -1
                <= spec_points(s, r)[i].1 <= 2,
        exists|i: int| 0 <= i < 4 && #[trigger] spec_points(s, r)[i].1 == 0,
{
    let p = spec_points(s, r);
    if p[0].1 == 0 {
        assert(p[0].1 == 0);
    } else if p[1].1 == 0 {
        assert(p[1].1 == 0);
    } else if p[2].1 == 0 {
        assert(p[2].1 == 0);
    } else {
        assert(p[3].1 == 0);
    }
}

impl Tetrimino {
    /// The value holds the catalog's data for its shape.
    pub open spec fn is_catalog(self) -> bool {
        forall|r: int|
            0 <= r < 4 ==> (#[trigger] self.rotates@[r]).base == spec_base(self.shape, r)
                && self.rotates@[r].points@ == spec_points(self.shape, r)
    }

    /// The catalog entry of `shape`.
    pub fn of(shape: Shape) -> (t: Tetrimino)
        ensures
            t.shape == shape,
            t.is_catalog(),
    {
        let t = match shape {
            Shape::I => Tetrimino {
                shape: Shape::I,
                rotates: [
                    Rotate { base: (0, 0), points: [(-1, 0), (0, 0), (1, 0), (2, 0)] },
                    Rotate { base: (1, 1), points: [(1, -1), (1, 0), (1, 1), (1, 2)] },
                    Rotate { base: (1, 0), points: [(-1, 0), (0, 0), (1, 0), (2, 0)] },
                    Rotate { base: (1, 0), points: [(1, -1), (1, 0), (1, 1), (1, 2)] },
                ],
            },
            Shape::O => Tetrimino {
                shape: Shape::O,
                rotates: [
                    Rotate { base: (0, 0), points: [(0, 0), (1, 0), (0, 1), (1, 1)] },
                    Rotate { base: (0, 1), points: [(0, 0), (1, 0), (0, 1), (1, 1)] },
                    Rotate { base: (1, 1), points: [(0, 0), (1, 0), (0, 1), (1, 1)] },
                    Rotate { base: (1, 0), points: [(0, 0), (1, 0), (0, 1), (1, 1)] },
                ],
            },
            Shape::S => Tetrimino {
                shape: Shape::S,
                rotates: [
                    Rotate { base: (0, 0), points: [(-1, 1), (0, 1), (0, 0), (1, 0)] },
                    Rotate { base: (-1, 0), points: [(0, 1), (0, 0), (-1, 0), (-1, -1)] },
                    Rotate { base: (0, 1), points: [(-1, 1), (0, 1), (0, 0), (1, 0)] },
                    Rotate { base: (0, 0), points: [(0, 1), (0, 0), (-1, 0), (-1, -1)] },
                ],
            },
            Shape::Z => Tetrimino {
                shape: Shape::Z,
                rotates: [
                    Rotate { base: (0, 0), points: [(-1, 0), (0, 0), (0, 1), (1, 1)] },
                    Rotate { base: (0, 0), points: [(0, 1), (0, 0), (1, 0), (1, -1)] },
                    Rotate { base: (0, 1), points: [(-1, 0), (0, 0), (0, 1), (1, 1)] },
                    Rotate { base: (1, 0), points: [(0, 1), (0, 0), (1, 0), (1, -1)] },
                ],
            },
            Shape::J => Tetrimino {
                shape: Shape::J,
                rotates: [
                    Rotate { base: (0, 0), points: [(-1, 0), (0, 0), (1, 0), (1, 1)] },
                    Rotate { base: (0, 0), points: [(0, 1), (0, 0), (0, -1), (1, -1)] },
                    Rotate { base: (0, 1), points: [(-1, 0), (-1, 1), (0, 1), (1, 1)] },
                    Rotate { base: (0, 0), points: [(-1, 1), (0, 1), (0, 0), (0, -1)] },
                ],
            },
            Shape::L => Tetrimino {
                shape: Shape::L,
                rotates: [
                    Rotate { base: (0, 0), points: [(-1, 1), (-1, 0), (0, 0), (1, 0)] },
                    Rotate { base: (0, 0), points: [(1, 1), (0, 1), (0, 0), (0, -1)] },
                    Rotate { base: (0, 1), points: [(-1, 1), (0, 1), (1, 1), (1, 0)] },
                    Rotate { base: (0, 0), points: [(0, 1), (0, 0), (0, -1), (-1, -1)] },
                ],
            },
            Shape::T => Tetrimino {
                shape: Shape::T,
                rotates: [
                    Rotate { base: (0, 0), points: [(-1, 0), (0, 0), (1, 0), (0, 1)] },
                    Rotate { base: (0, 0), points: [(0, 1), (0, 0), (0, -1), (1, 0)] },
                    Rotate { base: (0, 1), points: [(-1, 1), (0, 1), (1, 1), (0, 0)] },
                    Rotate { base: (0, 0), points: [(0, 1), (0, 0), (0, -1), (-1, 0)] },
                ],
            },
        };
        assert forall|r: int| 0 <= r < 4 implies (#[trigger] t.rotates@[r]).base == spec_base(
            t.shape,
            r,
        ) && t.rotates@[r].points@ == spec_points(t.shape, r) by {
            assert(t.rotates@[r].points@ =~= spec_points(t.shape, r));
        }
        t
    }

    /// A catalog entry picked uniformly at random.
    pub fn rand(rng: &mut StdRng) -> (t: Tetrimino)
        ensures
            t.is_catalog(),
    {
        let idx = random_below(rng, NUM_SHAPES);
        Tetrimino::of(shape_at(idx))
    }
}

/// The shape at position `idx` of the catalog, in the order I, O, S, Z, J, L, T.
pub fn shape_at(idx: usize) -> (s: Shape)
    requires
        idx < NUM_SHAPES,
    ensures
        s == shape_at_spec(idx as int),
{
    if idx == 0 {
        Shape::I
    } else if idx == 1 {
        Shape::O
    } else if idx == 2 {
        Shape::S
    } else if idx == 3 {
        Shape::Z
    } else if idx == 4 {
        Shape::J
    } else if idx == 5 {
        Shape::L
    } else {
        Shape::T
    }
}

#[verifier::external_type_specification]
#[verifier::external_body]
pub struct ExStdRng(rand::rngs::StdRng);

/// Relies on `rand::Rng::gen_range` over `0..n`: it returns a value of that range
/// and panics on an empty one.
#[verifier::external_body]
fn random_below(rng: &mut StdRng, n: usize) -> (r: usize)
    requires
        n > 0,
    ensures
        r < n,
{
    rand::Rng::gen_range(rng, 0..n)
}

} // verus!
