//! The tile catalogue: tile kinds, per-tile edge descriptors, the builder
//! that declares which sides of a tile carry a connecting path, and the
//! compatibility predicate that decides whether two tiles may sit next to
//! each other across a shared edge.

use vstd::prelude::*;

verus! {

/// The identifier of a tile shape: which corners, tees, straights and ends
/// the catalogue offers, plus the blank tile.
#[derive(Clone, Copy, PartialEq, Eq, Structural, Debug)]
pub enum TileKind {
    Cross,
    CurveBlc,
    CurveBrc,
    CurveTlc,
    CurveTrc,
    EndT,
    EndR,
    EndL,
    EndB,
    LeftToRight,
    TopToBottom,
    StraightBlc,
    StraightBrc,
    StraightTlc,
    StraightTrc,
    TeeB,
    TeeL,
    TeeR,
    TeeT,
    Empty,
}

/// One of the four sides of a cell, used both to find the neighbouring
/// position and to pick the edge of a descriptor that faces that neighbour.
#[derive(Clone, Copy, PartialEq, Eq, Structural, Debug)]
pub enum Direction {
    Top,
    Right,
    Bottom,
    Left,
}

impl Direction {
    /// The structurally opposite side: the edge of a neighbour that touches
    /// this side of a tile.
    pub open spec fn spec_opposite(self) -> Direction {
        match self {
            Direction::Top => Direction::Bottom,
            Direction::Right => Direction::Left,
            Direction::Bottom => Direction::Top,
            Direction::Left => Direction::Right,
        }
    }

    #[verifier::when_used_as_spec(spec_opposite)]
    pub fn opposite(self) -> (d: Direction)
        ensures
            d == self.spec_opposite(),
    {
        match self {
            Direction::Top => Direction::Bottom,
            Direction::Right => Direction::Left,
            Direction::Bottom => Direction::Top,
            Direction::Left => Direction::Right,
        }
    }
}

/// A tile descriptor: a tile kind together with its four edge flags. A flag
/// is true when the tile exposes a connecting path on that side.
#[derive(Clone, Copy, PartialEq, Eq, Structural, Debug)]
pub struct TileDescriptor {
    pub kind: TileKind,
    pub top: bool,
    pub right: bool,
    pub bottom: bool,
    pub left: bool,
}

/// The designated blank tile: no connecting path on any side. It is the
/// fallback committed to a cell whose domain has been exhausted.
pub open spec fn spec_empty_tile() -> TileDescriptor {
    TileDescriptor { kind: TileKind::Empty, top: false, right: false, bottom: false, left: false }
}

impl TileDescriptor {
    /// The edge flag of this tile on the given side.
    pub open spec fn spec_edge(self, d: Direction) -> bool {
        match d {
            Direction::Top => self.top,
            Direction::Right => self.right,
            Direction::Bottom => self.bottom,
            Direction::Left => self.left,
        }
    }

    #[verifier::when_used_as_spec(spec_edge)]
    pub fn edge(self, d: Direction) -> (b: bool)
        ensures
            b == self.spec_edge(d),
    {
        match d {
            Direction::Top => self.top,
            Direction::Right => self.right,
            Direction::Bottom => self.bottom,
            Direction::Left => self.left,
        }
    }

    /// The blank tile, built like any other catalogue entry: no side declared.
    pub fn empty() -> (t: TileDescriptor)
        ensures
            t == spec_empty_tile(),
    {
        TileBuilder::new().build(TileKind::Empty)
    }
}

/// Declarative construction of a descriptor: each call declares one side of
/// the tile as carrying a connecting path, and `build` fixes the kind.
pub struct TileBuilder {
    pub top: bool,
    pub right: bool,
    pub bottom: bool,
    pub left: bool,
}

impl TileBuilder {
    pub fn new() -> (b: TileBuilder)
        ensures
            b == (TileBuilder { top: false, right: false, bottom: false, left: false }),
    {
        TileBuilder { top: false, right: false, bottom: false, left: false }
    }

    pub fn top(self) -> (b: TileBuilder)
        ensures
            b == (TileBuilder { top: true, ..self }),
    {
        TileBuilder { top: true, ..self }
    }

    pub fn right(self) -> (b: TileBuilder)
        ensures
            b == (TileBuilder { right: true, ..self }),
    {
        TileBuilder { right: true, ..self }
    }

    pub fn bottom(self) -> (b: TileBuilder)
        ensures
            b == (TileBuilder { bottom: true, ..self }),
    {
        TileBuilder { bottom: true, ..self }
    }

    pub fn left(self) -> (b: TileBuilder)
        ensures
            b == (TileBuilder { left: true, ..self }),
    {
        TileBuilder { left: true, ..self }
    }

    pub fn build(self, kind: TileKind) -> (t: TileDescriptor)
        ensures
            t == (TileDescriptor {
                kind,
                top: self.top,
                right: self.right,
                bottom: self.bottom,
                left: self.left,
            }),
    {
        TileDescriptor {
            kind,
            top: self.top,
            right: self.right,
            bottom: self.bottom,
            left: self.left,
        }
    }
}

/// Kinds that may legally sit above a tile whose top side carries a path:
/// every kind with a bottom-connecting path, plus the blank tile.
pub open spec fn spec_top_connections() -> Seq<TileKind> {
    seq![
        TileKind::Cross,
        TileKind::CurveTlc,
        TileKind::CurveTrc,
        TileKind::EndT,
        TileKind::StraightTlc,
        TileKind::StraightTrc,
        TileKind::TopToBottom,
        TileKind::TeeL,
        TileKind::TeeR,
        TileKind::TeeT,
        TileKind::Empty,
    ]
}

/// Kinds that may legally sit to the right of a tile whose right side
/// carries a path: every kind with a left-connecting path, plus the blank.
pub open spec fn spec_right_connections() -> Seq<TileKind> {
    seq![
        TileKind::Cross,
        TileKind::CurveBrc,
        TileKind::CurveTrc,
        TileKind::EndL,
        TileKind::LeftToRight,
        TileKind::StraightBrc,
        TileKind::StraightTrc,
        TileKind::TeeB,
        TileKind::TeeL,
        TileKind::TeeT,
        TileKind::Empty,
    ]
}

/// Kinds that may legally sit below a tile whose bottom side carries a path:
/// every kind with a top-connecting path, plus the blank tile.
pub open spec fn spec_bottom_connections() -> Seq<TileKind> {
    seq![
        TileKind::Cross,
        TileKind::CurveBlc,
        TileKind::CurveBrc,
        TileKind::EndB,
        TileKind::StraightBlc,
        TileKind::StraightBrc,
        TileKind::TopToBottom,
        TileKind::TeeB,
        TileKind::TeeL,
        TileKind::TeeR,
        TileKind::Empty,
    ]
}

/// Kinds that may legally sit to the left of a tile whose left side carries
/// a path: every kind with a right-connecting path, plus the blank tile.
pub open spec fn spec_left_connections() -> Seq<TileKind> {
    seq![
        TileKind::Cross,
        TileKind::CurveBlc,
        TileKind::CurveTlc,
        TileKind::EndR,
        TileKind::LeftToRight,
        TileKind::StraightBlc,
        TileKind::StraightTlc,
        TileKind::TeeB,
        TileKind::TeeR,
        TileKind::TeeT,
        TileKind::Empty,
    ]
}

/// The connection list that belongs to the given side of a committed tile.
pub open spec fn spec_connections(d: Direction) -> Seq<TileKind> {
    match d {
        Direction::Top => spec_top_connections(),
        Direction::Right => spec_right_connections(),
        Direction::Bottom => spec_bottom_connections(),
        Direction::Left => spec_left_connections(),
    }
}

/// The rule deciding whether a candidate tile may sit next to a committed
/// tile. The connection-list rule consults, per open side, the list of kinds
/// that can connect to that side, and lets blank sides face blank sides; the
/// edge-flag rule simply compares the two facing edge flags.
#[derive(Clone, Copy, PartialEq, Eq, Structural, Debug)]
pub enum CompatRule {
    EdgeLists,
    EdgeFlags,
}

/// Whether `candidate` may sit on side `d` of `committed` under `rule`.
pub open spec fn spec_compat(
    rule: CompatRule,
    committed: TileDescriptor,
    candidate: TileDescriptor,
    d: Direction,
) -> bool {
    match rule {
        CompatRule::EdgeLists => if committed.spec_edge(d) {
            spec_connections(d).contains(candidate.kind)
        } else {
            !candidate.spec_edge(d.spec_opposite())
        },
        CompatRule::EdgeFlags => committed.spec_edge(d) == candidate.spec_edge(d.spec_opposite()),
    }
}

/// The compatibility test as a predicate on the candidate alone, with the
/// rule, the committed tile and the direction fixed. Domain pruning retains
/// exactly the candidates satisfying this predicate.
pub open spec fn compat_pred(
    rule: CompatRule,
    committed: TileDescriptor,
    d: Direction,
) -> spec_fn(TileDescriptor) -> bool {
    |candidate: TileDescriptor| spec_compat(rule, committed, candidate, d)
}

/// Whether a vector of kinds holds the given kind.
pub fn kinds_contain(v: &Vec<TileKind>, k: TileKind) -> (r: bool)
    ensures
        r == v@.contains(k),
{
    let mut i: usize = 0;
    while i < v.len()
        invariant
            i <= v@.len(),
            forall|j: int| 0 <= j < i ==> v@[j] != k,
        decreases v@.len() - i,
    {
        if v[i] == k {
            return true;
        }
        i += 1;
    }
    false
}

/// The connection list of one side, as a vector.
pub fn connections(d: Direction) -> (v: Vec<TileKind>)
    ensures
        v@ == spec_connections(d),
{
    let mut v: Vec<TileKind> = Vec::new();
    match d {
        Direction::Top => {
            v.push(TileKind::Cross);
            v.push(TileKind::CurveTlc);
            v.push(TileKind::CurveTrc);
            v.push(TileKind::EndT);
            v.push(TileKind::StraightTlc);
            v.push(TileKind::StraightTrc);
            v.push(TileKind::TopToBottom);
            v.push(TileKind::TeeL);
            v.push(TileKind::TeeR);
            v.push(TileKind::TeeT);
            v.push(TileKind::Empty);
            proof {
                assert(v@ =~= spec_top_connections());
            }
        }
        Direction::Right => {
            v.push(TileKind::Cross);
            v.push(TileKind::CurveBrc);
            v.push(TileKind::CurveTrc);
            v.push(TileKind::EndL);
            v.push(TileKind::LeftToRight);
            v.push(TileKind::StraightBrc);
            v.push(TileKind::StraightTrc);
            v.push(TileKind::TeeB);
            v.push(TileKind::TeeL);
            v.push(TileKind::TeeT);
            v.push(TileKind::Empty);
            proof {
                assert(v@ =~= spec_right_connections());
            }
        }
        Direction::Bottom => {
            v.push(TileKind::Cross);
            v.push(TileKind::CurveBlc);
            v.push(TileKind::CurveBrc);
            v.push(TileKind::EndB);
            v.push(TileKind::StraightBlc);
            v.push(TileKind::StraightBrc);
            v.push(TileKind::TopToBottom);
            v.push(TileKind::TeeB);
            v.push(TileKind::TeeL);
            v.push(TileKind::TeeR);
            v.push(TileKind::Empty);
            proof {
                assert(v@ =~= spec_bottom_connections());
            }
        }
        Direction::Left => {
            v.push(TileKind::Cross);
            v.push(TileKind::CurveBlc);
            v.push(TileKind::CurveTlc);
            v.push(TileKind::EndR);
            v.push(TileKind::LeftToRight);
            v.push(TileKind::StraightBlc);
            v.push(TileKind::StraightTlc);
            v.push(TileKind::TeeB);
            v.push(TileKind::TeeR);
            v.push(TileKind::TeeT);
            v.push(TileKind::Empty);
            proof {
                assert(v@ =~= spec_left_connections());
            }
        }
    }
    v
}

/// The full default catalogue, in its fixed construction order.
pub open spec fn spec_catalogue() -> Seq<TileDescriptor> {
    seq![
        TileDescriptor { kind: TileKind::Cross, top: true, right: true, bottom: true, left: true },
        TileDescriptor {
            kind: TileKind::CurveBlc,
            top: true,
            right: true,
            bottom: false,
            left: false,
        },
        TileDescriptor {
            kind: TileKind::CurveBrc,
            top: true,
            right: false,
            bottom: false,
            left: true,
        },
        TileDescriptor {
            kind: TileKind::CurveTlc,
            top: false,
            right: true,
            bottom: true,
            left: false,
        },
        TileDescriptor {
            kind: TileKind::CurveTrc,
            top: false,
            right: false,
            bottom: true,
            left: true,
        },
        TileDescriptor { kind: TileKind::EndB, top: true, right: false, bottom: false, left: false },
        TileDescriptor { kind: TileKind::EndL, top: false, right: false, bottom: false, left: true },
        TileDescriptor { kind: TileKind::EndR, top: false, right: true, bottom: false, left: false },
        TileDescriptor { kind: TileKind::EndT, top: false, right: false, bottom: true, left: false },
        TileDescriptor {
            kind: TileKind::LeftToRight,
            top: false,
            right: true,
            bottom: false,
            left: true,
        },
        TileDescriptor {
            kind: TileKind::TopToBottom,
            top: true,
            right: false,
            bottom: true,
            left: false,
        },
        TileDescriptor {
            kind: TileKind::StraightBlc,
            top: true,
            right: true,
            bottom: false,
            left: false,
        },
        TileDescriptor {
            kind: TileKind::StraightBrc,
            top: true,
            right: false,
            bottom: false,
            left: true,
        },
        TileDescriptor {
            kind: TileKind::StraightTlc,
            top: false,
            right: true,
            bottom: true,
            left: false,
        },
        TileDescriptor {
            kind: TileKind::StraightTrc,
            top: false,
            right: false,
            bottom: true,
            left: true,
        },
        TileDescriptor { kind: TileKind::TeeB, top: true, right: true, bottom: false, left: true },
        TileDescriptor { kind: TileKind::TeeL, top: true, right: false, bottom: true, left: true },
        TileDescriptor { kind: TileKind::TeeR, top: true, right: true, bottom: true, left: false },
        TileDescriptor { kind: TileKind::TeeT, top: false, right: true, bottom: true, left: true },
    ]
}

/// Builds the default catalogue: one descriptor per non-blank kind, each
/// declared side by side through the builder.
pub fn catalogue() -> (v: Vec<TileDescriptor>)
    ensures
        v@ == spec_catalogue(),
{
    let mut v: Vec<TileDescriptor> = Vec::new();
    v.push(TileBuilder::new().top().right().bottom().left().build(TileKind::Cross));
    v.push(TileBuilder::new().top().right().build(TileKind::CurveBlc));
    v.push(TileBuilder::new().top().left().build(TileKind::CurveBrc));
    v.push(TileBuilder::new().right().bottom().build(TileKind::CurveTlc));
    v.push(TileBuilder::new().left().bottom().build(TileKind::CurveTrc));
    v.push(TileBuilder::new().top().build(TileKind::EndB));
    v.push(TileBuilder::new().left().build(TileKind::EndL));
    v.push(TileBuilder::new().right().build(TileKind::EndR));
    v.push(TileBuilder::new().bottom().build(TileKind::EndT));
    v.push(TileBuilder::new().right().left().build(TileKind::LeftToRight));
    v.push(TileBuilder::new().top().bottom().build(TileKind::TopToBottom));
    v.push(TileBuilder::new().top().right().build(TileKind::StraightBlc));
    v.push(TileBuilder::new().top().left().build(TileKind::StraightBrc));
    v.push(TileBuilder::new().right().bottom().build(TileKind::StraightTlc));
    v.push(TileBuilder::new().left().bottom().build(TileKind::StraightTrc));
    v.push(TileBuilder::new().top().right().left().build(TileKind::TeeB));
    v.push(TileBuilder::new().top().bottom().left().build(TileKind::TeeL));
    v.push(TileBuilder::new().top().right().bottom().build(TileKind::TeeR));
    v.push(TileBuilder::new().bottom().right().left().build(TileKind::TeeT));
    proof {
        assert(v@ =~= spec_catalogue());
    }
    v
}

/// Copies a vector of descriptors element by element.
pub fn copy_tiles(v: &Vec<TileDescriptor>) -> (r: Vec<TileDescriptor>)
    ensures
        r@ == v@,
{
    let mut r: Vec<TileDescriptor> = Vec::new();
    let mut i: usize = 0;
    while i < v.len()
        invariant
            i <= v@.len(),
            r@ == v@.subrange(0, i as int),
        decreases v@.len() - i,
    {
        r.push(v[i]);
        proof {
            assert(r@ =~= v@.subrange(0, i + 1 as int));
        }
        i += 1;
    }
    proof {
        assert(v@.subrange(0, v@.len() as int) =~= v@);
    }
    r
}

} // verus!
