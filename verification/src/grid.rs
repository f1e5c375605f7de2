//! The generator: the possibility grid (one domain of still-possible tiles
//! per cell), the parallel collapsed grid (the committed tile per cell, once
//! settled), and the collapse engine that commits cells, propagates each
//! commitment to the four neighbouring domains, and walks on to the
//! uncollapsed cell with the fewest remaining possibilities.

use vstd::arithmetic::div_mod::{
    lemma_div_pos_is_pos, lemma_fundamental_div_mod, lemma_fundamental_div_mod_converse,
    lemma_mod_bound, lemma_multiply_divide_lt,
};
use vstd::prelude::*;

use crate::rng::{spec_draw, spec_lcg_next, RandomSource};
use crate::tile::{
    compat_pred, connections, copy_tiles, kinds_contain, spec_compat, spec_connections,
    spec_empty_tile, CompatRule, Direction, TileDescriptor, TileKind,
};

verus! {

/// A position in the grid: 0-based row and column.
#[derive(Clone, Copy, PartialEq, Eq, Structural, Debug)]
pub struct Pos {
    pub row: usize,
    pub col: usize,
}

/// The error of asking for a cell outside the grid bounds.
#[derive(Clone, Copy, PartialEq, Eq, Structural, Debug)]
pub enum GridError {
    OutOfRange,
}

/// The mathematical model of a generator. The two grids are flattened in
/// row-major order: the cell at `(r, c)` lives at index `r * cols + c`.
#[verifier::ext_equal]
pub ghost struct Model {
    pub rows: nat,
    pub cols: nat,
    pub rule: CompatRule,
    pub catalogue: Seq<TileDescriptor>,
    pub domains: Seq<Seq<TileDescriptor>>,
    pub collapsed: Seq<Option<TileDescriptor>>,
    pub degenerate: bool,
}

impl Model {
    /// Both grids hold exactly one entry per cell.
    pub open spec fn wf(self) -> bool {
        &&& self.domains.len() == self.rows * self.cols
        &&& self.collapsed.len() == self.rows * self.cols
    }

    pub open spec fn in_bounds(self, p: Pos) -> bool {
        p.row < self.rows && p.col < self.cols
    }

    /// The row-major index of a position.
    pub open spec fn index(self, p: Pos) -> int {
        p.row * self.cols + p.col
    }

    /// The domain of still-possible tiles at a position.
    pub open spec fn domain(self, p: Pos) -> Seq<TileDescriptor> {
        self.domains[self.index(p)]
    }

    /// The collapsed entry at a position: `None` until the cell settles.
    pub open spec fn entry(self, p: Pos) -> Option<TileDescriptor> {
        self.collapsed[self.index(p)]
    }

    /// The grid is done when every cell has settled.
    pub open spec fn done(self) -> bool {
        forall|k: int| 0 <= k < self.collapsed.len() ==> self.collapsed[k] is Some
    }
}

/// A row-major index computed from an in-bounds position stays within both
/// grids.
pub proof fn lemma_index_bounds(m: Model, p: Pos)
    requires
        m.wf(),
        m.in_bounds(p),
    ensures
        0 <= m.index(p) < m.domains.len(),
        0 <= m.index(p) < m.collapsed.len(),
{
    assert(p.row * m.cols + p.col < m.rows * m.cols) by (nonlinear_arith)
        requires
            p.row < m.rows,
            p.col < m.cols,
    ;
}

/// Two in-bounds positions with the same row-major index are the same
/// position.
pub proof fn lemma_index_injective(m: Model, p: Pos, q: Pos)
    requires
        m.in_bounds(p),
        m.in_bounds(q),
        m.index(p) == m.index(q),
    ensures
        p == q,
{
    assert(p.row == q.row && p.col == q.col) by (nonlinear_arith)
        requires
            p.col < m.cols,
            q.col < m.cols,
            p.row * m.cols + p.col == q.row * m.cols + q.col,
    ;
}

/// The generator object: owns the possibility grid and the collapsed grid
/// for one generation run, together with the catalogue the domains started
/// from, the active compatibility rule, and the connection lists computed
/// once at construction so propagation stays cheap.
pub struct Generator {
    pub rows: usize,
    pub cols: usize,
    pub rule: CompatRule,
    pub catalogue: Vec<TileDescriptor>,
    pub domains: Vec<Vec<TileDescriptor>>,
    pub collapsed: Vec<Option<TileDescriptor>>,
    pub degenerate: bool,
    pub top_connections: Vec<TileKind>,
    pub right_connections: Vec<TileKind>,
    pub bottom_connections: Vec<TileKind>,
    pub left_connections: Vec<TileKind>,
}

impl View for Generator {
    type V = Model;

    open spec fn view(&self) -> Model {
        Model {
            rows: self.rows as nat,
            cols: self.cols as nat,
            rule: self.rule,
            catalogue: self.catalogue@,
            domains: self.domains@.map_values(|d: Vec<TileDescriptor>| d@),
            collapsed: self.collapsed@,
            degenerate: self.degenerate,
        }
    }
}

impl Generator {
    /// Well-formed: the model is well-formed, the cell count fits the
    /// machine, and the four connection lists are the fixed ones.
    pub open spec fn wf(self) -> bool {
        &&& self@.wf()
        &&& self.rows * self.cols <= usize::MAX
        &&& self.top_connections@ == spec_connections(Direction::Top)
        &&& self.right_connections@ == spec_connections(Direction::Right)
        &&& self.bottom_connections@ == spec_connections(Direction::Bottom)
        &&& self.left_connections@ == spec_connections(Direction::Left)
    }

    /// A fresh generator: every domain is the full catalogue, no cell is
    /// collapsed, and the degenerate flag is clear.
    pub fn new(rows: usize, cols: usize, catalogue: Vec<TileDescriptor>, rule: CompatRule) -> (g:
        Generator)
        requires
            rows * cols <= usize::MAX,
        ensures
            g.wf(),
            g@.rows == rows,
            g@.cols == cols,
            g@.rule == rule,
            g@.catalogue == catalogue@,
            !g@.degenerate,
            forall|k: int| 0 <= k < g@.domains.len() ==> g@.domains[k] == catalogue@,
            forall|k: int| 0 <= k < g@.collapsed.len() ==> g@.collapsed[k] is None,
    {
        let total = rows * cols;
        let mut domains: Vec<Vec<TileDescriptor>> = Vec::new();
        let mut collapsed: Vec<Option<TileDescriptor>> = Vec::new();
        let mut i: usize = 0;
        while i < total
            invariant
                i <= total,
                domains@.len() == i,
                collapsed@.len() == i,
                forall|k: int| 0 <= k < i ==> domains@[k]@ == catalogue@,
                forall|k: int| 0 <= k < i ==> collapsed@[k] is None,
            decreases total - i,
        {
            domains.push(copy_tiles(&catalogue));
            collapsed.push(None);
            i += 1;
        }
        let g = Generator {
            rows,
            cols,
            rule,
            catalogue,
            domains,
            collapsed,
            degenerate: false,
            top_connections: connections(Direction::Top),
            right_connections: connections(Direction::Right),
            bottom_connections: connections(Direction::Bottom),
            left_connections: connections(Direction::Left),
        };
        g
    }

    /// The row-major index of an in-bounds position.
    fn flat_index(&self, at: Pos) -> (k: usize)
        requires
            self.wf(),
            self@.in_bounds(at),
        ensures
            k == self@.index(at),
            k < self@.domains.len(),
            k < self@.collapsed.len(),
    {
        proof {
            lemma_index_bounds(self@, at);
        }
        at.row * self.cols + at.col
    }

    /// The domain of still-possible tiles at `at`, or an out-of-range error
    /// when `at` exceeds the grid bounds.
    pub fn cell_at(&self, at: Pos) -> (r: Result<&Vec<TileDescriptor>, GridError>)
        requires
            self.wf(),
        ensures
            match r {
                Ok(d) => self@.in_bounds(at) && d@ == self@.domain(at),
                Err(e) => !self@.in_bounds(at) && e == GridError::OutOfRange,
            },
    {
        if at.row < self.rows && at.col < self.cols {
            let k = self.flat_index(at);
            Ok(&self.domains[k])
        } else {
            Err(GridError::OutOfRange)
        }
    }

    /// The collapsed entry at `at`, or an out-of-range error when `at`
    /// exceeds the grid bounds.
    pub fn collapsed_cell_at(&self, at: Pos) -> (r: Result<Option<TileDescriptor>, GridError>)
        requires
            self.wf(),
        ensures
            match r {
                Ok(t) => self@.in_bounds(at) && t == self@.entry(at),
                Err(e) => !self@.in_bounds(at) && e == GridError::OutOfRange,
            },
    {
        if at.row < self.rows && at.col < self.cols {
            let k = self.flat_index(at);
            Ok(self.collapsed[k])
        } else {
            Err(GridError::OutOfRange)
        }
    }

    /// True when every cell has settled; vacuously true of an empty grid.
    pub fn is_done(&self) -> (r: bool)
        ensures
            r == self@.done(),
    {
        let mut k: usize = 0;
        while k < self.collapsed.len()
            invariant
                k <= self.collapsed@.len(),
                forall|j: int| 0 <= j < k ==> self.collapsed@[j] is Some,
            decreases self.collapsed@.len() - k,
        {
            if self.collapsed[k].is_none() {
                return false;
            }
            k += 1;
        }
        true
    }

    /// Whether the run had to fall back to the blank tile because some
    /// cell's domain was exhausted.
    pub fn is_degenerate(&self) -> (r: bool)
        ensures
            r == self@.degenerate,
    {
        self.degenerate
    }

    /// Resets every domain to the full catalogue; the collapsed grid is left
    /// as it is.
    pub fn reset_all(&mut self)
        requires
            old(self).wf(),
        ensures
            final(self).wf(),
            final(self)@.rows == old(self)@.rows,
            final(self)@.cols == old(self)@.cols,
            final(self)@.rule == old(self)@.rule,
            final(self)@.catalogue == old(self)@.catalogue,
            final(self)@.collapsed == old(self)@.collapsed,
            final(self)@.degenerate == old(self)@.degenerate,
            final(self)@.domains.len() == old(self)@.domains.len(),
            forall|k: int|
                0 <= k < final(self)@.domains.len() ==> final(self)@.domains[k] == old(
                    self,
                )@.catalogue,
    {
        let total = self.domains.len();
        let mut k: usize = 0;
        while k < total
            invariant
                k <= total,
                self.wf(),
                total == self.domains@.len(),
                self.rows == old(self).rows,
                self.cols == old(self).cols,
                self.rule == old(self).rule,
                self.catalogue@ == old(self).catalogue@,
                self.collapsed@ == old(self).collapsed@,
                self.degenerate == old(self).degenerate,
                forall|j: int| 0 <= j < k ==> self.domains@[j]@ == old(self).catalogue@,
                forall|j: int|
                    k <= j < total ==> self.domains@[j]@ == old(self)@.domains[j],
            decreases total - k,
        {
            let fresh = copy_tiles(&self.catalogue);
            self.domains[k] = fresh;
            k += 1;
        }
    }
}

/// The position one step from `p` in direction `d`, or `None` when `p`
/// sits on the grid edge in that direction.
pub open spec fn spec_neighbor(m: Model, p: Pos, d: Direction) -> Option<Pos> {
    match d {
        Direction::Top => if p.row == 0 {
            None
        } else {
            Some(Pos { row: (p.row - 1) as usize, col: p.col })
        },
        Direction::Right => if p.col + 1 >= m.cols {
            None
        } else {
            Some(Pos { row: p.row, col: (p.col + 1) as usize })
        },
        Direction::Bottom => if p.row + 1 >= m.rows {
            None
        } else {
            Some(Pos { row: (p.row + 1) as usize, col: p.col })
        },
        Direction::Left => if p.col == 0 {
            None
        } else {
            Some(Pos { row: p.row, col: (p.col - 1) as usize })
        },
    }
}

/// One committed cell written into the model: the tile at index `i` of the
/// cell's domain when the domain still offers a choice, else the blank
/// fallback with the degenerate flag raised. Returns the new model and the
/// state of the uniform source after the draw.
pub open spec fn spec_commit(m: Model, s: u64, p: Pos) -> (Model, u64) {
    let k = m.index(p);
    let dom = m.domains[k];
    if dom.len() > 0 {
        let i = spec_draw(s, dom.len());
        (Model { collapsed: m.collapsed.update(k, Some(dom[i as int])), ..m }, spec_lcg_next(s))
    } else {
        (
            Model {
                collapsed: m.collapsed.update(k, Some(spec_empty_tile())),
                degenerate: true,
                ..m
            },
            s,
        )
    }
}

/// One single-hop propagation step written into the model: when the cell at
/// `p` has committed to a tile and a neighbour exists in direction `d`, the
/// neighbour's domain retains exactly the candidates compatible with that
/// tile across the shared edge; otherwise the model is unchanged.
pub open spec fn spec_propagate(m: Model, p: Pos, d: Direction) -> Model {
    match m.entry(p) {
        None => m,
        Some(t) => match spec_neighbor(m, p, d) {
            None => m,
            Some(np) => {
                let nk = m.index(np);
                Model {
                    domains: m.domains.update(nk, m.domains[nk].filter(compat_pred(m.rule, t, d))),
                    ..m
                }
            },
        },
    }
}

impl Generator {
    /// The neighbouring position in a direction, or `None` at the boundary.
    pub fn neighbor_position(&self, at: Pos, direction: Direction) -> (r: Option<Pos>)
        requires
            self.wf(),
            self@.in_bounds(at),
        ensures
            r == spec_neighbor(self@, at, direction),
            match r {
                Some(np) => self@.in_bounds(np),
                None => true,
            },
    {
        match direction {
            Direction::Top => if at.row == 0 {
                None
            } else {
                Some(Pos { row: at.row - 1, col: at.col })
            },
            Direction::Right => if at.col + 1 >= self.cols {
                None
            } else {
                Some(Pos { row: at.row, col: at.col + 1 })
            },
            Direction::Bottom => if at.row + 1 >= self.rows {
                None
            } else {
                Some(Pos { row: at.row + 1, col: at.col })
            },
            Direction::Left => if at.col == 0 {
                None
            } else {
                Some(Pos { row: at.row, col: at.col - 1 })
            },
        }
    }

    /// The domain of the neighbouring cell in a direction, or `None` at the
    /// grid boundary — a boundary, not a failure.
    pub fn neighbor_domain(&self, at: Pos, direction: Direction) -> (r: Option<
        &Vec<TileDescriptor>,
    >)
        requires
            self.wf(),
            self@.in_bounds(at),
        ensures
            match (r, spec_neighbor(self@, at, direction)) {
                (Some(d), Some(np)) => d@ == self@.domain(np),
                (None, None) => true,
                _ => false,
            },
    {
        match self.neighbor_position(at, direction) {
            None => None,
            Some(np) => {
                let nk = self.flat_index(np);
                Some(&self.domains[nk])
            },
        }
    }

    /// Whether `candidate` may sit on side `direction` of `committed` under
    /// the generator's active rule.
    pub fn compatible(
        &self,
        committed: &TileDescriptor,
        candidate: &TileDescriptor,
        direction: Direction,
    ) -> (r: bool)
        requires
            self.wf(),
        ensures
            r == spec_compat(self@.rule, *committed, *candidate, direction),
    {
        match self.rule {
            CompatRule::EdgeLists => {
                if committed.edge(direction) {
                    let list = match direction {
                        Direction::Top => &self.top_connections,
                        Direction::Right => &self.right_connections,
                        Direction::Bottom => &self.bottom_connections,
                        Direction::Left => &self.left_connections,
                    };
                    kinds_contain(list, candidate.kind)
                } else {
                    !candidate.edge(direction.opposite())
                }
            },
            CompatRule::EdgeFlags => committed.edge(direction) == candidate.edge(
                direction.opposite(),
            ),
        }
    }

    /// The domain at flat index `nk`, filtered against a committed tile.
    fn filtered_domain(
        &self,
        nk: usize,
        committed: &TileDescriptor,
        direction: Direction,
    ) -> (r: Vec<TileDescriptor>)
        requires
            self.wf(),
            nk < self@.domains.len(),
        ensures
            r@ == self@.domains[nk as int].filter(compat_pred(self@.rule, *committed, direction)),
    {
        let dom = &self.domains[nk];
        let ghost pred = compat_pred(self@.rule, *committed, direction);
        let mut out: Vec<TileDescriptor> = Vec::new();
        let mut i: usize = 0;
        proof {
            reveal(Seq::filter);
        }
        while i < dom.len()
            invariant
                self.wf(),
                nk < self@.domains.len(),
                dom@ == self@.domains[nk as int],
                pred == compat_pred(self@.rule, *committed, direction),
                i <= dom@.len(),
                out@ == dom@.subrange(0, i as int).filter(pred),
            decreases dom@.len() - i,
        {
            let t = dom[i];
            if self.compatible(committed, &t, direction) {
                out.push(t);
            }
            proof {
                reveal(Seq::filter);
                assert(dom@.subrange(0, i + 1 as int).drop_last() =~= dom@.subrange(0, i as int));
                assert(dom@.subrange(0, i + 1 as int).last() == dom@[i as int]);
            }
            i += 1;
        }
        proof {
            assert(dom@.subrange(0, dom@.len() as int) =~= dom@);
        }
        out
    }

    /// Commits the cell at `at`: draws uniformly from its current domain,
    /// or falls back to the blank tile — raising the degenerate flag — when
    /// the domain has been exhausted.
    pub fn collapse_cell(&mut self, at: Pos, rng: &mut RandomSource)
        requires
            old(self).wf(),
            old(self)@.in_bounds(at),
        ensures
            final(self).wf(),
            final(self)@ == spec_commit(old(self)@, old(rng).state, at).0,
            final(rng).state == spec_commit(old(self)@, old(rng).state, at).1,
            final(self)@.entry(at) is Some,
            old(self)@.domain(at).len() == 0 ==> final(self)@.degenerate,
    {
        let k = self.flat_index(at);
        let n = self.domains[k].len();
        if n > 0 {
            let i = rng.next_below(n);
            let t = self.domains[k][i];
            self.collapsed[k] = Some(t);
            proof {
                assert(self@ =~~= spec_commit(old(self)@, old(rng).state, at).0);
            }
        } else {
            self.collapsed[k] = Some(TileDescriptor::empty());
            self.degenerate = true;
            proof {
                assert(self@ =~~= spec_commit(old(self)@, old(rng).state, at).0);
            }
        }
    }

    /// Propagates the commitment at `from` one hop in a direction: a no-op
    /// when `from` has not committed, and a no-op at the grid boundary;
    /// otherwise the neighbour's domain retains exactly the candidates
    /// compatible with the committed tile across the shared edge.
    pub fn propagate(&mut self, from: Pos, direction: Direction)
        requires
            old(self).wf(),
            old(self)@.in_bounds(from),
        ensures
            final(self).wf(),
            final(self)@ == spec_propagate(old(self)@, from, direction),
            old(self)@.entry(from) is None ==> final(self)@ == old(self)@,
            spec_neighbor(old(self)@, from, direction) is None ==> final(self)@ == old(self)@,
    {
        let k = self.flat_index(from);
        match self.collapsed[k] {
            None => {},
            Some(t) => {
                match self.neighbor_position(from, direction) {
                    None => {},
                    Some(np) => {
                        let nk = self.flat_index(np);
                        let filtered = self.filtered_domain(nk, &t, direction);
                        self.domains[nk] = filtered;
                        proof {
                            assert(self@ =~~= spec_propagate(old(self)@, from, direction));
                        }
                    },
                }
            },
        }
    }
}

/// The number of unsettled cells in a collapsed grid.
pub open spec fn none_count(s: Seq<Option<TileDescriptor>>) -> nat
    decreases s.len(),
{
    if s.len() == 0 {
        0
    } else {
        none_count(s.drop_last()) + (if s.last() is None {
            1nat
        } else {
            0nat
        })
    }
}

/// Settling one cell lowers the number of unsettled cells by one exactly
/// when that cell was unsettled.
pub proof fn lemma_none_count_update(s: Seq<Option<TileDescriptor>>, k: int, t: TileDescriptor)
    requires
        0 <= k < s.len(),
    ensures
        none_count(s.update(k, Some(t))) == none_count(s) - (if s[k] is None {
            1int
        } else {
            0int
        }),
    decreases s.len(),
{
    let s2 = s.update(k, Some(t));
    if k == s.len() - 1 {
        assert(s2.drop_last() =~= s.drop_last());
    } else {
        assert(s2.drop_last() =~= s.drop_last().update(k, Some(t)));
        lemma_none_count_update(s.drop_last(), k, t);
        assert(s2.last() == s.last());
    }
}

/// Of two candidate positions (as flat indices), the one whose domain is
/// smaller, the earlier one winning ties.
pub open spec fn spec_better(m: Model, a: Option<int>, b: Option<int>) -> Option<int> {
    match (a, b) {
        (Option::None, _) => b,
        (Option::Some(_), Option::None) => a,
        (Option::Some(i), Option::Some(j)) => if m.domains[i].len() <= m.domains[j].len() {
            a
        } else {
            b
        },
    }
}

/// The flat index of the first uncollapsed cell with the smallest domain
/// among the cells at flat index `k` or later, scanning in row-major order;
/// `None` when every such cell has settled.
pub open spec fn spec_first_min_from(m: Model, k: int) -> Option<int>
    decreases m.collapsed.len() - k,
{
    if k < 0 || k >= m.collapsed.len() {
        None
    } else {
        let rest = spec_first_min_from(m, k + 1);
        if m.collapsed[k] is Some {
            rest
        } else {
            spec_better(m, Some(k), rest)
        }
    }
}

/// Whatever the scan returns lies in range and is uncollapsed.
pub proof fn lemma_first_min_props(m: Model, k: int)
    ensures
        match spec_first_min_from(m, k) {
            Some(j) => k <= j < m.collapsed.len() && m.collapsed[j] is None,
            None => true,
        },
    decreases m.collapsed.len() - k,
{
    if 0 <= k < m.collapsed.len() {
        lemma_first_min_props(m, k + 1);
    }
}

/// The scan finds something as long as some cell at `k` or later is
/// uncollapsed.
pub proof fn lemma_first_min_exists(m: Model, k: int, w: int)
    requires
        0 <= k <= w < m.collapsed.len(),
        m.collapsed[w] is None,
    ensures
        spec_first_min_from(m, k) is Some,
    decreases m.collapsed.len() - k,
{
    if m.collapsed[k] is Some {
        lemma_first_min_exists(m, k + 1, w);
    }
}

/// Folding one more candidate into a running best commutes with the scan:
/// the combining function is associative.
pub proof fn lemma_better_assoc(m: Model, a: Option<int>, b: Option<int>, c: Option<int>)
    ensures
        spec_better(m, spec_better(m, a, b), c) == spec_better(m, a, spec_better(m, b, c)),
{
}

/// A flat row-major index decomposes into a row below `rows` and a column
/// below `cols`.
pub proof fn lemma_flat_to_pos(m: Model, j: int)
    requires
        m.wf(),
        0 <= j < m.collapsed.len(),
    ensures
        m.cols > 0,
        0 <= j / (m.cols as int) < m.rows,
        0 <= j % (m.cols as int) < m.cols,
        (j / (m.cols as int)) * (m.cols as int) + j % (m.cols as int) == j,
        j / (m.cols as int) <= j,
        j % (m.cols as int) <= j,
{
    if m.cols == 0 {
        assert(m.rows * m.cols == 0) by (nonlinear_arith)
            requires
                m.cols == 0,
        ;
    }
    let c = m.cols as int;
    lemma_mod_bound(j, c);
    lemma_fundamental_div_mod(j, c);
    lemma_div_pos_is_pos(j, c);
    assert(c * (j / c) == (j / c) * c) by (nonlinear_arith);
    assert(m.rows * m.cols == c * (m.rows as int)) by (nonlinear_arith)
        requires
            c == m.cols as int,
    ;
    lemma_multiply_divide_lt(j, c, m.rows as int);
    assert(j / c <= (j / c) * c) by (nonlinear_arith)
        requires
            j / c >= 0,
            c >= 1,
    ;
}

/// One full engine step written into the model: the commitment at `p`
/// followed by single-hop propagation to all four neighbours.
pub open spec fn spec_step(m: Model, s: u64, p: Pos) -> (Model, u64) {
    let committed = spec_commit(m, s, p);
    let m1 = spec_propagate(committed.0, p, Direction::Top);
    let m2 = spec_propagate(m1, p, Direction::Right);
    let m3 = spec_propagate(m2, p, Direction::Bottom);
    let m4 = spec_propagate(m3, p, Direction::Left);
    (m4, committed.1)
}

/// A single-hop propagation touches one domain at most: the grid shape,
/// the rule, the catalogue and the whole collapsed grid are left alone.
pub proof fn lemma_propagate_shape(m: Model, p: Pos, d: Direction)
    requires
        m.wf(),
        m.in_bounds(p),
    ensures
        ({
            let m1 = spec_propagate(m, p, d);
            &&& m1.rows == m.rows
            &&& m1.cols == m.cols
            &&& m1.rule == m.rule
            &&& m1.catalogue == m.catalogue
            &&& m1.domains.len() == m.domains.len()
            &&& m1.collapsed == m.collapsed
            &&& m1.degenerate == m.degenerate
        }),
{
    match m.entry(p) {
        None => {},
        Some(t) => match spec_neighbor(m, p, d) {
            None => {},
            Some(np) => {
                assert(m.in_bounds(np));
                lemma_index_bounds(m, np);
            },
        },
    }
}

/// A step leaves the grid shape, rule and catalogue alone, settles the cell
/// it committed, and lowers the number of unsettled cells by one exactly
/// when that cell was unsettled.
pub proof fn lemma_step_collapsed(m: Model, s: u64, p: Pos)
    requires
        m.wf(),
        m.in_bounds(p),
    ensures
        ({
            let m1 = spec_step(m, s, p).0;
            &&& m1.rows == m.rows
            &&& m1.cols == m.cols
            &&& m1.rule == m.rule
            &&& m1.catalogue == m.catalogue
            &&& m1.domains.len() == m.domains.len()
            &&& m1.collapsed.len() == m.collapsed.len()
            &&& m1.wf()
            &&& m1.entry(p) is Some
            &&& m1.collapsed == spec_commit(m, s, p).0.collapsed
            &&& m1.degenerate == (m.degenerate || m.domain(p).len() == 0)
            &&& none_count(m1.collapsed) == none_count(m.collapsed) - (if m.entry(p) is None {
                1int
            } else {
                0int
            })
        }),
{
    lemma_index_bounds(m, p);
    let k = m.index(p);
    let committed = spec_commit(m, s, p).0;
    if m.domains[k].len() > 0 {
        lemma_none_count_update(m.collapsed, k, m.domains[k][spec_draw(s, m.domains[k].len()) as int]);
    } else {
        lemma_none_count_update(m.collapsed, k, spec_empty_tile());
    }
    let ma = spec_propagate(committed, p, Direction::Top);
    let mb = spec_propagate(ma, p, Direction::Right);
    let mc = spec_propagate(mb, p, Direction::Bottom);
    lemma_propagate_shape(committed, p, Direction::Top);
    lemma_propagate_shape(ma, p, Direction::Right);
    lemma_propagate_shape(mb, p, Direction::Bottom);
    lemma_propagate_shape(mc, p, Direction::Left);
}

/// A whole collapse run written into the model, starting at `p`: nothing on
/// a done grid, else one step followed by the run from the uncollapsed cell
/// with the fewest remaining possibilities. Returns the final model and the
/// final state of the uniform source.
pub open spec fn spec_collapse(m: Model, s: u64, p: Pos) -> (Model, u64)
    decreases none_count(m.collapsed) + (if m.entry(p) is Some {
        1int
    } else {
        0int
    }),
    when m.collapsed.len() <= usize::MAX
    via check_spec_collapse_decreases
{
    if m.done() || !m.wf() || !m.in_bounds(p) {
        (m, s)
    } else {
        let stepped = spec_step(m, s, p);
        if stepped.0.done() {
            stepped
        } else {
            match spec_first_min_from(stepped.0, 0) {
                None => stepped,
                Some(j) => spec_collapse(stepped.0, stepped.1, spec_pos_of(stepped.0, j)),
            }
        }
    }
}

/// The position with the given flat row-major index.
pub open spec fn spec_pos_of(m: Model, j: int) -> Pos {
    Pos { row: (j / (m.cols as int)) as usize, col: (j % (m.cols as int)) as usize }
}

#[via_fn]
proof fn check_spec_collapse_decreases(m: Model, s: u64, p: Pos) {
    if !(m.done() || !m.wf() || !m.in_bounds(p)) {
        let stepped = spec_step(m, s, p);
        let m1 = stepped.0;
        if !m1.done() {
            match spec_first_min_from(m1, 0) {
                None => {},
                Some(j) => {
                    lemma_step_collapsed(m, s, p);
                    lemma_first_min_props(m1, 0);
                    lemma_flat_to_pos(m1, j);
                    let np = spec_pos_of(m1, j);
                    assert(m1.index(np) == j);
                    assert(m1.entry(np) is None);
                },
            }
        }
    }
}

/// Unfolding `spec_collapse` on a done grid: nothing happens.
pub proof fn lemma_collapse_done(m: Model, s: u64, p: Pos)
    requires
        m.collapsed.len() <= usize::MAX,
        m.done(),
    ensures
        spec_collapse(m, s, p) == (m, s),
{
}

/// Unfolding `spec_collapse` once when the step finishes the grid: the run
/// is exactly that step.
pub proof fn lemma_collapse_step_done(m: Model, s: u64, p: Pos)
    requires
        m.wf(),
        m.collapsed.len() <= usize::MAX,
        !m.done(),
        m.in_bounds(p),
        spec_step(m, s, p).0.done(),
    ensures
        spec_collapse(m, s, p) == spec_step(m, s, p),
{
}

/// Unfolding `spec_collapse` once when the step leaves work: the run is
/// the step followed by the run from the position the scan picks.
pub proof fn lemma_collapse_step_continue(m: Model, s: u64, p: Pos, q: Pos)
    requires
        m.wf(),
        m.collapsed.len() <= usize::MAX,
        !m.done(),
        m.in_bounds(p),
        !spec_step(m, s, p).0.done(),
        spec_step(m, s, p).0.in_bounds(q),
        Some(spec_step(m, s, p).0.index(q)) == spec_first_min_from(spec_step(m, s, p).0, 0),
    ensures
        spec_collapse(m, s, p) == spec_collapse(spec_step(m, s, p).0, spec_step(m, s, p).1, q),
{
    let stepped = spec_step(m, s, p);
    let m1 = stepped.0;
    let j = m1.index(q);
    lemma_step_collapsed(m, s, p);
    lemma_index_bounds(m1, q);
    lemma_flat_to_pos(m1, j);
    lemma_fundamental_div_mod_converse(j, m1.cols as int, q.row as int, q.col as int);
    assert(spec_pos_of(m1, j) == q);
}

impl Generator {
    /// The position of the first uncollapsed cell, in row-major scan order,
    /// whose domain is smallest among all uncollapsed cells. Callers must
    /// check `is_done` first: on a fully collapsed grid there is no such
    /// cell.
    pub fn lowest_entropy_uncollapsed_position(&self) -> (r: Pos)
        requires
            self.wf(),
            !self@.done(),
        ensures
            self@.in_bounds(r),
            self@.entry(r) is None,
            Some(self@.index(r)) == spec_first_min_from(self@, 0),
    {
        let total = self.collapsed.len();
        let mut best: Option<usize> = None;
        let mut k: usize = 0;
        while k < total
            invariant
                self.wf(),
                k <= total,
                total == self@.collapsed.len(),
                spec_first_min_from(self@, 0) == spec_better(
                    self@,
                    match best {
                        Some(b) => Some(b as int),
                        None => None,
                    },
                    spec_first_min_from(self@, k as int),
                ),
                match best {
                    Some(b) => b < k && self@.collapsed[b as int] is None,
                    None => true,
                },
            decreases total - k,
        {
            let ghost prev: Option<int> = match best {
                Some(b) => Some(b as int),
                None => None,
            };
            if self.collapsed[k].is_none() {
                best = match best {
                    None => Some(k),
                    Some(b) => if self.domains[k].len() < self.domains[b].len() {
                        Some(k)
                    } else {
                        Some(b)
                    },
                };
                proof {
                    lemma_better_assoc(
                        self@,
                        prev,
                        Some(k as int),
                        spec_first_min_from(self@, k + 1 as int),
                    );
                }
            }
            k += 1;
        }
        proof {
            if !self@.done() {
                let w = choose|w: int|
                    0 <= w < self@.collapsed.len() && self@.collapsed[w] is None;
                lemma_first_min_exists(self@, 0, w);
            }
        }
        match best {
            Some(j) => {
                proof {
                    lemma_first_min_props(self@, 0);
                    lemma_flat_to_pos(self@, j as int);
                    lemma_fundamental_div_mod_converse(
                        j as int,
                        self@.cols as int,
                        (j as int) / (self@.cols as int),
                        (j as int) % (self@.cols as int),
                    );
                }
                let r = Pos { row: j / self.cols, col: j % self.cols };
                proof {
                    assert(self@.index(r) == j as int);
                }
                r
            },
            None => vstd::pervasive::unreached(),
        }
    }

    /// Runs the collapse to completion from `start`: a no-op on a grid that
    /// is already done; otherwise it repeatedly commits the current cell,
    /// propagates the commitment to the four neighbouring domains, and
    /// moves on to the uncollapsed cell with the fewest remaining
    /// possibilities. The whole run is a function of the starting grid, the
    /// state of the uniform source, and the start position.
    #[verifier::rlimit(60)]
    pub fn collapse(&mut self, start: Pos, rng: &mut RandomSource)
        requires
            old(self).wf(),
            old(self)@.done() || old(self)@.in_bounds(start),
        ensures
            final(self).wf(),
            final(self)@ == spec_collapse(old(self)@, old(rng).state, start).0,
            final(rng).state == spec_collapse(old(self)@, old(rng).state, start).1,
            final(self)@.done(),
            old(self)@.done() ==> final(self)@ == old(self)@ && final(rng).state == old(
                rng,
            ).state,
    {
        let ghost m0 = self@;
        let ghost s0 = rng.state;
        if self.is_done() {
            proof {
                lemma_collapse_done(m0, s0, start);
            }
            return ;
        }
        let mut at = start;
        loop
            invariant_except_break
                !self@.done(),
                spec_collapse(m0, s0, start) == spec_collapse(self@, rng.state, at),
            invariant
                self.wf(),
                self@.in_bounds(at),
            ensures
                self.wf(),
                self@.done(),
                spec_collapse(m0, s0, start) == (self@, rng.state),
            decreases none_count(self@.collapsed) + (if self@.entry(at) is Some {
                1int
            } else {
                0int
            }),
        {
            let ghost m_i = self@;
            let ghost s_i = rng.state;
            self.collapse_cell(at, rng);
            self.propagate(at, Direction::Top);
            self.propagate(at, Direction::Right);
            self.propagate(at, Direction::Bottom);
            self.propagate(at, Direction::Left);
            proof {
                assert(self@ == spec_step(m_i, s_i, at).0);
                assert(rng.state == spec_step(m_i, s_i, at).1);
                lemma_step_collapsed(m_i, s_i, at);
            }
            if self.is_done() {
                proof {
                    lemma_collapse_step_done(m_i, s_i, at);
                }
                break ;
            }
            let prev = at;
            at = self.lowest_entropy_uncollapsed_position();
            proof {
                lemma_collapse_step_continue(m_i, s_i, prev, at);
            }
        }
    }
}

} // verus!
