//! Grid-level laws of the generator, stated over the mathematical model
//! and proved once and for all.

use vstd::prelude::*;

use crate::grid::{
    lemma_first_min_props, lemma_flat_to_pos, lemma_index_bounds, lemma_index_injective,
    lemma_propagate_shape, lemma_step_collapsed, none_count, spec_collapse, spec_commit,
    spec_first_min_from, spec_neighbor, spec_pos_of, spec_propagate, spec_step, Model, Pos,
};
use crate::rng::spec_draw;
use crate::tile::{compat_pred, spec_compat, CompatRule, Direction, TileDescriptor};

verus! {

/// Pruning is monotonic: a propagation step never adds a possibility to
/// any cell's domain, and never makes one grow.
pub proof fn lemma_propagate_only_prunes(m: Model, p: Pos, d: Direction, q: Pos)
    requires
        m.wf(),
        m.in_bounds(p),
        m.in_bounds(q),
    ensures
        spec_propagate(m, p, d).domain(q).len() <= m.domain(q).len(),
        forall|t: TileDescriptor|
            #[trigger] spec_propagate(m, p, d).domain(q).contains(t) ==> m.domain(q).contains(t),
{
    let m1 = spec_propagate(m, p, d);
    match m.entry(p) {
        None => {},
        Some(tile) => match spec_neighbor(m, p, d) {
            None => {},
            Some(np) => {
                lemma_index_bounds(m, np);
                lemma_index_bounds(m, q);
                let pred = compat_pred(m.rule, tile, d);
                let nk = m.index(np);
                if m.index(q) == nk {
                    m.domains[nk].lemma_filter_len(pred);
                    assert forall|t: TileDescriptor| #[trigger]
                        m1.domain(q).contains(t) implies m.domain(q).contains(t) by {
                        m.domains[nk].lemma_filter_contains_rev(pred, t);
                    };
                }
            },
        },
    }
}

/// An empty grid — zero rows or zero columns — is vacuously done.
pub proof fn lemma_empty_grid_done(m: Model)
    requires
        m.wf(),
        m.rows == 0 || m.cols == 0,
    ensures
        m.done(),
{
    assert(m.rows * m.cols == 0) by (nonlinear_arith)
        requires
            m.rows == 0 || m.cols == 0,
    ;
}

/// A grid with at least one row and one column, a non-empty catalogue, and
/// no collapse call behind it is not done.
pub proof fn lemma_fresh_grid_not_done(m: Model)
    requires
        m.wf(),
        m.rows >= 1,
        m.cols >= 1,
        m.catalogue.len() > 0,
        forall|k: int| 0 <= k < m.collapsed.len() ==> m.collapsed[k] is None,
    ensures
        !m.done(),
{
    assert(m.rows * m.cols >= 1) by (nonlinear_arith)
        requires
            m.rows >= 1,
            m.cols >= 1,
    ;
    assert(m.collapsed[0] is None);
}

/// On a fresh grid — every domain still the full catalogue — the domain of
/// any in-bounds cell has exactly the catalogue's size.
pub proof fn lemma_fresh_domain_is_catalogue(m: Model, p: Pos)
    requires
        m.wf(),
        m.in_bounds(p),
        forall|k: int| 0 <= k < m.domains.len() ==> m.domains[k] == m.catalogue,
    ensures
        m.domain(p) == m.catalogue,
        m.domain(p).len() == m.catalogue.len(),
{
    lemma_index_bounds(m, p);
}

/// Commit-once: a whole run never reassigns a cell that had already
/// settled — other than the start cell itself, which the engine commits
/// unconditionally. Every later commitment lands on a cell the scan chose,
/// and the scan only ever picks unsettled cells.
pub proof fn lemma_collapse_commit_once(m: Model, s: u64, p: Pos, k: int)
    requires
        m.wf(),
        m.collapsed.len() <= usize::MAX,
        0 <= k < m.collapsed.len(),
        m.collapsed[k] is Some,
        k != m.index(p),
    ensures
        spec_collapse(m, s, p).0.collapsed[k] == m.collapsed[k],
    decreases none_count(m.collapsed) + (if m.entry(p) is Some {
        1int
    } else {
        0int
    }),
{
    if m.done() || !m.in_bounds(p) {
    } else {
        let stepped = spec_step(m, s, p);
        let m1 = stepped.0;
        lemma_index_bounds(m, p);
        lemma_step_collapsed(m, s, p);
        assert(m1.collapsed[k] == m.collapsed[k]);
        if !m1.done() {
            match spec_first_min_from(m1, 0) {
                None => {},
                Some(j) => {
                    lemma_first_min_props(m1, 0);
                    lemma_flat_to_pos(m1, j);
                    let np = spec_pos_of(m1, j);
                    assert(m1.index(np) == j);
                    assert(m1.entry(np) is None);
                    lemma_collapse_commit_once(m1, stepped.1, np, k);
                },
            }
        }
    }
}

/// Collapsing is deterministic: the outcome of a whole run — the final
/// grids and the final state of the uniform source — is a function of the
/// starting grid, the starting state of the source, and the start position,
/// so runs from equal inputs agree.
pub proof fn lemma_collapse_deterministic(
    m1: Model,
    m2: Model,
    s1: u64,
    s2: u64,
    p1: Pos,
    p2: Pos,
)
    requires
        m1 == m2,
        s1 == s2,
        p1 == p2,
    ensures
        spec_collapse(m1, s1, p1) == spec_collapse(m2, s2, p2),
{
}

/// Every settled pair of neighbouring cells is compatible across their
/// shared edge, seen from the first cell's side.
pub open spec fn edge_consistent(m: Model) -> bool {
    forall|p: Pos, d: Direction, q: Pos|
        #![trigger spec_neighbor(m, p, d), m.entry(q)]
        m.in_bounds(p) && spec_neighbor(m, p, d) == Some(q) && m.entry(p) is Some && m.entry(
            q,
        ) is Some ==> spec_compat(m.rule, m.entry(p)->0, m.entry(q)->0, d)
}

/// Every tile still possible in an unsettled cell is compatible with every
/// settled neighbour of that cell.
pub open spec fn domains_respect_commitments(m: Model) -> bool {
    forall|p: Pos, d: Direction, q: Pos, i: int|
        #![trigger spec_neighbor(m, p, d), m.domain(q)[i]]
        m.in_bounds(p) && spec_neighbor(m, p, d) == Some(q) && m.entry(p) is Some && m.entry(
            q,
        ) is None && 0 <= i < m.domain(q).len() ==> spec_compat(
            m.rule,
            m.entry(p)->0,
            m.domain(q)[i],
            d,
        )
}

/// The edge-flag rule is symmetric: the two cells of a neighbouring pair
/// accept each other or reject each other together.
pub proof fn lemma_edge_flags_symmetric(a: TileDescriptor, b: TileDescriptor, d: Direction)
    ensures
        spec_compat(CompatRule::EdgeFlags, a, b, d) == spec_compat(
            CompatRule::EdgeFlags,
            b,
            a,
            d.spec_opposite(),
        ),
{
}

/// Neighbourhood is symmetric: when `q` lies one step from `p` in
/// direction `d`, then `p` lies one step from `q` in the opposite
/// direction, and `q` is in bounds.
pub proof fn lemma_neighbor_symmetric(m: Model, p: Pos, d: Direction, q: Pos)
    requires
        m.wf(),
        m.collapsed.len() <= usize::MAX,
        m.in_bounds(p),
        spec_neighbor(m, p, d) == Some(q),
    ensures
        m.in_bounds(q),
        spec_neighbor(m, q, d.spec_opposite()) == Some(p),
{
    assert(m.rows <= usize::MAX && m.cols <= usize::MAX) by (nonlinear_arith)
        requires
            m.rows * m.cols <= usize::MAX,
            m.rows >= 1,
            m.cols >= 1,
    ;
    match d {
        Direction::Top => {
            assert(q == Pos { row: (p.row - 1) as usize, col: p.col });
        },
        Direction::Right => {
            assert(q == Pos { row: p.row, col: (p.col + 1) as usize });
        },
        Direction::Bottom => {
            assert(q == Pos { row: (p.row + 1) as usize, col: p.col });
        },
        Direction::Left => {
            assert(q == Pos { row: p.row, col: (p.col - 1) as usize });
        },
    }
}

/// Across one full step, domains only shrink: whatever is still possible
/// afterwards was possible before.
pub proof fn lemma_step_domains_shrink(m: Model, s: u64, p: Pos, q: Pos, x: TileDescriptor)
    requires
        m.wf(),
        m.in_bounds(p),
        m.in_bounds(q),
        spec_step(m, s, p).0.domain(q).contains(x),
    ensures
        m.domain(q).contains(x),
{
    lemma_index_bounds(m, p);
    let mc = spec_commit(m, s, p).0;
    let ma = spec_propagate(mc, p, Direction::Top);
    let mb = spec_propagate(ma, p, Direction::Right);
    let md = spec_propagate(mb, p, Direction::Bottom);
    assert(mc.domains == m.domains);
    lemma_propagate_shape(mc, p, Direction::Top);
    lemma_propagate_shape(ma, p, Direction::Right);
    lemma_propagate_shape(mb, p, Direction::Bottom);
    lemma_propagate_only_prunes(md, p, Direction::Left, q);
    lemma_propagate_only_prunes(mb, p, Direction::Bottom, q);
    lemma_propagate_only_prunes(ma, p, Direction::Right, q);
    lemma_propagate_only_prunes(mc, p, Direction::Top, q);
}

/// After a step, the domain of each neighbour of the committed cell holds
/// only tiles compatible with the tile just committed there.
pub proof fn lemma_step_neighbor_respects(
    m: Model,
    s: u64,
    p: Pos,
    d: Direction,
    q: Pos,
    x: TileDescriptor,
)
    requires
        m.wf(),
        m.in_bounds(p),
        spec_neighbor(m, p, d) == Some(q),
        spec_step(m, s, p).0.domain(q).contains(x),
    ensures
        spec_compat(m.rule, spec_step(m, s, p).0.entry(p)->0, x, d),
{
    lemma_index_bounds(m, p);
    assert(m.in_bounds(q));
    lemma_index_bounds(m, q);
    let mc = spec_commit(m, s, p).0;
    let ma = spec_propagate(mc, p, Direction::Top);
    let mb = spec_propagate(ma, p, Direction::Right);
    let md = spec_propagate(mb, p, Direction::Bottom);
    let mfinal = spec_propagate(md, p, Direction::Left);
    lemma_propagate_shape(mc, p, Direction::Top);
    lemma_propagate_shape(ma, p, Direction::Right);
    lemma_propagate_shape(mb, p, Direction::Bottom);
    lemma_propagate_shape(md, p, Direction::Left);
    let t = mc.entry(p)->0;
    assert(mc.entry(p) is Some);
    let pred = compat_pred(m.rule, t, d);
    match d {
        Direction::Top => {
            assert(ma.domain(q) == mc.domain(q).filter(pred));
            lemma_propagate_only_prunes(md, p, Direction::Left, q);
            lemma_propagate_only_prunes(mb, p, Direction::Bottom, q);
            lemma_propagate_only_prunes(ma, p, Direction::Right, q);
            assert(ma.domain(q).contains(x));
            let i = choose|i: int| 0 <= i < ma.domain(q).len() && ma.domain(q)[i] == x;
            mc.domain(q).lemma_filter_pred(pred, i);
        },
        Direction::Right => {
            assert(mb.domain(q) == ma.domain(q).filter(pred));
            lemma_propagate_only_prunes(md, p, Direction::Left, q);
            lemma_propagate_only_prunes(mb, p, Direction::Bottom, q);
            assert(mb.domain(q).contains(x));
            let i = choose|i: int| 0 <= i < mb.domain(q).len() && mb.domain(q)[i] == x;
            ma.domain(q).lemma_filter_pred(pred, i);
        },
        Direction::Bottom => {
            assert(md.domain(q) == mb.domain(q).filter(pred));
            lemma_propagate_only_prunes(md, p, Direction::Left, q);
            assert(md.domain(q).contains(x));
            let i = choose|i: int| 0 <= i < md.domain(q).len() && md.domain(q)[i] == x;
            mb.domain(q).lemma_filter_pred(pred, i);
        },
        Direction::Left => {
            assert(mfinal.domain(q) == md.domain(q).filter(pred));
            assert(mfinal.domain(q).contains(x));
            let i = choose|i: int| 0 <= i < mfinal.domain(q).len() && mfinal.domain(q)[i] == x;
            md.domain(q).lemma_filter_pred(pred, i);
        },
    }
}

/// Settling one unsettled cell on a tile drawn from its own domain keeps
/// the settled neighbouring pairs mutually compatible under the edge-flag
/// rule, whatever else happens to the domains.
proof fn lemma_transition_edge_consistent(m: Model, m1: Model, p: Pos, t: TileDescriptor)
    requires
        m.wf(),
        m.collapsed.len() <= usize::MAX,
        m.in_bounds(p),
        m.rule == CompatRule::EdgeFlags,
        m.entry(p) is None,
        m1.rows == m.rows,
        m1.cols == m.cols,
        m1.rule == m.rule,
        m1.collapsed == m.collapsed.update(m.index(p), Some(t)),
        exists|i: int| 0 <= i < m.domain(p).len() && m.domain(p)[i] == t,
        edge_consistent(m),
        domains_respect_commitments(m),
    ensures
        edge_consistent(m1),
{
    let kp = m.index(p);
    let i0 = choose|i: int| 0 <= i < m.domain(p).len() && m.domain(p)[i] == t;
    lemma_index_bounds(m, p);
    assert forall|a: Pos, d: Direction, b: Pos|
        m1.in_bounds(a) && spec_neighbor(m1, a, d) == Some(b) && m1.entry(a) is Some && m1.entry(
            b,
        ) is Some implies spec_compat(m1.rule, m1.entry(a)->0, m1.entry(b)->0, d) by {
        assert(spec_neighbor(m1, a, d) == spec_neighbor(m, a, d));
        lemma_neighbor_symmetric(m, a, d, b);
        lemma_index_bounds(m, a);
        lemma_index_bounds(m, b);
        if a == p {
            assert(m.index(b) != kp) by {
                if m.index(b) == m.index(p) {
                    lemma_index_injective(m, b, p);
                }
            };
            assert(m1.entry(b) == m.entry(b));
            assert(m1.entry(a) == Some(t));
            assert(spec_compat(m.rule, m.entry(b)->0, m.domain(p)[i0], d.spec_opposite()));
            lemma_edge_flags_symmetric(m.entry(b)->0, t, d.spec_opposite());
            assert(d.spec_opposite().spec_opposite() == d);
        } else if b == p {
            assert(m.index(a) != kp) by {
                if m.index(a) == m.index(p) {
                    lemma_index_injective(m, a, p);
                }
            };
            assert(m1.entry(a) == m.entry(a));
            assert(m1.entry(b) == Some(t));
            assert(spec_compat(m.rule, m.entry(a)->0, m.domain(p)[i0], d));
        } else {
            assert(m.index(a) != kp) by {
                if m.index(a) == m.index(p) {
                    lemma_index_injective(m, a, p);
                }
            };
            assert(m.index(b) != kp) by {
                if m.index(b) == m.index(p) {
                    lemma_index_injective(m, b, p);
                }
            };
            assert(m1.entry(a) == m.entry(a));
            assert(m1.entry(b) == m.entry(b));
        }
    }
}

/// Settling one unsettled cell keeps every still-unsettled domain
/// respectful of every settled neighbour, as long as domains only shrink
/// and the committed cell's own neighbours keep only compatible tiles.
proof fn lemma_transition_domains_respect(m: Model, m1: Model, p: Pos, t: TileDescriptor)
    requires
        m.wf(),
        m.collapsed.len() <= usize::MAX,
        m.in_bounds(p),
        m.entry(p) is None,
        m1.rows == m.rows,
        m1.cols == m.cols,
        m1.rule == m.rule,
        m1.collapsed == m.collapsed.update(m.index(p), Some(t)),
        forall|q: Pos, x: TileDescriptor|
            m.in_bounds(q) && #[trigger] m1.domain(q).contains(x) ==> m.domain(q).contains(x),
        forall|d: Direction, q: Pos, x: TileDescriptor|
            #![trigger spec_neighbor(m, p, d), m1.domain(q).contains(x)]
            spec_neighbor(m, p, d) == Some(q) && m1.domain(q).contains(x) ==> spec_compat(
                m.rule,
                t,
                x,
                d,
            ),
        domains_respect_commitments(m),
    ensures
        domains_respect_commitments(m1),
{
    let kp = m.index(p);
    lemma_index_bounds(m, p);
    assert forall|a: Pos, d: Direction, b: Pos, i: int|
        m1.in_bounds(a) && spec_neighbor(m1, a, d) == Some(b) && m1.entry(a) is Some && m1.entry(
            b,
        ) is None && 0 <= i < m1.domain(b).len() implies spec_compat(
        m1.rule,
        m1.entry(a)->0,
        m1.domain(b)[i],
        d,
    ) by {
        let x = m1.domain(b)[i];
        assert(m1.domain(b).contains(x));
        assert(spec_neighbor(m1, a, d) == spec_neighbor(m, a, d));
        lemma_neighbor_symmetric(m, a, d, b);
        lemma_index_bounds(m, a);
        lemma_index_bounds(m, b);
        assert(b != p);
        assert(m.index(b) != kp) by {
            if m.index(b) == m.index(p) {
                lemma_index_injective(m, b, p);
            }
        };
        assert(m.entry(b) is None);
        assert(m.domain(b).contains(x));
        if a == p {
            assert(m1.entry(a) == Some(t));
            assert(spec_compat(m.rule, t, x, d));
        } else {
            assert(m.index(a) != kp) by {
                if m.index(a) == m.index(p) {
                    lemma_index_injective(m, a, p);
                }
            };
            assert(m1.entry(a) == m.entry(a));
            let j = choose|j: int| 0 <= j < m.domain(b).len() && m.domain(b)[j] == x;
            assert(spec_compat(m.rule, m.entry(a)->0, m.domain(b)[j], d));
        }
    }
}

/// One step from an unsettled cell whose domain is still live preserves
/// both halves of the edge-flag invariant.
pub proof fn lemma_step_preserves_invariant(m: Model, s: u64, p: Pos)
    requires
        m.wf(),
        m.collapsed.len() <= usize::MAX,
        m.in_bounds(p),
        m.rule == CompatRule::EdgeFlags,
        m.entry(p) is None,
        m.domain(p).len() > 0,
        edge_consistent(m),
        domains_respect_commitments(m),
    ensures
        edge_consistent(spec_step(m, s, p).0),
        domains_respect_commitments(spec_step(m, s, p).0),
{
    let m1 = spec_step(m, s, p).0;
    lemma_index_bounds(m, p);
    lemma_step_collapsed(m, s, p);
    let i0 = spec_draw(s, m.domain(p).len());
    let t = m.domain(p)[i0 as int];
    assert(0 <= i0 < m.domain(p).len());
    assert(m1.collapsed == m.collapsed.update(m.index(p), Some(t)));
    assert forall|q: Pos, x: TileDescriptor|
        m.in_bounds(q) && #[trigger] m1.domain(q).contains(x) implies m.domain(q).contains(
        x,
    ) by {
        lemma_step_domains_shrink(m, s, p, q, x);
    }
    assert forall|d: Direction, q: Pos, x: TileDescriptor|
        #![trigger spec_neighbor(m, p, d), m1.domain(q).contains(x)]
        spec_neighbor(m, p, d) == Some(q) && m1.domain(q).contains(x) implies spec_compat(
        m.rule,
        t,
        x,
        d,
    ) by {
        lemma_step_neighbor_respects(m, s, p, d, q, x);
        assert(m1.entry(p)->0 == t);
    }
    assert(exists|i: int| 0 <= i < m.domain(p).len() && #[trigger] m.domain(p)[i] == t) by {
        assert(m.domain(p)[i0 as int] == t);
    }
    lemma_transition_edge_consistent(m, m1, p, t);
    lemma_transition_domains_respect(m, m1, p, t);
}

/// The degenerate flag is never cleared: once a run has fallen back to the
/// blank tile, the final grid reports it.
pub proof fn lemma_collapse_degenerate_monotone(m: Model, s: u64, p: Pos)
    requires
        m.collapsed.len() <= usize::MAX,
        m.degenerate,
    ensures
        spec_collapse(m, s, p).0.degenerate,
    decreases none_count(m.collapsed) + (if m.entry(p) is Some {
        1int
    } else {
        0int
    }),
{
    if m.done() || !m.wf() || !m.in_bounds(p) {
    } else {
        let stepped = spec_step(m, s, p);
        let m1 = stepped.0;
        lemma_index_bounds(m, p);
        lemma_step_collapsed(m, s, p);
        if !m1.done() {
            match spec_first_min_from(m1, 0) {
                None => {},
                Some(j) => {
                    lemma_first_min_props(m1, 0);
                    lemma_flat_to_pos(m1, j);
                    let np = spec_pos_of(m1, j);
                    assert(m1.index(np) == j);
                    assert(m1.entry(np) is None);
                    lemma_collapse_degenerate_monotone(m1, stepped.1, np);
                },
            }
        }
    }
}

/// A run under the edge-flag rule that starts with the invariant — settled
/// pairs compatible, unsettled domains respectful — and never falls back
/// to the blank tile leaves an edge-consistent grid.
pub proof fn lemma_collapse_edge_consistent(m: Model, s: u64, p: Pos)
    requires
        m.wf(),
        m.collapsed.len() <= usize::MAX,
        m.rule == CompatRule::EdgeFlags,
        edge_consistent(m),
        domains_respect_commitments(m),
        m.done() || (m.in_bounds(p) && m.entry(p) is None),
        !spec_collapse(m, s, p).0.degenerate,
    ensures
        edge_consistent(spec_collapse(m, s, p).0),
    decreases none_count(m.collapsed) + (if m.entry(p) is Some {
        1int
    } else {
        0int
    }),
{
    if m.done() || !m.wf() || !m.in_bounds(p) {
    } else {
        let stepped = spec_step(m, s, p);
        let m1 = stepped.0;
        lemma_index_bounds(m, p);
        lemma_step_collapsed(m, s, p);
        if m.domain(p).len() == 0 {
            assert(m1.degenerate);
            if !m1.done() {
                match spec_first_min_from(m1, 0) {
                    None => {},
                    Some(j) => {
                        lemma_first_min_props(m1, 0);
                        lemma_flat_to_pos(m1, j);
                        let np = spec_pos_of(m1, j);
                        assert(m1.index(np) == j);
                        assert(m1.entry(np) is None);
                        lemma_collapse_degenerate_monotone(m1, stepped.1, np);
                    },
                }
            }
            assert(false);
        } else {
            lemma_step_preserves_invariant(m, s, p);
            if !m1.done() {
                match spec_first_min_from(m1, 0) {
                    None => {},
                    Some(j) => {
                        lemma_first_min_props(m1, 0);
                        lemma_flat_to_pos(m1, j);
                        let np = spec_pos_of(m1, j);
                        assert(m1.index(np) == j);
                        assert(m1.entry(np) is None);
                        assert(m1.in_bounds(np));
                        lemma_collapse_edge_consistent(m1, stepped.1, np);
                    },
                }
            }
        }
    }
}

/// After a full run on a fresh grid under the edge-flag rule that never
/// fell back to the blank tile, every neighbouring pair of committed tiles
/// is compatible across its shared edge.
pub proof fn lemma_fresh_collapse_edge_consistent(m: Model, s: u64, p: Pos)
    requires
        m.wf(),
        m.collapsed.len() <= usize::MAX,
        m.rule == CompatRule::EdgeFlags,
        forall|k: int| 0 <= k < m.collapsed.len() ==> m.collapsed[k] is None,
        m.done() || m.in_bounds(p),
        !spec_collapse(m, s, p).0.degenerate,
    ensures
        edge_consistent(spec_collapse(m, s, p).0),
{
    assert forall|a: Pos, d: Direction, b: Pos|
        m.in_bounds(a) && spec_neighbor(m, a, d) == Some(b) && m.entry(a) is Some && m.entry(
            b,
        ) is Some implies spec_compat(m.rule, m.entry(a)->0, m.entry(b)->0, d) by {
        lemma_index_bounds(m, a);
        assert(m.entry(a) is None);
    }
    assert forall|a: Pos, d: Direction, b: Pos, i: int|
        m.in_bounds(a) && spec_neighbor(m, a, d) == Some(b) && m.entry(a) is Some && m.entry(
            b,
        ) is None && 0 <= i < m.domain(b).len() implies spec_compat(
        m.rule,
        m.entry(a)->0,
        m.domain(b)[i],
        d,
    ) by {
        lemma_index_bounds(m, a);
        assert(m.entry(a) is None);
    }
    if !m.done() {
        lemma_index_bounds(m, p);
    }
    lemma_collapse_edge_consistent(m, s, p);
}

} // verus!
