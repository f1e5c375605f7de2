use wave_collapse::grid::{Generator, GridError, Pos};
use wave_collapse::rng::RandomSource;
use wave_collapse::tile::{
    catalogue, CompatRule, Direction, TileBuilder, TileDescriptor, TileKind,
};

fn pos(row: usize, col: usize) -> Pos {
    Pos { row, col }
}

fn default_grid(rows: usize, cols: usize) -> Generator {
    Generator::new(rows, cols, catalogue(), CompatRule::EdgeLists)
}

fn committed(g: &Generator, row: usize, col: usize) -> TileDescriptor {
    g.collapsed_cell_at(pos(row, col))
        .expect("in bounds")
        .expect("collapsed")
}

#[test]
fn grid_is_not_collapsed() {
    let g = default_grid(1, 1);
    assert_eq!(false, g.is_done());
}

#[test]
fn grid_is_collapsed() {
    let g = default_grid(0, 0);
    assert_eq!(true, g.is_done());
}

#[test]
fn empty_grids_are_vacuously_done() {
    assert!(default_grid(0, 5).is_done());
    assert!(default_grid(5, 0).is_done());
}

#[test]
fn get_cell() {
    let g = default_grid(1, 1);
    let cell = g.cell_at(pos(0, 0)).expect("in bounds");
    assert_eq!(true, cell.len() > 0);
}

#[test]
fn fresh_domain_matches_catalogue_size() {
    let g = default_grid(3, 4);
    let cell = g.cell_at(pos(2, 3)).expect("in bounds");
    assert_eq!(catalogue().len(), cell.len());
}

#[test]
fn cell_out_of_range_is_an_error() {
    let g = default_grid(2, 2);
    assert_eq!(Err(GridError::OutOfRange), g.cell_at(pos(2, 0)).map(|d| d.len()));
    assert_eq!(Err(GridError::OutOfRange), g.collapsed_cell_at(pos(0, 2)));
}

#[test]
fn get_collapsed_cell() {
    let g = default_grid(1, 1);
    let cell = g.collapsed_cell_at(pos(0, 0)).expect("in bounds");
    assert!(cell.is_none());
}

#[test]
fn get_offset_cell() {
    let g = default_grid(2, 2);
    assert!(g.neighbor_domain(pos(0, 0), Direction::Top).is_none());
    assert!(g.neighbor_domain(pos(0, 0), Direction::Left).is_none());
    assert!(g.neighbor_domain(pos(1, 0), Direction::Bottom).is_none());
    assert!(g.neighbor_domain(pos(0, 1), Direction::Right).is_none());
    assert!(g.neighbor_domain(pos(0, 0), Direction::Right).is_some());
    assert!(g.neighbor_domain(pos(0, 0), Direction::Bottom).is_some());
}

#[test]
fn collapse_cell() {
    let mut g = default_grid(1, 1);
    let mut rng = RandomSource::new(7);
    g.collapse_cell(pos(0, 0), &mut rng);
    let cell = g.collapsed_cell_at(pos(0, 0)).expect("in bounds");
    assert_eq!(true, cell.is_some());
}

#[test]
fn propagate_at_boundary_changes_nothing() {
    let mut g = default_grid(5, 5);
    let mut rng = RandomSource::new(0);
    g.collapse_cell(pos(0, 0), &mut rng);
    let before: Vec<TileDescriptor> = g.cell_at(pos(0, 0)).expect("in bounds").clone();
    g.propagate(pos(0, 0), Direction::Top);
    assert!(g.neighbor_domain(pos(0, 0), Direction::Top).is_none());
    let after = g.cell_at(pos(0, 0)).expect("in bounds");
    assert_eq!(&before, after);
    // the other cells were not touched either
    assert_eq!(19, g.cell_at(pos(0, 1)).expect("in bounds").len());
}

#[test]
fn test_propogate() {
    // seed 0 commits a tile with an open top edge at (1, 1); its top
    // neighbour then retains the ten catalogue tiles with a bottom path
    let mut g = default_grid(5, 5);
    let mut rng = RandomSource::new(0);
    g.collapse_cell(pos(1, 1), &mut rng);
    g.propagate(pos(1, 1), Direction::Top);
    let top = g.neighbor_domain(pos(1, 1), Direction::Top);
    assert_eq!(10, top.unwrap().len());
}

#[test]
fn test_next_lowest_tile() {
    let mut g = default_grid(5, 5);
    let mut rng = RandomSource::new(0);
    g.collapse_cell(pos(1, 1), &mut rng);
    g.propagate(pos(1, 1), Direction::Top);
    let next = g.lowest_entropy_uncollapsed_position();
    assert_eq!(0, next.row);
    assert_eq!(1, next.col);
}

#[test]
fn lowest_entropy_breaks_ties_in_scan_order() {
    let g = default_grid(3, 3);
    let next = g.lowest_entropy_uncollapsed_position();
    assert_eq!(pos(0, 0), next);
}

#[test]
fn test_collapse() {
    let mut g = default_grid(5, 5);
    let mut rng = RandomSource::new(1);
    g.collapse(pos(0, 0), &mut rng);
    assert!(g.is_done());
}

#[test]
fn collapse_is_deterministic() {
    let runs: Vec<Vec<Vec<Option<TileKind>>>> = (0..2)
        .map(|_| {
            let mut g = default_grid(5, 5);
            let mut rng = RandomSource::new(1234);
            g.collapse(pos(0, 0), &mut rng);
            let mut out = Vec::new();
            for r in 0..5 {
                let mut row = Vec::new();
                for c in 0..5 {
                    row.push(
                        g.collapsed_cell_at(pos(r, c))
                            .expect("in bounds")
                            .map(|t| t.kind),
                    );
                }
                out.push(row);
            }
            out
        })
        .collect();
    assert_eq!(runs[0], runs[1]);
}

#[test]
fn collapse_on_done_grid_changes_nothing() {
    let mut g = default_grid(4, 4);
    let mut rng = RandomSource::new(5);
    g.collapse(pos(0, 0), &mut rng);
    assert!(g.is_done());
    let before: Vec<Option<TileDescriptor>> = (0..4)
        .flat_map(|r| (0..4).map(move |c| (r, c)))
        .map(|(r, c)| g.collapsed_cell_at(pos(r, c)).expect("in bounds"))
        .collect();
    let mut rng2 = RandomSource::new(77);
    g.collapse(pos(2, 2), &mut rng2);
    let after: Vec<Option<TileDescriptor>> = (0..4)
        .flat_map(|r| (0..4).map(move |c| (r, c)))
        .map(|(r, c)| g.collapsed_cell_at(pos(r, c)).expect("in bounds"))
        .collect();
    assert_eq!(before, after);
    // the source was not consumed either
    assert_eq!(RandomSource::new(77), rng2);
}

#[test]
fn reset_all_restores_full_domains() {
    let mut g = default_grid(5, 5);
    let mut rng = RandomSource::new(0);
    g.collapse_cell(pos(1, 1), &mut rng);
    g.propagate(pos(1, 1), Direction::Top);
    assert_eq!(10, g.cell_at(pos(0, 1)).expect("in bounds").len());
    g.reset_all();
    assert_eq!(19, g.cell_at(pos(0, 1)).expect("in bounds").len());
    // the collapsed grid is left alone
    assert!(g
        .collapsed_cell_at(pos(1, 1))
        .expect("in bounds")
        .is_some());
}

fn cross_and_empty() -> Vec<TileDescriptor> {
    vec![
        TileBuilder::new()
            .top()
            .right()
            .bottom()
            .left()
            .build(TileKind::Cross),
        TileDescriptor::empty(),
    ]
}

fn assert_adjacent_pairs_compatible(g: &Generator, rows: usize, cols: usize) {
    for r in 0..rows {
        for c in 0..cols {
            let here = committed(g, r, c);
            if c + 1 < cols {
                let right = committed(g, r, c + 1);
                assert!(g.compatible(&here, &right, Direction::Right));
            }
            if r + 1 < rows {
                let below = committed(g, r + 1, c);
                assert!(g.compatible(&here, &below, Direction::Bottom));
            }
        }
    }
}

#[test]
fn five_by_five_run_is_edge_consistent_under_edge_flags() {
    let mut g = Generator::new(5, 5, cross_and_empty(), CompatRule::EdgeFlags);
    let mut rng = RandomSource::new(2024);
    g.collapse(pos(0, 0), &mut rng);
    assert!(g.is_done());
    assert!(!g.is_degenerate());
    assert_adjacent_pairs_compatible(&g, 5, 5);
}

#[test]
fn five_by_five_run_is_edge_consistent_under_edge_lists() {
    let mut g = Generator::new(5, 5, cross_and_empty(), CompatRule::EdgeLists);
    let mut rng = RandomSource::new(31);
    g.collapse(pos(0, 0), &mut rng);
    assert!(g.is_done());
    assert!(!g.is_degenerate());
    assert_adjacent_pairs_compatible(&g, 5, 5);
}

#[test]
fn exhausted_domain_falls_back_to_blank_and_is_flagged() {
    // a lone corner tile is incompatible with itself to the right, so the
    // second cell's domain empties and the run falls back to the blank tile
    let corner = vec![TileBuilder::new().top().right().build(TileKind::CurveBlc)];
    let mut g = Generator::new(1, 2, corner, CompatRule::EdgeFlags);
    let mut rng = RandomSource::new(0);
    g.collapse(pos(0, 0), &mut rng);
    assert!(g.is_done());
    assert!(g.is_degenerate());
    assert_eq!(TileKind::CurveBlc, committed(&g, 0, 0).kind);
    assert_eq!(TileKind::Empty, committed(&g, 0, 1).kind);
}

#[test]
fn entropy_seeded_run_completes() {
    let mut g = default_grid(6, 6);
    let mut rng = RandomSource::from_entropy();
    g.collapse(pos(0, 0), &mut rng);
    assert!(g.is_done());
}
