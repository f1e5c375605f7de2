use wave_collapse::grid::Generator;
use wave_collapse::rng::RandomSource;
use wave_collapse::tile::{
    catalogue, connections, kinds_contain, CompatRule, Direction, TileBuilder, TileDescriptor,
    TileKind,
};

fn cross() -> TileDescriptor {
    TileBuilder::new()
        .top()
        .right()
        .bottom()
        .left()
        .build(TileKind::Cross)
}

#[test]
fn catalogue_has_nineteen_tiles() {
    assert_eq!(19, catalogue().len());
}

#[test]
fn catalogue_descriptors_are_fixed() {
    let cat = catalogue();
    assert_eq!(TileKind::Cross, cat[0].kind);
    assert!(cat[0].top && cat[0].right && cat[0].bottom && cat[0].left);
    assert_eq!(TileKind::EndT, cat[8].kind);
    assert!(!cat[8].top && !cat[8].right && cat[8].bottom && !cat[8].left);
    assert_eq!(TileKind::TeeT, cat[18].kind);
    assert!(!cat[18].top && cat[18].right && cat[18].bottom && cat[18].left);
    // exactly ten catalogue tiles carry a bottom-connecting path
    let bottoms = cat.iter().filter(|t| t.bottom).count();
    assert_eq!(10, bottoms);
}

#[test]
fn empty_tile_has_no_edges() {
    let e = TileDescriptor::empty();
    assert_eq!(TileKind::Empty, e.kind);
    assert!(!e.top && !e.right && !e.bottom && !e.left);
}

#[test]
fn builder_declares_sides() {
    let t = TileBuilder::new().top().left().build(TileKind::CurveBrc);
    assert!(t.top && !t.right && !t.bottom && t.left);
    assert_eq!(TileKind::CurveBrc, t.kind);
}

#[test]
fn connection_lists_hold_matching_kinds() {
    let top = connections(Direction::Top);
    assert_eq!(11, top.len());
    assert!(kinds_contain(&top, TileKind::EndT));
    assert!(kinds_contain(&top, TileKind::Empty));
    assert!(!kinds_contain(&top, TileKind::EndB));
    let left = connections(Direction::Left);
    assert!(kinds_contain(&left, TileKind::EndR));
    assert!(!kinds_contain(&left, TileKind::EndL));
}

#[test]
fn opposite_directions_pair_up() {
    assert_eq!(Direction::Bottom, Direction::Top.opposite());
    assert_eq!(Direction::Top, Direction::Bottom.opposite());
    assert_eq!(Direction::Left, Direction::Right.opposite());
    assert_eq!(Direction::Right, Direction::Left.opposite());
}

#[test]
fn edge_flag_rule_compares_facing_edges() {
    let g = Generator::new(1, 1, catalogue(), CompatRule::EdgeFlags);
    let c = cross();
    let e = TileDescriptor::empty();
    let t_to_b = TileBuilder::new().top().bottom().build(TileKind::TopToBottom);
    assert!(g.compatible(&c, &t_to_b, Direction::Top));
    assert!(!g.compatible(&c, &e, Direction::Top));
    assert!(g.compatible(&e, &e, Direction::Top));
    assert!(!g.compatible(&e, &t_to_b, Direction::Top));
    let l_to_r = TileBuilder::new()
        .right()
        .left()
        .build(TileKind::LeftToRight);
    assert!(g.compatible(&c, &l_to_r, Direction::Right));
    assert!(!g.compatible(&c, &l_to_r, Direction::Top));
}

#[test]
fn edge_list_rule_lets_blanks_border_open_edges() {
    let g = Generator::new(1, 1, catalogue(), CompatRule::EdgeLists);
    let c = cross();
    let e = TileDescriptor::empty();
    let t_to_b = TileBuilder::new().top().bottom().build(TileKind::TopToBottom);
    // an open edge accepts a connecting neighbour, and also the blank tile
    assert!(g.compatible(&c, &t_to_b, Direction::Top));
    assert!(g.compatible(&c, &e, Direction::Top));
    // a closed edge accepts only a closed facing edge
    assert!(g.compatible(&e, &e, Direction::Top));
    assert!(!g.compatible(&e, &t_to_b, Direction::Top));
    // the facing edge must match the side being tested
    let end_t = TileBuilder::new().bottom().build(TileKind::EndT);
    assert!(g.compatible(&c, &end_t, Direction::Top));
    assert!(!g.compatible(&c, &end_t, Direction::Bottom));
}

#[test]
fn random_source_is_deterministic() {
    let mut a = RandomSource::new(99);
    let mut b = RandomSource::new(99);
    for n in 1..50usize {
        let x = a.next_below(n);
        let y = b.next_below(n);
        assert_eq!(x, y);
        assert!(x < n);
    }
}

#[test]
fn random_source_advances_state() {
    let mut a = RandomSource::new(0);
    let first = a.next_below(1000);
    let second = a.next_below(1000);
    let mut b = RandomSource::new(0);
    assert_eq!(first, b.next_below(1000));
    assert_eq!(second, b.next_below(1000));
}

#[test]
fn seed_zero_draws_eleven_of_nineteen() {
    // the draw that a fresh 19-tile domain sees under seed 0
    let mut r = RandomSource::new(0);
    assert_eq!(11, r.next_below(19));
}
