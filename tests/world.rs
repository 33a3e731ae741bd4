use conways::world::World;

fn world_with(width: u16, height: u16, cells: &[(u16, u16)]) -> World {
    let mut w = World::new(width, height);
    for &(r, c) in cells {
        w.toggle(r, c);
    }
    w
}

fn sorted(w: &World) -> Vec<(u16, u16)> {
    let mut v = w.alive.clone();
    v.sort();
    v
}

#[test]
fn empty_grid_stays_empty() {
    let mut w = World::new(12, 7);
    w.next_day();
    assert!(w.alive.is_empty());
    w.next_day();
    assert!(w.alive.is_empty());
}

#[test]
fn block_is_still_life() {
    let block = [(3, 3), (3, 4), (4, 3), (4, 4)];
    let mut w = world_with(10, 10, &block);
    w.next_day();
    assert_eq!(sorted(&w), block.to_vec());
}

#[test]
fn block_in_corner_is_still_life() {
    let block = [(0, 0), (0, 1), (1, 0), (1, 1)];
    let mut w = world_with(2, 2, &block);
    w.next_day();
    assert_eq!(sorted(&w), block.to_vec());
}

#[test]
fn blinker_oscillates_with_period_two() {
    let horizontal = vec![(5, 4), (5, 5), (5, 6)];
    let vertical = vec![(4, 5), (5, 5), (6, 5)];
    let mut w = world_with(10, 10, &horizontal);
    w.next_day();
    assert_eq!(sorted(&w), vertical);
    w.next_day();
    assert_eq!(sorted(&w), horizontal);
}

#[test]
fn lone_cell_dies() {
    let mut w = world_with(5, 5, &[(2, 2)]);
    w.next_day();
    assert!(w.alive.is_empty());
}

#[test]
fn three_neighbours_give_birth() {
    let mut w = world_with(3, 3, &[(0, 0), (0, 1), (1, 0)]);
    w.next_day();
    assert_eq!(sorted(&w), vec![(0, 0), (0, 1), (1, 0), (1, 1)]);
}

#[test]
fn border_does_not_wrap() {
    let mut w = world_with(3, 3, &[(0, 0), (0, 1), (0, 2)]);
    w.next_day();
    assert_eq!(sorted(&w), vec![(0, 1), (1, 1)]);
}

#[test]
fn crowded_cell_dies() {
    // the centre has four live neighbours
    let mut w = world_with(3, 3, &[(0, 1), (1, 0), (1, 1), (1, 2), (2, 1)]);
    w.next_day();
    assert!(!w.is_alive(1, 1));
    assert!(w.is_alive(0, 0));
}

#[test]
fn toggle_twice_restores_cell() {
    let mut w = world_with(8, 8, &[(2, 3)]);
    w.toggle(2, 3);
    assert!(!w.is_alive(2, 3));
    w.toggle(2, 3);
    assert!(w.is_alive(2, 3));
    w.toggle(6, 1);
    w.toggle(6, 1);
    assert!(!w.is_alive(6, 1));
    assert_eq!(sorted(&w), vec![(2, 3)]);
}

#[test]
fn toggle_outside_grid_is_ignored() {
    let mut w = World::new(4, 4);
    w.toggle(4, 0);
    w.toggle(0, 4);
    assert!(w.alive.is_empty());
}

#[test]
fn clear_removes_every_cell() {
    let mut w = world_with(5, 5, &[(1, 1), (2, 2)]);
    w.clear();
    assert!(w.alive.is_empty());
    assert_eq!((w.width, w.height), (5, 5));
}

#[test]
fn prune_after_shrinking_removes_only_out_of_range() {
    let w = world_with(10, 10, &[(1, 1), (8, 8), (2, 9), (4, 4), (9, 0)]);
    let mut w = w.width(5).height(5);
    assert_eq!(w.alive.len(), 5);
    w.prune();
    assert_eq!(sorted(&w), vec![(1, 1), (4, 4)]);
}

#[test]
fn builders_set_the_size() {
    let w = World::new(1, 1).width(40).height(30);
    assert_eq!((w.width, w.height), (40, 30));
}

#[test]
fn pulsar_fills_its_box() {
    let w = World::pulsar(20, 20);
    assert_eq!(w.alive.len(), 48);
    assert!(w.is_alive(2, 4));
    assert!(w.is_alive(4, 2));
    assert!(!w.is_alive(2, 2));
    let small = World::pulsar(5, 5);
    assert_eq!(sorted(&small), vec![(2, 4), (4, 2)]);
}

#[test]
fn pulsar_has_period_three() {
    let start = World::pulsar(17, 17);
    let mut w = World::pulsar(17, 17);
    w.next_day();
    assert_ne!(sorted(&w), sorted(&start));
    w.next_day();
    w.next_day();
    assert_eq!(sorted(&w), sorted(&start));
}

#[test]
fn cell_rows_show_live_cells() {
    let w = world_with(4, 3, &[(0, 1), (2, 3)]);
    let rows = w.cell_rows(3, 4);
    assert_eq!(
        rows,
        vec![
            vec![false, true, false, false],
            vec![false, false, false, false],
            vec![false, false, false, true],
        ]
    );
}

#[test]
fn alive_to_string_joins_pairs() {
    let mut w = World::new(400, 400);
    w.toggle(1, 2);
    w.toggle(10, 300);
    w.toggle(0, 0);
    assert_eq!(w.alive_to_string(), "1,2:10,300:0,0");
    assert_eq!(World::new(3, 3).alive_to_string(), "");
}
