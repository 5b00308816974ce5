use falling_sand::{Element, Simulation, Size, StateChange};

fn grid(width: usize, height: usize) -> Simulation {
    Simulation::new(Size { width, height })
}

fn change(state_index: usize, new_element: Element) -> StateChange {
    StateChange { state_index, new_element }
}

fn column(sim: &Simulation, x: usize) -> Vec<Element> {
    (0..sim.get_size().height).map(|y| sim.get_element(x, y)).collect()
}

#[test]
fn new_grid_is_all_air_with_nothing_pending() {
    let sim = grid(4, 3);
    assert_eq!(sim.get_size().width, 4);
    assert_eq!(sim.get_size().height, 3);
    assert!(sim.get_state_changes().is_empty());
    for y in 0..3 {
        for x in 0..4 {
            assert_eq!(sim.get_element(x, y), Element::Air);
        }
    }
}

#[test]
fn default_element_is_air() {
    assert_eq!(Element::default(), Element::Air);
}

#[test]
fn placing_sand_queues_one_change_and_leaves_grid() {
    let mut sim = grid(4, 3);
    sim.add_sand(2, 1);
    assert_eq!(sim.get_state_changes(), &vec![change(6, Element::Sand)]);
    assert_eq!(sim.get_element(2, 1), Element::Air);
}

#[test]
fn placing_sand_twice_before_a_tick_queues_duplicates() {
    let mut sim = grid(3, 4);
    sim.add_sand(1, 0);
    sim.add_sand(1, 0);
    assert_eq!(
        sim.get_state_changes(),
        &vec![change(1, Element::Sand), change(1, Element::Sand)]
    );

    // Both records see the cell below still empty, so both ask for the fall.
    sim.tick();
    assert_eq!(
        sim.get_state_changes(),
        &vec![
            change(1, Element::Air),
            change(4, Element::Sand),
            change(1, Element::Air),
            change(4, Element::Sand),
        ]
    );
    assert_eq!(column(&sim, 1), vec![Element::Sand, Element::Air, Element::Air, Element::Air]);

    sim.tick();
    assert_eq!(
        sim.get_state_changes(),
        &vec![
            change(4, Element::Air),
            change(7, Element::Sand),
            change(4, Element::Air),
            change(7, Element::Sand),
        ]
    );
    assert_eq!(column(&sim, 1), vec![Element::Air, Element::Sand, Element::Air, Element::Air]);
}

#[test]
fn grain_falls_one_row_per_tick_then_rests() {
    let (width, height) = (3, 5);
    let (x, y) = (2, 1);
    let mut sim = grid(width, height);
    sim.add_sand(x, y);
    for k in 1..(height - y) {
        sim.tick();
        assert_eq!(
            sim.get_state_changes(),
            &vec![
                change((y + k - 1) * width + x, Element::Air),
                change((y + k) * width + x, Element::Sand),
            ]
        );
        assert_eq!(sim.get_element(x, y + k - 1), Element::Sand);
    }
    sim.tick();
    assert!(sim.get_state_changes().is_empty());
    let mut expected = vec![Element::Air; height];
    expected[height - 1] = Element::Sand;
    assert_eq!(column(&sim, x), expected);
    for _ in 0..3 {
        sim.tick();
        assert!(sim.get_state_changes().is_empty());
        assert_eq!(column(&sim, x), expected);
    }
}

#[test]
fn grain_on_bottom_row_rests_after_one_tick() {
    let mut sim = grid(2, 2);
    sim.add_sand(0, 1);
    sim.tick();
    assert!(sim.get_state_changes().is_empty());
    assert_eq!(column(&sim, 0), vec![Element::Air, Element::Sand]);
}

#[test]
fn grains_resting_on_a_barrier_do_not_move() {
    let mut sim = grid(3, 3);
    // The barrier: a grain on the bottom row, at rest.
    sim.add_sand(1, 2);
    sim.tick();
    assert!(sim.get_state_changes().is_empty());
    // Two grains above it, the lower one requested first.
    sim.add_sand(1, 1);
    sim.add_sand(1, 0);
    sim.tick();
    assert!(sim.get_state_changes().is_empty());
    let all_sand = vec![Element::Sand, Element::Sand, Element::Sand];
    assert_eq!(column(&sim, 1), all_sand);
    for _ in 0..4 {
        sim.tick();
        assert!(sim.get_state_changes().is_empty());
        assert_eq!(column(&sim, 1), all_sand);
    }
    assert_eq!(column(&sim, 0), vec![Element::Air; 3]);
    assert_eq!(column(&sim, 2), vec![Element::Air; 3]);
}

#[test]
fn upper_grain_requested_first_is_lost_by_the_ordered_writes() {
    let mut sim = grid(1, 3);
    sim.add_sand(0, 2);
    sim.tick();
    sim.add_sand(0, 0);
    sim.add_sand(0, 1);
    // The upper record still sees air below it and asks to fall; the lower
    // one then lands on the barrier.
    sim.tick();
    assert_eq!(
        sim.get_state_changes(),
        &vec![change(0, Element::Air), change(1, Element::Sand)]
    );
    // The fall clears the upper cell, and the target is already sand.
    sim.tick();
    assert!(sim.get_state_changes().is_empty());
    assert_eq!(column(&sim, 0), vec![Element::Air, Element::Sand, Element::Sand]);
}

#[test]
fn clearing_under_a_grain_pulls_it_down() {
    let mut sim = grid(2, 3);
    sim.add_sand(0, 2);
    sim.tick();
    sim.add_sand(0, 1);
    sim.tick();
    assert_eq!(column(&sim, 0), vec![Element::Air, Element::Sand, Element::Sand]);

    sim.add_air(0, 2);
    assert_eq!(sim.get_state_changes(), &vec![change(4, Element::Air)]);
    sim.tick();
    assert_eq!(
        sim.get_state_changes(),
        &vec![change(2, Element::Air), change(4, Element::Sand)]
    );
    assert_eq!(column(&sim, 0), vec![Element::Air, Element::Sand, Element::Air]);
    sim.tick();
    assert!(sim.get_state_changes().is_empty());
    assert_eq!(column(&sim, 0), vec![Element::Air, Element::Air, Element::Sand]);
}

#[test]
fn clearing_a_lone_resting_grain_removes_it() {
    let mut sim = grid(2, 2);
    sim.add_sand(1, 0);
    sim.add_air(1, 0);
    assert_eq!(sim.get_state_changes().len(), 1);
    let mut settled = grid(2, 2);
    settled.add_sand(1, 1);
    settled.tick();
    settled.add_air(1, 1);
    settled.tick();
    assert!(settled.get_state_changes().is_empty());
    assert_eq!(column(&settled, 1), vec![Element::Air, Element::Air]);
}

#[test]
fn placing_the_present_element_is_a_no_op() {
    let mut sim = grid(3, 3);
    sim.add_air(1, 1);
    assert!(sim.get_state_changes().is_empty());
    sim.add_sand(1, 2);
    sim.tick();
    assert!(sim.get_state_changes().is_empty());
    sim.add_sand(1, 2);
    assert!(sim.get_state_changes().is_empty());
    sim.add_air(0, 0);
    assert_eq!(sim.get_state_changes().len(), 0);
}

#[test]
fn tick_with_nothing_pending_changes_nothing() {
    let mut sim = grid(3, 2);
    sim.tick();
    assert!(sim.get_state_changes().is_empty());
    for y in 0..2 {
        for x in 0..3 {
            assert_eq!(sim.get_element(x, y), Element::Air);
        }
    }
    sim.add_sand(2, 1);
    sim.tick();
    sim.tick();
    assert!(sim.get_state_changes().is_empty());
    assert_eq!(sim.get_element(2, 1), Element::Sand);
    assert_eq!(sim.get_element(0, 0), Element::Air);
}

#[test]
fn index_to_x_and_y_inverts_row_major_index() {
    let sim = grid(7, 5);
    for index in 0..35 {
        let (x, y) = sim.index_to_x_and_y(index);
        assert!(x < 7 && y < 5);
        assert_eq!(y * 7 + x, index);
    }
    assert_eq!(sim.index_to_x_and_y(0), (0, 0));
    assert_eq!(sim.index_to_x_and_y(6), (6, 0));
    assert_eq!(sim.index_to_x_and_y(7), (0, 1));
    assert_eq!(sim.index_to_x_and_y(34), (6, 4));
}

#[test]
fn single_column_grid_drops_to_the_floor() {
    let mut sim = grid(1, 4);
    sim.add_sand(0, 0);
    for _ in 0..4 {
        sim.tick();
    }
    assert!(sim.get_state_changes().is_empty());
    assert_eq!(column(&sim, 0), vec![Element::Air, Element::Air, Element::Air, Element::Sand]);
}
