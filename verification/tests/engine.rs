use energy_grid::engine::injection_target;
use energy_grid::engine::MainState;
use energy_grid::engine::HEIGHT;
use energy_grid::engine::WIDTH;
use energy_grid::grid::GridState;
use energy_grid::particle::Particle;
use energy_grid::particle::MAX_COLOR_INDEX;
use energy_grid::reaction::DECAY_PERIOD;
use energy_grid::reaction::DISCHARGE_PERIOD;

/// A simulation of a `width` by `height` grid whose particles hold the given
/// energies and colours, row by row.
fn state_of(width: usize, height: usize, cells: &[(u8, usize)]) -> MainState {
    assert_eq!(cells.len(), width * height);
    let mut grid = GridState::new(width, height);
    for (i, (energy, color)) in cells.iter().enumerate() {
        grid.set_particle(i, *energy, *color);
    }
    MainState::with_grid(grid)
}

fn cells_of(state: &MainState) -> Vec<(u8, usize)> {
    (0..state.grid.len())
        .map(|i| {
            let p = state.grid.particle(i);
            assert_eq!(p.index, i);
            (p.energy, p.color)
        })
        .collect()
}

fn dark(count: usize) -> Vec<(u8, usize)> {
    vec![(0, 0); count]
}

#[test]
fn cadences() {
    assert_eq!(DISCHARGE_PERIOD, 20);
    assert_eq!(DECAY_PERIOD, 30);
}

#[test]
fn new_state_has_the_default_grid() {
    let state = MainState::new();
    assert_eq!(WIDTH, 132);
    assert_eq!(HEIGHT, 99);
    assert_eq!(state.grid.width(), 132);
    assert_eq!(state.grid.height(), 99);
    assert_eq!(state.grid.len(), 132 * 99);
    assert!(state.grid.is_quiescent());
    for i in 0..state.grid.len() {
        let p = state.grid.particle(i);
        assert!(p.energy >= 2 && p.energy <= 3);
        assert_eq!(p.index, i);
    }
}

#[test]
fn lone_discharge_end_to_end() {
    let mut cells = dark(12);
    cells[5] = (5, 0);
    let mut state = state_of(4, 3, &cells);
    assert!(state.can_discharge());
    state.update_particles();

    let left = state.grid.left_particle(5);
    let right = state.grid.right_particle(5);
    let up = state.grid.up_particle(5);
    let down = state.grid.down_particle(5);
    assert_eq!((left, right, up, down), (4, 6, 1, 9));

    assert_eq!(state.grid.particle(5), Particle { energy: 0, color: MAX_COLOR_INDEX, index: 5 });
    for q in [left, right, up, down] {
        assert_eq!(state.grid.particle(q), Particle { energy: 1, color: 1, index: q });
    }
    for i in [0, 2, 3, 7, 8, 10, 11] {
        assert_eq!(state.grid.particle(i), Particle { energy: 0, color: 0, index: i });
    }
}

#[test]
fn every_lone_particle_over_threshold_is_reset() {
    for lone in 0..12 {
        let mut cells: Vec<(u8, usize)> = (0..12).map(|i| ((i % 5) as u8, i % 3)).collect();
        cells[lone] = (9, 1);
        let mut state = state_of(4, 3, &cells);
        assert!(state.can_discharge());
        state.update_particles();
        assert_eq!(
            state.grid.particle(lone),
            Particle { energy: 0, color: MAX_COLOR_INDEX, index: lone }
        );
    }
}

#[test]
fn neighbors_of_a_lone_discharge_gain_one_unit_and_follow_in_color() {
    let mut cells = dark(12);
    cells[1] = (2, 0);
    cells[4] = (3, 2);
    cells[6] = (4, 4);
    cells[9] = (0, 3);
    cells[5] = (5, 2);
    cells[0] = (4, 1);
    cells[11] = (1, 2);
    let mut state = state_of(4, 3, &cells);
    state.update_particles();
    let after = cells_of(&state);
    assert_eq!(after[1], (3, 3));
    assert_eq!(after[4], (4, 4));
    assert_eq!(after[6], (5, 4));
    assert_eq!(after[9], (1, 1));
    assert_eq!(after[5], (0, 4));
    assert_eq!(after[0], (4, 1));
    assert_eq!(after[11], (1, 2));
    for i in [2, 3, 7, 8, 10] {
        assert_eq!(after[i], (0, 0));
    }
}

#[test]
fn energy_at_threshold_does_not_discharge() {
    let mut cells = dark(12);
    cells[5] = (4, 0);
    let mut state = state_of(4, 3, &cells);
    state.update_particles();
    assert_eq!(cells_of(&state), cells);
}

#[test]
fn units_from_several_discharges_add_up() {
    // Cells 4 and 6 flank cell 5; cells 1 and 9 are above and below it.
    let mut cells = dark(12);
    cells[4] = (5, 0);
    cells[6] = (5, 0);
    cells[1] = (5, 0);
    cells[9] = (5, 0);
    let mut state = state_of(4, 3, &cells);
    state.update_particles();
    let after = cells_of(&state);
    assert_eq!(after[5], (4, 4));
    assert_eq!(after[4], (0, 4));
    assert_eq!(after[6], (0, 4));
    assert_eq!(after[9], (0, 4));
    // In a grid three rows high cell 9 is also above cell 1, which has
    // fired by the time cell 9 does and keeps the unit that it is sent.
    assert_eq!(after[1], (1, 1));
    // Cell 0 is left of 1 and above 4; cell 2 is right of 1 and above 6.
    assert_eq!(after[0], (2, 2));
    assert_eq!(after[2], (2, 2));
    // Cell 7 is right of 6 and, over the edge, left of 4.
    assert_eq!(after[7], (2, 2));
    assert_eq!(after[8], (2, 2));
    assert_eq!(after[10], (2, 2));
    assert_eq!(after[3], (0, 0));
    assert_eq!(after[11], (0, 0));
}

#[test]
fn increments_are_not_clamped() {
    let mut cells = dark(12);
    cells[5] = (4, 0);
    cells[4] = (5, 0);
    cells[6] = (7, 0);
    cells[1] = (200, 0);
    let mut state = state_of(4, 3, &cells);
    state.update_particles();
    let after = cells_of(&state);
    assert_eq!(after[5], (7, 4));
    // Only the snapshot decides who fires: cell 5 went over the threshold
    // during the pass and has to wait for the next one.
    assert_eq!(state.grid.over_energy_limit_indexes(), vec![5]);
}

#[test]
fn adjacent_discharges_fire_in_ascending_order() {
    let mut cells = dark(12);
    cells[5] = (5, 0);
    cells[6] = (6, 0);
    let mut state = state_of(4, 3, &cells);
    state.update_particles();
    let after = cells_of(&state);
    // Cell 5 fires first and is then sent one unit by cell 6.
    assert_eq!(after[5], (1, 1));
    // Cell 6 is sent a unit by cell 5, then fires and loses it.
    assert_eq!(after[6], (0, 4));
    assert_eq!(after[4], (1, 1));
    assert_eq!(after[7], (1, 1));
    assert_eq!(after[1], (1, 1));
    assert_eq!(after[9], (1, 1));
    assert_eq!(after[2], (1, 1));
    assert_eq!(after[10], (1, 1));
}

#[test]
fn single_cell_feeds_itself_four_times() {
    let mut state = state_of(1, 1, &[(9, 2)]);
    state.update_particles();
    assert_eq!(cells_of(&state), vec![(4, 4)]);
}

#[test]
fn two_columns_reach_the_same_neighbor_twice() {
    let mut cells = dark(6);
    cells[2] = (5, 0);
    let mut state = state_of(2, 3, &cells);
    state.update_particles();
    let after = cells_of(&state);
    assert_eq!(after[2], (0, 4));
    assert_eq!(after[3], (2, 2));
    assert_eq!(after[0], (1, 1));
    assert_eq!(after[4], (1, 1));
    assert_eq!(after[1], (0, 0));
    assert_eq!(after[5], (0, 0));
}

#[test]
fn can_discharge_sees_an_energy_that_would_overflow() {
    let mut cells = dark(12);
    cells[5] = (5, 0);
    cells[6] = (255, 0);
    let state = state_of(4, 3, &cells);
    assert!(!state.can_discharge());
    assert!(!state.can_update(20));
    // Off the discharge ticks the grid is quiescent, and the injection could
    // fall on the full particle.
    assert!(!state.can_update(21));
    cells[0] = (0, 1);
    let state = state_of(4, 3, &cells);
    assert!(!state.can_update(20));
    assert!(state.can_update(21));

    // The other way round the full particle fires first and nothing overflows.
    let mut cells = dark(12);
    cells[5] = (255, 0);
    cells[6] = (5, 0);
    let mut state = state_of(4, 3, &cells);
    assert!(state.can_discharge());
    state.update_particles();
    let after = cells_of(&state);
    assert_eq!(after[5], (1, 1));
    assert_eq!(after[6], (0, 4));

    let mut cells = dark(12);
    cells[1] = (5, 0);
    cells[4] = (5, 0);
    cells[5] = (254, 0);
    let state = state_of(4, 3, &cells);
    assert!(!state.can_discharge());
    cells[5] = (253, 0);
    let state = state_of(4, 3, &cells);
    assert!(state.can_discharge());
}

#[test]
fn decay_darkens_by_one_and_keeps_energy() {
    let cells: Vec<(u8, usize)> = vec![(0, 4), (9, 3), (2, 2), (255, 1), (7, 0), (3, 4)];
    let mut state = state_of(3, 2, &cells);
    state.decay();
    assert_eq!(cells_of(&state), vec![(0, 3), (9, 2), (2, 1), (255, 0), (7, 0), (3, 3)]);
    state.decay();
    state.decay();
    state.decay();
    assert_eq!(cells_of(&state), vec![(0, 0), (9, 0), (2, 0), (255, 0), (7, 0), (3, 0)]);
    state.decay();
    assert_eq!(cells_of(&state), vec![(0, 0), (9, 0), (2, 0), (255, 0), (7, 0), (3, 0)]);
}

#[test]
fn injection_target_is_the_draw_modulo_the_count() {
    assert_eq!(injection_target(0, 12), 0);
    assert_eq!(injection_target(11, 12), 11);
    assert_eq!(injection_target(12, 12), 0);
    assert_eq!(injection_target(17, 12), 5);
    assert_eq!(injection_target(u32::MAX, 12), 3);
    assert_eq!(injection_target(u32::MAX, 1), 0);
    assert_eq!(injection_target(1000, 13068), 1000);
}

#[test]
fn inject_adds_one_unit_where_the_draw_falls() {
    let cells: Vec<(u8, usize)> = (0..12).map(|i| (i as u8, 0)).collect();
    let mut state = state_of(4, 3, &cells);
    state.inject(17);
    let mut expected = cells.clone();
    expected[5] = (6, 0);
    assert_eq!(cells_of(&state), expected);
    state.inject(5);
    expected[5] = (7, 0);
    assert_eq!(cells_of(&state), expected);
}

#[test]
fn add_energy_feeds_exactly_one_particle_of_a_quiescent_grid() {
    for _ in 0..50 {
        let cells: Vec<(u8, usize)> = (0..12).map(|i| ((i * 3) as u8, 0)).collect();
        let mut state = state_of(4, 3, &cells);
        assert!(state.can_add_energy());
        state.add_energy();
        let after = cells_of(&state);
        let changed: Vec<usize> = (0..12).filter(|&i| after[i] != cells[i]).collect();
        assert_eq!(changed.len(), 1);
        let i = changed[0];
        assert_eq!(after[i], (cells[i].0 + 1, 0));
    }
}

#[test]
fn add_energy_reaches_every_cell() {
    let mut state = state_of(2, 2, &dark(4));
    for _ in 0..400 {
        state.add_energy();
    }
    let after = cells_of(&state);
    let total: u32 = after.iter().map(|c| c.0 as u32).sum();
    assert_eq!(total, 400);
    for cell in after {
        assert!(cell.0 > 0);
        assert_eq!(cell.1, 0);
    }
}

#[test]
fn add_energy_waits_while_anything_glows() {
    let mut cells: Vec<(u8, usize)> = (0..12).map(|i| (i as u8, 0)).collect();
    cells[7] = (7, 1);
    let mut state = state_of(4, 3, &cells);
    for _ in 0..20 {
        state.add_energy();
    }
    assert_eq!(cells_of(&state), cells);
}

#[test]
fn can_add_energy_sees_a_full_particle_in_a_quiescent_grid() {
    let mut cells = dark(12);
    cells[9] = (255, 0);
    let state = state_of(4, 3, &cells);
    assert!(!state.can_add_energy());
    assert!(!state.can_update(1));
    // At a discharge tick the full particle fires before the injection.
    assert!(state.can_update(20));

    cells[3] = (0, 1);
    let state = state_of(4, 3, &cells);
    assert!(state.can_add_energy());
    assert!(state.can_update(1));
    // At a decay tick the last glow fades before the injection.
    assert!(!state.can_update(30));

    cells[3] = (0, 2);
    let state = state_of(4, 3, &cells);
    assert!(state.can_update(30));
}

#[test]
fn advance_runs_the_passes_that_are_due() {
    let mut cells = dark(12);
    cells[5] = (5, 0);
    cells[0] = (1, 3);

    // Neither pass is due.
    for ticks in [1usize, 7, 19, 29, 31, 59] {
        let mut state = state_of(4, 3, &cells);
        state.advance(ticks);
        assert_eq!(cells_of(&state), cells);
    }

    // Only the decay pass is due.
    for ticks in [30usize, 90, 150] {
        let mut state = state_of(4, 3, &cells);
        state.advance(ticks);
        let mut expected = cells.clone();
        expected[0] = (1, 2);
        assert_eq!(cells_of(&state), expected);
    }

    // Only the discharge pass is due.
    for ticks in [20usize, 40, 80, 100] {
        let mut state = state_of(4, 3, &cells);
        state.advance(ticks);
        let mut expected = cells.clone();
        expected[5] = (0, 4);
        for q in [4, 6, 1, 9] {
            expected[q] = (1, 1);
        }
        assert_eq!(cells_of(&state), expected);
    }

    // Both are due: the discharge pass comes first, the decay pass second.
    for ticks in [0usize, 60, 120] {
        let mut state = state_of(4, 3, &cells);
        state.advance(ticks);
        let mut expected = cells.clone();
        expected[0] = (1, 2);
        expected[5] = (0, 3);
        for q in [4, 6, 1, 9] {
            expected[q] = (1, 0);
        }
        assert_eq!(cells_of(&state), expected);
    }
}

#[test]
fn update_injects_after_the_passes() {
    // Quiescent before and after the passes of tick 7: one unit arrives.
    let mut state = state_of(4, 3, &dark(12));
    assert!(state.can_update(7));
    state.update(7);
    let after = cells_of(&state);
    assert_eq!(after.iter().map(|c| c.0 as u32).sum::<u32>(), 1);
    assert!(after.iter().all(|c| c.1 == 0));

    // The discharge of tick 20 leaves a glow: nothing is injected.
    let mut cells = dark(12);
    cells[5] = (5, 0);
    let mut state = state_of(4, 3, &cells);
    assert!(state.can_update(20));
    state.update(20);
    let mut expected = cells.clone();
    expected[5] = (0, 4);
    for q in [4, 6, 1, 9] {
        expected[q] = (1, 1);
    }
    assert_eq!(cells_of(&state), expected);

    // The decay of tick 30 puts out the last glow: one unit arrives.
    let mut cells = dark(12);
    cells[2] = (0, 1);
    let mut state = state_of(4, 3, &cells);
    assert!(state.can_update(30));
    state.update(30);
    let after = cells_of(&state);
    assert_eq!(after.iter().map(|c| c.0 as u32).sum::<u32>(), 1);
    assert!(after.iter().all(|c| c.1 == 0));
}

#[test]
fn a_chain_reaction_runs_over_several_passes() {
    let mut cells = dark(12);
    cells[5] = (5, 0);
    cells[6] = (4, 0);
    let mut state = state_of(4, 3, &cells);
    state.update_particles();
    assert_eq!(state.grid.over_energy_limit_indexes(), vec![6]);
    state.update_particles();
    let after = cells_of(&state);
    assert_eq!(after[6], (0, 4));
    assert_eq!(after[5], (1, 1));
    assert_eq!(after[7], (1, 1));
    assert_eq!(after[2], (1, 1));
    assert_eq!(after[10], (1, 1));
    assert!(state.grid.over_energy_limit_indexes().is_empty());
}

#[test]
fn the_default_grid_runs_for_many_ticks() {
    let mut state = MainState::new();
    for ticks in 0..300usize {
        assert!(state.can_update(ticks));
        state.update(ticks);
        for i in 0..state.grid.len() {
            let p = state.grid.particle(i);
            assert!(p.color <= MAX_COLOR_INDEX);
            assert_eq!(p.index, i);
        }
    }
}

#[test]
fn single_column_feeds_itself_twice() {
    let mut cells = dark(3);
    cells[1] = (5, 0);
    let mut state = state_of(1, 3, &cells);
    state.update_particles();
    // Cell 1 is its own left and right neighbour.
    assert_eq!(cells_of(&state), vec![(1, 1), (2, 2), (1, 1)]);
}

#[test]
fn discharge_resets_exactly_the_particles_that_nothing_reaches_afterwards() {
    // Cells 0 and 10 fire far from each other, cells 5 and 6 side by side.
    let mut cells = dark(12);
    cells[0] = (9, 2);
    cells[10] = (5, 0);
    cells[5] = (6, 1);
    cells[6] = (7, 3);
    let mut state = state_of(4, 3, &cells);
    assert!(state.can_discharge());
    state.update_particles();
    let after = cells_of(&state);
    assert_eq!(after[0], (0, 4));
    // Cell 10 is below cell 6, which fires before it.
    assert_eq!(after[10], (0, 4));
    // Cell 6 fires after cell 5 and sends it a unit.
    assert_eq!(after[5], (1, 1));
    // Cell 6 is sent a unit by cell 10, which fires after it.
    assert_eq!(after[6], (1, 1));
}
