use game_of_life::rules::next_cell_state;
use game_of_life::{Delta, Universe};

fn grid(width: u32, height: u32, live: &[(u32, u32)]) -> Universe {
    let size = (width * height) as usize;
    let mut u = Universe::new(width, height, &vec![false; size]);
    u.set_cells(live);
    u
}

fn live_cells(u: &Universe) -> Vec<(u32, u32)> {
    let mut out = Vec::new();
    for row in 0..u.height() {
        for col in 0..u.width() {
            if u.is_alive(row, col) {
                out.push((row, col));
            }
        }
    }
    out
}

fn snapshot(u: &Universe) -> Vec<bool> {
    let mut out = Vec::new();
    for row in 0..u.height() {
        for col in 0..u.width() {
            out.push(u.is_alive(row, col));
        }
    }
    out
}

#[test]
fn rule_table() {
    assert!(!next_cell_state(true, 0));
    assert!(!next_cell_state(true, 1));
    assert!(next_cell_state(true, 2));
    assert!(next_cell_state(true, 3));
    assert!(!next_cell_state(true, 4));
    assert!(!next_cell_state(true, 8));
    assert!(!next_cell_state(false, 0));
    assert!(!next_cell_state(false, 2));
    assert!(next_cell_state(false, 3));
    assert!(!next_cell_state(false, 4));
}

#[test]
fn new_takes_seeds_in_row_major_order() {
    let seeds = vec![true, false, false, false, false, true];
    let u = Universe::new(3, 2, &seeds);
    assert_eq!(u.width(), 3);
    assert_eq!(u.height(), 2);
    assert_eq!(snapshot(&u), seeds);
    assert!(u.next_gen().is_empty());
    assert_eq!(u.get_cells().len(), 6);
}

#[test]
fn index_is_row_times_width_plus_column() {
    let u = grid(7, 4, &[]);
    assert_eq!(u.get_index(0, 0), 0);
    assert_eq!(u.get_index(0, 6), 6);
    assert_eq!(u.get_index(1, 0), 7);
    assert_eq!(u.get_index(3, 5), 26);
}

#[test]
fn neighbors_wrap_round_the_edges() {
    let u = grid(5, 5, &[(4, 4), (0, 4), (4, 0), (1, 1), (2, 2)]);
    assert_eq!(u.live_neighbor_count(0, 0), 4);
    assert_eq!(u.live_neighbor_count(2, 2), 1);
    assert_eq!(u.live_neighbor_count(3, 3), 2);
    assert_eq!(u.live_neighbor_count(4, 4), 2);
}

#[test]
fn full_grid_counts_eight() {
    let u = Universe::new(4, 4, &vec![true; 16]);
    for row in 0..4 {
        for col in 0..4 {
            assert_eq!(u.live_neighbor_count(row, col), 8);
        }
    }
}

#[test]
fn dead_grid_stays_dead() {
    let mut u = grid(6, 5, &[]);
    for _ in 0..4 {
        u.tick();
        assert!(live_cells(&u).is_empty());
        assert!(u.next_gen().is_empty());
    }
}

#[test]
fn isolated_cell_dies() {
    let mut u = grid(5, 5, &[(2, 2)]);
    u.tick();
    assert!(live_cells(&u).is_empty());
    assert_eq!(u.next_gen(), &vec![Delta::new(false, 12)]);
}

#[test]
fn survival_and_birth_on_small_torus() {
    // An L of three cells in a corner becomes a block, across the wrap.
    let mut u = grid(3, 3, &[(0, 0), (0, 2), (2, 0)]);
    assert_eq!(u.live_neighbor_count(2, 2), 3);
    u.tick();
    assert!(u.is_alive(0, 0));
    assert!(u.is_alive(2, 2));
}

#[test]
fn block_is_still() {
    let mut u = grid(6, 6, &[(1, 1), (1, 2), (2, 1), (2, 2)]);
    let before = snapshot(&u);
    u.tick();
    assert_eq!(snapshot(&u), before);
    assert!(u.next_gen().is_empty());
}

#[test]
fn blinker_has_period_two() {
    let mut u = grid(5, 5, &[(2, 1), (2, 2), (2, 3)]);
    u.tick();
    assert_eq!(live_cells(&u), vec![(1, 2), (2, 2), (3, 2)]);
    u.tick();
    assert_eq!(live_cells(&u), vec![(2, 1), (2, 2), (2, 3)]);
}

#[test]
fn blinker_across_the_wrap() {
    let mut u = grid(7, 6, &[(0, 6), (0, 0), (0, 1)]);
    u.tick();
    assert_eq!(live_cells(&u), vec![(0, 0), (1, 0), (5, 0)]);
    u.tick();
    assert_eq!(live_cells(&u), vec![(0, 0), (0, 1), (0, 6)]);
}

#[test]
fn deltas_are_exactly_the_changed_cells() {
    let mut u = grid(5, 5, &[(2, 1), (2, 2), (2, 3)]);
    let before = snapshot(&u);
    u.tick();
    let after = snapshot(&u);
    let expected = vec![
        Delta::new(true, 7),
        Delta::new(false, 11),
        Delta::new(false, 13),
        Delta::new(true, 17),
    ];
    assert_eq!(u.next_gen(), &expected);
    let mut applied = before.clone();
    for d in u.next_gen() {
        assert_ne!(before[d.index], after[d.index]);
        applied[d.index] = d.state;
    }
    assert_eq!(applied, after);
    for pair in u.next_gen().windows(2) {
        assert!(pair[0].index < pair[1].index);
    }
}

#[test]
fn deltas_are_replaced_each_tick() {
    let mut u = grid(5, 5, &[(2, 1), (2, 2), (2, 3)]);
    u.tick();
    u.tick();
    let expected = vec![
        Delta::new(false, 7),
        Delta::new(true, 11),
        Delta::new(true, 13),
        Delta::new(false, 17),
    ];
    assert_eq!(u.next_gen(), &expected);
}

#[test]
fn zero_sized_grid_ticks_to_nothing() {
    let mut u = Universe::new(0, 4, &Vec::new());
    u.tick();
    assert_eq!(u.get_cells().len(), 0);
    assert!(u.next_gen().is_empty());
}

#[test]
fn resize_width_takes_fresh_cells() {
    let mut u = grid(4, 3, &[(0, 0), (1, 1)]);
    let seeds: Vec<bool> = (0..18).map(|i| i % 5 == 0).collect();
    u.set_width(6, &seeds);
    assert_eq!(u.width(), 6);
    assert_eq!(u.height(), 3);
    assert_eq!(u.get_cells().len(), 18);
    assert_eq!(snapshot(&u), seeds);
    assert!(!u.is_alive(1, 1));
}

#[test]
fn resize_height_takes_fresh_cells() {
    let mut u = grid(4, 3, &[(0, 0)]);
    let seeds: Vec<bool> = (0..8).map(|i| i == 7).collect();
    u.set_height(2, &seeds);
    assert_eq!(u.width(), 4);
    assert_eq!(u.height(), 2);
    assert_eq!(u.get_cells().len(), 8);
    assert_eq!(snapshot(&u), seeds);
    assert!(!u.is_alive(0, 0));
}

#[test]
fn blank_kills_everything_and_clears_deltas() {
    let mut u = grid(5, 5, &[(2, 1), (2, 2), (2, 3)]);
    u.tick();
    assert!(!u.next_gen().is_empty());
    u.blank();
    assert!(live_cells(&u).is_empty());
    assert!(u.next_gen().is_empty());
    assert_eq!(u.get_cells().len(), 25);
}

#[test]
fn toggle_flips_one_cell() {
    let mut u = grid(4, 4, &[(1, 2)]);
    u.toggle_cell(1, 2);
    u.toggle_cell(3, 0);
    assert_eq!(live_cells(&u), vec![(3, 0)]);
}

#[test]
fn set_cell_writes_one_cell() {
    let mut u = grid(4, 4, &[(0, 0)]);
    u.set_cell(2, 3, true);
    u.set_cell(0, 0, false);
    assert_eq!(live_cells(&u), vec![(2, 3)]);
}

#[test]
fn set_cells_keeps_other_live_cells() {
    let mut u = grid(4, 4, &[(0, 0)]);
    u.set_cells(&[(1, 1), (3, 2), (1, 1)]);
    assert_eq!(live_cells(&u), vec![(0, 0), (1, 1), (3, 2)]);
}

#[test]
fn randomize_replaces_cells_in_place() {
    let mut u = grid(3, 3, &[(0, 0), (2, 2)]);
    let seeds = vec![false, true, false, true, false, true, false, true, false];
    u.randomize(&seeds);
    assert_eq!(snapshot(&u), seeds);
    assert_eq!(u.width(), 3);
    assert_eq!(u.height(), 3);
}

#[test]
fn cells_are_packed_in_u32_blocks() {
    let u = grid(6, 6, &[(0, 0), (0, 5), (5, 3)]);
    let words = u.cells();
    assert_eq!(words.len(), 2);
    assert_eq!(words[0], 1 | (1 << 5));
    assert_eq!(words[1], 1 << 1);
}

#[test]
fn render_draws_one_line_per_row() {
    let u = grid(3, 2, &[(0, 1), (1, 0), (1, 2)]);
    assert_eq!(u.render(), "◻◼◻\n◼◻◼\n");
}

#[test]
fn delta_new_keeps_fields() {
    let d = Delta::new(true, 42);
    assert!(d.state);
    assert_eq!(d.index, 42);
}

#[test]
fn survival_and_birth_at_the_edge_of_a_larger_torus() {
    // Cells (0, 7), (0, 0) and (5, 0) surround (5, 7) across both wraps.
    let mut u = grid(8, 6, &[(0, 7), (0, 0), (5, 0)]);
    assert_eq!(u.live_neighbor_count(5, 7), 3);
    assert_eq!(u.live_neighbor_count(0, 0), 2);
    u.tick();
    assert!(u.is_alive(5, 7));
    assert!(u.is_alive(0, 0));
}
