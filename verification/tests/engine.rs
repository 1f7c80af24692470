use std::collections::HashMap;

use life3d::cell_renderer::CellRenderer;
use life3d::cell_state::CellState;
use life3d::neighbors::NeighborMethod;
use life3d::rule::{Rule, Value};
use life3d::single_threaded::CellsSingleThreaded;
use life3d::utils::Pos;

fn offsets(method: NeighborMethod) -> Vec<(i32, i32, i32)> {
    let mut v = Vec::new();
    match method {
        NeighborMethod::Moore => {
            for dz in -1..=1 {
                for dy in -1..=1 {
                    for dx in -1..=1 {
                        if (dx, dy, dz) != (0, 0, 0) {
                            v.push((dx, dy, dz));
                        }
                    }
                }
            }
        }
        NeighborMethod::VonNeumann => {
            v = vec![(1, 0, 0), (-1, 0, 0), (0, 1, 0), (0, -1, 0), (0, 0, -1), (0, 0, 1)];
        }
    }
    v
}

/// Reads the engine's dense cell data: maps coordinate -> (value, neighbors).
fn dense_state(sim: &CellsSingleThreaded, bounds: i32) -> HashMap<(i32, i32, i32), (u8, u8)> {
    let mut renderer = CellRenderer::new();
    renderer.set_bounds(bounds);
    sim.render(&mut renderer);
    let mut out = HashMap::new();
    for z in 0..bounds {
        for y in 0..bounds {
            for x in 0..bounds {
                let idx = (x + y * bounds + z * bounds * bounds) as usize;
                let v = renderer.values[idx];
                if v != 0 {
                    out.insert((x, y, z), (v, renderer.neighbors[idx]));
                }
            }
        }
    }
    out
}

/// An independent, brute-force reference: evaluates the rule over the full
/// bounding volume and recomputes neighbor counts against the new state.
fn reference_step(
    state: &HashMap<(i32, i32, i32), (u8, u8)>,
    survival: &[u8],
    birth: &[u8],
    states: u8,
    method: NeighborMethod,
    bounds: i32,
) -> HashMap<(i32, i32, i32), (u8, u8)> {
    let offs = offsets(method);
    let count_at = |m: &HashMap<(i32, i32, i32), (u8, u8)>, p: (i32, i32, i32)| -> u8 {
        let mut n = 0;
        for o in &offs {
            let q = (p.0 + o.0, p.1 + o.1, p.2 + o.2);
            if let Some(&(v, _)) = m.get(&q) {
                if v == states {
                    n += 1;
                }
            }
        }
        n
    };
    let mut next = HashMap::new();
    for z in 0..bounds {
        for y in 0..bounds {
            for x in 0..bounds {
                let p = (x, y, z);
                let n = count_at(state, p);
                let cur = state.get(&p).map(|&(v, _)| v).unwrap_or(0);
                let nv = if cur == states && survival.contains(&n) {
                    states
                } else if cur < states && birth.contains(&n) {
                    states
                } else if cur > 0 {
                    cur - 1
                } else {
                    0
                };
                if nv > 0 {
                    next.insert(p, (nv, 0));
                }
            }
        }
    }
    let keys: Vec<(i32, i32, i32)> = next.keys().copied().collect();
    for p in keys {
        let n = count_at(&next, p);
        next.get_mut(&p).unwrap().1 = n;
    }
    next
}

fn classic_rule() -> Rule {
    Rule::new(Value::new(&[2, 3]), Value::new(&[3]), 1, NeighborMethod::Moore)
}

#[test]
fn empty_fixed_point_classic() {
    let mut sim = CellsSingleThreaded::new();
    sim.set_bounds(32);
    sim.tick(&classic_rule());
    assert_eq!(sim.cell_count(), 0);
}

#[test]
fn empty_fixed_point_zero_birth_mask() {
    // Even a rule that births on zero neighbors leaves an empty grid empty:
    // only candidates are evaluated, and an empty grid has none.
    let rule = Rule::new(Value::from_range(0, 6), Value::new(&[0, 1, 3]), 2, NeighborMethod::VonNeumann);
    let mut sim = CellsSingleThreaded::new();
    sim.set_bounds(16);
    sim.tick(&rule);
    assert_eq!(sim.cell_count(), 0);
    // And an engine that was never given bounds behaves the same.
    let mut fresh = CellsSingleThreaded::new();
    fresh.tick(&rule);
    assert_eq!(fresh.cell_count(), 0);
}

#[test]
fn empty_rule_masks_decay_to_empty() {
    // Empty survival and birth masks are legal; everything decays to nothing.
    let rule = Rule::new(Value::new(&[]), Value::new(&[]), 3, NeighborMethod::Moore);
    let mut sim = CellsSingleThreaded::new();
    sim.set_bounds(32);
    sim.spawn_noise(&rule);
    assert!(sim.cell_count() > 0);
    // Each tick decays every cell by one; after `states` ticks all are gone.
    sim.tick(&rule);
    assert!(sim.cell_count() > 0);
    sim.tick(&rule);
    sim.tick(&rule);
    assert_eq!(sim.cell_count(), 0);
}

/// Inserts a cell through the public field representation used by the engine.
fn insert_cell(sim: &mut CellsSingleThreaded, bounds: i32, p: (i32, i32, i32), value: u8) {
    let b = bounds as u64;
    let k = (p.0 as u64) + b * ((p.1 as u64) + b * (p.2 as u64));
    if !sim.states.contains_key(&k) {
        sim.keys.push(k);
    }
    sim.states.insert(k, CellState::new(value, 0));
}

#[test]
fn binary_life_blinker_three_generations() {
    let bounds = 16;
    let rule = classic_rule();
    let mut sim = CellsSingleThreaded::new();
    sim.set_bounds(bounds);
    let seed = [(7, 6, 7), (7, 7, 7), (7, 8, 7)];
    for &p in &seed {
        insert_cell(&mut sim, bounds, p, 1);
    }
    let mut reference = dense_state(&sim, bounds);

    // First generation, hand-computed: the line's ends die (one neighbor),
    // its center survives (two), and every empty cell of the 3x3 plate
    // around the center at y == 7 sees exactly three neighbors and is born.
    sim.tick(&rule);
    let gen1 = dense_state(&sim, bounds);
    let mut expected: Vec<(i32, i32, i32)> = Vec::new();
    for x in 6..=8 {
        for z in 6..=8 {
            expected.push((x, 7, z));
        }
    }
    assert_eq!(gen1.len(), expected.len());
    for p in &expected {
        assert!(gen1.contains_key(p), "missing {:?}", p);
        assert_eq!(gen1[p].0, 1);
    }

    // Two further generations, cell for cell against the brute-force
    // reference.
    reference = reference_step(&reference, &[2, 3], &[3], 1, NeighborMethod::Moore, bounds);
    assert_eq!(gen1, reference);
    for _ in 0..2 {
        sim.tick(&rule);
        reference = reference_step(&reference, &[2, 3], &[3], 1, NeighborMethod::Moore, bounds);
        assert_eq!(dense_state(&sim, bounds), reference);
    }
}

#[test]
fn sparse_dense_equivalence_twenty_trials() {
    let bounds = 16;
    let survival = [4u8];
    let birth = [4u8];
    let rule = Rule::new(Value::new(&survival), Value::new(&birth), 5, NeighborMethod::Moore);
    for _ in 0..20 {
        let mut sim = CellsSingleThreaded::new();
        sim.set_bounds(bounds);
        sim.spawn_noise(&rule);
        let before = dense_state(&sim, bounds);
        sim.tick(&rule);
        let sparse = dense_state(&sim, bounds);
        let dense = reference_step(&before, &survival, &birth, 5, NeighborMethod::Moore, bounds);
        assert_eq!(sparse, dense);
    }
}

#[test]
fn sparse_dense_equivalence_von_neumann() {
    let bounds = 16;
    let survival = [0u8, 1, 2, 3, 4, 5, 6];
    let birth = [1u8, 3];
    let rule = Rule::new(
        Value::from_range(0, 6),
        Value::new(&birth),
        2,
        NeighborMethod::VonNeumann,
    );
    for _ in 0..5 {
        let mut sim = CellsSingleThreaded::new();
        sim.set_bounds(bounds);
        sim.spawn_noise(&rule);
        let before = dense_state(&sim, bounds);
        sim.tick(&rule);
        let sparse = dense_state(&sim, bounds);
        let dense = reference_step(
            &before,
            &survival,
            &birth,
            2,
            NeighborMethod::VonNeumann,
            bounds,
        );
        assert_eq!(sparse, dense);
    }
}

#[test]
fn step_is_deterministic_and_order_independent() {
    let bounds = 16;
    let rule = Rule::new(Value::new(&[2, 6, 9]), Value::new(&[4, 6, 8, 9, 10]), 10, NeighborMethod::Moore);
    let mut sim1 = CellsSingleThreaded::new();
    sim1.set_bounds(bounds);
    sim1.spawn_noise(&rule);
    let cells = dense_state(&sim1, bounds);

    // Rebuild the same state in a second engine, inserting in reverse order.
    let mut sim2 = CellsSingleThreaded::new();
    sim2.set_bounds(bounds);
    let mut items: Vec<((i32, i32, i32), (u8, u8))> = cells.iter().map(|(&p, &c)| (p, c)).collect();
    items.sort();
    items.reverse();
    for (p, (v, _)) in items {
        insert_cell(&mut sim2, bounds, p, v);
    }

    for _ in 0..3 {
        sim1.tick(&rule);
        sim2.tick(&rule);
        assert_eq!(dense_state(&sim1, bounds), dense_state(&sim2, bounds));
    }
}

#[test]
fn resize_forgets_state() {
    let rule = classic_rule();
    let mut sim = CellsSingleThreaded::new();
    sim.set_bounds(32);
    sim.spawn_noise(&rule);
    assert!(sim.cell_count() > 0);
    let r = sim.set_bounds(64);
    assert_eq!(r, 64);
    assert_eq!(sim.bounds(), 64);
    assert_eq!(sim.cell_count(), 0);
}

#[test]
fn noop_resize_keeps_cells() {
    let rule = classic_rule();
    let mut sim = CellsSingleThreaded::new();
    sim.set_bounds(32);
    sim.spawn_noise(&rule);
    let count = sim.cell_count();
    assert!(count > 0);
    let before = dense_state(&sim, 32);
    let r = sim.set_bounds(32);
    assert_eq!(r, 32);
    assert_eq!(sim.cell_count(), count);
    assert_eq!(dense_state(&sim, 32), before);
}

#[test]
fn spawn_noise_bounds_and_radius() {
    let rule = Rule::new(Value::new(&[4]), Value::new(&[4]), 5, NeighborMethod::Moore);
    let mut sim = CellsSingleThreaded::new();
    sim.set_bounds(32);
    assert_eq!(sim.cell_count(), 0);
    sim.spawn_noise(&rule);
    let count = sim.cell_count();
    assert!(count > 0);
    assert!(count <= 1728);
    // The snapshot is center-translated, so every coordinate must lie within
    // the sampling radius of the origin, and every cell starts fully alive
    // with a zero neighbor count.
    for (p, value, neighbors) in sim.snapshot() {
        assert!(p.x.abs() <= 7 && p.y.abs() <= 7 && p.z.abs() <= 7, "{:?}", p);
        assert_eq!(value, rule.states);
        assert_eq!(neighbors, 0);
    }
}

#[test]
fn reset_clears_cells_and_keeps_bounds() {
    let rule = classic_rule();
    let mut sim = CellsSingleThreaded::new();
    sim.set_bounds(32);
    sim.spawn_noise(&rule);
    assert!(sim.cell_count() > 0);
    sim.reset();
    assert_eq!(sim.cell_count(), 0);
    assert_eq!(sim.bounds(), 32);
}

#[test]
fn neighbor_counts_match_new_generation() {
    let bounds = 16;
    let rule = Rule::new(Value::new(&[4]), Value::new(&[4]), 5, NeighborMethod::Moore);
    let mut sim = CellsSingleThreaded::new();
    sim.set_bounds(bounds);
    sim.spawn_noise(&rule);
    let offs = offsets(NeighborMethod::Moore);
    for _ in 0..3 {
        sim.tick(&rule);
        let state = dense_state(&sim, bounds);
        for (&p, &(_, stored_n)) in &state {
            let mut n = 0;
            for o in &offs {
                let q = (p.0 + o.0, p.1 + o.1, p.2 + o.2);
                if let Some(&(v, _)) = state.get(&q) {
                    if v == rule.states {
                        n += 1;
                    }
                }
            }
            assert_eq!(stored_n, n, "at {:?}", p);
        }
    }
}

#[test]
fn update_is_one_tick() {
    let bounds = 16;
    let rule = classic_rule();
    let mut sim1 = CellsSingleThreaded::new();
    sim1.set_bounds(bounds);
    for &p in &[(7, 6, 7), (7, 7, 7), (7, 8, 7)] {
        insert_cell(&mut sim1, bounds, p, 1);
    }
    let mut sim2 = CellsSingleThreaded::new();
    sim2.set_bounds(bounds);
    for &p in &[(7, 6, 7), (7, 7, 7), (7, 8, 7)] {
        insert_cell(&mut sim2, bounds, p, 1);
    }
    sim1.tick(&rule);
    sim2.update(&rule);
    assert_eq!(dense_state(&sim1, bounds), dense_state(&sim2, bounds));
}

#[test]
fn snapshot_translates_to_center() {
    let bounds = 16;
    let mut sim = CellsSingleThreaded::new();
    sim.set_bounds(bounds);
    insert_cell(&mut sim, bounds, (8, 8, 8), 3);
    insert_cell(&mut sim, bounds, (0, 0, 0), 1);
    let mut snap = sim.snapshot();
    snap.sort_by_key(|&(p, _, _)| (p.x, p.y, p.z));
    assert_eq!(snap.len(), 2);
    assert_eq!(snap[0].0, Pos { x: -8, y: -8, z: -8 });
    assert_eq!(snap[0].1, 1);
    assert_eq!(snap[1].0, Pos { x: 0, y: 0, z: 0 });
    assert_eq!(snap[1].1, 3);
}

#[test]
fn multi_state_decay_fades_over_generations() {
    // A lone cell at the top state never survives nor is reborn under the
    // classic masks; it decays one step per generation until it vanishes.
    let bounds = 16;
    let rule = Rule::new(Value::new(&[2, 3]), Value::new(&[3]), 4, NeighborMethod::Moore);
    let mut sim = CellsSingleThreaded::new();
    sim.set_bounds(bounds);
    insert_cell(&mut sim, bounds, (8, 8, 8), 4);
    for expected in [3u8, 2, 1] {
        sim.tick(&rule);
        let state = dense_state(&sim, bounds);
        assert_eq!(state.len(), 1);
        assert_eq!(state[&(8, 8, 8)].0, expected);
    }
    sim.tick(&rule);
    assert_eq!(sim.cell_count(), 0);
}
