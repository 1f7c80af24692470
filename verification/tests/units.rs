use life3d::cell_renderer::CellRenderer;
use life3d::cell_state::CellState;
use life3d::neighbors::NeighborMethod;
use life3d::rule::{Rule, Value};
use life3d::utils::{center, idx_to_pos, pos_to_idx, Pos};

#[test]
fn value_new_sets_exactly_the_listed_counts() {
    let v = Value::new(&[2, 6, 9]);
    for n in 0..27u8 {
        assert_eq!(v.get(n), n == 2 || n == 6 || n == 9);
    }
    let none = Value::new(&[]);
    for n in 0..27u8 {
        assert!(!none.get(n));
    }
}

#[test]
fn value_new_duplicates_are_idempotent() {
    let v = Value::new(&[4, 4, 4]);
    for n in 0..27u8 {
        assert_eq!(v.get(n), n == 4);
    }
}

#[test]
fn value_from_range_sets_the_inclusive_range() {
    let v = Value::from_range(0, 6);
    for n in 0..27u8 {
        assert_eq!(v.get(n), n <= 6);
    }
    let hi = Value::from_range(9, 26);
    for n in 0..27u8 {
        assert_eq!(hi.get(n), n >= 9);
    }
    let empty = Value::from_range(7, 3);
    for n in 0..27u8 {
        assert!(!empty.get(n));
    }
}

#[test]
fn rule_new_keeps_its_parts() {
    let rule = Rule::new(
        Value::new(&[2, 3]),
        Value::new(&[3]),
        10,
        NeighborMethod::VonNeumann,
    );
    assert_eq!(rule.states, 10);
    assert!(rule.neighbor_method == NeighborMethod::VonNeumann);
    assert!(rule.survival_rule.get(2) && rule.survival_rule.get(3));
    assert!(!rule.survival_rule.get(4));
    assert!(rule.birth_rule.get(3) && !rule.birth_rule.get(2));
}

#[test]
fn rule_equality_is_structural() {
    let a = Rule::new(Value::new(&[2, 3]), Value::new(&[3]), 2, NeighborMethod::Moore);
    let b = Rule::new(Value::new(&[3, 2]), Value::new(&[3]), 2, NeighborMethod::Moore);
    let c = Rule::new(Value::new(&[2, 3]), Value::new(&[3]), 3, NeighborMethod::Moore);
    assert!(a == b);
    assert!(a != c);
}

#[test]
fn cell_state_new_keeps_fields() {
    let c = CellState::new(5, 13);
    assert_eq!(c.value, 5);
    assert_eq!(c.neighbors, 13);
}

#[test]
fn moore_has_26_offsets_von_neumann_6() {
    let moore = NeighborMethod::Moore.get_neighbor_iter();
    assert_eq!(moore.len(), 26);
    for o in &moore {
        assert!((-1..=1).contains(&o.x) && (-1..=1).contains(&o.y) && (-1..=1).contains(&o.z));
        assert!(!(o.x == 0 && o.y == 0 && o.z == 0));
    }
    // All distinct, and closed under negation.
    for (i, a) in moore.iter().enumerate() {
        for (j, b) in moore.iter().enumerate() {
            if i != j {
                assert!(a != b);
            }
        }
        assert!(moore.contains(&Pos { x: -a.x, y: -a.y, z: -a.z }));
    }
    let vn = NeighborMethod::VonNeumann.get_neighbor_iter();
    assert_eq!(vn.len(), 6);
    for o in &vn {
        assert_eq!(o.x.abs() + o.y.abs() + o.z.abs(), 1);
    }
}

#[test]
fn pos_index_roundtrip_examples() {
    let bounds = 64;
    assert_eq!(pos_to_idx(Pos { x: 0, y: 0, z: 0 }, bounds), 0);
    assert_eq!(pos_to_idx(Pos { x: 1, y: 0, z: 0 }, bounds), 1);
    assert_eq!(pos_to_idx(Pos { x: 0, y: 1, z: 0 }, bounds), 64);
    assert_eq!(pos_to_idx(Pos { x: 0, y: 0, z: 1 }, bounds), 4096);
    for &p in &[
        Pos { x: 0, y: 0, z: 0 },
        Pos { x: 63, y: 63, z: 63 },
        Pos { x: 12, y: 34, z: 56 },
    ] {
        assert_eq!(idx_to_pos(pos_to_idx(p, bounds), bounds), p);
    }
}

#[test]
fn center_is_half_bounds() {
    assert_eq!(center(64), Pos { x: 32, y: 32, z: 32 });
    assert_eq!(center(33), Pos { x: 16, y: 16, z: 16 });
    assert_eq!(center(0), Pos { x: 0, y: 0, z: 0 });
}

#[test]
fn renderer_starts_empty_and_sizes_with_bounds() {
    let mut r = CellRenderer::new();
    assert_eq!(r.bounds, 0);
    assert_eq!(r.cell_count(), 0);
    r.set_bounds(8);
    assert_eq!(r.bounds, 8);
    assert_eq!(r.cell_count(), 512);
    assert_eq!(r.values.len(), 512);
    assert_eq!(r.neighbors.len(), 512);
    assert!(r.values.iter().all(|&v| v == 0));
}

#[test]
fn renderer_set_and_clear() {
    let mut r = CellRenderer::new();
    r.set_bounds(4);
    r.set(5, 9, 3);
    assert_eq!(r.values[5], 9);
    assert_eq!(r.neighbors[5], 3);
    r.set_pos(Pos { x: 1, y: 2, z: 3 }, 7, 11);
    let idx = (1 + 2 * 4 + 3 * 16) as usize;
    assert_eq!(r.values[idx], 7);
    assert_eq!(r.neighbors[idx], 11);
    r.clear();
    assert_eq!(r.values.len(), 64);
    assert!(r.values.iter().all(|&v| v == 0));
    assert!(r.neighbors.iter().all(|&v| v == 0));
}

#[test]
fn renderer_noop_set_bounds_keeps_data() {
    let mut r = CellRenderer::new();
    r.set_bounds(4);
    r.set(10, 2, 1);
    r.set_bounds(4);
    assert_eq!(r.values[10], 2);
    assert_eq!(r.neighbors[10], 1);
    r.set_bounds(5);
    assert_eq!(r.values.len(), 125);
    assert!(r.values.iter().all(|&v| v == 0));
}
