use particle_sim::particles::GridPosition;
use particle_sim::relations::RelationEntry;
use particle_sim::state::GameState;

const MIN_SEPARATION: f32 = 5.0;

fn pull(
    at: GridPosition<f32>,
    other: GridPosition<f32>,
    entry: RelationEntry<f32>,
    force: (f32, f32),
) -> (f32, f32) {
    let dx = at.x - other.x;
    let dy = at.y - other.y;
    let d = (dx * dx + dy * dy).sqrt();
    if d > MIN_SEPARATION && d < entry.max_distance {
        let f = entry.gravity * (1.0 / d);
        (force.0 + f * dx, force.1 + f * dy)
    } else {
        force
    }
}

fn kick(v: (f32, f32), f: (f32, f32)) -> (f32, f32) {
    (v.0 + f.0, v.1 + f.1)
}

fn clamp(value: f32, bound: f32) -> f32 {
    if value > bound {
        bound - 1.0
    } else if value < 0.0 {
        1.0
    } else {
        value
    }
}

fn tick(state: &mut GameState<f32>, friction: f32, width: f32, height: f32) {
    let drift = |pos: GridPosition<f32>, v: (f32, f32)| {
        let vx = v.0 * (1.0 - friction);
        let vy = v.1 * (1.0 - friction);
        (GridPosition { x: clamp(pos.x + vx, width), y: clamp(pos.y + vy, height) }, (vx, vy))
    };
    state.update_particles((0.0, 0.0), &pull, &kick, &drift);
}

fn row(y: f32) -> Vec<GridPosition<f32>> {
    (1..6).map(|k| GridPosition { x: 10.0 * k as f32, y }).collect()
}

fn close(a: f32, b: f32) -> bool {
    (a - b).abs() < 1e-4
}

#[test]
fn one_tick_of_two_groups_moves_each_active_particle_by_the_summed_force() {
    let mut positions = row(50.0);
    positions.extend(row(80.0));
    let velocities = vec![(0.0f32, 0.0f32); 10];
    let gravities: Vec<f32> = vec![1.0, 0.0, 0.0, -1.0];
    let distances: Vec<f32> = vec![1000.0; 4];
    let mut state =
        GameState::new(2, 5, 7, &positions, &velocities, &gravities, &distances).unwrap();
    tick(&mut state, 0.0, 100.0, 100.0);
    assert_eq!(state.ticks(), 2);
    let expected_first: [f32; 5] = [6.0, 20.0, 30.0, 42.0, 54.0];
    let expected_second: [f32; 5] = [14.0, 20.0, 30.0, 38.0, 46.0];
    for index in 0..5usize {
        let p = state.store().particle_at(0, index);
        assert!(close(p.pos.x, expected_first[index]));
        assert!(close(p.pos.y, 50.0));
        let q = state.store().particle_at(1, index);
        assert!(close(q.pos.x, expected_second[index]));
        assert!(close(q.pos.y, 80.0));
    }
    let skipped = state.store().particle_at(0, 1);
    assert_eq!(skipped.vx, 0.0);
    assert_eq!(skipped.vy, 0.0);
}

#[test]
fn pairs_outside_the_thresholds_leave_the_velocity_alone() {
    let cases: [(f32, bool); 4] = [(4.9, false), (5.1, true), (19.9, true), (20.1, false)];
    for (distance, forced) in cases {
        let positions =
            vec![GridPosition { x: 50.0f32, y: 50.0 }, GridPosition { x: 50.0 + distance, y: 50.0 }];
        let velocities = vec![(0.0f32, 0.0f32); 2];
        let mut state =
            GameState::new(1, 2, 7, &positions, &velocities, &vec![1.0f32], &vec![20.0f32])
                .unwrap();
        state.particle_relation(0, 0, (0.0, 0.0), &pull, &kick);
        let p = state.store().particle_at(0, 0);
        if forced {
            assert!(close(p.vx, -1.0));
        } else {
            assert_eq!(p.vx, 0.0);
        }
        assert_eq!(p.vy, 0.0);
    }
}

#[test]
fn without_gravity_velocities_only_decay() {
    let mut positions = row(50.0);
    positions.extend(row(80.0));
    let velocities: Vec<(f32, f32)> = (0..10).map(|k| (k as f32 - 4.0, 2.0)).collect();
    let mut state =
        GameState::new(2, 5, 2, &positions, &velocities, &vec![0.0f32; 4], &vec![1000.0f32; 4])
            .unwrap();
    for _ in 0..6 {
        let before: Vec<(f32, f32)> = (0..10usize)
            .map(|k| {
                let p = state.store().particle_at(k / 5, k % 5);
                (p.vx, p.vy)
            })
            .collect();
        tick(&mut state, 0.5, 100.0, 100.0);
        for k in 0..10usize {
            let p = state.store().particle_at(k / 5, k % 5);
            assert_eq!(p.vx, before[k].0 * 0.5);
            assert_eq!(p.vy, before[k].1 * 0.5);
            assert!(p.vx.abs() <= before[k].0.abs());
            assert!(p.vy.abs() <= before[k].1.abs());
        }
    }
}

#[test]
fn clamped_positions_stay_inside_the_world() {
    let mut positions = row(1.0);
    positions.extend(row(99.0));
    let velocities: Vec<(f32, f32)> = (0..10).map(|k| (40.0 - 9.0 * k as f32, 35.0)).collect();
    let gravities: Vec<f32> = vec![2.0, -2.0, 1.0, -1.0];
    let mut state =
        GameState::new(2, 5, 2, &positions, &velocities, &gravities, &vec![1000.0f32; 4])
            .unwrap();
    for _ in 0..50 {
        tick(&mut state, 0.0, 100.0, 100.0);
        for sprite in state.snapshot() {
            assert!(sprite.pos.x >= 0.0 && sprite.pos.x <= 100.0);
            assert!(sprite.pos.y >= 0.0 && sprite.pos.y <= 100.0);
        }
    }
    assert_eq!(state.ticks(), 51);
}
