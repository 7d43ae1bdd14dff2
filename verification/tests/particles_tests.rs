use particle_sim::error::ConfigError;
use particle_sim::particles::{GridPosition, Particle, ParticleStore, Sprite};

fn positions(count: usize) -> Vec<GridPosition<f32>> {
    (0..count).map(|k| GridPosition { x: k as f32, y: 100.0 + k as f32 }).collect()
}

fn velocities(count: usize) -> Vec<(f32, f32)> {
    (0..count).map(|k| (0.5 * k as f32, -0.25 * k as f32)).collect()
}

fn store(group_count: usize, density: usize) -> ParticleStore<f32> {
    let total = group_count * density;
    match ParticleStore::seed(group_count, density, &positions(total), &velocities(total)) {
        Ok(store) => store,
        Err(e) => panic!("seed failed: {:?}", e),
    }
}

#[test]
fn seed_gives_dense_identifiers_and_groups() {
    let s = store(3, 4);
    assert_eq!(s.group_count(), 3);
    assert_eq!(s.particle_count(), 12);
    for group in 0..3usize {
        assert_eq!(s.size_of(group), 4);
        for index in 0..4usize {
            let slot = group * 4 + index;
            let p = s.particle_at(group, index);
            assert_eq!(
                p,
                Particle {
                    pos: GridPosition { x: slot as f32, y: 100.0 + slot as f32 },
                    vx: 0.5 * slot as f32,
                    vy: -0.25 * slot as f32,
                    group,
                    id: slot as u32,
                }
            );
        }
    }
}

#[test]
fn seed_rejects_zero_groups() {
    let r = ParticleStore::<f32>::seed(0, 4, &positions(0), &velocities(0));
    assert_eq!(r.err(), Some(ConfigError::ZeroGroups));
}

#[test]
fn seed_rejects_more_particles_than_identifiers() {
    let r = ParticleStore::<f32>::seed(65536, 65536, &positions(0), &velocities(0));
    assert_eq!(r.err(), Some(ConfigError::TooManyParticles));
    let r = ParticleStore::<f32>::seed(usize::MAX, 2, &positions(0), &velocities(0));
    assert_eq!(r.err(), Some(ConfigError::TooManyParticles));
}

#[test]
fn seed_rejects_a_wrong_number_of_draws() {
    let r = ParticleStore::seed(2, 3, &positions(5), &velocities(6));
    assert_eq!(r.err(), Some(ConfigError::DrawCount));
    let r = ParticleStore::seed(2, 3, &positions(6), &velocities(7));
    assert_eq!(r.err(), Some(ConfigError::DrawCount));
}

#[test]
fn seed_accepts_empty_groups() {
    let s = store(3, 0);
    assert_eq!(s.group_count(), 3);
    assert_eq!(s.particle_count(), 0);
    assert_eq!(s.size_of(1), 0);
    assert_eq!(s.snapshot(), Vec::<Sprite<f32>>::new());
}

#[test]
fn set_position_changes_one_position_only() {
    let mut s = store(2, 3);
    let before: Vec<Particle<f32>> =
        (0..6usize).map(|k| s.particle_at(k / 3, k % 3)).collect();
    s.set_position(1, 2, GridPosition { x: -7.0, y: 9.5 });
    for slot in 0..6usize {
        let p = s.particle_at(slot / 3, slot % 3);
        if slot == 5 {
            assert_eq!(p.pos, GridPosition { x: -7.0, y: 9.5 });
            assert_eq!(p.vx, before[slot].vx);
            assert_eq!(p.vy, before[slot].vy);
            assert_eq!(p.group, 1);
            assert_eq!(p.id, 5);
        } else {
            assert_eq!(p, before[slot]);
        }
    }
}

#[test]
fn set_velocity_changes_one_velocity_only() {
    let mut s = store(2, 3);
    let before: Vec<Particle<f32>> =
        (0..6usize).map(|k| s.particle_at(k / 3, k % 3)).collect();
    s.set_velocity(0, 1, 3.0, -4.0);
    for slot in 0..6usize {
        let p = s.particle_at(slot / 3, slot % 3);
        if slot == 1 {
            assert_eq!(p.pos, before[slot].pos);
            assert_eq!(p.vx, 3.0);
            assert_eq!(p.vy, -4.0);
            assert_eq!(p.group, 0);
            assert_eq!(p.id, 1);
        } else {
            assert_eq!(p, before[slot]);
        }
    }
}

#[test]
fn store_reshuffle_moves_every_particle_and_keeps_the_rest() {
    let mut s = store(2, 2);
    let fresh: Vec<GridPosition<f32>> =
        (0..4usize).map(|k| GridPosition { x: 50.0 - k as f32, y: 2.0 * k as f32 }).collect();
    assert_eq!(s.reshuffle(&fresh), Ok(()));
    assert_eq!(s.group_count(), 2);
    assert_eq!(s.size_of(0), 2);
    assert_eq!(s.size_of(1), 2);
    for slot in 0..4usize {
        let p = s.particle_at(slot / 2, slot % 2);
        assert_eq!(p.pos, fresh[slot]);
        assert_eq!(p.vx, 0.5 * slot as f32);
        assert_eq!(p.vy, -0.25 * slot as f32);
        assert_eq!(p.group, slot / 2);
        assert_eq!(p.id, slot as u32);
    }
}

#[test]
fn store_reshuffle_with_a_wrong_count_changes_nothing() {
    let mut s = store(2, 2);
    let before = s.snapshot();
    assert_eq!(s.reshuffle(&positions(3)), Err(ConfigError::DrawCount));
    assert_eq!(s.reshuffle(&positions(5)), Err(ConfigError::DrawCount));
    assert_eq!(s.snapshot(), before);
}

#[test]
fn snapshot_lists_position_group_and_identifier() {
    let s = store(2, 2);
    let shot = s.snapshot();
    assert_eq!(
        shot,
        vec![
            Sprite { pos: GridPosition { x: 0.0, y: 100.0 }, group: 0, id: 0 },
            Sprite { pos: GridPosition { x: 1.0, y: 101.0 }, group: 0, id: 1 },
            Sprite { pos: GridPosition { x: 2.0, y: 102.0 }, group: 1, id: 2 },
            Sprite { pos: GridPosition { x: 3.0, y: 103.0 }, group: 1, id: 3 },
        ]
    );
}

#[test]
fn snapshot_does_not_follow_later_changes() {
    let mut s = store(1, 2);
    let shot = s.snapshot();
    s.set_position(0, 0, GridPosition { x: 77.0, y: 78.0 });
    assert_eq!(shot[0].pos, GridPosition { x: 0.0, y: 100.0 });
    assert_eq!(s.snapshot()[0].pos, GridPosition { x: 77.0, y: 78.0 });
}

#[test]
fn each_particle_lists_one_group_in_order() {
    let s = store(3, 2);
    let middle = s.each_particle(1);
    assert_eq!(middle.len(), 2);
    assert_eq!(middle[0], s.particle_at(1, 0));
    assert_eq!(middle[1], s.particle_at(1, 1));
    assert_eq!(middle[0].id, 2);
    assert_eq!(middle[1].id, 3);
    assert_eq!(middle[0].group, 1);
    assert_eq!(store(2, 0).each_particle(1), Vec::<Particle<f32>>::new());
}
