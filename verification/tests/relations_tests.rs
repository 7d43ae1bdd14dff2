use particle_sim::error::ConfigError;
use particle_sim::relations::{random_signs, RelationEntry, RelationTable};

#[test]
fn assemble_places_the_draws_rows_first() {
    let signs: Vec<i8> = vec![-128, 0, 5, 127];
    let gravities: Vec<f32> = vec![1.0, -0.5, 0.25, -1.0];
    let distances: Vec<f32> = vec![800.0, 10.0, 0.0, 400.0];
    let table = match RelationTable::assemble(2, &signs, &gravities, &distances) {
        Ok(t) => t,
        Err(e) => panic!("assemble failed: {:?}", e),
    };
    assert_eq!(table.group_count(), 2);
    assert_eq!(table.len(), 4);
    assert_eq!(table.entry(0, 0), RelationEntry { sign: -128, gravity: 1.0, max_distance: 800.0 });
    assert_eq!(table.entry(0, 1), RelationEntry { sign: 0, gravity: -0.5, max_distance: 10.0 });
    assert_eq!(table.entry(1, 0), RelationEntry { sign: 5, gravity: 0.25, max_distance: 0.0 });
    assert_eq!(table.entry(1, 1), RelationEntry { sign: 127, gravity: -1.0, max_distance: 400.0 });
}

#[test]
fn assemble_keeps_opposite_pairs_apart() {
    let signs: Vec<i8> = vec![0; 9];
    let gravities: Vec<f32> = (0..9).map(|k| k as f32).collect();
    let distances: Vec<f32> = (0..9).map(|k| 10.0 * k as f32).collect();
    let table = RelationTable::assemble(3, &signs, &gravities, &distances).unwrap();
    assert_eq!(table.entry(1, 2).gravity, 5.0);
    assert_eq!(table.entry(2, 1).gravity, 7.0);
    assert_eq!(table.entry(2, 0).max_distance, 60.0);
    assert_eq!(table.entry(0, 2).max_distance, 20.0);
}

#[test]
fn assemble_is_reproducible() {
    let signs: Vec<i8> = vec![3, -4, 5, -6];
    let gravities: Vec<f32> = vec![0.1, 0.2, 0.3, 0.4];
    let distances: Vec<f32> = vec![1.0, 2.0, 3.0, 4.0];
    let a = RelationTable::assemble(2, &signs, &gravities, &distances).unwrap();
    let b = RelationTable::assemble(2, &signs.clone(), &gravities.clone(), &distances.clone())
        .unwrap();
    for source in 0..2usize {
        for target in 0..2usize {
            let x = a.entry(source, target);
            let y = b.entry(source, target);
            assert_eq!(x.sign, y.sign);
            assert_eq!(x.gravity.to_bits(), y.gravity.to_bits());
            assert_eq!(x.max_distance.to_bits(), y.max_distance.to_bits());
        }
    }
}

#[test]
fn assemble_rejects_zero_groups() {
    let r = RelationTable::<f32>::assemble(0, &vec![], &vec![], &vec![]);
    assert_eq!(r.err(), Some(ConfigError::ZeroGroups));
}

#[test]
fn assemble_rejects_a_table_that_is_not_square() {
    let r = RelationTable::assemble(2, &vec![0i8; 3], &vec![0.0f32; 4], &vec![0.0f32; 4]);
    assert_eq!(r.err(), Some(ConfigError::RelationSize));
    let r = RelationTable::assemble(2, &vec![0i8; 4], &vec![0.0f32; 5], &vec![0.0f32; 4]);
    assert_eq!(r.err(), Some(ConfigError::RelationSize));
    let r = RelationTable::assemble(2, &vec![0i8; 4], &vec![0.0f32; 4], &vec![0.0f32; 2]);
    assert_eq!(r.err(), Some(ConfigError::RelationSize));
    let r = RelationTable::assemble(usize::MAX, &vec![0i8; 1], &vec![0.0f32; 1], &vec![0.0f32; 1]);
    assert_eq!(r.err(), Some(ConfigError::RelationSize));
}

#[test]
fn random_signs_draws_as_many_as_asked() {
    assert_eq!(random_signs(0).len(), 0);
    assert_eq!(random_signs(16).len(), 16);
}

#[test]
fn random_signs_are_not_all_alike() {
    let signs = random_signs(4096);
    let first = signs[0];
    assert!(signs.iter().any(|s| *s != first));
}

#[test]
fn random_relations_keeps_gravity_and_reach() {
    let gravities: Vec<f32> = vec![1.0, -1.0, 0.5, -0.5];
    let distances: Vec<f32> = vec![100.0, 200.0, 300.0, 400.0];
    let table = RelationTable::random_relations(2, &gravities, &distances).unwrap();
    assert_eq!(table.group_count(), 2);
    assert_eq!(table.len(), 4);
    for source in 0..2usize {
        for target in 0..2usize {
            let e = table.entry(source, target);
            assert_eq!(e.gravity, gravities[source * 2 + target]);
            assert_eq!(e.max_distance, distances[source * 2 + target]);
        }
    }
}

#[test]
fn random_relations_rejects_bad_sizes() {
    let r = RelationTable::<f32>::random_relations(0, &vec![], &vec![]);
    assert_eq!(r.err(), Some(ConfigError::ZeroGroups));
    let r = RelationTable::random_relations(2, &vec![0.0f32; 4], &vec![0.0f32; 3]);
    assert_eq!(r.err(), Some(ConfigError::RelationSize));
    let r = RelationTable::random_relations(2, &vec![0.0f32; 9], &vec![0.0f32; 9]);
    assert_eq!(r.err(), Some(ConfigError::RelationSize));
}
