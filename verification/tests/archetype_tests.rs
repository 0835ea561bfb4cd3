use ecs_query::archetypes::{find_repeat, ArchetypeIndex};
use ecs_query::entities::EntityIndex;
use ecs_query::model::{copy_of, holds_id, Archetype};
use ecs_query::outcome::{Key, Kind, QueryError, SnapshotError};

fn archetype(id: usize, table: Vec<usize>, sparse: Vec<usize>, entities: Vec<u32>) -> Archetype {
    Archetype {
        id,
        table_id: id + 100,
        table_components: table,
        sparse_components: sparse,
        entities,
    }
}

fn sample() -> ArchetypeIndex {
    ArchetypeIndex::new(
        vec![
            archetype(0, vec![], vec![], vec![]),
            archetype(1, vec![7, 8], vec![], vec![]),
            archetype(2, vec![1, 2], vec![3], vec![10, 11]),
            archetype(4, vec![2], vec![], vec![12]),
            archetype(6, vec![], vec![3], vec![5, 30, 4]),
        ],
        1,
    )
    .unwrap()
}

fn not_found(kind: Kind, id: usize) -> QueryError {
    QueryError::NotFound { kind, key: Key::Id(id) }
}

#[test]
fn get_gives_the_whole_descriptor() {
    let index = sample();
    assert_eq!(index.get(2), Ok(&archetype(2, vec![1, 2], vec![3], vec![10, 11])));
    assert_eq!(index.get(0), Ok(&archetype(0, vec![], vec![], vec![])));
}

#[test]
fn get_of_an_absent_archetype_is_not_found() {
    let index = sample();
    assert_eq!(index.get(3), Err(not_found(Kind::Archetype, 3)));
    assert_eq!(index.get(7), Err(not_found(Kind::Archetype, 7)));
}

#[test]
fn list_all_pairs_each_archetype_with_its_entity_count() {
    let index = sample();
    assert_eq!(index.list_all(), vec![(0, 0), (1, 0), (2, 2), (4, 1), (6, 3)]);
    assert_eq!(index.len(), 5);
}

#[test]
fn list_all_of_no_archetypes_is_empty() {
    let index = ArchetypeIndex::new(Vec::new(), 1).unwrap();
    assert_eq!(index.list_all(), Vec::<(usize, usize)>::new());
    assert_eq!(index.len(), 0);
}

#[test]
fn archetypes_in_any_order_are_indexed_by_id() {
    let index = ArchetypeIndex::new(
        vec![
            archetype(6, vec![], vec![], vec![1]),
            archetype(2, vec![], vec![], vec![2, 3]),
            archetype(4, vec![], vec![], vec![]),
        ],
        0,
    )
    .unwrap();
    assert_eq!(index.list_all(), vec![(2, 2), (4, 0), (6, 1)]);
    assert_eq!(index.records()[0].id, 2);
}

#[test]
fn the_resources_id_is_kept() {
    assert_eq!(sample().resources_id(), 1);
    assert_eq!(ArchetypeIndex::new(Vec::new(), 42).unwrap().resources_id(), 42);
}

#[test]
fn a_repeated_archetype_id_is_turned_down() {
    let built = ArchetypeIndex::new(
        vec![
            archetype(3, vec![], vec![], vec![]),
            archetype(1, vec![], vec![], vec![]),
            archetype(3, vec![], vec![], vec![]),
            archetype(1, vec![], vec![], vec![]),
        ],
        0,
    );
    assert_eq!(built.err(), Some(SnapshotError::DuplicateArchetype { id: 3 }));
}

#[test]
fn a_component_in_both_storages_is_turned_down() {
    let built = ArchetypeIndex::new(
        vec![archetype(0, vec![1], vec![], vec![]), archetype(5, vec![1, 2], vec![3, 2], vec![])],
        0,
    );
    assert_eq!(
        built.err(),
        Some(SnapshotError::RepeatedComponent { archetype: 5, component: 2 })
    );
}

#[test]
fn a_component_twice_in_one_storage_is_turned_down() {
    let built = ArchetypeIndex::new(vec![archetype(8, vec![4, 6, 4], vec![], vec![])], 0);
    assert_eq!(
        built.err(),
        Some(SnapshotError::RepeatedComponent { archetype: 8, component: 4 })
    );
    let built = ArchetypeIndex::new(vec![archetype(8, vec![], vec![9, 9], vec![])], 0);
    assert_eq!(
        built.err(),
        Some(SnapshotError::RepeatedComponent { archetype: 8, component: 9 })
    );
}

#[test]
fn the_first_archetype_at_fault_decides_the_error() {
    let built = ArchetypeIndex::new(
        vec![
            archetype(1, vec![], vec![], vec![]),
            archetype(1, vec![5, 5], vec![], vec![]),
            archetype(1, vec![], vec![], vec![]),
        ],
        0,
    );
    assert_eq!(
        built.err(),
        Some(SnapshotError::RepeatedComponent { archetype: 1, component: 5 })
    );
    let built = ArchetypeIndex::new(
        vec![
            archetype(1, vec![], vec![], vec![]),
            archetype(1, vec![], vec![], vec![]),
            archetype(2, vec![5, 5], vec![], vec![]),
        ],
        0,
    );
    assert_eq!(built.err(), Some(SnapshotError::DuplicateArchetype { id: 1 }));
}

#[test]
fn find_repeat_gives_the_first_position_that_repeats() {
    assert_eq!(find_repeat(&vec![1, 2, 3]), None);
    assert_eq!(find_repeat(&vec![]), None);
    assert_eq!(find_repeat(&vec![1, 2, 1, 2]), Some(2));
    assert_eq!(find_repeat(&vec![7, 7]), Some(1));
    assert_eq!(find_repeat(&vec![1, 2, 3, 3, 1]), Some(3));
}

#[test]
fn archetype_membership_tests() {
    let a = archetype(2, vec![1, 2], vec![3], vec![10, 11]);
    assert!(a.contains_component(1));
    assert!(a.contains_component(3));
    assert!(!a.contains_component(4));
    assert!(a.contains_entity(11));
    assert!(!a.contains_entity(12));
    assert_eq!(a.entity_count(), 2);
    assert_eq!(a.component_list(), vec![1, 2, 3]);
}

#[test]
fn plain_vector_helpers() {
    assert!(holds_id(&vec![4, 5, 6], 5));
    assert!(!holds_id(&vec![4, 5, 6], 7));
    assert!(!holds_id(&vec![], 0));
    assert_eq!(copy_of(&vec![3u32, 1, 2]), vec![3, 1, 2]);
    assert_eq!(copy_of(&Vec::<usize>::new()), Vec::<usize>::new());
}

#[test]
fn entity_index_lists_live_entities_in_ascending_order() {
    let entities = EntityIndex::build(&sample());
    assert_eq!(entities.list_all(), vec![(4, 6), (5, 6), (10, 2), (11, 2), (12, 4), (30, 6)]);
    assert_eq!(entities.len(), 6);
    assert!(entities.is_disjoint());
}

#[test]
fn entity_index_of_no_entities_is_empty() {
    let index =
        ArchetypeIndex::new(vec![archetype(0, vec![1], vec![], vec![])], 0).unwrap();
    let entities = EntityIndex::build(&index);
    assert_eq!(entities.list_all(), Vec::<(u32, usize)>::new());
    assert_eq!(entities.len(), 0);
    assert!(entities.is_disjoint());
}

#[test]
fn archetype_of_gives_the_owner_of_a_live_entity() {
    let entities = EntityIndex::build(&sample());
    assert_eq!(entities.archetype_of(10), Ok(2));
    assert_eq!(entities.archetype_of(12), Ok(4));
    assert_eq!(entities.archetype_of(4), Ok(6));
    assert_eq!(entities.archetype_of(30), Ok(6));
}

#[test]
fn archetype_of_a_dead_entity_is_not_found() {
    let entities = EntityIndex::build(&sample());
    assert_eq!(entities.archetype_of(0), Err(not_found(Kind::Entity, 0)));
    assert_eq!(entities.archetype_of(13), Err(not_found(Kind::Entity, 13)));
    assert_eq!(entities.archetype_of(31), Err(not_found(Kind::Entity, 31)));
    assert_eq!(
        entities.archetype_of(u32::MAX),
        Err(not_found(Kind::Entity, u32::MAX as usize))
    );
}

#[test]
fn every_listed_entity_is_found_under_its_archetype() {
    let entities = EntityIndex::build(&sample());
    for (entity, archetype) in entities.list_all() {
        assert_eq!(entities.archetype_of(entity), Ok(archetype));
    }
}

#[test]
fn an_entity_in_two_archetypes_goes_to_the_first_in_order() {
    let index = ArchetypeIndex::new(
        vec![
            archetype(9, vec![], vec![], vec![1, 2]),
            archetype(3, vec![], vec![], vec![2, 5]),
            archetype(6, vec![], vec![], vec![5, 1]),
        ],
        0,
    )
    .unwrap();
    let entities = EntityIndex::build(&index);
    assert_eq!(entities.list_all(), vec![(1, 6), (2, 3), (5, 3)]);
    assert_eq!(entities.len(), 3);
    assert!(!entities.is_disjoint());
}

#[test]
fn an_entity_twice_in_one_archetype_breaks_the_partition() {
    let index =
        ArchetypeIndex::new(vec![archetype(0, vec![], vec![], vec![7, 8, 7])], 0).unwrap();
    let entities = EntityIndex::build(&index);
    assert_eq!(entities.list_all(), vec![(7, 0), (8, 0)]);
    assert!(!entities.is_disjoint());
}

#[test]
fn large_entity_ids_are_indexed() {
    let index = ArchetypeIndex::new(
        vec![archetype(0, vec![], vec![], vec![u32::MAX, 0, 4_000_000_000])],
        0,
    )
    .unwrap();
    let entities = EntityIndex::build(&index);
    assert_eq!(entities.list_all(), vec![(0, 0), (4_000_000_000, 0), (u32::MAX, 0)]);
    assert_eq!(entities.archetype_of(u32::MAX), Ok(0));
}
