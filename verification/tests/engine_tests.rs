use ecs_query::archetypes::ArchetypeIndex;
use ecs_query::catalog::ComponentCatalog;
use ecs_query::engine::{
    counts, describe, entities_by_component, find_archetype_by_entity_id,
    find_archetypes_by_component_id, find_archetypes_by_component_name,
    find_entities_by_component_id, find_entities_by_component_name, full_listing,
    get_archetype_id_by_entity_id, list_resources, names_of, resolve,
};
use ecs_query::entities::EntityIndex;
use ecs_query::model::{Archetype, Component, ComponentName, StorageKind};
use ecs_query::outcome::{EmptyReason, Key, Kind, QueryError};
use ecs_query::report::{ArchetypeDescription, EntitySection};

fn component(id: usize, name: &str) -> Component {
    Component { id, name: name.to_string(), storage: StorageKind::Table, thread_safe: true }
}

fn entry(id: usize, name: &str) -> ComponentName {
    ComponentName { id, name: name.to_string() }
}

fn archetype(id: usize, table: Vec<usize>, sparse: Vec<usize>, entities: Vec<u32>) -> Archetype {
    Archetype {
        id,
        table_id: id + 100,
        table_components: table,
        sparse_components: sparse,
        entities,
    }
}

fn catalog() -> ComponentCatalog {
    ComponentCatalog::new(vec![
        component(0, "core::Reserved"),
        component(1, "physics::Position"),
        component(2, "physics::Velocity"),
        component(3, "gfx::Sprite"),
        component(5, "gfx::Position"),
        component(7, "bevy_time::Time"),
        component(8, "bevy_audio::audio::Audio"),
        component(9, "game::Unused"),
    ])
    .unwrap()
}

fn archetypes() -> ArchetypeIndex {
    ArchetypeIndex::new(
        vec![
            archetype(0, vec![], vec![], vec![]),
            archetype(1, vec![7, 8], vec![], vec![]),
            archetype(2, vec![1, 2], vec![3], vec![10, 11]),
            archetype(4, vec![2], vec![], vec![12]),
            archetype(6, vec![5], vec![3], vec![5, 30, 4]),
            archetype(7, vec![0, 1], vec![], vec![]),
        ],
        1,
    )
    .unwrap()
}

fn not_found(kind: Kind, id: usize) -> QueryError {
    QueryError::NotFound { kind, key: Key::Id(id) }
}

fn no_entities() -> QueryError {
    QueryError::Empty { reason: EmptyReason::NoEntities }
}

#[test]
fn archetypes_by_component_id_are_all_that_have_it() {
    let a = archetypes();
    assert_eq!(find_archetypes_by_component_id(&a, 2), vec![2, 4]);
    assert_eq!(find_archetypes_by_component_id(&a, 1), vec![2, 7]);
    assert_eq!(find_archetypes_by_component_id(&a, 7), vec![1]);
}

#[test]
fn archetypes_by_component_id_look_into_both_storages() {
    let a = archetypes();
    assert_eq!(find_archetypes_by_component_id(&a, 3), vec![2, 6]);
    assert_eq!(find_archetypes_by_component_id(&a, 5), vec![6]);
}

#[test]
fn archetypes_by_component_id_may_be_none() {
    let a = archetypes();
    assert_eq!(find_archetypes_by_component_id(&a, 9), Vec::<usize>::new());
    assert_eq!(find_archetypes_by_component_id(&a, 1000), Vec::<usize>::new());
}

#[test]
fn archetypes_by_component_id_work_for_the_reserved_id() {
    let a = archetypes();
    assert_eq!(find_archetypes_by_component_id(&a, 0), vec![7]);
}

#[test]
fn archetypes_by_component_id_match_a_direct_filter() {
    let a = archetypes();
    for component in 0..12 {
        let expected: Vec<usize> = a
            .records()
            .iter()
            .filter(|r| {
                r.table_components.contains(&component) || r.sparse_components.contains(&component)
            })
            .map(|r| r.id)
            .collect();
        assert_eq!(find_archetypes_by_component_id(&a, component), expected);
    }
}

#[test]
fn entities_by_component_id_follow_archetype_then_storage_order() {
    let a = archetypes();
    assert_eq!(find_entities_by_component_id(&a, 3), Ok(vec![10, 11, 5, 30, 4]));
    assert_eq!(find_entities_by_component_id(&a, 2), Ok(vec![10, 11, 12]));
    assert_eq!(find_entities_by_component_id(&a, 5), Ok(vec![5, 30, 4]));
}

#[test]
fn entities_by_component_id_say_when_no_archetype_matched() {
    let a = archetypes();
    assert_eq!(find_entities_by_component_id(&a, 9), Err(no_entities()));
    assert_eq!(entities_by_component(&a, 9), Vec::<u32>::new());
}

#[test]
fn entities_by_component_id_say_when_the_archetypes_are_empty() {
    let a = archetypes();
    assert_eq!(find_archetypes_by_component_id(&a, 7), vec![1]);
    assert_eq!(find_entities_by_component_id(&a, 7), Err(no_entities()));
}

#[test]
fn entity_lists_are_disjoint_and_their_concatenation_is_the_answer() {
    let a = archetypes();
    for component in 0..10 {
        let ids = find_archetypes_by_component_id(&a, component);
        let mut all: Vec<u32> = Vec::new();
        for id in &ids {
            let list = &a.get(*id).unwrap().entities;
            for entity in list {
                assert!(!all.contains(entity), "entity {} is in two lists", entity);
            }
            all.extend(list);
        }
        assert_eq!(entities_by_component(&a, component), all);
        match find_entities_by_component_id(&a, component) {
            Ok(found) => assert_eq!(found, all),
            Err(error) => {
                assert!(all.is_empty());
                assert_eq!(error, no_entities());
            }
        }
    }
}

#[test]
fn search_for_the_archetype_of_an_entity() {
    let a = archetypes();
    assert_eq!(get_archetype_id_by_entity_id(&a, 10), Some(2));
    assert_eq!(get_archetype_id_by_entity_id(&a, 12), Some(4));
    assert_eq!(get_archetype_id_by_entity_id(&a, 4), Some(6));
    assert_eq!(get_archetype_id_by_entity_id(&a, 13), None);
    assert_eq!(get_archetype_id_by_entity_id(&a, 0), None);
}

#[test]
fn search_gives_the_first_archetype_where_an_entity_is_in_two() {
    let a = ArchetypeIndex::new(
        vec![archetype(5, vec![], vec![], vec![1]), archetype(3, vec![], vec![], vec![1])],
        0,
    )
    .unwrap();
    assert_eq!(get_archetype_id_by_entity_id(&a, 1), Some(3));
    assert_eq!(find_archetype_by_entity_id(&EntityIndex::build(&a), 1), Ok(3));
}

#[test]
fn index_and_search_agree_on_every_entity() {
    let a = archetypes();
    let e = EntityIndex::build(&a);
    for entity in 0..40 {
        assert_eq!(
            find_archetype_by_entity_id(&e, entity).ok(),
            get_archetype_id_by_entity_id(&a, entity)
        );
    }
    for (entity, archetype) in e.list_all() {
        assert_eq!(find_archetype_by_entity_id(&e, entity), Ok(archetype));
    }
}

#[test]
fn the_archetype_of_a_dead_entity_is_not_found() {
    let e = EntityIndex::build(&archetypes());
    assert_eq!(find_archetype_by_entity_id(&e, 13), Err(not_found(Kind::Entity, 13)));
}

#[test]
fn counts_leave_out_the_reserved_component() {
    let a = archetypes();
    let e = EntityIndex::build(&a);
    assert_eq!(counts(&a, &catalog(), &e), (6, 7, 6));
}

#[test]
fn counts_of_an_empty_snapshot_are_zero() {
    let a = ArchetypeIndex::new(Vec::new(), 0).unwrap();
    let c = ComponentCatalog::new(Vec::new()).unwrap();
    let e = EntityIndex::build(&a);
    assert_eq!(counts(&a, &c, &e), (0, 0, 0));
}

#[test]
fn archetypes_by_name_of_one_component() {
    let (a, c) = (archetypes(), catalog());
    assert_eq!(find_archetypes_by_component_name(&a, &c, "Velocity", true), Ok(vec![2, 4]));
    assert_eq!(
        find_archetypes_by_component_name(&a, &c, "gfx::Position", false),
        Ok(vec![6])
    );
}

#[test]
fn archetypes_by_name_of_no_component_is_not_found() {
    let (a, c) = (archetypes(), catalog());
    let missing = |name: &str| QueryError::NotFound {
        kind: Kind::Component,
        key: Key::Name(name.to_string()),
    };
    assert_eq!(find_archetypes_by_component_name(&a, &c, "Mass", true), Err(missing("Mass")));
    assert_eq!(
        find_archetypes_by_component_name(&a, &c, "Velocity", false),
        Err(missing("Velocity"))
    );
    assert_eq!(find_archetypes_by_component_name(&a, &c, "Veloc", true), Err(missing("Veloc")));
}

#[test]
fn a_component_without_archetypes_is_not_the_same_as_no_component() {
    let (a, c) = (archetypes(), catalog());
    assert_eq!(find_archetypes_by_component_name(&a, &c, "Unused", true), Ok(Vec::new()));
    assert!(find_archetypes_by_component_name(&a, &c, "Unknown", true).is_err());
}

#[test]
fn archetypes_by_an_ambiguous_name_list_the_candidates() {
    let (a, c) = (archetypes(), catalog());
    assert_eq!(
        find_archetypes_by_component_name(&a, &c, "Position", true),
        Err(QueryError::Ambiguous {
            name: "Position".to_string(),
            matches: vec![entry(1, "physics::Position"), entry(5, "gfx::Position")],
        })
    );
}

#[test]
fn entities_by_name_report_one_section_per_component() {
    let (a, c) = (archetypes(), catalog());
    assert_eq!(
        find_entities_by_component_name(&a, &c, "Position", true),
        Ok(vec![
            EntitySection { component: entry(1, "physics::Position"), entities: vec![10, 11] },
            EntitySection { component: entry(5, "gfx::Position"), entities: vec![5, 30, 4] },
        ])
    );
    assert_eq!(
        find_entities_by_component_name(&a, &c, "gfx::Sprite", false),
        Ok(vec![EntitySection {
            component: entry(3, "gfx::Sprite"),
            entities: vec![10, 11, 5, 30, 4],
        }])
    );
}

#[test]
fn entities_by_name_keep_a_section_without_entities() {
    let (a, c) = (archetypes(), catalog());
    assert_eq!(
        find_entities_by_component_name(&a, &c, "Time", true),
        Ok(vec![EntitySection { component: entry(7, "bevy_time::Time"), entities: vec![] }])
    );
}

#[test]
fn entities_by_name_of_no_component_is_not_found() {
    let (a, c) = (archetypes(), catalog());
    assert_eq!(
        find_entities_by_component_name(&a, &c, "Mass", true),
        Err(QueryError::NotFound { kind: Kind::Component, key: Key::Name("Mass".to_string()) })
    );
}

#[test]
fn describe_resolves_components_by_storage() {
    let (a, c) = (archetypes(), catalog());
    assert_eq!(
        describe(&a, &c, 2),
        Ok(ArchetypeDescription {
            id: 2,
            table_id: 102,
            entities: vec![10, 11],
            table_components: vec![entry(1, "Position"), entry(2, "Velocity")],
            sparse_components: vec![entry(3, "Sprite")],
        })
    );
}

#[test]
fn describe_of_an_empty_archetype() {
    let (a, c) = (archetypes(), catalog());
    assert_eq!(
        describe(&a, &c, 0),
        Ok(ArchetypeDescription {
            id: 0,
            table_id: 100,
            entities: vec![],
            table_components: vec![],
            sparse_components: vec![],
        })
    );
}

#[test]
fn describe_resolves_the_reserved_id_where_it_has_a_record() {
    let (a, c) = (archetypes(), catalog());
    assert_eq!(
        describe(&a, &c, 7).map(|d| d.table_components),
        Ok(vec![entry(0, "Reserved"), entry(1, "Position")])
    );
}

#[test]
fn describe_of_an_absent_archetype_is_not_found() {
    let (a, c) = (archetypes(), catalog());
    assert_eq!(describe(&a, &c, 3), Err(not_found(Kind::Archetype, 3)));
}

#[test]
fn describe_names_the_first_component_without_a_record() {
    let c = ComponentCatalog::new(vec![component(1, "A"), component(2, "B")]).unwrap();
    let a = ArchetypeIndex::new(
        vec![
            archetype(0, vec![1, 8, 9], vec![7], vec![]),
            archetype(1, vec![1, 2], vec![6, 5], vec![]),
        ],
        0,
    )
    .unwrap();
    assert_eq!(describe(&a, &c, 0), Err(not_found(Kind::Component, 8)));
    assert_eq!(describe(&a, &c, 1), Err(not_found(Kind::Component, 6)));
}

#[test]
fn resolve_gives_names_or_the_first_unknown_id() {
    let c = catalog();
    assert_eq!(
        resolve(&c, &vec![5, 1, 0], false),
        Ok(vec![
            entry(5, "gfx::Position"),
            entry(1, "physics::Position"),
            entry(0, "core::Reserved")
        ])
    );
    assert_eq!(resolve(&c, &vec![8, 7], true), Ok(vec![entry(8, "Audio"), entry(7, "Time")]));
    assert_eq!(resolve(&c, &vec![1, 4, 6], true), Err(4));
    assert_eq!(resolve(&c, &vec![], true), Ok(vec![]));
}

#[test]
fn listing_helpers() {
    let listing = vec![entry(2, "b"), entry(1, "a")];
    assert_eq!(names_of(listing), vec!["b".to_string(), "a".to_string()]);
    let (p, q) = (component(5, "gfx::Position"), component(1, "physics::Position"));
    assert_eq!(
        full_listing(&vec![&p, &q]),
        vec![entry(5, "gfx::Position"), entry(1, "physics::Position")]
    );
}

#[test]
fn resources_are_listed_alphabetically_by_short_name() {
    let (a, c) = (archetypes(), catalog());
    assert_eq!(list_resources(&a, &c), Ok(vec!["Audio".to_string(), "Time".to_string()]));
}

#[test]
fn resources_are_sorted_by_name_not_by_id() {
    let c = ComponentCatalog::new(vec![
        component(1, "z::Windows"),
        component(2, "a::Time"),
        component(3, "m::Assets<x::Mesh>"),
        component(4, "b::Time"),
    ])
    .unwrap();
    let a =
        ArchetypeIndex::new(vec![archetype(9, vec![1, 2], vec![3, 4], vec![])], 9).unwrap();
    assert_eq!(
        list_resources(&a, &c),
        Ok(vec![
            "Assets<Mesh>".to_string(),
            "Time".to_string(),
            "Time".to_string(),
            "Windows".to_string()
        ])
    );
}

#[test]
fn resources_of_an_empty_archetype_are_none() {
    let a = ArchetypeIndex::new(vec![archetype(3, vec![], vec![], vec![])], 3).unwrap();
    let c = catalog();
    assert_eq!(list_resources(&a, &c), Ok(Vec::new()));
}

#[test]
fn resources_without_their_archetype_are_not_found() {
    let a = ArchetypeIndex::new(vec![archetype(0, vec![], vec![], vec![])], 1).unwrap();
    assert_eq!(list_resources(&a, &catalog()), Err(not_found(Kind::Archetype, 1)));
}

#[test]
fn resources_with_an_unknown_component_are_not_found() {
    let a = ArchetypeIndex::new(vec![archetype(1, vec![7], vec![4, 6], vec![])], 1).unwrap();
    assert_eq!(list_resources(&a, &catalog()), Err(not_found(Kind::Component, 4)));
}

#[test]
fn queries_repeat_their_answers() {
    let (a, c) = (archetypes(), catalog());
    let e = EntityIndex::build(&a);
    assert_eq!(find_archetypes_by_component_id(&a, 3), find_archetypes_by_component_id(&a, 3));
    assert_eq!(find_entities_by_component_id(&a, 3), find_entities_by_component_id(&a, 3));
    assert_eq!(find_archetype_by_entity_id(&e, 10), find_archetype_by_entity_id(&e, 10));
    assert_eq!(describe(&a, &c, 2), describe(&a, &c, 2));
    assert_eq!(list_resources(&a, &c), list_resources(&a, &c));
    assert_eq!(
        find_archetypes_by_component_name(&a, &c, "Position", true),
        find_archetypes_by_component_name(&a, &c, "Position", true)
    );
    assert_eq!(e.list_all(), EntityIndex::build(&a).list_all());
}
