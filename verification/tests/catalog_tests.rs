use ecs_query::catalog::{select_matching, ComponentCatalog};
use ecs_query::model::{Component, ComponentName, StorageKind};
use ecs_query::outcome::{Key, Kind, QueryError, SnapshotError};

fn component(id: usize, name: &str) -> Component {
    Component { id, name: name.to_string(), storage: StorageKind::Table, thread_safe: true }
}

fn entry(id: usize, name: &str) -> ComponentName {
    ComponentName { id, name: name.to_string() }
}

fn sample() -> ComponentCatalog {
    ComponentCatalog::new(vec![
        component(0, "core::Reserved"),
        component(1, "physics::Position"),
        component(2, "physics::Velocity"),
        component(5, "gfx::Position"),
        component(9, "gfx::Sprite"),
    ])
    .unwrap()
}

#[test]
fn every_enumerated_component_can_be_looked_up_and_searched() {
    let catalog = sample();
    for short in [false, true] {
        for listed in catalog.list_all(short) {
            let record = catalog.lookup_by_id(listed.id).unwrap();
            assert_eq!(record.id, listed.id);
            let hits = catalog.filter_by_name_substring(&listed.name, short);
            assert!(hits.contains(&listed), "{:?} not found by its own name", listed);
        }
    }
}

#[test]
fn lookup_by_id_gives_the_record() {
    let catalog = sample();
    assert_eq!(catalog.lookup_by_id(5), Ok(&component(5, "gfx::Position")));
    assert_eq!(catalog.lookup_by_id(1), Ok(&component(1, "physics::Position")));
}

#[test]
fn lookup_by_id_keeps_storage_and_thread_safety() {
    let catalog = ComponentCatalog::new(vec![Component {
        id: 3,
        name: "net::Socket".to_string(),
        storage: StorageKind::SparseSet,
        thread_safe: false,
    }])
    .unwrap();
    let record = catalog.lookup_by_id(3).unwrap();
    assert_eq!(record.storage, StorageKind::SparseSet);
    assert!(!record.thread_safe);
}

#[test]
fn lookup_by_id_of_an_absent_id_is_not_found() {
    let catalog = sample();
    assert_eq!(
        catalog.lookup_by_id(3),
        Err(QueryError::NotFound { kind: Kind::Component, key: Key::Id(3) })
    );
}

#[test]
fn lookup_by_id_of_the_reserved_id_is_not_found() {
    let catalog = sample();
    assert_eq!(
        catalog.lookup_by_id(0),
        Err(QueryError::NotFound { kind: Kind::Component, key: Key::Id(0) })
    );
    let without = ComponentCatalog::new(vec![component(1, "A")]).unwrap();
    assert_eq!(
        without.lookup_by_id(0),
        Err(QueryError::NotFound { kind: Kind::Component, key: Key::Id(0) })
    );
}

#[test]
fn get_gives_the_record_of_the_reserved_id_too() {
    let catalog = sample();
    assert_eq!(catalog.get(0), Some(&component(0, "core::Reserved")));
    assert_eq!(catalog.get(9), Some(&component(9, "gfx::Sprite")));
    assert_eq!(catalog.get(4), None);
}

#[test]
fn list_all_leaves_out_the_reserved_id_and_ascends() {
    let catalog = sample();
    assert_eq!(
        catalog.list_all(false),
        vec![
            entry(1, "physics::Position"),
            entry(2, "physics::Velocity"),
            entry(5, "gfx::Position"),
            entry(9, "gfx::Sprite"),
        ]
    );
}

#[test]
fn list_all_in_short_mode_shows_short_names() {
    let catalog = sample();
    assert_eq!(
        catalog.list_all(true),
        vec![entry(1, "Position"), entry(2, "Velocity"), entry(5, "Position"), entry(9, "Sprite")]
    );
}

#[test]
fn list_all_of_an_empty_catalog_is_empty() {
    let catalog = ComponentCatalog::new(Vec::new()).unwrap();
    assert_eq!(catalog.list_all(true), Vec::<ComponentName>::new());
    assert_eq!(catalog.len(), 0);
    assert_eq!(catalog.count(), 0);
}

#[test]
fn filter_matches_the_displayed_name() {
    let catalog = sample();
    assert_eq!(
        catalog.filter_by_name_substring("gfx", false),
        vec![entry(5, "gfx::Position"), entry(9, "gfx::Sprite")]
    );
    assert_eq!(catalog.filter_by_name_substring("gfx", true), Vec::<ComponentName>::new());
    assert_eq!(
        catalog.filter_by_name_substring("Pos", true),
        vec![entry(1, "Position"), entry(5, "Position")]
    );
}

#[test]
fn filter_is_case_sensitive() {
    let catalog = sample();
    assert_eq!(catalog.filter_by_name_substring("position", true), Vec::<ComponentName>::new());
    assert_eq!(catalog.filter_by_name_substring("Position", true).len(), 2);
}

#[test]
fn filter_with_the_empty_pattern_lists_everything() {
    let catalog = sample();
    assert_eq!(catalog.filter_by_name_substring("", false), catalog.list_all(false));
}

#[test]
fn filter_never_reports_the_reserved_id() {
    let catalog = sample();
    assert_eq!(catalog.filter_by_name_substring("Reserved", false), Vec::<ComponentName>::new());
    assert_eq!(catalog.filter_by_name_substring("core", false), Vec::<ComponentName>::new());
}

#[test]
fn get_components_by_name_with_and_without_filter() {
    let catalog = sample();
    assert_eq!(catalog.get_components_by_name(true, None), catalog.list_all(true));
    assert_eq!(
        catalog.get_components_by_name(false, Some("Velocity")),
        vec![entry(2, "physics::Velocity")]
    );
}

#[test]
fn select_matching_keeps_order_and_entries() {
    let listing = vec![entry(7, "beta"), entry(3, "alphabet"), entry(4, "gamma"), entry(1, "bet")];
    assert_eq!(
        select_matching(listing, "bet"),
        vec![entry(7, "beta"), entry(3, "alphabet"), entry(1, "bet")]
    );
}

#[test]
fn lookup_by_exact_name_may_give_several_records() {
    let catalog = sample();
    assert_eq!(
        catalog.lookup_by_exact_name("Position", true),
        vec![&component(1, "physics::Position"), &component(5, "gfx::Position")]
    );
}

#[test]
fn lookup_by_exact_name_wants_the_whole_name() {
    let catalog = sample();
    assert_eq!(
        catalog.lookup_by_exact_name("gfx::Position", false),
        vec![&component(5, "gfx::Position")]
    );
    assert!(catalog.lookup_by_exact_name("Position", false).is_empty());
    assert!(catalog.lookup_by_exact_name("Pos", true).is_empty());
    assert!(catalog.lookup_by_exact_name("position", true).is_empty());
}

#[test]
fn lookup_by_exact_name_never_gives_the_reserved_id() {
    let catalog = sample();
    assert!(catalog.lookup_by_exact_name("core::Reserved", false).is_empty());
    assert!(catalog.lookup_by_exact_name("Reserved", true).is_empty());
}

#[test]
fn count_leaves_out_the_reserved_id() {
    let catalog = sample();
    assert_eq!(catalog.len(), 5);
    assert_eq!(catalog.count(), 4);
    let without = ComponentCatalog::new(vec![component(1, "A"), component(2, "B")]).unwrap();
    assert_eq!(without.len(), 2);
    assert_eq!(without.count(), 2);
}

#[test]
fn components_in_any_order_are_catalogued_by_id() {
    let catalog =
        ComponentCatalog::new(vec![component(9, "I"), component(2, "B"), component(5, "E")])
            .unwrap();
    assert_eq!(catalog.list_all(false), vec![entry(2, "B"), entry(5, "E"), entry(9, "I")]);
    assert_eq!(catalog.lookup_by_id(5), Ok(&component(5, "E")));
}

#[test]
fn a_repeated_component_id_is_turned_down() {
    let built = ComponentCatalog::new(vec![
        component(4, "A"),
        component(2, "B"),
        component(4, "C"),
        component(2, "D"),
    ]);
    assert_eq!(built.err(), Some(SnapshotError::DuplicateComponent { id: 4 }));
}

#[test]
fn a_repeated_reserved_id_is_turned_down_too() {
    let built = ComponentCatalog::new(vec![component(0, "A"), component(0, "B")]);
    assert_eq!(built.err(), Some(SnapshotError::DuplicateComponent { id: 0 }));
}

#[test]
fn catalog_lookups_repeat_their_answers() {
    let catalog = sample();
    assert_eq!(catalog.list_all(true), catalog.list_all(true));
    assert_eq!(catalog.lookup_by_id(2), catalog.lookup_by_id(2));
    assert_eq!(catalog.lookup_by_id(77), catalog.lookup_by_id(77));
    assert_eq!(
        catalog.filter_by_name_substring("i", false),
        catalog.filter_by_name_substring("i", false)
    );
}
