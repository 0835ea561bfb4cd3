//! What holds of the queries taken together.

use vstd::prelude::*;
use vstd::seq_lib::*;
use crate::archetypes::{archetype_of, lemma_archetype_of};
use crate::catalog::{
    enumerated, holds_pattern, is_enumerated, lemma_record_of, lookup, matching, names, record_of,
    shown,
};
use crate::command::{answers, Command, Response};
use crate::engine::{
    archetypes_with, entities_with, holds_component, ids_with, lemma_all_entities_contains,
    lemma_all_entities_push, lemma_entities_with_distinct,
};
use crate::entities::{ascending_entities, lemma_located_unique, located, tracks};
use crate::keys::ascending;
use crate::membership::{all_entities, group_owner, is_partition, membership, owner, Group};
use crate::model::{archetype_ids, component_ids, Archetype, Component, RESERVED_ID};
use crate::outcome::QueryErrorView;
use crate::snapshot::Snapshot;
use crate::text::{displayed_name, is_substring, occurs_at};

verus! {

/// Every component that a catalog holds under another id than the reserved one
/// can be looked up by its id, and a search for its displayed name, in either
/// display mode, finds it.
pub proof fn law_lookup_and_search(components: Seq<Component>, id: usize, short: bool)
    requires
        ascending(component_ids(components)),
        component_ids(components).contains(id),
        id != RESERVED_ID,
    ensures
        lookup(components, id) == Ok::<Component, QueryErrorView>(record_of(components, id)),
        record_of(components, id).id == id,
        matching(
            names(components, short),
            displayed_name(record_of(components, id).name@, short),
        ).contains(shown(record_of(components, id), short)),
{
    let i = component_ids(components).index_of(id);
    lemma_record_of(components, i);
    let record = components[i];
    let pattern = displayed_name(record.name@, short);
    components.lemma_filter_contains(is_enumerated(), i);
    let listed = enumerated(components);
    let k = listed.index_of(record);
    let all = names(components, short);
    assert(all[k] == shown(record, short));
    assert(occurs_at(pattern, pattern, 0));
    assert(is_substring(pattern, all[k].name));
    all.lemma_filter_contains(holds_pattern(pattern), k);
}

/// The archetypes found for a component are exactly the archetypes that have
/// it: none is missing and none is added.
pub proof fn law_sound_and_complete(archetypes: Seq<Archetype>, component: usize, a: Archetype)
    ensures
        archetypes_with(archetypes, component).contains(a) <==> archetypes.contains(a)
            && a.has_component(component),
{
    let found = archetypes_with(archetypes, component);
    if found.contains(a) {
        archetypes.lemma_filter_contains_rev(holds_component(component), a);
    }
    if archetypes.contains(a) && a.has_component(component) {
        let i = archetypes.index_of(a);
        archetypes.lemma_filter_contains(holds_component(component), i);
    }
}

/// Where membership is a partition, no entity is a member of two archetypes.
pub proof fn lemma_partition_disjoint(archetypes: Seq<Archetype>, i: int, j: int, entity: u32)
    requires
        is_partition(archetypes),
        0 <= i < j < archetypes.len(),
        archetypes[i].has_entity(entity),
    ensures
        !archetypes[j].has_entity(entity),
    decreases archetypes.len(),
{
    let front = archetypes.drop_last();
    let last = archetypes.last();
    assert(archetypes =~= front.push(last));
    lemma_all_entities_push(front, last);
    let all = all_entities(front);
    let whole = all + last.entities@;
    if j == archetypes.len() - 1 {
        lemma_all_entities_contains(front, entity);
        assert(front[i].has_entity(entity));
        if last.has_entity(entity) {
            let x = choose|x: int| 0 <= x < all.len() && all[x] == entity;
            let y = choose|y: int| 0 <= y < last.entities@.len() && last.entities@[y] == entity;
            assert(whole[x] == whole[all.len() + y]);
        }
    } else {
        assert(all.no_duplicates()) by {
            assert forall|x: int, y: int|
                0 <= x < all.len() && 0 <= y < all.len() && x != y implies all[x] != all[y] by {
                assert(whole[x] != whole[y]);
            }
        }
        assert(front[i] == archetypes[i]);
        assert(front[j] == archetypes[j]);
        lemma_partition_disjoint(front, i, j, entity);
    }
}

/// The entity lists of the archetypes with the given ids, in the order of the ids.
pub open spec fn entity_lists(archetypes: Seq<Archetype>, ids: Seq<usize>) -> Seq<Seq<u32>> {
    ids.map_values(|id: usize| archetype_of(archetypes, id).entities@)
}

/// No entity occurs in two of the lists.
pub open spec fn pairwise_disjoint(lists: Seq<Seq<u32>>) -> bool {
    forall|i: int, j: int, entity: u32|
        #![trigger lists[i].contains(entity), lists[j].contains(entity)]
        0 <= i < j < lists.len() && lists[i].contains(entity) ==> !lists[j].contains(entity)
}

/// Where membership is a partition, the entity lists of the archetypes found
/// for a component have no entity in common, and one after the other they are
/// the entities found for the component, none of them twice.
pub proof fn law_partition(archetypes: Seq<Archetype>, component: usize)
    requires
        ascending(archetype_ids(archetypes)),
        is_partition(archetypes),
    ensures
        pairwise_disjoint(entity_lists(archetypes, ids_with(archetypes, component))),
        entity_lists(archetypes, ids_with(archetypes, component)).flatten() == entities_with(
            archetypes,
            component,
        ),
        entities_with(archetypes, component).no_duplicates(),
{
    let found = archetypes_with(archetypes, component);
    let ids = ids_with(archetypes, component);
    let lists = entity_lists(archetypes, ids);
    assert forall|i: int| 0 <= i < found.len() implies lists[i] == found[i].entities@ by {
        assert(found.contains(found[i]));
        archetypes.lemma_filter_contains_rev(holds_component(component), found[i]);
        let k = archetypes.index_of(found[i]);
        lemma_archetype_of(archetypes, k);
    }
    assert(lists =~= membership(found).map_values(|g: Group| g.entities));
    lemma_entities_with_distinct(archetypes, component);
    assert forall|i: int, j: int, entity: u32|
        0 <= i < j < lists.len() && lists[i].contains(entity) implies !lists[j].contains(
            entity,
        ) by {
        lemma_partition_disjoint(found, i, j, entity);
    }
}

/// An entity is listed under an archetype exactly if asking for the archetype
/// of the entity gives that archetype.
pub proof fn law_consistency(pairs: Seq<(u32, usize)>, entity: u32, archetype: usize)
    requires
        ascending_entities(pairs),
    ensures
        pairs.contains((entity, archetype)) <==> located(pairs, entity) == Ok::<
            usize,
            QueryErrorView,
        >(archetype),
{
    if pairs.contains((entity, archetype)) {
        let chosen = choose|a: usize| pairs.contains((entity, a));
        lemma_located_unique(pairs, entity, archetype, chosen);
    }
}

/// In a snapshot the entity index and a search through the archetypes agree on
/// the owner of every entity: the first archetype, in ascending order of id, of
/// which the entity is a member.
pub proof fn law_index_agrees_with_search(snapshot: Snapshot, entity: u32)
    requires
        snapshot.wf(),
    ensures
        match owner(snapshot.archetypes()@, entity) {
            Some(archetype) => located(snapshot.entities()@, entity) == Ok::<
                usize,
                QueryErrorView,
            >(archetype),
            None => located(snapshot.entities()@, entity) is Err,
        },
{
    let pairs = snapshot.entities()@;
    let groups = membership(snapshot.archetypes()@);
    assert(tracks(pairs, groups));
    match group_owner(groups, entity) {
        Some(archetype) => {
            assert(pairs.contains((entity, archetype)));
            law_consistency(pairs, entity, archetype);
        },
        None => {
            assert forall|a: usize| !pairs.contains((entity, a)) by {
                if pairs.contains((entity, a)) {
                    assert(group_owner(groups, entity) == Some(a));
                }
            }
        },
    }
}

/// Asking again gives the same answer: any two answers to one command against
/// one snapshot stand for the same thing.
pub proof fn law_same_answer(
    snapshot: Snapshot,
    command: Command,
    first: Response,
    second: Response,
)
    requires
        answers(snapshot, command, first),
        answers(snapshot, command, second),
    ensures
        first@ == second@,
{
}

} // verus!
