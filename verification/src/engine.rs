//! The query engine: the questions that cut across the component catalog, the
//! archetype index and the entity index.

use vstd::prelude::*;
use vstd::seq_lib::*;
use crate::archetypes::{archetype_of, fetch, ArchetypeIndex};
use crate::catalog::{enumerated, named, record_of, referents, shown, ComponentCatalog};
use crate::entities::{located, EntityIndex};
use crate::keys::{ascending, lemma_push_contains};
use crate::membership::{
    all_entities, group_of, group_owner, holds_first, is_partition, lemma_members_contains,
    lemma_members_push, lemma_membership_push, lemma_owner, membership, owner,
};
use crate::model::{
    archetype_ids, component_ids, copy_of, Archetype, Component, ComponentName, ComponentNameView,
};
use crate::outcome::{
    not_found_id, not_found_name, outcome, EmptyReason, Kind, QueryError, QueryErrorView,
};
use crate::report::{
    ArchetypeDescription, ArchetypeDescriptionView, EntitySection, EntitySectionView,
};
use crate::text::{alphabetical, display_name, names_sorted, sort_names};

verus! {

/// The test for an archetype that has the component, in either storage.
pub open spec fn holds_component(component: usize) -> spec_fn(Archetype) -> bool {
    |a: Archetype| a.has_component(component)
}

/// The archetypes that have the component, in their order.
pub open spec fn archetypes_with(archetypes: Seq<Archetype>, component: usize) -> Seq<Archetype> {
    archetypes.filter(holds_component(component))
}

/// The ids of the archetypes that have the component, in their order.
pub open spec fn ids_with(archetypes: Seq<Archetype>, component: usize) -> Seq<usize> {
    archetype_ids(archetypes_with(archetypes, component))
}

/// The entities of the archetypes that have the component: archetype after
/// archetype, each in its storage order.
pub open spec fn entities_with(archetypes: Seq<Archetype>, component: usize) -> Seq<u32> {
    all_entities(archetypes_with(archetypes, component))
}

/// What asking for the entities with a component gives: the entities, or the
/// explicit outcome that there are none.
pub open spec fn entities_found(archetypes: Seq<Archetype>, component: usize) -> Result<
    Seq<u32>,
    QueryErrorView,
> {
    if entities_with(archetypes, component).len() == 0 {
        Err(QueryErrorView::Empty { reason: EmptyReason::NoEntities })
    } else {
        Ok(entities_with(archetypes, component))
    }
}

/// The given records as a listing by id and full name.
pub open spec fn full_names(records: Seq<Component>) -> Seq<ComponentNameView> {
    records.map_values(|c: Component| shown(c, false))
}

/// What asking for the archetypes of a named component gives. A name that no
/// component goes by is not found; a name that several components go by is
/// ambiguous, and they are listed; a name of one component gives the archetypes
/// that have that component.
pub open spec fn archetypes_named(
    archetypes: Seq<Archetype>,
    components: Seq<Component>,
    name: Seq<char>,
    short: bool,
) -> Result<Seq<usize>, QueryErrorView> {
    let hits = named(components, name, short);
    if hits.len() == 0 {
        Err(not_found_name(Kind::Component, name))
    } else if hits.len() > 1 {
        Err(QueryErrorView::Ambiguous { name, matches: full_names(hits) })
    } else {
        Ok(ids_with(archetypes, hits[0].id))
    }
}

/// The section of a component: the component and the entities that have it.
pub open spec fn section_of(archetypes: Seq<Archetype>, c: Component) -> EntitySectionView {
    EntitySectionView { component: shown(c, false), entities: entities_with(archetypes, c.id) }
}

/// What asking for the entities of a named component gives. A name that no
/// component goes by is not found; otherwise every component that goes by the
/// name has a section, in ascending order of id.
pub open spec fn entity_sections(
    archetypes: Seq<Archetype>,
    components: Seq<Component>,
    name: Seq<char>,
    short: bool,
) -> Result<Seq<EntitySectionView>, QueryErrorView> {
    let hits = named(components, name, short);
    if hits.len() == 0 {
        Err(not_found_name(Kind::Component, name))
    } else {
        Ok(hits.map_values(|c: Component| section_of(archetypes, c)))
    }
}

/// The test for an id that no record carries.
pub open spec fn lacks_record(components: Seq<Component>) -> spec_fn(usize) -> bool {
    |id: usize| !component_ids(components).contains(id)
}

/// The ids among `ids` that no record carries, in their order.
pub open spec fn missing(components: Seq<Component>, ids: Seq<usize>) -> Seq<usize> {
    ids.filter(lacks_record(components))
}

/// The records that carry the given ids, as a listing in the given display mode.
pub open spec fn resolved(components: Seq<Component>, ids: Seq<usize>, short: bool) -> Seq<
    ComponentNameView,
> {
    ids.map_values(|id: usize| shown(record_of(components, id), short))
}

/// The names of a listing, in its order.
pub open spec fn listed_names(listing: Seq<ComponentNameView>) -> Seq<Seq<char>> {
    listing.map_values(|n: ComponentNameView| n.name)
}

/// What describing an archetype gives: its components by id and short name, in
/// two groups by storage; or, where a component id has no record, the first
/// such id as not found, table storage before sparse-set storage.
pub open spec fn description(archetype: Archetype, components: Seq<Component>) -> Result<
    ArchetypeDescriptionView,
    QueryErrorView,
> {
    let lost = missing(components, archetype.components());
    if lost.len() > 0 {
        Err(not_found_id(Kind::Component, lost[0]))
    } else {
        Ok(
            ArchetypeDescriptionView {
                id: archetype.id,
                table_id: archetype.table_id,
                entities: archetype.entities@,
                table_components: resolved(components, archetype.table_components@, true),
                sparse_components: resolved(components, archetype.sparse_components@, true),
            },
        )
    }
}

/// What describing the archetype `id` gives: the description of the archetype
/// that carries the id, or that there is no such archetype.
pub open spec fn described(
    archetypes: Seq<Archetype>,
    components: Seq<Component>,
    id: usize,
) -> Result<ArchetypeDescriptionView, QueryErrorView> {
    match fetch(archetypes, id) {
        Ok(archetype) => description(archetype, components),
        Err(error) => Err(error),
    }
}

/// What listing the resources gives: the short names of the components of the
/// resources archetype in alphabetical order; or that there is no such
/// archetype; or the first of its component ids that has no record.
pub open spec fn resources_listed(
    archetypes: Seq<Archetype>,
    resources: usize,
    components: Seq<Component>,
) -> Result<Seq<Seq<char>>, QueryErrorView> {
    match fetch(archetypes, resources) {
        Ok(archetype) => {
            let lost = missing(components, archetype.components());
            if lost.len() > 0 {
                Err(not_found_id(Kind::Component, lost[0]))
            } else {
                Ok(alphabetical(listed_names(resolved(components, archetype.components(), true))))
            }
        },
        Err(error) => Err(error),
    }
}

/// With one more archetype, the entities with a component are those found
/// before, followed by the members of the new archetype if it has the component.
pub proof fn lemma_entities_with_push(archetypes: Seq<Archetype>, a: Archetype, component: usize)
    ensures
        entities_with(archetypes.push(a), component) == entities_with(archetypes, component) + (
        if a.has_component(component) {
            a.entities@
        } else {
            Seq::empty()
        }),
        ids_with(archetypes.push(a), component) == if a.has_component(component) {
            ids_with(archetypes, component).push(a.id)
        } else {
            ids_with(archetypes, component)
        },
{
    let kept = archetypes_with(archetypes, component);
    archetypes.lemma_filter_push(a, holds_component(component));
    if a.has_component(component) {
        lemma_membership_push(kept, a);
        lemma_members_push(membership(kept), group_of(a));
        assert(archetype_ids(kept.push(a)) =~= archetype_ids(kept).push(a.id));
    } else {
        assert(entities_with(archetypes, component) + Seq::<u32>::empty() =~= entities_with(
            archetypes,
            component,
        ));
    }
}

/// The entities of all archetypes with one more archetype.
pub proof fn lemma_all_entities_push(archetypes: Seq<Archetype>, a: Archetype)
    ensures
        all_entities(archetypes.push(a)) == all_entities(archetypes) + a.entities@,
{
    lemma_membership_push(archetypes, a);
    lemma_members_push(membership(archetypes), group_of(a));
}

/// An entity is among the entities of all archetypes exactly if it is a member
/// of one of them.
pub proof fn lemma_all_entities_contains(archetypes: Seq<Archetype>, entity: u32)
    ensures
        all_entities(archetypes).contains(entity) <==> exists|j: int|
            0 <= j < archetypes.len() && (#[trigger] archetypes[j]).has_entity(entity),
{
    let groups = membership(archetypes);
    lemma_members_contains(groups, entity);
    if all_entities(archetypes).contains(entity) {
        let j = choose|j: int|
            0 <= j < groups.len() && (#[trigger] groups[j]).entities.contains(entity);
        assert(archetypes[j].has_entity(entity));
    }
    if exists|j: int| 0 <= j < archetypes.len() && (#[trigger] archetypes[j]).has_entity(entity) {
        let j = choose|j: int|
            0 <= j < archetypes.len() && (#[trigger] archetypes[j]).has_entity(entity);
        assert(groups[j].entities.contains(entity));
    }
}

/// Every entity found with a component is a member of some archetype.
pub proof fn lemma_entities_with_subset(archetypes: Seq<Archetype>, component: usize, entity: u32)
    requires
        entities_with(archetypes, component).contains(entity),
    ensures
        all_entities(archetypes).contains(entity),
{
    let kept = archetypes_with(archetypes, component);
    lemma_all_entities_contains(kept, entity);
    lemma_all_entities_contains(archetypes, entity);
    let j = choose|j: int| 0 <= j < kept.len() && (#[trigger] kept[j]).has_entity(entity);
    assert(kept.contains(kept[j]));
    archetypes.lemma_filter_contains_rev(holds_component(component), kept[j]);
    let i = choose|i: int| 0 <= i < archetypes.len() && archetypes[i] == kept[j];
    assert(archetypes[i].has_entity(entity));
}

/// Where membership is a partition, no entity is found twice with a component.
pub proof fn lemma_entities_with_distinct(archetypes: Seq<Archetype>, component: usize)
    requires
        is_partition(archetypes),
    ensures
        entities_with(archetypes, component).no_duplicates(),
    decreases archetypes.len(),
{
    reveal(Seq::filter);
    if archetypes.len() == 0 {
        assert(membership(archetypes_with(archetypes, component)) =~= Seq::empty());
    } else {
        let front = archetypes.drop_last();
        let last = archetypes.last();
        assert(archetypes =~= front.push(last));
        lemma_all_entities_push(front, last);
        lemma_entities_with_push(front, last, component);
        let all = all_entities(front);
        let whole = all + last.entities@;
        assert(all.no_duplicates()) by {
            assert forall|x: int, y: int|
                0 <= x < all.len() && 0 <= y < all.len() && x != y implies all[x] != all[y] by {
                assert(whole[x] != whole[y]);
            }
        }
        lemma_entities_with_distinct(front, component);
        if last.has_component(component) {
            let found = entities_with(front, component);
            assert(last.entities@.no_duplicates()) by {
                assert forall|x: int, y: int|
                    0 <= x < last.entities@.len() && 0 <= y < last.entities@.len() && x
                        != y implies last.entities@[x] != last.entities@[y] by {
                    assert(whole[all.len() + x] != whole[all.len() + y]);
                }
            }
            assert forall|x: int, y: int|
                0 <= x < found.len() && 0 <= y < last.entities@.len() implies found[x]
                != last.entities@[y] by {
                assert(found.contains(found[x]));
                lemma_entities_with_subset(front, component, found[x]);
                let z = choose|z: int| 0 <= z < all.len() && all[z] == found[x];
                assert(whole[z] != whole[all.len() + y]);
            }
            lemma_no_dup_in_concat(found, last.entities@);
        } else {
            assert(entities_with(front, component) + Seq::<u32>::empty() =~= entities_with(
                front,
                component,
            ));
        }
    }
}

/// The ids of the archetypes that have the component, in ascending order: the
/// archetypes whose table components or sparse-set components hold the id, all
/// of them and no others.
pub fn find_archetypes_by_component_id(a: &ArchetypeIndex, component_id: usize) -> (found: Vec<
    usize,
>)
    ensures
        found@ == ids_with(a@, component_id),
        forall|id: usize|
            found@.contains(id) <==> exists|j: int|
                0 <= j < a@.len() && (#[trigger] a@[j]).id == id && a@[j].has_component(
                    component_id,
                ),
        ascending(found@),
{
    let records = a.records();
    let mut found: Vec<usize> = Vec::new();
    let mut j: usize = 0;
    proof {
        reveal(Seq::filter);
        assert(records@.take(0) =~= Seq::empty());
        assert(ids_with(records@.take(0), component_id) =~= Seq::empty());
    }
    while j < records.len()
        invariant
            j <= records.len(),
            ascending(archetype_ids(records@)),
            found@ == ids_with(records@.take(j as int), component_id),
            forall|id: usize|
                found@.contains(id) <==> exists|k: int|
                    0 <= k < j && (#[trigger] records@[k]).id == id && records@[k].has_component(
                        component_id,
                    ),
            ascending(found@),
        decreases records.len() - j,
    {
        let archetype = &records[j];
        let hit = archetype.contains_component(component_id);
        proof {
            assert(records@.take(j + 1) =~= records@.take(j as int).push(*archetype));
            lemma_entities_with_push(records@.take(j as int), *archetype, component_id);
            lemma_push_contains(found@, archetype.id);
            if hit {
                let grown = found@.push(archetype.id);
                assert forall|x: int, y: int| 0 <= x < y < grown.len() implies grown[x]
                    < grown[y] by {
                    if y == found@.len() {
                        assert(found@.contains(found@[x]));
                        let k = choose|k: int|
                            0 <= k < j && (#[trigger] records@[k]).id == found@[x]
                                && records@[k].has_component(component_id);
                        assert(archetype_ids(records@)[k] < archetype_ids(records@)[j as int]);
                    }
                }
            }
        }
        if hit {
            found.push(archetype.id);
        }
        j += 1;
    }
    assert(records@.take(j as int) =~= records@);
    found
}

/// The entities of the archetypes that have the component: archetype after
/// archetype in ascending order of id, each in its storage order. Where there
/// are none, because no archetype has the component or because those that have
/// it are empty, the outcome says so. Where membership is a partition, no entity
/// is reported twice.
pub fn find_entities_by_component_id(a: &ArchetypeIndex, component_id: usize) -> (found: Result<
    Vec<u32>,
    QueryError,
>)
    ensures
        match found {
            Ok(entities) => entities@ == entities_with(a@, component_id) && entities@.len() > 0,
            Err(error) => {
                &&& error@ == (QueryErrorView::Empty { reason: EmptyReason::NoEntities })
                &&& entities_with(a@, component_id).len() == 0
            },
        },
        is_partition(a@) ==> entities_with(a@, component_id).no_duplicates(),
{
    let entities = entities_by_component(a, component_id);
    proof {
        if is_partition(a@) {
            lemma_entities_with_distinct(a@, component_id);
        }
    }
    if entities.len() == 0 {
        Err(QueryError::Empty { reason: EmptyReason::NoEntities })
    } else {
        Ok(entities)
    }
}

/// The entities of the archetypes that have the component, in the same order;
/// an empty vector where there are none.
pub fn entities_by_component(a: &ArchetypeIndex, component_id: usize) -> (entities: Vec<u32>)
    ensures
        entities@ == entities_with(a@, component_id),
{
    let records = a.records();
    let mut entities: Vec<u32> = Vec::new();
    let mut j: usize = 0;
    proof {
        reveal(Seq::filter);
        assert(records@.take(0) =~= Seq::empty());
        assert(membership(archetypes_with(records@.take(0), component_id)) =~= Seq::empty());
    }
    while j < records.len()
        invariant
            j <= records.len(),
            entities@ == entities_with(records@.take(j as int), component_id),
        decreases records.len() - j,
    {
        let archetype = &records[j];
        proof {
            assert(records@.take(j + 1) =~= records@.take(j as int).push(*archetype));
            lemma_entities_with_push(records@.take(j as int), *archetype, component_id);
        }
        if archetype.contains_component(component_id) {
            let ghost before = entities@;
            let mut k: usize = 0;
            while k < archetype.entities.len()
                invariant
                    k <= archetype.entities.len(),
                    entities@ == before + archetype.entities@.take(k as int),
                decreases archetype.entities.len() - k,
            {
                entities.push(archetype.entities[k]);
                k += 1;
            }
            assert(archetype.entities@.take(k as int) =~= archetype.entities@);
        }
        j += 1;
    }
    assert(records@.take(j as int) =~= records@);
    entities
}

/// The id of the first archetype, in ascending order of id, of which the entity
/// is a member. Membership is meant to be a partition; this search does not
/// rely on it.
pub fn get_archetype_id_by_entity_id(a: &ArchetypeIndex, entity_id: u32) -> (found: Option<usize>)
    ensures
        found == owner(a@, entity_id),
{
    let records = a.records();
    let mut j: usize = 0;
    while j < records.len()
        invariant
            j <= records.len(),
            records@ == a@,
            forall|k: int| 0 <= k < j ==> !(#[trigger] records@[k]).has_entity(entity_id),
        decreases records.len() - j,
    {
        if records[j].contains_entity(entity_id) {
            proof {
                let groups = membership(records@);
                assert(holds_first(groups, entity_id, j as int)) by {
                    assert(groups[j as int].entities == records@[j as int].entities@);
                    assert forall|k: int| 0 <= k < j implies !(
                    #[trigger] groups[k]).entities.contains(entity_id) by {
                        assert(!records@[k].has_entity(entity_id));
                    }
                }
                lemma_owner(groups, entity_id);
                assert(group_owner(groups, entity_id) == Some(groups[j as int].id));
            }
            return Some(records[j].id);
        }
        j += 1;
    }
    proof {
        let groups = membership(records@);
        assert forall|k: int| !holds_first(groups, entity_id, k) by {
            if holds_first(groups, entity_id, k) {
                assert(records@[k].has_entity(entity_id));
            }
        }
    }
    None
}

/// The id of the archetype that owns the entity, as the entity index has it.
pub fn find_archetype_by_entity_id(e: &EntityIndex, entity_id: u32) -> (found: Result<
    usize,
    QueryError,
>)
    ensures
        match found {
            Ok(archetype) => e@.contains((entity_id, archetype)),
            Err(error) => {
                &&& error@ == not_found_id(Kind::Entity, entity_id as usize)
                &&& forall|archetype: usize| !e@.contains((entity_id, archetype))
            },
        },
        outcome(found) == located(e@, entity_id),
{
    e.archetype_of(entity_id)
}

/// The numbers of live entities, of enumerated components and of archetypes.
/// The component with the reserved id is not counted, as it is not listed.
pub fn counts(a: &ArchetypeIndex, c: &ComponentCatalog, e: &EntityIndex) -> (numbers: (
    usize,
    usize,
    usize,
))
    ensures
        numbers == (e@.len() as usize, enumerated(c@).len() as usize, a@.len() as usize),
{
    (e.len(), c.count(), a.len())
}

/// The given records as a listing by id and full name.
pub fn full_listing(records: &Vec<&Component>) -> (listing: Vec<ComponentName>)
    ensures
        listing.deep_view() == full_names(referents(records@)),
{
    let mut listing: Vec<ComponentName> = Vec::new();
    let mut i: usize = 0;
    assert(listing.deep_view() =~= full_names(referents(records@.take(0))));
    while i < records.len()
        invariant
            i <= records.len(),
            listing.deep_view() == full_names(referents(records@.take(i as int))),
        decreases records.len() - i,
    {
        let c = records[i];
        let entry = ComponentName { id: c.id, name: c.name.clone() };
        let ghost before = listing.deep_view();
        let ghost added = entry@;
        listing.push(entry);
        proof {
            assert(listing.deep_view() =~= before.push(added));
            assert(records@.take(i + 1) =~= records@.take(i as int).push(c));
            assert(full_names(referents(records@.take(i as int).push(c))) =~= before.push(
                shown(*c, false),
            ));
        }
        i += 1;
    }
    assert(records@.take(i as int) =~= records@);
    listing
}

/// The ids of the archetypes that have the component with the given displayed
/// name. The name has to denote exactly one component: no guess is made.
pub fn find_archetypes_by_component_name(
    a: &ArchetypeIndex,
    c: &ComponentCatalog,
    component_name: &str,
    short: bool,
) -> (found: Result<Vec<usize>, QueryError>)
    ensures
        outcome(found) == archetypes_named(a@, c@, component_name@, short),
{
    let hits = c.lookup_by_exact_name(component_name, short);
    if hits.len() == 0 {
        Err(QueryError::missing_name(Kind::Component, component_name))
    } else if hits.len() > 1 {
        Err(
            QueryError::Ambiguous {
                name: component_name.to_owned(),
                matches: full_listing(&hits),
            },
        )
    } else {
        let ids = find_archetypes_by_component_id(a, hits[0].id);
        assert(ids.deep_view() =~= ids@);
        assert(referents(hits@)[0] == *hits@[0]);
        Ok(ids)
    }
}

/// For every component with the given displayed name, in ascending order of id,
/// the component and the entities that have it. A name that several components
/// go by is not resolved by a guess: each of them has its section, under its id
/// and full name. A name that no component goes by is not found.
pub fn find_entities_by_component_name(
    a: &ArchetypeIndex,
    c: &ComponentCatalog,
    component_name: &str,
    short: bool,
) -> (found: Result<Vec<EntitySection>, QueryError>)
    ensures
        outcome(found) == entity_sections(a@, c@, component_name@, short),
{
    let hits = c.lookup_by_exact_name(component_name, short);
    if hits.len() == 0 {
        return Err(QueryError::missing_name(Kind::Component, component_name));
    }
    let ghost records = referents(hits@);
    let mut sections: Vec<EntitySection> = Vec::new();
    let mut i: usize = 0;
    assert(sections.deep_view() =~= records.take(0).map_values(
        |c: Component| section_of(a@, c),
    ));
    while i < hits.len()
        invariant
            i <= hits.len(),
            records == referents(hits@),
            sections.deep_view() == records.take(i as int).map_values(
                |c: Component| section_of(a@, c),
            ),
        decreases hits.len() - i,
    {
        let hit = hits[i];
        let section = EntitySection {
            component: ComponentName { id: hit.id, name: hit.name.clone() },
            entities: entities_by_component(a, hit.id),
        };
        let ghost before = sections.deep_view();
        let ghost added = section@;
        sections.push(section);
        proof {
            assert(sections.deep_view() =~= before.push(added));
            assert(records[i as int] == *hit);
            assert(records.take(i + 1).map_values(|c: Component| section_of(a@, c)) =~= before.push(
                section_of(a@, *hit),
            ));
        }
        i += 1;
    }
    assert(records.take(i as int) =~= records);
    Ok(sections)
}

/// The records that carry the given ids, as a listing in the given display
/// mode; or the first of the ids that no record carries.
pub fn resolve(c: &ComponentCatalog, ids: &Vec<usize>, short: bool) -> (listing: Result<
    Vec<ComponentName>,
    usize,
>)
    ensures
        match listing {
            Ok(names) => {
                &&& missing(c@, ids@).len() == 0
                &&& names.deep_view() == resolved(c@, ids@, short)
            },
            Err(id) => missing(c@, ids@).len() > 0 && missing(c@, ids@)[0] == id,
        },
{
    let mut names: Vec<ComponentName> = Vec::new();
    let mut i: usize = 0;
    proof {
        reveal(Seq::filter);
        assert(ids@.take(0) =~= Seq::empty());
        assert(names.deep_view() =~= resolved(c@, ids@.take(0), short));
    }
    while i < ids.len()
        invariant
            i <= ids.len(),
            missing(c@, ids@.take(i as int)).len() == 0,
            names.deep_view() == resolved(c@, ids@.take(i as int), short),
        decreases ids.len() - i,
    {
        let id = ids[i];
        proof {
            assert(ids@.take(i + 1) =~= ids@.take(i as int).push(id));
            ids@.take(i as int).lemma_filter_push(id, lacks_record(c@));
        }
        match c.get(id) {
            Some(record) => {
                let entry = ComponentName {
                    id: record.id,
                    name: display_name(record.name.as_str(), short),
                };
                let ghost before = names.deep_view();
                let ghost added = entry@;
                names.push(entry);
                proof {
                    assert(names.deep_view() =~= before.push(added));
                    assert(resolved(c@, ids@.take(i as int).push(id), short) =~= before.push(
                        shown(record_of(c@, id), short),
                    ));
                }
            },
            None => {
                proof {
                    let rest = ids@.skip(i + 1);
                    assert(ids@ =~= ids@.take(i + 1) + rest);
                    Seq::filter_distributes_over_add(ids@.take(i + 1), rest, lacks_record(c@));
                    assert(missing(c@, ids@.take(i + 1)) =~= seq![id]);
                }
                return Err(id);
            },
        }
        i += 1;
    }
    assert(ids@.take(i as int) =~= ids@);
    Ok(names)
}

/// The archetype with the given id, with its components resolved to short
/// names in two groups by storage.
pub fn describe(a: &ArchetypeIndex, c: &ComponentCatalog, archetype_id: usize) -> (found: Result<
    ArchetypeDescription,
    QueryError,
>)
    ensures
        outcome(found) == described(a@, c@, archetype_id),
{
    let archetype = match a.get(archetype_id) {
        Ok(archetype) => archetype,
        Err(error) => {
            return Err(error);
        },
    };
    proof {
        Seq::filter_distributes_over_add(
            archetype.table_components@,
            archetype.sparse_components@,
            lacks_record(c@),
        );
    }
    let table_components = match resolve(c, &archetype.table_components, true) {
        Ok(names) => names,
        Err(id) => {
            return Err(QueryError::missing_id(Kind::Component, id));
        },
    };
    let sparse_components = match resolve(c, &archetype.sparse_components, true) {
        Ok(names) => names,
        Err(id) => {
            return Err(QueryError::missing_id(Kind::Component, id));
        },
    };
    Ok(
        ArchetypeDescription {
            id: archetype.id,
            table_id: archetype.table_id,
            entities: copy_of(&archetype.entities),
            table_components,
            sparse_components,
        },
    )
}

/// The names of a listing, in its order.
pub fn names_of(listing: Vec<ComponentName>) -> (names: Vec<String>)
    ensures
        names.deep_view() == listed_names(listing.deep_view()),
{
    let ghost input = listing@;
    let ghost all = listing.deep_view();
    let mut names: Vec<String> = Vec::new();
    assert(names.deep_view() =~= listed_names(all.take(0)));
    for entry in it: listing
        invariant
            it.seq() == input,
            all.len() == input.len(),
            forall|k: int| 0 <= k < input.len() ==> all[k] == input[k]@,
            names.deep_view() == listed_names(all.take(it.index() as int)),
    {
        let ghost before = names.deep_view();
        let ghost added = entry.name@;
        names.push(entry.name);
        proof {
            let j = it.index() as int;
            assert(names.deep_view() =~= before.push(added));
            assert(listed_names(all.take(j + 1)) =~= before.push(added));
        }
    }
    assert(all.take(all.len() as int) =~= all);
    names
}

/// The short names of the resources, in alphabetical order: the components of
/// the resources archetype, resolved through the catalog.
pub fn list_resources(archetypes: &ArchetypeIndex, components: &ComponentCatalog) -> (listing:
    Result<Vec<String>, QueryError>)
    ensures
        outcome(listing) == resources_listed(archetypes@, archetypes.resources(), components@),
        listing matches Ok(names) ==> {
            &&& names_sorted(names.deep_view())
            &&& names.deep_view().to_multiset() == listed_names(
                resolved(
                    components@,
                    archetype_of(archetypes@, archetypes.resources()).components(),
                    true,
                ),
            ).to_multiset()
        },
{
    let archetype = match archetypes.get(archetypes.resources_id()) {
        Ok(archetype) => archetype,
        Err(error) => {
            return Err(error);
        },
    };
    let ids = archetype.component_list();
    match resolve(components, &ids, true) {
        Ok(listing) => Ok(sort_names(names_of(listing))),
        Err(id) => Err(QueryError::missing_id(Kind::Component, id)),
    }
}

} // verus!
