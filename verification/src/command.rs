//! The command surface: every request that the query engine answers, as a
//! closed set of well-formed variants, and the answer to each.

use vstd::prelude::*;
use crate::archetypes::census;
use crate::catalog::{enumerated, lookup, matching, named, names, referents};
use crate::engine::{
    archetypes_named, counts, describe, described, entities_found, entity_sections,
    find_archetype_by_entity_id, find_archetypes_by_component_id,
    find_archetypes_by_component_name, find_entities_by_component_id,
    find_entities_by_component_name, ids_with, list_resources, resources_listed,
};
use crate::entities::located;
use crate::model::{Archetype, Component, ComponentName, ComponentNameView};
use crate::outcome::{outcome, QueryError, QueryErrorView};
use crate::report::{
    ArchetypeDescription, ArchetypeDescriptionView, EntitySection, EntitySectionView,
};
use crate::snapshot::Snapshot;

verus! {

/// A request. The argument layer builds one from what the user typed; a
/// combination of arguments that means nothing has no variant.
#[derive(Clone, Debug, PartialEq, Eq)]
pub enum Command {
    /// The numbers of entities, components and archetypes.
    Counts,
    /// Every archetype with its number of entities.
    ListArchetypes,
    /// One archetype, described.
    ArchetypeInfo { id: usize },
    /// The archetypes that have a component, by its id.
    FindArchetypesByComponentId { id: usize },
    /// The archetypes that have a component, by its displayed name.
    FindArchetypesByComponentName { name: String, short: bool },
    /// The archetype that owns an entity.
    FindArchetypeByEntityId { entity: u32 },
    /// The components, all or those whose displayed name contains the filter.
    ListComponents { filter: Option<String>, short: bool },
    /// One component, by its id.
    ComponentInfo { id: usize },
    /// The components that go by a displayed name.
    ComponentInfoByName { name: String, short: bool },
    /// Every live entity with its archetype.
    ListEntities,
    /// The entities that have a component, by its id.
    FindEntitiesByComponentId { id: usize },
    /// The entities that have a component, by its displayed name.
    FindEntitiesByComponentName { name: String, short: bool },
    /// The names of the resources.
    ListResources,
}

/// What a [`Command`] stands for.
pub enum CommandView {
    Counts,
    ListArchetypes,
    ArchetypeInfo { id: usize },
    FindArchetypesByComponentId { id: usize },
    FindArchetypesByComponentName { name: Seq<char>, short: bool },
    FindArchetypeByEntityId { entity: u32 },
    ListComponents { filter: Option<Seq<char>>, short: bool },
    ComponentInfo { id: usize },
    ComponentInfoByName { name: Seq<char>, short: bool },
    ListEntities,
    FindEntitiesByComponentId { id: usize },
    FindEntitiesByComponentName { name: Seq<char>, short: bool },
    ListResources,
}

impl View for Command {
    type V = CommandView;

    open spec fn view(&self) -> CommandView {
        match self {
            Command::Counts => CommandView::Counts,
            Command::ListArchetypes => CommandView::ListArchetypes,
            Command::ArchetypeInfo { id } => CommandView::ArchetypeInfo { id: *id },
            Command::FindArchetypesByComponentId {
                id,
            } => CommandView::FindArchetypesByComponentId { id: *id },
            Command::FindArchetypesByComponentName {
                name,
                short,
            } => CommandView::FindArchetypesByComponentName { name: name@, short: *short },
            Command::FindArchetypeByEntityId { entity } => CommandView::FindArchetypeByEntityId {
                entity: *entity,
            },
            Command::ListComponents { filter, short } => CommandView::ListComponents {
                filter: match filter {
                    Some(pattern) => Some(pattern@),
                    None => None,
                },
                short: *short,
            },
            Command::ComponentInfo { id } => CommandView::ComponentInfo { id: *id },
            Command::ComponentInfoByName { name, short } => CommandView::ComponentInfoByName {
                name: name@,
                short: *short,
            },
            Command::ListEntities => CommandView::ListEntities,
            Command::FindEntitiesByComponentId { id } => CommandView::FindEntitiesByComponentId {
                id: *id,
            },
            Command::FindEntitiesByComponentName {
                name,
                short,
            } => CommandView::FindEntitiesByComponentName { name: name@, short: *short },
            Command::ListResources => CommandView::ListResources,
        }
    }
}

/// The structured answer to a [`Command`]. Rendering it as text is left to the
/// caller.
#[derive(Debug, PartialEq, Eq)]
pub enum Response {
    Counts { entities: usize, components: usize, archetypes: usize },
    /// Archetype ids, each with its number of entities.
    Archetypes(Vec<(usize, usize)>),
    Archetype(Result<ArchetypeDescription, QueryError>),
    ArchetypeIds(Result<Vec<usize>, QueryError>),
    ArchetypeId(Result<usize, QueryError>),
    Components(Vec<ComponentName>),
    Component(Result<Component, QueryError>),
    ComponentRecords(Vec<Component>),
    /// Entity ids, each with the id of its archetype.
    Entities(Vec<(u32, usize)>),
    EntityIds(Result<Vec<u32>, QueryError>),
    EntitySections(Result<Vec<EntitySection>, QueryError>),
    Resources(Result<Vec<String>, QueryError>),
}

/// What a [`Response`] stands for.
pub enum ResponseView {
    Counts { entities: usize, components: usize, archetypes: usize },
    Archetypes(Seq<(usize, usize)>),
    Archetype(Result<ArchetypeDescriptionView, QueryErrorView>),
    ArchetypeIds(Result<Seq<usize>, QueryErrorView>),
    ArchetypeId(Result<usize, QueryErrorView>),
    Components(Seq<ComponentNameView>),
    Component(Result<Component, QueryErrorView>),
    ComponentRecords(Seq<Component>),
    Entities(Seq<(u32, usize)>),
    EntityIds(Result<Seq<u32>, QueryErrorView>),
    EntitySections(Result<Seq<EntitySectionView>, QueryErrorView>),
    Resources(Result<Seq<Seq<char>>, QueryErrorView>),
}

impl View for Response {
    type V = ResponseView;

    open spec fn view(&self) -> ResponseView {
        match self {
            Response::Counts { entities, components, archetypes } => ResponseView::Counts {
                entities: *entities,
                components: *components,
                archetypes: *archetypes,
            },
            Response::Archetypes(listing) => ResponseView::Archetypes(listing@),
            Response::Archetype(found) => ResponseView::Archetype(outcome(*found)),
            Response::ArchetypeIds(found) => ResponseView::ArchetypeIds(
                match found {
                    Ok(ids) => Ok(ids@),
                    Err(error) => Err(error@),
                },
            ),
            Response::ArchetypeId(found) => ResponseView::ArchetypeId(outcome(*found)),
            Response::Components(listing) => ResponseView::Components(listing.deep_view()),
            Response::Component(found) => ResponseView::Component(
                match found {
                    Ok(record) => Ok(*record),
                    Err(error) => Err(error@),
                },
            ),
            Response::ComponentRecords(records) => ResponseView::ComponentRecords(records@),
            Response::Entities(listing) => ResponseView::Entities(listing@),
            Response::EntityIds(found) => ResponseView::EntityIds(
                match found {
                    Ok(ids) => Ok(ids@),
                    Err(error) => Err(error@),
                },
            ),
            Response::EntitySections(found) => ResponseView::EntitySections(outcome(*found)),
            Response::Resources(found) => ResponseView::Resources(outcome(*found)),
        }
    }
}

/// The answer to a command, as a function of what the three indexes hold and of
/// the id of the resources archetype.
pub open spec fn answer(
    components: Seq<Component>,
    archetypes: Seq<Archetype>,
    resources: usize,
    entities: Seq<(u32, usize)>,
    command: CommandView,
) -> ResponseView {
    match command {
        CommandView::Counts => ResponseView::Counts {
            entities: entities.len() as usize,
            components: enumerated(components).len() as usize,
            archetypes: archetypes.len() as usize,
        },
        CommandView::ListArchetypes => ResponseView::Archetypes(census(archetypes)),
        CommandView::ArchetypeInfo { id } => ResponseView::Archetype(
            described(archetypes, components, id),
        ),
        CommandView::FindArchetypesByComponentId { id } => ResponseView::ArchetypeIds(
            Ok(ids_with(archetypes, id)),
        ),
        CommandView::FindArchetypesByComponentName { name, short } => ResponseView::ArchetypeIds(
            archetypes_named(archetypes, components, name, short),
        ),
        CommandView::FindArchetypeByEntityId { entity } => ResponseView::ArchetypeId(
            located(entities, entity),
        ),
        CommandView::ListComponents { filter, short } => ResponseView::Components(
            match filter {
                Some(pattern) => matching(names(components, short), pattern),
                None => names(components, short),
            },
        ),
        CommandView::ComponentInfo { id } => ResponseView::Component(lookup(components, id)),
        CommandView::ComponentInfoByName { name, short } => ResponseView::ComponentRecords(
            named(components, name, short),
        ),
        CommandView::ListEntities => ResponseView::Entities(entities),
        CommandView::FindEntitiesByComponentId { id } => ResponseView::EntityIds(
            entities_found(archetypes, id),
        ),
        CommandView::FindEntitiesByComponentName { name, short } => ResponseView::EntitySections(
            entity_sections(archetypes, components, name, short),
        ),
        CommandView::ListResources => ResponseView::Resources(
            resources_listed(archetypes, resources, components),
        ),
    }
}

/// `response` is the answer to `command` against `snapshot`.
pub open spec fn answers(snapshot: Snapshot, command: Command, response: Response) -> bool {
    response@ == answer(
        snapshot.components()@,
        snapshot.archetypes()@,
        snapshot.archetypes().resources(),
        snapshot.entities()@,
        command@,
    )
}

/// Copies of the records that a vector of references points to.
pub fn duplicates(records: &Vec<&Component>) -> (copies: Vec<Component>)
    ensures
        copies@ == referents(records@),
{
    let mut copies: Vec<Component> = Vec::new();
    let mut i: usize = 0;
    assert(copies@ =~= referents(records@.take(0)));
    while i < records.len()
        invariant
            i <= records.len(),
            copies@ == referents(records@.take(i as int)),
        decreases records.len() - i,
    {
        copies.push(records[i].duplicate());
        assert(records@.take(i + 1) =~= records@.take(i as int).push(records@[i as int]));
        assert(referents(records@.take(i as int).push(records@[i as int])) =~= referents(
            records@.take(i as int),
        ).push(*records@[i as int]));
        i += 1;
    }
    assert(records@.take(i as int) =~= records@);
    copies
}

/// Answers a command against a snapshot. Every outcome, the missing, the
/// ambiguous and the empty included, is part of the answer.
pub fn match_commands(command: &Command, snapshot: &Snapshot) -> (response: Response)
    ensures
        answers(*snapshot, *command, response),
{
    let c = snapshot.components();
    let a = snapshot.archetypes();
    let e = snapshot.entities();
    match command {
        Command::Counts => {
            let (entities, components, archetypes) = counts(a, c, e);
            Response::Counts { entities, components, archetypes }
        },
        Command::ListArchetypes => Response::Archetypes(a.list_all()),
        Command::ArchetypeInfo { id } => Response::Archetype(describe(a, c, *id)),
        Command::FindArchetypesByComponentId { id } => Response::ArchetypeIds(
            Ok(find_archetypes_by_component_id(a, *id)),
        ),
        Command::FindArchetypesByComponentName { name, short } => {
            let found = find_archetypes_by_component_name(a, c, name.as_str(), *short);
            proof {
                if found is Ok {
                    assert(found->Ok_0.deep_view() =~= found->Ok_0@);
                }
            }
            Response::ArchetypeIds(found)
        },
        Command::FindArchetypeByEntityId { entity } => Response::ArchetypeId(
            find_archetype_by_entity_id(e, *entity),
        ),
        Command::ListComponents { filter, short } => {
            let listing = match filter {
                Some(pattern) => c.get_components_by_name(*short, Some(pattern.as_str())),
                None => c.get_components_by_name(*short, None),
            };
            Response::Components(listing)
        },
        Command::ComponentInfo { id } => {
            let found = match c.lookup_by_id(*id) {
                Ok(record) => Ok(record.duplicate()),
                Err(error) => Err(error),
            };
            Response::Component(found)
        },
        Command::ComponentInfoByName { name, short } => {
            let hits = c.lookup_by_exact_name(name.as_str(), *short);
            Response::ComponentRecords(duplicates(&hits))
        },
        Command::ListEntities => Response::Entities(e.list_all()),
        Command::FindEntitiesByComponentId { id } => Response::EntityIds(
            find_entities_by_component_id(a, *id),
        ),
        Command::FindEntitiesByComponentName { name, short } => Response::EntitySections(
            find_entities_by_component_name(a, c, name.as_str(), *short),
        ),
        Command::ListResources => Response::Resources(list_resources(a, c)),
    }
}

} // verus!
