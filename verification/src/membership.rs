//! Which entities belong to which archetype: the mathematical model behind the
//! entity index and the entity queries, with the facts proved of it.

use vstd::prelude::*;
use vstd::seq_lib::*;
use crate::model::Archetype;

verus! {

/// The members of one archetype: its id and its entities in storage order.
pub struct Group {
    pub id: usize,
    pub entities: Seq<u32>,
}

/// The group of an archetype.
pub open spec fn group_of(archetype: Archetype) -> Group {
    Group { id: archetype.id, entities: archetype.entities@ }
}

/// The groups of a sequence of archetypes, in order.
pub open spec fn membership(archetypes: Seq<Archetype>) -> Seq<Group> {
    archetypes.map_values(|a: Archetype| group_of(a))
}

/// The group at position `j` holds `entity`, and no group before it does.
pub open spec fn holds_first(groups: Seq<Group>, entity: u32, j: int) -> bool {
    &&& 0 <= j < groups.len()
    &&& groups[j].entities.contains(entity)
    &&& forall|k: int| 0 <= k < j ==> !(#[trigger] groups[k]).entities.contains(entity)
}

/// The id of the first group, in order, that holds `entity`.
pub open spec fn group_owner(groups: Seq<Group>, entity: u32) -> Option<usize> {
    if exists|j: int| holds_first(groups, entity, j) {
        Some(groups[choose|j: int| holds_first(groups, entity, j)].id)
    } else {
        None
    }
}

/// The id of the first archetype, in order, of which `entity` is a member.
pub open spec fn owner(archetypes: Seq<Archetype>, entity: u32) -> Option<usize> {
    group_owner(membership(archetypes), entity)
}

/// The entities of all groups, group after group.
pub open spec fn members(groups: Seq<Group>) -> Seq<u32> {
    groups.map_values(|g: Group| g.entities).flatten()
}

/// The entities of all archetypes, archetype after archetype.
pub open spec fn all_entities(archetypes: Seq<Archetype>) -> Seq<u32> {
    members(membership(archetypes))
}

/// Membership is a partition: no entity is a member twice, of one archetype or
/// of two.
pub open spec fn is_partition(archetypes: Seq<Archetype>) -> bool {
    all_entities(archetypes).no_duplicates()
}

/// The groups of a sequence of archetypes with one more archetype.
pub proof fn lemma_membership_push(archetypes: Seq<Archetype>, archetype: Archetype)
    ensures
        membership(archetypes.push(archetype)) == membership(archetypes).push(group_of(archetype)),
{
    assert(membership(archetypes.push(archetype)) =~= membership(archetypes).push(
        group_of(archetype),
    ));
}

/// The entities of some groups and one more group are those of the groups,
/// followed by those of the new group.
pub proof fn lemma_members_push(groups: Seq<Group>, group: Group)
    ensures
        members(groups.push(group)) == members(groups) + group.entities,
{
    let lists = groups.map_values(|g: Group| g.entities);
    assert(groups.push(group).map_values(|g: Group| g.entities) =~= lists.push(group.entities));
    lists.lemma_flatten_push(group.entities);
}

/// An entity is among the members of some groups exactly if one of the groups
/// holds it.
pub proof fn lemma_members_contains(groups: Seq<Group>, entity: u32)
    ensures
        members(groups).contains(entity) <==> exists|j: int|
            0 <= j < groups.len() && (#[trigger] groups[j]).entities.contains(entity),
    decreases groups.len(),
{
    if groups.len() == 0 {
        assert(groups.map_values(|g: Group| g.entities) =~= Seq::empty());
    } else {
        let front = groups.drop_last();
        let last = groups.last();
        assert(groups =~= front.push(last));
        lemma_members_push(front, last);
        lemma_members_contains(front, entity);
        let all = members(front) + last.entities;
        if all.contains(entity) {
            let i = choose|i: int| 0 <= i < all.len() && all[i] == entity;
            if i < members(front).len() {
                assert(members(front)[i] == entity);
                let j = choose|j: int|
                    0 <= j < front.len() && (#[trigger] front[j]).entities.contains(entity);
                assert(groups[j].entities.contains(entity));
            } else {
                assert(last.entities[i - members(front).len()] == entity);
                assert(groups[groups.len() - 1].entities.contains(entity));
            }
        }
        if exists|j: int|
            0 <= j < groups.len() && (#[trigger] groups[j]).entities.contains(entity) {
            let j = choose|j: int|
                0 <= j < groups.len() && (#[trigger] groups[j]).entities.contains(entity);
            if j < front.len() {
                assert(front[j].entities.contains(entity));
                let i = choose|i: int| 0 <= i < members(front).len() && members(front)[i] == entity;
                assert(all[i] == entity);
            } else {
                let i = choose|i: int| 0 <= i < last.entities.len() && last.entities[i] == entity;
                assert(all[members(front).len() + i] == entity);
            }
        }
    }
}

/// Where the group at position `j` holds an entity, some group at or before
/// `j` is the first to hold it.
pub proof fn lemma_first_holder(groups: Seq<Group>, entity: u32, j: int)
    requires
        0 <= j < groups.len(),
        groups[j].entities.contains(entity),
    ensures
        exists|m: int| 0 <= m <= j && holds_first(groups, entity, m),
    decreases j,
{
    if forall|k: int| 0 <= k < j ==> !(#[trigger] groups[k]).entities.contains(entity) {
        assert(holds_first(groups, entity, j));
    } else {
        let k = choose|k: int| 0 <= k < j && (#[trigger] groups[k]).entities.contains(entity);
        lemma_first_holder(groups, entity, k);
    }
}

/// Only one group is the first to hold an entity.
pub proof fn lemma_first_holder_unique(groups: Seq<Group>, entity: u32, a: int, b: int)
    requires
        holds_first(groups, entity, a),
        holds_first(groups, entity, b),
    ensures
        a == b,
{
    if a < b {
        assert(!groups[a].entities.contains(entity));
    } else if b < a {
        assert(!groups[b].entities.contains(entity));
    }
}

/// An entity has an owner exactly if it is among the members, and the owner is
/// the id of the first group that holds it.
pub proof fn lemma_owner(groups: Seq<Group>, entity: u32)
    ensures
        group_owner(groups, entity) is Some <==> members(groups).contains(entity),
        forall|j: int|
            holds_first(groups, entity, j) ==> group_owner(groups, entity) == Some(
                (#[trigger] groups[j]).id,
            ),
{
    lemma_members_contains(groups, entity);
    if members(groups).contains(entity) {
        let j = choose|j: int|
            0 <= j < groups.len() && (#[trigger] groups[j]).entities.contains(entity);
        lemma_first_holder(groups, entity, j);
    }
    assert forall|j: int| holds_first(groups, entity, j) implies group_owner(groups, entity)
        == Some((#[trigger] groups[j]).id) by {
        let m = choose|m: int| holds_first(groups, entity, m);
        lemma_first_holder_unique(groups, entity, j, m);
    }
}

/// With one more group, an entity keeps the owner it had; an entity without an
/// owner gets the new group as its owner if that group holds it.
pub proof fn lemma_owner_push(groups: Seq<Group>, group: Group, entity: u32)
    ensures
        group_owner(groups.push(group), entity) == match group_owner(groups, entity) {
            Some(id) => Some(id),
            None => if group.entities.contains(entity) {
                Some(group.id)
            } else {
                None
            },
        },
{
    let grown = groups.push(group);
    lemma_owner(groups, entity);
    lemma_owner(grown, entity);
    lemma_members_contains(groups, entity);
    lemma_members_contains(grown, entity);
    if group_owner(groups, entity) is Some {
        let j = choose|j: int| holds_first(groups, entity, j);
        assert(holds_first(grown, entity, j)) by {
            assert(grown[j] == groups[j]);
            assert forall|k: int| 0 <= k < j implies !(#[trigger] grown[k]).entities.contains(
                entity,
            ) by {
                assert(grown[k] == groups[k]);
            }
        }
    } else {
        assert forall|k: int| 0 <= k < groups.len() implies !(
        #[trigger] groups[k]).entities.contains(entity) by {}
        if group.entities.contains(entity) {
            assert(holds_first(grown, entity, groups.len() as int)) by {
                assert(grown[groups.len() as int] == group);
                assert forall|k: int| 0 <= k < groups.len() implies !(
                #[trigger] grown[k]).entities.contains(entity) by {
                    assert(grown[k] == groups[k]);
                }
            }
        } else {
            assert forall|k: int| 0 <= k < grown.len() implies !(
            #[trigger] grown[k]).entities.contains(entity) by {
                if k < groups.len() {
                    assert(grown[k] == groups[k]);
                }
            }
        }
    }
}

} // verus!
