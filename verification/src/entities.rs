//! The entity index: for every live entity, the archetype that owns it.

use vstd::prelude::*;
use crate::archetypes::ArchetypeIndex;
use crate::keys::{lemma_insert_contains, lemma_push_contains, lemma_push_no_duplicates};
use crate::membership::{
    group_owner, is_partition, lemma_members_push, lemma_membership_push, lemma_owner,
    lemma_owner_push, members, membership, Group,
};
use crate::model::Archetype;
use crate::outcome::{not_found_id, outcome, Kind, QueryError, QueryErrorView};

verus! {

/// The pairs stand in strictly ascending order of entity id, so no entity
/// occurs twice.
pub open spec fn ascending_entities(pairs: Seq<(u32, usize)>) -> bool {
    forall|i: int, j: int| 0 <= i < j < pairs.len() ==> pairs[i].0 < pairs[j].0
}

/// What asking for the archetype of `entity` gives: the archetype it is paired
/// with, unless it is paired with none.
pub open spec fn located(pairs: Seq<(u32, usize)>, entity: u32) -> Result<usize, QueryErrorView> {
    if exists|archetype: usize| pairs.contains((entity, archetype)) {
        Ok(choose|archetype: usize| pairs.contains((entity, archetype)))
    } else {
        Err(not_found_id(Kind::Entity, entity as usize))
    }
}

/// Among ascending pairs an entity is paired with one archetype at most.
pub proof fn lemma_located_unique(pairs: Seq<(u32, usize)>, entity: u32, a: usize, b: usize)
    requires
        ascending_entities(pairs),
        pairs.contains((entity, a)),
        pairs.contains((entity, b)),
    ensures
        a == b,
{
    let i = choose|i: int| 0 <= i < pairs.len() && pairs[i] == (entity, a);
    let j = choose|j: int| 0 <= j < pairs.len() && pairs[j] == (entity, b);
    if i < j {
        assert(pairs[i].0 < pairs[j].0);
    } else if j < i {
        assert(pairs[j].0 < pairs[i].0);
    }
}

/// The pairs say of every entity which group owns it, and nothing else.
pub open spec fn tracks(pairs: Seq<(u32, usize)>, groups: Seq<Group>) -> bool {
    &&& ascending_entities(pairs)
    &&& forall|entity: u32, archetype: usize|
        #![trigger pairs.contains((entity, archetype))]
        pairs.contains((entity, archetype)) <==> group_owner(groups, entity) == Some(archetype)
}

/// The position of the first pair whose entity is not below `entity`.
fn lower_bound(pairs: &Vec<(u32, usize)>, entity: u32) -> (pos: usize)
    requires
        ascending_entities(pairs@),
    ensures
        pos <= pairs.len(),
        forall|i: int| 0 <= i < pos ==> pairs@[i].0 < entity,
        forall|i: int| pos <= i < pairs.len() ==> pairs@[i].0 >= entity,
{
    let mut lo: usize = 0;
    let mut hi: usize = pairs.len();
    while lo < hi
        invariant
            lo <= hi <= pairs.len(),
            ascending_entities(pairs@),
            forall|i: int| 0 <= i < lo ==> pairs@[i].0 < entity,
            forall|i: int| hi <= i < pairs.len() ==> pairs@[i].0 >= entity,
        decreases hi - lo,
    {
        let mid: usize = lo + (hi - lo) / 2;
        if pairs[mid].0 < entity {
            lo = mid + 1;
        } else {
            hi = mid;
        }
    }
    lo
}

/// Takes note that `entity` is a member of the archetype that is being read,
/// after the entities `met` of that archetype. Says whether the entity is met
/// for the first time.
fn record(
    pairs: &mut Vec<(u32, usize)>,
    entity: u32,
    archetype: usize,
    Ghost(base): Ghost<Seq<Group>>,
    Ghost(met): Ghost<Seq<u32>>,
) -> (fresh: bool)
    requires
        tracks(old(pairs)@, base.push((Group { id: archetype, entities: met }))),
    ensures
        tracks(final(pairs)@, base.push((Group { id: archetype, entities: met.push(entity) }))),
        fresh == !members(base.push((Group { id: archetype, entities: met }))).contains(entity),
{
    let ghost before = Group { id: archetype, entities: met };
    let ghost after = Group { id: archetype, entities: met.push(entity) };
    let ghost was = pairs@;
    let pos = lower_bound(pairs, entity);
    let known = pos < pairs.len() && pairs[pos].0 == entity;
    proof {
        lemma_owner(base.push(before), entity);
        lemma_push_contains(met, entity);
        assert forall|x: u32| x != entity implies group_owner(base.push(after), x) == group_owner(
            base.push(before),
            x,
        ) by {
            lemma_owner_push(base, before, x);
            lemma_owner_push(base, after, x);
        }
        lemma_owner_push(base, before, entity);
        lemma_owner_push(base, after, entity);
        if known {
            assert(was.contains((entity, was[pos as int].1))) by {
                assert(was[pos as int] == (entity, was[pos as int].1));
            }
        } else {
            assert forall|a: usize| !was.contains((entity, a)) by {
                if was.contains((entity, a)) {
                    let i = choose|i: int| 0 <= i < was.len() && was[i] == (entity, a);
                    assert(was[i].0 == entity);
                }
            }
            assert(group_owner(base.push(before), entity) is None) by {
                if group_owner(base.push(before), entity) is Some {
                    let a = group_owner(base.push(before), entity)->0;
                    assert(was.contains((entity, a)));
                }
            }
            lemma_insert_contains(was, pos as int, (entity, archetype));
            let grown = was.insert(pos as int, (entity, archetype));
            assert(ascending_entities(grown)) by {
                assert forall|i: int, j: int| 0 <= i < j < grown.len() implies grown[i].0
                    < grown[j].0 by {
                    if j == pos {
                    } else if i == pos {
                        assert(grown[j] == was[j - 1]);
                        assert(was[j - 1].0 != entity);
                    } else if j < pos {
                    } else if i < pos {
                        assert(grown[j] == was[j - 1]);
                    } else {
                        assert(grown[i] == was[i - 1]);
                        assert(grown[j] == was[j - 1]);
                    }
                }
            }
            assert forall|x: u32, a: usize| #![trigger grown.contains((x, a))]
                grown.contains((x, a)) <==> group_owner(base.push(after), x) == Some(a) by {
                if x == entity {
                    assert(!was.contains((x, a)));
                } else {
                    assert(was.contains((x, a)) <==> group_owner(base.push(before), x) == Some(a));
                }
            }
        }
    }
    if !known {
        pairs.insert(pos, (entity, archetype));
    }
    !known
}

/// For every live entity the archetype that owns it, in ascending order of
/// entity id.
#[derive(Debug)]
pub struct EntityIndex {
    pairs: Vec<(u32, usize)>,
    disjoint: bool,
}

impl View for EntityIndex {
    type V = Seq<(u32, usize)>;

    /// The live entities, each with the id of its archetype, in ascending order
    /// of entity id.
    closed spec fn view(&self) -> Seq<(u32, usize)> {
        self.pairs@
    }
}

impl EntityIndex {
    #[verifier::type_invariant]
    spec fn inv(self) -> bool {
        ascending_entities(self.pairs@)
    }

    /// No entity was found to be a member twice when the index was built.
    pub closed spec fn disjoint(&self) -> bool {
        self.disjoint
    }

    /// The pairs stand in strictly ascending order of entity id.
    pub open spec fn wf(&self) -> bool {
        ascending_entities(self@)
    }

    /// The index is the reverse map of the membership of `archetypes`: an entity
    /// is live exactly if it is a member of an archetype, and it is owned by the
    /// first archetype, in order, of which it is a member.
    pub open spec fn derived_from(&self, archetypes: Seq<Archetype>) -> bool {
        &&& tracks(self@, membership(archetypes))
        &&& self.disjoint() == is_partition(archetypes)
    }

    /// Builds the reverse map of the membership of the given archetypes. Where an
    /// entity is a member more than once, the first archetype in order owns it,
    /// and the index is marked as not disjoint.
    pub fn build(archetypes: &ArchetypeIndex) -> (index: EntityIndex)
        ensures
            index.wf(),
            index.derived_from(archetypes@),
    {
        let records = archetypes.records();
        let mut pairs: Vec<(u32, usize)> = Vec::new();
        let mut disjoint = true;
        let mut j: usize = 0;
        proof {
            assert(records@.take(0) =~= Seq::empty());
            assert(membership(records@.take(0)) =~= Seq::empty());
            assert(members(Seq::<Group>::empty()) =~= Seq::empty()) by {
                assert(Seq::<Group>::empty().map_values(|g: Group| g.entities) =~= Seq::empty());
            }
            assert forall|entity: u32| group_owner(Seq::<Group>::empty(), entity) is None by {}
        }
        while j < records.len()
            invariant
                j <= records.len(),
                tracks(pairs@, membership(records@.take(j as int))),
                disjoint == members(membership(records@.take(j as int))).no_duplicates(),
            decreases records.len() - j,
        {
            let a = &records[j];
            let ghost base = membership(records@.take(j as int));
            let mut k: usize = 0;
            proof {
                let start = Group { id: a.id, entities: a.entities@.take(0) };
                assert(a.entities@.take(0) =~= Seq::empty());
                lemma_members_push(base, start);
                assert(members(base.push(start)) =~= members(base));
                assert forall|entity: u32| group_owner(base.push(start), entity) == group_owner(
                    base,
                    entity,
                ) by {
                    lemma_owner_push(base, start, entity);
                }
            }
            while k < a.entities.len()
                invariant
                    k <= a.entities.len(),
                    tracks(
                        pairs@,
                        base.push(Group { id: a.id, entities: a.entities@.take(k as int) }),
                    ),
                    disjoint == members(
                        base.push(Group { id: a.id, entities: a.entities@.take(k as int) }),
                    ).no_duplicates(),
                decreases a.entities.len() - k,
            {
                let entity = a.entities[k];
                let ghost met = a.entities@.take(k as int);
                let fresh = record(&mut pairs, entity, a.id, Ghost(base), Ghost(met));
                proof {
                    let before = Group { id: a.id, entities: met };
                    let after = Group { id: a.id, entities: met.push(entity) };
                    assert(a.entities@.take(k + 1) =~= met.push(entity));
                    lemma_members_push(base, before);
                    lemma_members_push(base, after);
                    let was = members(base.push(before));
                    assert(members(base.push(after)) =~= was.push(entity));
                    if fresh {
                        if was.no_duplicates() {
                            lemma_push_no_duplicates(was, entity);
                        } else {
                            assert(!was.push(entity).no_duplicates()) by {
                                let (x, y) = choose|x: int, y: int|
                                    0 <= x < was.len() && 0 <= y < was.len() && x != y && was[x]
                                        == was[y];
                                assert(was.push(entity)[x] == was.push(entity)[y]);
                            }
                        }
                    } else {
                        let x = choose|x: int| 0 <= x < was.len() && was[x] == entity;
                        assert(was.push(entity)[x] == was.push(entity)[was.len() as int]);
                    }
                }
                if !fresh {
                    disjoint = false;
                }
                k += 1;
            }
            proof {
                assert(a.entities@.take(k as int) =~= a.entities@);
                assert(records@.take(j + 1) =~= records@.take(j as int).push(*a));
                lemma_membership_push(records@.take(j as int), *a);
            }
            j += 1;
        }
        assert(records@.take(j as int) =~= records@);
        EntityIndex { pairs, disjoint }
    }

    /// The number of live entities.
    pub fn len(&self) -> (len: usize)
        ensures
            len == self@.len(),
    {
        self.pairs.len()
    }

    /// Whether no entity was found to be a member twice when the index was built.
    pub fn is_disjoint(&self) -> (disjoint: bool)
        ensures
            disjoint == self.disjoint(),
    {
        self.disjoint
    }

    /// Every live entity with the id of the archetype that owns it, in ascending
    /// order of entity id.
    pub fn list_all(&self) -> (listing: Vec<(u32, usize)>)
        ensures
            listing@ == self@,
            ascending_entities(listing@),
    {
        proof {
            use_type_invariant(self);
        }
        let mut listing: Vec<(u32, usize)> = Vec::new();
        let mut i: usize = 0;
        while i < self.pairs.len()
            invariant
                i <= self.pairs.len(),
                listing@ == self.pairs@.take(i as int),
            decreases self.pairs.len() - i,
        {
            listing.push(self.pairs[i]);
            i += 1;
        }
        assert(self.pairs@.take(i as int) =~= self.pairs@);
        listing
    }

    /// The id of the archetype that owns the entity, if the entity is live.
    pub fn archetype_of(&self, entity: u32) -> (found: Result<usize, QueryError>)
        ensures
            match found {
                Ok(archetype) => self@.contains((entity, archetype)),
                Err(error) => {
                    &&& error@ == not_found_id(Kind::Entity, entity as usize)
                    &&& forall|archetype: usize| !self@.contains((entity, archetype))
                },
            },
            outcome(found) == located(self@, entity),
    {
        proof {
            use_type_invariant(self);
        }
        let pos = lower_bound(&self.pairs, entity);
        if pos < self.pairs.len() && self.pairs[pos].0 == entity {
            proof {
                let here = self.pairs@[pos as int].1;
                assert(self.pairs@[pos as int] == (entity, here));
                assert(self.pairs@.contains((entity, here)));
                let chosen = choose|archetype: usize| self.pairs@.contains((entity, archetype));
                lemma_located_unique(self.pairs@, entity, here, chosen);
            }
            Ok(self.pairs[pos].1)
        } else {
            assert forall|archetype: usize| !self.pairs@.contains((entity, archetype)) by {
                if self.pairs@.contains((entity, archetype)) {
                    let i = choose|i: int|
                        0 <= i < self.pairs@.len() && self.pairs@[i] == (entity, archetype);
                    assert(self.pairs@[i].0 == entity);
                }
            }
            Err(QueryError::missing_id(Kind::Entity, entity as usize))
        }
    }
}

} // verus!
