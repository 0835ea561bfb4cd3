//! The explicit outcomes of building a snapshot and of querying it. No query
//! raises a fault: what it has to say about a missing, ambiguous or empty
//! result is a value.

use vstd::prelude::*;
use crate::model::{ComponentName, ComponentNameView};

verus! {

/// What an id or a name was expected to denote.
#[derive(Clone, Copy, Debug, PartialEq, Eq, Structural)]
pub enum Kind {
    Component,
    Archetype,
    Entity,
}

/// What was searched for: an id or a name.
#[derive(Clone, Debug, PartialEq, Eq)]
pub enum Key {
    Id(usize),
    Name(String),
}

/// Why a well-formed query has nothing to report.
#[derive(Clone, Copy, Debug, PartialEq, Eq, Structural)]
pub enum EmptyReason {
    /// No archetype with the component has a member entity.
    NoEntities,
}

/// The outcome of a query that has no plain answer.
#[derive(Clone, Debug, PartialEq, Eq)]
pub enum QueryError {
    /// Nothing of this kind goes by this id or name.
    NotFound { kind: Kind, key: Key },
    /// The name denotes more than one component; `matches` lists them by id, each
    /// with its full name.
    Ambiguous { name: String, matches: Vec<ComponentName> },
    /// What was asked about exists, and nothing is associated with it.
    Empty { reason: EmptyReason },
}

/// Why a collection handed over for a snapshot was turned down.
#[derive(Clone, Copy, Debug, PartialEq, Eq, Structural)]
pub enum SnapshotError {
    /// Two components carry this id.
    DuplicateComponent { id: usize },
    /// Two archetypes carry this id.
    DuplicateArchetype { id: usize },
    /// The archetype names this component twice, in one storage or in both.
    RepeatedComponent { archetype: usize, component: usize },
}

/// What a [`Key`] stands for.
pub enum KeyView {
    Id(usize),
    Name(Seq<char>),
}

/// What a [`QueryError`] stands for.
pub enum QueryErrorView {
    NotFound { kind: Kind, key: KeyView },
    Ambiguous { name: Seq<char>, matches: Seq<ComponentNameView> },
    Empty { reason: EmptyReason },
}

impl View for Key {
    type V = KeyView;

    open spec fn view(&self) -> KeyView {
        match self {
            Key::Id(id) => KeyView::Id(*id),
            Key::Name(name) => KeyView::Name(name@),
        }
    }
}

impl DeepView for Key {
    type V = KeyView;

    open spec fn deep_view(&self) -> KeyView {
        self@
    }
}

impl View for QueryError {
    type V = QueryErrorView;

    open spec fn view(&self) -> QueryErrorView {
        match self {
            QueryError::NotFound { kind, key } => QueryErrorView::NotFound {
                kind: *kind,
                key: key@,
            },
            QueryError::Ambiguous { name, matches } => QueryErrorView::Ambiguous {
                name: name@,
                matches: matches.deep_view(),
            },
            QueryError::Empty { reason } => QueryErrorView::Empty { reason: *reason },
        }
    }
}

impl DeepView for QueryError {
    type V = QueryErrorView;

    open spec fn deep_view(&self) -> QueryErrorView {
        self@
    }
}

/// The outcome that nothing of `kind` has the id `id`.
pub open spec fn not_found_id(kind: Kind, id: usize) -> QueryErrorView {
    QueryErrorView::NotFound { kind, key: KeyView::Id(id) }
}

/// The outcome that nothing of `kind` has the name `name`.
pub open spec fn not_found_name(kind: Kind, name: Seq<char>) -> QueryErrorView {
    QueryErrorView::NotFound { kind, key: KeyView::Name(name) }
}

/// What a query's result stands for: the view of its answer or of its error.
pub open spec fn outcome<T: DeepView>(result: Result<T, QueryError>) -> Result<
    T::V,
    QueryErrorView,
> {
    match result {
        Ok(answer) => Ok(answer.deep_view()),
        Err(error) => Err(error@),
    }
}

impl QueryError {
    /// The error for an id that denotes nothing of `kind`.
    pub fn missing_id(kind: Kind, id: usize) -> (error: QueryError)
        ensures
            error@ == not_found_id(kind, id),
    {
        QueryError::NotFound { kind, key: Key::Id(id) }
    }

    /// The error for a name that denotes nothing of `kind`.
    pub fn missing_name(kind: Kind, name: &str) -> (error: QueryError)
        ensures
            error@ == not_found_name(kind, name@),
    {
        QueryError::NotFound { kind, key: Key::Name(name.to_owned()) }
    }
}

} // verus!
