//! What the catalog keeps of a definition.

use vstd::prelude::*;

use crate::defs::ast::{RelationshipDef, TransformDef, ValueType};
use crate::defs::validation_error::RelationshipWarning;
use crate::names::NameMap;
use crate::text;

verus! {

/// A registered transform.
#[derive(Debug)]
pub struct Definition {
    pub id: i64,
    pub source_version: i64,
    pub def: TransformDef,
    pub source_columns: NameMap<ValueType>,
    pub status: TransformStatus,
    pub source_table: String,
    pub target_table: String,
}

/// How far a definition has come.
#[derive(Debug, Clone, Copy, PartialEq, Eq, Structural)]
pub enum TransformStatus {
    WaitingToBackfill,
    Backfilling,
    Live,
    /// Stopped by the engine after a failure.
    Quarantined,
    /// Stopped by an operator.
    Paused,
}

impl TransformStatus {
    /// Every status.
    pub const ALL: [TransformStatus; 5] = [
        TransformStatus::WaitingToBackfill,
        TransformStatus::Backfilling,
        TransformStatus::Live,
        TransformStatus::Quarantined,
        TransformStatus::Paused,
    ];

    /// A definition that is handed no new work.
    pub open spec fn frozen(self) -> bool {
        self is Paused || self is Quarantined
    }

    /// Whether a definition with this status is handed no new work.
    pub fn is_frozen(self) -> (r: bool)
        ensures
            r == self.frozen(),
    {
        match self {
            TransformStatus::Paused | TransformStatus::Quarantined => true,
            _ => false,
        }
    }

    /// The names of the statuses whose definitions are handed work, in the
    /// order of [`TransformStatus::ALL`].
    pub fn dispatchable() -> (r: Vec<&'static str>)
        ensures
            str_views(r@) == dispatchable_from(TransformStatus::ALL@),
    {
        let mut r: Vec<&'static str> = Vec::new();
        assert(str_views(r@) =~= dispatchable_from(TransformStatus::ALL@.take(0)));
        let mut i: usize = 0;
        while i < 5
            invariant
                0 <= i <= 5,
                TransformStatus::ALL@.len() == 5,
                str_views(r@) == dispatchable_from(TransformStatus::ALL@.take(i as int)),
            decreases 5 - i,
        {
            let status = TransformStatus::ALL[i];
            let ghost before = r@;
            assert(TransformStatus::ALL@.take(i + 1).drop_last() =~= TransformStatus::ALL@.take(
                i as int,
            ));
            if !status.is_frozen() {
                let name = status.as_str();
                r.push(name);
                assert(str_views(r@) =~= str_views(before).push(name@));
            }
            i += 1;
        }
        assert(TransformStatus::ALL@.take(5) =~= TransformStatus::ALL@);
        r
    }

    /// The word the status is persisted as.
    pub open spec fn word(self) -> Seq<char> {
        match self {
            TransformStatus::WaitingToBackfill => "waiting_to_backfill"@,
            TransformStatus::Backfilling => "backfilling"@,
            TransformStatus::Live => "live"@,
            TransformStatus::Quarantined => "quarantined"@,
            TransformStatus::Paused => "paused"@,
        }
    }

    /// The word the status is persisted as.
    pub fn as_str(self) -> (r: &'static str)
        ensures
            r@ == self.word(),
    {
        match self {
            TransformStatus::WaitingToBackfill => "waiting_to_backfill",
            TransformStatus::Backfilling => "backfilling",
            TransformStatus::Live => "live",
            TransformStatus::Quarantined => "quarantined",
            TransformStatus::Paused => "paused",
        }
    }

    /// The status persisted as `word`, if it is the word of one.
    pub fn from_persisted(word: &str) -> (r: Option<TransformStatus>)
        ensures
            match r {
                Some(s) => word@ == s.word(),
                None => forall|s: TransformStatus| word@ != #[trigger] s.word(),
            },
    {
        if *word == *"waiting_to_backfill" {
            Some(TransformStatus::WaitingToBackfill)
        } else if *word == *"backfilling" {
            Some(TransformStatus::Backfilling)
        } else if *word == *"live" {
            Some(TransformStatus::Live)
        } else if *word == *"quarantined" {
            Some(TransformStatus::Quarantined)
        } else if *word == *"paused" {
            Some(TransformStatus::Paused)
        } else {
            None
        }
    }
}

/// The views of a sequence of string slices.
pub open spec fn str_views(s: Seq<&'static str>) -> Seq<Seq<char>> {
    Seq::new(s.len(), |i: int| s[i]@)
}

/// The words of the statuses of `all` that are not frozen.
pub open spec fn dispatchable_from(all: Seq<TransformStatus>) -> Seq<Seq<char>>
    decreases all.len(),
{
    if all.len() == 0 {
        seq![]
    } else if all.last().frozen() {
        dispatchable_from(all.drop_last())
    } else {
        dispatchable_from(all.drop_last()).push(all.last().word())
    }
}

/// A registered relationship.
#[derive(Debug)]
pub struct RelationshipDefinition {
    pub id: i64,
    pub from_schema: String,
    pub def: RelationshipDef,
    pub cardinality: RelationshipCardinality,
    pub warnings: Vec<RelationshipWarning>,
}

impl RelationshipDefinition {
    /// `<schema>.<table>` of the table the relationship starts from.
    pub fn qualified_from_table(&self) -> (r: String)
        ensures
            r@ == self.from_schema@ + "."@ + self.def.from_table@,
    {
        text::cat3(self.from_schema.as_str(), ".", self.def.from_table.as_str())
    }
}

/// How many rows a relationship leads to.
#[derive(Debug, Clone, Copy, PartialEq, Eq, Structural)]
pub enum RelationshipCardinality {
    ToOne,
    ToMany,
}

impl RelationshipCardinality {
    /// The word the cardinality is persisted as.
    pub open spec fn word(self) -> Seq<char> {
        match self {
            RelationshipCardinality::ToOne => "one"@,
            RelationshipCardinality::ToMany => "many"@,
        }
    }

    /// The word the cardinality is persisted as.
    pub fn as_str(self) -> (r: &'static str)
        ensures
            r@ == self.word(),
    {
        match self {
            RelationshipCardinality::ToOne => "one",
            RelationshipCardinality::ToMany => "many",
        }
    }

    /// The cardinality persisted as `word`, if it is the word of one.
    pub fn from_persisted(word: &str) -> (r: Option<RelationshipCardinality>)
        ensures
            match r {
                Some(c) => word@ == c.word(),
                None => forall|c: RelationshipCardinality| word@ != #[trigger] c.word(),
            },
    {
        if *word == *"one" {
            Some(RelationshipCardinality::ToOne)
        } else if *word == *"many" {
            Some(RelationshipCardinality::ToMany)
        } else {
            None
        }
    }
}

/// What a table is to the definitions.
#[derive(Debug, Clone, Copy, PartialEq, Eq, Structural)]
pub enum NodeKind {
    Source,
    Target,
}

/// A table in the graph of definitions.
#[derive(Debug, PartialEq, Eq)]
pub struct SchemaNode {
    pub id: i64,
    pub table_name: String,
    pub is_source: bool,
    pub is_target: bool,
}

/// Why one table depends on another.
#[derive(Debug, Clone, Copy, PartialEq, Eq, Structural)]
pub enum EdgeKind {
    Source,
    Join,
    Relationship,
}

impl EdgeKind {
    /// The word the kind is persisted as.
    pub open spec fn word(self) -> Seq<char> {
        match self {
            EdgeKind::Source => "source"@,
            EdgeKind::Join => "join"@,
            EdgeKind::Relationship => "relationship"@,
        }
    }

    /// The word the kind is persisted as.
    pub fn as_str(self) -> (r: &'static str)
        ensures
            r@ == self.word(),
    {
        match self {
            EdgeKind::Source => "source",
            EdgeKind::Join => "join",
            EdgeKind::Relationship => "relationship",
        }
    }
}

/// A dependency between two tables.
#[derive(Debug, Clone, Copy, PartialEq, Eq, Structural)]
pub struct SchemaEdge {
    pub id: i64,
    pub from_node_id: i64,
    pub to_node_id: i64,
    pub kind: EdgeKind,
}

// ---------------------------------------------------------------------------
// Laws
// ---------------------------------------------------------------------------

/// Reading a status's word gives the status back.
pub proof fn status_words_round_trip(a: TransformStatus, b: TransformStatus)
    ensures
        a.word() == b.word() ==> a == b,
{
    reveal_strlit("waiting_to_backfill");
    reveal_strlit("backfilling");
    reveal_strlit("live");
    reveal_strlit("quarantined");
    reveal_strlit("paused");
    assert(a.word()[0] == b.word()[0] ==> a == b);
}

/// Reading a cardinality's word gives the cardinality back.
pub proof fn cardinality_words_round_trip(a: RelationshipCardinality, b: RelationshipCardinality)
    ensures
        a.word() == b.word() ==> a == b,
{
    reveal_strlit("one");
    reveal_strlit("many");
    assert(a.word().len() == b.word().len() ==> a == b);
}

/// The kinds of edges have different words.
pub proof fn edge_words_differ(a: EdgeKind, b: EdgeKind)
    ensures
        a.word() == b.word() ==> a == b,
{
    reveal_strlit("source");
    reveal_strlit("join");
    reveal_strlit("relationship");
    assert(a.word().len() == b.word().len() ==> a == b);
}

/// Every status is listed.
pub proof fn every_status_is_listed(s: TransformStatus)
    ensures
        TransformStatus::ALL@.contains(s),
{
    assert(TransformStatus::ALL@[0] == TransformStatus::WaitingToBackfill);
    assert(TransformStatus::ALL@[1] == TransformStatus::Backfilling);
    assert(TransformStatus::ALL@[2] == TransformStatus::Live);
    assert(TransformStatus::ALL@[3] == TransformStatus::Quarantined);
    assert(TransformStatus::ALL@[4] == TransformStatus::Paused);
}

proof fn dispatchable_has(all: Seq<TransformStatus>, s: TransformStatus)
    ensures
        dispatchable_from(all).contains(s.word()) <==> all.contains(s) && !s.frozen(),
    decreases all.len(),
{
    if all.len() > 0 {
        let rest = all.drop_last();
        dispatchable_has(rest, s);
        status_words_round_trip(all.last(), s);
        assert(all =~= rest.push(all.last()));
        if all.contains(s) && !s.frozen() {
            let i = choose|i: int| 0 <= i < all.len() && all[i] == s;
            if i < rest.len() {
                assert(rest[i] == s);
                assert(rest.contains(s));
                let w = dispatchable_from(rest);
                let j = choose|j: int| 0 <= j < w.len() && w[j] == s.word();
                assert(dispatchable_from(all)[j] == s.word());
            } else {
                assert(dispatchable_from(all).last() == s.word());
            }
        }
        if dispatchable_from(all).contains(s.word()) {
            let w = dispatchable_from(all);
            let j = choose|j: int| 0 <= j < w.len() && w[j] == s.word();
            if j < dispatchable_from(rest).len() {
                assert(dispatchable_from(rest)[j] == s.word());
                let i = choose|i: int| 0 <= i < rest.len() && rest[i] == s;
                assert(all[i] == s);
            } else {
                assert(all[all.len() - 1] == s);
            }
        }
    }
}

/// Work is handed to exactly the definitions that are not frozen.
pub proof fn dispatchable_is_every_unfrozen(s: TransformStatus)
    ensures
        dispatchable_from(TransformStatus::ALL@).contains(s.word()) <==> !s.frozen(),
{
    every_status_is_listed(s);
    dispatchable_has(TransformStatus::ALL@, s);
}

} // verus!
