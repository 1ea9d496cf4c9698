//! Pausing and dropping definitions.
//!
//! ```text
//! [*] --define--> Backfilling --> Live --pause--> Paused --drop--> [*]
//! ```
//!
//! Both are safe to repeat: pausing what is frozen and dropping what is gone
//! succeed and change nothing. A definition is only dropped while it is
//! frozen, and only when nothing that is still defined stands on it; what does
//! is named rather than dropped along with it.

use vstd::prelude::*;

use crate::defs::ast::TransformDefView;
use crate::defs::error::{ParseError, ParseErrorView};
use crate::defs::eval::{definition_path_references, pair_views, relationship_references};
use crate::defs::grammar::transform_of;
use crate::defs::model::TransformStatus;
use crate::defs::parser::parse;
use crate::ordered;
use crate::ordered::sorted_names;
use crate::sql;
use crate::sql::{quoted_ident, quoted_pair};
use crate::text;
use crate::text::views;

verus! {

/// What pausing a definition did.
#[derive(Debug, Clone, Copy, PartialEq, Eq, Structural)]
pub enum PauseOutcome {
    /// The definition was handed work, and is paused now.
    Paused,
    /// The definition was frozen already, and is as it was.
    AlreadyFrozen(TransformStatus),
}

/// What dropping a definition did.
#[derive(Debug, Clone, Copy, PartialEq, Eq, Structural)]
pub enum DropOutcome {
    Dropped,
    /// There was no such definition.
    Absent,
}

/// Why a definition is neither paused nor dropped.
#[derive(Debug, PartialEq, Eq)]
pub enum Refusal {
    TransformNotFound { transform: String },
    TransformNotPaused { transform: String, status: TransformStatus },
    DependentsBlockDrop { subject: String, dependents: Vec<String> },
}

/// What a [`Refusal`] stands for.
#[verifier::ext_equal]
pub enum RefusalView {
    TransformNotFound { transform: Seq<char> },
    TransformNotPaused { transform: Seq<char>, status: TransformStatus },
    DependentsBlockDrop { subject: Seq<char>, dependents: Seq<Seq<char>> },
}

impl View for Refusal {
    type V = RefusalView;

    open spec fn view(&self) -> RefusalView {
        match self {
            Refusal::TransformNotFound { transform } => RefusalView::TransformNotFound {
                transform: transform@,
            },
            Refusal::TransformNotPaused { transform, status } => RefusalView::TransformNotPaused {
                transform: transform@,
                status: *status,
            },
            Refusal::DependentsBlockDrop { subject, dependents } => {
                RefusalView::DependentsBlockDrop {
                    subject: subject@,
                    dependents: views(dependents@),
                }
            },
        }
    }
}

// ---------------------------------------------------------------------------
// Pausing
// ---------------------------------------------------------------------------

/// What pausing a definition with the given status does; `Ok(Paused)` is the
/// one outcome for which the status is written.
pub open spec fn pause_decision(target: Seq<char>, found: Option<TransformStatus>) -> Result<
    PauseOutcome,
    RefusalView,
> {
    match found {
        None => Err(RefusalView::TransformNotFound { transform: target }),
        Some(status) => if status.frozen() {
            Ok(PauseOutcome::AlreadyFrozen(status))
        } else {
            Ok(PauseOutcome::Paused)
        },
    }
}

/// What pausing the definition of `target` does, where `found` is its status.
pub fn plan_pause(target: &str, found: Option<TransformStatus>) -> (r: Result<
    PauseOutcome,
    Refusal,
>)
    ensures
        match r {
            Ok(o) => pause_decision(target@, found) == Ok::<PauseOutcome, RefusalView>(o),
            Err(e) => pause_decision(target@, found) == Err::<PauseOutcome, RefusalView>(e@),
        },
{
    match found {
        None => Err(Refusal::TransformNotFound { transform: text::owned(target) }),
        Some(status) => if status.is_frozen() {
            Ok(PauseOutcome::AlreadyFrozen(status))
        } else {
            Ok(PauseOutcome::Paused)
        },
    }
}

/// The status of a definition after it was paused.
pub open spec fn status_after_pause(status: TransformStatus) -> TransformStatus {
    match pause_decision(seq![], Some(status)) {
        Ok(PauseOutcome::Paused) => TransformStatus::Paused,
        _ => status,
    }
}

/// Pausing leaves a definition frozen, and pausing it again changes nothing.
pub proof fn pausing_twice_is_pausing_once(target: Seq<char>, status: TransformStatus)
    ensures
        status_after_pause(status).frozen(),
        pause_decision(target, Some(status_after_pause(status))) == Ok::<
            PauseOutcome,
            RefusalView,
        >(PauseOutcome::AlreadyFrozen(status_after_pause(status))),
        status_after_pause(status_after_pause(status)) == status_after_pause(status),
{
}

// ---------------------------------------------------------------------------
// Dropping
// ---------------------------------------------------------------------------

/// How a drop goes on once the definition was looked up.
#[derive(Debug, Clone, Copy, PartialEq, Eq, Structural)]
pub enum DropStep {
    /// There is nothing to drop.
    Finish(DropOutcome),
    /// The definition is frozen; its dependents have to be looked up.
    CheckDependents,
}

/// How dropping a definition with the given status goes on.
pub open spec fn drop_decision(target: Seq<char>, found: Option<TransformStatus>) -> Result<
    DropStep,
    RefusalView,
> {
    match found {
        None => Ok(DropStep::Finish(DropOutcome::Absent)),
        Some(status) => if status.frozen() {
            Ok(DropStep::CheckDependents)
        } else {
            Err(RefusalView::TransformNotPaused { transform: target, status })
        },
    }
}

/// How dropping the definition of `target` goes on, where `found` is its
/// status.
pub fn plan_drop(target: &str, found: Option<TransformStatus>) -> (r: Result<DropStep, Refusal>)
    ensures
        match r {
            Ok(s) => drop_decision(target@, found) == Ok::<DropStep, RefusalView>(s),
            Err(e) => drop_decision(target@, found) == Err::<DropStep, RefusalView>(e@),
        },
{
    match found {
        None => Ok(DropStep::Finish(DropOutcome::Absent)),
        Some(status) => if status.is_frozen() {
            Ok(DropStep::CheckDependents)
        } else {
            Err(Refusal::TransformNotPaused { transform: text::owned(target), status })
        },
    }
}

/// Whether `subject` may be removed: not while anything depends on it.
pub fn admit_drop(subject: &str, dependents: Vec<String>) -> (r: Result<(), Refusal>)
    ensures
        match r {
            Ok(_) => dependents@.len() == 0,
            Err(e) => dependents@.len() > 0 && e@ == (RefusalView::DependentsBlockDrop {
                subject: subject@,
                dependents: views(dependents@),
            }),
        },
{
    if dependents.len() == 0 {
        Ok(())
    } else {
        Err(Refusal::DependentsBlockDrop { subject: text::owned(subject), dependents })
    }
}

/// A definition that was paused is not refused for its status when it is
/// dropped.
pub proof fn paused_definitions_may_be_dropped(target: Seq<char>, status: TransformStatus)
    ensures
        drop_decision(target, Some(status_after_pause(status))) == Ok::<DropStep, RefusalView>(
            DropStep::CheckDependents,
        ),
{
}

// ---------------------------------------------------------------------------
// Dependents
// ---------------------------------------------------------------------------

/// The definition follows the relationship `name`.
pub open spec fn follows(def: TransformDefView, name: Seq<char>) -> bool {
    exists|i: int|
        0 <= i < definition_path_references(def).len() && (
        #[trigger] definition_path_references(def)[i]).0 == name
}

/// The definition reads the relationship `name` of `from_table`, and is not
/// the one that is left out.
pub open spec fn reads_relationship(
    def: TransformDefView,
    from_table: Seq<char>,
    name: Seq<char>,
    exclude: Option<Seq<char>>,
) -> bool {
    &&& def.source == from_table
    &&& exclude != Some(def.target)
    &&& follows(def, name)
}

/// The targets of those definitions that read the relationship, in order; the
/// first definition that cannot be read back is an error.
pub open spec fn readers(
    texts: Seq<Seq<char>>,
    from_table: Seq<char>,
    name: Seq<char>,
    exclude: Option<Seq<char>>,
) -> Result<Seq<Seq<char>>, ParseErrorView>
    decreases texts.len(),
{
    if texts.len() == 0 {
        Ok(seq![])
    } else {
        match readers(texts.drop_last(), from_table, name, exclude) {
            Err(e) => Err(e),
            Ok(found) => match transform_of(texts.last()) {
                Err(e) => Err(e),
                Ok(def) => if reads_relationship(def, from_table, name, exclude) {
                    Ok(found.push(def.target))
                } else {
                    Ok(found)
                },
            },
        }
    }
}

proof fn reader_errors_stay(
    texts: Seq<Seq<char>>,
    from_table: Seq<char>,
    name: Seq<char>,
    exclude: Option<Seq<char>>,
    i: int,
)
    requires
        0 <= i <= texts.len(),
        readers(texts.take(i), from_table, name, exclude) is Err,
    ensures
        readers(texts, from_table, name, exclude) == readers(
            texts.take(i),
            from_table,
            name,
            exclude,
        ),
    decreases texts.len() - i,
{
    if i < texts.len() {
        assert(texts.take(i + 1).drop_last() =~= texts.take(i));
        reader_errors_stay(texts, from_table, name, exclude, i + 1);
    } else {
        assert(texts.take(i) =~= texts);
    }
}

/// The view of an optional string slice.
pub open spec fn opt_str_view(s: Option<&str>) -> Option<Seq<char>> {
    match s {
        Some(t) => Some(t@),
        None => None,
    }
}

fn mentions(refs: &Vec<(String, String)>, name: &str) -> (r: bool)
    ensures
        r == exists|i: int| 0 <= i < refs@.len() && (#[trigger] pair_views(refs@)[i]).0 == name@,
{
    let mut i: usize = 0;
    while i < refs.len()
        invariant
            0 <= i <= refs@.len(),
            forall|j: int| 0 <= j < i ==> (#[trigger] pair_views(refs@)[j]).0 != name@,
        decreases refs@.len() - i,
    {
        assert(pair_views(refs@)[i as int].0 == refs@[i as int].0@);
        if text::same(refs[i].0.as_str(), name) {
            return true;
        }
        i += 1;
    }
    false
}

/// The targets of those definitions, given by their texts, that read the
/// relationship `name` of `from_table`; the one named `exclude` is left out.
pub fn relationship_readers(
    texts: &Vec<String>,
    from_table: &str,
    name: &str,
    exclude: Option<&str>,
) -> (r: Result<Vec<String>, ParseError>)
    ensures
        match r {
            Ok(found) => readers(
                views(texts@),
                from_table@,
                name@,
                opt_str_view(exclude),
            ) == Ok::<Seq<Seq<char>>, ParseErrorView>(views(found@)),
            Err(e) => readers(views(texts@), from_table@, name@, opt_str_view(exclude)) == Err::<
                Seq<Seq<char>>,
                ParseErrorView,
            >(e@),
        },
{
    let ghost all = views(texts@);
    let ghost left_out = opt_str_view(exclude);
    let mut found: Vec<String> = Vec::new();
    assert(views(found@) =~= seq![]);
    let mut i: usize = 0;
    while i < texts.len()
        invariant
            0 <= i <= texts@.len(),
            all == views(texts@),
            left_out == opt_str_view(exclude),
            readers(all.take(i as int), from_table@, name@, left_out) == Ok::<
                Seq<Seq<char>>,
                ParseErrorView,
            >(views(found@)),
        decreases texts@.len() - i,
    {
        proof {
            assert(all.take(i + 1).drop_last() =~= all.take(i as int));
            assert(all[i as int] == texts@[i as int]@);
        }
        let def = match parse(texts[i].as_str()) {
            Ok(def) => def,
            Err(e) => {
                proof {
                    reader_errors_stay(all, from_table@, name@, left_out, i + 1);
                }
                return Err(e);
            },
        };
        let left = match exclude {
            Some(t) => text::same(def.target.as_str(), t),
            None => false,
        };
        if text::same(def.source.as_str(), from_table) && !left {
            let refs = relationship_references(&def);
            let ghost rs = definition_path_references(def@);
            assert(pair_views(refs@) == rs);
            assert(rs.len() == refs@.len());
            if mentions(&refs, name) {
                let ghost before = found@;
                found.push(def.target);
                proof {
                    let k = choose|k: int|
                        0 <= k < refs@.len() && (#[trigger] pair_views(refs@)[k]).0 == name@;
                    assert(rs[k].0 == name@);
                    assert(follows(def@, name@));
                    assert(views(found@) =~= views(before).push(def@.target));
                }
            } else {
                assert(!follows(def@, name@)) by {
                    if follows(def@, name@) {
                        let k = choose|k: int|
                            0 <= k < definition_path_references(def@).len() && (
                            #[trigger] definition_path_references(def@)[k]).0 == name@;
                        assert(pair_views(refs@)[k].0 == name@);
                    }
                }
            }
        }
        i += 1;
    }
    assert(all.take(i as int) =~= all);
    Ok(found)
}

/// `<from_table>.<name>`, the spelling of a relationship.
pub open spec fn relationship_subject(from_table: Seq<char>, name: Seq<char>) -> Seq<char> {
    from_table + "."@ + name
}

/// What stands on a target, unsorted: the definitions over it, and of each
/// relationship that leads to it the relationship and the definitions that
/// read it.
pub open spec fn dependents(
    over: Seq<Seq<char>>,
    relationships: Seq<(Seq<char>, Seq<char>)>,
    texts: Seq<Seq<char>>,
    target: Seq<char>,
) -> Result<Seq<Seq<char>>, ParseErrorView>
    decreases relationships.len(),
{
    if relationships.len() == 0 {
        Ok(over)
    } else {
        match dependents(over, relationships.drop_last(), texts, target) {
            Err(e) => Err(e),
            Ok(found) => {
                let (from_table, name) = relationships.last();
                match readers(texts, from_table, name, Some(target)) {
                    Err(e) => Err(e),
                    Ok(more) => Ok(found.push(relationship_subject(from_table, name)) + more),
                }
            },
        }
    }
}

proof fn dependent_errors_stay(
    over: Seq<Seq<char>>,
    relationships: Seq<(Seq<char>, Seq<char>)>,
    texts: Seq<Seq<char>>,
    target: Seq<char>,
    i: int,
)
    requires
        0 <= i <= relationships.len(),
        dependents(over, relationships.take(i), texts, target) is Err,
    ensures
        dependents(over, relationships, texts, target) == dependents(
            over,
            relationships.take(i),
            texts,
            target,
        ),
    decreases relationships.len() - i,
{
    if i < relationships.len() {
        assert(relationships.take(i + 1).drop_last() =~= relationships.take(i));
        dependent_errors_stay(over, relationships, texts, target, i + 1);
    } else {
        assert(relationships.take(i) =~= relationships);
    }
}

/// What stands on `target`, sorted, each named once: `over` are the
/// definitions over it, `relationships` the table and name of each that leads
/// to it, `texts` the texts of all definitions.
pub fn dependency_blockers(
    over: Vec<String>,
    relationships: &Vec<(String, String)>,
    texts: &Vec<String>,
    target: &str,
) -> (r: Result<Vec<String>, ParseError>)
    ensures
        match r {
            Ok(blockers) => dependents(
                views(over@),
                pair_views(relationships@),
                views(texts@),
                target@,
            ) matches Ok(found) && views(blockers@) == sorted_names(found),
            Err(e) => dependents(
                views(over@),
                pair_views(relationships@),
                views(texts@),
                target@,
            ) == Err::<Seq<Seq<char>>, ParseErrorView>(e@),
        },
{
    let ghost start = views(over@);
    let ghost rels = pair_views(relationships@);
    let ghost all = views(texts@);
    let mut found = over;
    let mut i: usize = 0;
    while i < relationships.len()
        invariant
            0 <= i <= relationships@.len(),
            start == views(over@),
            rels == pair_views(relationships@),
            all == views(texts@),
            dependents(start, rels.take(i as int), all, target@) == Ok::<
                Seq<Seq<char>>,
                ParseErrorView,
            >(views(found@)),
        decreases relationships@.len() - i,
    {
        proof {
            assert(rels.take(i + 1).drop_last() =~= rels.take(i as int));
            assert(rels[i as int] == (
                relationships@[i as int].0@,
                relationships@[i as int].1@,
            ));
        }
        let from_table = relationships[i].0.as_str();
        let name = relationships[i].1.as_str();
        let ghost before = found@;
        found.push(text::cat3(from_table, ".", name));
        let ghost named = found@;
        assert(views(named) =~= views(before).push(relationship_subject(from_table@, name@)));
        match relationship_readers(texts, from_table, name, Some(target)) {
            Ok(more) => {
                let mut more = more;
                let ghost added = more@;
                found.append(&mut more);
                assert(views(found@) =~= views(named) + views(added));
            },
            Err(e) => {
                proof {
                    dependent_errors_stay(start, rels, all, target@, i + 1);
                }
                return Err(e);
            },
        }
        i += 1;
    }
    assert(rels.take(i as int) =~= rels);
    Ok(ordered::sort_names(&found))
}

// ---------------------------------------------------------------------------
// Tables
// ---------------------------------------------------------------------------

/// The position of the first dot at or behind `i`.
pub open spec fn first_dot(s: Seq<char>, i: int) -> Option<int>
    decreases s.len() - i,
{
    if i < 0 || i >= s.len() {
        None
    } else if s[i] == '.' {
        Some(i)
    } else {
        first_dot(s, i + 1)
    }
}

/// `<schema>.<table>` in SQL, each part quoted; a name without a dot is quoted
/// as it is.
pub open spec fn qualified_sql(qualified: Seq<char>) -> Seq<char> {
    match first_dot(qualified, 0) {
        Some(i) => quoted_pair(qualified.take(i), qualified.skip(i + 1)),
        None => quoted_ident(qualified),
    }
}

/// `<schema>.<table>` in SQL, each part quoted.
pub fn quote_qualified(qualified: &str) -> (r: String)
    ensures
        r@ == qualified_sql(qualified@),
{
    let cs = text::chars_of(qualified);
    let mut i: usize = 0;
    while i < cs.len()
        invariant
            cs@ == qualified@,
            0 <= i <= cs@.len(),
            first_dot(qualified@, 0) == first_dot(qualified@, i as int),
        decreases cs@.len() - i,
    {
        if cs[i] == '.' {
            let schema = text::string_of(&cs, 0, i);
            let table = text::string_of(&cs, i + 1, cs.len());
            assert(schema@ =~= qualified@.take(i as int));
            assert(table@ =~= qualified@.skip(i + 1));
            return sql::quote_pair(schema.as_str(), table.as_str());
        }
        i += 1;
    }
    sql::quote_ident(qualified)
}

/// The statement that removes a table, if it is there.
pub fn drop_table_sql(qualified: &str) -> (r: String)
    ensures
        r@ == "drop table if exists "@ + qualified_sql(qualified@),
{
    text::cat2("drop table if exists ", quote_qualified(qualified).as_str())
}

proof fn first_dot_is(schema: Seq<char>, rest: Seq<char>, i: int)
    requires
        0 <= i <= schema.len(),
        !schema.contains('.'),
        rest.len() > 0,
        rest[0] == '.',
    ensures
        first_dot(schema + rest, i) == Some(schema.len() as int),
    decreases schema.len() - i,
{
    if i < schema.len() {
        assert(schema.contains(schema[i]));
        first_dot_is(schema, rest, i + 1);
    }
}

/// A qualified name is quoted as the schema and the table that it was made of,
/// whatever the table is called.
pub proof fn qualified_names_come_apart(schema: Seq<char>, table: Seq<char>)
    requires
        !schema.contains('.'),
    ensures
        qualified_sql(schema + "."@ + table) == quoted_pair(schema, table),
{
    reveal_strlit(".");
    let q = schema + "."@ + table;
    let rest = "."@ + table;
    assert(q =~= schema + rest);
    first_dot_is(schema, rest, 0);
    assert(q.take(schema.len() as int) =~= schema);
    assert(q.skip(schema.len() as int + 1) =~= table);
}

proof fn readers_are_found(
    texts: Seq<Seq<char>>,
    from_table: Seq<char>,
    name: Seq<char>,
    exclude: Option<Seq<char>>,
    i: int,
)
    requires
        0 <= i < texts.len(),
        readers(texts, from_table, name, exclude) is Ok,
        transform_of(texts[i]) is Ok,
        reads_relationship(transform_of(texts[i])->Ok_0, from_table, name, exclude),
    ensures
        readers(texts, from_table, name, exclude)->Ok_0.contains(
            transform_of(texts[i])->Ok_0.target,
        ),
    decreases texts.len(),
{
    let found = readers(texts, from_table, name, exclude)->Ok_0;
    let target = transform_of(texts[i])->Ok_0.target;
    if i < texts.len() - 1 {
        assert(texts.drop_last()[i] == texts[i]);
        readers_are_found(texts.drop_last(), from_table, name, exclude, i);
        let before = readers(texts.drop_last(), from_table, name, exclude)->Ok_0;
        assert(found[before.index_of(target)] == target);
    } else {
        assert(found[found.len() - 1] == target);
    }
}

proof fn dependents_keep(
    over: Seq<Seq<char>>,
    relationships: Seq<(Seq<char>, Seq<char>)>,
    texts: Seq<Seq<char>>,
    target: Seq<char>,
    n: Seq<char>,
)
    requires
        relationships.len() > 0,
        dependents(over, relationships, texts, target) is Ok,
        dependents(over, relationships.drop_last(), texts, target)->Ok_0.contains(n),
    ensures
        dependents(over, relationships, texts, target)->Ok_0.contains(n),
{
    let before = dependents(over, relationships.drop_last(), texts, target)->Ok_0;
    let after = dependents(over, relationships, texts, target)->Ok_0;
    assert(after[before.index_of(n)] == n);
}

/// Whatever is defined over a target stands on it.
pub proof fn definitions_over_a_target_block(
    over: Seq<Seq<char>>,
    relationships: Seq<(Seq<char>, Seq<char>)>,
    texts: Seq<Seq<char>>,
    target: Seq<char>,
    n: Seq<char>,
)
    requires
        dependents(over, relationships, texts, target) is Ok,
        over.contains(n),
    ensures
        dependents(over, relationships, texts, target)->Ok_0.contains(n),
    decreases relationships.len(),
{
    if relationships.len() > 0 {
        definitions_over_a_target_block(over, relationships.drop_last(), texts, target, n);
        dependents_keep(over, relationships, texts, target, n);
    }
}

/// A relationship that leads to a target stands on it, whether it is read or
/// not, and so does every other definition that reads it.
pub proof fn relationships_to_a_target_block(
    over: Seq<Seq<char>>,
    relationships: Seq<(Seq<char>, Seq<char>)>,
    texts: Seq<Seq<char>>,
    target: Seq<char>,
    k: int,
)
    requires
        dependents(over, relationships, texts, target) is Ok,
        0 <= k < relationships.len(),
    ensures
        dependents(over, relationships, texts, target)->Ok_0.contains(
            relationship_subject(relationships[k].0, relationships[k].1),
        ),
        forall|i: int|
            #![trigger texts[i]]
            0 <= i < texts.len() && transform_of(texts[i]) is Ok && reads_relationship(
                transform_of(texts[i])->Ok_0,
                relationships[k].0,
                relationships[k].1,
                Some(target),
            ) ==> dependents(over, relationships, texts, target)->Ok_0.contains(
                transform_of(texts[i])->Ok_0.target,
            ),
    decreases relationships.len(),
{
    let (from_table, name) = relationships[k];
    let all = dependents(over, relationships, texts, target)->Ok_0;
    if k < relationships.len() - 1 {
        let less = relationships.drop_last();
        assert(less[k] == relationships[k]);
        relationships_to_a_target_block(over, less, texts, target, k);
        dependents_keep(
            over,
            relationships,
            texts,
            target,
            relationship_subject(from_table, name),
        );
        assert forall|i: int|
            #![trigger texts[i]]
            0 <= i < texts.len() && transform_of(texts[i]) is Ok && reads_relationship(
                transform_of(texts[i])->Ok_0,
                from_table,
                name,
                Some(target),
            ) implies all.contains(transform_of(texts[i])->Ok_0.target) by {
            dependents_keep(
                over,
                relationships,
                texts,
                target,
                transform_of(texts[i])->Ok_0.target,
            );
        }
    } else {
        let before = dependents(over, relationships.drop_last(), texts, target)->Ok_0;
        let more = readers(texts, from_table, name, Some(target))->Ok_0;
        let subject = relationship_subject(from_table, name);
        assert(all == before.push(subject) + more);
        assert(all[before.len() as int] == subject);
        assert forall|i: int|
            #![trigger texts[i]]
            0 <= i < texts.len() && transform_of(texts[i]) is Ok && reads_relationship(
                transform_of(texts[i])->Ok_0,
                from_table,
                name,
                Some(target),
            ) implies all.contains(transform_of(texts[i])->Ok_0.target) by {
            readers_are_found(texts, from_table, name, Some(target), i);
            let t = transform_of(texts[i])->Ok_0.target;
            assert(all[before.len() + 1 + more.index_of(t)] == t);
        }
    }
}

} // verus!
