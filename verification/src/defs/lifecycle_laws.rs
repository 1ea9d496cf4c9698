//! What pausing and dropping promise, status by status, and what stands in the
//! way of a drop.

use vstd::prelude::*;

use crate::defs::ast::TransformDefView;
use crate::defs::eval::definition_path_references;
use crate::defs::grammar::transform_of;
use crate::defs::lifecycle::{
    dependents, drop_decision, follows, pause_decision, readers, reads_relationship, DropOutcome,
    DropStep, PauseOutcome, RefusalView,
};
use crate::defs::model::TransformStatus;
use crate::defs::occurrence_laws::{definition_holds_path, definition_paths_stand_there};

verus! {

/// A drop goes on exactly for what is paused or quarantined, and is refused
/// for everything else that is there: while it waits for its backfill, is
/// backfilling or is live.
pub proof fn only_what_is_frozen_is_dropped(target: Seq<char>, status: TransformStatus)
    ensures
        drop_decision(target, Some(status)) is Ok <==> status == TransformStatus::Paused || status
            == TransformStatus::Quarantined,
        drop_decision(target, Some(status)) matches Ok(step) ==> step == DropStep::CheckDependents,
        drop_decision(target, Some(status)) matches Err(e) ==> e
            == (RefusalView::TransformNotPaused { transform: target, status }),
{
}

/// What is not there is dropped already, and cannot be paused.
pub proof fn what_is_gone_is_dropped(target: Seq<char>)
    ensures
        drop_decision(target, None) == Ok::<DropStep, RefusalView>(
            DropStep::Finish(DropOutcome::Absent),
        ),
        pause_decision(target, None) == Err::<PauseOutcome, RefusalView>(
            RefusalView::TransformNotFound { transform: target },
        ),
{
}

/// Pausing stops exactly what is handed work, and leaves what an operator or
/// the engine stopped as it is.
pub proof fn only_what_is_handed_work_is_paused(target: Seq<char>, status: TransformStatus)
    ensures
        pause_decision(target, Some(status)) == Ok::<PauseOutcome, RefusalView>(
            PauseOutcome::Paused,
        ) <==> status == TransformStatus::WaitingToBackfill || status
            == TransformStatus::Backfilling || status == TransformStatus::Live,
        pause_decision(target, Some(status)) == Ok::<PauseOutcome, RefusalView>(
            PauseOutcome::AlreadyFrozen(status),
        ) <==> status == TransformStatus::Paused || status == TransformStatus::Quarantined,
{
}

/// A drop goes on exactly where a pause would change nothing.
pub proof fn a_drop_asks_for_a_pause(target: Seq<char>, status: TransformStatus)
    ensures
        drop_decision(target, Some(status)) is Ok <==> pause_decision(target, Some(status)) == Ok::<
            PauseOutcome,
            RefusalView,
        >(PauseOutcome::AlreadyFrozen(status)),
{
}

/// The definition that a text spells is that of `n`, starts at the table and
/// has a path through the relationship in a field or a key.
pub open spec fn reads_through(
    text: Seq<char>,
    table: Seq<char>,
    name: Seq<char>,
    n: Seq<char>,
) -> bool {
    &&& transform_of(text) matches Ok(def)
    &&& def.target == n
    &&& def.source == table
    &&& exists|column: Seq<char>| #[trigger] definition_holds_path(def, name, column)
}

proof fn reader_is_through(
    text: Seq<char>,
    table: Seq<char>,
    name: Seq<char>,
    exclude: Option<Seq<char>>,
    n: Seq<char>,
)
    requires
        transform_of(text) is Ok,
    ensures
        reads_relationship(transform_of(text)->Ok_0, table, name, exclude) && transform_of(
            text,
        )->Ok_0.target == n <==> exclude != Some(n) && reads_through(text, table, name, n),
{
    following_is_holding(transform_of(text)->Ok_0, name);
}

proof fn following_is_holding(def: TransformDefView, name: Seq<char>)
    ensures
        follows(def, name) <==> exists|column: Seq<char>| #[trigger]
            definition_holds_path(def, name, column),
{
    let refs = definition_path_references(def);
    if follows(def, name) {
        let i = choose|i: int| 0 <= i < refs.len() && (#[trigger] refs[i]).0 == name;
        assert(refs.contains((name, refs[i].1)));
        definition_paths_stand_there(def, name, refs[i].1);
    }
    if exists|column: Seq<char>| #[trigger] definition_holds_path(def, name, column) {
        let column = choose|column: Seq<char>| #[trigger] definition_holds_path(def, name, column);
        definition_paths_stand_there(def, name, column);
        assert(refs[refs.index_of((name, column))].0 == name);
    }
}

/// Some text spells a definition of `n` that goes through the relationship.
pub open spec fn some_reads_through(
    texts: Seq<Seq<char>>,
    table: Seq<char>,
    name: Seq<char>,
    n: Seq<char>,
) -> bool {
    exists|i: int| 0 <= i < texts.len() && reads_through(#[trigger] texts[i], table, name, n)
}

proof fn some_reads_step(
    texts: Seq<Seq<char>>,
    table: Seq<char>,
    name: Seq<char>,
    n: Seq<char>,
)
    requires
        texts.len() > 0,
    ensures
        some_reads_through(texts, table, name, n) <==> some_reads_through(
            texts.drop_last(),
            table,
            name,
            n,
        ) || reads_through(texts.last(), table, name, n),
{
    let less = texts.drop_last();
    if some_reads_through(less, table, name, n) {
        let i = choose|i: int|
            0 <= i < less.len() && reads_through(#[trigger] less[i], table, name, n);
        assert(reads_through(texts[i], table, name, n));
    }
    if reads_through(texts.last(), table, name, n) {
        assert(reads_through(texts[texts.len() - 1], table, name, n));
    }
    if some_reads_through(texts, table, name, n) {
        let i = choose|i: int|
            0 <= i < texts.len() && reads_through(#[trigger] texts[i], table, name, n);
        if i < less.len() {
            assert(reads_through(less[i], table, name, n));
        }
    }
}

proof fn pushed_contains(s: Seq<Seq<char>>, x: Seq<char>, n: Seq<char>)
    ensures
        s.push(x).contains(n) <==> s.contains(n) || n == x,
{
    if s.contains(n) {
        assert(s.push(x)[s.index_of(n)] == n);
    }
    if n == x {
        assert(s.push(x)[s.len() as int] == n);
    }
    if s.push(x).contains(n) && n != x {
        assert(s[s.push(x).index_of(n)] == n);
    }
}

/// The readers of a relationship are exactly the targets, but for the one left
/// out, of the definitions that start at its table and go through it.
pub proof fn readers_go_through(
    texts: Seq<Seq<char>>,
    table: Seq<char>,
    name: Seq<char>,
    exclude: Option<Seq<char>>,
    n: Seq<char>,
)
    requires
        readers(texts, table, name, exclude) is Ok,
    ensures
        readers(texts, table, name, exclude)->Ok_0.contains(n) <==> exclude != Some(n)
            && some_reads_through(texts, table, name, n),
    decreases texts.len(),
{
    if texts.len() > 0 {
        let less = texts.drop_last();
        let before = readers(less, table, name, exclude)->Ok_0;
        let def = transform_of(texts.last())->Ok_0;
        readers_go_through(less, table, name, exclude, n);
        reader_is_through(texts.last(), table, name, exclude, n);
        some_reads_step(texts, table, name, n);
        pushed_contains(before, def.target, n);
        if reads_relationship(def, table, name, exclude) {
            assert(readers(texts, table, name, exclude)->Ok_0 == before.push(def.target));
        } else {
            assert(readers(texts, table, name, exclude)->Ok_0 == before);
        }
    }
}

/// `n` stands on the target by way of the relationship `k`: it is the
/// relationship, or another definition that goes through it.
pub open spec fn stands_by_way_of(
    relationships: Seq<(Seq<char>, Seq<char>)>,
    texts: Seq<Seq<char>>,
    target: Seq<char>,
    n: Seq<char>,
    k: int,
) -> bool {
    ||| n == relationships[k].0 + seq!['.'] + relationships[k].1
    ||| n != target && some_reads_through(texts, relationships[k].0, relationships[k].1, n)
}

/// What blocks a drop is exactly what is defined over the target, each
/// relationship that leads to it, and each other definition that goes through
/// one of these.
pub proof fn blockers_stand_on_the_target(
    over: Seq<Seq<char>>,
    relationships: Seq<(Seq<char>, Seq<char>)>,
    texts: Seq<Seq<char>>,
    target: Seq<char>,
    n: Seq<char>,
)
    requires
        dependents(over, relationships, texts, target) is Ok,
    ensures
        dependents(over, relationships, texts, target)->Ok_0.contains(n) <==> over.contains(n)
            || exists|k: int|
            0 <= k < relationships.len() && #[trigger] stands_by_way_of(
                relationships,
                texts,
                target,
                n,
                k,
            ),
    decreases relationships.len(),
{
    let found = dependents(over, relationships, texts, target)->Ok_0;
    if relationships.len() > 0 {
        let less = relationships.drop_last();
        let m = less.len() as int;
        let (table, name) = relationships[m];
        let before = dependents(over, less, texts, target)->Ok_0;
        let more = readers(texts, table, name, Some(target))->Ok_0;
        blockers_stand_on_the_target(over, less, texts, target, n);
        readers_go_through(texts, table, name, Some(target), n);
        reveal_strlit(".");
        let subject = table + "."@ + name;
        assert("."@ =~= seq!['.']);
        assert(found == before.push(subject) + more);
        assert forall|k: int| 0 <= k < m implies #[trigger] stands_by_way_of(
            relationships,
            texts,
            target,
            n,
            k,
        ) == stands_by_way_of(less, texts, target, n, k) by {
            assert(less[k] == relationships[k]);
        }
        assert(stands_by_way_of(relationships, texts, target, n, m) == (n == subject
            || more.contains(n)));
        pushed_contains(before, subject, n);
        added_contains(before.push(subject), more, n);
        if exists|k: int|
            0 <= k < relationships.len() && #[trigger] stands_by_way_of(
                relationships,
                texts,
                target,
                n,
                k,
            ) {
            let k = choose|k: int|
                0 <= k < relationships.len() && #[trigger] stands_by_way_of(
                    relationships,
                    texts,
                    target,
                    n,
                    k,
                );
            if k < m {
                assert(stands_by_way_of(less, texts, target, n, k));
            }
        }
        if exists|k: int|
            0 <= k < less.len() && #[trigger] stands_by_way_of(less, texts, target, n, k) {
            let k = choose|k: int|
                0 <= k < less.len() && #[trigger] stands_by_way_of(less, texts, target, n, k);
            assert(stands_by_way_of(relationships, texts, target, n, k));
        }
    }
}

proof fn added_contains(a: Seq<Seq<char>>, b: Seq<Seq<char>>, x: Seq<char>)
    ensures
        (a + b).contains(x) <==> a.contains(x) || b.contains(x),
{
    if a.contains(x) {
        assert((a + b)[a.index_of(x)] == x);
    }
    if b.contains(x) {
        assert((a + b)[a.len() + b.index_of(x)] == x);
    }
    if (a + b).contains(x) {
        let k = (a + b).index_of(x);
        if k < a.len() {
            assert(a[k] == x);
        } else {
            assert(b[k - a.len()] == x);
        }
    }
}

proof fn unreadable_texts_stop_readers(
    texts: Seq<Seq<char>>,
    table: Seq<char>,
    name: Seq<char>,
    exclude: Option<Seq<char>>,
)
    ensures
        readers(texts, table, name, exclude) is Err <==> exists|i: int|
            0 <= i < texts.len() && transform_of(#[trigger] texts[i]) is Err,
    decreases texts.len(),
{
    if texts.len() > 0 {
        let less = texts.drop_last();
        unreadable_texts_stop_readers(less, table, name, exclude);
        if readers(less, table, name, exclude) is Err {
            let i = choose|i: int| 0 <= i < less.len() && transform_of(#[trigger] less[i]) is Err;
            assert(transform_of(texts[i]) is Err);
        }
        if exists|i: int| 0 <= i < texts.len() && transform_of(#[trigger] texts[i]) is Err {
            let i = choose|i: int|
                0 <= i < texts.len() && transform_of(#[trigger] texts[i]) is Err;
            if i < less.len() {
                assert(transform_of(less[i]) is Err);
            }
        }
        assert(texts[texts.len() - 1] == texts.last());
    }
}

/// Looking for what blocks a drop fails exactly where a relationship leads to
/// the target and some definition's text cannot be read.
pub proof fn unreadable_texts_stop_a_drop(
    over: Seq<Seq<char>>,
    relationships: Seq<(Seq<char>, Seq<char>)>,
    texts: Seq<Seq<char>>,
    target: Seq<char>,
)
    ensures
        dependents(over, relationships, texts, target) is Err <==> relationships.len() > 0
            && exists|i: int| 0 <= i < texts.len() && transform_of(#[trigger] texts[i]) is Err,
    decreases relationships.len(),
{
    if relationships.len() > 0 {
        unreadable_texts_stop_a_drop(over, relationships.drop_last(), texts, target);
        unreadable_texts_stop_readers(
            texts,
            relationships.last().0,
            relationships.last().1,
            Some(target),
        );
    }
}

} // verus!
