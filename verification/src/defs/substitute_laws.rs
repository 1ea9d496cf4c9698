//! What holds of fields written in terms of source columns.

use vstd::prelude::*;

use crate::defs::ast::{ExprView, FieldDefView};
use crate::defs::deps::{
    cyclic, depends, field_at, field_at_finds, is_path, open_fields, opening_shrinks, references,
    references_of_all, coming_back_is_cyclic, comes_back,
};
use crate::defs::oracle::reads_column;
use crate::defs::substitute::{substituted, substituted_all, substituted_field};

verus! {

/// The names are all among those that field `i` names.
spec fn named_by(fields: Seq<FieldDefView>, refs: Seq<Seq<char>>, i: int) -> bool {
    &&& 0 <= i < fields.len()
    &&& forall|r: Seq<char>| #[trigger]
        refs.contains(r) ==> references(fields[i].expr).contains(r)
}

proof fn named_by_parts(
    fields: Seq<FieldDefView>,
    a: Seq<Seq<char>>,
    b: Seq<Seq<char>>,
    i: int,
)
    requires
        named_by(fields, a + b, i),
    ensures
        named_by(fields, a, i),
        named_by(fields, b, i),
{
    assert forall|r: Seq<char>| #[trigger] a.contains(r) implies references(
        fields[i].expr,
    ).contains(r) by {
        assert((a + b)[a.index_of(r)] == r);
        assert((a + b).contains(r));
    }
    assert forall|r: Seq<char>| #[trigger] b.contains(r) implies references(
        fields[i].expr,
    ).contains(r) by {
        assert((a + b)[a.len() + b.index_of(r)] == r);
        assert((a + b).contains(r));
    }
}

proof fn set_of_push(p: Seq<Seq<char>>, n: Seq<char>)
    ensures
        p.push(n).to_set() == p.to_set().insert(n),
{
    let longer = p.push(n);
    assert forall|x: Seq<char>| longer.to_set().contains(x) == p.to_set().insert(n).contains(
        x,
    ) by {
        if p.contains(x) {
            assert(longer[p.index_of(x)] == x);
        }
        if x == n {
            assert(longer[p.len() as int] == x);
        }
        if longer.contains(x) && x != n {
            assert(p[longer.index_of(x)] == x);
        }
    }
    assert(longer.to_set() =~= p.to_set().insert(n));
}

proof fn expr_substitutes(fields: Seq<FieldDefView>, e: ExprView, p: Seq<Seq<char>>, i: int)
    requires
        !cyclic(fields),
        is_path(fields, p),
        p.len() > 0,
        named_by(fields, references(e), i),
        fields[i].name == p.last(),
    ensures
        substituted(fields, e, p.last(), p.to_set()) is Some,
    decreases open_fields(fields, p.to_set()), e, 0nat,
{
    match e {
        ExprView::Column(name) => {
            field_at_finds(fields, name);
            if let Some(j) = field_at(fields, name) {
                if name != p.last() {
                    assert(references(e)[0] == name);
                    assert(references(e).contains(name));
                    assert(depends(fields, p.last(), name));
                    let longer = p.push(name);
                    assert forall|k: int| 0 <= k < longer.len() - 1 implies #[trigger] depends(
                        fields,
                        longer[k],
                        longer[k + 1],
                    ) by {
                        if k < p.len() - 1 {
                            assert(depends(fields, p[k], p[k + 1]));
                        }
                    }
                    if p.to_set().contains(name) {
                        assert(longer[p.index_of(name)] == longer[longer.len() - 1]);
                        assert(comes_back(fields, longer));
                        coming_back_is_cyclic(fields, longer);
                    }
                    opening_shrinks(fields, p.to_set(), j);
                    set_of_push(p, name);
                    expr_substitutes(fields, fields[j].expr, longer, j);
                }
            }
        },
        ExprView::BinaryOp { op, lhs, rhs } => {
            named_by_parts(fields, references(*lhs), references(*rhs), i);
            expr_substitutes(fields, *lhs, p, i);
            expr_substitutes(fields, *rhs, p, i);
        },
        ExprView::FunctionCall { name, args } => {
            all_substitute(fields, args, p, i);
        },
        _ => {},
    }
}

proof fn all_substitute(fields: Seq<FieldDefView>, es: Seq<ExprView>, p: Seq<Seq<char>>, i: int)
    requires
        !cyclic(fields),
        is_path(fields, p),
        p.len() > 0,
        named_by(fields, references_of_all(es), i),
        fields[i].name == p.last(),
    ensures
        substituted_all(fields, es, p.last(), p.to_set()) is Some,
    decreases open_fields(fields, p.to_set()), es, 1nat,
{
    if es.len() > 0 {
        named_by_parts(
            fields,
            references_of_all(es.drop_last()),
            references(es[es.len() - 1]),
            i,
        );
        all_substitute(fields, es.drop_last(), p, i);
        expr_substitutes(fields, es[es.len() - 1], p, i);
    }
}

/// Where no field depends on itself, every field can be written in terms of
/// source columns.
pub proof fn independent_fields_substitute(fields: Seq<FieldDefView>, i: int)
    requires
        !cyclic(fields),
        0 <= i < fields.len(),
    ensures
        substituted_field(fields, i) is Some,
{
    let p = seq![fields[i].name];
    assert(p.to_set() =~= Set::empty().insert(fields[i].name)) by {
        assert(p[0] == fields[i].name);
    }
    expr_substitutes(fields, fields[i].expr, p, i);
}

proof fn expr_reads_columns(
    fields: Seq<FieldDefView>,
    e: ExprView,
    i: int,
    path: Set<Seq<char>>,
    r: Seq<char>,
)
    requires
        named_by(fields, references(e), i),
        substituted(fields, e, fields[i].name, path) is Some,
        references(substituted(fields, e, fields[i].name, path)->0).contains(r),
    ensures
        reads_column(fields, r),
    decreases open_fields(fields, path), e, 0nat,
{
    let s = substituted(fields, e, fields[i].name, path)->0;
    match e {
        ExprView::Column(name) => {
            field_at_finds(fields, name);
            assert(references(e)[0] == name);
            assert(references(e).contains(name));
            if field_at(fields, name) is None || name == fields[i].name {
                assert(r == name);
                assert(references(fields[i].expr).contains(r));
            } else {
                let j = field_at(fields, name)->0;
                opening_shrinks(fields, path, j);
                expr_reads_columns(fields, fields[j].expr, j, path.insert(name), r);
            }
        },
        ExprView::BinaryOp { op, lhs, rhs } => {
            named_by_parts(fields, references(*lhs), references(*rhs), i);
            let l = substituted(fields, *lhs, fields[i].name, path)->0;
            let t = substituted(fields, *rhs, fields[i].name, path)->0;
            assert(references(s) == references(l) + references(t));
            let k = references(s).index_of(r);
            if k < references(l).len() {
                assert(references(l)[k] == r);
                expr_reads_columns(fields, *lhs, i, path, r);
            } else {
                assert(references(t)[k - references(l).len()] == r);
                expr_reads_columns(fields, *rhs, i, path, r);
            }
        },
        ExprView::FunctionCall { name, args } => {
            all_read_columns(fields, args, i, path, r);
        },
        _ => {},
    }
}

proof fn all_read_columns(
    fields: Seq<FieldDefView>,
    es: Seq<ExprView>,
    i: int,
    path: Set<Seq<char>>,
    r: Seq<char>,
)
    requires
        named_by(fields, references_of_all(es), i),
        substituted_all(fields, es, fields[i].name, path) is Some,
        references_of_all(substituted_all(fields, es, fields[i].name, path)->0).contains(r),
    ensures
        reads_column(fields, r),
    decreases open_fields(fields, path), es, 1nat,
{
    if es.len() > 0 {
        let head = substituted_all(fields, es.drop_last(), fields[i].name, path)->0;
        let last = substituted(fields, es[es.len() - 1], fields[i].name, path)->0;
        let all = substituted_all(fields, es, fields[i].name, path)->0;
        assert(all == head.push(last));
        assert(all.drop_last() =~= head);
        assert(references_of_all(all) == references_of_all(head) + references(last));
        named_by_parts(
            fields,
            references_of_all(es.drop_last()),
            references(es[es.len() - 1]),
            i,
        );
        let k = references_of_all(all).index_of(r);
        if k < references_of_all(head).len() {
            assert(references_of_all(head)[k] == r);
            all_read_columns(fields, es.drop_last(), i, path, r);
        } else {
            assert(references(last)[k - references_of_all(head).len()] == r);
            expr_reads_columns(fields, es[es.len() - 1], i, path, r);
        }
    }
}

/// A field written in terms of source columns names none but source columns
/// that the fields read.
pub proof fn substituted_fields_name_columns(fields: Seq<FieldDefView>, i: int, r: Seq<char>)
    requires
        0 <= i < fields.len(),
        substituted_field(fields, i) is Some,
        references(substituted_field(fields, i)->0).contains(r),
    ensures
        reads_column(fields, r),
{
    expr_reads_columns(
        fields,
        fields[i].expr,
        i,
        Set::empty().insert(fields[i].name),
        r,
    );
}

} // verus!
