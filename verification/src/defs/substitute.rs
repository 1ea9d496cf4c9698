//! Writing each calculated field in terms of source columns alone.

use vstd::prelude::*;

use crate::defs::ast::{
    call_view, expr_views, field_views, Expr, ExprView, FieldDef, FieldDefView,
};
use crate::defs::deps::{field_at, field_at_finds, find_field, open_fields, opening_shrinks};
use crate::names::{name_set, name_set_push};
use crate::text;

verus! {

/// `e` with every other field that the field `field` names replaced by its
/// own expression, and so on; none if a field of `path` is met again. A field
/// that names itself means the source column of that name.
pub open spec fn substituted(
    fields: Seq<FieldDefView>,
    e: ExprView,
    field: Seq<char>,
    path: Set<Seq<char>>,
) -> Option<ExprView>
    decreases open_fields(fields, path), e, 0nat,
{
    match e {
        ExprView::Column(name) => match field_at(fields, name) {
            Some(i) => if name == field {
                Some(e)
            } else if path.contains(name) || i < 0 || i >= fields.len() || fields[i].name != name {
                None
            } else {
                proof {
                    opening_shrinks(fields, path, i);
                }
                substituted(fields, fields[i].expr, name, path.insert(name))
            },
            None => Some(e),
        },
        ExprView::BinaryOp { op, lhs, rhs } => match (
            substituted(fields, *lhs, field, path),
            substituted(fields, *rhs, field, path),
        ) {
            (Some(l), Some(r)) => Some(
                ExprView::BinaryOp { op, lhs: Box::new(l), rhs: Box::new(r) },
            ),
            _ => None,
        },
        ExprView::FunctionCall { name, args } => match substituted_all(fields, args, field, path) {
            Some(es) => Some(ExprView::FunctionCall { name, args: es }),
            None => None,
        },
        _ => Some(e),
    }
}

/// Each of the expressions, substituted.
pub open spec fn substituted_all(
    fields: Seq<FieldDefView>,
    es: Seq<ExprView>,
    field: Seq<char>,
    path: Set<Seq<char>>,
) -> Option<Seq<ExprView>>
    decreases open_fields(fields, path), es, 1nat,
{
    if es.len() == 0 {
        Some(seq![])
    } else {
        match (
            substituted_all(fields, es.drop_last(), field, path),
            substituted(fields, es[es.len() - 1], field, path),
        ) {
            (Some(head), Some(last)) => Some(head.push(last)),
            _ => None,
        }
    }
}

/// Field `i` in terms of source columns.
pub open spec fn substituted_field(fields: Seq<FieldDefView>, i: int) -> Option<ExprView> {
    substituted(fields, fields[i].expr, fields[i].name, Set::empty().insert(fields[i].name))
}

fn substitute(
    fields: &Vec<FieldDef>,
    expr: &Expr,
    field: &str,
    path: &mut Vec<String>,
) -> (r: Option<Expr>)
    ensures
        match r {
            Some(e) => substituted(
                field_views(fields@),
                expr@,
                field@,
                name_set(old(path)@),
            ) == Some(e@),
            None => substituted(
                field_views(fields@),
                expr@,
                field@,
                name_set(old(path)@),
            ) is None,
        },
        final(path)@ == old(path)@,
    decreases open_fields(field_views(fields@), name_set(old(path)@)), *expr, 0nat,
{
    let ghost fs = field_views(fields@);
    let ghost before = path@;
    match expr {
        Expr::Column(name) => {
            proof {
                field_at_finds(fs, name@);
            }
            match find_field(fields, name.as_str()) {
                None => Some(expr.clone()),
                Some(i) => {
                    if text::same(name.as_str(), field) {
                        return Some(expr.clone());
                    }
                    if text::is_in(name.as_str(), path) {
                        return None;
                    }
                    assert(fs[i as int] == fields@[i as int]@);
                    path.push(name.clone());
                    proof {
                        name_set_push(before, path@.last());
                        assert(path@ =~= before.push(path@.last()));
                        opening_shrinks(fs, name_set(before), i as int);
                    }
                    let r = substitute(fields, &fields[i].expr, name.as_str(), path);
                    let _ = path.pop();
                    assert(path@ =~= before);
                    r
                },
            }
        },
        Expr::BinaryOp { op, lhs, rhs } => {
            let l = substitute(fields, lhs, field, path);
            let r = substitute(fields, rhs, field, path);
            match (l, r) {
                (Some(l), Some(r)) => Some(
                    Expr::BinaryOp { op: *op, lhs: Box::new(l), rhs: Box::new(r) },
                ),
                _ => None,
            }
        },
        Expr::FunctionCall { name, args } => {
            proof {
                call_view(*name, *args);
            }
            match substitute_all(fields, args, field, path) {
                Some(es) => {
                    let name = name.clone();
                    proof {
                        call_view(name, es);
                    }
                    Some(Expr::FunctionCall { name, args: es })
                },
                None => None,
            }
        },
        _ => Some(expr.clone()),
    }
}

proof fn none_stays(
    fields: Seq<FieldDefView>,
    es: Seq<ExprView>,
    i: int,
    field: Seq<char>,
    path: Set<Seq<char>>,
)
    requires
        0 <= i <= es.len(),
        substituted_all(fields, es.take(i), field, path) is None,
    ensures
        substituted_all(fields, es, field, path) is None,
    decreases es.len() - i,
{
    if i < es.len() {
        assert(es.take(i + 1).drop_last() =~= es.take(i));
        none_stays(fields, es, i + 1, field, path);
    } else {
        assert(es.take(i) =~= es);
    }
}

fn substitute_all(
    fields: &Vec<FieldDef>,
    args: &Vec<Expr>,
    field: &str,
    path: &mut Vec<String>,
) -> (r: Option<Vec<Expr>>)
    ensures
        match r {
            Some(es) => substituted_all(
                field_views(fields@),
                expr_views(args@),
                field@,
                name_set(old(path)@),
            ) == Some(expr_views(es@)),
            None => substituted_all(
                field_views(fields@),
                expr_views(args@),
                field@,
                name_set(old(path)@),
            ) is None,
        },
        final(path)@ == old(path)@,
    decreases open_fields(field_views(fields@), name_set(old(path)@)), *args, 1nat,
{
    let ghost fs = field_views(fields@);
    let ghost all = expr_views(args@);
    let mut es: Vec<Expr> = Vec::new();
    assert(expr_views(es@) =~= seq![]);
    let mut i: usize = 0;
    while i < args.len()
        invariant
            0 <= i <= args@.len(),
            fs == field_views(fields@),
            all == expr_views(args@),
            path@ == old(path)@,
            substituted_all(fs, all.take(i as int), field@, name_set(path@)) == Some(
                expr_views(es@),
            ),
        decreases args@.len() - i,
    {
        proof {
            let next = all.take(i + 1);
            assert(next.drop_last() =~= all.take(i as int));
            assert(next[next.len() - 1] == args@[i as int]@);
        }
        match substitute(fields, &args[i], field, path) {
            Some(e) => {
                let ghost before = es@;
                es.push(e);
                assert(expr_views(es@) =~= expr_views(before).push(e@));
            },
            None => {
                proof {
                    none_stays(fs, all, i + 1, field@, name_set(path@));
                }
                return None;
            },
        }
        i += 1;
    }
    assert(all.take(i as int) =~= all);
    Some(es)
}

/// Field `i` in terms of source columns; none if it depends on itself.
pub fn substitute_field(fields: &Vec<FieldDef>, i: usize) -> (r: Option<Expr>)
    requires
        i < fields@.len(),
    ensures
        match r {
            Some(e) => substituted_field(field_views(fields@), i as int) == Some(e@),
            None => substituted_field(field_views(fields@), i as int) is None,
        },
{
    let mut path: Vec<String> = Vec::new();
    path.push(fields[i].name.clone());
    proof {
        assert(field_views(fields@)[i as int] == fields@[i as int]@);
        let none: Seq<String> = Seq::empty();
        name_set_push(none, path@[0]);
        assert(path@ =~= none.push(path@[0]));
        assert(name_set(none) =~= Set::empty());
    }
    substitute(fields, &fields[i].expr, fields[i].name.as_str(), &mut path)
}

} // verus!
