//! Which calculated fields depend on which, and whether any depends on
//! itself.

use vstd::prelude::*;

use crate::defs::ast::{expr_views, field_views, Expr, ExprView, FieldDef, FieldDefView};
use crate::defs::validation_error::{ValidationError, ValidationErrorView};
use crate::text;
use crate::text::views;

verus! {

// ---------------------------------------------------------------------------
// References
// ---------------------------------------------------------------------------

/// The columns that an expression names, in the order it names them.
pub open spec fn references(e: ExprView) -> Seq<Seq<char>>
    decreases e,
{
    match e {
        ExprView::Column(name) => seq![name],
        ExprView::BinaryOp { op, lhs, rhs } => references(*lhs) + references(*rhs),
        ExprView::FunctionCall { name, args } => references_of_all(args),
        _ => seq![],
    }
}

/// The columns that a list of expressions names, in order.
pub open spec fn references_of_all(es: Seq<ExprView>) -> Seq<Seq<char>>
    decreases es,
{
    if es.len() == 0 {
        seq![]
    } else {
        references_of_all(es.drop_last()) + references(es[es.len() - 1])
    }
}

/// What one of the expressions names, the list names.
pub proof fn references_of_each(args: Seq<ExprView>, k: int, r: Seq<char>)
    requires
        0 <= k < args.len(),
        references(args[k]).contains(r),
    ensures
        references_of_all(args).contains(r),
    decreases args.len(),
{
    let head = references_of_all(args.drop_last());
    let tail = references(args[args.len() - 1]);
    if k < args.len() - 1 {
        assert(args.drop_last()[k] == args[k]);
        references_of_each(args.drop_last(), k, r);
        let m = head.index_of(r);
        assert((head + tail)[m] == r);
    } else {
        let m = tail.index_of(r);
        assert((head + tail)[head.len() + m] == r);
    }
}

/// Appends the columns that `expr` names.
pub fn collect_columns(expr: &Expr, out: &mut Vec<String>)
    ensures
        views(final(out)@) == views(old(out)@) + references(expr@),
    decreases *expr, 0nat,
{
    let ghost before = views(out@);
    match expr {
        Expr::Column(name) => {
            out.push(name.clone());
            assert(views(out@) =~= before + seq![name@]);
        },
        Expr::BinaryOp { lhs, rhs, .. } => {
            collect_columns(lhs, out);
            collect_columns(rhs, out);
            assert(views(out@) =~= before + references(expr@));
        },
        Expr::FunctionCall { name, args } => {
            proof {
                crate::defs::ast::call_view(*name, *args);
            }
            collect_all_columns(args, out);
        },
        _ => {
            assert(views(out@) =~= before + seq![]);
        },
    }
}

/// Appends the columns that a list of expressions names.
fn collect_all_columns(args: &Vec<Expr>, out: &mut Vec<String>)
    ensures
        views(final(out)@) == views(old(out)@) + references_of_all(expr_views(args@)),
    decreases *args, 1nat,
{
    let ghost before = views(out@);
    let ghost all = expr_views(args@);
    assert(views(out@) =~= before + references_of_all(all.take(0)));
    let mut i: usize = 0;
    while i < args.len()
        invariant
            0 <= i <= args@.len(),
            all == expr_views(args@),
            before == views(old(out)@),
            views(out@) == before + references_of_all(all.take(i as int)),
        decreases args@.len() - i,
    {
        collect_columns(&args[i], out);
        proof {
            let next = all.take(i + 1);
            assert(next.drop_last() =~= all.take(i as int));
            assert(next[next.len() - 1] == args@[i as int]@);
            assert(views(out@) =~= before + references_of_all(next));
        }
        i += 1;
    }
    assert(all.take(i as int) =~= all);
}

// ---------------------------------------------------------------------------
// Names of fields
// ---------------------------------------------------------------------------

/// Some field has the name `n`.
pub open spec fn is_field(fields: Seq<FieldDefView>, n: Seq<char>) -> bool {
    exists|i: int| 0 <= i < fields.len() && #[trigger] fields[i].name == n
}

/// No two fields share a name.
pub open spec fn distinct_names(fields: Seq<FieldDefView>) -> bool {
    forall|i: int, j: int|
        0 <= i < j < fields.len() ==> #[trigger] fields[i].name != #[trigger] fields[j].name
}

/// The position of the last field named `n`, if there is one.
pub open spec fn field_at(fields: Seq<FieldDefView>, n: Seq<char>) -> Option<int>
    decreases fields.len(),
{
    if fields.len() == 0 {
        None
    } else if fields.last().name == n {
        Some(fields.len() - 1)
    } else {
        field_at(fields.drop_last(), n)
    }
}

/// [`field_at`] finds a field exactly if there is one of that name.
pub proof fn field_at_finds(fields: Seq<FieldDefView>, n: Seq<char>)
    ensures
        field_at(fields, n) is Some <==> is_field(fields, n),
        field_at(fields, n) matches Some(i) ==> 0 <= i < fields.len() && fields[i].name == n,
        field_at(fields, n) matches Some(i) ==> forall|j: int|
            i < j < fields.len() ==> #[trigger] fields[j].name != n,
    decreases fields.len(),
{
    if fields.len() > 0 && fields.last().name != n {
        let rest = fields.drop_last();
        field_at_finds(rest, n);
        if is_field(fields, n) {
            let i = choose|i: int| 0 <= i < fields.len() && #[trigger] fields[i].name == n;
            assert(rest[i].name == n);
        }
        if let Some(i) = field_at(rest, n) {
            assert(fields[i] == rest[i]);
            assert forall|j: int| i < j < fields.len() implies #[trigger] fields[j].name != n by {
                if j < rest.len() {
                    assert(rest[j].name != n);
                }
            }
        }
    } else if fields.len() > 0 {
        assert(fields[fields.len() - 1].name == n);
    }
}

/// The position of the last field named `name`.
pub fn find_field(fields: &Vec<FieldDef>, name: &str) -> (r: Option<usize>)
    ensures
        match r {
            Some(i) => field_at(field_views(fields@), name@) == Some(i as int) && i
                < fields@.len(),
            None => field_at(field_views(fields@), name@) is None,
        },
{
    let ghost fs = field_views(fields@);
    let mut i: usize = fields.len();
    assert(fs.take(i as int) =~= fs);
    while i > 0
        invariant
            i <= fields@.len(),
            fs == field_views(fields@),
            field_at(fs, name@) == field_at(fs.take(i as int), name@),
        decreases i,
    {
        i -= 1;
        proof {
            let head = fs.take(i + 1);
            assert(head.drop_last() =~= fs.take(i as int));
            assert(head.last() == fs[i as int]);
        }
        if text::same(fields[i].name.as_str(), name) {
            return Some(i);
        }
    }
    None
}

/// The number of fields whose name is not in `path`.
pub open spec fn open_fields(fields: Seq<FieldDefView>, path: Set<Seq<char>>) -> nat
    decreases fields.len(),
{
    if fields.len() == 0 {
        0
    } else {
        open_fields(fields.drop_last(), path) + (if path.contains(fields.last().name) {
            0nat
        } else {
            1nat
        })
    }
}

/// Putting a field's name on the path leaves fewer fields open.
pub proof fn opening_shrinks(fields: Seq<FieldDefView>, path: Set<Seq<char>>, i: int)
    requires
        0 <= i < fields.len(),
        !path.contains(fields[i].name),
    ensures
        open_fields(fields, path.insert(fields[i].name)) < open_fields(fields, path),
    decreases fields.len(),
{
    let n = fields[i].name;
    let rest = fields.drop_last();
    if i < rest.len() {
        assert(rest[i] == fields[i]);
        opening_shrinks(rest, path, i);
    } else {
        opening_never_grows(rest, path, n);
    }
}

proof fn opening_never_grows(fields: Seq<FieldDefView>, path: Set<Seq<char>>, n: Seq<char>)
    ensures
        open_fields(fields, path.insert(n)) <= open_fields(fields, path),
    decreases fields.len(),
{
    if fields.len() > 0 {
        opening_never_grows(fields.drop_last(), path, n);
    }
}

// ---------------------------------------------------------------------------
// Dependencies
// ---------------------------------------------------------------------------

/// The field named `a` is calculated from the field named `b`. A field that
/// names its own name means the source column of that name.
pub open spec fn depends(fields: Seq<FieldDefView>, a: Seq<char>, b: Seq<char>) -> bool {
    &&& a != b
    &&& is_field(fields, b)
    &&& exists|i: int|
        0 <= i < fields.len() && #[trigger] fields[i].name == a && references(
            fields[i].expr,
        ).contains(b)
}

/// Each name of `p` depends on the next.
pub open spec fn is_path(fields: Seq<FieldDefView>, p: Seq<Seq<char>>) -> bool {
    forall|k: int| 0 <= k < p.len() - 1 ==> #[trigger] depends(fields, p[k], p[k + 1])
}

/// `p` leads from a field back to itself.
pub open spec fn is_cycle(fields: Seq<FieldDefView>, p: Seq<Seq<char>>) -> bool {
    p.len() >= 2 && is_path(fields, p) && p[0] == p[p.len() - 1]
}

/// Some field depends on itself, directly or through others.
pub open spec fn cyclic(fields: Seq<FieldDefView>) -> bool {
    exists|p: Seq<Seq<char>>| is_cycle(fields, p)
}

/// `p` is a path of dependencies that ends where it has been before.
pub open spec fn comes_back(fields: Seq<FieldDefView>, p: Seq<Seq<char>>) -> bool {
    &&& is_path(fields, p)
    &&& exists|j: int| 0 <= j < p.len() - 1 && #[trigger] p[j] == p[p.len() - 1]
}

/// `p` is a path of dependencies that ends where it has been before, and
/// meets nothing else twice.
pub open spec fn runs_into_itself(fields: Seq<FieldDefView>, p: Seq<Seq<char>>) -> bool {
    comes_back(fields, p) && p.drop_last().no_duplicates()
}

/// A path that comes back to where it has been shows a cycle.
pub proof fn coming_back_is_cyclic(fields: Seq<FieldDefView>, p: Seq<Seq<char>>)
    requires
        comes_back(fields, p),
    ensures
        cyclic(fields),
{
    let j = choose|j: int| 0 <= j < p.len() - 1 && #[trigger] p[j] == p[p.len() - 1];
    let q = p.subrange(j, p.len() as int);
    assert forall|k: int| 0 <= k < q.len() - 1 implies #[trigger] depends(
        fields,
        q[k],
        q[k + 1],
    ) by {
        assert(depends(fields, p[j + k], p[j + k + 1]));
    }
    assert(is_cycle(fields, q));
}

/// The fields at `i` and `j`, as [`depends`] relates their names.
pub open spec fn edge(fields: Seq<FieldDefView>, i: int, j: int) -> bool {
    fields[i].name != fields[j].name && references(fields[i].expr).contains(fields[j].name)
}

proof fn edge_depends(fields: Seq<FieldDefView>, i: int, j: int)
    requires
        0 <= i < fields.len(),
        0 <= j < fields.len(),
        edge(fields, i, j),
    ensures
        depends(fields, fields[i].name, fields[j].name),
{
}

/// Every field of `order` comes behind all the fields it depends on.
spec fn ordered(fields: Seq<FieldDefView>, order: Seq<int>) -> bool {
    &&& forall|k: int| 0 <= k < order.len() ==> 0 <= #[trigger] order[k] < fields.len()
    &&& forall|k: int, j: int|
        0 <= k < order.len() && 0 <= j < fields.len() && #[trigger] edge(fields, order[k], j)
            ==> order.take(k).contains(j)
}

/// The place of the field named `n` in `order`.
spec fn place(fields: Seq<FieldDefView>, order: Seq<int>, n: Seq<char>) -> int
    decreases order.len(),
{
    if order.len() == 0 {
        -1
    } else if fields[order[0]].name == n {
        0
    } else {
        1 + place(fields, order.drop_first(), n)
    }
}

proof fn place_finds(fields: Seq<FieldDefView>, order: Seq<int>, n: Seq<char>, k: int)
    requires
        0 <= k < order.len(),
        fields[order[k]].name == n,
    ensures
        0 <= place(fields, order, n) <= k,
        fields[order[place(fields, order, n)]].name == n,
    decreases order.len(),
{
    if fields[order[0]].name != n {
        assert(order.drop_first()[k - 1] == order[k]);
        place_finds(fields, order.drop_first(), n, k - 1);
        let p = place(fields, order.drop_first(), n);
        assert(order.drop_first()[p] == order[p + 1]);
    }
}

proof fn dependencies_come_first(
    fields: Seq<FieldDefView>,
    order: Seq<int>,
    a: Seq<char>,
    b: Seq<char>,
)
    requires
        distinct_names(fields),
        ordered(fields, order),
        forall|i: int| 0 <= i < fields.len() ==> #[trigger] order.contains(i),
        depends(fields, a, b),
    ensures
        0 <= place(fields, order, b) < place(fields, order, a),
{
    let i = choose|i: int|
        0 <= i < fields.len() && #[trigger] fields[i].name == a && references(
            fields[i].expr,
        ).contains(b);
    let j = choose|j: int| 0 <= j < fields.len() && #[trigger] fields[j].name == b;
    assert(order.contains(i));
    let k = choose|k: int| 0 <= k < order.len() && order[k] == i;
    place_finds(fields, order, a, k);
    let pa = place(fields, order, a);
    // Names are distinct, so the field found there is field `i` itself.
    assert(order[pa] == i) by {
        let other = order[pa];
        if other < i {
            assert(fields[other].name != fields[i].name);
        } else if i < other {
            assert(fields[i].name != fields[other].name);
        }
    }
    assert(edge(fields, order[pa], j));
    assert(order.take(pa).contains(j));
    let m = choose|m: int| 0 <= m < order.take(pa).len() && order.take(pa)[m] == j;
    assert(order[m] == j);
    place_finds(fields, order, b, m);
}

/// Where the fields can be ordered, no field depends on itself.
proof fn ordered_is_acyclic(fields: Seq<FieldDefView>, order: Seq<int>)
    requires
        distinct_names(fields),
        ordered(fields, order),
        forall|i: int| 0 <= i < fields.len() ==> #[trigger] order.contains(i),
    ensures
        !cyclic(fields),
{
    if cyclic(fields) {
        let p = choose|p: Seq<Seq<char>>| is_cycle(fields, p);
        places_fall(fields, order, p, p.len() - 1);
    }
}

proof fn places_fall(fields: Seq<FieldDefView>, order: Seq<int>, p: Seq<Seq<char>>, k: int)
    requires
        distinct_names(fields),
        ordered(fields, order),
        forall|i: int| 0 <= i < fields.len() ==> #[trigger] order.contains(i),
        is_path(fields, p),
        1 <= k < p.len(),
    ensures
        place(fields, order, p[k]) < place(fields, order, p[0]),
    decreases k,
{
    assert(depends(fields, p[k - 1], p[k - 1 + 1]));
    dependencies_come_first(fields, order, p[k - 1], p[k]);
    if k > 1 {
        places_fall(fields, order, p, k - 1);
    }
}

// ---------------------------------------------------------------------------
// Looking for a cycle
// ---------------------------------------------------------------------------

#[derive(Clone, Copy, PartialEq, Eq, Structural)]
enum Mark {
    Unseen,
    Visiting,
    Done,
}

spec fn unseen(marks: Seq<Mark>) -> nat
    decreases marks.len(),
{
    if marks.len() == 0 {
        0
    } else {
        unseen(marks.drop_last()) + (if marks.last() is Unseen {
            1nat
        } else {
            0nat
        })
    }
}

proof fn seeing_shrinks(marks: Seq<Mark>, i: int, m: Mark)
    requires
        0 <= i < marks.len(),
        !(m is Unseen),
    ensures
        unseen(marks.update(i, m)) == unseen(marks) - (if marks[i] is Unseen {
            1int
        } else {
            0int
        }),
    decreases marks.len(),
{
    let updated = marks.update(i, m);
    if i < marks.len() - 1 {
        assert(updated.drop_last() =~= marks.drop_last().update(i, m));
        seeing_shrinks(marks.drop_last(), i, m);
    } else {
        assert(updated.drop_last() =~= marks.drop_last());
    }
}

/// A depth-first walk over the fields.
struct Walk {
    marks: Vec<Mark>,
    /// The fields being visited, each needed by the one before.
    stack: Vec<usize>,
    /// The fields that are done, in the order they were.
    done: Ghost<Seq<int>>,
}

impl Walk {
    spec fn inv(&self, fields: Seq<FieldDefView>) -> bool {
        &&& self.marks@.len() == fields.len()
        &&& ordered(fields, self.done@)
        &&& forall|i: int|
            0 <= i < fields.len() ==> (#[trigger] self.marks@[i] is Done <==> self.done@.contains(
                i,
            ))
        &&& self.stack@.no_duplicates()
        &&& forall|k: int|
            0 <= k < self.stack@.len() ==> #[trigger] self.stack@[k] < fields.len()
        &&& forall|k: int|
            0 <= k < self.stack@.len() ==> self.marks@[#[trigger] self.stack@[k] as int] is Visiting
        &&& forall|i: int|
            0 <= i < fields.len() && #[trigger] self.marks@[i] is Visiting ==> exists|k: int|
                0 <= k < self.stack@.len() && #[trigger] self.stack@[k] == i
        &&& forall|k: int|
            0 <= k < self.stack@.len() - 1 ==> edge(
                fields,
                #[trigger] self.stack@[k] as int,
                self.stack@[k + 1] as int,
            )
    }

    spec fn names(&self, fields: Seq<FieldDefView>) -> Seq<Seq<char>> {
        Seq::new(self.stack@.len(), |k: int| fields[self.stack@[k] as int].name)
    }

    /// The stack and then field `j`, which is on the stack already.
    fn report(&self, fields: &Vec<FieldDef>, j: usize) -> (r: ValidationError)
        requires
            distinct_names(field_views(fields@)),
            self.inv(field_views(fields@)),
            j < fields@.len(),
            self.marks@[j as int] is Visiting,
            self.stack@.len() > 0,
            edge(field_views(fields@), self.stack@.last() as int, j as int),
        ensures
            r@ matches ValidationErrorView::Cycle { cycle } && runs_into_itself(
                field_views(fields@),
                cycle,
            ),
    {
        let ghost fs = field_views(fields@);
        let mut cycle: Vec<String> = Vec::new();
        let mut k: usize = 0;
        while k < self.stack.len()
            invariant
                0 <= k <= self.stack@.len(),
                self.inv(fs),
                fs == field_views(fields@),
                views(cycle@) =~= self.names(fs).take(k as int),
            decreases self.stack@.len() - k,
        {
            let i: usize = self.stack[k];
            let ghost before = views(cycle@);
            cycle.push(fields[i].name.clone());
            assert(fs[i as int].name == fields@[i as int].name@);
            assert(views(cycle@) =~= before.push(fs[i as int].name));
            k += 1;
        }
        let ghost before = views(cycle@);
        assert(before =~= self.names(fs));
        cycle.push(fields[j].name.clone());
        proof {
            let p = views(cycle@);
            let n = self.stack@.len() as int;
            assert(fs[j as int].name == fields@[j as int].name@);
            assert(p =~= before.push(fs[j as int].name));
            assert forall|k: int| 0 <= k < p.len() - 1 implies #[trigger] depends(
                fs,
                p[k],
                p[k + 1],
            ) by {
                if k < n - 1 {
                    assert(edge(fs, self.stack@[k] as int, self.stack@[k + 1] as int));
                    edge_depends(fs, self.stack@[k] as int, self.stack@[k + 1] as int);
                } else {
                    edge_depends(fs, self.stack@[k] as int, j as int);
                }
            }
            assert(p.drop_last() =~= before);
            assert forall|a: int, b: int|
                0 <= a < before.len() && 0 <= b < before.len() && a != b implies before[a]
                != before[b] by {
                let x = self.stack@[a] as int;
                let y = self.stack@[b] as int;
                assert(x != y);
                assert(before[a] == fs[x].name && before[b] == fs[y].name);
            }
            let m = choose|m: int| 0 <= m < self.stack@.len() && #[trigger] self.stack@[m] == j;
            assert(p[m] == p[p.len() - 1]);
        }
        ValidationError::Cycle { cycle }
    }

    /// Visits field `i` and all the fields it depends on.
    fn visit(&mut self, fields: &Vec<FieldDef>, i: usize) -> (r: Result<(), ValidationError>)
        requires
            distinct_names(field_views(fields@)),
            old(self).inv(field_views(fields@)),
            i < fields@.len(),
            old(self).marks@[i as int] is Unseen,
            old(self).stack@.len() > 0 ==> edge(
                field_views(fields@),
                old(self).stack@.last() as int,
                i as int,
            ),
        ensures
            match r {
                Ok(_) => {
                    &&& final(self).inv(field_views(fields@))
                    &&& final(self).stack@ == old(self).stack@
                    &&& final(self).marks@[i as int] is Done
                    &&& forall|j: int|
                        0 <= j < fields@.len() && old(self).marks@[j] is Done
                            ==> #[trigger] final(self).marks@[j] is Done
                    &&& unseen(final(self).marks@) < unseen(old(self).marks@)
                },
                Err(e) => e@ matches ValidationErrorView::Cycle { cycle } && runs_into_itself(
                    field_views(fields@),
                    cycle,
                ),
            },
        decreases unseen(old(self).marks@),
    {
        let ghost fs = field_views(fields@);
        let ghost m0 = self.marks@;
        let ghost s0 = self.stack@;
        let ghost d0 = self.done@;
        proof {
            seeing_shrinks(m0, i as int, Mark::Visiting);
        }
        self.marks.set(i, Mark::Visiting);
        self.stack.push(i);
        proof {
            assert(self.stack@.last() == i);
            assert forall|j: int| 0 <= j < fs.len() && #[trigger] self.marks@[j] is Visiting implies exists|
                k: int,
            | 0 <= k < self.stack@.len() && #[trigger] self.stack@[k] == j by {
                if j == i {
                    assert(self.stack@[s0.len() as int] == j);
                } else {
                    assert(m0[j] is Visiting);
                    let k = choose|k: int| 0 <= k < s0.len() && #[trigger] s0[k] == j;
                    assert(self.stack@[k] == j);
                }
            }
            assert forall|k: int| 0 <= k < self.stack@.len() implies self.marks@[
            #[trigger] self.stack@[k] as int] is Visiting by {
                if k < s0.len() {
                    assert(m0[s0[k] as int] is Visiting);
                }
            }
            assert forall|k: int| 0 <= k < self.stack@.len() - 1 implies edge(
                fs,
                #[trigger] self.stack@[k] as int,
                self.stack@[k + 1] as int,
            ) by {
                if k < s0.len() - 1 {
                    assert(edge(fs, s0[k] as int, s0[k + 1] as int));
                }
            }
            assert forall|j: int| 0 <= j < fs.len() implies (#[trigger] self.marks@[j] is Done
                <==> self.done@.contains(j)) by {
                assert(m0[j] is Done <==> d0.contains(j));
            }
        }
        let mut refs: Vec<String> = Vec::new();
        collect_columns(&fields[i].expr, &mut refs);
        let ghost rs = references(fs[i as int].expr);
        assert(views(refs@) =~= rs);
        let mut k: usize = 0;
        while k < refs.len()
            invariant
                0 <= k <= refs@.len(),
                fs == field_views(fields@),
                distinct_names(fs),
                i < fields@.len(),
                views(refs@) == rs,
                rs == references(fs[i as int].expr),
                m0.len() == fs.len(),
                self.inv(fs),
                self.stack@ == s0.push(i),
                unseen(self.marks@) < unseen(m0),
                m0 == old(self).marks@,
                forall|j: int|
                    0 <= j < fs.len() && m0[j] is Done ==> #[trigger] self.marks@[j] is Done,
                forall|c: int, j: int|
                    0 <= c < k && 0 <= j < fs.len() && #[trigger] rs[c] == #[trigger] fs[j].name
                        && fs[j].name != fs[i as int].name ==> self.marks@[j] is Done,
            decreases refs@.len() - k,
        {
            let ghost before = *self;
            assert(rs[k as int] == refs@[k as int]@);
            if !text::same(refs[k].as_str(), fields[i].name.as_str()) {
                proof {
                    field_at_finds(fs, rs[k as int]);
                }
                match find_field(fields, refs[k].as_str()) {
                    Some(j) => {
                        assert(edge(fs, i as int, j as int)) by {
                            assert(rs[k as int] == fs[j as int].name);
                        }
                        assert(self.stack@.last() == i);
                        match self.marks[j] {
                            Mark::Done => {},
                            Mark::Visiting => {
                                return Err(self.report(fields, j));
                            },
                            Mark::Unseen => {
                                match self.visit(fields, j) {
                                    Ok(_) => {},
                                    Err(e) => {
                                        return Err(e);
                                    },
                                }
                            },
                        }
                        proof {
                            assert forall|c: int, l: int|
                                0 <= c < k + 1 && 0 <= l < fs.len() && #[trigger] rs[c]
                                    == #[trigger] fs[l].name && fs[l].name
                                    != fs[i as int].name implies self.marks@[l] is Done by {
                                if c == k {
                                    if l < j {
                                        assert(fs[l].name != fs[j as int].name);
                                    } else if j < l {
                                        assert(fs[j as int].name != fs[l].name);
                                    }
                                    assert(l == j);
                                } else {
                                    assert(before.marks@[l] is Done);
                                }
                            }
                        }
                    },
                    None => {
                        proof {
                            assert forall|l: int|
                                0 <= l < fs.len() implies #[trigger] fs[l].name
                                != rs[k as int] by {
                                if fs[l].name == rs[k as int] {
                                    assert(is_field(fs, rs[k as int]));
                                }
                            }
                        }
                    },
                }
            }
            k += 1;
        }
        let ghost m1 = self.marks@;
        let ghost d1 = self.done@;
        proof {
            seeing_shrinks(m1, i as int, Mark::Done);
            assert(self.stack@[s0.len() as int] == i);
            assert(m1[i as int] is Visiting);
        }
        let _ = self.stack.pop();
        self.marks.set(i, Mark::Done);
        self.done = Ghost(d1.push(i as int));
        proof {
            assert(self.stack@ =~= s0);
            let d = self.done@;
            // Every field that field `i` depends on is done.
            assert forall|c: int, j: int|
                0 <= c < d.len() && 0 <= j < fs.len() && #[trigger] edge(fs, d[c], j) implies d.take(
                c,
            ).contains(j) by {
                if c < d1.len() {
                    assert(d1[c] == d[c]);
                    assert(d1.take(c).contains(j));
                    assert(d.take(c) =~= d1.take(c));
                } else {
                    assert(edge(fs, i as int, j));
                    let r = choose|r: int| 0 <= r < rs.len() && rs[r] == fs[j].name;
                    assert(rs[r] == fs[j].name);
                    assert(m1[j] is Done);
                    assert(d1.contains(j));
                    assert(d.take(c) =~= d1);
                }
            }
            assert forall|j: int| 0 <= j < fs.len() implies (#[trigger] self.marks@[j] is Done
                <==> d.contains(j)) by {
                assert(m1[j] is Done <==> d1.contains(j));
                if d1.contains(j) {
                    let x = choose|x: int| 0 <= x < d1.len() && d1[x] == j;
                    assert(d[x] == j);
                }
                if j == i {
                    assert(d[d1.len() as int] == j);
                }
                if d.contains(j) && j != i {
                    let x = choose|x: int| 0 <= x < d.len() && d[x] == j;
                    assert(d1[x] == j);
                }
            }
            // Nothing else on the stack is field `i`: its mark is that of the top.
            assert forall|k: int| 0 <= k < s0.len() implies self.marks@[#[trigger] s0[k] as int]
                is Visiting by {
                assert(self.stack@[k] == s0[k]);
                assert(old(self).marks@[s0[k] as int] is Visiting);
                assert(s0[k] != i);
                assert(s0.push(i)[k] == s0[k]);
            }
            assert forall|j: int| 0 <= j < fs.len() && #[trigger] self.marks@[j] is Visiting implies exists|
                k: int,
            | 0 <= k < self.stack@.len() && #[trigger] self.stack@[k] == j by {
                assert(m1[j] is Visiting);
                let k = choose|k: int|
                    0 <= k < s0.push(i).len() && #[trigger] s0.push(i)[k] == j;
                assert(k < s0.len());
                assert(self.stack@[k] == j);
            }
            assert forall|k: int| 0 <= k < self.stack@.len() - 1 implies edge(
                fs,
                #[trigger] self.stack@[k] as int,
                self.stack@[k + 1] as int,
            ) by {
                assert(edge(fs, s0.push(i)[k] as int, s0.push(i)[k + 1] as int));
            }
        }
        Ok(())
    }
}

/// Looks for a field that depends on itself.
pub fn detect_cycle(fields: &Vec<FieldDef>) -> (r: Result<(), ValidationError>)
    requires
        distinct_names(field_views(fields@)),
    ensures
        match r {
            Ok(_) => !cyclic(field_views(fields@)),
            Err(e) => e@ matches ValidationErrorView::Cycle { cycle } && runs_into_itself(
                field_views(fields@),
                cycle,
            ) && cyclic(field_views(fields@)),
        },
{
    let ghost fs = field_views(fields@);
    let mut marks: Vec<Mark> = Vec::new();
    let mut i: usize = 0;
    while i < fields.len()
        invariant
            0 <= i <= fields@.len(),
            marks@.len() == i,
            forall|j: int| 0 <= j < i ==> #[trigger] marks@[j] is Unseen,
        decreases fields@.len() - i,
    {
        marks.push(Mark::Unseen);
        i += 1;
    }
    let mut walk = Walk { marks, stack: Vec::new(), done: Ghost(Seq::<int>::empty()) };
    let mut i: usize = 0;
    while i < fields.len()
        invariant
            0 <= i <= fields@.len(),
            fs == field_views(fields@),
            distinct_names(fs),
            walk.inv(fs),
            walk.stack@.len() == 0,
            forall|j: int| 0 <= j < i ==> #[trigger] walk.marks@[j] is Done,
        decreases fields@.len() - i,
    {
        let ghost before = walk.marks@;
        match walk.marks[i] {
            Mark::Unseen => {
                match walk.visit(fields, i) {
                    Ok(_) => {},
                    Err(e) => {
                        proof {
                            coming_back_is_cyclic(fs, e@->Cycle_cycle);
                        }
                        return Err(e);
                    },
                }
            },
            Mark::Visiting => {
                proof {
                    let k = choose|k: int|
                        0 <= k < walk.stack@.len() && #[trigger] walk.stack@[k] == i;
                    assert(false);
                }
            },
            Mark::Done => {},
        }
        i += 1;
    }
    proof {
        assert forall|j: int| 0 <= j < fs.len() implies #[trigger] walk.done@.contains(j) by {
            assert(walk.marks@[j] is Done);
        }
        ordered_is_acyclic(fs, walk.done@);
    }
    Ok(())
}

/// Where names are distinct, a field is found by its name.
pub proof fn place_of(fields: Seq<FieldDefView>, i: int)
    requires
        distinct_names(fields),
        0 <= i < fields.len(),
    ensures
        field_at(fields, fields[i].name) == Some(i),
{
    field_at_finds(fields, fields[i].name);
    assert(is_field(fields, fields[i].name));
    let j = field_at(fields, fields[i].name)->0;
    if i < j {
        assert(fields[i].name != fields[j].name);
    } else if j < i {
        assert(fields[j].name != fields[i].name);
    }
}

} // verus!
