//! The operators, functions and aggregates that expressions call.

use vstd::prelude::*;
use vstd::utf8::encode_utf8;

use crate::defs::ast::Operator;
use crate::defs::pg_type::{PgType, PgTypeView};
use crate::defs::value::{opt_value, EvalError, EvalErrorView, Value, ValueView};
use crate::float;
use crate::float::{checked_sum, order_of_floats, part_of, Float, FloatView, FloatWidth};
use crate::interval::{interval_read, interval_spelled, interval_sum, Interval, IntervalView};
use crate::natural::Order;
use crate::numeric::{
    double_value, order_by_value, quotient, sum, Numeric, NumericView,
};
use crate::pattern;
use crate::pattern::{pattern_error, RegexCache};
use crate::temporal::{self, earlier, moment, Moment, MomentView};
use crate::text;

verus! {

/// The whole number `n`.
pub open spec fn whole(n: nat) -> ValueView {
    ValueView::Numeric(NumericView { mantissa: n as int, scale: 0 })
}

/// What a result can be out of range of.
#[derive(Clone, Copy, Debug, PartialEq, Eq)]
pub enum Overflow {
    Float(FloatWidth),
    Interval,
}

// ---------------------------------------------------------------------------
// Operators
// ---------------------------------------------------------------------------

/// A number as a float: itself, or the double precision value nearest to it;
/// none where that is out of range.
pub open spec fn as_float(v: ValueView) -> Option<(FloatView, FloatWidth)> {
    match v {
        ValueView::Float(f, w) => Some((f, w)),
        ValueView::Numeric(n) => if double_value(n) is Infinity {
            None
        } else {
            Some((double_value(n), FloatWidth::Float8))
        },
        _ => None,
    }
}

/// A decimal or a float.
pub open spec fn is_number(v: ValueView) -> bool {
    v is Numeric || v is Float
}

/// What an operator makes of two floats, where that is in range.
pub open spec fn float_operator(
    op: Operator,
    a: FloatView,
    aw: FloatWidth,
    b: FloatView,
    bw: FloatWidth,
) -> Result<Option<ValueView>, Overflow> {
    match op {
        Operator::Add => match checked_sum(a, aw, b, bw) {
            Some(s) => Ok(Some(ValueView::Float(s, aw.wider_spec(bw)))),
            None => Err(Overflow::Float(aw.wider_spec(bw))),
        },
        Operator::GreaterThan => Ok(
            Some(ValueView::Boolean(order_of_floats(a, b) == Order::Greater)),
        ),
    }
}

/// What an operator makes of two numbers: exact between decimals, rounded to the
/// wider width between floats; a decimal meets a float in double precision.
pub open spec fn number_operator(op: Operator, a: ValueView, b: ValueView) -> Result<
    Option<ValueView>,
    Overflow,
> {
    match (a, b) {
        (ValueView::Numeric(x), ValueView::Numeric(y)) => Ok(
            Some(
                match op {
                    Operator::Add => ValueView::Numeric(sum(x, y)),
                    Operator::GreaterThan => ValueView::Boolean(
                        order_by_value(x, y) == Order::Greater,
                    ),
                },
            ),
        ),
        (ValueView::Float(x, xw), ValueView::Float(y, yw)) => float_operator(op, x, xw, y, yw),
        _ => match (as_float(a), as_float(b)) {
            (Some((x, _)), Some((y, _))) => float_operator(
                op,
                x,
                FloatWidth::Float8,
                y,
                FloatWidth::Float8,
            ),
            _ => Err(Overflow::Float(FloatWidth::Float8)),
        },
    }
}

/// What an operator makes of its operands, where that is in range: null unless
/// both are numbers.
pub open spec fn operator_value(
    op: Operator,
    lhs: Option<ValueView>,
    rhs: Option<ValueView>,
) -> Result<Option<ValueView>, Overflow> {
    match (lhs, rhs) {
        (Some(a), Some(b)) => if is_number(a) && is_number(b) {
            number_operator(op, a, b)
        } else {
            Ok(None)
        },
        _ => Ok(None),
    }
}

/// What computing came to, seen from outside.
pub open spec fn computed_view(r: Result<Option<Value>, Overflow>) -> Result<
    Option<ValueView>,
    Overflow,
> {
    match r {
        Ok(v) => Ok(opt_value(v)),
        Err(w) => Err(w),
    }
}

/// What computing for the field `field` came to.
pub open spec fn in_field(r: Result<Option<ValueView>, Overflow>, field: Seq<char>) -> Result<
    Option<ValueView>,
    EvalErrorView,
> {
    match r {
        Ok(v) => Ok(v),
        Err(Overflow::Float(width)) => Err(EvalErrorView::FloatOutOfRange { field, width }),
        Err(Overflow::Interval) => Err(EvalErrorView::IntervalOutOfRange { field }),
    }
}

/// What computing for the field `field` came to.
pub fn for_field(r: Result<Option<Value>, Overflow>, field: &str) -> (o: Result<
    Option<Value>,
    EvalError,
>)
    ensures
        match o {
            Ok(v) => in_field(computed_view(r), field@) == Ok::<Option<ValueView>, EvalErrorView>(
                opt_value(v),
            ),
            Err(e) => in_field(computed_view(r), field@) == Err::<
                Option<ValueView>,
                EvalErrorView,
            >(e@),
        },
{
    match r {
        Ok(v) => Ok(v),
        Err(Overflow::Float(width)) => Err(
            EvalError::FloatOutOfRange { field: text::owned(field), width },
        ),
        Err(Overflow::Interval) => Err(
            EvalError::IntervalOutOfRange { field: text::owned(field) },
        ),
    }
}

fn to_float(v: &Value) -> (r: Option<(Float, FloatWidth)>)
    ensures
        match r {
            Some((f, w)) => as_float(v@) == Some((f@, w)),
            None => as_float(v@) is None,
        },
{
    match v {
        Value::Float(f, w) => Some((*f, *w)),
        Value::Numeric(n) => {
            let f = n.to_double();
            if f.is_infinite() {
                None
            } else {
                Some((f, FloatWidth::Float8))
            }
        },
        _ => None,
    }
}

fn apply_to_floats(op: Operator, a: Float, aw: FloatWidth, b: Float, bw: FloatWidth) -> (r: Result<
    Option<Value>,
    Overflow,
>)
    ensures
        computed_view(r) == float_operator(op, a@, aw, b@, bw),
{
    match op {
        Operator::Add => match float::checked_add(a, aw, b, bw) {
            Ok((s, w)) => Ok(Some(Value::Float(s, w))),
            Err(_) => Err(Overflow::Float(aw.wider(bw))),
        },
        Operator::GreaterThan => Ok(
            Some(
                Value::Boolean(
                    match float::order_floats(a, b) {
                        Order::Greater => true,
                        _ => false,
                    },
                ),
            ),
        ),
    }
}

/// What an operator makes of its operands.
pub fn apply_operator(op: Operator, lhs: Option<Value>, rhs: Option<Value>) -> (r: Result<
    Option<Value>,
    Overflow,
>)
    ensures
        computed_view(r) == operator_value(op, opt_value(lhs), opt_value(rhs)),
{
    match (lhs, rhs) {
        (Some(Value::Numeric(a)), Some(Value::Numeric(b))) => Ok(
            Some(
                match op {
                    Operator::Add => Value::Numeric(a.add(&b)),
                    Operator::GreaterThan => Value::Boolean(
                        match a.order(&b) {
                            Order::Greater => true,
                            _ => false,
                        },
                    ),
                },
            ),
        ),
        (Some(Value::Float(a, aw)), Some(Value::Float(b, bw))) => apply_to_floats(
            op,
            a,
            aw,
            b,
            bw,
        ),
        (Some(Value::Float(a, aw)), Some(Value::Numeric(b))) => apply_mixed(
            op,
            &Value::Float(a, aw),
            &Value::Numeric(b),
        ),
        (Some(Value::Numeric(a)), Some(Value::Float(b, bw))) => apply_mixed(
            op,
            &Value::Numeric(a),
            &Value::Float(b, bw),
        ),
        _ => Ok(None),
    }
}

fn apply_mixed(op: Operator, a: &Value, b: &Value) -> (r: Result<Option<Value>, Overflow>)
    ensures
        computed_view(r) == (match (as_float(a@), as_float(b@)) {
            (Some((x, _)), Some((y, _))) => float_operator(
                op,
                x,
                FloatWidth::Float8,
                y,
                FloatWidth::Float8,
            ),
            _ => Err(Overflow::Float(FloatWidth::Float8)),
        }),
{
    match (to_float(a), to_float(b)) {
        (Some((x, _)), Some((y, _))) => apply_to_floats(
            op,
            x,
            FloatWidth::Float8,
            y,
            FloatWidth::Float8,
        ),
        _ => Err(Overflow::Float(FloatWidth::Float8)),
    }
}

// ---------------------------------------------------------------------------
// Functions
// ---------------------------------------------------------------------------

/// `needle` stands in `haystack` at `i`.
pub open spec fn occurs_at(haystack: Seq<char>, needle: Seq<char>, i: int) -> bool {
    &&& 0 <= i
    &&& i + needle.len() <= haystack.len()
    &&& haystack.subrange(i, i + needle.len()) == needle
}

/// The position, counted from one, of the first place at or behind `i` where
/// `needle` stands in `haystack`; zero if there is none.
pub open spec fn first_occurrence(haystack: Seq<char>, needle: Seq<char>, i: int) -> nat
    decreases haystack.len() + 1 - i,
{
    if i < 0 || i + needle.len() > haystack.len() {
        0
    } else if occurs_at(haystack, needle, i) {
        (i + 1) as nat
    } else {
        first_occurrence(haystack, needle, i + 1)
    }
}

/// The position of the first occurrence is that of an occurrence before which
/// there is none, and zero exactly if there is none at all.
pub proof fn first_occurrence_is_first(haystack: Seq<char>, needle: Seq<char>, from: int)
    requires
        0 <= from,
    ensures
        first_occurrence(haystack, needle, from) == 0 <==> forall|i: int|
            from <= i ==> !#[trigger] occurs_at(haystack, needle, i),
        first_occurrence(haystack, needle, from) > 0 ==> {
            let at = first_occurrence(haystack, needle, from) - 1;
            &&& from <= at
            &&& occurs_at(haystack, needle, at)
            &&& forall|i: int| from <= i < at ==> !#[trigger] occurs_at(haystack, needle, i)
        },
    decreases haystack.len() + 1 - from,
{
    if from + needle.len() <= haystack.len() && !occurs_at(haystack, needle, from) {
        first_occurrence_is_first(haystack, needle, from + 1);
        let at = first_occurrence(haystack, needle, from + 1) - 1;
        assert forall|i: int| from <= i && at == -1 implies !#[trigger] occurs_at(
            haystack,
            needle,
            i,
        ) by {}
    }
}

/// The position, counted from one in characters, of the first `needle` in
/// `haystack`; zero if it does not occur.
pub fn strpos(haystack: &str, needle: &str) -> (r: usize)
    ensures
        r == first_occurrence(haystack@, needle@, 0),
{
    let hs = text::chars_of(haystack);
    let ns = text::chars_of(needle);
    if ns.len() == 0 {
        assert(haystack@.subrange(0, 0) =~= needle@);
        return 1;
    }
    let mut i: usize = 0;
    while i < hs.len() && ns.len() <= hs.len() - i
        invariant
            hs@ == haystack@,
            ns@ == needle@,
            ns@.len() > 0,
            0 <= i <= hs.len(),
            first_occurrence(haystack@, needle@, 0) == first_occurrence(
                haystack@,
                needle@,
                i as int,
            ),
        decreases hs@.len() - i,
    {
        if stands_at(&hs, &ns, i) {
            return i + 1;
        }
        i += 1;
    }
    0
}

fn stands_at(hs: &Vec<char>, ns: &Vec<char>, at: usize) -> (r: bool)
    requires
        at + ns.len() <= hs.len(),
    ensures
        r == occurs_at(hs@, ns@, at as int),
{
    let mut k: usize = 0;
    while k < ns.len()
        invariant
            at + ns.len() <= hs.len(),
            0 <= k <= ns.len(),
            forall|j: int| 0 <= j < k ==> hs@[at + j] == #[trigger] ns@[j],
        decreases ns@.len() - k,
    {
        if hs[at + k] != ns[k] {
            assert(hs@.subrange(at as int, at + ns@.len())[k as int] != ns@[k as int]);
            return false;
        }
        k += 1;
    }
    assert(hs@.subrange(at as int, at + ns@.len()) =~= ns@);
    true
}

/// The argument is a text.
pub open spec fn is_text(arg: Option<ValueView>) -> bool {
    arg matches Some(ValueView::Text(_))
}

/// The text of a text argument.
pub open spec fn text_of(arg: Option<ValueView>) -> Seq<char> {
    match arg {
        Some(ValueView::Text(s)) => s,
        _ => seq![],
    }
}

/// What a function makes of its arguments: null unless every one is a text,
/// and null for a function or a number of arguments that is not known.
pub open spec fn function_value(name: Seq<char>, args: Seq<Option<ValueView>>) -> Option<
    ValueView,
> {
    if !(forall|i: int| 0 <= i < args.len() ==> is_text(#[trigger] args[i])) {
        None
    } else if name == "OCTET_LENGTH"@ && args.len() == 1 {
        Some(whole(encode_utf8(text_of(args[0])).len()))
    } else if name == "CHAR_LENGTH"@ && args.len() == 1 {
        Some(whole(text_of(args[0]).len()))
    } else if name == "STRPOS"@ && args.len() == 2 {
        Some(whole(first_occurrence(text_of(args[0]), text_of(args[1]), 0)))
    } else if name == "REGEXP_COUNT"@ && args.len() == 2 {
        match pattern::match_count(text_of(args[1]), text_of(args[0])) {
            Some(n) => Some(whole(n)),
            None => None,
        }
    } else {
        None
    }
}

/// The patterns that a call compiles: that of `REGEXP_COUNT`, if the call
/// comes to matching it and it is a regular expression.
pub open spec fn call_patterns(name: Seq<char>, args: Seq<Option<ValueView>>) -> Set<Seq<char>> {
    if name == "REGEXP_COUNT"@ && args.len() == 2 && is_text(args[0]) && is_text(args[1])
        && pattern_error(text_of(args[1])) is None {
        set![text_of(args[1])]
    } else {
        Set::empty()
    }
}

/// The views of a list of values that may be null.
pub open spec fn opt_values(s: Seq<Option<Value>>) -> Seq<Option<ValueView>> {
    s.map_values(|v: Option<Value>| opt_value(v))
}

/// What a function makes of its arguments.
pub fn apply_function(name: &str, args: &Vec<Option<Value>>, cache: &mut RegexCache) -> (r: Option<
    Value,
>)
    ensures
        opt_value(r) == function_value(name@, opt_values(args@)),
        final(cache).after_meeting(*old(cache), call_patterns(name@, opt_values(args@))),
{
    proof {
        pattern::nothing_is_met(*cache);
    }
    let ghost vs = opt_values(args@);
    let mut i: usize = 0;
    while i < args.len()
        invariant
            0 <= i <= args@.len(),
            vs == opt_values(args@),
            *cache == *old(cache),
            cache.after_meeting(*old(cache), Set::empty()),
            forall|j: int| 0 <= j < i ==> is_text(#[trigger] vs[j]),
        decreases args@.len() - i,
    {
        assert(vs[i as int] == opt_value(args@[i as int]));
        match &args[i] {
            Some(Value::Text(_)) => {},
            _ => {
                assert(!is_text(vs[i as int]));
                return None;
            },
        }
        i += 1;
    }
    if args.len() == 1 {
        assert(vs[0] == opt_value(args@[0]));
        if let Some(Value::Text(s)) = &args[0] {
            if text::same(name, "OCTET_LENGTH") {
                let n: usize = s.as_str().as_bytes().len();
                return Some(Value::Numeric(Numeric::whole(n as u128)));
            }
            if text::same(name, "CHAR_LENGTH") {
                let n: usize = s.as_str().unicode_len();
                return Some(Value::Numeric(Numeric::whole(n as u128)));
            }
        }
    }
    if args.len() == 2 {
        assert(vs[0] == opt_value(args@[0]));
        assert(vs[1] == opt_value(args@[1]));
        if let (Some(Value::Text(s)), Some(Value::Text(t))) = (&args[0], &args[1]) {
            if text::same(name, "STRPOS") {
                proof {
                    reveal_strlit("STRPOS");
                    reveal_strlit("REGEXP_COUNT");
                    assert("STRPOS"@.len() != "REGEXP_COUNT"@.len());
                }
                let n: usize = strpos(s.as_str(), t.as_str());
                return Some(Value::Numeric(Numeric::whole(n as u128)));
            }
            if text::same(name, "REGEXP_COUNT") {
                proof {
                    let one = set![t@];
                    assert(one.contains(t@));
                    assert(cache@.insert(t@) =~= cache@.union(one));
                    assert(call_patterns(name@, vs) == one || pattern_error(t@) is Some);
                }
                return match cache.regexp_count(s.as_str(), t.as_str()) {
                    Some(n) => Some(Value::Numeric(Numeric::whole(n))),
                    None => None,
                };
            }
        }
    }
    None
}

// ---------------------------------------------------------------------------
// Aggregates
// ---------------------------------------------------------------------------

/// The views of a list of values.
pub open spec fn value_views(s: Seq<Value>) -> Seq<ValueView> {
    s.map_values(|v: Value| v@)
}

/// The numbers among the values.
pub open spec fn numbers(values: Seq<ValueView>) -> Seq<NumericView>
    decreases values.len(),
{
    if values.len() == 0 {
        seq![]
    } else {
        match values.last() {
            ValueView::Numeric(n) => numbers(values.drop_last()).push(n),
            _ => numbers(values.drop_last()),
        }
    }
}

/// The truth values among the values.
pub open spec fn booleans(values: Seq<ValueView>) -> Seq<bool>
    decreases values.len(),
{
    if values.len() == 0 {
        seq![]
    } else {
        match values.last() {
            ValueView::Boolean(b) => booleans(values.drop_last()).push(b),
            _ => booleans(values.drop_last()),
        }
    }
}

/// The sum of the numbers.
pub open spec fn total(ns: Seq<NumericView>) -> NumericView
    decreases ns.len(),
{
    if ns.len() <= 1 {
        ns[0]
    } else {
        sum(total(ns.drop_last()), ns.last())
    }
}

/// The least number, the first of those that are equal in value.
pub open spec fn least(ns: Seq<NumericView>) -> NumericView
    decreases ns.len(),
{
    if ns.len() <= 1 {
        ns[0]
    } else if order_by_value(ns.last(), least(ns.drop_last())) == Order::Less {
        ns.last()
    } else {
        least(ns.drop_last())
    }
}

/// The greatest number, the first of those that are equal in value.
pub open spec fn greatest(ns: Seq<NumericView>) -> NumericView
    decreases ns.len(),
{
    if ns.len() <= 1 {
        ns[0]
    } else if order_by_value(ns.last(), greatest(ns.drop_last())) == Order::Greater {
        ns.last()
    } else {
        greatest(ns.drop_last())
    }
}

/// Some value is a float.
pub open spec fn has_float(values: Seq<ValueView>) -> bool {
    exists|i: int| 0 <= i < values.len() && (#[trigger] values[i]) is Float
}

/// The numbers among the values as floats; none where one is out of range.
pub open spec fn floats(values: Seq<ValueView>) -> Option<Seq<(FloatView, FloatWidth)>>
    decreases values.len(),
{
    if values.len() == 0 {
        Some(seq![])
    } else if !is_number(values.last()) {
        floats(values.drop_last())
    } else {
        match (floats(values.drop_last()), as_float(values.last())) {
            (Some(fs), Some(f)) => Some(fs.push(f)),
            _ => None,
        }
    }
}

/// The sum of the floats, one added after the other; the width that a sum
/// leaves the range of, where one does.
pub open spec fn float_total(fs: Seq<(FloatView, FloatWidth)>) -> Result<
    (FloatView, FloatWidth),
    FloatWidth,
>
    decreases fs.len(),
{
    if fs.len() <= 1 {
        Ok(fs[0])
    } else {
        match float_total(fs.drop_last()) {
            Err(w) => Err(w),
            Ok((t, w)) => match checked_sum(t, w, fs.last().0, fs.last().1) {
                Some(s) => Ok((s, w.wider_spec(fs.last().1))),
                None => Err(w.wider_spec(fs.last().1)),
            },
        }
    }
}

/// The same floats in double precision.
pub open spec fn widened(fs: Seq<(FloatView, FloatWidth)>) -> Seq<(FloatView, FloatWidth)> {
    fs.map_values(|f: (FloatView, FloatWidth)| (f.0, FloatWidth::Float8))
}

/// The least float, the first of those that are equal.
pub open spec fn least_float(fs: Seq<(FloatView, FloatWidth)>) -> (FloatView, FloatWidth)
    decreases fs.len(),
{
    if fs.len() <= 1 {
        fs[0]
    } else if order_of_floats(fs.last().0, least_float(fs.drop_last()).0) == Order::Less {
        fs.last()
    } else {
        least_float(fs.drop_last())
    }
}

/// The greatest float, the first of those that are equal.
pub open spec fn greatest_float(fs: Seq<(FloatView, FloatWidth)>) -> (FloatView, FloatWidth)
    decreases fs.len(),
{
    if fs.len() <= 1 {
        fs[0]
    } else if order_of_floats(fs.last().0, greatest_float(fs.drop_last()).0) == Order::Greater {
        fs.last()
    } else {
        greatest_float(fs.drop_last())
    }
}

/// What a fold of numbers makes of floats. An average is taken in double
/// precision.
pub open spec fn float_fold(name: Seq<char>, fs: Seq<(FloatView, FloatWidth)>) -> Result<
    Option<ValueView>,
    Overflow,
> {
    if name == "SUM"@ {
        match float_total(fs) {
            Ok((t, w)) => Ok(Some(ValueView::Float(t, w))),
            Err(w) => Err(Overflow::Float(w)),
        }
    } else if name == "MIN"@ {
        Ok(Some(ValueView::Float(least_float(fs).0, least_float(fs).1)))
    } else if name == "MAX"@ {
        Ok(Some(ValueView::Float(greatest_float(fs).0, greatest_float(fs).1)))
    } else if name == "AVG"@ {
        match float_total(widened(fs)) {
            Ok((t, w)) => Ok(Some(ValueView::Float(part_of(t, fs.len()), FloatWidth::Float8))),
            Err(w) => Err(Overflow::Float(w)),
        }
    } else {
        Ok(None)
    }
}

/// The moment of a value of a date or time type.
pub open spec fn moment_of(v: ValueView) -> Option<MomentView> {
    match v {
        ValueView::Other(t, s) => moment(t, s),
        _ => None,
    }
}

/// The latest or the earliest moment among the values, the first of those
/// that are at the same place.
pub open spec fn extreme_moment(values: Seq<ValueView>, latest: bool) -> Option<ValueView>
    decreases values.len(),
{
    if values.len() == 0 {
        None
    } else {
        let best = extreme_moment(values.drop_last(), latest);
        match (best, moment_of(values.last())) {
            (_, None) => best,
            (None, Some(_)) => Some(values.last()),
            (Some(b), Some(m)) => if latest && earlier(moment_of(b)->0, m) || !latest && earlier(
                m,
                moment_of(b)->0,
            ) {
                Some(values.last())
            } else {
                best
            },
        }
    }
}

/// The spans of time among the values.
pub open spec fn intervals(values: Seq<ValueView>) -> Seq<IntervalView>
    decreases values.len(),
{
    if values.len() == 0 {
        seq![]
    } else {
        match interval_of(values.last()) {
            Some(v) => intervals(values.drop_last()).push(v),
            None => intervals(values.drop_last()),
        }
    }
}

/// The span of time that a value is.
pub open spec fn interval_of(v: ValueView) -> Option<IntervalView> {
    match v {
        ValueView::Other(PgTypeView::Interval, s) => interval_read(s),
        _ => None,
    }
}

/// The sum of the spans, one added after the other, where no sum on the way
/// is out of range.
pub open spec fn span_total(vs: Seq<IntervalView>) -> Option<IntervalView>
    decreases vs.len(),
{
    if vs.len() <= 1 {
        Some(vs[0])
    } else {
        match span_total(vs.drop_last()) {
            Some(t) => interval_sum(t, vs.last()),
            None => None,
        }
    }
}

/// What `SUM` makes of spans of time.
pub open spec fn span_fold(vs: Seq<IntervalView>) -> Result<Option<ValueView>, Overflow> {
    if vs.len() == 0 {
        Ok(None)
    } else {
        match span_total(vs) {
            Some(t) => Ok(Some(ValueView::Other(PgTypeView::Interval, interval_spelled(t)))),
            None => Err(Overflow::Interval),
        }
    }
}

/// What an aggregate makes of the values that are not null. `COUNT` counts
/// them; the others are null where there is nothing of their kind to fold.
/// Where there are no numbers, `MIN` and `MAX` fold moments and `SUM` spans of
/// time. Where a float is among the numbers all are folded as floats.
pub open spec fn aggregate_value(name: Seq<char>, values: Seq<ValueView>) -> Result<
    Option<ValueView>,
    Overflow,
> {
    let ns = numbers(values);
    let bs = booleans(values);
    if name == "COUNT"@ {
        Ok(Some(whole(values.len())))
    } else if name == "BOOL_AND"@ {
        if bs.len() == 0 {
            Ok(None)
        } else {
            Ok(Some(ValueView::Boolean(!bs.contains(false))))
        }
    } else if name == "BOOL_OR"@ {
        if bs.len() == 0 {
            Ok(None)
        } else {
            Ok(Some(ValueView::Boolean(bs.contains(true))))
        }
    } else if has_float(values) {
        match floats(values) {
            Some(fs) => float_fold(name, fs),
            None => Err(Overflow::Float(FloatWidth::Float8)),
        }
    } else if ns.len() == 0 {
        if name == "MIN"@ {
            Ok(extreme_moment(values, false))
        } else if name == "MAX"@ {
            Ok(extreme_moment(values, true))
        } else if name == "SUM"@ {
            span_fold(intervals(values))
        } else {
            Ok(None)
        }
    } else if name == "SUM"@ {
        Ok(Some(ValueView::Numeric(total(ns))))
    } else if name == "MIN"@ {
        Ok(Some(ValueView::Numeric(least(ns))))
    } else if name == "MAX"@ {
        Ok(Some(ValueView::Numeric(greatest(ns))))
    } else if name == "AVG"@ {
        Ok(
            Some(
                ValueView::Numeric(
                    quotient(total(ns), NumericView { mantissa: ns.len() as int, scale: 0 }),
                ),
            ),
        )
    } else {
        Ok(None)
    }
}

/// The views of a list of numbers.
pub open spec fn number_views(s: Seq<Numeric>) -> Seq<NumericView> {
    s.map_values(|n: Numeric| n@)
}

fn numbers_of(values: &Vec<Value>) -> (r: Vec<Numeric>)
    ensures
        number_views(r@) == numbers(value_views(values@)),
{
    let ghost vs = value_views(values@);
    let mut r: Vec<Numeric> = Vec::new();
    assert(number_views(r@) =~= seq![]);
    let mut i: usize = 0;
    while i < values.len()
        invariant
            0 <= i <= values@.len(),
            vs == value_views(values@),
            number_views(r@) == numbers(vs.take(i as int)),
        decreases values@.len() - i,
    {
        assert(vs.take(i + 1).drop_last() =~= vs.take(i as int));
        assert(vs[i as int] == values@[i as int]@);
        if let Value::Numeric(n) = &values[i] {
            let ghost before = r@;
            r.push(n.copy());
            assert(number_views(r@) =~= number_views(before).push(n@));
        }
        i += 1;
    }
    assert(vs.take(i as int) =~= vs);
    r
}

fn booleans_of(values: &Vec<Value>) -> (r: Vec<bool>)
    ensures
        r@ == booleans(value_views(values@)),
{
    let ghost vs = value_views(values@);
    let mut r: Vec<bool> = Vec::new();
    let mut i: usize = 0;
    while i < values.len()
        invariant
            0 <= i <= values@.len(),
            vs == value_views(values@),
            r@ == booleans(vs.take(i as int)),
        decreases values@.len() - i,
    {
        assert(vs.take(i + 1).drop_last() =~= vs.take(i as int));
        assert(vs[i as int] == values@[i as int]@);
        if let Value::Boolean(b) = &values[i] {
            r.push(*b);
        }
        i += 1;
    }
    assert(vs.take(i as int) =~= vs);
    r
}

fn any_is(bs: &Vec<bool>, b: bool) -> (r: bool)
    ensures
        r == bs@.contains(b),
{
    let mut i: usize = 0;
    while i < bs.len()
        invariant
            0 <= i <= bs@.len(),
            forall|j: int| 0 <= j < i ==> bs@[j] != b,
        decreases bs@.len() - i,
    {
        if bs[i] == b {
            return true;
        }
        i += 1;
    }
    false
}

fn total_of(ns: &Vec<Numeric>) -> (r: Numeric)
    requires
        ns@.len() > 0,
    ensures
        r@ == total(number_views(ns@)),
{
    let ghost vs = number_views(ns@);
    let mut r = ns[0].copy();
    let mut i: usize = 1;
    assert(vs.take(1)[0] == vs[0]);
    while i < ns.len()
        invariant
            1 <= i <= ns@.len(),
            vs == number_views(ns@),
            r@ == total(vs.take(i as int)),
        decreases ns@.len() - i,
    {
        assert(vs.take(i + 1).drop_last() =~= vs.take(i as int));
        assert(vs[i as int] == ns@[i as int]@);
        r = r.add(&ns[i]);
        i += 1;
    }
    assert(vs.take(i as int) =~= vs);
    r
}

fn least_of(ns: &Vec<Numeric>) -> (r: Numeric)
    requires
        ns@.len() > 0,
    ensures
        r@ == least(number_views(ns@)),
{
    let ghost vs = number_views(ns@);
    let mut r = ns[0].copy();
    let mut i: usize = 1;
    assert(vs.take(1)[0] == vs[0]);
    while i < ns.len()
        invariant
            1 <= i <= ns@.len(),
            vs == number_views(ns@),
            r@ == least(vs.take(i as int)),
        decreases ns@.len() - i,
    {
        assert(vs.take(i + 1).drop_last() =~= vs.take(i as int));
        assert(vs[i as int] == ns@[i as int]@);
        match ns[i].order(&r) {
            Order::Less => {
                r = ns[i].copy();
            },
            _ => {},
        }
        i += 1;
    }
    assert(vs.take(i as int) =~= vs);
    r
}

fn greatest_of(ns: &Vec<Numeric>) -> (r: Numeric)
    requires
        ns@.len() > 0,
    ensures
        r@ == greatest(number_views(ns@)),
{
    let ghost vs = number_views(ns@);
    let mut r = ns[0].copy();
    let mut i: usize = 1;
    assert(vs.take(1)[0] == vs[0]);
    while i < ns.len()
        invariant
            1 <= i <= ns@.len(),
            vs == number_views(ns@),
            r@ == greatest(vs.take(i as int)),
        decreases ns@.len() - i,
    {
        assert(vs.take(i + 1).drop_last() =~= vs.take(i as int));
        assert(vs[i as int] == ns@[i as int]@);
        match ns[i].order(&r) {
            Order::Greater => {
                r = ns[i].copy();
            },
            _ => {},
        }
        i += 1;
    }
    assert(vs.take(i as int) =~= vs);
    r
}

/// The views of a list of floats.
pub open spec fn float_views(s: Seq<(Float, FloatWidth)>) -> Seq<(FloatView, FloatWidth)> {
    s.map_values(|f: (Float, FloatWidth)| (f.0@, f.1))
}

fn holds_float(values: &Vec<Value>) -> (r: bool)
    ensures
        r == has_float(value_views(values@)),
{
    let ghost vs = value_views(values@);
    let mut i: usize = 0;
    while i < values.len()
        invariant
            0 <= i <= values@.len(),
            vs == value_views(values@),
            forall|j: int| 0 <= j < i ==> !((#[trigger] vs[j]) is Float),
        decreases values@.len() - i,
    {
        assert(vs[i as int] == values@[i as int]@);
        if let Value::Float(_, _) = &values[i] {
            assert(vs[i as int] is Float);
            return true;
        }
        i += 1;
    }
    false
}

/// Where a number is out of range, so are the numbers up to it and all.
proof fn out_of_range_stays(vs: Seq<ValueView>, i: int)
    requires
        0 <= i <= vs.len(),
        floats(vs.take(i)) is None,
    ensures
        floats(vs) is None,
    decreases vs.len() - i,
{
    if i < vs.len() {
        assert(vs.take(i + 1).drop_last() =~= vs.take(i));
        out_of_range_stays(vs, i + 1);
    } else {
        assert(vs.take(i) =~= vs);
    }
}

fn floats_of(values: &Vec<Value>) -> (r: Option<Vec<(Float, FloatWidth)>>)
    ensures
        match r {
            Some(fs) => floats(value_views(values@)) == Some(float_views(fs@)),
            None => floats(value_views(values@)) is None,
        },
{
    let ghost vs = value_views(values@);
    let mut r: Vec<(Float, FloatWidth)> = Vec::new();
    assert(float_views(r@) =~= seq![]);
    let mut i: usize = 0;
    while i < values.len()
        invariant
            0 <= i <= values@.len(),
            vs == value_views(values@),
            floats(vs.take(i as int)) == Some(float_views(r@)),
        decreases values@.len() - i,
    {
        proof {
            assert(vs.take(i + 1).drop_last() =~= vs.take(i as int));
            assert(vs.take(i + 1).last() == vs[i as int]);
            assert(vs[i as int] == values@[i as int]@);
        }
        let number = match &values[i] {
            Value::Numeric(_) | Value::Float(_, _) => true,
            _ => false,
        };
        if number {
            match to_float(&values[i]) {
                Some(f) => {
                    let ghost before = r@;
                    r.push(f);
                    assert(float_views(r@) =~= float_views(before).push((f.0@, f.1)));
                },
                None => {
                    proof {
                        out_of_range_stays(vs, i + 1);
                    }
                    return None;
                },
            }
        }
        i += 1;
    }
    assert(vs.take(i as int) =~= vs);
    Some(r)
}

/// Where a sum of the first floats is out of range, so is that of all.
proof fn overflow_stays(fs: Seq<(FloatView, FloatWidth)>, i: int)
    requires
        1 <= i <= fs.len(),
        float_total(fs.take(i)) is Err,
    ensures
        float_total(fs) == float_total(fs.take(i)),
    decreases fs.len() - i,
{
    if i < fs.len() {
        assert(fs.take(i + 1).drop_last() =~= fs.take(i));
        overflow_stays(fs, i + 1);
    } else {
        assert(fs.take(i) =~= fs);
    }
}

fn float_total_of(fs: &Vec<(Float, FloatWidth)>) -> (r: Result<(Float, FloatWidth), FloatWidth>)
    requires
        fs@.len() > 0,
    ensures
        match r {
            Ok((t, w)) => float_total(float_views(fs@)) == Ok::<
                (FloatView, FloatWidth),
                FloatWidth,
            >((t@, w)),
            Err(w) => float_total(float_views(fs@)) == Err::<(FloatView, FloatWidth), FloatWidth>(
                w,
            ),
        },
{
    let ghost vs = float_views(fs@);
    let mut t: Float = fs[0].0;
    let mut w: FloatWidth = fs[0].1;
    let mut i: usize = 1;
    assert(vs.take(1)[0] == vs[0]);
    while i < fs.len()
        invariant
            1 <= i <= fs@.len(),
            vs == float_views(fs@),
            float_total(vs.take(i as int)) == Ok::<(FloatView, FloatWidth), FloatWidth>((t@, w)),
        decreases fs@.len() - i,
    {
        proof {
            assert(vs.take(i + 1).drop_last() =~= vs.take(i as int));
            assert(vs.take(i + 1).last() == (fs@[i as int].0@, fs@[i as int].1));
        }
        match float::checked_add(t, w, fs[i].0, fs[i].1) {
            Ok((s, x)) => {
                t = s;
                w = x;
            },
            Err(_) => {
                proof {
                    overflow_stays(vs, i + 1);
                }
                return Err(w.wider(fs[i].1));
            },
        }
        i += 1;
    }
    assert(vs.take(i as int) =~= vs);
    Ok((t, w))
}

fn extreme_float_of(fs: &Vec<(Float, FloatWidth)>, greatest: bool) -> (r: (Float, FloatWidth))
    requires
        fs@.len() > 0,
    ensures
        (r.0@, r.1) == (if greatest {
            greatest_float(float_views(fs@))
        } else {
            least_float(float_views(fs@))
        }),
{
    let ghost vs = float_views(fs@);
    let mut r: (Float, FloatWidth) = fs[0];
    let mut i: usize = 1;
    assert(vs.take(1)[0] == vs[0]);
    while i < fs.len()
        invariant
            1 <= i <= fs@.len(),
            vs == float_views(fs@),
            (r.0@, r.1) == (if greatest {
                greatest_float(vs.take(i as int))
            } else {
                least_float(vs.take(i as int))
            }),
        decreases fs@.len() - i,
    {
        proof {
            assert(vs.take(i + 1).drop_last() =~= vs.take(i as int));
            assert(vs.take(i + 1).last() == (fs@[i as int].0@, fs@[i as int].1));
        }
        match float::order_floats(fs[i].0, r.0) {
            Order::Greater => {
                if greatest {
                    r = fs[i];
                }
            },
            Order::Less => {
                if !greatest {
                    r = fs[i];
                }
            },
            Order::Same => {},
        }
        i += 1;
    }
    assert(vs.take(i as int) =~= vs);
    r
}

fn widen(fs: &Vec<(Float, FloatWidth)>) -> (r: Vec<(Float, FloatWidth)>)
    ensures
        float_views(r@) == widened(float_views(fs@)),
{
    let mut r: Vec<(Float, FloatWidth)> = Vec::new();
    let mut i: usize = 0;
    while i < fs.len()
        invariant
            0 <= i <= fs@.len(),
            r@.len() == i,
            forall|j: int| 0 <= j < i ==> #[trigger] r@[j] == (fs@[j].0, FloatWidth::Float8),
        decreases fs@.len() - i,
    {
        r.push((fs[i].0, FloatWidth::Float8));
        i += 1;
    }
    assert(float_views(r@) =~= widened(float_views(fs@)));
    r
}

fn fold_floats(name: &str, fs: &Vec<(Float, FloatWidth)>) -> (r: Result<Option<Value>, Overflow>)
    requires
        fs@.len() > 0,
    ensures
        computed_view(r) == float_fold(name@, float_views(fs@)),
{
    if text::same(name, "SUM") {
        match float_total_of(fs) {
            Ok((t, w)) => Ok(Some(Value::Float(t, w))),
            Err(w) => Err(Overflow::Float(w)),
        }
    } else if text::same(name, "MIN") {
        let (f, w) = extreme_float_of(fs, false);
        Ok(Some(Value::Float(f, w)))
    } else if text::same(name, "MAX") {
        let (f, w) = extreme_float_of(fs, true);
        Ok(Some(Value::Float(f, w)))
    } else if text::same(name, "AVG") {
        let wide = widen(fs);
        assert(float_views(wide@).len() == wide@.len());
        match float_total_of(&wide) {
            Ok((t, _)) => Ok(
                Some(Value::Float(t.divided_by(fs.len() as u128), FloatWidth::Float8)),
            ),
            Err(w) => Err(Overflow::Float(w)),
        }
    } else {
        Ok(None)
    }
}

fn extreme_moment_of(values: &Vec<Value>, latest: bool) -> (r: Option<Value>)
    ensures
        opt_value(r) == extreme_moment(value_views(values@), latest),
{
    let ghost vs = value_views(values@);
    let mut best: Option<(usize, Moment)> = None;
    let mut i: usize = 0;
    while i < values.len()
        invariant
            0 <= i <= values@.len(),
            vs == value_views(values@),
            match best {
                Some((k, m)) => k < i && extreme_moment(vs.take(i as int), latest) == Some(
                    vs[k as int],
                ) && moment_of(vs[k as int]) == Some(m@),
                None => extreme_moment(vs.take(i as int), latest) is None,
            },
        decreases values@.len() - i,
    {
        proof {
            assert(vs.take(i + 1).drop_last() =~= vs.take(i as int));
            assert(vs.take(i + 1).last() == vs[i as int]);
            assert(vs[i as int] == values@[i as int]@);
        }
        if let Value::Other(t, s) = &values[i] {
            if let Some(m) = temporal::read_moment(*t, s.as_str()) {
                let better = match &best {
                    None => true,
                    Some((_, b)) => if latest {
                        b.before(&m)
                    } else {
                        m.before(b)
                    },
                };
                if better {
                    best = Some((i, m));
                }
            }
        }
        i += 1;
    }
    assert(vs.take(i as int) =~= vs);
    match best {
        Some((k, _)) => {
            assert(vs[k as int] == values@[k as int]@);
            Some(values[k].copy())
        },
        None => None,
    }
}

/// The views of a list of spans of time.
pub open spec fn interval_views(s: Seq<Interval>) -> Seq<IntervalView> {
    s.map_values(|v: Interval| v@)
}

fn intervals_of(values: &Vec<Value>) -> (r: Vec<Interval>)
    ensures
        interval_views(r@) == intervals(value_views(values@)),
{
    let ghost vs = value_views(values@);
    let mut r: Vec<Interval> = Vec::new();
    assert(interval_views(r@) =~= seq![]);
    let mut i: usize = 0;
    while i < values.len()
        invariant
            0 <= i <= values@.len(),
            vs == value_views(values@),
            interval_views(r@) == intervals(vs.take(i as int)),
        decreases values@.len() - i,
    {
        proof {
            assert(vs.take(i + 1).drop_last() =~= vs.take(i as int));
            assert(vs.take(i + 1).last() == vs[i as int]);
            assert(vs[i as int] == values@[i as int]@);
        }
        if let Value::Other(PgType::Interval, s) = &values[i] {
            if let Some(v) = Interval::parse(s.as_str()) {
                let ghost before = r@;
                r.push(v);
                assert(interval_views(r@) =~= interval_views(before).push(v@));
            }
        }
        i += 1;
    }
    assert(vs.take(i as int) =~= vs);
    r
}

/// Where a sum of the first spans is out of range, so is that of all.
proof fn span_overflow_stays(vs: Seq<IntervalView>, i: int)
    requires
        1 <= i <= vs.len(),
        span_total(vs.take(i)) is None,
    ensures
        span_total(vs) is None,
    decreases vs.len() - i,
{
    if i < vs.len() {
        assert(vs.take(i + 1).drop_last() =~= vs.take(i));
        span_overflow_stays(vs, i + 1);
    } else {
        assert(vs.take(i) =~= vs);
    }
}

fn fold_spans(spans: &Vec<Interval>) -> (r: Result<Option<Value>, Overflow>)
    ensures
        computed_view(r) == span_fold(interval_views(spans@)),
{
    let ghost vs = interval_views(spans@);
    if spans.len() == 0 {
        return Ok(None);
    }
    let mut t: Interval = spans[0];
    let mut i: usize = 1;
    assert(vs.take(1)[0] == vs[0]);
    while i < spans.len()
        invariant
            1 <= i <= spans@.len(),
            vs == interval_views(spans@),
            span_total(vs.take(i as int)) == Some(t@),
        decreases spans@.len() - i,
    {
        proof {
            assert(vs.take(i + 1).drop_last() =~= vs.take(i as int));
            assert(vs.take(i + 1).last() == spans@[i as int]@);
        }
        match t.checked_add(&spans[i]) {
            Some(sum) => {
                t = sum;
            },
            None => {
                proof {
                    span_overflow_stays(vs, i + 1);
                }
                return Err(Overflow::Interval);
            },
        }
        i += 1;
    }
    assert(vs.take(i as int) =~= vs);
    Ok(Some(Value::Other(PgType::Interval, t.render())))
}

/// Where a value is a float there is one to fold.
proof fn floats_are_there(vs: Seq<ValueView>, i: int)
    requires
        0 <= i < vs.len(),
        vs[i] is Float,
        floats(vs) is Some,
    ensures
        (floats(vs)->0).len() > 0,
    decreases vs.len(),
{
    if i < vs.len() - 1 {
        assert(vs.drop_last()[i] == vs[i]);
        floats_are_there(vs.drop_last(), i);
    }
}

/// What an aggregate makes of the values that are not null.
pub fn reduce_aggregate(name: &str, values: &Vec<Value>) -> (r: Result<Option<Value>, Overflow>)
    ensures
        computed_view(r) == aggregate_value(name@, value_views(values@)),
{
    if text::same(name, "COUNT") {
        return Ok(Some(Value::Numeric(Numeric::whole(values.len() as u128))));
    }
    if text::same(name, "BOOL_AND") {
        let bs = booleans_of(values);
        return if bs.len() == 0 {
            Ok(None)
        } else {
            Ok(Some(Value::Boolean(!any_is(&bs, false))))
        };
    }
    if text::same(name, "BOOL_OR") {
        let bs = booleans_of(values);
        return if bs.len() == 0 {
            Ok(None)
        } else {
            Ok(Some(Value::Boolean(any_is(&bs, true))))
        };
    }
    if holds_float(values) {
        return match floats_of(values) {
            Some(fs) => {
                proof {
                    let vs = value_views(values@);
                    let i = choose|i: int| 0 <= i < vs.len() && (#[trigger] vs[i]) is Float;
                    floats_are_there(vs, i);
                    assert(float_views(fs@).len() == fs@.len());
                }
                fold_floats(name, &fs)
            },
            None => Err(Overflow::Float(FloatWidth::Float8)),
        };
    }
    let ns = numbers_of(values);
    assert(number_views(ns@).len() == ns@.len());
    if ns.len() == 0 {
        if text::same(name, "MIN") {
            Ok(extreme_moment_of(values, false))
        } else if text::same(name, "MAX") {
            Ok(extreme_moment_of(values, true))
        } else if text::same(name, "SUM") {
            fold_spans(&intervals_of(values))
        } else {
            Ok(None)
        }
    } else if text::same(name, "SUM") {
        Ok(Some(Value::Numeric(total_of(&ns))))
    } else if text::same(name, "MIN") {
        Ok(Some(Value::Numeric(least_of(&ns))))
    } else if text::same(name, "MAX") {
        Ok(Some(Value::Numeric(greatest_of(&ns))))
    } else if text::same(name, "AVG") {
        let count = Numeric::whole(ns.len() as u128);
        Ok(Some(Value::Numeric(total_of(&ns).div(&count))))
    } else {
        Ok(None)
    }
}

// ---------------------------------------------------------------------------
// Laws
// ---------------------------------------------------------------------------

/// A null operand makes the result null.
pub proof fn operators_are_strict(op: Operator, lhs: Option<ValueView>, rhs: Option<ValueView>)
    requires
        lhs is None || rhs is None,
    ensures
        operator_value(op, lhs, rhs) == Ok::<Option<ValueView>, Overflow>(None),
{
}

/// A null argument makes the result null.
pub proof fn functions_are_strict(name: Seq<char>, args: Seq<Option<ValueView>>, i: int)
    requires
        0 <= i < args.len(),
        args[i] is None,
    ensures
        function_value(name, args) is None,
{
    assert(!is_text(args[i]));
}

/// Of no values the count is zero, and every other aggregate is null.
pub proof fn aggregates_of_nothing(name: Seq<char>)
    ensures
        aggregate_value(name, seq![]) == Ok::<Option<ValueView>, Overflow>(
            if name == "COUNT"@ {
                Some(whole(0))
            } else {
                None
            },
        ),
{
}

/// Whether `MIN` or `MAX` would take the moment `a` rather than `b`.
pub open spec fn beats(a: MomentView, b: MomentView, latest: bool) -> bool {
    latest && earlier(b, a) || !latest && earlier(a, b)
}

/// `MIN` and `MAX` take one of the moments, which no other beats, whenever
/// there is one.
pub proof fn extremes_are_unbeaten(values: Seq<ValueView>, latest: bool)
    ensures
        match extreme_moment(values, latest) {
            Some(b) => {
                &&& values.contains(b)
                &&& moment_of(b) is Some
                &&& forall|v: ValueView| #[trigger]
                    values.contains(v) && moment_of(v) is Some ==> !beats(
                        moment_of(v)->0,
                        moment_of(b)->0,
                        latest,
                    )
            },
            None => forall|v: ValueView| #[trigger] values.contains(v) ==> moment_of(v) is None,
        },
    decreases values.len(),
{
    if values.len() > 0 {
        let less = values.drop_last();
        extremes_are_unbeaten(less, latest);
        assert forall|v: ValueView| #[trigger] values.contains(v) implies less.contains(v) || v
            == values.last() by {
            let j = choose|j: int| 0 <= j < values.len() && values[j] == v;
            if j < less.len() {
                assert(less[j] == v);
            }
        }
        assert(values[values.len() - 1] == values.last());
        if let Some(b) = extreme_moment(less, latest) {
            let j = choose|j: int| 0 <= j < less.len() && less[j] == b;
            assert(values[j] == b);
        }
    }
}

/// The empty text occurs at the first position of every text.
pub proof fn empty_text_occurs_first(haystack: Seq<char>)
    ensures
        first_occurrence(haystack, seq![], 0) == 1,
{
    assert(haystack.subrange(0, 0) =~= seq![]);
}

} // verus!
