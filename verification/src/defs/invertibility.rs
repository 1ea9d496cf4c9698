//! Which aggregates can be kept up to date from changes alone.
//!
//! An aggregate is invertible if its new value follows from its old value
//! and the change that was made. Counts are, whatever they count, and so are
//! sums and averages of exact numbers. A least or greatest value is not: the
//! row that held it may have been the one that was deleted. Nor is a sum of
//! floats, whose addition has no exact inverse.

use vstd::prelude::*;

use crate::defs::ast::{ValueType, ValueTypeView};
use crate::defs::registry;

verus! {

/// Whether an aggregate's new value follows from its old one and the change.
#[derive(Debug, Clone, Copy, PartialEq, Eq, Structural)]
pub enum Invertibility {
    /// The new value is a function of the old value and the change.
    Invertible,
    /// The group has to be read again.
    RecomputeOnly,
}

/// A value that is kept beside an aggregate's own to apply changes to it.
#[derive(Debug, Clone, Copy, PartialEq, Eq, Structural)]
pub enum PartialField {
    /// The sum of the group's values.
    Sum,
    /// The number of the group's values.
    Count,
}

/// What `COUNT` counts.
#[derive(Debug, Clone, Copy, PartialEq, Eq, Structural)]
pub enum CountArg {
    /// Every row.
    Star,
    /// The values of a column that are not null.
    Column,
}

/// The argument of an aggregate.
#[derive(Debug, Clone, Copy, PartialEq, Eq)]
pub enum AggregateArg {
    Count(CountArg),
    /// A column of the given type.
    Column(ValueType),
}

/// What an [`AggregateArg`] stands for.
pub enum AggregateArgView {
    Count(CountArg),
    Column(ValueTypeView),
}

impl View for AggregateArg {
    type V = AggregateArgView;

    open spec fn view(&self) -> AggregateArgView {
        match self {
            AggregateArg::Count(c) => AggregateArgView::Count(*c),
            AggregateArg::Column(t) => AggregateArgView::Column(t@),
        }
    }
}

/// Whether an aggregate is invertible, and what has to be kept beside it.
#[derive(Debug, PartialEq, Eq)]
pub struct Verdict {
    pub invertibility: Invertibility,
    /// The values to keep beside the aggregate's own; none unless it is
    /// invertible.
    pub partials: Vec<PartialField>,
}

/// What a [`Verdict`] stands for.
#[verifier::ext_equal]
pub struct VerdictView {
    pub invertibility: Invertibility,
    pub partials: Seq<PartialField>,
}

impl View for Verdict {
    type V = VerdictView;

    open spec fn view(&self) -> VerdictView {
        VerdictView { invertibility: self.invertibility, partials: self.partials@ }
    }
}

/// An invertible aggregate that needs `partials` beside its value.
pub open spec fn delta_able(partials: Seq<PartialField>) -> VerdictView {
    VerdictView { invertibility: Invertibility::Invertible, partials }
}

/// An aggregate that is not invertible.
pub open spec fn recomputed() -> VerdictView {
    VerdictView { invertibility: Invertibility::RecomputeOnly, partials: seq![] }
}

impl Verdict {
    fn invertible(partials: Vec<PartialField>) -> (r: Verdict)
        ensures
            r@ == delta_able(partials@),
    {
        Verdict { invertibility: Invertibility::Invertible, partials }
    }

    fn recompute_only() -> (r: Verdict)
        ensures
            r@ == recomputed(),
    {
        let r = Verdict { invertibility: Invertibility::RecomputeOnly, partials: Vec::new() };
        assert(r@.partials =~= seq![]);
        r
    }

    /// Whether the aggregate is invertible.
    pub fn is_invertible(&self) -> (r: bool)
        ensures
            r == (self@.invertibility is Invertible),
    {
        self.invertibility == Invertibility::Invertible
    }
}

/// `name` is an aggregate that is recomputed whatever its argument is.
pub open spec fn never_invertible(name: Seq<char>) -> bool {
    name == "MIN"@ || name == "MAX"@ || name == "BOOL_AND"@ || name == "BOOL_OR"@ || name
        == "BIT_AND"@ || name == "BIT_OR"@ || name == "JSONB_AGG"@
}

/// The verdict on the aggregate with the given upper-case name over `arg`;
/// none for a call that no definition can hold.
pub open spec fn verdict(function: Seq<char>, arg: AggregateArgView) -> Option<VerdictView> {
    match arg {
        AggregateArgView::Count(_) => if function == "COUNT"@ {
            Some(delta_able(seq![]))
        } else {
            None
        },
        AggregateArgView::Column(t) => if function == "SUM"@ {
            Some(
                if t.exact_numeric() {
                    delta_able(seq![])
                } else {
                    recomputed()
                },
            )
        } else if function == "AVG"@ {
            Some(
                if t.exact_numeric() {
                    delta_able(seq![PartialField::Sum, PartialField::Count])
                } else {
                    recomputed()
                },
            )
        } else if never_invertible(function) {
            Some(recomputed())
        } else {
            None
        },
    }
}

/// The verdict on the aggregate with the given upper-case name over `arg`;
/// none for a call that no definition can hold.
pub fn classify(function: &str, arg: AggregateArg) -> (r: Option<Verdict>)
    ensures
        match r {
            Some(v) => verdict(function@, arg@) == Some(v@),
            None => verdict(function@, arg@) is None,
        },
{
    match arg {
        AggregateArg::Count(_) => {
            if *function == *"COUNT" {
                let none: Vec<PartialField> = Vec::new();
                assert(none@ =~= seq![]);
                Some(Verdict::invertible(none))
            } else {
                None
            }
        },
        AggregateArg::Column(t) => {
            if *function == *"SUM" {
                if t.is_exact_numeric_family() {
                    let none: Vec<PartialField> = Vec::new();
                    assert(none@ =~= seq![]);
                    Some(Verdict::invertible(none))
                } else {
                    Some(Verdict::recompute_only())
                }
            } else if *function == *"AVG" {
                if t.is_exact_numeric_family() {
                    let mut partials: Vec<PartialField> = Vec::new();
                    partials.push(PartialField::Sum);
                    partials.push(PartialField::Count);
                    assert(partials@ =~= seq![PartialField::Sum, PartialField::Count]);
                    Some(Verdict::invertible(partials))
                } else {
                    Some(Verdict::recompute_only())
                }
            } else if *function == *"MIN" || *function == *"MAX" || *function == *"BOOL_AND"
                || *function == *"BOOL_OR" || *function == *"BIT_AND" || *function == *"BIT_OR"
                || *function == *"JSONB_AGG" {
                Some(Verdict::recompute_only())
            } else {
                None
            }
        },
    }
}

// ---------------------------------------------------------------------------
// Laws
// ---------------------------------------------------------------------------

/// Every aggregate of the language is classified: `COUNT` over all rows or a
/// column's values, the others over values of any type.
pub proof fn every_aggregate_is_classified(name: Seq<char>, t: ValueTypeView, c: CountArg)
    requires
        registry::aggregate_name(name),
    ensures
        name == "COUNT"@ ==> verdict(name, AggregateArgView::Count(c)) is Some,
        name != "COUNT"@ ==> verdict(name, AggregateArgView::Column(t)) is Some,
{
}

/// Only counts, and sums and averages of exact numbers, are invertible; only
/// an average needs values beside its own.
pub proof fn inverses_are_never_approximated(function: Seq<char>, arg: AggregateArgView)
    ensures
        verdict(function, arg) matches Some(v) && v.invertibility is Invertible ==> match arg {
            AggregateArgView::Count(_) => function == "COUNT"@,
            AggregateArgView::Column(t) => t.exact_numeric() && (function == "SUM"@ || function
                == "AVG"@),
        },
        verdict(function, arg) matches Some(v) ==> (v.partials.len() > 0 ==> function == "AVG"@
            && v.invertibility is Invertible),
{
}

/// A sum or average is judged the same by its argument's type and by its own
/// result type, so either may be asked about.
pub proof fn result_type_decides_alike(name: Seq<char>, arg: ValueTypeView)
    requires
        name == "SUM"@ || name == "AVG"@,
        arg.numeric_family(),
    ensures
        registry::aggregate_type(name, arg) matches Some(t) && verdict(
            name,
            AggregateArgView::Column(t),
        ) == verdict(name, AggregateArgView::Column(arg)),
{
    registry::aggregates_stay_in_their_family(name, arg);
}

} // verus!
