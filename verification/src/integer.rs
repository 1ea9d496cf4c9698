//! The three widths of Postgres's exact integers.

use vstd::prelude::*;

verus! {

/// Which of Postgres's three integer widths a value has, narrowest first.
#[derive(Debug, Clone, Copy, PartialEq, Eq, PartialOrd, Ord, Hash, Structural)]
pub enum IntWidth {
    /// `smallint` / `int2`.
    Int2,
    /// `integer` / `int4`.
    Int4,
    /// `bigint` / `int8`.
    Int8,
}

impl IntWidth {
    /// Every width, narrowest first.
    pub const ALL: [IntWidth; 3] = [IntWidth::Int2, IntWidth::Int4, IntWidth::Int8];

    /// The number of bits of a value.
    pub open spec fn bits(self) -> int {
        match self {
            IntWidth::Int2 => 16,
            IntWidth::Int4 => 32,
            IntWidth::Int8 => 64,
        }
    }

    pub open spec fn pg_name_spec(self) -> Seq<char> {
        match self {
            IntWidth::Int2 => "smallint"@,
            IntWidth::Int4 => "integer"@,
            IntWidth::Int8 => "bigint"@,
        }
    }

    /// The Postgres spelling of this width.
    pub fn pg_name(self) -> (r: &'static str)
        ensures
            r@ == self.pg_name_spec(),
    {
        match self {
            IntWidth::Int2 => "smallint",
            IntWidth::Int4 => "integer",
            IntWidth::Int8 => "bigint",
        }
    }

    /// The width that `text` names, if it names one.
    pub fn from_pg_name(text: &str) -> (r: Option<IntWidth>)
        ensures
            match r {
                Some(w) => text@ == w.pg_name_spec(),
                None => forall|w: IntWidth| text@ != #[trigger] w.pg_name_spec(),
            },
    {
        if *text == *"smallint" {
            Some(IntWidth::Int2)
        } else if *text == *"integer" {
            Some(IntWidth::Int4)
        } else if *text == *"bigint" {
            Some(IntWidth::Int8)
        } else {
            None
        }
    }

    pub open spec fn wider_spec(self, other: IntWidth) -> IntWidth {
        if self.bits() >= other.bits() {
            self
        } else {
            other
        }
    }

    /// The wider of the two widths: the result width of a mixed-width
    /// operation.
    pub fn wider(self, other: IntWidth) -> (r: IntWidth)
        ensures
            r == self.wider_spec(other),
    {
        match (self, other) {
            (IntWidth::Int8, _) | (_, IntWidth::Int8) => IntWidth::Int8,
            (IntWidth::Int4, _) | (_, IntWidth::Int4) => IntWidth::Int4,
            _ => IntWidth::Int2,
        }
    }

    pub open spec fn narrowest_for_spec(value: int) -> IntWidth {
        if i32::MIN <= value <= i32::MAX {
            IntWidth::Int4
        } else {
            IntWidth::Int8
        }
    }

    /// The width Postgres gives an integer constant: `integer` where the
    /// value fits, `bigint` otherwise, and never `smallint`.
    pub fn narrowest_for(value: i64) -> (r: IntWidth)
        ensures
            r == IntWidth::narrowest_for_spec(value as int),
    {
        if -2147483648 <= value && value <= 2147483647 {
            IntWidth::Int4
        } else {
            IntWidth::Int8
        }
    }
}

/// Reading a width's name gives the width back, and no two widths share one.
pub proof fn int_width_names_round_trip(a: IntWidth, b: IntWidth)
    ensures
        a.pg_name_spec() == b.pg_name_spec() ==> a == b,
{
    reveal_strlit("smallint");
    reveal_strlit("integer");
    reveal_strlit("bigint");
    assert(a.pg_name_spec()[0] == b.pg_name_spec()[0] ==> a == b);
}

/// The wider of two widths does not depend on their order, is one of the two
/// and is at least as wide as either.
pub proof fn int_wider_is_maximum(a: IntWidth, b: IntWidth)
    ensures
        a.wider_spec(b) == b.wider_spec(a),
        a.wider_spec(b) == a || a.wider_spec(b) == b,
        a.wider_spec(b).bits() >= a.bits(),
        a.wider_spec(b).bits() >= b.bits(),
{
}

} // verus!
