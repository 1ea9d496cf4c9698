//! Postgres type families, and which one each built-in type belongs to.

use vstd::prelude::*;

use crate::defs::ast::{ValueType, ValueTypeView};
use crate::defs::oid;
use crate::float::FloatWidth;
use crate::integer::IntWidth;
use crate::sql;
use crate::text;

verus! {

/// A recognized Postgres type family that has no [`ValueType`] variant of its
/// own: its values are carried through as text, tagged with what they are.
#[derive(Debug, Clone, Copy, PartialEq, Eq, Hash)]
pub enum PgType {
    /// An unsigned object identifier, with no arithmetic.
    Oid,
    Bytea,
    Date,
    Time,
    TimeTz,
    Timestamp,
    TimestampTz,
    Interval,
    Json,
    Jsonb,
    Inet,
    Cidr,
    MacAddr,
    MacAddr8,
    Bit,
    VarBit,
    Money,
    Xml,
    TsVector,
    TsQuery,
    /// A user-defined enum type, by its persisted token
    /// `enum:<schema>.<name>`.
    Enum(&'static str),
    /// A type this registry does not place.
    Unrecognized,
}

/// What a [`PgType`] stands for, an enum type by its token's characters.
#[verifier::ext_equal]
pub enum PgTypeView {
    Oid,
    Bytea,
    Date,
    Time,
    TimeTz,
    Timestamp,
    TimestampTz,
    Interval,
    Json,
    Jsonb,
    Inet,
    Cidr,
    MacAddr,
    MacAddr8,
    Bit,
    VarBit,
    Money,
    Xml,
    TsVector,
    TsQuery,
    Enum(Seq<char>),
    Unrecognized,
}

impl View for PgType {
    type V = PgTypeView;

    open spec fn view(&self) -> PgTypeView {
        match self {
            PgType::Oid => PgTypeView::Oid,
            PgType::Bytea => PgTypeView::Bytea,
            PgType::Date => PgTypeView::Date,
            PgType::Time => PgTypeView::Time,
            PgType::TimeTz => PgTypeView::TimeTz,
            PgType::Timestamp => PgTypeView::Timestamp,
            PgType::TimestampTz => PgTypeView::TimestampTz,
            PgType::Interval => PgTypeView::Interval,
            PgType::Json => PgTypeView::Json,
            PgType::Jsonb => PgTypeView::Jsonb,
            PgType::Inet => PgTypeView::Inet,
            PgType::Cidr => PgTypeView::Cidr,
            PgType::MacAddr => PgTypeView::MacAddr,
            PgType::MacAddr8 => PgTypeView::MacAddr8,
            PgType::Bit => PgTypeView::Bit,
            PgType::VarBit => PgTypeView::VarBit,
            PgType::Money => PgTypeView::Money,
            PgType::Xml => PgTypeView::Xml,
            PgType::TsVector => PgTypeView::TsVector,
            PgType::TsQuery => PgTypeView::TsQuery,
            PgType::Enum(token) => PgTypeView::Enum(token@),
            PgType::Unrecognized => PgTypeView::Unrecognized,
        }
    }
}

/// What leads the persisted token of an enum type.
pub const ENUM_TOKEN_PREFIX: &'static str = "enum:";

/// The token of the enum type with the given qualified name.
pub open spec fn enum_token(qualified_name: Seq<char>) -> Seq<char> {
    "enum:"@ + qualified_name
}

/// `token` is the token of some enum type.
pub open spec fn is_enum_token(token: Seq<char>) -> bool {
    token.len() >= 5 && token.take(5) == "enum:"@
}

/// The position of the first dot of `s`, or its length if it has none.
pub open spec fn first_dot(s: Seq<char>) -> int
    decreases s.len(),
{
    if s.len() == 0 {
        0
    } else if s[0] == '.' {
        0
    } else {
        1 + first_dot(s.drop_first())
    }
}

proof fn first_dot_props(s: Seq<char>)
    ensures
        0 <= first_dot(s) <= s.len(),
        first_dot(s) < s.len() ==> s[first_dot(s)] == '.',
        forall|i: int| 0 <= i < first_dot(s) ==> s[i] != '.',
    decreases s.len(),
{
    if s.len() > 0 && s[0] != '.' {
        first_dot_props(s.drop_first());
        assert forall|i: int| 0 <= i < first_dot(s) implies s[i] != '.' by {
            if i > 0 {
                assert(s[i] == s.drop_first()[i - 1]);
            }
        }
    }
}

proof fn first_dot_is(s: Seq<char>, at: int)
    requires
        0 <= at <= s.len(),
        at < s.len() ==> s[at] == '.',
        forall|i: int| 0 <= i < at ==> s[i] != '.',
    ensures
        first_dot(s) == at,
{
    first_dot_props(s);
    if first_dot(s) < at {
        assert(s[first_dot(s)] != '.');
    }
}

impl PgTypeView {
    /// The token a type is persisted as.
    pub open spec fn name(self) -> Seq<char> {
        match self {
            PgTypeView::Oid => "oid"@,
            PgTypeView::Bytea => "bytea"@,
            PgTypeView::Date => "date"@,
            PgTypeView::Time => "time"@,
            PgTypeView::TimeTz => "timetz"@,
            PgTypeView::Timestamp => "timestamp"@,
            PgTypeView::TimestampTz => "timestamptz"@,
            PgTypeView::Interval => "interval"@,
            PgTypeView::Json => "json"@,
            PgTypeView::Jsonb => "jsonb"@,
            PgTypeView::Inet => "inet"@,
            PgTypeView::Cidr => "cidr"@,
            PgTypeView::MacAddr => "macaddr"@,
            PgTypeView::MacAddr8 => "macaddr8"@,
            PgTypeView::Bit => "bit"@,
            PgTypeView::VarBit => "varbit"@,
            PgTypeView::Money => "money"@,
            PgTypeView::Xml => "xml"@,
            PgTypeView::TsVector => "tsvector"@,
            PgTypeView::TsQuery => "tsquery"@,
            PgTypeView::Enum(token) => token,
            PgTypeView::Unrecognized => "unrecognized"@,
        }
    }

    /// An enum's token has the form of one; nothing is asked of the others.
    pub open spec fn well_formed(self) -> bool {
        match self {
            PgTypeView::Enum(token) => is_enum_token(token),
            _ => true,
        }
    }

    /// An enum's token also holds a schema and a type name, with a dot
    /// between them; nothing is asked of the others.
    pub open spec fn qualified(self) -> bool {
        match self {
            PgTypeView::Enum(token) => is_enum_token(token) && first_dot(token.skip(5))
                < token.skip(5).len(),
            _ => true,
        }
    }

    /// How SQL spells the type.
    pub open spec fn sql_type_name(self) -> Seq<char> {
        match self {
            PgTypeView::Unrecognized => "text"@,
            PgTypeView::Enum(token) => {
                let name = token.skip(5);
                let dot = first_dot(name);
                sql::quoted_pair(name.take(dot), name.skip(dot + 1))
            },
            other => other.name(),
        }
    }
}

/// `String::leak` gives up the string's memory for the rest of the program
/// and returns a reference to the same characters.
#[verifier::external_body]
fn leak(s: String) -> (r: &'static str)
    ensures
        r@ == s@,
{
    s.leak()
}

/// The enum tokens handed out so far, each kept once.
pub struct EnumTokens {
    tokens: Vec<&'static str>,
}

impl EnumTokens {
    #[verifier::type_invariant]
    spec fn each_once(&self) -> bool {
        forall|i: int, j: int|
            0 <= i < j < self.tokens@.len() ==> #[trigger] self.tokens@[i]@
                != #[trigger] self.tokens@[j]@
    }

    /// The tokens that were handed out.
    pub closed spec fn view(&self) -> Set<Seq<char>> {
        Set::new(|t: Seq<char>| exists|i: int| 0 <= i < self.tokens@.len() && #[trigger] self.tokens@[i]@ == t)
    }

    /// The token is kept here.
    pub closed spec fn holds(&self, token: &'static str) -> bool {
        self.tokens@.contains(token)
    }

    /// The number of tokens that are kept.
    pub closed spec fn kept(&self) -> nat {
        self.tokens@.len()
    }

    /// The token is the one that is kept with its text.
    pub open spec fn shares(&self, token: &'static str) -> bool {
        self.holds(token) && forall|t: &'static str| #[trigger]
            self.holds(t) && t@ == token@ ==> t == token
    }

    /// What handing out a token does: nothing where it was handed out before,
    /// and otherwise it is kept with those that were.
    pub open spec fn after_handing_out(&self, before: EnumTokens, token: &'static str) -> bool {
        &&& self@ == before@.insert(token@)
        &&& self.shares(token)
        &&& before@.contains(token@) ==> *self == before
        &&& !before@.contains(token@) ==> self.kept() == before.kept() + 1
        &&& forall|t: &'static str| #[trigger] before.holds(t) ==> self.holds(t)
    }

    /// No tokens yet.
    pub fn new() -> (r: EnumTokens)
        ensures
            r@ == Set::<Seq<char>>::empty(),
            r.kept() == 0,
    {
        let r = EnumTokens { tokens: Vec::new() };
        assert(r@ =~= Set::empty());
        r
    }

    /// The token of the enum type named `qualified_name`: the one that was
    /// handed out for it before, if there is one.
    pub fn intern(&mut self, qualified_name: &str) -> (r: &'static str)
        ensures
            r@ == enum_token(qualified_name@),
            final(self).after_handing_out(*old(self), r),
    {
        proof {
            use_type_invariant(&*self);
        }
        let token = text::cat2(ENUM_TOKEN_PREFIX, qualified_name);
        let mut i: usize = 0;
        while i < self.tokens.len()
            invariant
                0 <= i <= self.tokens@.len(),
                *self == *old(self),
                self.each_once(),
                token@ == enum_token(qualified_name@),
                forall|j: int| 0 <= j < i ==> #[trigger] self.tokens@[j]@ != token@,
            decreases self.tokens@.len() - i,
        {
            let known = self.tokens[i];
            if text::same(known, token.as_str()) {
                proof {
                    assert(self.tokens@[i as int]@ == token@);
                    assert(self@.insert(token@) =~= self@);
                    self.kept_alone(i as int);
                }
                return known;
            }
            i += 1;
        }
        assert(!self@.contains(token@));
        let leaked = leak(token);
        let mut tokens: Vec<&'static str> = Vec::new();
        std::mem::swap(&mut tokens, &mut self.tokens);
        let ghost n = tokens@.len() as int;
        tokens.push(leaked);
        proof {
            assert forall|j: int| 0 <= j < n implies #[trigger] tokens@[j]@
                == old(self).tokens@[j]@ by {}
            assert(tokens@[n]@ == leaked@);
        }
        self.tokens = tokens;
        proof {
            let before = old(self)@.insert(leaked@);
            assert forall|t: Seq<char>| #[trigger] self@.contains(t) == before.contains(t) by {
                if old(self)@.contains(t) {
                    let j = choose|j: int|
                        0 <= j < old(self).tokens@.len() && #[trigger] old(self).tokens@[j]@ == t;
                    assert(self.tokens@[j]@ == t);
                }
            }
            assert(self@ =~= before);
            self.kept_alone(n);
            assert forall|t: &'static str| #[trigger] old(self).holds(t) implies self.holds(t) by {
                let j = choose|j: int| 0 <= j < n && old(self).tokens@[j] == t;
                assert(self.tokens@[j] == t);
            }
        }
        leaked
    }

    proof fn kept_alone(&self, i: int)
        requires
            self.each_once(),
            0 <= i < self.tokens@.len(),
        ensures
            self.shares(self.tokens@[i]),
    {
        let token = self.tokens@[i];
        assert forall|t: &'static str| #[trigger] self.holds(t) && t@ == token@ implies t
            == token by {
            let j = choose|j: int| 0 <= j < self.tokens@.len() && self.tokens@[j] == t;
            assert(self.tokens@[j]@ == self.tokens@[i]@);
        }
    }
}

impl PgType {
    /// The token this type is persisted as.
    pub fn name(self) -> (r: &'static str)
        ensures
            r@ == self@.name(),
    {
        match self {
            PgType::Oid => "oid",
            PgType::Bytea => "bytea",
            PgType::Date => "date",
            PgType::Time => "time",
            PgType::TimeTz => "timetz",
            PgType::Timestamp => "timestamp",
            PgType::TimestampTz => "timestamptz",
            PgType::Interval => "interval",
            PgType::Json => "json",
            PgType::Jsonb => "jsonb",
            PgType::Inet => "inet",
            PgType::Cidr => "cidr",
            PgType::MacAddr => "macaddr",
            PgType::MacAddr8 => "macaddr8",
            PgType::Bit => "bit",
            PgType::VarBit => "varbit",
            PgType::Money => "money",
            PgType::Xml => "xml",
            PgType::TsVector => "tsvector",
            PgType::TsQuery => "tsquery",
            PgType::Enum(token) => token,
            PgType::Unrecognized => "unrecognized",
        }
    }

    /// The type's name as text.
    pub fn to_string(&self) -> (r: String)
        ensures
            r@ == self@.name(),
    {
        text::owned(self.name())
    }

    /// The `<schema>.<name>` of an enum type; no other type has one.
    pub fn enum_qualified_name(self) -> (r: Option<&'static str>)
        requires
            self@.well_formed(),
        ensures
            match self@ {
                PgTypeView::Enum(token) => r matches Some(name) && token == enum_token(name@),
                _ => r is None,
            },
    {
        match self {
            PgType::Enum(token) => {
                let n: usize = token.unicode_len();
                let name = token.substring_char(5, n);
                proof {
                    assert(token@ =~= enum_token(name@));
                }
                Some(name)
            },
            _ => None,
        }
    }

    /// The enum type named `qualified_name`.
    pub fn for_enum(qualified_name: &str, tokens: &mut EnumTokens) -> (r: PgType)
        ensures
            r@ == PgTypeView::Enum(enum_token(qualified_name@)),
            r@.well_formed(),
            r matches PgType::Enum(token) && final(tokens).after_handing_out(*old(tokens), token),
    {
        let token = tokens.intern(qualified_name);
        proof {
            reveal_strlit("enum:");
            assert(token@.take(5) =~= "enum:"@);
        }
        PgType::Enum(token)
    }

    /// Whether SQL can spell the type: an enum's token holds a schema and a
    /// name.
    pub fn can_be_spelled(self) -> (r: bool)
        ensures
            r == self@.qualified(),
    {
        match self {
            PgType::Enum(token) => {
                let n: usize = token.unicode_len();
                proof {
                    reveal_strlit("enum:");
                    if token@.len() >= 5 {
                        assert(token@.take(5) =~= token@.subrange(0, 5));
                    }
                }
                if n < 5 || !text::same(token.substring_char(0, 5), ENUM_TOKEN_PREFIX) {
                    return false;
                }
                let cs = text::chars_of(token);
                let ghost name = token@.skip(5);
                let mut dot: usize = 5;
                while dot < cs.len() && cs[dot] != '.'
                    invariant
                        5 <= dot <= cs@.len(),
                        cs@ == token@,
                        name == token@.skip(5),
                        forall|i: int| 0 <= i < dot - 5 ==> name[i] != '.',
                    decreases cs@.len() - dot,
                {
                    dot += 1;
                }
                proof {
                    first_dot_is(name, dot - 5);
                }
                dot < cs.len()
            },
            _ => true,
        }
    }

    /// How SQL spells the type: its own name, an enum's by its quoted schema
    /// and name, and `text` for a type this registry does not place.
    pub fn sql_type_name(self) -> (r: String)
        requires
            self@.qualified(),
        ensures
            r@ == self@.sql_type_name(),
    {
        match self {
            PgType::Unrecognized => text::owned("text"),
            PgType::Enum(token) => {
                let cs = text::chars_of(token);
                let mut dot: usize = 5;
                let ghost name = token@.skip(5);
                while dot < cs.len() && cs[dot] != '.'
                    invariant
                        5 <= dot <= cs@.len(),
                        cs@ == token@,
                        name == token@.skip(5),
                        forall|i: int| 0 <= i < dot - 5 ==> name[i] != '.',
                    decreases cs@.len() - dot,
                {
                    dot += 1;
                }
                proof {
                    first_dot_is(name, dot - 5);
                    assert(cs@.subrange(5, dot as int) =~= name.take(dot - 5));
                    assert(cs@.subrange(dot + 1, cs@.len() as int) =~= name.skip(dot - 5 + 1));
                }
                let schema = text::string_of(&cs, 5, dot);
                let typname = text::string_of(&cs, dot + 1, cs.len());
                sql::quote_pair(schema.as_str(), typname.as_str())
            },
            other => text::owned(other.name()),
        }
    }

    /// The type persisted as `token_text`, if it is the token of one.
    pub fn from_name(token_text: &str, tokens: &mut EnumTokens) -> (r: Option<PgType>)
        ensures
            match r {
                Some(t) => t@.name() == token_text@ && t@.well_formed(),
                None => forall|t: PgTypeView| t.well_formed() ==> #[trigger] t.name()
                    != token_text@,
            },
            match r {
                Some(PgType::Enum(token)) => final(tokens).after_handing_out(*old(tokens), token),
                _ => *final(tokens) == *old(tokens),
            },
            r matches Some(PgType::Enum(_)) <==> is_enum_token(token_text@),
    {
        let n: usize = token_text.unicode_len();
        proof {
            reveal_strlit("enum:");
        }
        if n >= 5 && text::same(token_text.substring_char(0, 5), ENUM_TOKEN_PREFIX) {
            proof {
                assert(token_text@.take(5) =~= token_text@.subrange(0, 5));
            }
            let qualified = token_text.substring_char(5, n);
            proof {
                assert(enum_token(qualified@) =~= token_text@);
            }
            return Some(PgType::for_enum(qualified, tokens));
        }
        proof {
            if token_text@.len() >= 5 {
                assert(token_text@.take(5) =~= token_text@.subrange(0, 5));
            }
        }
        if *token_text == *"oid" {
            Some(PgType::Oid)
        } else if *token_text == *"bytea" {
            Some(PgType::Bytea)
        } else if *token_text == *"date" {
            Some(PgType::Date)
        } else if *token_text == *"time" {
            Some(PgType::Time)
        } else if *token_text == *"timetz" {
            Some(PgType::TimeTz)
        } else if *token_text == *"timestamp" {
            Some(PgType::Timestamp)
        } else if *token_text == *"timestamptz" {
            Some(PgType::TimestampTz)
        } else if *token_text == *"interval" {
            Some(PgType::Interval)
        } else if *token_text == *"json" {
            Some(PgType::Json)
        } else if *token_text == *"jsonb" {
            Some(PgType::Jsonb)
        } else if *token_text == *"inet" {
            Some(PgType::Inet)
        } else if *token_text == *"cidr" {
            Some(PgType::Cidr)
        } else if *token_text == *"macaddr" {
            Some(PgType::MacAddr)
        } else if *token_text == *"macaddr8" {
            Some(PgType::MacAddr8)
        } else if *token_text == *"bit" {
            Some(PgType::Bit)
        } else if *token_text == *"varbit" {
            Some(PgType::VarBit)
        } else if *token_text == *"money" {
            Some(PgType::Money)
        } else if *token_text == *"xml" {
            Some(PgType::Xml)
        } else if *token_text == *"tsvector" {
            Some(PgType::TsVector)
        } else if *token_text == *"tsquery" {
            Some(PgType::TsQuery)
        } else if *token_text == *"unrecognized" {
            Some(PgType::Unrecognized)
        } else {
            None
        }
    }

    /// Whether both are the same type.
    pub fn same(self, other: PgType) -> (r: bool)
        ensures
            r == (self@ == other@),
    {
        match (self, other) {
            (PgType::Enum(a), PgType::Enum(b)) => text::same(a, b),
            (PgType::Oid, PgType::Oid) => true,
            (PgType::Bytea, PgType::Bytea) => true,
            (PgType::Date, PgType::Date) => true,
            (PgType::Time, PgType::Time) => true,
            (PgType::TimeTz, PgType::TimeTz) => true,
            (PgType::Timestamp, PgType::Timestamp) => true,
            (PgType::TimestampTz, PgType::TimestampTz) => true,
            (PgType::Interval, PgType::Interval) => true,
            (PgType::Json, PgType::Json) => true,
            (PgType::Jsonb, PgType::Jsonb) => true,
            (PgType::Inet, PgType::Inet) => true,
            (PgType::Cidr, PgType::Cidr) => true,
            (PgType::MacAddr, PgType::MacAddr) => true,
            (PgType::MacAddr8, PgType::MacAddr8) => true,
            (PgType::Bit, PgType::Bit) => true,
            (PgType::VarBit, PgType::VarBit) => true,
            (PgType::Money, PgType::Money) => true,
            (PgType::Xml, PgType::Xml) => true,
            (PgType::TsVector, PgType::TsVector) => true,
            (PgType::TsQuery, PgType::TsQuery) => true,
            (PgType::Unrecognized, PgType::Unrecognized) => true,
            _ => false,
        }
    }
}

/// The value type of the built-in Postgres type with the given OID;
/// everything else is unrecognized, never plain text.
pub open spec fn builtin_oid_type(type_oid: u32) -> ValueTypeView {
    if type_oid == oid::BOOL {
        ValueTypeView::Boolean
    } else if type_oid == oid::UUID {
        ValueTypeView::Uuid
    } else if type_oid == oid::INT2 {
        ValueTypeView::Integer(IntWidth::Int2)
    } else if type_oid == oid::INT4 {
        ValueTypeView::Integer(IntWidth::Int4)
    } else if type_oid == oid::INT8 {
        ValueTypeView::Integer(IntWidth::Int8)
    } else if type_oid == oid::FLOAT4 {
        ValueTypeView::Float(FloatWidth::Float4)
    } else if type_oid == oid::FLOAT8 {
        ValueTypeView::Float(FloatWidth::Float8)
    } else if type_oid == oid::NUMERIC {
        ValueTypeView::Numeric
    } else if type_oid == oid::TEXT || type_oid == oid::VARCHAR || type_oid == oid::BPCHAR
        || type_oid == oid::NAME {
        ValueTypeView::Text
    } else {
        ValueTypeView::Other(builtin_oid_family(type_oid))
    }
}

/// The family of a built-in type that has no value type of its own.
pub open spec fn builtin_oid_family(type_oid: u32) -> PgTypeView {
    if type_oid == oid::OID {
        PgTypeView::Oid
    } else if type_oid == oid::BYTEA {
        PgTypeView::Bytea
    } else if type_oid == oid::DATE {
        PgTypeView::Date
    } else if type_oid == oid::TIME {
        PgTypeView::Time
    } else if type_oid == oid::TIMETZ {
        PgTypeView::TimeTz
    } else if type_oid == oid::TIMESTAMP {
        PgTypeView::Timestamp
    } else if type_oid == oid::TIMESTAMPTZ {
        PgTypeView::TimestampTz
    } else if type_oid == oid::INTERVAL {
        PgTypeView::Interval
    } else if type_oid == oid::JSON {
        PgTypeView::Json
    } else if type_oid == oid::JSONB {
        PgTypeView::Jsonb
    } else if type_oid == oid::INET {
        PgTypeView::Inet
    } else if type_oid == oid::CIDR {
        PgTypeView::Cidr
    } else if type_oid == oid::MACADDR {
        PgTypeView::MacAddr
    } else if type_oid == oid::MACADDR8 {
        PgTypeView::MacAddr8
    } else if type_oid == oid::BIT {
        PgTypeView::Bit
    } else if type_oid == oid::VARBIT {
        PgTypeView::VarBit
    } else if type_oid == oid::MONEY {
        PgTypeView::Money
    } else if type_oid == oid::XML {
        PgTypeView::Xml
    } else if type_oid == oid::TSVECTOR {
        PgTypeView::TsVector
    } else if type_oid == oid::TSQUERY {
        PgTypeView::TsQuery
    } else {
        PgTypeView::Unrecognized
    }
}

/// The value type of the built-in Postgres type with OID `type_oid`.
pub fn value_type_for_builtin_oid(type_oid: u32) -> (r: ValueType)
    ensures
        r@ == builtin_oid_type(type_oid),
{
    if type_oid == oid::BOOL {
        ValueType::Boolean
    } else if type_oid == oid::UUID {
        ValueType::Uuid
    } else if type_oid == oid::INT2 {
        ValueType::Integer(IntWidth::Int2)
    } else if type_oid == oid::INT4 {
        ValueType::Integer(IntWidth::Int4)
    } else if type_oid == oid::INT8 {
        ValueType::Integer(IntWidth::Int8)
    } else if type_oid == oid::FLOAT4 {
        ValueType::Float(FloatWidth::Float4)
    } else if type_oid == oid::FLOAT8 {
        ValueType::Float(FloatWidth::Float8)
    } else if type_oid == oid::NUMERIC {
        ValueType::Numeric
    } else if type_oid == oid::TEXT || type_oid == oid::VARCHAR || type_oid == oid::BPCHAR
        || type_oid == oid::NAME {
        ValueType::Text
    } else if type_oid == oid::OID {
        ValueType::Other(PgType::Oid)
    } else if type_oid == oid::BYTEA {
        ValueType::Other(PgType::Bytea)
    } else if type_oid == oid::DATE {
        ValueType::Other(PgType::Date)
    } else if type_oid == oid::TIME {
        ValueType::Other(PgType::Time)
    } else if type_oid == oid::TIMETZ {
        ValueType::Other(PgType::TimeTz)
    } else if type_oid == oid::TIMESTAMP {
        ValueType::Other(PgType::Timestamp)
    } else if type_oid == oid::TIMESTAMPTZ {
        ValueType::Other(PgType::TimestampTz)
    } else if type_oid == oid::INTERVAL {
        ValueType::Other(PgType::Interval)
    } else if type_oid == oid::JSON {
        ValueType::Other(PgType::Json)
    } else if type_oid == oid::JSONB {
        ValueType::Other(PgType::Jsonb)
    } else if type_oid == oid::INET {
        ValueType::Other(PgType::Inet)
    } else if type_oid == oid::CIDR {
        ValueType::Other(PgType::Cidr)
    } else if type_oid == oid::MACADDR {
        ValueType::Other(PgType::MacAddr)
    } else if type_oid == oid::MACADDR8 {
        ValueType::Other(PgType::MacAddr8)
    } else if type_oid == oid::BIT {
        ValueType::Other(PgType::Bit)
    } else if type_oid == oid::VARBIT {
        ValueType::Other(PgType::VarBit)
    } else if type_oid == oid::MONEY {
        ValueType::Other(PgType::Money)
    } else if type_oid == oid::XML {
        ValueType::Other(PgType::Xml)
    } else if type_oid == oid::TSVECTOR {
        ValueType::Other(PgType::TsVector)
    } else if type_oid == oid::TSQUERY {
        ValueType::Other(PgType::TsQuery)
    } else {
        ValueType::Other(PgType::Unrecognized)
    }
}

/// The value type of the column type with OID `type_oid`, where
/// `enum_name` is the schema and name of the live enum type with that OID,
/// if there is one: it is asked only where no built-in type has the OID, and
/// a name with a dot in it cannot be told apart from a qualified one.
pub fn value_type_for_oid(
    type_oid: u32,
    enum_name: Option<(String, String)>,
    tokens: &mut EnumTokens,
) -> (r: ValueType)
    ensures
        r@ == oid_type(
            type_oid,
            match enum_name {
                Some(n) => Some((n.0@, n.1@)),
                None => None,
            },
        ),
        match r {
            ValueType::Other(PgType::Enum(token)) => final(tokens).after_handing_out(
                *old(tokens),
                token,
            ),
            _ => *final(tokens) == *old(tokens),
        },
{
    let builtin = value_type_for_builtin_oid(type_oid);
    match builtin {
        ValueType::Other(PgType::Unrecognized) => {},
        _ => {
            return builtin;
        },
    }
    match enum_name {
        Some((schema, typname)) => match qualify(schema.as_str(), typname.as_str()) {
            Some(qualified) => ValueType::Other(PgType::for_enum(qualified.as_str(), tokens)),
            None => ValueType::Other(PgType::Unrecognized),
        },
        None => ValueType::Other(PgType::Unrecognized),
    }
}

/// See [`value_type_for_oid`].
pub open spec fn oid_type(
    type_oid: u32,
    enum_name: Option<(Seq<char>, Seq<char>)>,
) -> ValueTypeView {
    let builtin = builtin_oid_type(type_oid);
    if builtin != ValueTypeView::Other(PgTypeView::Unrecognized) {
        builtin
    } else {
        match enum_name {
            Some((schema, typname)) => if schema.contains('.') || typname.contains('.') {
                builtin
            } else {
                ValueTypeView::Other(PgTypeView::Enum(enum_token(schema + "."@ + typname)))
            },
            None => builtin,
        }
    }
}

fn has_dot(s: &str) -> (r: bool)
    ensures
        r == s@.contains('.'),
{
    let cs = text::chars_of(s);
    let mut i: usize = 0;
    while i < cs.len()
        invariant
            0 <= i <= cs@.len(),
            cs@ == s@,
            forall|j: int| 0 <= j < i ==> cs@[j] != '.',
        decreases cs@.len() - i,
    {
        if cs[i] == '.' {
            return true;
        }
        i += 1;
    }
    false
}

/// `<schema>.<name>`, unless a dot inside either part would make it
/// ambiguous.
pub fn qualify(schema: &str, name: &str) -> (r: Option<String>)
    ensures
        match r {
            Some(q) => !schema@.contains('.') && !name@.contains('.') && q@ == schema@ + "."@
                + name@,
            None => schema@.contains('.') || name@.contains('.'),
        },
{
    if has_dot(schema) || has_dot(name) {
        None
    } else {
        Some(text::cat3(schema, ".", name))
    }
}

/// The length and the first character of a token, which no two of the fixed
/// ones share.
proof fn name_shape(t: PgTypeView)
    ensures
        match t {
            PgTypeView::Enum(token) => is_enum_token(token) ==> token[0] == 'e' && token[4] == ':',
            PgTypeView::Oid => t.name().len() == 3 && t.name()[0] == 'o',
            PgTypeView::Bytea => t.name().len() == 5 && t.name()[0] == 'b',
            PgTypeView::Date => t.name().len() == 4 && t.name()[0] == 'd',
            PgTypeView::Time => t.name().len() == 4 && t.name()[0] == 't',
            PgTypeView::TimeTz => t.name().len() == 6 && t.name()[0] == 't',
            PgTypeView::Timestamp => t.name().len() == 9 && t.name()[0] == 't',
            PgTypeView::TimestampTz => t.name().len() == 11 && t.name()[0] == 't',
            PgTypeView::Interval => t.name().len() == 8 && t.name()[0] == 'i',
            PgTypeView::Json => t.name().len() == 4 && t.name()[0] == 'j',
            PgTypeView::Jsonb => t.name().len() == 5 && t.name()[0] == 'j',
            PgTypeView::Inet => t.name().len() == 4 && t.name()[0] == 'i',
            PgTypeView::Cidr => t.name().len() == 4 && t.name()[0] == 'c',
            PgTypeView::MacAddr => t.name().len() == 7 && t.name()[0] == 'm',
            PgTypeView::MacAddr8 => t.name().len() == 8 && t.name()[0] == 'm',
            PgTypeView::Bit => t.name().len() == 3 && t.name()[0] == 'b',
            PgTypeView::VarBit => t.name().len() == 6 && t.name()[0] == 'v',
            PgTypeView::Money => t.name().len() == 5 && t.name()[0] == 'm',
            PgTypeView::Xml => t.name().len() == 3 && t.name()[0] == 'x',
            PgTypeView::TsVector => t.name().len() == 8 && t.name()[0] == 't',
            PgTypeView::TsQuery => t.name().len() == 7 && t.name()[0] == 't',
            PgTypeView::Unrecognized => t.name().len() == 12 && t.name()[0] == 'u',
        },
{
    reveal_strlit("enum:");
    reveal_strlit("oid");
    reveal_strlit("bytea");
    reveal_strlit("date");
    reveal_strlit("time");
    reveal_strlit("timetz");
    reveal_strlit("timestamp");
    reveal_strlit("timestamptz");
    reveal_strlit("interval");
    reveal_strlit("json");
    reveal_strlit("jsonb");
    reveal_strlit("inet");
    reveal_strlit("cidr");
    reveal_strlit("macaddr");
    reveal_strlit("macaddr8");
    reveal_strlit("bit");
    reveal_strlit("varbit");
    reveal_strlit("money");
    reveal_strlit("xml");
    reveal_strlit("tsvector");
    reveal_strlit("tsquery");
    reveal_strlit("unrecognized");
    if let PgTypeView::Enum(token) = t {
        if is_enum_token(token) {
            assert(token.take(5)[0] == token[0]);
            assert(token.take(5)[4] == token[4]);
        }
    }
}

/// No two types share a token: what is persisted as one type is read back as
/// that type.
pub proof fn names_tell_types_apart(a: PgTypeView, b: PgTypeView)
    requires
        a.well_formed(),
        b.well_formed(),
        a.name() == b.name(),
    ensures
        a == b,
{
    name_shape(a);
    name_shape(b);
}

/// Whatever type a catalog reports, the library can spell it in SQL.
pub proof fn reported_types_can_be_spelled(
    type_oid: u32,
    enum_name: Option<(Seq<char>, Seq<char>)>,
)
    ensures
        match oid_type(type_oid, enum_name) {
            ValueTypeView::Other(pg) => pg.well_formed() && pg.qualified(),
            _ => true,
        },
{
    match enum_name {
        Some((schema, typname)) => {
            reveal_strlit("enum:");
            reveal_strlit(".");
            let name = schema + "."@ + typname;
            let token = enum_token(name);
            assert(token.take(5) =~= "enum:"@);
            assert(token.skip(5) =~= name);
            assert(name[schema.len() as int] == '.');
            if !schema.contains('.') {
                assert forall|i: int| 0 <= i < schema.len() implies name[i] != '.' by {
                    assert(schema[i] == name[i]);
                }
                first_dot_is(name, schema.len() as int);
            }
        },
        None => {},
    }
}

} // verus!
