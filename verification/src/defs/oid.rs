//! The fixed `pg_type.oid` values of the built-in Postgres types.

use vstd::prelude::*;

verus! {

pub const BOOL: u32 = 16;
pub const BYTEA: u32 = 17;
pub const NAME: u32 = 19;
pub const INT8: u32 = 20;
pub const INT2: u32 = 21;
pub const INT4: u32 = 23;
pub const TEXT: u32 = 25;
pub const OID: u32 = 26;
pub const JSON: u32 = 114;
pub const XML: u32 = 142;
pub const CIDR: u32 = 650;
pub const FLOAT4: u32 = 700;
pub const FLOAT8: u32 = 701;
pub const MACADDR8: u32 = 774;
pub const MONEY: u32 = 790;
pub const MACADDR: u32 = 829;
pub const INET: u32 = 869;
pub const BPCHAR: u32 = 1042;
pub const VARCHAR: u32 = 1043;
pub const DATE: u32 = 1082;
pub const TIME: u32 = 1083;
pub const TIMESTAMP: u32 = 1114;
pub const TIMESTAMPTZ: u32 = 1184;
pub const INTERVAL: u32 = 1186;
pub const TIMETZ: u32 = 1266;
pub const BIT: u32 = 1560;
pub const VARBIT: u32 = 1562;
pub const NUMERIC: u32 = 1700;
pub const UUID: u32 = 2950;
pub const TSVECTOR: u32 = 3614;
pub const TSQUERY: u32 = 3615;
pub const JSONB: u32 = 3802;

} // verus!
