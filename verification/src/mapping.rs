//! Source types and the logical types that carry them.
//!
//! A source type is carried only where every value of it survives; any other is refused, with the
//! reason. Each entry of the table is a promise that the type round-trips exactly.

use crate::evolve;
use crate::execute::Resolution;
use crate::model::{LogicalType, PhysicalType, Precision, Scalar};
use crate::numerals::{self, decimal_text};
use vstd::arithmetic::power::*;
use vstd::prelude::*;

verus! {

/// Why a source type cannot be carried.
#[derive(PartialEq, Eq, Debug)]
pub enum MappingError {
    /// The type is not in the supported set.
    Unsupported {
        /// The source type.
        oid: u32,
        /// Why it is refused.
        reason: &'static str,
    },
    /// The type is supported, but not this instance of it.
    Unrepresentable {
        /// The source type.
        oid: u32,
        /// What stands in the way.
        detail: String,
    },
}

impl MappingError {
    /// The message an error is reported with.
    pub open spec fn message(self) -> Seq<char> {
        match self {
            MappingError::Unsupported { oid, reason } => "source type "@ + numerals::decimal(oid as nat)
                + " is not supported: "@ + reason@,
            MappingError::Unrepresentable { oid, detail } => "source type "@ + numerals::decimal(oid as nat)
                + " cannot be represented exactly: "@ + detail@,
        }
    }

    /// The error as a sentence.
    pub fn to_string(&self) -> (r: String)
        ensures
            r@ == self.message(),
    {
        let mut r = "source type ".to_string();
        match self {
            MappingError::Unsupported { oid, reason } => {
                r.append(decimal_text(*oid as u64).as_str());
                r.append(" is not supported: ");
                r.append(*reason);
            },
            MappingError::Unrepresentable { oid, detail } => {
                r.append(decimal_text(*oid as u64).as_str());
                r.append(" cannot be represented exactly: ");
                r.append(detail.as_str());
            },
        }
        r
    }
}

/// A successful mapping.
#[derive(Clone, Copy, PartialEq, Eq, Debug, Structural)]
pub struct TypeMapping {
    /// The type that carries the values.
    pub logical: LogicalType,
    /// Whether the round trip is exact. Always so: an inexact mapping is refused, not recorded.
    pub lossless: bool,
}

/// True or false.
pub const BOOL: u32 = 16;
/// Bytes.
pub const BYTEA: u32 = 17;
/// A 64-bit integer.
pub const INT8: u32 = 20;
/// A 16-bit integer.
pub const INT2: u32 = 21;
/// A 32-bit integer.
pub const INT4: u32 = 23;
/// Text.
pub const TEXT: u32 = 25;
/// A document, as text.
pub const JSON: u32 = 114;
/// A single-precision float.
pub const FLOAT4: u32 = 700;
/// A double-precision float.
pub const FLOAT8: u32 = 701;
/// An amount rendered by the server's locale.
pub const MONEY: u32 = 790;
/// Blank-padded text.
pub const BPCHAR: u32 = 1042;
/// Text of bounded length.
pub const VARCHAR: u32 = 1043;
/// A date.
pub const DATE: u32 = 1082;
/// A time of day.
pub const TIME: u32 = 1083;
/// A timestamp with no zone.
pub const TIMESTAMP: u32 = 1114;
/// A timestamp in UTC.
pub const TIMESTAMPTZ: u32 = 1184;
/// A span of time.
pub const INTERVAL: u32 = 1186;
/// A time of day with an offset.
pub const TIMETZ: u32 = 1266;
/// A decimal.
pub const NUMERIC: u32 = 1700;
/// A 128-bit identifier.
pub const UUID: u32 = 2950;
/// A document, parsed.
pub const JSONB: u32 = 3802;

/// The type that carries a source type that has no modifier, where there is one.
pub open spec fn plain_type(oid: u32) -> Option<LogicalType> {
    if oid == BOOL {
        Some(LogicalType::Boolean)
    } else if oid == INT2 {
        Some(LogicalType::Int16)
    } else if oid == INT4 {
        Some(LogicalType::Int32)
    } else if oid == INT8 {
        Some(LogicalType::Int64)
    } else if oid == FLOAT4 {
        Some(LogicalType::Float32)
    } else if oid == FLOAT8 {
        Some(LogicalType::Float64)
    } else if oid == TEXT || oid == VARCHAR || oid == BPCHAR {
        Some(LogicalType::Utf8)
    } else if oid == BYTEA {
        Some(LogicalType::Binary)
    } else if oid == DATE {
        Some(LogicalType::Date)
    } else if oid == TIME {
        Some(LogicalType::Time)
    } else if oid == TIMESTAMPTZ {
        Some(LogicalType::TimestampUtc)
    } else if oid == TIMESTAMP {
        Some(LogicalType::TimestampLocal)
    } else if oid == UUID {
        Some(LogicalType::Uuid)
    } else if oid == JSON || oid == JSONB {
        Some(LogicalType::Json)
    } else {
        None
    }
}

/// Why a source type is refused, where it is neither carried plainly nor a decimal.
pub open spec fn refusal_reason(oid: u32) -> Seq<char> {
    if oid == MONEY {
        "its textual form depends on the server's locale, so the same value renders differently on different servers and cannot be reconciled"@
    } else if oid == INTERVAL {
        "it is a months/days/microseconds triple whose components are not mutually convertible; flattening it to any single unit changes its meaning"@
    } else if oid == TIMETZ {
        "a time with an offset but no date cannot be resolved to an instant, so any conversion invents information"@
    } else {
        "not in the supported set; add it deliberately once its round trip is proven, or exclude the column"@
    }
}

/// A decimal's modifier as an unsigned word, the four bytes of header taken off.
pub open spec fn packed(modifier: i32) -> int {
    (modifier - 4) % 0x1_0000_0000
}

/// The significant digits a decimal's modifier declares.
pub open spec fn declared_digits(modifier: i32) -> int {
    packed(modifier) / 0x1_0000
}

/// The scale a decimal's modifier declares.
pub open spec fn declared_scale(modifier: i32) -> int {
    packed(modifier) % 0x1_0000
}

/// Whether a decimal's modifier declares a precision that a 128-bit decimal holds exactly. A
/// negative one declares none at all.
pub open spec fn holds_decimal(modifier: i32) -> bool {
    modifier >= 0 && Precision::representable(declared_digits(modifier), declared_scale(modifier))
}

/// What stands in the way of a decimal that is refused.
pub open spec fn decimal_refusal(modifier: i32) -> Seq<char> {
    if modifier < 0 {
        "unconstrained numeric has arbitrary precision and cannot be carried in a fixed-width type. Constrain the column, for example numeric(18,4), or exclude it"@
    } else {
        "numeric("@ + numerals::decimal(declared_digits(modifier) as nat) + ","@ + numerals::decimal(
            declared_scale(modifier) as nat,
        ) + ") exceeds the "@ + numerals::decimal(Precision::MAX_DIGITS as nat)
            + " significant digits a 128-bit decimal can hold exactly"@
    }
}

/// The logical type that carries a source type, where one does.
pub open spec fn carrier(oid: u32, modifier: i32) -> Option<LogicalType> {
    if oid == NUMERIC {
        if holds_decimal(modifier) {
            Some(
                LogicalType::Decimal(
                    Precision { digits: declared_digits(modifier) as u8, scale: declared_scale(modifier) as u8 },
                ),
            )
        } else {
            None
        }
    } else {
        plain_type(oid)
    }
}

/// The logical type that carries a source type.
///
/// `type_modifier` holds precision and scale where the type has them; a negative one means
/// unconstrained. A type that cannot be carried exactly is refused, with the reason.
pub fn map_source_type(oid: u32, type_modifier: i32) -> (r: Result<TypeMapping, MappingError>)
    ensures
        match r {
            Ok(mapping) => carrier(oid, type_modifier) == Some(mapping.logical) && mapping.lossless,
            Err(error) => carrier(oid, type_modifier) is None && match error {
                MappingError::Unsupported { oid: refused, reason } => oid != NUMERIC && refused == oid && reason@
                    == refusal_reason(oid),
                MappingError::Unrepresentable { oid: refused, detail } => oid == NUMERIC && refused == oid && detail@
                    == decimal_refusal(type_modifier),
            },
        },
{
    let logical = if oid == BOOL {
        LogicalType::Boolean
    } else if oid == INT2 {
        LogicalType::Int16
    } else if oid == INT4 {
        LogicalType::Int32
    } else if oid == INT8 {
        LogicalType::Int64
    } else if oid == FLOAT4 {
        LogicalType::Float32
    } else if oid == FLOAT8 {
        LogicalType::Float64
    } else if oid == TEXT || oid == VARCHAR || oid == BPCHAR {
        LogicalType::Utf8
    } else if oid == BYTEA {
        LogicalType::Binary
    } else if oid == DATE {
        LogicalType::Date
    } else if oid == TIME {
        LogicalType::Time
    } else if oid == TIMESTAMPTZ {
        LogicalType::TimestampUtc
    } else if oid == TIMESTAMP {
        LogicalType::TimestampLocal
    } else if oid == UUID {
        LogicalType::Uuid
    } else if oid == JSON || oid == JSONB {
        LogicalType::Json
    } else if oid == NUMERIC {
        return map_numeric(type_modifier);
    } else {
        let reason: &'static str = if oid == MONEY {
            "its textual form depends on the server's locale, so the same value renders differently on different servers and cannot be reconciled"
        } else if oid == INTERVAL {
            "it is a months/days/microseconds triple whose components are not mutually convertible; flattening it to any single unit changes its meaning"
        } else if oid == TIMETZ {
            "a time with an offset but no date cannot be resolved to an instant, so any conversion invents information"
        } else {
            "not in the supported set; add it deliberately once its round trip is proven, or exclude the column"
        };
        return Err(MappingError::Unsupported { oid, reason });
    };
    Ok(TypeMapping { logical, lossless: true })
}

/// The decimal a modifier declares. One that declares no precision, or more than a 128-bit decimal
/// holds, is refused: a truncated value would look right and reconcile against nothing.
fn map_numeric(type_modifier: i32) -> (r: Result<TypeMapping, MappingError>)
    ensures
        match r {
            Ok(mapping) => carrier(NUMERIC, type_modifier) == Some(mapping.logical) && mapping.lossless,
            Err(error) => carrier(NUMERIC, type_modifier) is None && match error {
                MappingError::Unrepresentable { oid, detail } => oid == NUMERIC && detail@ == decimal_refusal(
                    type_modifier,
                ),
                _ => false,
            },
        },
{
    if type_modifier < 0 {
        return Err(
            MappingError::Unrepresentable {
                oid: NUMERIC,
                detail: "unconstrained numeric has arbitrary precision and cannot be carried in a fixed-width type. Constrain the column, for example numeric(18,4), or exclude it".to_string(),
            },
        );
    }
    let word: u64 = if type_modifier < 4 {
        0x1_0000_0000 - (4 - type_modifier) as u64
    } else {
        (type_modifier - 4) as u64
    };
    assert(word == packed(type_modifier));
    let digits: u64 = word / 0x1_0000;
    let scale: u64 = word % 0x1_0000;
    if digits <= 255 && scale <= 255 {
        if let Some(precision) = Precision::new(digits as u8, scale as u8) {
            return Ok(TypeMapping { logical: LogicalType::Decimal(precision), lossless: true });
        }
    }
    let mut detail = "numeric(".to_string();
    detail.append(decimal_text(digits).as_str());
    detail.append(",");
    detail.append(decimal_text(scale).as_str());
    detail.append(") exceeds the ");
    detail.append(decimal_text(Precision::MAX_DIGITS as u64).as_str());
    detail.append(" significant digits a 128-bit decimal can hold exactly");
    Err(MappingError::Unrepresentable { oid: NUMERIC, detail })
}

/// The modifier that declares a decimal.
#[must_use]
pub fn numeric_modifier(digits: u8, scale: u8) -> (r: i32)
    ensures
        r == digits * 0x1_0000 + scale + 4,
{
    digits as i32 * 0x1_0000 + scale as i32 + 4
}

/// A decimal that can be held exactly comes back from its own modifier with its precision and
/// scale unchanged.
pub proof fn decimals_in_range_read_back(digits: u8, scale: u8, modifier: i32)
    requires
        Precision::representable(digits as int, scale as int),
        modifier == digits * 0x1_0000 + scale + 4,
    ensures
        carrier(NUMERIC, modifier) == Some(LogicalType::Decimal(Precision { digits, scale })),
{
}

/// A mapping never yields a decimal wider than can be held exactly, whatever the modifier.
pub proof fn carried_decimals_are_exact(oid: u32, modifier: i32)
    ensures
        carrier(oid, modifier) matches Some(LogicalType::Decimal(p)) ==> Precision::representable(
            p.digits as int,
            p.scale as int,
        ) && p.digits == declared_digits(modifier) && p.scale == declared_scale(modifier),
{
}

/// Every source type is carried by a type with exactly its values, and no other is carried: each by the
/// number the source knows it under.
pub proof fn carriers_hold_their_source(oid: u32, modifier: i32)
    ensures
        oid == 21 ==> (carrier(oid, modifier) matches Some(t) && forall|n: int|
            #[trigger] evolve::holds_number(t, n, 0) <==> -0x8000 <= n <= 0x7fff),
        oid == 23 ==> (carrier(oid, modifier) matches Some(t) && forall|n: int|
            #[trigger] evolve::holds_number(t, n, 0) <==> -0x8000_0000 <= n <= 0x7fff_ffff),
        oid == 20 ==> (carrier(oid, modifier) matches Some(t) && forall|n: int|
            #[trigger] evolve::holds_number(t, n, 0) <==> -0x8000_0000_0000_0000 <= n <= 0x7fff_ffff_ffff_ffff),
        oid == 700 ==> (carrier(oid, modifier) matches Some(t) && forall|s: int, e: int|
            #[trigger] evolve::holds_float(t, s, e) <==> -0x100_0000 < s < 0x100_0000 && -149 <= e <= 104),
        oid == 701 ==> (carrier(oid, modifier) matches Some(t) && forall|s: int, e: int|
            #[trigger] evolve::holds_float(t, s, e) <==> -0x20_0000_0000_0000 < s < 0x20_0000_0000_0000 && -1074 <= e
                <= 971),
        oid == 16 ==> (carrier(oid, modifier) matches Some(t) && t.physical() == PhysicalType::Scalar(Scalar::Boolean)),
        oid == 25 || oid == 1042 || oid == 1043 ==> (carrier(oid, modifier) matches Some(t) && t is Utf8 && t.physical()
            == PhysicalType::Scalar(Scalar::Utf8)),
        oid == 114 || oid == 3802 ==> (carrier(oid, modifier) matches Some(t) && t is Json && t.physical()
            == PhysicalType::Scalar(Scalar::Utf8)),
        oid == 17 ==> (carrier(oid, modifier) matches Some(t) && t.physical() == PhysicalType::Scalar(Scalar::Binary)),
        oid == 1082 ==> (carrier(oid, modifier) matches Some(t) && t.physical() == PhysicalType::Scalar(Scalar::Date32)),
        oid == 1083 ==> (carrier(oid, modifier) matches Some(t) && t.physical() == PhysicalType::TimeOfDay(
            Resolution::Microsecond,
        )),
        oid == 1184 ==> (carrier(oid, modifier) matches Some(t) && (t.physical() matches PhysicalType::Timestamp(
            unit,
            zone,
        ) && unit is Microsecond && (zone matches Some(name) && name@ == "UTC"@))),
        oid == 1114 ==> (carrier(oid, modifier) matches Some(t) && t.physical() == PhysicalType::Timestamp(
            Resolution::Microsecond,
            None,
        )),
        oid == 2950 ==> (carrier(oid, modifier) matches Some(t) && t.physical() == PhysicalType::Scalar(
            Scalar::FixedSizeBinary(16),
        )),
        carrier(oid, modifier) is Some ==> oid == 16 || oid == 17 || oid == 20 || oid == 21 || oid == 23 || oid == 25
            || oid == 114 || oid == 700 || oid == 701 || oid == 1042 || oid == 1043 || oid == 1082 || oid == 1083 || oid
            == 1114 || oid == 1184 || oid == 1700 || oid == 2950 || oid == 3802,
{
}

/// A decimal is carried exactly where it declares a precision of at most thirty-eight digits, the scale
/// among them, and then by a type with exactly its values. A modifier declares the digits in its upper
/// half and the scale in its lower, four more than that; one below four declares nothing.
pub proof fn decimals_are_carried_whole(digits: int, scale: int, modifier: i32)
    requires
        0 <= digits < 0x8000,
        0 <= scale < 0x1_0000,
        modifier == 0x1_0000 * digits + scale + 4,
    ensures
        match carrier(1700, modifier) {
            Some(t) => {
                &&& 1 <= digits <= 38 && scale <= digits
                &&& forall|units: int, places: int|
                    #[trigger] evolve::holds_number(t, units, places) <==> places == scale && -pow(10, digits as nat)
                        < units < pow(10, digits as nat)
            },
            None => !(1 <= digits <= 38 && scale <= digits),
        },
{
    assert((0x1_0000 * digits + scale) / 0x1_0000 == digits);
    assert((0x1_0000 * digits + scale) % 0x1_0000 == scale);
}

/// A decimal that declares no precision is not carried.
pub proof fn unconstrained_decimals_are_refused(modifier: i32)
    requires
        modifier < 4,
    ensures
        carrier(1700, modifier) is None,
{
}

/// A type that is refused is refused for its own reason, and every other for not being among those supported.
pub proof fn types_are_refused_for_their_own_reason(oid: u32)
    ensures
        refusal_reason(oid)[0] == 'n' <==> !(oid == 790 || oid == 1186 || oid == 1266),
        refusal_reason(oid)[0] == 'a' <==> oid == 1266,
        refusal_reason(oid)[0] == 'i' && refusal_reason(oid)[2] == 's' <==> oid == 790,
        refusal_reason(oid)[0] == 'i' && refusal_reason(oid)[2] == ' ' <==> oid == 1186,
{
    reveal_strlit(
        "its textual form depends on the server's locale, so the same value renders differently on different servers and cannot be reconciled",
    );
    reveal_strlit(
        "it is a months/days/microseconds triple whose components are not mutually convertible; flattening it to any single unit changes its meaning",
    );
    reveal_strlit(
        "a time with an offset but no date cannot be resolved to an instant, so any conversion invents information",
    );
    reveal_strlit(
        "not in the supported set; add it deliberately once its round trip is proven, or exclude the column",
    );
}

/// A decimal that is refused is refused for having no bounds exactly where it has none.
pub proof fn decimals_are_refused_for_their_bounds(modifier: i32)
    ensures
        decimal_refusal(modifier)[0] == 'u' <==> modifier < 0,
{
    reveal_strlit(
        "unconstrained numeric has arbitrary precision and cannot be carried in a fixed-width type. Constrain the column, for example numeric(18,4), or exclude it",
    );
    reveal_strlit("numeric(");
    if modifier >= 0 {
        assert(decimal_refusal(modifier)[0] == "numeric("@[0]);
    }
}

} // verus!
