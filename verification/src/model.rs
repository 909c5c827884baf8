//! The logical shape of a table, apart from any storage system's own names for types.

use crate::execute::Resolution;
use crate::numerals::{self, decimal_text};
use crate::text::same;
use arrow_schema::{DataType, Field as ArrowField, TimeUnit};
use vstd::arithmetic::power::*;
use vstd::prelude::*;

verus! {

/// The physical type of a column, as `arrow_schema` names it.
#[verifier::external_type_specification]
#[verifier::external_body]
pub struct ExDataType(DataType);

/// One physical column: a name, a type and whether it may be null.
#[verifier::external_type_specification]
#[verifier::external_body]
pub struct ExArrowField(ArrowField);

/// A physical schema: columns in order.
#[verifier::external_type_specification]
#[verifier::external_body]
pub struct ExSchema(arrow_schema::Schema);

/// Decimal precision and scale.
#[derive(Clone, Copy, PartialEq, Eq, Debug, Structural)]
pub struct Precision {
    /// How many significant digits.
    pub digits: u8,
    /// How many of them stand behind the point.
    pub scale: u8,
}

impl Precision {
    /// The most digits a 128-bit value holds exactly.
    pub const MAX_DIGITS: u8 = 38;

    /// Whether a 128-bit decimal holds every value of this precision and scale.
    pub open spec fn representable(digits: int, scale: int) -> bool {
        1 <= digits <= Precision::MAX_DIGITS && scale <= digits
    }

    /// A precision, or `None` where it cannot be represented exactly.
    #[must_use]
    pub fn new(digits: u8, scale: u8) -> (r: Option<Self>)
        ensures
            r == (if Precision::representable(digits as int, scale as int) {
                Some(Precision { digits, scale })
            } else {
                None
            }),
    {
        if digits == 0 || digits > Precision::MAX_DIGITS || scale > digits {
            None
        } else {
            Some(Precision { digits, scale })
        }
    }

    /// How a precision is written in a message.
    pub open spec fn written(self) -> Seq<char> {
        "Precision { digits: "@ + numerals::decimal(self.digits as nat) + ", scale: "@ + numerals::decimal(
            self.scale as nat,
        ) + " }"@
    }
}

/// A type that is carried faithfully.
#[derive(Clone, Copy, PartialEq, Eq, Debug, Structural)]
pub enum LogicalType {
    /// True or false.
    Boolean,
    /// A 16-bit integer.
    Int16,
    /// A 32-bit integer.
    Int32,
    /// A 64-bit integer.
    Int64,
    /// A single-precision float.
    Float32,
    /// A double-precision float.
    Float64,
    /// An exact decimal.
    Decimal(Precision),
    /// Text.
    Utf8,
    /// Bytes.
    Binary,
    /// Microseconds since the epoch, in UTC.
    TimestampUtc,
    /// A wall-clock timestamp with no zone, never confused with one in UTC.
    TimestampLocal,
    /// A calendar date.
    Date,
    /// Microseconds since midnight.
    Time,
    /// A 128-bit identifier.
    Uuid,
    /// A structured document, carried as its canonical text.
    Json,
}

/// How a value that counts no time lies in a file.
#[derive(Clone, Copy, PartialEq, Eq, Debug, Structural)]
pub enum Scalar {
    /// True or false.
    Boolean,
    /// A 16-bit integer.
    Int16,
    /// A 32-bit integer.
    Int32,
    /// A 64-bit integer.
    Int64,
    /// An unsigned 64-bit integer.
    UInt64,
    /// A single-precision float.
    Float32,
    /// A double-precision float.
    Float64,
    /// A 128-bit decimal: significant digits, and how many stand behind the point.
    Decimal128(u8, i8),
    /// Text.
    Utf8,
    /// Bytes.
    Binary,
    /// Days since the epoch.
    Date32,
    /// A fixed number of bytes.
    FixedSizeBinary(i32),
}

/// How a value lies in a file.
#[derive(Clone, Copy, PartialEq, Eq, Debug)]
pub enum PhysicalType {
    /// One that counts no time.
    Scalar(Scalar),
    /// The time since the epoch, in a unit, by the clock of a zone, or by a wall clock with none.
    Timestamp(Resolution, Option<&'static str>),
    /// The time since midnight, in a unit.
    TimeOfDay(Resolution),
}

/// The zone that instants are carried in.
pub const UTC: &'static str = "UTC";

/// The `arrow_schema` type that stands for a scalar.
pub uninterp spec fn arrow_scalar(scalar: Scalar) -> DataType;

/// The variants of `DataType` of the same names, with the same fields. The contract says that the
/// value depends on the scalar alone.
#[verifier::external_body]
pub(crate) fn scalar_type(scalar: Scalar) -> (r: DataType)
    ensures
        r == arrow_scalar(scalar),
{
    match scalar {
        Scalar::Boolean => DataType::Boolean,
        Scalar::Int16 => DataType::Int16,
        Scalar::Int32 => DataType::Int32,
        Scalar::Int64 => DataType::Int64,
        Scalar::UInt64 => DataType::UInt64,
        Scalar::Float32 => DataType::Float32,
        Scalar::Float64 => DataType::Float64,
        Scalar::Decimal128(digits, scale) => DataType::Decimal128(digits, scale),
        Scalar::Utf8 => DataType::Utf8,
        Scalar::Binary => DataType::Binary,
        Scalar::Date32 => DataType::Date32,
        Scalar::FixedSizeBinary(width) => DataType::FixedSizeBinary(width),
    }
}

/// The `arrow_schema` type that stands for a timestamp in a unit, by the clock of a zone.
pub uninterp spec fn arrow_timestamp(unit: Resolution, zone: Option<Seq<char>>) -> DataType;

/// `DataType::Timestamp` of the unit of the same name in `TimeUnit` and of the zone. The contract
/// says that the value depends on the two alone.
#[verifier::external_body]
pub(crate) fn timestamp_type(unit: Resolution, zone: Option<&'static str>) -> (r: DataType)
    ensures
        r == arrow_timestamp(unit, zone_text(zone)),
{
    let unit = match unit {
        Resolution::Second => TimeUnit::Second,
        Resolution::Millisecond => TimeUnit::Millisecond,
        Resolution::Microsecond => TimeUnit::Microsecond,
        Resolution::Nanosecond => TimeUnit::Nanosecond,
    };
    DataType::Timestamp(unit, zone.map(|zone| zone.into()))
}

/// The `arrow_schema` type that stands for a 64-bit time of day in a unit.
pub uninterp spec fn arrow_time(unit: Resolution) -> DataType;

/// `DataType::Time64` of the unit of the same name in `TimeUnit`. The contract says that the value
/// depends on the unit alone.
#[verifier::external_body]
pub(crate) fn time_type(unit: Resolution) -> (r: DataType)
    ensures
        r == arrow_time(unit),
{
    DataType::Time64(
        match unit {
            Resolution::Second => TimeUnit::Second,
            Resolution::Millisecond => TimeUnit::Millisecond,
            Resolution::Microsecond => TimeUnit::Microsecond,
            Resolution::Nanosecond => TimeUnit::Nanosecond,
        },
    )
}

/// The text of a zone.
pub open spec fn zone_text(zone: Option<&'static str>) -> Option<Seq<char>> {
    match zone {
        Some(zone) => Some(zone@),
        None => None,
    }
}

/// The `arrow_schema` type that stands for a physical type.
pub open spec fn arrow_data_type(physical: PhysicalType) -> DataType {
    match physical {
        PhysicalType::Scalar(scalar) => arrow_scalar(scalar),
        PhysicalType::Timestamp(unit, zone) => arrow_timestamp(unit, zone_text(zone)),
        PhysicalType::TimeOfDay(unit) => arrow_time(unit),
    }
}

fn to_arrow(physical: PhysicalType) -> (r: DataType)
    ensures
        r == arrow_data_type(physical),
{
    match physical {
        PhysicalType::Scalar(scalar) => scalar_type(scalar),
        PhysicalType::Timestamp(unit, zone) => timestamp_type(unit, zone),
        PhysicalType::TimeOfDay(unit) => time_type(unit),
    }
}

/// The `arrow_schema` field that `arrow_schema::Field::new` makes of a name, a type and whether
/// values may be null.
pub uninterp spec fn arrow_field(name: Seq<char>, data_type: DataType, nullable: bool) -> ArrowField;

/// `ArrowField::new`: the field depends on its three arguments alone.
#[verifier::external_body]
pub(crate) fn new_field(name: &str, data_type: DataType, nullable: bool) -> (r: ArrowField)
    ensures
        r == arrow_field(name@, data_type, nullable),
{
    ArrowField::new(name, data_type, nullable)
}

/// The `arrow_schema` schema that `arrow_schema::Schema::new` makes of fields in order.
pub uninterp spec fn arrow_schema_of(fields: Seq<ArrowField>) -> arrow_schema::Schema;

/// `arrow_schema::Schema::new`: the schema depends on the fields, in their order, alone.
#[verifier::external_body]
pub(crate) fn new_schema(fields: Vec<ArrowField>) -> (r: arrow_schema::Schema)
    ensures
        r == arrow_schema_of(fields@),
{
    arrow_schema::Schema::new(fields)
}

impl LogicalType {
    /// The physical type that carries a logical one. Microseconds throughout, which is the
    /// source's own resolution: a finer one would invent precision, a coarser one would lose it.
    pub open spec fn physical(self) -> PhysicalType {
        match self {
            LogicalType::Boolean => PhysicalType::Scalar(Scalar::Boolean),
            LogicalType::Int16 => PhysicalType::Scalar(Scalar::Int16),
            LogicalType::Int32 => PhysicalType::Scalar(Scalar::Int32),
            LogicalType::Int64 => PhysicalType::Scalar(Scalar::Int64),
            LogicalType::Float32 => PhysicalType::Scalar(Scalar::Float32),
            LogicalType::Float64 => PhysicalType::Scalar(Scalar::Float64),
            LogicalType::Decimal(p) => PhysicalType::Scalar(
                Scalar::Decimal128(
                    p.digits,
                    if p.scale <= 127 {
                        p.scale as i8
                    } else {
                        0
                    },
                ),
            ),
            LogicalType::Utf8 => PhysicalType::Scalar(Scalar::Utf8),
            LogicalType::Json => PhysicalType::Scalar(Scalar::Utf8),
            LogicalType::Binary => PhysicalType::Scalar(Scalar::Binary),
            LogicalType::TimestampUtc => PhysicalType::Timestamp(Resolution::Microsecond, Some(UTC)),
            LogicalType::TimestampLocal => PhysicalType::Timestamp(Resolution::Microsecond, None),
            LogicalType::Date => PhysicalType::Scalar(Scalar::Date32),
            LogicalType::Time => PhysicalType::TimeOfDay(Resolution::Microsecond),
            LogicalType::Uuid => PhysicalType::Scalar(Scalar::FixedSizeBinary(16)),
        }
    }

    /// The physical type that carries this one.
    #[must_use]
    pub fn physical_type(&self) -> (r: PhysicalType)
        ensures
            r == self.physical(),
    {
        match self {
            LogicalType::Boolean => PhysicalType::Scalar(Scalar::Boolean),
            LogicalType::Int16 => PhysicalType::Scalar(Scalar::Int16),
            LogicalType::Int32 => PhysicalType::Scalar(Scalar::Int32),
            LogicalType::Int64 => PhysicalType::Scalar(Scalar::Int64),
            LogicalType::Float32 => PhysicalType::Scalar(Scalar::Float32),
            LogicalType::Float64 => PhysicalType::Scalar(Scalar::Float64),
            LogicalType::Decimal(p) => PhysicalType::Scalar(
                Scalar::Decimal128(
                    p.digits,
                    if p.scale <= 127 {
                        p.scale as i8
                    } else {
                        0
                    },
                ),
            ),
            LogicalType::Utf8 => PhysicalType::Scalar(Scalar::Utf8),
            LogicalType::Json => PhysicalType::Scalar(Scalar::Utf8),
            LogicalType::Binary => PhysicalType::Scalar(Scalar::Binary),
            LogicalType::TimestampUtc => PhysicalType::Timestamp(Resolution::Microsecond, Some(UTC)),
            LogicalType::TimestampLocal => PhysicalType::Timestamp(Resolution::Microsecond, None),
            LogicalType::Date => PhysicalType::Scalar(Scalar::Date32),
            LogicalType::Time => PhysicalType::TimeOfDay(Resolution::Microsecond),
            LogicalType::Uuid => PhysicalType::Scalar(Scalar::FixedSizeBinary(16)),
        }
    }

    /// The physical type, as `arrow_schema` names it.
    #[must_use]
    pub fn arrow_type(&self) -> (r: DataType)
        ensures
            r == arrow_data_type(self.physical()),
    {
        to_arrow(self.physical_type())
    }

    /// Whether values of this type are exact.
    #[must_use]
    pub fn is_exact(&self) -> (r: bool)
        ensures
            r == !(self is Float32 || self is Float64),
    {
        match self {
            LogicalType::Float32 => false,
            LogicalType::Float64 => false,
            _ => true,
        }
    }

    /// How a type is written in a message.
    pub open spec fn written(self) -> Seq<char> {
        match self {
            LogicalType::Boolean => "Boolean"@,
            LogicalType::Int16 => "Int16"@,
            LogicalType::Int32 => "Int32"@,
            LogicalType::Int64 => "Int64"@,
            LogicalType::Float32 => "Float32"@,
            LogicalType::Float64 => "Float64"@,
            LogicalType::Decimal(p) => "Decimal("@ + p.written() + ")"@,
            LogicalType::Utf8 => "Utf8"@,
            LogicalType::Binary => "Binary"@,
            LogicalType::TimestampUtc => "TimestampUtc"@,
            LogicalType::TimestampLocal => "TimestampLocal"@,
            LogicalType::Date => "Date"@,
            LogicalType::Time => "Time"@,
            LogicalType::Uuid => "Uuid"@,
            LogicalType::Json => "Json"@,
        }
    }

    /// How this type is written in a message.
    #[must_use]
    pub fn written_form(&self) -> (r: String)
        ensures
            r@ == self.written(),
    {
        match self {
            LogicalType::Boolean => "Boolean".to_string(),
            LogicalType::Int16 => "Int16".to_string(),
            LogicalType::Int32 => "Int32".to_string(),
            LogicalType::Int64 => "Int64".to_string(),
            LogicalType::Float32 => "Float32".to_string(),
            LogicalType::Float64 => "Float64".to_string(),
            LogicalType::Decimal(p) => {
                let mut inner = "Precision { digits: ".to_string();
                inner.append(decimal_text(p.digits as u64).as_str());
                inner.append(", scale: ");
                inner.append(decimal_text(p.scale as u64).as_str());
                inner.append(" }");
                let mut r = "Decimal(".to_string();
                r.append(inner.as_str());
                r.append(")");
                r
            },
            LogicalType::Utf8 => "Utf8".to_string(),
            LogicalType::Binary => "Binary".to_string(),
            LogicalType::TimestampUtc => "TimestampUtc".to_string(),
            LogicalType::TimestampLocal => "TimestampLocal".to_string(),
            LogicalType::Date => "Date".to_string(),
            LogicalType::Time => "Time".to_string(),
            LogicalType::Uuid => "Uuid".to_string(),
            LogicalType::Json => "Json".to_string(),
        }
    }
}

/// A timestamp in UTC and one with no zone are never carried alike, whatever else is.
pub proof fn zones_stay_distinct(a: LogicalType, b: LogicalType)
    requires
        a is TimestampUtc,
        b.physical() == a.physical(),
    ensures
        b is TimestampUtc,
{
}

/// Whatever counts time counts microseconds, the resolution of the source: nothing is invented and
/// nothing is lost.
pub proof fn times_are_in_microseconds(logical: LogicalType)
    ensures
        match logical.physical() {
            PhysicalType::Scalar(_) => !(logical is TimestampUtc || logical is TimestampLocal || logical is Time),
            PhysicalType::Timestamp(unit, zone) => unit is Microsecond && (zone is Some <==> logical is TimestampUtc),
            PhysicalType::TimeOfDay(unit) => unit is Microsecond,
        },
{
}

/// One column.
#[derive(PartialEq, Eq, Debug)]
pub struct Field {
    /// Its name.
    pub name: String,
    /// The type of its values.
    pub logical: LogicalType,
    /// Whether a value may be missing.
    pub nullable: bool,
    /// Whether it takes part in row identity.
    pub is_key: bool,
}

impl View for Field {
    type V = (Seq<char>, LogicalType, bool, bool);

    open spec fn view(&self) -> (Seq<char>, LogicalType, bool, bool) {
        (self.name@, self.logical, self.nullable, self.is_key)
    }
}

impl Clone for Field {
    fn clone(&self) -> (r: Self)
        ensures
            r == *self,
    {
        Field { name: self.name.clone(), logical: self.logical, nullable: self.nullable, is_key: self.is_key }
    }
}

impl Field {
    /// Whether two columns are alike in every respect.
    pub fn same_as(&self, other: &Field) -> (r: bool)
        ensures
            r == (self@ == other@),
    {
        same(self.name.as_str(), other.name.as_str()) && self.logical == other.logical && self.nullable
            == other.nullable && self.is_key == other.is_key
    }
}

/// Whether a name is one of the provenance columns added to every table.
pub open spec fn is_system_column(name: Seq<char>) -> bool {
    name == "_sankhya_commit_lsn"@ || name == "_sankhya_commit_ts"@ || name == "_sankhya_op"@
}

/// Whether a name is one of the provenance columns added to every table.
pub fn names_system_column(name: &str) -> (r: bool)
    ensures
        r == is_system_column(name@),
{
    same(name, "_sankhya_commit_lsn") || same(name, "_sankhya_commit_ts") || same(name, "_sankhya_op")
}

/// A physical column: its name, how its values lie, whether one may be missing.
#[derive(PartialEq, Eq, Debug)]
pub struct PhysicalColumn {
    /// Its name.
    pub name: String,
    /// How its values lie.
    pub data: PhysicalType,
    /// Whether a value may be missing.
    pub nullable: bool,
}

impl View for PhysicalColumn {
    type V = (Seq<char>, PhysicalType, bool);

    open spec fn view(&self) -> (Seq<char>, PhysicalType, bool) {
        (self.name@, self.data, self.nullable)
    }
}

/// The provenance columns every table carries, behind its own. None is ever null: a row without
/// a position could be neither reconciled nor replayed.
pub open spec fn provenance() -> Seq<(Seq<char>, PhysicalType, bool)> {
    seq![
        ("_sankhya_commit_lsn"@, PhysicalType::Scalar(Scalar::UInt64), false),
        ("_sankhya_commit_ts"@, PhysicalType::Timestamp(Resolution::Microsecond, Some(UTC)), false),
        ("_sankhya_op"@, PhysicalType::Scalar(Scalar::Utf8), false),
    ]
}

/// The physical columns of a table: its own in order, then the provenance columns.
pub open spec fn physical_columns(fields: Seq<Field>) -> Seq<(Seq<char>, PhysicalType, bool)> {
    fields.map_values(|f: Field| (f.name@, f.logical.physical(), f.nullable)) + provenance()
}

/// The `arrow_schema` fields of physical columns.
pub open spec fn arrow_fields(columns: Seq<(Seq<char>, PhysicalType, bool)>) -> Seq<ArrowField> {
    columns.map_values(|c: (Seq<char>, PhysicalType, bool)| arrow_field(c.0, arrow_data_type(c.1), c.2))
}

/// A table's logical shape.
#[derive(PartialEq, Eq, Debug)]
pub struct LogicalSchema {
    /// Its columns, in order.
    pub fields: Vec<Field>,
}

impl View for LogicalSchema {
    type V = Seq<(Seq<char>, LogicalType, bool, bool)>;

    open spec fn view(&self) -> Seq<(Seq<char>, LogicalType, bool, bool)> {
        self.fields@.map_values(|f: Field| f@)
    }
}

impl Clone for LogicalSchema {
    fn clone(&self) -> (r: Self)
        ensures
            r.fields@ == self.fields@,
    {
        let mut fields: Vec<Field> = Vec::new();
        let mut i: usize = 0;
        while i < self.fields.len()
            invariant
                i <= self.fields@.len(),
                fields@ == self.fields@.take(i as int),
            decreases self.fields@.len() - i,
        {
            fields.push(self.fields[i].clone());
            i = i + 1;
        }
        LogicalSchema { fields }
    }
}

/// The positions of the columns that form row identity, in order.
pub open spec fn key_positions(fields: Seq<Field>) -> Seq<int>
    decreases fields.len(),
{
    if fields.len() == 0 {
        Seq::empty()
    } else if fields.last().is_key {
        key_positions(fields.drop_last()).push(fields.len() - 1)
    } else {
        key_positions(fields.drop_last())
    }
}

impl LogicalSchema {
    /// A shape of these columns.
    #[must_use]
    pub fn new(fields: Vec<Field>) -> (r: Self)
        ensures
            r.fields == fields,
    {
        LogicalSchema { fields }
    }

    /// Whether two shapes are alike: the same columns in the same order.
    pub fn same_as(&self, other: &LogicalSchema) -> (r: bool)
        ensures
            r == (self@ == other@),
    {
        if self.fields.len() != other.fields.len() {
            assert(self@.len() != other@.len());
            return false;
        }
        let mut i: usize = 0;
        while i < self.fields.len()
            invariant
                i <= self.fields@.len(),
                self.fields@.len() == other.fields@.len(),
                forall|j: int| 0 <= j < i ==> self.fields@[j]@ == other.fields@[j]@,
            decreases self.fields@.len() - i,
        {
            if !self.fields[i].same_as(&other.fields[i]) {
                assert(self@[i as int] != other@[i as int]);
                return false;
            }
            i = i + 1;
        }
        assert(self@ =~= other@);
        true
    }

    /// The columns that form row identity, in order.
    #[must_use]
    pub fn key_fields(&self) -> (r: Vec<&Field>)
        ensures
            r@.len() == key_positions(self.fields@).len(),
            forall|i: int|
                0 <= i < r@.len() ==> *#[trigger] r@[i] == self.fields@[key_positions(self.fields@)[i]],
    {
        let mut r: Vec<&Field> = Vec::new();
        let mut i: usize = 0;
        while i < self.fields.len()
            invariant
                i <= self.fields@.len(),
                r@.len() == key_positions(self.fields@.take(i as int)).len(),
                forall|k: int|
                    0 <= k < r@.len() ==> *#[trigger] r@[k] == self.fields@[key_positions(self.fields@.take(i as int))[k]],
            decreases self.fields@.len() - i,
        {
            assert(self.fields@.take(i + 1).drop_last() =~= self.fields@.take(i as int));
            if self.fields[i].is_key {
                r.push(&self.fields[i]);
            }
            i = i + 1;
        }
        assert(self.fields@.take(self.fields@.len() as int) =~= self.fields@);
        r
    }

    /// Whether rows can be identified at all. Without identity a table can only be appended to.
    #[must_use]
    pub fn has_identity(&self) -> (r: bool)
        ensures
            r == exists|i: int| 0 <= i < self.fields@.len() && #[trigger] self.fields@[i].is_key,
    {
        let mut i: usize = 0;
        while i < self.fields.len()
            invariant
                i <= self.fields@.len(),
                forall|j: int| 0 <= j < i ==> !#[trigger] self.fields@[j].is_key,
            decreases self.fields@.len() - i,
        {
            if self.fields[i].is_key {
                return true;
            }
            i = i + 1;
        }
        false
    }

    /// The physical columns: the table's own in order, then the provenance columns.
    #[must_use]
    pub fn physical(&self) -> (r: Vec<PhysicalColumn>)
        ensures
            r@.map_values(|c: PhysicalColumn| c@) == physical_columns(self.fields@),
    {
        let mut r: Vec<PhysicalColumn> = Vec::new();
        let mut i: usize = 0;
        while i < self.fields.len()
            invariant
                i <= self.fields@.len(),
                r@.len() == i,
                forall|j: int|
                    0 <= j < i ==> (#[trigger] r@[j])@ == (
                        self.fields@[j].name@,
                        self.fields@[j].logical.physical(),
                        self.fields@[j].nullable,
                    ),
            decreases self.fields@.len() - i,
        {
            let f = &self.fields[i];
            r.push(PhysicalColumn { name: f.name.clone(), data: f.logical.physical_type(), nullable: f.nullable });
            i = i + 1;
        }
        r.push(PhysicalColumn { name: "_sankhya_commit_lsn".to_string(), data: PhysicalType::Scalar(Scalar::UInt64), nullable: false });
        r.push(
            PhysicalColumn { name: "_sankhya_commit_ts".to_string(), data: PhysicalType::Timestamp(Resolution::Microsecond, Some(UTC)), nullable: false },
        );
        r.push(PhysicalColumn { name: "_sankhya_op".to_string(), data: PhysicalType::Scalar(Scalar::Utf8), nullable: false });
        assert(r@.map_values(|c: PhysicalColumn| c@) =~= physical_columns(self.fields@));
        r
    }

    /// The physical schema, as `arrow_schema` holds one: the table's own columns, then the
    /// provenance columns.
    #[must_use]
    pub fn arrow_schema(&self) -> (r: arrow_schema::Schema)
        ensures
            r == arrow_schema_of(arrow_fields(physical_columns(self.fields@))),
    {
        let columns = self.physical();
        let mut fields: Vec<ArrowField> = Vec::new();
        let mut i: usize = 0;
        while i < columns.len()
            invariant
                i <= columns@.len(),
                fields@.len() == i,
                forall|j: int|
                    0 <= j < i ==> #[trigger] fields@[j] == arrow_field(
                        columns@[j].name@,
                        arrow_data_type(columns@[j].data),
                        columns@[j].nullable,
                    ),
            decreases columns@.len() - i,
        {
            let c = &columns[i];
            fields.push(new_field(c.name.as_str(), to_arrow(c.data), c.nullable));
            i = i + 1;
        }
        assert(fields@ =~= arrow_fields(columns@.map_values(|c: PhysicalColumn| c@)));
        new_schema(fields)
    }

    /// The names of the provenance columns.
    #[must_use]
    pub fn system_column_names() -> (r: [&'static str; 3])
        ensures
            r@[0]@ == "_sankhya_commit_lsn"@,
            r@[1]@ == "_sankhya_commit_ts"@,
            r@[2]@ == "_sankhya_op"@,
    {
        ["_sankhya_commit_lsn", "_sankhya_commit_ts", "_sankhya_op"]
    }

    /// The first column that bears the name of a provenance column, if one does.
    #[must_use]
    pub fn collides_with_system_column(&self) -> (r: Option<&str>)
        ensures
            match r {
                Some(name) => exists|i: int|
                    0 <= i < self.fields@.len() && #[trigger] self.fields@[i].name@ == name@ && is_system_column(name@)
                        && forall|j: int| 0 <= j < i ==> !is_system_column(#[trigger] self.fields@[j].name@),
                None => forall|j: int|
                    0 <= j < self.fields@.len() ==> !is_system_column(#[trigger] self.fields@[j].name@),
            },
    {
        let mut i: usize = 0;
        while i < self.fields.len()
            invariant
                i <= self.fields@.len(),
                forall|j: int| 0 <= j < i ==> !is_system_column(#[trigger] self.fields@[j].name@),
            decreases self.fields@.len() - i,
        {
            if names_system_column(self.fields[i].name.as_str()) {
                return Some(self.fields[i].name.as_str());
            }
            i = i + 1;
        }
        None
    }
}

/// Whether a physical type holds a decimal number: so many units, of which ten to the power `scale` make
/// one.
pub open spec fn stores_number(physical: PhysicalType, units: int, scale: int) -> bool {
    match physical {
        PhysicalType::Scalar(Scalar::Int16) => scale == 0 && -0x8000 <= units <= 0x7fff,
        PhysicalType::Scalar(Scalar::Int32) => scale == 0 && -0x8000_0000 <= units <= 0x7fff_ffff,
        PhysicalType::Scalar(Scalar::Int64) => scale == 0 && -0x8000_0000_0000_0000 <= units
            <= 0x7fff_ffff_ffff_ffff,
        PhysicalType::Scalar(Scalar::Decimal128(digits, places)) => scale == places && -pow(10, digits as nat) < units
            < pow(10, digits as nat),
        _ => false,
    }
}

/// A type lies in a file as one that holds the same numbers, and two types lie alike only where both are
/// text.
pub proof fn storage_holds_what_types_hold(a: LogicalType, b: LogicalType)
    requires
        a matches LogicalType::Decimal(p) ==> Precision::representable(p.digits as int, p.scale as int),
        b matches LogicalType::Decimal(p) ==> Precision::representable(p.digits as int, p.scale as int),
    ensures
        forall|units: int, scale: int| #[trigger]
            crate::evolve::holds_number(a, units, scale) <==> stores_number(a.physical(), units, scale),
        a is Float32 <==> a.physical() == PhysicalType::Scalar(Scalar::Float32),
        a is Float64 <==> a.physical() == PhysicalType::Scalar(Scalar::Float64),
        a is Boolean <==> a.physical() == PhysicalType::Scalar(Scalar::Boolean),
        a is Binary <==> a.physical() == PhysicalType::Scalar(Scalar::Binary),
        a is Date <==> a.physical() == PhysicalType::Scalar(Scalar::Date32),
        a is Uuid <==> a.physical() == PhysicalType::Scalar(Scalar::FixedSizeBinary(16)),
        a is Utf8 || a is Json <==> a.physical() == PhysicalType::Scalar(Scalar::Utf8),
        a.physical() == b.physical() ==> a == b || (a is Utf8 || a is Json) && (b is Utf8 || b is Json),
{
}

/// A decimal is exact where all its digits fit in the 127 bits of a signed 128-bit value, and no further;
/// the digits behind the point are among them.
pub proof fn exact_decimals_fit(digits: nat, scale: int)
    ensures
        Precision::representable(digits as int, scale) <==> digits >= 1 && scale <= digits && pow(10, digits)
            <= 0x8000_0000_0000_0000_0000_0000_0000_0000,
{
    assert(pow(10, 38) == 100_000_000_000_000_000_000_000_000_000_000_000_000 && pow(10, 39)
        == 1_000_000_000_000_000_000_000_000_000_000_000_000_000) by {
        reveal(pow);
        reveal_with_fuel(pow, 41);
    }
    if digits <= 38 {
        lemma_pow_increases(10, digits, 38);
    } else {
        lemma_pow_increases(10, 39, digits);
    }
}

/// Every table's file holds the table's own columns first, each under its name and nullable where it is,
/// and behind them three columns of provenance that are never null: the position, the instant in UTC and
/// the operation. Those three names are the ones no column of a source may bear.
pub proof fn provenance_stands_behind(fields: Seq<Field>, i: int)
    ensures
        physical_columns(fields).len() == fields.len() + 3,
        0 <= i < fields.len() ==> physical_columns(fields)[i].0 == fields[i].name@ && physical_columns(fields)[i].1
            == fields[i].logical.physical() && physical_columns(fields)[i].2 == fields[i].nullable,
        physical_columns(fields)[fields.len() as int] == (
            "_sankhya_commit_lsn"@,
            PhysicalType::Scalar(Scalar::UInt64),
            false,
        ),
        physical_columns(fields)[fields.len() as int + 1].0 == "_sankhya_commit_ts"@,
        physical_columns(fields)[fields.len() as int + 1].1 == LogicalType::TimestampUtc.physical(),
        !physical_columns(fields)[fields.len() as int + 1].2,
        physical_columns(fields)[fields.len() as int + 2] == (
            "_sankhya_op"@,
            PhysicalType::Scalar(Scalar::Utf8),
            false,
        ),
        forall|name: Seq<char>| #[trigger]
            is_system_column(name) <==> exists|k: int|
                fields.len() <= k < fields.len() + 3 && #[trigger] physical_columns(fields)[k].0 == name,
{
    let all = physical_columns(fields);
    let n = fields.len() as int;
    assert forall|name: Seq<char>| #[trigger] is_system_column(name) implies exists|k: int|
        n <= k < n + 3 && #[trigger] all[k].0 == name by {
        assert(all[n].0 == name || all[n + 1].0 == name || all[n + 2].0 == name);
    }
}

/// The key of a shape is its key columns, in order.
pub proof fn keys_are_the_key_columns(fields: Seq<Field>)
    ensures
        crate::lists::picked_from(
            fields,
            key_positions(fields).map_values(|k: int| fields[k]),
            |f: Field, g: Field| f.is_key && g == f,
        ),
        forall|j: int| 0 <= j < key_positions(fields).len() ==> 0 <= #[trigger] key_positions(fields)[j] < fields.len(),
    decreases fields.len(),
{
    let p = |f: Field, g: Field| f.is_key && g == f;
    let made = key_positions(fields).map_values(|k: int| fields[k]);
    if fields.len() == 0 {
        crate::lists::lemma_picked_none::<Field, Field>(p);
        assert(fields =~= Seq::empty());
        assert(made =~= Seq::empty());
    } else {
        let before = fields.drop_last();
        keys_are_the_key_columns(before);
        let earlier = key_positions(before).map_values(|k: int| before[k]);
        if fields.last().is_key {
            crate::lists::lemma_picked_one(fields, earlier, p, fields.last());
            assert(made =~= earlier.push(fields.last()));
        } else {
            crate::lists::lemma_passed_over(fields, earlier, p);
            assert(made =~= earlier);
        }
    }
}

/// Every type is written by its own name, and a decimal with its digits and its scale.
pub proof fn types_are_written_by_name(logical: LogicalType)
    ensures
        logical is Boolean ==> logical.written() == "Boolean"@,
        logical is Int16 ==> logical.written() == "Int16"@,
        logical is Int32 ==> logical.written() == "Int32"@,
        logical is Int64 ==> logical.written() == "Int64"@,
        logical is Float32 ==> logical.written() == "Float32"@,
        logical is Float64 ==> logical.written() == "Float64"@,
        logical is Utf8 ==> logical.written() == "Utf8"@,
        logical is Binary ==> logical.written() == "Binary"@,
        logical is TimestampUtc ==> logical.written() == "TimestampUtc"@,
        logical is TimestampLocal ==> logical.written() == "TimestampLocal"@,
        logical is Date ==> logical.written() == "Date"@,
        logical is Time ==> logical.written() == "Time"@,
        logical is Uuid ==> logical.written() == "Uuid"@,
        logical is Json ==> logical.written() == "Json"@,
        logical matches LogicalType::Decimal(p) ==> logical.written() == "Decimal("@ + ("Precision { digits: "@
            + numerals::decimal(p.digits as nat) + ", scale: "@ + numerals::decimal(p.scale as nat) + " }"@) + ")"@,
{
}

} // verus!
