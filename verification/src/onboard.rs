//! Onboarding: everything needed to store a table, derived from its description alone.
//!
//! A table created in the source becomes queryable with no configuration step. Nothing is guessed:
//! every column maps exactly, or the whole table is refused with the column named.

use crate::datedate::{self, is_reserved};
use crate::evolve;
use crate::lists;
use crate::mapping::{self, map_source_type};
use crate::model::{self, names_system_column, Field, LogicalSchema, LogicalType};
use crate::naming::{self, NamingError, TableLocation};
use crate::numerals;
use crate::text::{self, debug_text};
use vstd::prelude::*;

verus! {

/// How much of a row's old version the source sends with a change.
#[derive(Clone, Copy, PartialEq, Eq, Debug, Structural)]
pub enum ReplicaIdentity {
    /// The primary key.
    Default,
    /// Nothing, so that no row can be identified.
    Nothing,
    /// The whole row.
    Full,
    /// The columns of an index.
    Index,
}

impl ReplicaIdentity {
    /// Whether what is sent identifies rows.
    #[must_use]
    pub fn identifies_rows(&self) -> (r: bool)
        ensures
            r == !(self is Nothing),
    {
        match self {
            ReplicaIdentity::Nothing => false,
            _ => true,
        }
    }
}

/// One column of a relation, as the stream describes it.
#[derive(PartialEq, Eq, Debug)]
pub struct ColumnDescriptor {
    /// Its name.
    pub name: String,
    /// Its type.
    pub type_oid: u32,
    /// Its type's modifier.
    pub type_modifier: i32,
    /// Whether it takes part in row identity.
    pub is_key: bool,
}

/// A relation, as the stream describes it.
#[derive(PartialEq, Eq, Debug)]
pub struct RelationDescriptor {
    /// The stream's number for it.
    pub relation_id: u32,
    /// Its schema's name.
    pub namespace: String,
    /// Its name.
    pub name: String,
    /// How rows are identified.
    pub replica_identity: ReplicaIdentity,
    /// Its columns, in order.
    pub columns: Vec<ColumnDescriptor>,
}

impl RelationDescriptor {
    /// The relation's name: schema, dot, table.
    pub open spec fn qualified(self) -> Seq<char> {
        self.namespace@ + "."@ + self.name@
    }
}

/// How a table may be written, which follows from what identifies its rows.
#[derive(Clone, Copy, PartialEq, Eq, Debug, Structural)]
pub enum WriteStrategy {
    /// Rows can be identified, so the source sends updates and deletes.
    Mergeable,
    /// No usable identity: only appends are possible.
    AppendOnly,
}

/// What a warning says.
pub enum Observation {
    /// No usable row identity in this table.
    NoRowIdentity(Seq<char>),
    /// Whole rows are sent for this table.
    FullReplicaIdentity(Seq<char>),
    /// This table lies at a path that is not its name.
    NameTransformed(Seq<char>, Seq<char>),
}

/// Something an operator should know that does not prevent onboarding.
#[derive(PartialEq, Eq, Debug)]
pub enum OnboardingWarning {
    /// The table has no usable row identity.
    NoRowIdentity {
        /// The table.
        table: String,
    },
    /// Whole rows are sent with every change, which multiplies the volume of the source's log.
    FullReplicaIdentity {
        /// The table.
        table: String,
    },
    /// The path is not the identifier.
    NameTransformed {
        /// The table.
        identifier: String,
        /// Its path.
        segment: String,
    },
}

impl View for OnboardingWarning {
    type V = Observation;

    open spec fn view(&self) -> Observation {
        match self {
            OnboardingWarning::NoRowIdentity { table } => Observation::NoRowIdentity(table@),
            OnboardingWarning::FullReplicaIdentity { table } => Observation::FullReplicaIdentity(table@),
            OnboardingWarning::NameTransformed { identifier, segment } => Observation::NameTransformed(
                identifier@,
                segment@,
            ),
        }
    }
}

impl OnboardingWarning {
    /// The message a warning is reported with.
    pub open spec fn message(self) -> Seq<char> {
        match self {
            OnboardingWarning::NoRowIdentity { table } => table@
                + " has no usable row identity, so it is onboarded append-only. The source will reject updates and deletes on it until a primary key or a replica identity is set"@,
            OnboardingWarning::FullReplicaIdentity { table } => table@
                + " sends full before-images, which multiplies write-ahead log volume and shortens the margin before a stalled consumer endangers the source"@,
            OnboardingWarning::NameTransformed { identifier, segment } => text::debug_form(identifier@)
                + " is stored at "@ + text::debug_form(segment@)
                + "; the original is recorded alongside the data so the mapping is recoverable"@,
        }
    }

    /// The warning as a sentence.
    pub fn to_string(&self) -> (r: String)
        ensures
            r@ == self.message(),
    {
        match self {
            OnboardingWarning::NoRowIdentity { table } => {
                let mut r = table.clone();
                r.append(
                    " has no usable row identity, so it is onboarded append-only. The source will reject updates and deletes on it until a primary key or a replica identity is set",
                );
                r
            },
            OnboardingWarning::FullReplicaIdentity { table } => {
                let mut r = table.clone();
                r.append(
                    " sends full before-images, which multiplies write-ahead log volume and shortens the margin before a stalled consumer endangers the source",
                );
                r
            },
            OnboardingWarning::NameTransformed { identifier, segment } => {
                let mut r = debug_text(identifier.as_str());
                r.append(" is stored at ");
                r.append(debug_text(segment.as_str()).as_str());
                r.append("; the original is recorded alongside the data so the mapping is recoverable");
                r
            },
        }
    }
}

/// Why a table cannot be onboarded.
#[derive(PartialEq, Eq, Debug)]
pub enum OnboardingError {
    /// A column has no faithful representation.
    UnmappableColumn {
        /// The table.
        table: String,
        /// The column.
        column: String,
        /// Why its type cannot be carried.
        reason: String,
    },
    /// A column bears a reserved name.
    ReservedColumn {
        /// The table.
        table: String,
        /// The column.
        column: String,
    },
    /// The table's name cannot become a path.
    Naming(NamingError),
    /// The relation has no columns.
    NoColumns {
        /// The table.
        table: String,
    },
}

impl From<NamingError> for OnboardingError {
    fn from(error: NamingError) -> (r: Self) {
        OnboardingError::Naming(error)
    }
}

impl vstd::std_specs::convert::FromSpecImpl<NamingError> for OnboardingError {
    open spec fn obeys_from_spec() -> bool {
        true
    }

    open spec fn from_spec(error: NamingError) -> Self {
        OnboardingError::Naming(error)
    }
}

impl OnboardingError {
    /// The message an error is reported with.
    pub open spec fn message(self) -> Seq<char> {
        match self {
            OnboardingError::UnmappableColumn { table, column, reason } => table@ + "."@ + column@
                + " cannot be carried faithfully: "@ + reason@
                + ". The table is not onboarded; exclude the column or change its type"@,
            OnboardingError::ReservedColumn { table, column } => table@ + "."@ + column@
                + " collides with a name SANKHYA reserves for provenance. Rename it in the source"@,
            OnboardingError::Naming(error) => error.message(),
            OnboardingError::NoColumns { table } => table@ + " has no columns"@,
        }
    }

    /// The error as a sentence.
    pub fn to_string(&self) -> (r: String)
        ensures
            r@ == self.message(),
    {
        match self {
            OnboardingError::UnmappableColumn { table, column, reason } => {
                let mut r = table.clone();
                r.append(".");
                r.append(column.as_str());
                r.append(" cannot be carried faithfully: ");
                r.append(reason.as_str());
                r.append(". The table is not onboarded; exclude the column or change its type");
                r
            },
            OnboardingError::ReservedColumn { table, column } => {
                let mut r = table.clone();
                r.append(".");
                r.append(column.as_str());
                r.append(" collides with a name SANKHYA reserves for provenance. Rename it in the source");
                r
            },
            OnboardingError::Naming(error) => error.to_string(),
            OnboardingError::NoColumns { table } => {
                let mut r = table.clone();
                r.append(" has no columns");
                r
            },
        }
    }
}

/// A table ready to receive data.
#[derive(PartialEq, Eq, Debug)]
pub struct Onboarded {
    /// Where it lives.
    pub location: TableLocation,
    /// Its shape.
    pub schema: LogicalSchema,
    /// How it may be written.
    pub strategy: WriteStrategy,
    /// What an operator should know.
    pub warnings: Vec<OnboardingWarning>,
}

/// Whether no source column may bear a name: it is a provenance column's, or it has the reserved
/// prefix. Either would hide the source's data behind a system value.
pub open spec fn is_taken(name: Seq<char>) -> bool {
    model::is_system_column(name) || text::begins_with(name, datedate::RESERVED_PREFIX@)
}

/// Whether a column prevents its table from being onboarded.
pub open spec fn is_faulty(column: ColumnDescriptor) -> bool {
    is_taken(column.name@) || mapping::carrier(column.type_oid, column.type_modifier) is None
}

/// Whether a column is the first that prevents its table from being onboarded.
pub open spec fn first_fault(columns: Seq<ColumnDescriptor>, i: int) -> bool {
    &&& 0 <= i < columns.len()
    &&& is_faulty(columns[i])
    &&& forall|j: int| 0 <= j < i ==> !is_faulty(#[trigger] columns[j])
}

/// Why a type cannot be carried, in words.
pub open spec fn type_refusal(oid: u32, modifier: i32) -> Seq<char> {
    if oid == mapping::NUMERIC {
        "source type "@ + numerals::decimal(oid as nat) + " cannot be represented exactly: "@ + mapping::decimal_refusal(
            modifier,
        )
    } else {
        "source type "@ + numerals::decimal(oid as nat) + " is not supported: "@ + mapping::refusal_reason(oid)
    }
}

/// The column a table stores for one of its source's. A key column is never null: a null would
/// identify nothing.
pub open spec fn stored_as(column: ColumnDescriptor, field: Field) -> bool {
    &&& field.name@ == column.name@
    &&& mapping::carrier(column.type_oid, column.type_modifier) == Some(field.logical)
    &&& field.nullable == !column.is_key
    &&& field.is_key == column.is_key
}

/// How a relation may be written.
pub open spec fn strategy_of(relation: RelationDescriptor) -> WriteStrategy {
    if (exists|i: int| 0 <= i < relation.columns@.len() && #[trigger] relation.columns@[i].is_key) && !(
    relation.replica_identity is Nothing) {
        WriteStrategy::Mergeable
    } else {
        WriteStrategy::AppendOnly
    }
}

/// What an operator is told about a relation.
pub open spec fn observations(relation: RelationDescriptor, location: TableLocation) -> Seq<Observation> {
    let identity = if strategy_of(relation) is AppendOnly {
        seq![Observation::NoRowIdentity(relation.qualified())]
    } else {
        Seq::empty()
    };
    let volume = if relation.replica_identity is Full {
        identity.push(Observation::FullReplicaIdentity(relation.qualified()))
    } else {
        identity
    };
    if location.schema_segment.kind() is Identity && location.table_segment.kind() is Identity {
        volume
    } else {
        volume.push(Observation::NameTransformed(relation.qualified(), location.path()))
    }
}

/// Everything needed to store a relation, derived from its description alone.
///
/// Where any column cannot be carried exactly or bears a reserved name, or the name cannot become
/// a path, the table is not onboarded at all: half a table would accept writes it could not store.
pub fn onboard_relation(relation: &RelationDescriptor) -> (r: Result<Onboarded, OnboardingError>)
    ensures
        match r {
            Ok(onboarded) => {
                &&& relation.columns@.len() > 0
                &&& onboarded.location.places(relation.namespace@, relation.name@)
                &&& onboarded.schema.fields@.len() == relation.columns@.len()
                &&& forall|i: int|
                    0 <= i < relation.columns@.len() ==> !is_taken(relation.columns@[i].name@) && stored_as(
                        #[trigger] relation.columns@[i],
                        onboarded.schema.fields@[i],
                    )
                &&& onboarded.strategy == strategy_of(*relation)
                &&& onboarded.warnings@.map_values(|w: OnboardingWarning| w@) == observations(
                    *relation,
                    onboarded.location,
                )
            },
            Err(OnboardingError::NoColumns { table }) => relation.columns@.len() == 0 && table@ == relation.qualified(),
            Err(OnboardingError::Naming(error)) => relation.columns@.len() > 0 && if naming::segment_of(
                relation.namespace@,
            ) is None {
                naming::explains(error, relation.namespace@)
            } else {
                naming::segment_of(relation.name@) is None && naming::explains(error, relation.name@)
            },
            Err(OnboardingError::ReservedColumn { table, column }) => {
                &&& naming::segment_of(relation.namespace@) is Some && naming::segment_of(relation.name@) is Some
                &&& table@ == relation.qualified()
                &&& exists|i: int| #[trigger]
                    first_fault(relation.columns@, i) && column@ == relation.columns@[i].name@ && is_taken(column@)
            },
            Err(OnboardingError::UnmappableColumn { table, column, reason }) => {
                &&& naming::segment_of(relation.namespace@) is Some && naming::segment_of(relation.name@) is Some
                &&& table@ == relation.qualified()
                &&& exists|i: int| #[trigger]
                    first_fault(relation.columns@, i) && column@ == relation.columns@[i].name@ && !is_taken(column@)
                        && reason@ == type_refusal(relation.columns@[i].type_oid, relation.columns@[i].type_modifier)
            },
        },
{
    let mut qualified = relation.namespace.clone();
    qualified.append(".");
    qualified.append(relation.name.as_str());
    if relation.columns.len() == 0 {
        return Err(OnboardingError::NoColumns { table: qualified });
    }
    let location = match TableLocation::resolve(relation.namespace.as_str(), relation.name.as_str()) {
        Ok(location) => location,
        Err(error) => {
            return Err(OnboardingError::from(error));
        },
    };
    let mut fields: Vec<Field> = Vec::new();
    let mut i: usize = 0;
    while i < relation.columns.len()
        invariant
            i <= relation.columns@.len(),
            fields@.len() == i,
            qualified@ == relation.qualified(),
            naming::segment_of(relation.namespace@) is Some,
            naming::segment_of(relation.name@) is Some,
            forall|j: int|
                0 <= j < i ==> !is_faulty(relation.columns@[j]) && stored_as(
                    #[trigger] relation.columns@[j],
                    fields@[j],
                ),
        decreases relation.columns@.len() - i,
    {
        let column = &relation.columns[i];
        if names_system_column(column.name.as_str()) || is_reserved(column.name.as_str()) {
            assert(first_fault(relation.columns@, i as int));
            return Err(OnboardingError::ReservedColumn { table: qualified, column: column.name.clone() });
        }
        match map_source_type(column.type_oid, column.type_modifier) {
            Ok(mapped) => {
                fields.push(
                    Field {
                        name: column.name.clone(),
                        logical: mapped.logical,
                        nullable: !column.is_key,
                        is_key: column.is_key,
                    },
                );
            },
            Err(error) => {
                assert(first_fault(relation.columns@, i as int));
                return Err(
                    OnboardingError::UnmappableColumn {
                        table: qualified,
                        column: column.name.clone(),
                        reason: error.to_string(),
                    },
                );
            },
        }
        i = i + 1;
    }
    let schema = LogicalSchema::new(fields);
    let keyed = schema.has_identity();
    proof {
        if exists|k: int| 0 <= k < relation.columns@.len() && #[trigger] relation.columns@[k].is_key {
            let k = choose|k: int| 0 <= k < relation.columns@.len() && #[trigger] relation.columns@[k].is_key;
            assert(stored_as(relation.columns@[k], schema.fields@[k]));
            assert(schema.fields@[k].is_key);
        }
        if keyed {
            let k = choose|k: int| 0 <= k < schema.fields@.len() && #[trigger] schema.fields@[k].is_key;
            assert(stored_as(relation.columns@[k], schema.fields@[k]));
            assert(relation.columns@[k].is_key);
        }
    }
    let strategy = if keyed && relation.replica_identity.identifies_rows() {
        WriteStrategy::Mergeable
    } else {
        WriteStrategy::AppendOnly
    };
    let mut warnings: Vec<OnboardingWarning> = Vec::new();
    if strategy == WriteStrategy::AppendOnly {
        warnings.push(OnboardingWarning::NoRowIdentity { table: qualified.clone() });
    }
    if relation.replica_identity == ReplicaIdentity::Full {
        warnings.push(OnboardingWarning::FullReplicaIdentity { table: qualified.clone() });
    }
    if !location.is_fully_relatable() {
        warnings.push(OnboardingWarning::NameTransformed { identifier: qualified, segment: location.relative_path() });
    }
    assert(warnings@.map_values(|w: OnboardingWarning| w@) =~= observations(*relation, location));
    Ok(Onboarded { location, schema, strategy, warnings })
}

/// Whether every column is exact, so that exact aggregates over the table mean something.
#[must_use]
pub fn is_fully_exact(schema: &LogicalSchema) -> (r: bool)
    ensures
        r == forall|i: int|
            0 <= i < schema.fields@.len() ==> !((#[trigger] schema.fields@[i]).logical is Float32
                || schema.fields@[i].logical is Float64),
{
    let mut i: usize = 0;
    while i < schema.fields.len()
        invariant
            i <= schema.fields@.len(),
            forall|j: int|
                0 <= j < i ==> !((#[trigger] schema.fields@[j]).logical is Float32 || schema.fields@[j].logical is Float64),
        decreases schema.fields@.len() - i,
    {
        if !schema.fields[i].logical.is_exact() {
            return false;
        }
        i = i + 1;
    }
    true
}

/// The names of the columns that are not exact, in order.
pub open spec fn inexact_names(fields: Seq<Field>) -> Seq<Seq<char>>
    decreases fields.len(),
{
    if fields.len() == 0 {
        Seq::empty()
    } else {
        let before = inexact_names(fields.drop_last());
        if fields.last().logical is Float32 || fields.last().logical is Float64 {
            before.push(fields.last().name@)
        } else {
            before
        }
    }
}

/// The columns that are not exact, in order.
#[must_use]
pub fn inexact_columns(schema: &LogicalSchema) -> (r: Vec<&str>)
    ensures
        r@.map_values(|s: &str| s@) == inexact_names(schema.fields@),
{
    let mut r: Vec<&str> = Vec::new();
    let mut i: usize = 0;
    while i < schema.fields.len()
        invariant
            i <= schema.fields@.len(),
            r@.map_values(|s: &str| s@) == inexact_names(schema.fields@.take(i as int)),
        decreases schema.fields@.len() - i,
    {
        assert(schema.fields@.take(i + 1).drop_last() =~= schema.fields@.take(i as int));
        if !schema.fields[i].logical.is_exact() {
            let ghost was = r@;
            r.push(schema.fields[i].name.as_str());
            assert(r@.map_values(|s: &str| s@) =~= was.map_values(|s: &str| s@).push(schema.fields@[i as int].name@));
        }
        i = i + 1;
    }
    assert(schema.fields@.take(schema.fields@.len() as int) =~= schema.fields@);
    r
}

/// Whether values of a type may be stored out of line.
#[must_use]
pub fn may_be_stored_out_of_line(logical: &LogicalType) -> (r: bool)
    ensures
        r == (logical is Utf8 || logical is Binary || logical is Json),
{
    match logical {
        LogicalType::Utf8 => true,
        LogicalType::Binary => true,
        LogicalType::Json => true,
        _ => false,
    }
}

/// A table is append-only exactly where the operator is told that it has no row identity.
pub proof fn append_only_is_announced(relation: RelationDescriptor, location: TableLocation)
    ensures
        strategy_of(relation) is AppendOnly <==> observations(relation, location).contains(
            Observation::NoRowIdentity(relation.qualified()),
        ),
{
    if strategy_of(relation) is AppendOnly {
        assert(observations(relation, location)[0] == Observation::NoRowIdentity(relation.qualified()));
    }
}

/// A table is onboarded column for column: each under its own name and with exactly its source's values,
/// null only where it is no part of row identity, and never under a name of the system's own.
pub proof fn onboarded_columns_hold_their_source(column: ColumnDescriptor, field: Field)
    requires
        stored_as(column, field),
    ensures
        field.name@ == column.name@,
        field.is_key == column.is_key,
        field.is_key ==> !field.nullable,
        !field.is_key ==> field.nullable,
        column.type_oid == 21 ==> forall|n: int| #[trigger]
            evolve::holds_number(field.logical, n, 0) <==> -0x8000 <= n <= 0x7fff,
        column.type_oid == 23 ==> forall|n: int| #[trigger]
            evolve::holds_number(field.logical, n, 0) <==> -0x8000_0000 <= n <= 0x7fff_ffff,
        column.type_oid == 20 ==> forall|n: int| #[trigger]
            evolve::holds_number(field.logical, n, 0) <==> -0x8000_0000_0000_0000 <= n <= 0x7fff_ffff_ffff_ffff,
{
    mapping::carriers_hold_their_source(column.type_oid, column.type_modifier);
}

/// A table can be merged into exactly where its source identifies rows: some column is a key, and what is
/// sent with a change is not nothing. Every other is append-only.
pub proof fn merging_takes_an_identity(relation: RelationDescriptor)
    ensures
        strategy_of(relation) is Mergeable ==> exists|i: int|
            0 <= i < relation.columns@.len() && #[trigger] relation.columns@[i].is_key,
        relation.replica_identity is Nothing ==> strategy_of(relation) is AppendOnly,
        (forall|i: int| 0 <= i < relation.columns@.len() ==> !#[trigger] relation.columns@[i].is_key) ==> strategy_of(
            relation,
        ) is AppendOnly,
        forall|i: int|
            0 <= i < relation.columns@.len() && #[trigger] relation.columns@[i].is_key && (relation.replica_identity
                is Default || relation.replica_identity is Full || relation.replica_identity is Index) ==> strategy_of(
                relation,
            ) is Mergeable,
{
}

/// What an operator is told of a table is what there is to tell: that rows cannot be identified, that whole
/// rows are sent, and that its path is not its name; each where it is so and only there.
pub proof fn operators_are_told_what_is_so(relation: RelationDescriptor, location: TableLocation)
    ensures
        ({
            let told = observations(relation, location);
            &&& forall|k: int|
                0 <= k < told.len() ==> match #[trigger] told[k] {
                    Observation::NoRowIdentity(name) => name == relation.qualified() && strategy_of(relation)
                        is AppendOnly,
                    Observation::FullReplicaIdentity(name) => name == relation.qualified()
                        && relation.replica_identity is Full,
                    Observation::NameTransformed(name, path) => name == relation.qualified() && path
                        == location.path() && !location.relatable(),
                }
            &&& relation.replica_identity is Full ==> told.contains(
                Observation::FullReplicaIdentity(relation.qualified()),
            )
            &&& !location.relatable() ==> told.contains(
                Observation::NameTransformed(relation.qualified(), location.path()),
            )
            &&& told.no_duplicates()
        }),
{
    let told = observations(relation, location);
    let full = Observation::FullReplicaIdentity(relation.qualified());
    if relation.replica_identity is Full {
        if strategy_of(relation) is AppendOnly {
            assert(told[1] == full);
        } else {
            assert(told[0] == full);
        }
    }
    if !location.relatable() {
        assert(told[told.len() - 1] == Observation::NameTransformed(relation.qualified(), location.path()));
    }
}

/// The names that no column of a source may bear are those of provenance and every one with the prefix
/// `sank_`; no other is refused for its name.
pub proof fn taken_names_are_the_systems_own(name: Seq<char>)
    ensures
        is_taken(name) <==> name == "_sankhya_commit_lsn"@ || name == "_sankhya_commit_ts"@ || name == "_sankhya_op"@ || (
        name.len() >= 5 && name.take(5) == "sank_"@),
{
    reveal_strlit("sank_");
    if name.len() >= 5 {
        assert(name.take(5) =~= name.subrange(0, 5));
    }
}

/// The columns named as inexact are the floating-point ones, in order.
pub proof fn inexact_columns_are_the_floats(fields: Seq<Field>)
    ensures
        lists::picked_from(
            fields,
            inexact_names(fields),
            |f: Field, s: Seq<char>| s == f.name@ && evolve::is_floating(f.logical),
        ),
    decreases fields.len(),
{
    let p = |f: Field, s: Seq<char>| s == f.name@ && evolve::is_floating(f.logical);
    if fields.len() == 0 {
        lists::lemma_picked_none::<Field, Seq<char>>(p);
        assert(fields =~= Seq::empty());
    } else {
        inexact_columns_are_the_floats(fields.drop_last());
        let earlier = inexact_names(fields.drop_last());
        if evolve::is_floating(fields.last().logical) {
            lists::lemma_picked_one(fields, earlier, p, fields.last().name@);
        } else {
            lists::lemma_passed_over(fields, earlier, p);
        }
    }
}

/// A number without exact bounds is refused for not being exact, and any other type for not being supported.
pub proof fn columns_are_refused_for_their_type(oid: u32, modifier: i32)
    ensures
        oid == 1700 ==> type_refusal(oid, modifier) == "source type "@ + numerals::decimal(oid as nat) + (
        " cannot be represented exactly: "@ + mapping::decimal_refusal(modifier)),
        oid != 1700 ==> type_refusal(oid, modifier) == "source type "@ + numerals::decimal(oid as nat) + (
        " is not supported: "@ + mapping::refusal_reason(oid)),
{
    assert(type_refusal(1700, modifier) =~= "source type "@ + numerals::decimal(1700) + (
    " cannot be represented exactly: "@ + mapping::decimal_refusal(modifier)));
    if oid != 1700 {
        assert(type_refusal(oid, modifier) =~= "source type "@ + numerals::decimal(oid as nat) + (" is not supported: "@
            + mapping::refusal_reason(oid)));
    }
}

/// The fault of a table is its first column that has a taken name or that no type carries.
pub proof fn the_first_faulty_column_is_told(columns: Seq<ColumnDescriptor>, i: int)
    ensures
        first_fault(columns, i) <==> lists::first_at(
            columns,
            i,
            |c: ColumnDescriptor| is_taken(c.name@) || mapping::carrier(c.type_oid, c.type_modifier) is None,
        ),
{
    let p = |c: ColumnDescriptor| is_taken(c.name@) || mapping::carrier(c.type_oid, c.type_modifier) is None;
    if first_fault(columns, i) {
        assert forall|k: int| 0 <= k < i implies !p(#[trigger] columns[k]) by {
            assert(!is_faulty(columns[k]));
        }
    }
    if lists::first_at(columns, i, p) {
        assert forall|k: int| 0 <= k < i implies !is_faulty(#[trigger] columns[k]) by {
            assert(!p(columns[k]));
        }
    }
}

/// A relation goes by its schema and its own name, with a dot between.
pub proof fn relations_go_by_both_names(relation: RelationDescriptor)
    ensures
        relation.qualified() == relation.namespace@ + seq!['.'] + relation.name@,
{
    reveal_strlit(".");
    assert("."@ =~= seq!['.']);
}

/// What cannot be onboarded is told by its table, and by its column where it is one column.
pub proof fn faults_are_told_of_their_column(error: OnboardingError)
    ensures
        error matches OnboardingError::UnmappableColumn { table, column, .. } ==> text::begins_with(
            error.message(),
            table@ + seq!['.'] + column@ + " cannot be carried faithfully: "@,
        ),
        error matches OnboardingError::ReservedColumn { table, column } ==> text::begins_with(
            error.message(),
            table@ + seq!['.'] + column@ + " collides with a name"@,
        ),
        error matches OnboardingError::NoColumns { table } ==> error.message() == table@ + " has no columns"@,
{
    reveal_strlit(".");
    assert("."@ =~= seq!['.']);
    match error {
        OnboardingError::UnmappableColumn { table, column, reason } => {
            let front = table@ + seq!['.'] + column@ + " cannot be carried faithfully: "@;
            assert(error.message().subrange(0, front.len() as int) =~= front);
        },
        OnboardingError::ReservedColumn { table, column } => {
            reveal_strlit(" collides with a name");
            reveal_strlit(" collides with a name SANKHYA reserves for provenance. Rename it in the source");
            let said = " collides with a name SANKHYA reserves for provenance. Rename it in the source"@;
            let short = " collides with a name"@;
            assert(said.take(21) =~= short);
            let front = table@ + seq!['.'] + column@ + short;
            let named = table@ + seq!['.'] + column@;
            assert(error.message() == named + said);
            assert(error.message().subrange(0, front.len() as int) =~= named + said.take(21));
        },
        _ => {},
    }
}

} // verus!
