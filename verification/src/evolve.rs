//! Schema evolution: which changes of shape apply by themselves and which need a person.
//!
//! Additive and widening changes apply automatically, because their intent is plain. Everything
//! else quarantines the table: a dropped column, a rename, a narrowing change and a reordering
//! each have more than one reading, and guessing wrong loses data quietly.

use crate::lists;
use crate::model::{Field, LogicalSchema, LogicalType, Precision};
use crate::text::{self, join, same};
use vstd::arithmetic::power::*;
use vstd::prelude::*;

verus! {

/// What a change of shape amounts to.
#[derive(PartialEq, Eq, Debug)]
pub enum Compatibility {
    /// Nothing changed.
    Unchanged,
    /// Safe to apply without an operator.
    Compatible {
        /// What changed.
        changes: Vec<SchemaChange>,
    },
    /// Needs a decision nobody can take on the operator's behalf.
    Incompatible {
        /// Why.
        reason: String,
        /// What changed.
        changes: Vec<SchemaChange>,
    },
}

impl Compatibility {
    /// Whether the table may go on being published.
    #[must_use]
    pub fn may_continue(&self) -> (r: bool)
        ensures
            r == !(self is Incompatible),
    {
        match self {
            Compatibility::Incompatible { .. } => false,
            _ => true,
        }
    }
}

/// One difference between two shapes.
#[derive(PartialEq, Eq, Debug)]
pub enum SchemaChange {
    /// A new column.
    ColumnAdded {
        /// Its name.
        name: String,
        /// Its type.
        logical: LogicalType,
    },
    /// A column widened so that nothing is lost.
    ColumnWidened {
        /// Its name.
        name: String,
        /// The type it had.
        from: LogicalType,
        /// The type it has.
        to: LogicalType,
    },
    /// A column became nullable.
    ColumnRelaxed {
        /// Its name.
        name: String,
    },
    /// A column disappeared.
    ColumnDropped {
        /// Its name.
        name: String,
    },
    /// A column changed type in a way that may not round-trip.
    ColumnRetyped {
        /// Its name.
        name: String,
        /// The type it had.
        from: LogicalType,
        /// The type it has.
        to: LogicalType,
    },
    /// A column became mandatory.
    ColumnTightened {
        /// Its name.
        name: String,
    },
    /// Row identity changed.
    IdentityChanged,
    /// Columns changed places, which cannot be told from a pair of renames.
    ColumnsReordered,
}

impl SchemaChange {
    /// Whether a change needs an operator's decision.
    pub open spec fn blocks(self) -> bool {
        match self {
            SchemaChange::ColumnAdded { .. } => false,
            SchemaChange::ColumnWidened { .. } => false,
            SchemaChange::ColumnRelaxed { .. } => false,
            _ => true,
        }
    }

    /// Whether this change needs an operator's decision.
    pub fn needs_decision(&self) -> (r: bool)
        ensures
            r == self.blocks(),
    {
        match self {
            SchemaChange::ColumnAdded { .. } => false,
            SchemaChange::ColumnWidened { .. } => false,
            SchemaChange::ColumnRelaxed { .. } => false,
            _ => true,
        }
    }

    /// The words a change is reported with.
    pub open spec fn message(self) -> Seq<char> {
        match self {
            SchemaChange::ColumnAdded { name, .. } => "column "@ + name@ + " added"@,
            SchemaChange::ColumnWidened { name, from, to } => "column "@ + name@ + " widened from "@ + from.written()
                + " to "@ + to.written(),
            SchemaChange::ColumnRelaxed { name } => "column "@ + name@ + " became nullable"@,
            SchemaChange::ColumnDropped { name } => "column "@ + name@ + " dropped"@,
            SchemaChange::ColumnRetyped { name, from, to } => "column "@ + name@ + " retyped from "@ + from.written()
                + " to "@ + to.written(),
            SchemaChange::ColumnTightened { name } => "column "@ + name@ + " became mandatory"@,
            SchemaChange::IdentityChanged => "row identity changed"@,
            SchemaChange::ColumnsReordered => "columns reordered"@,
        }
    }

    /// The change in words.
    pub fn to_string(&self) -> (r: String)
        ensures
            r@ == self.message(),
    {
        let mut r = "column ".to_string();
        match self {
            SchemaChange::ColumnAdded { name, .. } => {
                r.append(name.as_str());
                r.append(" added");
            },
            SchemaChange::ColumnWidened { name, from, to } => {
                r.append(name.as_str());
                r.append(" widened from ");
                r.append(from.written_form().as_str());
                r.append(" to ");
                r.append(to.written_form().as_str());
            },
            SchemaChange::ColumnRelaxed { name } => {
                r.append(name.as_str());
                r.append(" became nullable");
            },
            SchemaChange::ColumnDropped { name } => {
                r.append(name.as_str());
                r.append(" dropped");
            },
            SchemaChange::ColumnRetyped { name, from, to } => {
                r.append(name.as_str());
                r.append(" retyped from ");
                r.append(from.written_form().as_str());
                r.append(" to ");
                r.append(to.written_form().as_str());
            },
            SchemaChange::ColumnTightened { name } => {
                r.append(name.as_str());
                r.append(" became mandatory");
            },
            SchemaChange::IdentityChanged => {
                return "row identity changed".to_string();
            },
            SchemaChange::ColumnsReordered => {
                return "columns reordered".to_string();
            },
        }
        r
    }
}

/// Whether every value of one type survives in another. A decimal only gains room: another scale
/// would change what every stored value means.
pub open spec fn widening(from: LogicalType, to: LogicalType) -> bool {
    match (from, to) {
        (LogicalType::Int16, LogicalType::Int32) => true,
        (LogicalType::Int16, LogicalType::Int64) => true,
        (LogicalType::Int32, LogicalType::Int64) => true,
        (LogicalType::Float32, LogicalType::Float64) => true,
        (LogicalType::Decimal(a), LogicalType::Decimal(b)) => a.scale == b.scale && b.digits >= a.digits,
        _ => false,
    }
}

fn widens(from: &LogicalType, to: &LogicalType) -> (r: bool)
    ensures
        r == widening(*from, *to),
{
    match (from, to) {
        (LogicalType::Int16, LogicalType::Int32) => true,
        (LogicalType::Int16, LogicalType::Int64) => true,
        (LogicalType::Int32, LogicalType::Int64) => true,
        (LogicalType::Float32, LogicalType::Float64) => true,
        (LogicalType::Decimal(a), LogicalType::Decimal(b)) => a.scale == b.scale && b.digits >= a.digits,
        _ => false,
    }
}

/// The first column of a name.
pub open spec fn named(fields: Seq<Field>, name: Seq<char>) -> Option<Field>
    decreases fields.len(),
{
    if fields.len() == 0 {
        None
    } else if fields[0].name@ == name {
        Some(fields[0])
    } else {
        named(fields.drop_first(), name)
    }
}

/// The columns that disappeared, in the order they stood.
pub open spec fn drops(current: Seq<Field>, incoming: Seq<Field>) -> Seq<SchemaChange>
    decreases current.len(),
{
    if current.len() == 0 {
        Seq::empty()
    } else {
        let before = drops(current.drop_last(), incoming);
        let name = current.last().name;
        if named(incoming, name@) is None {
            before.push(SchemaChange::ColumnDropped { name })
        } else {
            before
        }
    }
}

/// What became of one column, apart from row identity: `existing` is what it was, if it was there.
pub open spec fn field_changes(existing: Option<Field>, field: Field) -> Seq<SchemaChange> {
    match existing {
        None => seq![SchemaChange::ColumnAdded { name: field.name, logical: field.logical }],
        Some(was) => {
            let typed = if was.logical == field.logical {
                Seq::empty()
            } else if widening(was.logical, field.logical) {
                seq![SchemaChange::ColumnWidened { name: field.name, from: was.logical, to: field.logical }]
            } else {
                seq![SchemaChange::ColumnRetyped { name: field.name, from: was.logical, to: field.logical }]
            };
            if was.nullable == field.nullable {
                typed
            } else if field.nullable {
                typed.push(SchemaChange::ColumnRelaxed { name: field.name })
            } else {
                typed.push(SchemaChange::ColumnTightened { name: field.name })
            }
        },
    }
}

/// Whether a column that was there joined or left the row identity.
pub open spec fn rekeyed(existing: Option<Field>, field: Field) -> bool {
    existing matches Some(was) && was.is_key != field.is_key
}

/// Whether any column that was there joined or left the row identity.
pub open spec fn identity_changed(current: Seq<Field>, incoming: Seq<Field>) -> bool {
    exists|i: int|
        0 <= i < incoming.len() && rekeyed(named(current, #[trigger] incoming[i].name@), incoming[i])
}

/// The columns that appeared or changed, in the order they stand now. A change of row identity is
/// said once, where it is first seen.
pub open spec fn edits(current: Seq<Field>, incoming: Seq<Field>) -> Seq<SchemaChange>
    decreases incoming.len(),
{
    if incoming.len() == 0 {
        Seq::empty()
    } else {
        let before = incoming.drop_last();
        let field = incoming.last();
        let existing = named(current, field.name@);
        let so_far = edits(current, before) + field_changes(existing, field);
        if rekeyed(existing, field) && !identity_changed(current, before) {
            so_far.push(SchemaChange::IdentityChanged)
        } else {
            so_far
        }
    }
}

/// The names of one shape's columns that another has too, in order. A name that is repeated counts
/// once, where it first stands.
pub open spec fn kept(fields: Seq<Field>, other: Seq<Field>) -> Seq<Seq<char>>
    decreases fields.len(),
{
    if fields.len() == 0 {
        Seq::empty()
    } else {
        let before = kept(fields.drop_last(), other);
        let name = fields.last().name@;
        if named(other, name) is None || before.contains(name) {
            before
        } else {
            before.push(name)
        }
    }
}

/// Every difference between two shapes: what disappeared, what appeared or changed, and last
/// whether the columns both have stand in another order.
pub open spec fn differences(current: Seq<Field>, incoming: Seq<Field>) -> Seq<SchemaChange> {
    let changed = drops(current, incoming) + edits(current, incoming);
    if kept(current, incoming) == kept(incoming, current) {
        changed
    } else {
        changed.push(SchemaChange::ColumnsReordered)
    }
}

/// Whether any of these changes needs an operator's decision.
pub open spec fn any_blocks(changes: Seq<SchemaChange>) -> bool {
    exists|i: int| 0 <= i < changes.len() && (#[trigger] changes[i]).blocks()
}

/// The words of the changes that need a decision, in order.
pub open spec fn objections(changes: Seq<SchemaChange>) -> Seq<Seq<char>>
    decreases changes.len(),
{
    if changes.len() == 0 {
        Seq::empty()
    } else if changes.last().blocks() {
        objections(changes.drop_last()).push(changes.last().message())
    } else {
        objections(changes.drop_last())
    }
}

/// Why a table is quarantined.
pub open spec fn quarantine_reason(changes: Seq<SchemaChange>) -> Seq<char> {
    text::joined(objections(changes), "; "@)
        + ". The intent behind such a change cannot be inferred from the stream, so the table is quarantined rather than guessed at. Its last consistent version remains queryable; resolve with an explicit operation"@
}

fn find<'a>(fields: &'a Vec<Field>, name: &str) -> (r: Option<&'a Field>)
    ensures
        match r {
            Some(field) => named(fields@, name@) == Some(*field),
            None => named(fields@, name@) is None,
        },
{
    let mut i: usize = 0;
    assert(fields@.skip(0) =~= fields@);
    while i < fields.len()
        invariant
            i <= fields@.len(),
            named(fields@, name@) == named(fields@.skip(i as int), name@),
        decreases fields@.len() - i,
    {
        if same(fields[i].name.as_str(), name) {
            return Some(&fields[i]);
        }
        assert(fields@.skip(i as int).drop_first() =~= fields@.skip(i + 1));
        i = i + 1;
    }
    None
}

fn is_among(list: &Vec<String>, name: &str) -> (r: bool)
    ensures
        r == text::views(list@).contains(name@),
{
    let ghost all = text::views(list@);
    let mut i: usize = 0;
    while i < list.len()
        invariant
            i <= list@.len(),
            all == text::views(list@),
            forall|k: int| 0 <= k < i ==> #[trigger] all[k] != name@,
        decreases list@.len() - i,
    {
        assert(all[i as int] == list@[i as int]@);
        if same(list[i].as_str(), name) {
            return true;
        }
        i = i + 1;
    }
    false
}

fn kept_names(fields: &Vec<Field>, other: &Vec<Field>) -> (r: Vec<String>)
    ensures
        text::views(r@) == kept(fields@, other@),
{
    let mut r: Vec<String> = Vec::new();
    let mut i: usize = 0;
    while i < fields.len()
        invariant
            i <= fields@.len(),
            text::views(r@) == kept(fields@.take(i as int), other@),
        decreases fields@.len() - i,
    {
        assert(fields@.take(i + 1).drop_last() =~= fields@.take(i as int));
        if find(other, fields[i].name.as_str()).is_some() && !is_among(&r, fields[i].name.as_str()) {
            let ghost was = r@;
            r.push(fields[i].name.clone());
            assert(text::views(r@) =~= text::views(was).push(fields@[i as int].name@));
        }
        i = i + 1;
    }
    assert(fields@.take(fields@.len() as int) =~= fields@);
    r
}

/// Compare two shapes and decide what to do about the difference.
///
/// Columns are matched by name, because the stream carries no identifier of a column that outlives
/// its name.
#[must_use]
pub fn classify_change(current: &LogicalSchema, incoming: &LogicalSchema) -> (r: Compatibility)
    ensures
        match r {
            Compatibility::Unchanged => current@ == incoming@,
            Compatibility::Compatible { changes } => current@ != incoming@ && changes@ == differences(
                current.fields@,
                incoming.fields@,
            ) && !any_blocks(changes@),
            Compatibility::Incompatible { reason, changes } => current@ != incoming@ && changes@ == differences(
                current.fields@,
                incoming.fields@,
            ) && any_blocks(changes@) && reason@ == quarantine_reason(changes@),
        },
{
    if current.same_as(incoming) {
        return Compatibility::Unchanged;
    }
    let cur = &current.fields;
    let inc = &incoming.fields;
    let mut changes: Vec<SchemaChange> = Vec::new();
    let mut i: usize = 0;
    while i < cur.len()
        invariant
            i <= cur@.len(),
            changes@ == drops(cur@.take(i as int), inc@),
        decreases cur@.len() - i,
    {
        assert(cur@.take(i + 1).drop_last() =~= cur@.take(i as int));
        if find(inc, cur[i].name.as_str()).is_none() {
            changes.push(SchemaChange::ColumnDropped { name: cur[i].name.clone() });
        }
        i = i + 1;
    }
    assert(cur@.take(cur@.len() as int) =~= cur@);

    let ghost dropped = changes@;
    let mut rekey_seen = false;
    let mut j: usize = 0;
    assert(dropped + edits(cur@, inc@.take(0)) =~= dropped);
    while j < inc.len()
        invariant
            j <= inc@.len(),
            changes@ == dropped + edits(cur@, inc@.take(j as int)),
            rekey_seen == identity_changed(cur@, inc@.take(j as int)),
        decreases inc@.len() - j,
    {
        let ghost before = inc@.take(j as int);
        let ghost upto = inc@.take(j + 1);
        assert(upto.drop_last() =~= before);
        assert(upto.last() == inc@[j as int]);
        let field = &inc[j];
        let found = find(cur, field.name.as_str());
        let ghost existing = named(cur@, field.name@);
        match found {
            None => {
                changes.push(SchemaChange::ColumnAdded { name: field.name.clone(), logical: field.logical });
            },
            Some(was) => {
                if was.logical != field.logical {
                    if widens(&was.logical, &field.logical) {
                        changes.push(
                            SchemaChange::ColumnWidened {
                                name: field.name.clone(),
                                from: was.logical,
                                to: field.logical,
                            },
                        );
                    } else {
                        changes.push(
                            SchemaChange::ColumnRetyped {
                                name: field.name.clone(),
                                from: was.logical,
                                to: field.logical,
                            },
                        );
                    }
                }
                if was.nullable != field.nullable {
                    if field.nullable {
                        changes.push(SchemaChange::ColumnRelaxed { name: field.name.clone() });
                    } else {
                        changes.push(SchemaChange::ColumnTightened { name: field.name.clone() });
                    }
                }
            },
        }
        assert(changes@ =~= dropped + (edits(cur@, before) + field_changes(existing, *field)));
        let rekeyed_here = match found {
            Some(was) => was.is_key != field.is_key,
            None => false,
        };
        assert(rekeyed_here == rekeyed(existing, *field));
        if rekeyed_here && !rekey_seen {
            changes.push(SchemaChange::IdentityChanged);
        }
        assert(changes@ =~= dropped + edits(cur@, upto));
        proof {
            if identity_changed(cur@, before) {
                let k = choose|k: int|
                    0 <= k < before.len() && rekeyed(named(cur@, #[trigger] before[k].name@), before[k]);
                assert(upto[k] == before[k]);
                assert(rekeyed(named(cur@, upto[k].name@), upto[k]));
            }
            if rekeyed(existing, *field) {
                assert(rekeyed(named(cur@, upto[j as int].name@), upto[j as int]));
            }
            if identity_changed(cur@, upto) {
                let k = choose|k: int| 0 <= k < upto.len() && rekeyed(named(cur@, #[trigger] upto[k].name@), upto[k]);
                if k < j {
                    assert(before[k] == upto[k]);
                    assert(rekeyed(named(cur@, before[k].name@), before[k]));
                }
            }
        }
        rekey_seen = rekey_seen || rekeyed_here;
        j = j + 1;
    }
    assert(inc@.take(inc@.len() as int) =~= inc@);

    if !text::same_list(&kept_names(cur, inc), &kept_names(inc, cur)) {
        changes.push(SchemaChange::ColumnsReordered);
    }
    assert(changes@ =~= differences(cur@, inc@));

    let mut reasons: Vec<String> = Vec::new();
    let mut k: usize = 0;
    while k < changes.len()
        invariant
            k <= changes@.len(),
            text::views(reasons@) == objections(changes@.take(k as int)),
            reasons@.len() == 0 <==> !any_blocks(changes@.take(k as int)),
        decreases changes@.len() - k,
    {
        let ghost before = changes@.take(k as int);
        let ghost upto = changes@.take(k + 1);
        assert(upto.drop_last() =~= before);
        let ghost was = reasons@;
        if changes[k].needs_decision() {
            reasons.push(changes[k].to_string());
            assert(text::views(reasons@) =~= text::views(was).push(changes@[k as int].message()));
            assert(upto[k as int].blocks());
        }
        proof {
            if any_blocks(before) {
                let m = choose|m: int| 0 <= m < before.len() && (#[trigger] before[m]).blocks();
                assert(upto[m].blocks());
            }
            if any_blocks(upto) {
                let m = choose|m: int| 0 <= m < upto.len() && (#[trigger] upto[m]).blocks();
                if m < k {
                    assert(before[m].blocks());
                }
            }
        }
        k = k + 1;
    }
    assert(changes@.take(changes@.len() as int) =~= changes@);
    if reasons.len() == 0 {
        return Compatibility::Compatible { changes };
    }
    let mut reason = join(&reasons, "; ");
    reason.append(
        ". The intent behind such a change cannot be inferred from the stream, so the table is quarantined rather than guessed at. Its last consistent version remains queryable; resolve with an explicit operation",
    );
    Compatibility::Incompatible { reason, changes }
}

/// Whether a change of shape needs an operator's decision.
pub open spec fn quarantined(current: LogicalSchema, incoming: LogicalSchema) -> bool {
    current@ != incoming@ && any_blocks(differences(current.fields@, incoming.fields@))
}

/// The shape a table has after a compatible change, or `None` where the change is not compatible
/// and the table must be quarantined.
#[must_use]
pub fn apply_compatible(current: &LogicalSchema, incoming: &LogicalSchema) -> (r: Option<LogicalSchema>)
    ensures
        match r {
            Some(shape) => !quarantined(*current, *incoming) && shape@ == incoming@,
            None => quarantined(*current, *incoming),
        },
{
    match classify_change(current, incoming) {
        Compatibility::Unchanged => Some(current.clone()),
        Compatibility::Compatible { .. } => Some(incoming.clone()),
        Compatibility::Incompatible { .. } => None,
    }
}

/// A decimal with so many digits more and the same scale, where it is still exact.
pub open spec fn more_digits(from: Precision, extra_digits: u8) -> Option<Precision> {
    if Precision::representable(from.digits + extra_digits, from.scale as int) {
        Some(Precision { digits: (from.digits + extra_digits) as u8, scale: from.scale })
    } else {
        None
    }
}

/// A decimal with more room and the same scale, or `None` where it would no longer be exact.
#[must_use]
pub fn widened_decimal(from: Precision, extra_digits: u8) -> (r: Option<Precision>)
    ensures
        r == more_digits(from, extra_digits),
{
    Precision::new(from.digits.saturating_add(extra_digits), from.scale)
}

/// Whether no two columns of a shape share a name.
pub open spec fn distinct_names(fields: Seq<Field>) -> bool {
    forall|i: int, j: int|
        0 <= i < fields.len() && 0 <= j < fields.len() && (#[trigger] fields[i]).name@ == (#[trigger] fields[j]).name@
            ==> i == j
}

/// The first column of a name is found, where there is one.
proof fn lemma_named(fields: Seq<Field>, name: Seq<char>)
    ensures
        match named(fields, name) {
            Some(f) => f.name@ == name && exists|i: int| 0 <= i < fields.len() && #[trigger] fields[i] == f,
            None => forall|i: int| 0 <= i < fields.len() ==> (#[trigger] fields[i]).name@ != name,
        },
    decreases fields.len(),
{
    if fields.len() > 0 && fields[0].name@ != name {
        let rest = fields.drop_first();
        lemma_named(rest, name);
        match named(rest, name) {
            Some(f) => {
                let i = choose|i: int| 0 <= i < rest.len() && #[trigger] rest[i] == f;
                assert(fields[i + 1] == f);
            },
            None => {
                assert forall|i: int| 0 <= i < fields.len() implies (#[trigger] fields[i]).name@ != name by {
                    if i > 0 {
                        assert(rest[i - 1] == fields[i]);
                    }
                }
            },
        }
    } else if fields.len() > 0 {
        assert(fields[0] == fields[0]);
    }
}

/// A column that is gone is reported as dropped.
proof fn lemma_drop_reported(current: Seq<Field>, incoming: Seq<Field>, i: int)
    requires
        0 <= i < current.len(),
        named(incoming, current[i].name@) is None,
    ensures
        any_blocks(drops(current, incoming)),
    decreases current.len(),
{
    let all = drops(current, incoming);
    let before = drops(current.drop_last(), incoming);
    if i == current.len() - 1 {
        assert(all[before.len() as int].blocks());
    } else {
        lemma_drop_reported(current.drop_last(), incoming, i);
        let k = choose|k: int| 0 <= k < before.len() && (#[trigger] before[k]).blocks();
        assert(all[k].blocks());
    }
}

/// What became of a column is reported among the edits.
proof fn lemma_edit_reported(current: Seq<Field>, incoming: Seq<Field>, j: int, change: SchemaChange)
    requires
        0 <= j < incoming.len(),
        change.blocks(),
        field_changes(named(current, incoming[j].name@), incoming[j]).contains(change) || rekeyed(
            named(current, incoming[j].name@),
            incoming[j],
        ),
    ensures
        any_blocks(edits(current, incoming)),
    decreases incoming.len(),
{
    let before = incoming.drop_last();
    let earlier = edits(current, before);
    let field = incoming.last();
    let existing = named(current, field.name@);
    let here = field_changes(existing, field);
    let all = edits(current, incoming);
    if j == incoming.len() - 1 {
        if here.contains(change) {
            let k = choose|k: int| 0 <= k < here.len() && here[k] == change;
            assert(all[earlier.len() + k] == change);
        } else if identity_changed(current, before) {
            let k = choose|k: int|
                0 <= k < before.len() && rekeyed(named(current, #[trigger] before[k].name@), before[k]);
            lemma_edit_reported(current, before, k, SchemaChange::IdentityChanged);
            let m = choose|m: int| 0 <= m < earlier.len() && (#[trigger] earlier[m]).blocks();
            assert(all[m].blocks());
        } else {
            assert(all.last() == SchemaChange::IdentityChanged);
            assert(all[all.len() - 1].blocks());
        }
    } else {
        assert(before[j] == incoming[j]);
        lemma_edit_reported(current, before, j, change);
        let m = choose|m: int| 0 <= m < earlier.len() && (#[trigger] earlier[m]).blocks();
        assert(all[m].blocks());
    }
}

/// A change that applies by itself loses nothing: every column is still there, in the same order
/// among those that were, with the same part in row identity, its type the same or wider, and
/// nullable if it was.
pub proof fn compatible_changes_lose_nothing(current: Seq<Field>, incoming: Seq<Field>, i: int)
    requires
        distinct_names(current),
        !any_blocks(differences(current, incoming)),
        0 <= i < current.len(),
    ensures
        kept(current, incoming) == kept(incoming, current),
        named(incoming, current[i].name@) matches Some(now) && {
            &&& now.logical == current[i].logical || widening(current[i].logical, now.logical)
            &&& current[i].nullable ==> now.nullable
            &&& now.is_key == current[i].is_key
        },
{
    let gone = drops(current, incoming);
    let edited = edits(current, incoming);
    let all = differences(current, incoming);
    if kept(current, incoming) != kept(incoming, current) {
        assert(all[(gone.len() + edited.len()) as int].blocks());
    }
    assert forall|k: int| 0 <= k < gone.len() implies !(#[trigger] gone[k]).blocks() by {
        assert(all[k] == gone[k]);
    }
    assert forall|k: int| 0 <= k < edited.len() implies !(#[trigger] edited[k]).blocks() by {
        assert(all[gone.len() + k] == edited[k]);
    }
    let was = current[i];
    if named(incoming, was.name@) is None {
        lemma_drop_reported(current, incoming, i);
    }
    lemma_named(incoming, was.name@);
    let now = named(incoming, was.name@)->0;
    let j = choose|j: int| 0 <= j < incoming.len() && #[trigger] incoming[j] == now;
    lemma_named(current, now.name@);
    let k = choose|k: int| 0 <= k < current.len() && #[trigger] current[k] == named(current, now.name@)->0;
    assert(current[k].name@ == current[i].name@);
    assert(named(current, now.name@) == Some(was));
    let here = field_changes(Some(was), now);
    if now.is_key != was.is_key {
        lemma_edit_reported(current, incoming, j, SchemaChange::IdentityChanged);
    }
    if now.logical != was.logical && !widening(was.logical, now.logical) {
        let change = SchemaChange::ColumnRetyped { name: now.name, from: was.logical, to: now.logical };
        assert(here[0] == change);
        lemma_edit_reported(current, incoming, j, change);
    }
    if was.nullable && !now.nullable {
        let change = SchemaChange::ColumnTightened { name: now.name };
        assert(here[here.len() - 1] == change);
        lemma_edit_reported(current, incoming, j, change);
    }
}

/// One change that needs a decision quarantines the table, whatever else changed with it: nothing
/// is applied in part.
pub proof fn one_objection_quarantines(current: LogicalSchema, incoming: LogicalSchema, i: int)
    requires
        current@ != incoming@,
        0 <= i < differences(current.fields@, incoming.fields@).len(),
        differences(current.fields@, incoming.fields@)[i].blocks(),
    ensures
        quarantined(current, incoming),
{
}

/// A change that was applied is settled: the shape it leaves takes the incoming one as its own.
pub proof fn applied_changes_are_settled(current: LogicalSchema, incoming: LogicalSchema, shape: LogicalSchema)
    requires
        !quarantined(current, incoming),
        shape@ == incoming@,
    ensures
        !quarantined(shape, incoming),
{
}

/// What is reported of a decimal column that gained digits: nothing where it gained none.
pub open spec fn widened(column: Field, from: Precision, to: Precision) -> Seq<SchemaChange> {
    if from == to {
        Seq::empty()
    } else {
        seq![
            SchemaChange::ColumnWidened {
                name: column.name,
                from: LogicalType::Decimal(from),
                to: LogicalType::Decimal(to),
            },
        ]
    }
}

/// Whether a column of a shape stands under its name alone, and every other column equals the first
/// of its own name.
pub open spec fn stands_alone(fields: Seq<Field>, i: int) -> bool {
    forall|j: int|
        0 <= j < fields.len() && j != i ==> (#[trigger] fields[j]).name@ != fields[i].name@ && (named(
            fields,
            fields[j].name@,
        ) matches Some(first) && first@ == fields[j]@)
}

/// Where no two columns share a name, every column stands alone.
pub proof fn distinct_columns_stand_alone(fields: Seq<Field>, i: int)
    requires
        distinct_names(fields),
        0 <= i < fields.len(),
    ensures
        stands_alone(fields, i),
{
    assert forall|j: int| 0 <= j < fields.len() && j != i implies (#[trigger] fields[j]).name@ != fields[i].name@ && (
    named(fields, fields[j].name@) matches Some(first) && first@ == fields[j]@) by {
        let name = fields[j].name@;
        lemma_named(fields, name);
        let k = choose|k: int| 0 <= k < fields.len() && #[trigger] fields[k] == named(fields, name)->0;
        assert(fields[k].name@ == fields[j].name@);
    }
}

/// Whether a column departs from the first of its name in a way that needs a decision.
pub open spec fn at_odds(fields: Seq<Field>, column: Field) -> bool {
    let existing = named(fields, column.name@);
    rekeyed(existing, column) || any_blocks(field_changes(existing, column))
}

/// Whether one shape is another with a decimal column widened, the way `widened_decimal` does.
pub open spec fn widens_one_decimal(
    current: LogicalSchema,
    incoming: LogicalSchema,
    i: int,
    from: Precision,
    extra_digits: u8,
    to: Precision,
) -> bool {
    &&& 0 <= i < current@.len()
    &&& current@[i].1 == LogicalType::Decimal(from)
    &&& more_digits(from, extra_digits) == Some(to)
    &&& incoming@ == current@.update(i, (current@[i].0, LogicalType::Decimal(to), current@[i].2, current@[i].3))
}

/// Nothing is dropped and nothing changes places between shapes that name the same columns.
proof fn lemma_same_names(current: Seq<Field>, incoming: Seq<Field>, k: int)
    requires
        current.len() == incoming.len(),
        forall|j: int| 0 <= j < current.len() ==> (#[trigger] current[j]).name@ == incoming[j].name@,
        0 <= k <= current.len(),
    ensures
        drops(current.take(k), incoming) == Seq::<SchemaChange>::empty(),
        kept(current.take(k), incoming) == kept(incoming.take(k), current),
    decreases k,
{
    if k > 0 {
        lemma_same_names(current, incoming, k - 1);
        let name = current[k - 1].name@;
        lemma_named(current, name);
        lemma_named(incoming, name);
        assert(incoming[k - 1].name@ == name);
        assert(current.take(k).drop_last() =~= current.take(k - 1));
        assert(incoming.take(k).drop_last() =~= incoming.take(k - 1));
    }
}

/// What became of one column needs a decision where its type changed and did not widen, or where it
/// became mandatory.
proof fn lemma_blocking_changes(existing: Option<Field>, field: Field)
    ensures
        any_blocks(field_changes(existing, field)) <==> (existing matches Some(was) && (was.logical != field.logical
            && !widening(was.logical, field.logical) || was.nullable && !field.nullable)),
{
    let changes = field_changes(existing, field);
    if let Some(was) = existing {
        if was.logical != field.logical && !widening(was.logical, field.logical) {
            assert(changes[0].blocks());
        }
        if was.nullable && !field.nullable {
            assert(changes[changes.len() - 1].blocks());
        }
    }
}

/// The edits hold one that needs a decision exactly where a column is at odds.
proof fn lemma_blocking_edits(current: Seq<Field>, incoming: Seq<Field>)
    ensures
        any_blocks(edits(current, incoming)) <==> exists|j: int|
            0 <= j < incoming.len() && at_odds(current, #[trigger] incoming[j]),
    decreases incoming.len(),
{
    if incoming.len() > 0 {
        let before = incoming.drop_last();
        let field = incoming.last();
        let existing = named(current, field.name@);
        let here = field_changes(existing, field);
        let earlier = edits(current, before);
        let all = edits(current, incoming);
        lemma_blocking_edits(current, before);
        assert(forall|j: int| 0 <= j < before.len() ==> #[trigger] before[j] == incoming[j]);
        if any_blocks(all) {
            let m = choose|m: int| 0 <= m < all.len() && (#[trigger] all[m]).blocks();
            if m < earlier.len() {
                assert(earlier[m].blocks());
                let j = choose|j: int| 0 <= j < before.len() && at_odds(current, #[trigger] before[j]);
                assert(at_odds(current, incoming[j]));
            } else {
                if m < earlier.len() + here.len() {
                    assert(here[m - earlier.len()].blocks());
                }
                assert(at_odds(current, incoming[incoming.len() - 1]));
            }
        }
        if any_blocks(earlier) {
            let m = choose|m: int| 0 <= m < earlier.len() && (#[trigger] earlier[m]).blocks();
            assert(all[m] == earlier[m]);
        }
        if any_blocks(here) {
            let m = choose|m: int| 0 <= m < here.len() && (#[trigger] here[m]).blocks();
            assert(all[earlier.len() + m] == here[m]);
        }
        if rekeyed(existing, field) {
            if identity_changed(current, before) {
                let j = choose|j: int|
                    0 <= j < before.len() && rekeyed(named(current, #[trigger] before[j].name@), before[j]);
                assert(at_odds(current, before[j]));
            } else {
                assert(all.last().blocks());
                assert(all[all.len() - 1].blocks());
            }
        }
        if exists|j: int| 0 <= j < incoming.len() && at_odds(current, #[trigger] incoming[j]) {
            let j = choose|j: int| 0 <= j < incoming.len() && at_odds(current, #[trigger] incoming[j]);
            if j < before.len() {
                assert(at_odds(current, before[j]));
            }
        }
    }
}

/// The one column that gained digits is the one edit.
proof fn lemma_one_edit(current: Seq<Field>, incoming: Seq<Field>, i: int, from: Precision, to: Precision, k: int)
    requires
        stands_alone(current, i),
        current.len() == incoming.len(),
        0 <= i < current.len(),
        current[i].logical == LogicalType::Decimal(from),
        incoming[i]@ == (current[i].name@, LogicalType::Decimal(to), current[i].nullable, current[i].is_key),
        forall|j: int| 0 <= j < current.len() && j != i ==> (#[trigger] current[j])@ == incoming[j]@,
        from.scale == to.scale && from.digits <= to.digits,
        0 <= k <= current.len(),
    ensures
        !identity_changed(current, incoming.take(k)),
        edits(current, incoming.take(k)) == (if k > i {
            widened(incoming[i], from, to)
        } else {
            Seq::empty()
        }),
    decreases k,
{
    let so_far = incoming.take(k);
    assert forall|j: int| 0 <= j < so_far.len() implies !rekeyed(
        named(current, #[trigger] so_far[j].name@),
        so_far[j],
    ) by {
        lemma_first_alike(current, i, j);
        assert(current[j]@.0 == incoming[j]@.0 && current[j]@.3 == incoming[j]@.3);
    }
    if k > 0 {
        lemma_one_edit(current, incoming, i, from, to, k - 1);
        assert(so_far.drop_last() =~= incoming.take(k - 1));
        lemma_first_alike(current, i, k - 1);
        assert(current[k - 1]@.0 == incoming[k - 1]@.0 && current[k - 1]@.2 == incoming[k - 1]@.2);
        assert(k - 1 != i ==> current[k - 1]@.1 == incoming[k - 1]@.1);
    }
}

/// Where a column stands alone, each column equals the first of its name.
proof fn lemma_first_alike(fields: Seq<Field>, i: int, j: int)
    requires
        stands_alone(fields, i),
        0 <= i < fields.len(),
        0 <= j < fields.len(),
    ensures
        named(fields, fields[j].name@) matches Some(first) && first@ == fields[j]@,
{
    if j == i {
        let name = fields[i].name@;
        lemma_named(fields, name);
        let k = choose|k: int| 0 <= k < fields.len() && #[trigger] fields[k] == named(fields, name)->0;
        assert(fields[k].name@ == name);
    }
}

/// An exact decimal can gain digits until it has as many as any may have, and keeps its scale.
pub proof fn decimals_gain_digits(from: Precision, extra_digits: u8)
    requires
        Precision::representable(from.digits as int, from.scale as int),
    ensures
        more_digits(from, extra_digits) is Some <==> from.digits + extra_digits <= Precision::MAX_DIGITS,
        more_digits(from, extra_digits) matches Some(to) ==> to.digits == from.digits + extra_digits && to.scale
            == from.scale,
{
}

/// Where a widened decimal column stands alone, the change applies by itself, and the widened column
/// is all that is reported.
pub proof fn widened_decimals_apply(
    current: LogicalSchema,
    incoming: LogicalSchema,
    i: int,
    from: Precision,
    extra_digits: u8,
    to: Precision,
)
    requires
        stands_alone(current.fields@, i),
        widens_one_decimal(current, incoming, i, from, extra_digits, to),
    ensures
        !quarantined(current, incoming),
        differences(current.fields@, incoming.fields@) == widened(incoming.fields@[i], from, to),
{
    let before = current.fields@;
    let after = incoming.fields@;
    assert(before.len() == current@.len() && after.len() == incoming@.len());
    assert forall|j: int| 0 <= j < before.len() implies (#[trigger] before[j]).name@ == after[j].name@ by {
        assert(current@[j].0 == incoming@[j].0);
    }
    assert forall|j: int| 0 <= j < before.len() && j != i implies (#[trigger] before[j])@ == after[j]@ by {
        assert(current@[j] == incoming@[j]);
    }
    assert(incoming@[i] == after[i]@);
    let n = before.len() as int;
    lemma_same_names(before, after, n);
    lemma_one_edit(before, after, i, from, to, n);
    assert(before.take(n) =~= before);
    assert(after.take(n) =~= after);
    assert(differences(before, after) =~= widened(after[i], from, to));
}

/// Whatever the names, a decimal column that gained digits quarantines a table only where some column
/// is at odds with the first of its name. The digits gained put no column at odds that was not: where
/// no column of the shape was, the change applies by itself.
pub proof fn widened_decimals_put_nothing_at_odds(
    current: LogicalSchema,
    incoming: LogicalSchema,
    i: int,
    from: Precision,
    extra_digits: u8,
    to: Precision,
)
    requires
        widens_one_decimal(current, incoming, i, from, extra_digits, to),
    ensures
        quarantined(current, incoming) <==> extra_digits > 0 && exists|j: int|
            0 <= j < incoming.fields@.len() && at_odds(current.fields@, #[trigger] incoming.fields@[j]),
        forall|j: int|
            0 <= j < incoming.fields@.len() && at_odds(current.fields@, #[trigger] incoming.fields@[j]) ==> at_odds(
                current.fields@,
                current.fields@[j],
            ),
        (forall|j: int| 0 <= j < current.fields@.len() ==> !at_odds(current.fields@, #[trigger] current.fields@[j]))
            ==> !quarantined(current, incoming),
{
    let before = current.fields@;
    let after = incoming.fields@;
    assert(before.len() == current@.len() && after.len() == incoming@.len());
    assert forall|j: int| 0 <= j < before.len() implies (#[trigger] before[j]).name@ == after[j].name@ by {
        assert(current@[j].0 == incoming@[j].0);
    }
    let n = before.len() as int;
    lemma_same_names(before, after, n);
    assert(before.take(n) =~= before);
    assert(after.take(n) =~= after);
    assert(differences(before, after) =~= edits(before, after));
    lemma_blocking_edits(before, after);
    if extra_digits == 0 {
        assert(incoming@ =~= current@);
    } else {
        assert(current@[i].1 != incoming@[i].1);
    }
    assert forall|j: int| 0 <= j < after.len() && at_odds(before, #[trigger] after[j]) implies at_odds(
        before,
        before[j],
    ) by {
        assert(before[j].name@ == after[j].name@);
        assert(current@[j] == before[j]@ && incoming@[j] == after[j]@);
        let existing = named(before, after[j].name@);
        lemma_blocking_changes(existing, before[j]);
        lemma_blocking_changes(existing, after[j]);
    }
}

/// Whether a type holds a decimal number: so many units, of which ten to the power `scale` make one.
pub open spec fn holds_number(logical: LogicalType, units: int, scale: int) -> bool {
    match logical {
        LogicalType::Int16 => scale == 0 && -0x8000 <= units <= 0x7fff,
        LogicalType::Int32 => scale == 0 && -0x8000_0000 <= units <= 0x7fff_ffff,
        LogicalType::Int64 => scale == 0 && -0x8000_0000_0000_0000 <= units <= 0x7fff_ffff_ffff_ffff,
        LogicalType::Decimal(p) => scale == p.scale && -pow(10, p.digits as nat) < units < pow(10, p.digits as nat),
        _ => false,
    }
}

/// Whether a type holds a binary floating-point number: a significand, times two to the power `exponent`.
pub open spec fn holds_float(logical: LogicalType, significand: int, exponent: int) -> bool {
    match logical {
        LogicalType::Float32 => -0x100_0000 < significand < 0x100_0000 && -149 <= exponent <= 104,
        LogicalType::Float64 => -0x20_0000_0000_0000 < significand < 0x20_0000_0000_0000 && -1074 <= exponent <= 971,
        _ => false,
    }
}

/// Whether a type is one of whole numbers.
pub open spec fn is_integer(logical: LogicalType) -> bool {
    logical is Int16 || logical is Int32 || logical is Int64
}

/// Whether a type is one of floating-point numbers.
pub open spec fn is_floating(logical: LogicalType) -> bool {
    logical is Float32 || logical is Float64
}

/// A change of type that applies by itself loses no value: what the old type holds the new one holds,
/// and it is of the same kind.
pub proof fn widening_loses_no_value(from: LogicalType, to: LogicalType)
    requires
        widening(from, to),
    ensures
        forall|units: int, scale: int| holds_number(from, units, scale) ==> #[trigger] holds_number(to, units, scale),
        forall|significand: int, exponent: int|
            holds_float(from, significand, exponent) ==> #[trigger] holds_float(to, significand, exponent),
        is_integer(from) && is_integer(to) || is_floating(from) && is_floating(to) || from is Decimal && to is Decimal,
        from is Decimal || from != to,
{
    if let (LogicalType::Decimal(a), LogicalType::Decimal(b)) = (from, to) {
        vstd::arithmetic::power::lemma_pow_increases(10, a.digits as nat, b.digits as nat);
    }
}

/// Between two types of one kind, a change that loses no value applies by itself: whole numbers whose
/// range holds the old one, decimals of one scale with room for as many digits, and wider floats.
pub proof fn lossless_changes_widen(from: LogicalType, to: LogicalType)
    ensures
        is_integer(from) && is_integer(to) ==> (widening(from, to) <==> from != to && (forall|units: int|
            holds_number(from, units, 0) ==> #[trigger] holds_number(to, units, 0))),
        is_floating(from) && is_floating(to) ==> (widening(from, to) <==> from != to && (forall|s: int, e: int|
            holds_float(from, s, e) ==> #[trigger] holds_float(to, s, e))),
        from is Decimal && to is Decimal ==> (widening(from, to) <==> (forall|units: int, scale: int|
            holds_number(from, units, scale) ==> #[trigger] holds_number(to, units, scale))),
{
    if is_integer(from) && is_integer(to) && from != to {
        assert(holds_number(from, 0x8000, 0) == !(from is Int16));
        assert(holds_number(from, 0x8000_0000, 0) == (from is Int64));
        assert(holds_number(to, 0x8000, 0) == !(to is Int16));
        assert(holds_number(to, 0x8000_0000, 0) == (to is Int64));
    }
    if is_floating(from) && is_floating(to) && from != to {
        assert(holds_float(from, 0x100_0000, 0) == (from is Float64));
        assert(holds_float(to, 0x100_0000, 0) == (to is Float64));
    }
    if let (LogicalType::Decimal(a), LogicalType::Decimal(b)) = (from, to) {
        vstd::arithmetic::power::lemma_pow_positive(10, a.digits as nat);
        vstd::arithmetic::power::lemma_pow_positive(10, b.digits as nat);
        assert(holds_number(from, 0, a.scale as int));
        assert(holds_number(to, 0, a.scale as int) ==> a.scale == b.scale);
        if a.digits > b.digits {
            let most = pow(10, a.digits as nat) - 1;
            vstd::arithmetic::power::lemma_pow_strictly_increases(10, b.digits as nat, a.digits as nat);
            assert(holds_number(from, most, a.scale as int));
            assert(!holds_number(to, most, a.scale as int));
        }
        if a.digits <= b.digits {
            vstd::arithmetic::power::lemma_pow_increases(10, a.digits as nat, b.digits as nat);
        }
    }
}

/// No two types widen into each other, and what widens twice widens.
pub proof fn widening_goes_one_way(a: LogicalType, b: LogicalType, c: LogicalType)
    ensures
        widening(a, b) && widening(b, a) ==> a == b,
        widening(a, b) && widening(b, c) ==> widening(a, c),
{
}

/// A column's change of type needs a decision exactly where the new type does not hold every value of
/// the old one, between whole numbers; becoming mandatory and joining or leaving the row identity always
/// do; a new column and one that became nullable never.
pub proof fn columns_change_without_loss(was: Field, now: Field)
    requires
        was.name@ == now.name@,
    ensures
        any_blocks(field_changes(Some(was), now)) ==> was.logical != now.logical || was.nullable && !now.nullable,
        was.nullable && !now.nullable ==> any_blocks(field_changes(Some(was), now)),
        !was.nullable && now.nullable && was.logical == now.logical ==> !any_blocks(field_changes(Some(was), now))
            && field_changes(Some(was), now).len() == 1,
        is_integer(was.logical) && is_integer(now.logical) && was.nullable == now.nullable ==> (any_blocks(
            field_changes(Some(was), now),
        ) <==> exists|units: int| holds_number(was.logical, units, 0) && !#[trigger] holds_number(now.logical, units, 0)),
        was@ == now@ ==> field_changes(Some(was), now).len() == 0 && !rekeyed(Some(was), now),
        was.is_key != now.is_key ==> rekeyed(Some(was), now),
        !any_blocks(field_changes(None, now)) && !rekeyed(None, now),
        was.logical == now.logical || is_integer(was.logical) && is_integer(now.logical) || is_floating(was.logical)
            && is_floating(now.logical) || was.logical is Decimal && now.logical is Decimal || any_blocks(
            field_changes(Some(was), now),
        ),
{
    lemma_blocking_changes(Some(was), now);
    lemma_blocking_changes(None, now);
    lossless_changes_widen(was.logical, now.logical);
    if widening(was.logical, now.logical) {
        widening_loses_no_value(was.logical, now.logical);
    }
    if is_integer(was.logical) && is_integer(now.logical) && was.logical != now.logical && !widening(
        was.logical,
        now.logical,
    ) {
        let units = choose|units: int| holds_number(was.logical, units, 0) && !holds_number(now.logical, units, 0);
        assert(!holds_number(now.logical, units, 0));
    }
}

/// Whether a shape has a column of a name.
pub open spec fn has_column(fields: Seq<Field>, name: Seq<char>) -> bool {
    exists|i: int| 0 <= i < fields.len() && (#[trigger] fields[i]).name@ == name
}

/// Whether a shape has a column of a name and a type.
pub open spec fn has_typed(fields: Seq<Field>, name: Seq<char>, logical: LogicalType) -> bool {
    exists|i: int| 0 <= i < fields.len() && (#[trigger] fields[i]).name@ == name && fields[i].logical == logical
}

/// Whether what a change says of two shapes is so.
pub open spec fn is_so(change: SchemaChange, current: Seq<Field>, incoming: Seq<Field>) -> bool {
    match change {
        SchemaChange::ColumnAdded { name, logical } => !has_column(current, name@) && has_typed(
            incoming,
            name@,
            logical,
        ),
        SchemaChange::ColumnDropped { name } => has_column(current, name@) && !has_column(incoming, name@),
        SchemaChange::ColumnWidened { name, from, to } => from != to && widening(from, to) && has_typed(
            current,
            name@,
            from,
        ) && has_typed(incoming, name@, to),
        SchemaChange::ColumnRetyped { name, from, to } => from != to && !widening(from, to) && has_typed(
            current,
            name@,
            from,
        ) && has_typed(incoming, name@, to),
        SchemaChange::ColumnRelaxed { name } => exists|i: int, j: int|
            0 <= i < current.len() && 0 <= j < incoming.len() && (#[trigger] current[i]).name@ == name@ && (
            #[trigger] incoming[j]).name@ == name@ && !current[i].nullable && incoming[j].nullable,
        SchemaChange::ColumnTightened { name } => exists|i: int, j: int|
            0 <= i < current.len() && 0 <= j < incoming.len() && (#[trigger] current[i]).name@ == name@ && (
            #[trigger] incoming[j]).name@ == name@ && current[i].nullable && !incoming[j].nullable,
        SchemaChange::IdentityChanged => exists|i: int, j: int|
            0 <= i < current.len() && 0 <= j < incoming.len() && (#[trigger] current[i]).name@ == (
            #[trigger] incoming[j]).name@ && current[i].is_key != incoming[j].is_key,
        SchemaChange::ColumnsReordered => kept(current, incoming) != kept(incoming, current),
    }
}

proof fn lemma_has_column(fields: Seq<Field>, name: Seq<char>)
    ensures
        named(fields, name) is Some <==> has_column(fields, name),
        named(fields, name) matches Some(f) ==> has_typed(fields, name, f.logical),
{
    lemma_named(fields, name);
    if let Some(f) = named(fields, name) {
        let i = choose|i: int| 0 <= i < fields.len() && #[trigger] fields[i] == f;
        assert(fields[i].name@ == name && fields[i].logical == f.logical);
    }
}

proof fn lemma_drops_are_so(current: Seq<Field>, incoming: Seq<Field>, upto: int, k: int)
    requires
        0 <= upto <= current.len(),
        0 <= k < drops(current.take(upto), incoming).len(),
    ensures
        is_so(drops(current.take(upto), incoming)[k], current, incoming),
    decreases upto,
{
    let some = current.take(upto);
    if upto > 0 {
        assert(some.drop_last() =~= current.take(upto - 1));
        let before = drops(current.take(upto - 1), incoming);
        if k < before.len() {
            lemma_drops_are_so(current, incoming, upto - 1, k);
        } else {
            lemma_has_column(incoming, current[upto - 1].name@);
            assert(current[upto - 1].name@ == some.last().name@);
        }
    }
}

proof fn lemma_field_changes_are_so(current: Seq<Field>, incoming: Seq<Field>, j: int, k: int)
    requires
        0 <= j < incoming.len(),
        0 <= k < field_changes(named(current, incoming[j].name@), incoming[j]).len(),
    ensures
        is_so(field_changes(named(current, incoming[j].name@), incoming[j])[k], current, incoming),
{
    let now = incoming[j];
    let name = now.name@;
    let existing = named(current, name);
    lemma_has_column(current, name);
    lemma_named(current, name);
    assert(has_typed(incoming, name, now.logical)) by {
        assert(incoming[j].name@ == name && incoming[j].logical == now.logical);
    }
    if let Some(was) = existing {
        let i = choose|i: int| 0 <= i < current.len() && #[trigger] current[i] == was;
        assert(current[i].name@ == name && incoming[j].name@ == name);
    }
}

proof fn lemma_edits_are_so(current: Seq<Field>, incoming: Seq<Field>, upto: int, k: int)
    requires
        0 <= upto <= incoming.len(),
        0 <= k < edits(current, incoming.take(upto)).len(),
    ensures
        is_so(edits(current, incoming.take(upto))[k], current, incoming),
    decreases upto,
{
    let some = incoming.take(upto);
    if upto > 0 {
        assert(some.drop_last() =~= incoming.take(upto - 1));
        let before = edits(current, incoming.take(upto - 1));
        let j = upto - 1;
        assert(some.last() == incoming[j]);
        let existing = named(current, incoming[j].name@);
        let here = field_changes(existing, incoming[j]);
        if k < before.len() {
            lemma_edits_are_so(current, incoming, upto - 1, k);
            assert(edits(current, some)[k] == before[k]);
        } else if k < before.len() + here.len() {
            lemma_field_changes_are_so(current, incoming, j, k - before.len());
            assert(edits(current, some)[k] == here[k - before.len()]);
        } else {
            lemma_named(current, incoming[j].name@);
            let was = existing->0;
            let i = choose|i: int| 0 <= i < current.len() && #[trigger] current[i] == was;
            assert(current[i].name@ == incoming[j].name@ && current[i].is_key != incoming[j].is_key);
            assert(edits(current, some)[k] == SchemaChange::IdentityChanged);
        }
    }
}

/// Whatever is reported is so.
pub proof fn reported_changes_are_so(current: Seq<Field>, incoming: Seq<Field>, k: int)
    requires
        0 <= k < differences(current, incoming).len(),
    ensures
        is_so(differences(current, incoming)[k], current, incoming),
{
    let gone = drops(current, incoming);
    let edited = edits(current, incoming);
    assert(current.take(current.len() as int) =~= current);
    assert(incoming.take(incoming.len() as int) =~= incoming);
    if k < gone.len() {
        lemma_drops_are_so(current, incoming, current.len() as int, k);
        assert(differences(current, incoming)[k] == gone[k]);
    } else if k < gone.len() + edited.len() {
        lemma_edits_are_so(current, incoming, incoming.len() as int, k - gone.len());
        assert(differences(current, incoming)[k] == edited[k - gone.len()]);
    }
}

/// A column that is gone is reported, and so are one that is new and one whose type or nullability changed.
pub proof fn changes_are_reported(current: Seq<Field>, incoming: Seq<Field>)
    ensures
        forall|i: int|
            0 <= i < current.len() && !has_column(incoming, (#[trigger] current[i]).name@) ==> differences(
                current,
                incoming,
            ).contains(SchemaChange::ColumnDropped { name: current[i].name }),
        forall|j: int|
            0 <= j < incoming.len() && !has_column(current, (#[trigger] incoming[j]).name@) ==> differences(
                current,
                incoming,
            ).contains(SchemaChange::ColumnAdded { name: incoming[j].name, logical: incoming[j].logical }),
        kept(current, incoming) != kept(incoming, current) ==> differences(current, incoming).contains(
            SchemaChange::ColumnsReordered,
        ),
{
    let gone = drops(current, incoming);
    let edited = edits(current, incoming);
    let all = differences(current, incoming);
    assert forall|i: int| 0 <= i < current.len()
        && !has_column(incoming, (#[trigger] current[i]).name@) implies all.contains(
        SchemaChange::ColumnDropped { name: current[i].name },
    ) by {
        lemma_has_column(incoming, current[i].name@);
        lemma_drop_stands(current, incoming, i);
        let k = choose|k: int| 0 <= k < gone.len() && gone[k] == SchemaChange::ColumnDropped { name: current[i].name };
        assert(all[k] == gone[k]);
    }
    assert forall|j: int| 0 <= j < incoming.len()
        && !has_column(current, (#[trigger] incoming[j]).name@) implies all.contains(
        SchemaChange::ColumnAdded { name: incoming[j].name, logical: incoming[j].logical },
    ) by {
        let change = SchemaChange::ColumnAdded { name: incoming[j].name, logical: incoming[j].logical };
        lemma_has_column(current, incoming[j].name@);
        let here = field_changes(named(current, incoming[j].name@), incoming[j]);
        assert(here[0] == change);
        lemma_edit_stands(current, incoming, j, change);
        let k = choose|k: int| 0 <= k < edited.len() && edited[k] == change;
        assert(all[gone.len() + k] == change);
    }
    if kept(current, incoming) != kept(incoming, current) {
        assert(all[all.len() - 1] == SchemaChange::ColumnsReordered);
    }
}

proof fn lemma_drop_stands(current: Seq<Field>, incoming: Seq<Field>, i: int)
    requires
        0 <= i < current.len(),
        named(incoming, current[i].name@) is None,
    ensures
        drops(current, incoming).contains(SchemaChange::ColumnDropped { name: current[i].name }),
    decreases current.len(),
{
    let all = drops(current, incoming);
    let before = drops(current.drop_last(), incoming);
    let change = SchemaChange::ColumnDropped { name: current[i].name };
    if i == current.len() - 1 {
        assert(all[before.len() as int] == change);
    } else {
        lemma_drop_stands(current.drop_last(), incoming, i);
        let k = choose|k: int| 0 <= k < before.len() && before[k] == change;
        assert(all[k] == change);
    }
}

proof fn lemma_edit_stands(current: Seq<Field>, incoming: Seq<Field>, j: int, change: SchemaChange)
    requires
        0 <= j < incoming.len(),
        field_changes(named(current, incoming[j].name@), incoming[j]).contains(change),
    ensures
        edits(current, incoming).contains(change),
    decreases incoming.len(),
{
    let before = incoming.drop_last();
    let earlier = edits(current, before);
    let here = field_changes(named(current, incoming.last().name@), incoming.last());
    let all = edits(current, incoming);
    if j == incoming.len() - 1 {
        let k = choose|k: int| 0 <= k < here.len() && here[k] == change;
        assert(all[earlier.len() + k] == change);
    } else {
        assert(before[j] == incoming[j]);
        lemma_edit_stands(current, before, j, change);
        let m = choose|m: int| 0 <= m < earlier.len() && earlier[m] == change;
        assert(all[m] == change);
    }
}

/// The names two shapes share are those that stand in both, each once, in the order of the first.
pub proof fn shared_names_stand_in_both(fields: Seq<Field>, other: Seq<Field>)
    ensures
        forall|name: Seq<char>| #[trigger]
            kept(fields, other).contains(name) <==> has_column(fields, name) && has_column(other, name),
        kept(fields, other).no_duplicates(),
        fields.len() > 0 && has_column(other, fields[0].name@) ==> kept(fields, other).len() > 0 && kept(fields, other)[0]
            == fields[0].name@,
    decreases fields.len(),
{
    if fields.len() > 0 {
        let before = fields.drop_last();
        let last = fields.last().name@;
        shared_names_stand_in_both(before, other);
        lemma_has_column(other, last);
        let earlier = kept(before, other);
        let all = kept(fields, other);
        assert forall|name: Seq<char>| #[trigger] all.contains(name) <==> has_column(fields, name) && has_column(
            other,
            name,
        ) by {
            if has_column(before, name) {
                let i = choose|i: int| 0 <= i < before.len() && (#[trigger] before[i]).name@ == name;
                assert(fields[i].name@ == name);
            }
            if has_column(fields, name) {
                let i = choose|i: int| 0 <= i < fields.len() && (#[trigger] fields[i]).name@ == name;
                if i < before.len() {
                    assert(before[i].name@ == name);
                }
            }
            assert(fields[fields.len() - 1].name@ == last);
            if all.contains(name) {
                let k = choose|k: int| 0 <= k < all.len() && all[k] == name;
                if k < earlier.len() {
                    assert(earlier[k] == name);
                    assert(earlier.contains(name));
                }
            }
            if earlier.contains(name) {
                let k = choose|k: int| 0 <= k < earlier.len() && earlier[k] == name;
                assert(all[k] == name);
            }
            if name == last && has_column(other, name) {
                if earlier.contains(name) {
                } else {
                    assert(all[all.len() - 1] == name);
                }
            }
        }
        lemma_has_column(other, fields[0].name@);
    }
}

/// What may not apply by itself is a dropped, retyped or tightened column, a change of row identity and a
/// new order of columns; a new, a widened and a relaxed column may.
pub proof fn blocking_changes_are_these(change: SchemaChange)
    ensures
        change.blocks() <==> change is ColumnDropped || change is ColumnRetyped || change is ColumnTightened || change
            is IdentityChanged || change is ColumnsReordered,
{
}

/// What is objected to is each change that blocks, in order and in its own words.
pub proof fn blocking_changes_are_objected_to(changes: Seq<SchemaChange>)
    ensures
        lists::picked_from(changes, objections(changes), |c: SchemaChange, o: Seq<char>| c.blocks() && o == c.message()),
    decreases changes.len(),
{
    let p = |c: SchemaChange, o: Seq<char>| c.blocks() && o == c.message();
    if changes.len() == 0 {
        lists::lemma_picked_none::<SchemaChange, Seq<char>>(p);
        assert(changes =~= Seq::empty());
    } else {
        blocking_changes_are_objected_to(changes.drop_last());
        let earlier = objections(changes.drop_last());
        let last = changes.last();
        if last.blocks() {
            lists::lemma_picked_one(changes, earlier, p, last.message());
        } else {
            lists::lemma_passed_over(changes, earlier, p);
        }
    }
}

/// Every change is told by what it is and of which column, and a change of type by both types.
pub proof fn changes_are_told_by_what_they_are(change: SchemaChange)
    ensures
        change matches SchemaChange::ColumnAdded { name, .. } ==> change.message() == "column "@ + name@ + " added"@,
        change matches SchemaChange::ColumnDropped { name } ==> change.message() == "column "@ + name@ + " dropped"@,
        change matches SchemaChange::ColumnRelaxed { name } ==> change.message() == "column "@ + name@
            + " became nullable"@,
        change matches SchemaChange::ColumnTightened { name } ==> change.message() == "column "@ + name@
            + " became mandatory"@,
        change matches SchemaChange::ColumnWidened { name, from, to } ==> change.message() == "column "@ + name@
            + " widened from "@ + from.written() + " to "@ + to.written(),
        change matches SchemaChange::ColumnRetyped { name, from, to } ==> change.message() == "column "@ + name@
            + " retyped from "@ + from.written() + " to "@ + to.written(),
        change is IdentityChanged ==> change.message() == "row identity changed"@,
        change is ColumnsReordered ==> change.message() == "columns reordered"@,
{
}

} // verus!
