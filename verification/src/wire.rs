//! What is sent back to a client: rows, or a refusal.

use crate::text;
use vstd::prelude::*;

verus! {

/// The type numbers a client reads, as the wire protocol fixes them.
pub const OID_BOOL: i32 = 16;
/// Bytes.
pub const OID_BYTEA: i32 = 17;
/// A 64-bit integer.
pub const OID_INT8: i32 = 20;
/// A 16-bit integer.
pub const OID_INT2: i32 = 21;
/// A 32-bit integer.
pub const OID_INT4: i32 = 23;
/// Text.
pub const OID_TEXT: i32 = 25;
/// A single-precision float.
pub const OID_FLOAT4: i32 = 700;
/// A double-precision float.
pub const OID_FLOAT8: i32 = 701;
/// An array of double-precision floats.
pub const OID_FLOAT8_ARRAY: i32 = 1022;
/// A date.
pub const OID_DATE: i32 = 1082;
/// A timestamp with no zone.
pub const OID_TIMESTAMP: i32 = 1114;
/// A timestamp in UTC.
pub const OID_TIMESTAMPTZ: i32 = 1184;
/// A decimal.
pub const OID_NUMERIC: i32 = 1700;

/// The size of a value whose size varies.
pub const VARIES: i16 = -1;

/// One column of an answer.
#[derive(PartialEq, Eq, Debug)]
pub struct FieldDescription {
    /// Its name.
    pub name: String,
    /// Its type's number.
    pub type_oid: i32,
    /// The size of its values in bytes, or -1 where it varies.
    pub size: i16,
}

impl View for FieldDescription {
    type V = (Seq<char>, i32, i16);

    open spec fn view(&self) -> (Seq<char>, i32, i16) {
        (self.name@, self.type_oid, self.size)
    }
}

impl FieldDescription {
    /// A column whose values are sent as text.
    pub fn text(name: &str, type_oid: i32, size: i16) -> (r: Self)
        ensures
            r@ == (name@, type_oid, size),
    {
        FieldDescription { name: name.to_owned(), type_oid, size }
    }
}

/// Rows, and the tag that says what was done.
#[derive(PartialEq, Eq, Debug)]
pub struct QueryResult {
    /// The columns.
    pub fields: Vec<FieldDescription>,
    /// The rows: a text for each column, or nothing for a null.
    pub rows: Vec<Vec<Option<String>>>,
    /// What was done.
    pub tag: String,
}

/// What an answer holds.
#[verifier::ext_equal]
pub struct Answer {
    /// The columns.
    pub fields: Seq<(Seq<char>, i32, i16)>,
    /// The rows.
    pub rows: Seq<Seq<Option<Seq<char>>>>,
    /// What was done.
    pub tag: Seq<char>,
}

/// The characters of a text, where there is one.
pub open spec fn cell(value: Option<String>) -> Option<Seq<char>> {
    match value {
        Some(s) => Some(s@),
        None => None,
    }
}

/// The texts of a row.
pub open spec fn row(values: Vec<Option<String>>) -> Seq<Option<Seq<char>>> {
    values@.map_values(|v: Option<String>| cell(v))
}

impl View for QueryResult {
    type V = Answer;

    open spec fn view(&self) -> Answer {
        Answer {
            fields: self.fields@.map_values(|f: FieldDescription| f@),
            rows: self.rows@.map_values(|r: Vec<Option<String>>| row(r)),
            tag: self.tag@,
        }
    }
}

/// An answer with no columns and no rows.
pub open spec fn done(tag: Seq<char>) -> Answer {
    Answer { fields: Seq::empty(), rows: Seq::empty(), tag }
}

/// A row in which no value is missing.
pub open spec fn texts(values: Seq<Seq<char>>) -> Seq<Option<Seq<char>>> {
    values.map_values(|s: Seq<char>| Some(s))
}

/// A row in which no value is missing.
pub fn text_row(values: Vec<String>) -> (r: Vec<Option<String>>)
    ensures
        row(r) == texts(text::views(values@)),
{
    let mut r: Vec<Option<String>> = Vec::new();
    let mut i: usize = 0;
    while i < values.len()
        invariant
            i <= values@.len(),
            r@.len() == i,
            forall|k: int| 0 <= k < i ==> cell(#[trigger] r@[k]) == Some(values@[k]@),
        decreases values@.len() - i,
    {
        r.push(Some(values[i].clone()));
        i = i + 1;
    }
    assert(row(r) =~= texts(text::views(values@)));
    r
}

// The states a client's driver acts on.
/// A value, or a document, is not usable.
pub const DATA_EXCEPTION: &'static str = "22000";
/// A statement does not parse.
pub const SYNTAX_ERROR: &'static str = "42601";
/// Reading or writing failed.
pub const IO_ERROR: &'static str = "58030";
/// Something that should hold does not.
pub const INTERNAL_ERROR: &'static str = "XX000";
/// Concurrent work got in the way; trying again may succeed.
pub const SERIALIZATION_FAILURE: &'static str = "40001";
/// A configured limit was reached.
pub const CONFIGURATION_LIMIT_EXCEEDED: &'static str = "53400";

/// A refusal, or a failure.
#[derive(PartialEq, Eq, Debug)]
pub struct QueryFailure {
    /// The five characters a driver acts on.
    pub sqlstate: String,
    /// What went wrong, for a reader.
    pub message: String,
    /// What to do about it.
    pub detail: Option<String>,
    /// The names it is about, so that a client need not parse them out of the message.
    pub subjects: Vec<String>,
}

/// What a refusal says.
#[verifier::ext_equal]
pub struct Refusal {
    /// The five characters a driver acts on.
    pub sqlstate: Seq<char>,
    /// What went wrong.
    pub message: Seq<char>,
    /// What to do about it.
    pub detail: Option<Seq<char>>,
    /// The names it is about.
    pub subjects: Seq<Seq<char>>,
}

impl View for QueryFailure {
    type V = Refusal;

    open spec fn view(&self) -> Refusal {
        Refusal {
            sqlstate: self.sqlstate@,
            message: self.message@,
            detail: cell(self.detail),
            subjects: text::views(self.subjects@),
        }
    }
}

/// A refusal that names nothing.
pub open spec fn refused(sqlstate: Seq<char>, message: Seq<char>) -> Refusal {
    Refusal { sqlstate, message, detail: None, subjects: Seq::empty() }
}

/// A refusal that names what it is about and says what to do.
pub open spec fn refused_about(
    sqlstate: Seq<char>,
    message: Seq<char>,
    remediation: Seq<char>,
    subjects: Seq<Seq<char>>,
) -> Refusal {
    Refusal { sqlstate, message, detail: Some(remediation), subjects }
}

/// What was sent back.
pub open spec fn reply(outcome: Result<QueryResult, QueryFailure>) -> Result<Answer, Refusal> {
    match outcome {
        Ok(result) => Ok(result@),
        Err(failure) => Err(failure@),
    }
}

/// What was sent back, where anything was.
pub open spec fn reply_if_any(outcome: Option<Result<QueryResult, QueryFailure>>) -> Option<Result<Answer, Refusal>> {
    match outcome {
        Some(outcome) => Some(reply(outcome)),
        None => None,
    }
}

/// A refusal that names nothing.
pub fn refusal(sqlstate: &str, message: &str) -> (r: QueryFailure)
    ensures
        r@ == refused(sqlstate@, message@),
{
    let r = QueryFailure {
        sqlstate: sqlstate.to_owned(),
        message: message.to_owned(),
        detail: None,
        subjects: Vec::new(),
    };
    assert(r@ =~= refused(sqlstate@, message@));
    r
}

/// A refusal that names what it is about and says what to do.
pub fn refusal_about(sqlstate: &str, message: &str, remediation: &str, subjects: Vec<String>) -> (r: QueryFailure)
    ensures
        r@ == refused_about(sqlstate@, message@, remediation@, text::views(subjects@)),
{
    QueryFailure {
        sqlstate: sqlstate.to_owned(),
        message: message.to_owned(),
        detail: Some(remediation.to_owned()),
        subjects,
    }
}

/// An answer with no columns and no rows.
pub fn completed(tag: &str) -> (r: QueryResult)
    ensures
        r@ == done(tag@),
{
    let r = QueryResult { fields: Vec::new(), rows: Vec::new(), tag: tag.to_owned() };
    assert(r@ =~= done(tag@));
    r
}

/// The states that a failure is reported in are those clients know: bad data, bad syntax, storage, an
/// internal failure, a read that must be tried again, and a limit that was exceeded.
pub proof fn states_are_what_clients_know()
    ensures
        DATA_EXCEPTION@ == "22000"@,
        SYNTAX_ERROR@ == "42601"@,
        IO_ERROR@ == "58030"@,
        INTERNAL_ERROR@ == "XX000"@,
        SERIALIZATION_FAILURE@ == "40001"@,
        CONFIGURATION_LIMIT_EXCEEDED@ == "53400"@,
{
}

/// What is done is acknowledged by its tag alone, and what is refused by its state and its message, with nothing
/// else but where it is about something.
pub proof fn replies_hold_what_they_say(
    tag: Seq<char>,
    sqlstate: Seq<char>,
    message: Seq<char>,
    remediation: Seq<char>,
    subjects: Seq<Seq<char>>,
)
    ensures
        done(tag).tag == tag && done(tag).rows.len() == 0 && done(tag).fields.len() == 0,
        refused(sqlstate, message).sqlstate == sqlstate && refused(sqlstate, message).message == message,
        refused(sqlstate, message).detail is None && refused(sqlstate, message).subjects.len() == 0,
        refused_about(sqlstate, message, remediation, subjects).sqlstate == sqlstate,
        refused_about(sqlstate, message, remediation, subjects).message == message,
        refused_about(sqlstate, message, remediation, subjects).detail == Some(remediation),
        refused_about(sqlstate, message, remediation, subjects).subjects == subjects,
{
}

} // verus!
