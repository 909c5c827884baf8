//! What a read puts in the audit.
//!
//! One entry for each table reached, because a restriction is a property of a table: two tables in
//! one statement can be filtered differently. A statement that reached none still leaves an entry,
//! because a refusal is evidence. No entry holds what a caller wrote, only the shape of it.

use crate::lists;
use crate::execute::TableName;
use crate::text::{self, chars_of, same, split_words, to_lower};
use vstd::prelude::*;

verus! {

/// The words that may follow a verb without being something a caller chose.
pub open spec fn keywords() -> Seq<Seq<char>> {
    seq![
        "table"@,
        "tables"@,
        "view"@,
        "cube"@,
        "cubes"@,
        "feed"@,
        "feeds"@,
        "snapshot"@,
        "snapshots"@,
        "aggregation"@,
        "aggregations"@,
        "index"@,
        "schema"@,
        "database"@,
        "role"@,
        "user"@,
        "graph"@,
        "into"@,
        "from"@,
        "all"@,
        "current"@,
    ]
}

fn keyword_list() -> (r: Vec<&'static str>)
    ensures
        r@.map_values(|word: &'static str| word@) == keywords(),
{
    let mut r: Vec<&'static str> = Vec::new();
    r.push("table");
    r.push("tables");
    r.push("view");
    r.push("cube");
    r.push("cubes");
    r.push("feed");
    r.push("feeds");
    r.push("snapshot");
    r.push("snapshots");
    r.push("aggregation");
    r.push("aggregations");
    r.push("index");
    r.push("schema");
    r.push("database");
    r.push("role");
    r.push("user");
    r.push("graph");
    r.push("into");
    r.push("from");
    r.push("all");
    r.push("current");
    assert(r@.map_values(|word: &'static str| word@) =~= keywords());
    r
}

fn is_keyword(word: &str) -> (r: bool)
    ensures
        r == keywords().contains(word@),
{
    let list = keyword_list();
    let mut i: usize = 0;
    while i < list.len()
        invariant
            i <= list@.len(),
            list@.map_values(|word: &'static str| word@) == keywords(),
            forall|k: int| 0 <= k < i ==> #[trigger] keywords()[k] != word@,
        decreases list@.len() - i,
    {
        assert(keywords()[i as int] == list@[i as int]@);
        if same(list[i], word) {
            return true;
        }
        i = i + 1;
    }
    false
}

/// Whether a character is a letter of the Latin alphabet without marks.
pub open spec fn is_letter(c: char) -> bool {
    'a' <= c <= 'z' || 'A' <= c <= 'Z'
}

/// The letters of a text, and nothing else of it.
pub open spec fn letters(s: Seq<char>) -> Seq<char> {
    s.filter(|c: char| is_letter(c))
}

/// The shape of a statement: the letters of its first word, and the second word where it is one
/// that no caller chose.
pub open spec fn shape(sql: Seq<char>) -> Seq<char> {
    let words = text::words(sql);
    if words.len() == 0 {
        Seq::empty()
    } else {
        let first = letters(text::lowercase(words[0]));
        if words.len() > 1 && keywords().contains(text::lowercase(words[1])) {
            first + " "@ + text::lowercase(words[1])
        } else {
            first
        }
    }
}

fn keep_letters(s: &str) -> (r: String)
    ensures
        r@ == letters(s@),
{
    let v = chars_of(s);
    let mut r = String::new();
    let mut i: usize = 0;
    proof {
        reveal(Seq::filter);
        assert(r@ =~= letters(v@.take(0)));
    }
    while i < v.len()
        invariant
            i <= v@.len(),
            r@ == letters(v@.take(i as int)),
        decreases v@.len() - i,
    {
        assert(v@.take(i + 1).drop_last() =~= v@.take(i as int));
        proof {
            reveal(Seq::filter);
        }
        let c = v[i];
        if ('a' <= c && c <= 'z') || ('A' <= c && c <= 'Z') {
            r.push(c);
        }
        i = i + 1;
    }
    assert(v@.take(v@.len() as int) =~= v@);
    r
}

/// The shape of a statement, for the audit and the log. The statement itself stands in neither: it
/// holds the values a query filtered on, and a log that copied them would be a second place the
/// data lives.
pub fn statement_shape(sql: &str) -> (r: String)
    ensures
        r@ == shape(sql@),
{
    let words = split_words(sql);
    assert(text::views(words@).len() == words@.len());
    if words.len() == 0 {
        let r = String::new();
        assert(r@ =~= Seq::empty());
        return r;
    }
    assert(text::views(words@)[0] == words@[0]@);
    let mut first = keep_letters(to_lower(words[0].as_str()).as_str());
    if words.len() > 1 {
        assert(text::views(words@)[1] == words@[1]@);
        let second = to_lower(words[1].as_str());
        if is_keyword(second.as_str()) {
            first.append(" ");
            first.append(second.as_str());
        }
    }
    first
}

/// Nothing a caller chose stands behind the first word of a shape: whatever follows it in the
/// statement is left out unless it is one of a few words.
pub proof fn shapes_carry_no_values(a: Seq<char>, b: Seq<char>)
    requires
        text::words(a).len() > 1,
        text::words(b).len() > 1,
        text::words(a)[0] == text::words(b)[0],
        !keywords().contains(text::lowercase(text::words(a)[1])),
        !keywords().contains(text::lowercase(text::words(b)[1])),
    ensures
        shape(a) == shape(b),
{
}

// --- entries ----------------------------------------------------------------------------------

/// What a table was read under: the rows it was filtered to, and what stood in for its columns.
#[derive(PartialEq, Eq, Debug)]
pub struct Restriction {
    /// The table.
    pub table: TableName,
    /// The rows it was filtered to, where it was.
    pub row_filter: Option<String>,
    /// What stood in for its columns, by column.
    pub column_masks: Vec<(String, String)>,
}

/// What was decided of a read: refused, or granted under a restriction.
#[derive(PartialEq, Eq, Debug)]
pub struct AuditEntry {
    /// The table it is about.
    pub table: TableName,
    /// The place of the restriction it was granted under among those in force, where it was.
    pub granted_under: Option<usize>,
    /// The shape of the statement.
    pub statement: String,
    /// The rows it returned, where it returned any.
    pub rows: Option<u64>,
    /// The version of the data.
    pub snapshot: u64,
}

/// What was decided of a read, as text.
#[verifier::ext_equal]
pub struct EntryView {
    /// The table it is about.
    pub table: (Seq<char>, Seq<char>),
    /// The place of the restriction it was granted under among those in force, where it was.
    pub granted_under: Option<int>,
    /// The shape of the statement.
    pub statement: Seq<char>,
    /// The rows it returned, where it returned any.
    pub rows: Option<u64>,
    /// The version of the data.
    pub snapshot: u64,
}

impl View for AuditEntry {
    type V = EntryView;

    open spec fn view(&self) -> EntryView {
        EntryView {
            table: self.table@,
            granted_under: match self.granted_under {
                Some(i) => Some(i as int),
                None => None,
            },
            statement: self.statement@,
            rows: self.rows,
            snapshot: self.snapshot,
        }
    }
}

/// Whether a restriction is about a table that a plan reached: by its bare name where the plan
/// gives no schema.
pub open spec fn is_about(restriction: Restriction, table: (Seq<char>, Seq<char>)) -> bool {
    restriction.table.table@ == table.1 && (table.0.len() == 0 || restriction.table.schema@ == table.0)
}

/// The place of the first restriction about a table.
pub open spec fn restriction_of(restrictions: Seq<Restriction>, table: (Seq<char>, Seq<char>)) -> Option<int>
    decreases restrictions.len(),
{
    if restrictions.len() == 0 {
        None
    } else {
        match restriction_of(restrictions.drop_last(), table) {
            Some(i) => Some(i),
            None => if is_about(restrictions.last(), table) {
                Some(restrictions.len() - 1)
            } else {
                None
            },
        }
    }
}

/// The entry of one table that a statement reached: by its qualified name, whichever was typed. A
/// table that no restriction is about was not authorised, and is recorded as refused.
pub open spec fn entry_for(
    restrictions: Seq<Restriction>,
    table: (Seq<char>, Seq<char>),
    sql: Seq<char>,
    rows: Option<u64>,
    snapshot: u64,
) -> EntryView {
    let under = restriction_of(restrictions, table);
    EntryView {
        table: match under {
            Some(i) => restrictions[i].table@,
            None => table,
        },
        granted_under: under,
        statement: shape(sql),
        rows,
        snapshot,
    }
}

/// The entries of a statement: one for each table its plan reached, or one that names its shape.
pub open spec fn entries_for(
    restrictions: Seq<Restriction>,
    touched: Seq<(Seq<char>, Seq<char>)>,
    sql: Seq<char>,
    rows: Option<u64>,
    snapshot: u64,
) -> Seq<EntryView> {
    if touched.len() == 0 {
        seq![
            EntryView {
                table: (Seq::empty(), shape(sql)),
                granted_under: None,
                statement: shape(sql),
                rows,
                snapshot,
            },
        ]
    } else {
        touched.map_values(|table: (Seq<char>, Seq<char>)| entry_for(restrictions, table, sql, rows, snapshot))
    }
}

proof fn lemma_first_restriction(restrictions: Seq<Restriction>, table: (Seq<char>, Seq<char>), i: int)
    requires
        0 <= i <= restrictions.len(),
        restriction_of(restrictions.take(i), table) is Some,
    ensures
        restriction_of(restrictions, table) == restriction_of(restrictions.take(i), table),
    decreases restrictions.len(),
{
    if i < restrictions.len() {
        assert(restrictions.drop_last().take(i) =~= restrictions.take(i));
        lemma_first_restriction(restrictions.drop_last(), table, i);
    } else {
        assert(restrictions.take(i) =~= restrictions);
    }
}

fn find_restriction(restrictions: &Vec<Restriction>, table: &TableName) -> (r: Option<usize>)
    ensures
        (match r {
            Some(i) => Some(i as int),
            None => None,
        }) == restriction_of(restrictions@, table@),
        r matches Some(i) ==> i < restrictions@.len(),
{
    let mut i: usize = 0;
    while i < restrictions.len()
        invariant
            i <= restrictions@.len(),
            restriction_of(restrictions@.take(i as int), table@) is None,
        decreases restrictions@.len() - i,
    {
        assert(restrictions@.take(i + 1).drop_last() =~= restrictions@.take(i as int));
        if same(restrictions[i].table.table.as_str(), table.table.as_str()) && (table.schema.as_str().is_empty()
            || same(restrictions[i].table.schema.as_str(), table.schema.as_str())) {
            proof {
                lemma_first_restriction(restrictions@, table@, i + 1);
            }
            return Some(i);
        }
        i = i + 1;
    }
    assert(restrictions@.take(restrictions@.len() as int) =~= restrictions@);
    None
}

/// What entries say.
pub open spec fn entry_views(entries: Seq<AuditEntry>) -> Seq<EntryView> {
    entries.map_values(|entry: AuditEntry| entry@)
}

/// The entries of a statement: `touched` are the tables its plan scanned, rather than all that its
/// session may read, because an entry about a table nobody read would be read as a fact.
pub fn record_read(
    restrictions: &Vec<Restriction>,
    touched: &Vec<TableName>,
    sql: &str,
    rows: Option<u64>,
    snapshot: u64,
) -> (r: Vec<AuditEntry>)
    ensures
        entry_views(r@) == entries_for(
            restrictions@,
            touched@.map_values(|table: TableName| table@),
            sql@,
            rows,
            snapshot,
        ),
{
    let ghost tables = touched@.map_values(|table: TableName| table@);
    let ghost expected = entries_for(restrictions@, tables, sql@, rows, snapshot);
    let mut r: Vec<AuditEntry> = Vec::new();
    if touched.len() == 0 {
        let named = TableName { schema: String::new(), table: statement_shape(sql) };
        assert(named@.0 =~= Seq::empty());
        r.push(AuditEntry { table: named, granted_under: None, statement: statement_shape(sql), rows, snapshot });
        assert(entry_views(r@) =~= expected);
        return r;
    }
    let mut i: usize = 0;
    while i < touched.len()
        invariant
            i <= touched@.len(),
            touched@.len() > 0,
            tables == touched@.map_values(|table: TableName| table@),
            expected == entries_for(restrictions@, tables, sql@, rows, snapshot),
            r@.len() == i,
            forall|k: int| 0 <= k < i ==> (#[trigger] r@[k])@ == expected[k],
        decreases touched@.len() - i,
    {
        let under = find_restriction(restrictions, &touched[i]);
        let named = match under {
            Some(k) => restrictions[k].table.clone(),
            None => touched[i].clone(),
        };
        let entry = AuditEntry {
            table: named,
            granted_under: under,
            statement: statement_shape(sql),
            rows,
            snapshot,
        };
        assert(entry@ =~= expected[i as int]);
        r.push(entry);
        i = i + 1;
    }
    assert(entry_views(r@) =~= expected);
    r
}

/// Every statement leaves an entry, and every table it reached leaves one of its own.
pub proof fn every_read_is_recorded(
    restrictions: Seq<Restriction>,
    touched: Seq<(Seq<char>, Seq<char>)>,
    sql: Seq<char>,
    rows: Option<u64>,
    snapshot: u64,
)
    ensures
        entries_for(restrictions, touched, sql, rows, snapshot).len() == if touched.len() == 0 {
            1
        } else {
            touched.len()
        },
{
}

proof fn lemma_restriction(restrictions: Seq<Restriction>, table: (Seq<char>, Seq<char>))
    ensures
        restriction_of(restrictions, table) matches Some(i) ==> 0 <= i < restrictions.len() && is_about(
            restrictions[i],
            table,
        ),
    decreases restrictions.len(),
{
    if restrictions.len() > 0 {
        lemma_restriction(restrictions.drop_last(), table);
    }
}

/// A read is recorded as granted only under a restriction about the very table it is of.
pub proof fn grants_name_their_restriction(
    restrictions: Seq<Restriction>,
    table: (Seq<char>, Seq<char>),
    sql: Seq<char>,
    rows: Option<u64>,
    snapshot: u64,
)
    ensures
        entry_for(restrictions, table, sql, rows, snapshot).granted_under matches Some(i) ==> 0 <= i
            < restrictions.len() && is_about(restrictions[i], table) && entry_for(
            restrictions,
            table,
            sql,
            rows,
            snapshot,
        ).table == restrictions[i].table@,
{
    lemma_restriction(restrictions, table);
}

/// What is complained of when the chain of entries is read back: what could not be read, then that
/// it does not verify, then that it cannot be written to.
pub open spec fn complaints(
    read: Seq<Seq<char>>,
    broken: Option<Seq<char>>,
    unwritable: Option<Seq<char>>,
) -> Seq<Seq<char>> {
    let verified = match broken {
        Some(why) => read.push("the stored audit chain does not verify: "@ + why),
        None => read,
    };
    match unwritable {
        Some(why) => verified.push("the audit could not be written to disk: "@ + why),
        None => verified,
    }
}

/// What is complained of when the chain of entries is read back at startup.
pub fn resume_audit(read: Vec<String>, broken: Option<String>, unwritable: Option<String>) -> (r: Vec<String>)
    ensures
        text::views(r@) == complaints(
            text::views(read@),
            crate::wire::cell(broken),
            crate::wire::cell(unwritable),
        ),
{
    let ghost before = text::views(read@);
    let mut r = read;
    if let Some(why) = broken {
        let mut said = "the stored audit chain does not verify: ".to_string();
        said.append(why.as_str());
        let ghost added = said@;
        r.push(said);
        assert(text::views(r@) =~= before.push(added));
    }
    let ghost verified = text::views(r@);
    if let Some(why) = unwritable {
        let mut said = "the audit could not be written to disk: ".to_string();
        said.append(why.as_str());
        let ghost added = said@;
        r.push(said);
        assert(text::views(r@) =~= verified.push(added));
    }
    r
}

/// What the log says of a statement, for whoever runs the server.
#[derive(PartialEq, Eq, Debug)]
pub struct LogLine {
    /// The shape of the statement.
    pub shape: String,
    /// How many tables its plan scanned.
    pub scanned: usize,
    /// How many rows it returned.
    pub row_count: u64,
    /// How long it took, in milliseconds, as far as they can be counted.
    pub millis: u64,
    /// Whether it was answered.
    pub outcome: &'static str,
}

/// What the log says of a statement: a count of rows and never the rows, the shape and never the
/// statement.
pub fn log_statement(sql: &str, touched: &Vec<TableName>, rows: Option<u64>, took_millis: u128, refused: bool) -> (r:
    LogLine)
    ensures
        r.shape@ == shape(sql@),
        r.scanned == touched@.len(),
        r.row_count == (match rows {
            Some(rows) => rows,
            None => 0,
        }),
        r.millis == (if took_millis <= u64::MAX {
            took_millis as int
        } else {
            u64::MAX as int
        }),
        r.outcome@ == (if refused {
            "refused"@
        } else {
            "answered"@
        }),
{
    LogLine {
        shape: statement_shape(sql),
        scanned: touched.len(),
        row_count: match rows {
            Some(rows) => rows,
            None => 0,
        },
        millis: if took_millis <= u64::MAX as u128 {
            took_millis as u64
        } else {
            u64::MAX
        },
        outcome: if refused {
            "refused"
        } else {
            "answered"
        },
    }
}

/// A shape is the first word, and with it the second where that says what kind of thing is spoken of; names and
/// values are no part of it.
pub proof fn shapes_are_the_words_of_a_statement(first: Seq<char>, second: Seq<char>, rest: Seq<char>)
    requires
        first.len() > 0,
        second.len() > 0,
        forall|i: int| 0 <= i < first.len() ==> 'a' <= #[trigger] first[i] <= 'z',
        forall|i: int| 0 <= i < second.len() ==> 'a' <= #[trigger] second[i] <= 'z',
    ensures
        ({
            let said = shape(first + seq![' '] + second + seq![' '] + rest);
            let kind = second == "table"@ || second == "tables"@ || second == "view"@ || second == "cube"@
                || second == "cubes"@ || second == "feed"@ || second == "feeds"@ || second == "snapshot"@
                || second == "snapshots"@ || second == "aggregation"@ || second == "aggregations"@
                || second == "index"@ || second == "schema"@ || second == "database"@ || second == "role"@
                || second == "user"@ || second == "graph"@ || second == "into"@ || second == "from"@
                || second == "all"@ || second == "current"@;
            (kind ==> said == first + seq![' '] + second) && (!kind ==> said == first)
        }),
{
    reveal_strlit(" ");
    let front = first + seq![' '] + second;
    text::white_space_parts_words(front, ' ', rest);
    text::white_space_parts_words(first, ' ', second);
    assert forall|i: int| 0 <= i < first.len() implies !text::is_space(#[trigger] first[i]) by {}
    assert forall|i: int| 0 <= i < second.len() implies !text::is_space(#[trigger] second[i]) by {}
    text::unbroken_text_is_a_word(first);
    text::unbroken_text_is_a_word(second);
    let words = text::words(front + seq![' '] + rest);
    assert(words[0] == first && words[1] == second);
    lemma_small_letters(first);
    lemma_small_letters(second);
    keywords_are_these(second);
}

/// Small letters stay as they are when a text is put in small letters and the rest is left out.
proof fn lemma_small_letters(s: Seq<char>)
    requires
        forall|i: int| 0 <= i < s.len() ==> 'a' <= #[trigger] s[i] <= 'z',
    ensures
        text::lowercase(s) == s,
        letters(s) == s,
    decreases s.len(),
{
    assert(text::lower_ascii(s) =~= s);
    assert(text::all_ascii(s));
    reveal(Seq::filter);
    if s.len() > 0 {
        let before = s.drop_last();
        assert forall|i: int| 0 <= i < before.len() implies 'a' <= #[trigger] before[i] <= 'z' by {
            assert(s[i] == before[i]);
        }
        lemma_small_letters(before);
        assert(s.last() == s[s.len() - 1]);
        assert(before.push(s.last()) =~= s);
    }
}

/// The words that say what kind of thing a statement speaks of are these.
pub proof fn keywords_are_these(word: Seq<char>)
    ensures
        keywords().contains(word) <==> word == "table"@ || word == "tables"@ || word == "view"@ || word == "cube"@
            || word == "cubes"@ || word == "feed"@ || word == "feeds"@ || word == "snapshot"@ || word == "snapshots"@
            || word == "aggregation"@ || word == "aggregations"@ || word == "index"@ || word == "schema"@
            || word == "database"@ || word == "role"@ || word == "user"@ || word == "graph"@ || word == "into"@
            || word == "from"@ || word == "all"@ || word == "current"@,
{
    let list = keywords();
    if keywords().contains(word) {
        let k = choose|k: int| 0 <= k < list.len() && list[k] == word;
    }
    assert(list[0] == "table"@);
    assert(list[1] == "tables"@);
    assert(list[2] == "view"@);
    assert(list[3] == "cube"@);
    assert(list[4] == "cubes"@);
    assert(list[5] == "feed"@);
    assert(list[6] == "feeds"@);
    assert(list[7] == "snapshot"@);
    assert(list[8] == "snapshots"@);
    assert(list[9] == "aggregation"@);
    assert(list[10] == "aggregations"@);
    assert(list[11] == "index"@);
    assert(list[12] == "schema"@);
    assert(list[13] == "database"@);
    assert(list[14] == "role"@);
    assert(list[15] == "user"@);
    assert(list[16] == "graph"@);
    assert(list[17] == "into"@);
    assert(list[18] == "from"@);
    assert(list[19] == "all"@);
    assert(list[20] == "current"@);
}

/// Only letters are kept of the first word, in order.
pub proof fn letters_are_what_is_kept(s: Seq<char>)
    ensures
        forall|i: int|
            0 <= i < letters(s).len() ==> ('a' <= #[trigger] letters(s)[i] <= 'z' || 'A' <= letters(s)[i] <= 'Z')
                && s.contains(letters(s)[i]),
        forall|i: int|
            0 <= i < s.len() && ('a' <= #[trigger] s[i] <= 'z' || 'A' <= s[i] <= 'Z') ==> letters(s).contains(s[i]),
{
    let p = |c: char| is_letter(c);
    assert forall|i: int|
        0 <= i < s.len() && ('a' <= #[trigger] s[i] <= 'z' || 'A' <= s[i] <= 'Z') implies letters(s).contains(s[i]) by {
        s.lemma_filter_contains(p, i);
    }
    assert forall|i: int| 0 <= i < letters(s).len() implies ('a' <= #[trigger] letters(s)[i] <= 'z' || 'A' <= letters(
        s,
    )[i] <= 'Z') && s.contains(letters(s)[i]) by {
        s.lemma_filter_pred(p, i);
        assert(s.filter(p).contains(s.filter(p)[i]));
        s.lemma_filter_contains_rev(p, s.filter(p)[i]);
    }
}

/// A read is granted under the first restriction that is about its table: of the same name, and in the same
/// schema where one is given.
pub proof fn reads_are_granted_under_the_first(restrictions: Seq<Restriction>, table: (Seq<char>, Seq<char>))
    ensures
        match restriction_of(restrictions, table) {
            Some(i) => lists::first_at(
                restrictions,
                i,
                |r: Restriction| r.table.table@ == table.1 && (table.0.len() == 0 || r.table.schema@ == table.0),
            ),
            None => lists::nowhere(
                restrictions,
                |r: Restriction| r.table.table@ == table.1 && (table.0.len() == 0 || r.table.schema@ == table.0),
            ),
        },
    decreases restrictions.len(),
{
    let p = |r: Restriction| r.table.table@ == table.1 && (table.0.len() == 0 || r.table.schema@ == table.0);
    if restrictions.len() > 0 {
        let before = restrictions.drop_last();
        reads_are_granted_under_the_first(before, table);
        match restriction_of(before, table) {
            Some(i) => {
                assert(restrictions[i] == before[i]);
                assert forall|k: int| 0 <= k < i implies !p(#[trigger] restrictions[k]) by {
                    assert(!p(before[k]));
                }
            },
            None => {
                assert forall|k: int| 0 <= k < before.len() implies !p(#[trigger] restrictions[k]) by {
                    assert(!p(before[k]));
                }
            },
        }
    }
}

/// Each read is recorded of its own table, with the rows and the snapshot that were read and the shape of the
/// statement; a statement that touched no table is recorded once.
pub proof fn reads_are_recorded_as_they_were(
    restrictions: Seq<Restriction>,
    touched: Seq<(Seq<char>, Seq<char>)>,
    sql: Seq<char>,
    rows: Option<u64>,
    snapshot: u64,
    i: int,
)
    requires
        0 <= i < entries_for(restrictions, touched, sql, rows, snapshot).len(),
    ensures
        ({
            let entry = entries_for(restrictions, touched, sql, rows, snapshot)[i];
            &&& entry.rows == rows && entry.snapshot == snapshot && entry.statement == shape(sql)
            &&& touched.len() > 0 ==> entry.table.1 == touched[i].1 && (touched[i].0.len() > 0 ==> entry.table
                == touched[i]) && (entry.granted_under is None ==> entry.table == touched[i])
            &&& touched.len() == 0 ==> entry.granted_under is None
        }),
{
    if touched.len() > 0 {
        lemma_restriction(restrictions, touched[i]);
    }
}

/// What is complained of is what could not be read, and behind it what is broken and what cannot be written,
/// each where it is so.
pub proof fn faults_of_the_chain_are_said(
    read: Seq<Seq<char>>,
    broken: Option<Seq<char>>,
    unwritable: Option<Seq<char>>,
)
    ensures
        ({
            let said = complaints(read, broken, unwritable);
            &&& read.is_prefix_of(said)
            &&& broken is None && unwritable is None ==> said == read
            &&& broken is Some ==> said.len() > read.len() && said[read.len() as int]
                == "the stored audit chain does not verify: "@ + broken->0
            &&& unwritable is Some ==> said.len() > read.len() && said.last()
                == "the audit could not be written to disk: "@ + unwritable->0
            &&& broken is Some && unwritable is Some ==> said.len() == read.len() + 2
            &&& (broken is Some) != (unwritable is Some) ==> said.len() == read.len() + 1
        }),
{
}

} // verus!
