//! Taking a backup and proving that it restores.
//!
//! That a backup could not be looked at is told from that nothing is wrong with it: a monitor that
//! took the one for the other would report as proven what nothing examined.

use crate::numerals::{self, decimal_text};
use crate::text;
use vstd::prelude::*;

verus! {

/// The status of a backup that is proven.
pub const PROVEN: i32 = 0;

/// The status of a backup with a table that did not verify.
pub const NOT_PROVEN: i32 = 1;

/// The status of a backup that could not be looked at.
pub const COULD_NOT_RUN: i32 = 2;

/// How long a backup is kept, in microseconds: ninety days.
pub const RETENTION_MICROS: i64 = 7_776_000_000_000;

/// When a backup taken now may go.
pub fn keep_until(now: i64) -> (r: i64)
    requires
        now <= i64::MAX - RETENTION_MICROS,
    ensures
        r == now + RETENTION_MICROS,
{
    now + RETENTION_MICROS
}

/// What is said of each table that could not be read.
pub open spec fn unread(refused: Seq<(Seq<char>, Seq<char>)>) -> Seq<Seq<char>> {
    refused.map_values(|table: (Seq<char>, Seq<char>)| "  COULD NOT READ "@ + table.0 + ": "@ + table.1)
}

/// What is complained of before a backup is taken. A backup without a table it could not read
/// restores, looks complete, and lacks a table.
pub open spec fn obstacles(
    warehouse: Seq<char>,
    refused: Seq<(Seq<char>, Seq<char>)>,
    found: nat,
) -> Seq<Seq<char>> {
    if refused.len() > 0 {
        unread(refused).push(
            "\nRefusing to record a partial backup. A backup missing a table restores cleanly and is missing a table, and nothing about it says so."@,
        )
    } else if found == 0 {
        seq!["no tables found under "@ + warehouse]
    } else {
        Seq::empty()
    }
}

/// What is complained of before a backup is taken; it is taken where there is nothing.
pub fn may_take(warehouse: &str, refused: &Vec<(String, String)>, found: usize) -> (r: Vec<String>)
    ensures
        text::views(r@) == obstacles(warehouse@, crate::config::pairs(refused@), found as nat),
        r@.len() == 0 <==> refused@.len() == 0 && found > 0,
{
    let ghost expected = unread(crate::config::pairs(refused@));
    let mut r: Vec<String> = Vec::new();
    assert(text::views(r@) =~= Seq::empty());
    if refused.len() == 0 {
        if found == 0 {
            let mut said = "no tables found under ".to_string();
            said.append(warehouse);
            let ghost only = said@;
            r.push(said);
            assert(text::views(r@) =~= seq![only]);
        }
        return r;
    }
    let mut i: usize = 0;
    while i < refused.len()
        invariant
            i <= refused@.len(),
            expected == unread(crate::config::pairs(refused@)),
            r@.len() == i,
            forall|k: int| 0 <= k < i ==> (#[trigger] r@[k])@ == expected[k],
        decreases refused@.len() - i,
    {
        let mut said = "  COULD NOT READ ".to_string();
        said.append(refused[i].0.as_str());
        said.append(": ");
        said.append(refused[i].1.as_str());
        assert(said@ == expected[i as int]);
        r.push(said);
        i = i + 1;
    }
    assert(text::views(r@) =~= expected);
    let ghost was = r@;
    let refusal =
        "\nRefusing to record a partial backup. A backup missing a table restores cleanly and is missing a table, and nothing about it says so.".to_string();
    let ghost added = refusal@;
    r.push(refusal);
    assert(text::views(r@) =~= text::views(was).push(added));
    r
}

/// A table as it was digested: the version and the rows, or why it could not be.
pub struct Digested {
    /// Its name.
    pub name: String,
    /// The version it stands at and the rows it holds, or why that cannot be told.
    pub outcome: Result<(u64, u64), String>,
}

/// What is said of a table that was digested, or of one that could not be.
pub open spec fn digest_line(table: Digested) -> Seq<char> {
    match table.outcome {
        Ok((version, rows)) => "  "@ + table.name@ + " at version "@ + numerals::decimal(version as nat) + ", "@
            + numerals::decimal(rows as nat) + " row(s)"@,
        Err(why) => "  COULD NOT DIGEST "@ + table.name@ + ": "@ + why@,
    }
}

/// How many tables there are up to and with the first that could not be digested.
pub open spec fn looked_at(tables: Seq<Digested>) -> int
    decreases tables.len(),
{
    if tables.len() == 0 {
        0
    } else if tables[0].outcome is Err {
        1
    } else {
        1 + looked_at(tables.skip(1))
    }
}

/// What is said while a backup is taken, table by table, up to the first that could not be digested,
/// and whether all were.
pub fn take(tables: &Vec<Digested>) -> (r: (Vec<String>, bool))
    ensures
        text::views(r.0@) == tables@.take(looked_at(tables@)).map_values(|t: Digested| digest_line(t)),
        r.1 <==> forall|i: int| 0 <= i < tables@.len() ==> (#[trigger] tables@[i]).outcome is Ok,
{
    let mut lines: Vec<String> = Vec::new();
    let mut i: usize = 0;
    assert(tables@.skip(0) =~= tables@);
    while i < tables.len()
        invariant
            i <= tables@.len(),
            lines@.len() == i,
            looked_at(tables@) == i + looked_at(tables@.skip(i as int)),
            forall|k: int| 0 <= k < i ==> (#[trigger] lines@[k])@ == digest_line(tables@[k]),
            forall|k: int| 0 <= k < i ==> (#[trigger] tables@[k]).outcome is Ok,
        decreases tables@.len() - i,
    {
        assert(tables@.skip(i as int).skip(1) =~= tables@.skip(i + 1));
        assert(tables@.skip(i as int)[0] == tables@[i as int]);
        match &tables[i].outcome {
            Ok((version, rows)) => {
                let mut said = "  ".to_string();
                said.append(tables[i].name.as_str());
                said.append(" at version ");
                said.append(decimal_text(*version).as_str());
                said.append(", ");
                said.append(decimal_text(*rows).as_str());
                said.append(" row(s)");
                lines.push(said);
            },
            Err(why) => {
                let mut said = "  COULD NOT DIGEST ".to_string();
                said.append(tables[i].name.as_str());
                said.append(": ");
                said.append(why.as_str());
                lines.push(said);
                assert(text::views(lines@) =~= tables@.take(i + 1).map_values(|t: Digested| digest_line(t)));
                assert(tables@[i as int].outcome is Err);
                return (lines, false);
            },
        }
        i = i + 1;
    }
    assert(text::views(lines@) =~= tables@.take(i as int).map_values(|t: Digested| digest_line(t)));
    (lines, true)
}

/// What a drill shows: the outcome of each table, and how many failed.
pub struct Drill {
    /// Each table with what became of it.
    pub tables: Vec<(String, String)>,
    /// How many did not verify.
    pub failures: usize,
    /// Whether the backup is proven.
    pub passed: bool,
}

/// What is said of a drill.
pub open spec fn drill_lines(drill: Drill) -> Seq<Seq<char>> {
    crate::config::pairs(drill.tables@).map_values(
        |t: (Seq<char>, Seq<char>)| "  "@ + t.0 + ": "@ + t.1,
    ).push(Seq::empty()).push(
        if drill.passed {
            "Proven. "@ + numerals::decimal(drill.tables@.len()) + " table(s) read back and digested."@
        } else {
            "NOT PROVEN. "@ + numerals::decimal(drill.failures as nat) + " of "@ + numerals::decimal(
                drill.tables@.len(),
            ) + " table(s) did not verify — this backup would not restore what it claims to hold."@
        },
    )
}

/// What is said of a drill, and its status; one whose result could not be written down is as good as
/// one that never ran.
pub fn run_drill(drill: &Drill, unrecorded: Option<&str>) -> (r: (Vec<String>, i32))
    ensures
        match unrecorded {
            Some(why) => text::views(r.0@) == seq!["  "@ + why@] && r.1 == COULD_NOT_RUN,
            None => text::views(r.0@) == drill_lines(*drill) && r.1 == (if drill.passed {
                PROVEN
            } else {
                NOT_PROVEN
            }),
        },
{
    let mut lines: Vec<String> = Vec::new();
    if let Some(why) = unrecorded {
        let mut said = "  ".to_string();
        said.append(why);
        let ghost only = said@;
        lines.push(said);
        assert(text::views(lines@) =~= seq![only]);
        return (lines, COULD_NOT_RUN);
    }
    let ghost expected = drill_lines(*drill);
    let mut i: usize = 0;
    while i < drill.tables.len()
        invariant
            i <= drill.tables@.len(),
            expected == drill_lines(*drill),
            lines@.len() == i,
            forall|k: int| 0 <= k < i ==> (#[trigger] lines@[k])@ == expected[k],
        decreases drill.tables@.len() - i,
    {
        let mut said = "  ".to_string();
        said.append(drill.tables[i].0.as_str());
        said.append(": ");
        said.append(drill.tables[i].1.as_str());
        assert(said@ == expected[i as int]);
        lines.push(said);
        i = i + 1;
    }
    let blank = String::new();
    assert(blank@ =~= Seq::empty());
    lines.push(blank);
    let said = if drill.passed {
        let mut said = "Proven. ".to_string();
        said.append(decimal_text(drill.tables.len() as u64).as_str());
        said.append(" table(s) read back and digested.");
        said
    } else {
        let mut said = "NOT PROVEN. ".to_string();
        said.append(decimal_text(drill.failures as u64).as_str());
        said.append(" of ");
        said.append(decimal_text(drill.tables.len() as u64).as_str());
        said.append(" table(s) did not verify — this backup would not restore what it claims to hold.");
        said
    };
    lines.push(said);
    assert(text::views(lines@) =~= expected);
    let status: i32 = if drill.passed {
        PROVEN
    } else {
        NOT_PROVEN
    };
    (lines, status)
}

/// What is said once a backup was bound to a document and the document kept, or of what kept it from
/// being.
pub open spec fn recorded_lines(
    bound: Result<(Seq<char>, u64), Seq<char>>,
    path: Seq<char>,
    unwritten: Option<Seq<char>>,
) -> Seq<Seq<char>> {
    match (bound, unwritten) {
        (Err(why), _) => seq!["\n"@ + why],
        (Ok(_), Some(why)) => seq!["could not write "@ + path + ": "@ + why],
        (Ok((id, queryable_at)), None) => seq![
            Seq::empty(),
            "  "@ + id,
            "  queryable at "@ + numerals::decimal(queryable_at as nat),
            "  manifest "@ + path,
            Seq::empty(),
            "This backup is unproven until it has been drilled: `sankhya-server drill`."@,
        ],
    }
}

/// What is said once a backup was bound, or `bound` says why it could not be, and kept at a path, or
/// `unwritten` says why it could not be; and the status that ends in. A backup that was kept is not
/// proven by that, and what is said ends in saying so.
pub fn recorded(bound: Result<(String, u64), String>, path: &str, unwritten: Option<String>) -> (r: (Vec<String>, i32))
    ensures
        text::views(r.0@) == recorded_lines(
            match bound {
                Ok((id, queryable_at)) => Ok((id@, queryable_at)),
                Err(why) => Err(why@),
            },
            path@,
            crate::wire::cell(unwritten),
        ),
        r.1 == (if bound is Ok && unwritten is None {
            PROVEN
        } else {
            COULD_NOT_RUN
        }),
{
    let mut lines: Vec<String> = Vec::new();
    let (id, queryable_at) = match bound {
        Ok(bound) => bound,
        Err(why) => {
            let mut said = "\n".to_string();
            said.append(why.as_str());
            let ghost only = said@;
            lines.push(said);
            assert(text::views(lines@) =~= seq![only]);
            return (lines, COULD_NOT_RUN);
        },
    };
    if let Some(why) = unwritten {
        let mut said = "could not write ".to_string();
        said.append(path);
        said.append(": ");
        said.append(why.as_str());
        let ghost only = said@;
        lines.push(said);
        assert(text::views(lines@) =~= seq![only]);
        return (lines, COULD_NOT_RUN);
    }
    let mut named = "  ".to_string();
    named.append(id.as_str());
    let mut at = "  queryable at ".to_string();
    at.append(decimal_text(queryable_at).as_str());
    let mut kept = "  manifest ".to_string();
    kept.append(path);
    let first = String::new();
    let blank = String::new();
    assert(first@ =~= Seq::empty() && blank@ =~= Seq::empty());
    let ghost expected = seq![
        first@,
        named@,
        at@,
        kept@,
        blank@,
        "This backup is unproven until it has been drilled: `sankhya-server drill`."@,
    ];
    lines.push(first);
    lines.push(named);
    lines.push(at);
    lines.push(kept);
    lines.push(blank);
    lines.push("This backup is unproven until it has been drilled: `sankhya-server drill`.".to_string());
    assert(text::views(lines@) =~= expected);
    (lines, PROVEN)
}

/// What is said of a backup whose document cannot be read, and the status that ends in: a drill that
/// never ran proves nothing, and disproves nothing.
pub fn unreadable(path: &str, why: &str) -> (r: (String, i32))
    ensures
        r.0@ == "  could not read "@ + path@ + ": "@ + why@,
        r.1 == COULD_NOT_RUN,
{
    let mut said = "  could not read ".to_string();
    said.append(path);
    said.append(": ");
    said.append(why);
    (said, COULD_NOT_RUN)
}

/// A backup is kept for ninety days, and the outcomes are told apart by their numbers.
pub proof fn backups_are_kept_for_ninety_days()
    ensures
        RETENTION_MICROS == 90 * 24 * 60 * 60 * 1_000_000,
        PROVEN == 0 && NOT_PROVEN == 1 && COULD_NOT_RUN == 2,
{
}

/// Every table that could not be read stands in the way of a backup, each in a line, and so does a warehouse
/// without tables.
pub proof fn obstacles_are_said(warehouse: Seq<char>, refused: Seq<(Seq<char>, Seq<char>)>, found: nat)
    ensures
        ({
            let lines = obstacles(warehouse, refused, found);
            &&& lines.len() == 0 <==> refused.len() == 0 && found > 0
            &&& refused.len() > 0 ==> lines.len() == refused.len() + 1
            &&& forall|i: int|
                0 <= i < refused.len() ==> #[trigger] lines[i] == "  COULD NOT READ "@ + refused[i].0 + ": "@
                    + refused[i].1
            &&& refused.len() == 0 && found == 0 ==> lines == seq!["no tables found under "@ + warehouse]
        }),
{
}

/// Tables are digested up to and with the first that cannot be, and all of them where each can be.
pub proof fn digests_stop_at_the_first_failure(tables: Seq<Digested>)
    ensures
        0 <= looked_at(tables) <= tables.len(),
        forall|i: int| 0 <= i < looked_at(tables) - 1 ==> (#[trigger] tables[i]).outcome is Ok,
        looked_at(tables) < tables.len() ==> looked_at(tables) > 0 && tables[looked_at(tables) - 1].outcome is Err,
    decreases tables.len(),
{
    if tables.len() > 0 && !(tables[0].outcome is Err) {
        let rest = tables.skip(1);
        digests_stop_at_the_first_failure(rest);
        assert forall|i: int| 0 <= i < looked_at(tables) - 1 implies (#[trigger] tables[i]).outcome is Ok by {
            if i > 0 {
                assert(rest[i - 1] == tables[i]);
            }
        }
        if looked_at(tables) < tables.len() {
            assert(rest[looked_at(rest) - 1] == tables[looked_at(tables) - 1]);
        }
    }
}

/// A table's line names it, and says its version and its rows exactly where it was digested.
pub proof fn digests_are_said_of_their_table(table: Digested)
    ensures
        table.outcome matches Ok((version, rows)) ==> digest_line(table) == "  "@ + table.name@ + (" at version "@
            + numerals::decimal(version as nat) + (", "@ + numerals::decimal(rows as nat) + " row(s)"@)),
        table.outcome matches Err(why) ==> digest_line(table) == "  COULD NOT DIGEST "@ + (table.name@ + (": "@ + why@)),
{
    match table.outcome {
        Ok((version, rows)) => {
            assert(digest_line(table) =~= "  "@ + table.name@ + (" at version "@ + numerals::decimal(version as nat) + (
            ", "@ + numerals::decimal(rows as nat) + " row(s)"@)));
        },
        Err(why) => {
            assert(digest_line(table) =~= "  COULD NOT DIGEST "@ + (table.name@ + (": "@ + why@)));
        },
    }
}

/// A drill gives a line to every table and ends by saying that the backup is proven, exactly where it passed.
pub proof fn drills_say_what_is_proven(drill: Drill)
    ensures
        ({
            let lines = drill_lines(drill);
            let n = drill.tables@.len();
            &&& lines.len() == n + 2
            &&& forall|i: int|
                0 <= i < n ==> #[trigger] lines[i] == "  "@ + drill.tables@[i].0@ + ": "@ + drill.tables@[i].1@
            &&& lines[n as int].len() == 0
            &&& drill.passed <==> lines.last()[0] == 'P'
        }),
{
    reveal_strlit("Proven. ");
    reveal_strlit("NOT PROVEN. ");
    let lines = drill_lines(drill);
    if drill.passed {
        assert(lines.last()[0] == "Proven. "@[0]);
    } else {
        assert(lines.last()[0] == "NOT PROVEN. "@[0]);
    }
}

/// A backup that was bound and written is said with its name, the position it can be read at and its
/// manifest; one that was not is said with the reason alone.
pub proof fn records_say_what_was_kept(
    bound: Result<(Seq<char>, u64), Seq<char>>,
    path: Seq<char>,
    unwritten: Option<Seq<char>>,
)
    ensures
        recorded_lines(bound, path, unwritten).len() == 6 <==> bound is Ok && unwritten is None,
        recorded_lines(bound, path, unwritten).len() == 1 <==> bound is Err || unwritten is Some,
        bound is Ok && unwritten is None ==> ({
            let lines = recorded_lines(bound, path, unwritten);
            &&& lines[1] == "  "@ + (bound->Ok_0).0
            &&& lines[2] == "  queryable at "@ + numerals::decimal((bound->Ok_0).1 as nat)
            &&& lines[3] == "  manifest "@ + path
        }),
        bound matches Err(why) ==> recorded_lines(bound, path, unwritten)[0] == "\n"@ + why,
{
}

} // verus!
