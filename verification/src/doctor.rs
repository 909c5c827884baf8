//! What an operator is told when something feels wrong.
//!
//! The report ends in a status: clean, findings, or could not look. The third is never folded into
//! the first: a monitor that takes "I could not look" for "nothing found" is the failure this is
//! arranged against.

use crate::text::{self, chars_of, find_from, split_words, text_between};
use vstd::prelude::*;

verus! {

/// The status of a run that found nothing.
pub const CLEAN: i32 = 0;

/// The status of a run that found something.
pub const FINDINGS: i32 = 1;

/// The status of a run in which a check could not look.
pub const COULD_NOT_RUN: i32 = 2;

/// The check that watches free space.
pub const STORAGE_HEADROOM: &'static str = "storage-headroom";

/// What stands behind the first line break of a text, where there is one.
pub open spec fn behind_first_line(s: Seq<char>) -> Seq<char> {
    match text::first_from(s, seq!['\n'], 0) {
        Some(at) => s.skip(at + 1),
        None => Seq::empty(),
    }
}

/// A text up to its first line break.
pub open spec fn first_line(s: Seq<char>) -> Seq<char> {
    match text::first_from(s, seq!['\n'], 0) {
        Some(at) => s.take(at),
        None => s,
    }
}

/// The fourth column of the second line, where there is one: the blocks that are free, as `df -P`
/// prints them.
pub open spec fn free_blocks(printed: Seq<char>) -> Option<Seq<char>> {
    let columns = text::words(first_line(behind_first_line(printed)));
    if columns.len() > 3 {
        Some(columns[3])
    } else {
        None
    }
}

/// The blocks that are free, as `df -P` printed them; nothing where it printed no such column. Never
/// a zero made up: no free space is a plausible reading and a catastrophic one.
pub fn available_blocks(printed: &str) -> (r: Option<String>)
    ensures
        match r {
            Some(blocks) => free_blocks(printed@) == Some(blocks@),
            None => free_blocks(printed@) is None,
        },
{
    let v = chars_of(printed);
    let mut line_break: Vec<char> = Vec::new();
    line_break.push('\n');
    assert(line_break@ =~= seq!['\n']);
    proof {
        text::lemma_first_from(v@, line_break@, 0);
    }
    let end: usize = v.len();
    let from: usize = match find_from(&v, &line_break, 0) {
        Some(at) => at + 1,
        None => {
            proof {
                assert(first_line(Seq::<char>::empty()) =~= Seq::<char>::empty()) by {
                    text::lemma_first_from(Seq::empty(), seq!['\n'], 0);
                }
            }
            return None;
        },
    };
    let rest = text_between(&v, from, end);
    assert(rest@ =~= behind_first_line(printed@));
    let w = chars_of(rest.as_str());
    proof {
        text::lemma_first_from(w@, line_break@, 0);
    }
    let to: usize = match find_from(&w, &line_break, 0) {
        Some(at) => at,
        None => w.len(),
    };
    let line = text_between(&w, 0, to);
    assert(line@ =~= first_line(rest@));
    let columns = split_words(line.as_str());
    if columns.len() > 3 {
        Some(columns[3].clone())
    } else {
        None
    }
}

/// One thing a check comes to.
#[derive(PartialEq, Eq, Debug)]
pub enum Outcome {
    /// It found this.
    Found(String),
    /// It looked, and all is well.
    Clean(String),
    /// It could not look: the check, and why.
    Skipped(String, String),
}

/// What an outcome says.
pub enum OutcomeView {
    /// It found this.
    Found(Seq<char>),
    /// It looked, and all is well.
    Clean(Seq<char>),
    /// It could not look.
    Skipped(Seq<char>, Seq<char>),
}

impl View for Outcome {
    type V = OutcomeView;

    open spec fn view(&self) -> OutcomeView {
        match self {
            Outcome::Found(what) => OutcomeView::Found(what@),
            Outcome::Clean(check) => OutcomeView::Clean(check@),
            Outcome::Skipped(check, why) => OutcomeView::Skipped(check@, why@),
        }
    }
}

/// What the checks beside those of the tables come to.
#[derive(Debug)]
pub struct Checks {
    /// What the check of the last restore drill found.
    pub drill: Option<String>,
    /// Whether free space could be measured.
    pub measured: bool,
    /// What the check of free space found.
    pub headroom: Option<String>,
    /// Where the data lies, for a message.
    pub data_dir: String,
    /// Whether anything is archived.
    pub archived: bool,
    /// What the check of the archive found.
    pub attestation: Option<String>,
    /// The tables that could not be opened: where, and why.
    pub refused: Vec<(String, String)>,
}

/// What is added for the tables that could not be opened.
pub open spec fn skipped_tables(refused: Seq<(String, String)>) -> Seq<OutcomeView> {
    refused.map_values(|t: (String, String)| OutcomeView::Skipped("table-discovery"@, t.0@ + ": "@ + t.1@))
}

/// What is added to a report, in order. A control over an archive that does not exist is not
/// mentioned at all: it would fire on every installation from the first day.
pub open spec fn additions(checks: Checks) -> Seq<OutcomeView> {
    let drill = match checks.drill {
        Some(found) => OutcomeView::Found(found@),
        None => OutcomeView::Clean("restore-drill"@),
    };
    let headroom = if !checks.measured {
        OutcomeView::Skipped(
            STORAGE_HEADROOM@,
            "free space on "@ + checks.data_dir@ + " could not be measured"@,
        )
    } else {
        match checks.headroom {
            Some(found) => OutcomeView::Found(found@),
            None => OutcomeView::Clean(STORAGE_HEADROOM@),
        }
    };
    let archive = match checks.attestation {
        Some(found) => seq![OutcomeView::Found(found@)],
        None => if checks.archived {
            seq![OutcomeView::Clean("archive-attestation"@)]
        } else {
            Seq::empty()
        },
    };
    seq![drill, headroom] + archive + skipped_tables(checks.refused@)
}

/// What is added to a report for the checks beside those of the tables.
pub fn report_additions(checks: &Checks) -> (r: Vec<Outcome>)
    ensures
        r@.map_values(|o: Outcome| o@) == additions(*checks),
{
    let mut r: Vec<Outcome> = Vec::new();
    match &checks.drill {
        Some(found) => r.push(Outcome::Found(found.clone())),
        None => r.push(Outcome::Clean("restore-drill".to_string())),
    }
    if !checks.measured {
        let mut why = "free space on ".to_string();
        why.append(checks.data_dir.as_str());
        why.append(" could not be measured");
        r.push(Outcome::Skipped(STORAGE_HEADROOM.to_string(), why));
    } else {
        match &checks.headroom {
            Some(found) => r.push(Outcome::Found(found.clone())),
            None => r.push(Outcome::Clean(STORAGE_HEADROOM.to_string())),
        }
    }
    match &checks.attestation {
        Some(found) => r.push(Outcome::Found(found.clone())),
        None => {
            if checks.archived {
                r.push(Outcome::Clean("archive-attestation".to_string()));
            }
        },
    }
    let ghost expected = additions(*checks);
    let ghost head: int = r@.len() as int;
    let mut i: usize = 0;
    while i < checks.refused.len()
        invariant
            i <= checks.refused@.len(),
            expected == additions(*checks),
            head + checks.refused@.len() == expected.len(),
            r@.len() == head + i,
            forall|k: int| 0 <= k < r@.len() ==> (#[trigger] r@[k])@ == expected[k],
            forall|k: int|
                0 <= k < checks.refused@.len() ==> #[trigger] expected[head + k] == OutcomeView::Skipped(
                    "table-discovery"@,
                    checks.refused@[k].0@ + ": "@ + checks.refused@[k].1@,
                ),
        decreases checks.refused@.len() - i,
    {
        let mut why = checks.refused[i].0.clone();
        why.append(": ");
        why.append(checks.refused[i].1.as_str());
        assert(expected[head + i] == OutcomeView::Skipped("table-discovery"@, why@));
        r.push(Outcome::Skipped("table-discovery".to_string(), why));
        i = i + 1;
    }
    assert(r@.map_values(|o: Outcome| o@) =~= additions(*checks));
    r
}

/// The report an operator reads: what was found, the most urgent first, and which checks could not
/// look.
#[derive(Debug)]
pub struct Report {
    /// What was found.
    pub findings: Vec<String>,
    /// The checks that could not look, each with the reason.
    pub could_not_run: Vec<(String, String)>,
    /// The whole in a sentence.
    pub summary: String,
}

/// The lines of what was found.
pub open spec fn finding_lines(findings: Seq<String>) -> Seq<Seq<char>> {
    if findings.len() == 0 {
        seq!["Nothing to report."@]
    } else {
        findings.map_values(|f: String| "  "@ + f@)
    }
}

/// The lines of the checks that could not look.
pub open spec fn skipped_lines(skipped: Seq<(String, String)>) -> Seq<Seq<char>> {
    if skipped.len() == 0 {
        Seq::empty()
    } else {
        seq![""@, "Could not run:"@] + skipped.map_values(
            |s: (String, String)| "  ["@ + s.0@ + "] "@ + s.1@,
        )
    }
}

/// The lines of a report.
pub open spec fn report_lines(report: Report) -> Seq<Seq<char>> {
    seq![""@] + finding_lines(report.findings@) + skipped_lines(report.could_not_run@) + seq![""@, report.summary@]
}

/// The status a report ends in.
pub open spec fn status_of(report: Report) -> i32 {
    if report.could_not_run@.len() > 0 {
        COULD_NOT_RUN
    } else if report.findings@.len() == 0 {
        CLEAN
    } else {
        FINDINGS
    }
}

/// The lines of a report, and the status it ends in.
pub fn doctor(report: &Report) -> (r: (Vec<String>, i32))
    ensures
        text::views(r.0@) == report_lines(*report),
        r.1 == status_of(*report),
{
    let ghost expected = report_lines(*report);
    let ghost n: int = finding_lines(report.findings@).len() as int;
    let mut lines: Vec<String> = Vec::new();
    lines.push("".to_string());
    if report.findings.len() == 0 {
        lines.push("Nothing to report.".to_string());
    } else {
        let mut i: usize = 0;
        while i < report.findings.len()
            invariant
                i <= report.findings@.len(),
                lines@.len() == 1 + i,
                expected == report_lines(*report),
                report.findings@.len() > 0,
                forall|k: int| 0 <= k < lines@.len() ==> (#[trigger] lines@[k])@ == expected[k],
            decreases report.findings@.len() - i,
        {
            let mut line = "  ".to_string();
            line.append(report.findings[i].as_str());
            assert(expected[1 + i] == finding_lines(report.findings@)[i as int]);
            lines.push(line);
            i = i + 1;
        }
    }
    let ghost m: int = skipped_lines(report.could_not_run@).len() as int;
    if report.could_not_run.len() > 0 {
        assert(expected[1 + n] == skipped_lines(report.could_not_run@)[0]);
        assert(expected[2 + n] == skipped_lines(report.could_not_run@)[1]);
        lines.push("".to_string());
        lines.push("Could not run:".to_string());
        let mut i: usize = 0;
        while i < report.could_not_run.len()
            invariant
                i <= report.could_not_run@.len(),
                lines@.len() == 3 + n + i,
                n == finding_lines(report.findings@).len(),
                report.could_not_run@.len() > 0,
                expected == report_lines(*report),
                forall|k: int| 0 <= k < lines@.len() ==> (#[trigger] lines@[k])@ == expected[k],
            decreases report.could_not_run@.len() - i,
        {
            let mut line = "  [".to_string();
            line.append(report.could_not_run[i].0.as_str());
            line.append("] ");
            line.append(report.could_not_run[i].1.as_str());
            assert(expected[3 + n + i] == skipped_lines(report.could_not_run@)[2 + i]);
            lines.push(line);
            i = i + 1;
        }
    }
    assert(lines@.len() == 1 + n + m);
    assert(expected[1 + n + m] == ""@);
    assert(expected[2 + n + m] == report.summary@);
    lines.push("".to_string());
    lines.push(report.summary.clone());
    assert(text::views(lines@) =~= expected);
    let status = if report.could_not_run.len() > 0 {
        COULD_NOT_RUN
    } else if report.findings.len() == 0 {
        CLEAN
    } else {
        FINDINGS
    };
    (lines, status)
}

/// A run is clean exactly where every check looked and none found anything.
pub proof fn clean_means_looked(report: Report)
    ensures
        status_of(report) == CLEAN <==> report.findings@.len() == 0 && report.could_not_run@.len() == 0,
{
}

/// Of what is printed, the first line ends at the first line break, and the rest stands behind it.
pub proof fn lines_are_cut_at_the_first_break(line: Seq<char>, rest: Seq<char>)
    requires
        !line.contains('\n'),
    ensures
        first_line(line + seq!['\n'] + rest) == line,
        behind_first_line(line + seq!['\n'] + rest) == rest,
        first_line(line) == line,
        behind_first_line(line).len() == 0,
{
    let s = line + seq!['\n'] + rest;
    let n = line.len() as int;
    let cut = seq!['\n'];
    text::lemma_first_from(s, cut, 0);
    text::lemma_first_from(line, cut, 0);
    text::found_needles_are_there(s, cut, n);
    assert(s =~= s.take(n) + cut + s.skip(n + 1));
    assert forall|k: int| 0 <= k < n implies !#[trigger] text::stands_at(s, cut, k) by {
        if text::stands_at(s, cut, k) {
            assert(s.subrange(k, k + 1)[0] == '\n');
            assert(line[k] == '\n');
        }
    }
    assert forall|k: int| 0 <= k implies !#[trigger] text::stands_at(line, cut, k) by {
        if text::stands_at(line, cut, k) {
            assert(line.subrange(k, k + 1)[0] == '\n');
            assert(line[k] == '\n');
        }
    }
    assert(s.take(n) =~= line);
    assert(s.skip(n + 1) =~= rest);
}

/// The free space is the fourth column of the second line.
pub proof fn free_space_is_the_fourth_column(
    header: Seq<char>,
    a: Seq<char>,
    b: Seq<char>,
    c: Seq<char>,
    free: Seq<char>,
    rest: Seq<char>,
)
    requires
        !header.contains('\n'),
        !rest.contains('\n'),
        is_column(a),
        is_column(b),
        is_column(c),
        is_column(free),
    ensures
        free_blocks(
            header + seq!['\n'] + (a + seq![' '] + b + seq![' '] + c + seq![' '] + free + seq![' '] + rest),
        ) == Some(free),
        free_blocks(header) is None,
{
    let ab = a + seq![' '] + b;
    let abc = ab + seq![' '] + c;
    let abcd = abc + seq![' '] + free;
    let line = abcd + seq![' '] + rest;
    lines_are_cut_at_the_first_break(header, line);
    assert(!line.contains('\n')) by {
        if line.contains('\n') {
            let k = choose|k: int| 0 <= k < line.len() && line[k] == '\n';
            if k >= abcd.len() {
                if k > abcd.len() {
                    assert(rest[k - abcd.len() - 1] == '\n');
                }
            } else if k >= abc.len() {
                if k > abc.len() {
                    assert(free[k - abc.len() - 1] == '\n');
                }
            } else if k >= ab.len() {
                if k > ab.len() {
                    assert(c[k - ab.len() - 1] == '\n');
                }
            } else if k >= a.len() {
                if k > a.len() {
                    assert(b[k - a.len() - 1] == '\n');
                }
            } else {
                assert(a[k] == '\n');
            }
        }
    }
    lines_are_cut_at_the_first_break(line, Seq::empty());
    lines_are_cut_at_the_first_break(header, Seq::empty());
    text::white_space_parts_words(abcd, ' ', rest);
    text::white_space_parts_words(abc, ' ', free);
    text::white_space_parts_words(ab, ' ', c);
    text::white_space_parts_words(a, ' ', b);
    text::unbroken_text_is_a_word(a);
    text::unbroken_text_is_a_word(b);
    text::unbroken_text_is_a_word(c);
    text::unbroken_text_is_a_word(free);
    assert(text::words(line)[3] == free);
    let nothing = behind_first_line(header);
    assert(nothing =~= Seq::empty());
    lines_are_cut_at_the_first_break(nothing, Seq::empty());
    assert(text::words(nothing) =~= Seq::empty());
}

/// Whether a text can stand in a column: not empty, and without white space.
pub open spec fn is_column(s: Seq<char>) -> bool {
    &&& s.len() > 0
    &&& forall|i: int| 0 <= i < s.len() ==> !text::is_space(#[trigger] s[i])
}

/// What is added to a report: what the drill found, or that it is clean; what the headroom is, unless it could
/// not be measured; the archive where there is one; and every table that was refused.
pub proof fn checks_are_reported_one_by_one(checks: Checks)
    ensures
        ({
            let list = additions(checks);
            let archive: int = if checks.attestation is Some || checks.archived {
                1
            } else {
                0
            };
            &&& list.len() == 2 + archive + checks.refused@.len()
            &&& checks.drill is Some ==> list[0] == OutcomeView::Found((checks.drill->0)@)
            &&& checks.drill is None ==> list[0] == OutcomeView::Clean("restore-drill"@)
            &&& !checks.measured <==> list[1] is Skipped
            &&& checks.measured && checks.headroom is Some ==> list[1] == OutcomeView::Found((checks.headroom->0)@)
            &&& checks.measured && checks.headroom is None ==> list[1] == OutcomeView::Clean("storage-headroom"@)
            &&& checks.attestation is Some ==> list[2] == OutcomeView::Found((checks.attestation->0)@)
            &&& checks.attestation is None && checks.archived ==> list[2] == OutcomeView::Clean("archive-attestation"@)
            &&& forall|i: int|
                0 <= i < checks.refused@.len() ==> #[trigger] list[2 + archive + i] == OutcomeView::Skipped(
                    "table-discovery"@,
                    checks.refused@[i].0@ + ": "@ + checks.refused@[i].1@,
                )
        }),
{
}

/// A report ends with two where a check could not run, with nought where nothing was found, and else with one.
pub proof fn statuses_say_what_was_found(report: Report)
    ensures
        status_of(report) == 2 <==> report.could_not_run@.len() > 0,
        status_of(report) == 0 <==> report.could_not_run@.len() == 0 && report.findings@.len() == 0,
        status_of(report) == 1 <==> report.could_not_run@.len() == 0 && report.findings@.len() > 0,
{
}

/// A report says every finding, or that there is none, every check that could not run, and its summary last.
pub proof fn reports_say_everything(report: Report)
    ensures
        ({
            let lines = report_lines(report);
            let found = report.findings@.len();
            let said: int = if found == 0 {
                1
            } else {
                found as int
            };
            &&& lines.last() == report.summary@
            &&& found == 0 ==> lines[1] == "Nothing to report."@
            &&& forall|i: int| 0 <= i < found ==> #[trigger] lines[1 + i] == "  "@ + report.findings@[i]@
            &&& forall|i: int|
                0 <= i < report.could_not_run@.len() ==> #[trigger] lines[3 + said + i] == "  ["@
                    + report.could_not_run@[i].0@ + "] "@ + report.could_not_run@[i].1@
            &&& report.could_not_run@.len() > 0 ==> lines[2 + said] == "Could not run:"@ && lines.len() == 5 + said
                + report.could_not_run@.len()
            &&& report.could_not_run@.len() == 0 ==> lines.len() == 3 + said
        }),
{
}

} // verus!
