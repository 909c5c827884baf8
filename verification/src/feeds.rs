//! Feeds: which declarations load, what a run refuses, and the commands an operator gives.
//!
//! A feed lands records in a table somebody designed. It never creates one, and a record it cannot
//! keep is one it must not read.

use crate::snapshots;
use crate::lists;
use crate::adopt::{self, full_name_of};
use crate::execute::TableName;
use crate::numerals::{self, decimal_text, signed_text};
use crate::text::{self, same, to_lower_ascii};
use crate::wire::{self, refusal, FieldDescription, QueryFailure, QueryResult};
use vstd::prelude::*;

verus! {

/// The directory feed declarations lie in, below the configuration directory.
pub const DIRECTORY: &'static str = "feeds";

/// Whether a file of this extension is a declaration. Anything else that lies beside declarations
/// is no broken declaration.
pub open spec fn is_declaration(extension: Option<Seq<char>>) -> bool {
    extension matches Some(kind) && (text::lower_ascii(kind) == "yaml"@ || text::lower_ascii(kind) == "yml"@)
}

/// Whether a file of this extension is a declaration.
pub fn declares_a_feed(extension: Option<&str>) -> (r: bool)
    ensures
        r == is_declaration(
            match extension {
                Some(kind) => Some(kind@),
                None => None,
            },
        ),
{
    match extension {
        Some(kind) => {
            let lower = to_lower_ascii(kind);
            same(lower.as_str(), "yaml") || same(lower.as_str(), "yml")
        },
        None => false,
    }
}

/// What became of one declaration.
#[derive(Debug)]
pub enum Declaration {
    /// It is a feed.
    Valid,
    /// It could not be read or does not parse, for this reason.
    Unreadable(String),
    /// It parses and is not a feed, for all these reasons.
    Faulty(Vec<String>),
}

/// What was found where declarations lie.
#[derive(Debug)]
pub enum Listing {
    /// No directory, which is the ordinary case.
    Absent,
    /// A directory that cannot be read: where, and why.
    Unreadable(String, String),
    /// Declarations in the order of their names: where each lies, and what became of it.
    Files(Vec<(String, Declaration)>),
}

/// The positions of the declarations that are feeds, in order.
pub open spec fn valid_positions(files: Seq<(String, Declaration)>) -> Seq<int>
    decreases files.len(),
{
    if files.len() == 0 {
        Seq::empty()
    } else if files.last().1 is Valid {
        valid_positions(files.drop_last()).push(files.len() - 1)
    } else {
        valid_positions(files.drop_last())
    }
}

/// What is said of one declaration that is no feed: every fault, so that mending it takes one try.
pub open spec fn complaints_of(at: Seq<char>, declaration: Declaration) -> Seq<Seq<char>> {
    match declaration {
        Declaration::Valid => Seq::empty(),
        Declaration::Unreadable(why) => seq![at + ": "@ + why@],
        Declaration::Faulty(faults) => text::views(faults@).map_values(|fault: Seq<char>| at + ": "@ + fault),
    }
}

/// What is said of the declarations that are no feeds, in order.
pub open spec fn complaints(files: Seq<(String, Declaration)>) -> Seq<Seq<char>>
    decreases files.len(),
{
    if files.len() == 0 {
        Seq::empty()
    } else {
        complaints(files.drop_last()) + complaints_of(files.last().0@, files.last().1)
    }
}

fn complaint(at: &str, why: &str) -> (r: String)
    ensures
        r@ == at@ + ": "@ + why@,
{
    let mut r = at.to_owned();
    r.append(": ");
    r.append(why);
    r
}

/// The declarations that are feeds, by position, and what is said of the others. A declaration that
/// does not load is no reason not to start: the other feeds are somebody else's data.
pub fn load(listing: &Listing) -> (r: (Vec<usize>, Vec<String>))
    ensures
        match listing {
            Listing::Absent => r.0@.len() == 0 && r.1@.len() == 0,
            Listing::Unreadable(at, why) => r.0@.len() == 0 && text::views(r.1@) == seq![
                "no feed was loaded: "@ + at@ + " could not be read ("@ + why@ + ")"@,
            ],
            Listing::Files(files) => r.0@.map_values(|i: usize| i as int) == valid_positions(files@) && text::views(r.1@)
                == complaints(files@),
        },
{
    match listing {
        Listing::Absent => (Vec::new(), Vec::new()),
        Listing::Unreadable(at, why) => {
            let mut note = "no feed was loaded: ".to_string();
            note.append(at.as_str());
            note.append(" could not be read (");
            note.append(why.as_str());
            note.append(")");
            let mut said: Vec<String> = Vec::new();
            said.push(note);
            assert(text::views(said@) =~= seq![note@]);
            (Vec::new(), said)
        },
        Listing::Files(files) => {
            let mut declared: Vec<usize> = Vec::new();
            let mut said: Vec<String> = Vec::new();
            let mut i: usize = 0;
            assert(declared@.map_values(|i: usize| i as int) =~= valid_positions(files@.take(0)));
            assert(text::views(said@) =~= complaints(files@.take(0)));
            while i < files.len()
                invariant
                    i <= files@.len(),
                    declared@.map_values(|i: usize| i as int) == valid_positions(files@.take(i as int)),
                    text::views(said@) == complaints(files@.take(i as int)),
                decreases files@.len() - i,
            {
                assert(files@.take(i + 1).drop_last() =~= files@.take(i as int));
                let ghost before = text::views(said@);
                let at = &files[i].0;
                match &files[i].1 {
                    Declaration::Valid => {
                        let ghost was = declared@;
                        declared.push(i);
                        assert(declared@.map_values(|i: usize| i as int) =~= was.map_values(
                            |i: usize| i as int,
                        ).push(i as int));
                        assert(before + Seq::<Seq<char>>::empty() =~= before);
                    },
                    Declaration::Unreadable(why) => {
                        said.push(complaint(at.as_str(), why.as_str()));
                        assert(text::views(said@) =~= before + complaints_of(at@, files@[i as int].1));
                    },
                    Declaration::Faulty(faults) => {
                        let ghost expected = complaints_of(at@, files@[i as int].1);
                        let ghost start = said@;
                        let mut k: usize = 0;
                        while k < faults.len()
                            invariant
                                k <= faults@.len(),
                                expected.len() == faults@.len(),
                                forall|m: int|
                                    0 <= m < faults@.len() ==> #[trigger] expected[m] == at@ + ": "@ + faults@[m]@,
                                said@.len() == start.len() + k,
                                forall|m: int| 0 <= m < start.len() ==> (#[trigger] said@[m])@ == start[m]@,
                                forall|m: int| 0 <= m < k ==> (#[trigger] said@[start.len() + m])@ == expected[m],
                            decreases faults@.len() - k,
                        {
                            said.push(complaint(at.as_str(), faults[k].as_str()));
                            k = k + 1;
                        }
                        assert(text::views(said@) =~= before + expected) by {
                            assert forall|m: int| 0 <= m < said@.len() implies text::views(said@)[m] == (before
                                + expected)[m] by {
                                if m >= start.len() {
                                    assert(said@[start.len() + (m - start.len())]@ == expected[m - start.len()]);
                                }
                            }
                        }
                    },
                }
                i = i + 1;
            }
            assert(files@.take(files@.len() as int) =~= files@);
            (declared, said)
        },
    }
}

/// Why a feed cannot run, where it cannot: the table it lands in, or the quarantine, is not there.
pub open spec fn run_refusal(
    name: Seq<char>,
    declared_at: Seq<char>,
    schema: Seq<char>,
    table: Seq<char>,
    quarantine: Seq<char>,
    lands: bool,
    quarantines: bool,
) -> Option<Seq<char>> {
    if !lands {
        Some(
            "`"@ + name + "` ("@ + declared_at + ") lands in "@ + schema + "."@ + table
                + ", which is not a table in this warehouse. Refused rather than created: a declaration says what a record looks like, and a table's schema is a decision with a date axis, a class and a partitioning in it"@,
        )
    } else if !quarantines {
        Some(
            "`"@ + name + "` has records to quarantine and sank."@ + quarantine
                + " is not a table in this warehouse. Refused rather than created, and refused rather than dropping them: a record this system cannot keep is one it must not read"@,
        )
    } else {
        None
    }
}

/// Whether a feed can run: `lands` says whether the table it lands in is there, `quarantines`
/// whether the quarantine is.
pub fn run_once(
    name: &str,
    declared_at: &str,
    target: &TableName,
    quarantine: &str,
    lands: bool,
    quarantines: bool,
) -> (r: Result<(), String>)
    ensures
        match r {
            Ok(_) => run_refusal(
                name@,
                declared_at@,
                target.schema@,
                target.table@,
                quarantine@,
                lands,
                quarantines,
            ) is None,
            Err(why) => run_refusal(
                name@,
                declared_at@,
                target.schema@,
                target.table@,
                quarantine@,
                lands,
                quarantines,
            ) == Some(why@),
        },
{
    if !lands {
        let mut why = "`".to_string();
        why.append(name);
        why.append("` (");
        why.append(declared_at);
        why.append(") lands in ");
        why.append(target.schema.as_str());
        why.append(".");
        why.append(target.table.as_str());
        why.append(
            ", which is not a table in this warehouse. Refused rather than created: a declaration says what a record looks like, and a table's schema is a decision with a date axis, a class and a partitioning in it",
        );
        return Err(why);
    }
    if !quarantines {
        let mut why = "`".to_string();
        why.append(name);
        why.append("` has records to quarantine and sank.");
        why.append(quarantine);
        why.append(
            " is not a table in this warehouse. Refused rather than created, and refused rather than dropping them: a record this system cannot keep is one it must not read",
        );
        return Err(why);
    }
    Ok(())
}

/// The longest of some retentions.
pub open spec fn longest(days: Seq<u32>) -> Option<u32>
    decreases days.len(),
{
    if days.len() == 0 {
        None
    } else {
        match longest(days.drop_last()) {
            Some(most) => if days.last() > most {
                Some(days.last())
            } else {
                Some(most)
            },
            None => Some(days.last()),
        }
    }
}

/// How many days quarantined records are kept: as long as the feed that keeps them longest asks. A
/// shorter one would let one feed destroy another's records.
pub fn longest_retention(days: &Vec<u32>) -> (r: Option<u32>)
    ensures
        r == longest(days@),
{
    let mut most: Option<u32> = None;
    let mut i: usize = 0;
    while i < days.len()
        invariant
            i <= days@.len(),
            most == longest(days@.take(i as int)),
        decreases days@.len() - i,
    {
        assert(days@.take(i + 1).drop_last() =~= days@.take(i as int));
        most = match most {
            Some(m) => if days[i] > m {
                Some(days[i])
            } else {
                Some(m)
            },
            None => Some(days[i]),
        };
        i = i + 1;
    }
    assert(days@.take(days@.len() as int) =~= days@);
    most
}

/// No feed's records are dropped before its own retention has run out.
pub proof fn no_feed_shortens_another(days: Seq<u32>, i: int)
    requires
        0 <= i < days.len(),
    ensures
        longest(days) matches Some(most) && days[i] <= most,
    decreases days.len(),
{
    if i < days.len() - 1 {
        no_feed_shortens_another(days.drop_last(), i);
    }
}

/// What expiring quarantined records comes to.
#[derive(Debug)]
pub enum Expiry {
    /// There is nothing to do.
    Nothing,
    /// The quarantine cannot be read.
    Failed(String),
    /// Detach what expired: at this version, dated in milliseconds.
    Detach {
        /// The version the detachment commits.
        version: u64,
        /// When, in milliseconds since the epoch.
        at_millis: i64,
    },
}

/// The version after one, or the first.
pub open spec fn next_version(version: Option<u64>) -> u64 {
    match version {
        Some(v) => if v < u64::MAX {
            (v + 1) as u64
        } else {
            v
        },
        None => 1,
    }
}

/// A count rounded toward zero when divided by a thousand.
pub open spec fn thousandth(n: int) -> int {
    if n >= 0 {
        n / 1_000
    } else {
        -(-n / 1_000)
    }
}

/// What expiring quarantined records comes to. `live` is the version the quarantine stands at, or
/// why it cannot be read; `expired` whether anything in it expired; `now` is in microseconds.
pub fn expire_quarantine(is_table: bool, live: Result<Option<u64>, &str>, expired: bool, now: i64) -> (r: Expiry)
    ensures
        match r {
            Expiry::Nothing => !is_table || live is Ok && !expired,
            Expiry::Failed(why) => (live matches Err(error) && why@ == "reading the quarantine: "@ + error@) && is_table,
            Expiry::Detach { version, at_millis } => (live matches Ok(stands) && version == next_version(stands))
                && at_millis == thousandth(now as int) && is_table && expired,
        },
{
    if !is_table {
        return Expiry::Nothing;
    }
    match live {
        Err(error) => {
            let mut why = "reading the quarantine: ".to_string();
            why.append(error);
            Expiry::Failed(why)
        },
        Ok(stands) => {
            if !expired {
                return Expiry::Nothing;
            }
            let version: u64 = match stands {
                Some(v) => v.saturating_add(1),
                None => 1,
            };
            let at_millis: i64 = if now >= 0 {
                now / 1_000
            } else if now == i64::MIN {
                -9_223_372_036_854_775
            } else {
                -((-now) / 1_000)
            };
            Expiry::Detach { version, at_millis }
        },
    }
}

/// What is said of a detachment, given what it took or why it did not get through.
pub fn expiry_report(detached: Result<(u64, u64), &str>, retain: u32) -> (r: Result<String, String>)
    ensures
        match detached {
            Ok(counts) => r matches Ok(said) && said@ == numerals::decimal(counts.0 as nat) + " partition(s), "@
                + numerals::decimal(counts.1 as nat) + " file(s), older than "@ + numerals::decimal(retain as nat)
                + " day(s)"@,
            Err(error) => r matches Err(why) && why@ == "detaching expired partitions: "@ + error@,
        },
{
    match detached {
        Ok((partitions, files)) => {
            let mut said = decimal_text(partitions);
            said.append(" partition(s), ");
            said.append(decimal_text(files).as_str());
            said.append(" file(s), older than ");
            said.append(decimal_text(retain as u64).as_str());
            said.append(" day(s)");
            Ok(said)
        },
        Err(error) => {
            let mut why = "detaching expired partitions: ".to_string();
            why.append(error);
            Err(why)
        },
    }
}

// --- commands ---------------------------------------------------------------------------------

/// How a feed is.
#[derive(PartialEq, Eq, Debug)]
pub enum Health {
    /// It runs.
    Running,
    /// It stopped: since when, and why.
    Halted {
        /// Since when.
        since: i64,
        /// Why.
        reason: String,
    },
}

/// Whether a caller may read what a feed writes.
#[derive(Clone, Copy, PartialEq, Eq, Debug, Structural)]
pub enum Reach {
    /// Nobody knows what it writes into: its declaration did not load.
    NoTarget,
    /// The table is not there at all.
    Missing,
    /// The caller may read it.
    Readable,
    /// The caller may not read it.
    Hidden,
}

/// Whether a caller may read what a feed writes: `target` says whether its table is known, `scoped`
/// whether the caller may read it, and `absent` whether there is no such table at all.
pub fn reach(target: bool, scoped: bool, absent: bool) -> (r: Reach)
    ensures
        r == (if !target {
            Reach::NoTarget
        } else if scoped {
            Reach::Readable
        } else if absent {
            Reach::Missing
        } else {
            Reach::Hidden
        }),
{
    if !target {
        Reach::NoTarget
    } else if scoped {
        Reach::Readable
    } else if absent {
        Reach::Missing
    } else {
        Reach::Hidden
    }
}

/// How a feed stands.
#[derive(Debug)]
pub struct FeedStanding {
    /// Its name.
    pub name: String,
    /// How it is.
    pub health: Health,
    /// How it is, in a word.
    pub word: String,
    /// How often it ran.
    pub runs: u64,
    /// The records it published.
    pub published: u64,
    /// The records it quarantined.
    pub quarantined: u64,
    /// The records it skipped.
    pub skipped: u64,
    /// How often it halted.
    pub halts: u64,
    /// Whether the caller may read what it writes.
    pub reach: Reach,
}

/// What is said in place of a reason the caller may not be told.
pub open spec fn withheld() -> Seq<char> {
    "halted; the reason names what was being read and is shown to whoever may read the table this feed writes into"@
}

/// What is shown of a feed. Every feed is listed; only the reason is withheld, and only where there
/// is a table the caller may not read. A feed whose table is missing, or unknown, shows its reason:
/// that is what the list is opened to find.
pub open spec fn feed_row(feed: FeedStanding) -> Seq<Option<Seq<char>>> {
    let (since, why) = match feed.health {
        Health::Running => (None, None),
        Health::Halted { since, reason } => (
            Some(numerals::signed_decimal(since as int)),
            Some(
                if feed.reach is Hidden {
                    withheld()
                } else {
                    reason@
                },
            ),
        ),
    };
    seq![
        Some(feed.name@),
        Some(feed.word@),
        since,
        why,
        Some(numerals::decimal(feed.runs as nat)),
        Some(numerals::decimal(feed.published as nat)),
        Some(numerals::decimal(feed.quarantined as nat)),
        Some(numerals::decimal(feed.skipped as nat)),
        Some(numerals::decimal(feed.halts as nat)),
    ]
}

/// The list of feeds.
pub open spec fn feed_list(feeds: Seq<FeedStanding>) -> wire::Answer {
    wire::Answer {
        fields: seq![
            ("feed"@, wire::OID_TEXT, wire::VARIES),
            ("state"@, wire::OID_TEXT, wire::VARIES),
            ("halted_since"@, wire::OID_TEXT, wire::VARIES),
            ("reason"@, wire::OID_TEXT, wire::VARIES),
            ("runs"@, wire::OID_INT8, 8i16),
            ("published"@, wire::OID_INT8, 8i16),
            ("quarantined"@, wire::OID_INT8, 8i16),
            ("skipped"@, wire::OID_INT8, 8i16),
            ("halts"@, wire::OID_INT8, 8i16),
        ],
        rows: feeds.map_values(|f: FeedStanding| feed_row(f)),
        tag: "SELECT "@ + numerals::decimal(feeds.len()),
    }
}

fn show_feed(feed: &FeedStanding) -> (r: Vec<Option<String>>)
    ensures
        wire::row(r) == feed_row(*feed),
{
    let mut r: Vec<Option<String>> = Vec::new();
    r.push(Some(feed.name.clone()));
    r.push(Some(feed.word.clone()));
    match &feed.health {
        Health::Running => {
            r.push(None);
            r.push(None);
        },
        Health::Halted { since, reason } => {
            r.push(Some(signed_text(*since)));
            match feed.reach {
                Reach::Hidden => r.push(
                    Some(
                        "halted; the reason names what was being read and is shown to whoever may read the table this feed writes into".to_string(),
                    ),
                ),
                _ => r.push(Some(reason.clone())),
            }
        },
    }
    r.push(Some(decimal_text(feed.runs)));
    r.push(Some(decimal_text(feed.published)));
    r.push(Some(decimal_text(feed.quarantined)));
    r.push(Some(decimal_text(feed.skipped)));
    r.push(Some(decimal_text(feed.halts)));
    assert(wire::row(r) =~= feed_row(*feed));
    r
}

fn show_feeds(feeds: &Vec<FeedStanding>) -> (r: QueryResult)
    ensures
        r@ == feed_list(feeds@),
{
    let mut rows: Vec<Vec<Option<String>>> = Vec::new();
    let mut i: usize = 0;
    while i < feeds.len()
        invariant
            i <= feeds@.len(),
            rows@.len() == i,
            forall|k: int| 0 <= k < i ==> wire::row(#[trigger] rows@[k]) == feed_row(feeds@[k]),
        decreases feeds@.len() - i,
    {
        rows.push(show_feed(&feeds[i]));
        i = i + 1;
    }
    let mut fields: Vec<FieldDescription> = Vec::new();
    fields.push(FieldDescription::text("feed", wire::OID_TEXT, wire::VARIES));
    fields.push(FieldDescription::text("state", wire::OID_TEXT, wire::VARIES));
    fields.push(FieldDescription::text("halted_since", wire::OID_TEXT, wire::VARIES));
    fields.push(FieldDescription::text("reason", wire::OID_TEXT, wire::VARIES));
    fields.push(FieldDescription::text("runs", wire::OID_INT8, 8));
    fields.push(FieldDescription::text("published", wire::OID_INT8, 8));
    fields.push(FieldDescription::text("quarantined", wire::OID_INT8, 8));
    fields.push(FieldDescription::text("skipped", wire::OID_INT8, 8));
    fields.push(FieldDescription::text("halts", wire::OID_INT8, 8));
    let mut tag = "SELECT ".to_string();
    tag.append(decimal_text(feeds.len() as u64).as_str());
    let r = QueryResult { fields, rows, tag };
    assert(r@.fields =~= feed_list(feeds@).fields);
    assert(r@.rows =~= feed_list(feeds@).rows);
    r
}

/// A feed command.
#[derive(PartialEq, Eq, Debug)]
pub enum Command {
    /// List the feeds.
    Show,
    /// Start one again.
    Resume {
        /// Which.
        feed: String,
    },
}

/// The refusal of a feed that is not declared, or that the caller may not know of.
pub open spec fn no_such_feed(feed: Seq<char>) -> wire::Refusal {
    wire::refused(
        "42704"@,
        "no feed called `"@ + feed + "` is declared on this server. `SHOW FEEDS` lists them"@,
    )
}

fn unknown_feed(feed: &str) -> (r: QueryFailure)
    ensures
        r@ == no_such_feed(feed@),
{
    let mut message = "no feed called `".to_string();
    message.append(feed);
    message.append("` is declared on this server. `SHOW FEEDS` lists them");
    refusal("42704", message.as_str())
}

/// What a command comes to.
#[derive(Debug)]
pub enum Step {
    /// It is answered, and nothing is recorded in the audit.
    Answered(Result<QueryResult, QueryFailure>),
    /// It is refused, and the audit records that writing into this table was denied.
    Denied(QueryFailure, TableName),
    /// The audit records that writing into this table was granted, and the feed is started again.
    Resume(String, TableName),
}

/// What a command comes to, as a client and the audit are told it.
pub enum StepView {
    /// It is answered.
    Answered(Result<wire::Answer, wire::Refusal>),
    /// It is refused, and recorded as denied.
    Denied(wire::Refusal, (Seq<char>, Seq<char>)),
    /// The feed is started again, and that is recorded.
    Resume(Seq<char>, (Seq<char>, Seq<char>)),
}

impl View for Step {
    type V = StepView;

    open spec fn view(&self) -> StepView {
        match self {
            Step::Answered(outcome) => StepView::Answered(wire::reply(*outcome)),
            Step::Denied(failure, table) => StepView::Denied(failure@, table@),
            Step::Resume(feed, table) => StepView::Resume(feed@, table@),
        }
    }
}

/// What a command to start a feed again comes to.
pub open spec fn resuming(feed: Seq<char>, target: Option<((Seq<char>, Seq<char>), bool)>) -> StepView {
    match target {
        None => StepView::Answered(Err(no_such_feed(feed))),
        Some((table, readable)) => if readable {
            StepView::Resume(feed, table)
        } else {
            StepView::Denied(no_such_feed(feed), table)
        },
    }
}

/// A feed that fills a table the caller may not read is refused to them in the words of one that is
/// not declared.
pub proof fn hidden_feeds_look_undeclared(feed: Seq<char>, table: (Seq<char>, Seq<char>))
    ensures
        resuming(feed, Some((table, false))) matches StepView::Denied(hidden, _) && resuming(
            feed,
            None,
        ) matches StepView::Answered(Err(absent)) && hidden == absent,
{
}

/// What a command comes to. `target` is the table the named feed writes into, where it is known,
/// and whether the caller may read it.
///
/// Starting a feed again decides that records of a shape nobody knows shall land in a table. So it
/// needs the right to read that table, and a feed whose table nobody knows is not started: a report
/// fails visible, an action fails safe.
pub fn run_command(command: Result<&Command, &str>, feeds: &Vec<FeedStanding>, target: Option<(&TableName, bool)>) -> (r:
    Step)
    ensures
        r@ == (match command {
            Err(why) => StepView::Answered(Err(wire::refused(wire::SYNTAX_ERROR@, why@))),
            Ok(Command::Show) => StepView::Answered(Ok(feed_list(feeds@))),
            Ok(Command::Resume { feed }) => resuming(
                feed@,
                match target {
                    Some((table, readable)) => Some((table@, readable)),
                    None => None,
                },
            ),
        }),
{
    match command {
        Err(why) => Step::Answered(Err(refusal(wire::SYNTAX_ERROR, why))),
        Ok(Command::Show) => Step::Answered(Ok(show_feeds(feeds))),
        Ok(Command::Resume { feed }) => match target {
            None => Step::Answered(Err(unknown_feed(feed.as_str()))),
            Some((table, readable)) => {
                if readable {
                    Step::Resume(feed.clone(), table.clone())
                } else {
                    Step::Denied(unknown_feed(feed.as_str()), table.clone())
                }
            },
        },
    }
}

/// What is answered once a feed was told to start again: `known` says whether there was such a
/// feed. A mistyped name is never reported as a success.
pub fn resumed(feed: &str, known: bool) -> (r: Result<QueryResult, QueryFailure>)
    ensures
        wire::reply(r) == (if known {
            Ok::<wire::Answer, wire::Refusal>(wire::done("RESUME FEED "@ + feed@))
        } else {
            Err(no_such_feed(feed@))
        }),
{
    if known {
        let mut tag = "RESUME FEED ".to_string();
        tag.append(feed);
        Ok(wire::completed(tag.as_str()))
    } else {
        Err(unknown_feed(feed))
    }
}

/// The name a feed's target is looked up by.
pub fn target_of(target: &TableName) -> (r: String)
    ensures
        r@ == adopt::full_name(target@),
{
    full_name_of(target)
}

// --- after a run ------------------------------------------------------------------------------

/// What a run of a feed came to.
pub struct Ran {
    /// How many records were published.
    pub published: u64,
    /// How many were put aside.
    pub quarantined: u64,
    /// How many sources were read.
    pub sources: u64,
    /// Why it stopped, where it did.
    pub stopped: Option<String>,
}

/// What is said after a run of a feed, what is complained of, and why it is halted where it is. A
/// feed that cannot run, and one whose records no longer fit, stay halted until somebody resumes
/// them: a retry would rediscover the same outage every few minutes.
pub struct Aftermath {
    /// What is said.
    pub said: Option<String>,
    /// What is complained of.
    pub complaint: Option<String>,
    /// Why it is halted.
    pub halted: Option<String>,
}

/// What is said after a run that was not refused.
pub open spec fn run_said(name: Seq<char>, ran: Ran) -> Option<Seq<char>> {
    if ran.published > 0 || ran.quarantined > 0 {
        Some(
            "  feed `"@ + name + "`: "@ + numerals::decimal(ran.published as nat) + " published, "@
                + numerals::decimal(ran.quarantined as nat) + " quarantined, "@ + numerals::decimal(
                ran.sources as nat,
            ) + " source(s)"@,
        )
    } else {
        None
    }
}

/// What is said and done after a run of a feed.
pub fn after_a_run(name: &str, outcome: &Result<Ran, String>) -> (r: Aftermath)
    ensures
        match outcome {
            Err(refusal) => {
                &&& r.said is None
                &&& wire::cell(r.complaint) == Some("  feed `"@ + name@ + "` refused — "@ + refusal@)
                &&& wire::cell(r.halted) == Some(refusal@)
            },
            Ok(ran) => {
                &&& wire::cell(r.said) == run_said(name@, *ran)
                &&& match ran.stopped {
                    None => r.complaint is None && r.halted is None,
                    Some(reason) => wire::cell(r.halted) == Some(reason@) && wire::cell(r.complaint) == Some(
                        "  feed `"@ + name@ + "` STOPPED — "@ + reason@
                            + ". It will not run again until somebody says `RESUME FEED "@ + name@ + "`"@,
                    ),
                }
            },
        },
{
    match outcome {
        Err(refusal) => {
            let mut complaint = "  feed `".to_string();
            complaint.append(name);
            complaint.append("` refused — ");
            complaint.append(refusal.as_str());
            Aftermath { said: None, complaint: Some(complaint), halted: Some(refusal.clone()) }
        },
        Ok(ran) => {
            let said = if ran.published > 0 || ran.quarantined > 0 {
                let mut said = "  feed `".to_string();
                said.append(name);
                said.append("`: ");
                said.append(decimal_text(ran.published).as_str());
                said.append(" published, ");
                said.append(decimal_text(ran.quarantined).as_str());
                said.append(" quarantined, ");
                said.append(decimal_text(ran.sources).as_str());
                said.append(" source(s)");
                Some(said)
            } else {
                None
            };
            match &ran.stopped {
                None => Aftermath { said, complaint: None, halted: None },
                Some(reason) => {
                    let mut complaint = "  feed `".to_string();
                    complaint.append(name);
                    complaint.append("` STOPPED — ");
                    complaint.append(reason.as_str());
                    complaint.append(". It will not run again until somebody says `RESUME FEED ");
                    complaint.append(name);
                    complaint.append("`");
                    Aftermath { said, complaint: Some(complaint), halted: Some(reason.clone()) }
                },
            }
        },
    }
}

/// A file declares a feed exactly where its name ends in `yaml` or `yml`, in capitals, small letters or both.
pub proof fn declarations_end_in_yaml(kind: Seq<char>)
    ensures
        is_declaration(Some(kind)) <==> {
            &&& kind.len() == 3 || kind.len() == 4
            &&& kind[0] == 'y' || kind[0] == 'Y'
            &&& kind.len() == 4 ==> kind[1] == 'a' || kind[1] == 'A'
            &&& kind[kind.len() - 2] == 'm' || kind[kind.len() - 2] == 'M'
            &&& kind[kind.len() - 1] == 'l' || kind[kind.len() - 1] == 'L'
        },
        !is_declaration(None),
{
    reveal_strlit("yaml");
    reveal_strlit("yml");
    let low = text::lower_ascii(kind);
    assert(low.len() == kind.len());
    assert forall|i: int| 0 <= i < kind.len() implies #[trigger] low[i] == text::ascii_lower(kind[i]) by {}
    if kind.len() == 4 {
        assert(low == "yaml"@ <==> (low[0] == 'y' && low[1] == 'a' && low[2] == 'm' && low[3] == 'l')) by {
            if low[0] == 'y' && low[1] == 'a' && low[2] == 'm' && low[3] == 'l' {
                assert(low =~= "yaml"@);
            }
        }
        text::ascii_case_is_thirty_two_apart(kind[0]);
        text::ascii_case_is_thirty_two_apart(kind[1]);
        text::ascii_case_is_thirty_two_apart(kind[2]);
        text::ascii_case_is_thirty_two_apart(kind[3]);
    }
    if kind.len() == 3 {
        assert(low == "yml"@ <==> (low[0] == 'y' && low[1] == 'm' && low[2] == 'l')) by {
            if low[0] == 'y' && low[1] == 'm' && low[2] == 'l' {
                assert(low =~= "yml"@);
            }
        }
        text::ascii_case_is_thirty_two_apart(kind[0]);
        text::ascii_case_is_thirty_two_apart(kind[1]);
        text::ascii_case_is_thirty_two_apart(kind[2]);
    }
}

/// The feeds that are loaded are those whose declarations are sound, in order.
pub proof fn sound_declarations_are_loaded(files: Seq<(String, Declaration)>)
    ensures
        lists::places_where(files, valid_positions(files), |f: (String, Declaration)| f.1 is Valid),
    decreases files.len(),
{
    if files.len() > 0 {
        sound_declarations_are_loaded(files.drop_last());
        lists::lemma_one_more_place(files, valid_positions(files.drop_last()), |f: (String, Declaration)| f.1 is Valid);
    }
}

/// What is complained of is each fault of each declaration, under its file, and nothing of a sound one.
pub proof fn unsound_declarations_are_said(files: Seq<(String, Declaration)>)
    ensures
        lists::gathered_from(files, complaints(files), |f: (String, Declaration)|
                match f.1 {
                    Declaration::Valid => Seq::<Seq<char>>::empty(),
                    Declaration::Unreadable(why) => seq![f.0@ + ": "@ + why@],
                    Declaration::Faulty(faults) => Seq::new(faults@.len(), |k: int| f.0@ + ": "@ + faults@[k]@),
                }),
    decreases files.len(),
{
    let g = |f: (String, Declaration)|
                match f.1 {
                    Declaration::Valid => Seq::<Seq<char>>::empty(),
                    Declaration::Unreadable(why) => seq![f.0@ + ": "@ + why@],
                    Declaration::Faulty(faults) => Seq::new(faults@.len(), |k: int| f.0@ + ": "@ + faults@[k]@),
                };
    if files.len() == 0 {
        lists::lemma_gathered_none::<(String, Declaration), Seq<char>>(g);
        assert(files =~= Seq::empty());
    } else {
        unsound_declarations_are_said(files.drop_last());
        let earlier = complaints(files.drop_last());
        lists::lemma_gathered_more(files, earlier, g);
        let last = files.last();
        if let Declaration::Faulty(faults) = last.1 {
            assert(complaints_of(last.0@, last.1) =~= g(last));
        }
        assert(complaints(files) =~= earlier + g(files.last()));
    }
}

/// A feed runs exactly where its table and the table for what it puts aside are both there.
pub proof fn feeds_run_where_their_tables_are(
    name: Seq<char>,
    declared_at: Seq<char>,
    schema: Seq<char>,
    table: Seq<char>,
    quarantine: Seq<char>,
    lands: bool,
    quarantines: bool,
)
    ensures
        run_refusal(name, declared_at, schema, table, quarantine, lands, quarantines) is None <==> lands && quarantines,
        !lands ==> run_refusal(name, declared_at, schema, table, quarantine, lands, quarantines) == run_refusal(
            name,
            declared_at,
            schema,
            table,
            quarantine,
            lands,
            !quarantines,
        ),
{
}

/// What is kept longest is one of the retentions, and none is longer.
pub proof fn the_longest_is_the_greatest(days: Seq<u32>)
    ensures
        match longest(days) {
            Some(most) => days.contains(most) && forall|i: int| 0 <= i < days.len() ==> #[trigger] days[i] <= most,
            None => days.len() == 0,
        },
    decreases days.len(),
{
    if days.len() > 0 {
        let before = days.drop_last();
        the_longest_is_the_greatest(before);
        match longest(before) {
            Some(most) => {
                let k = choose|k: int| 0 <= k < before.len() && before[k] == most;
                assert(days[k] == most);
                assert forall|i: int| 0 <= i < days.len() implies #[trigger] days[i] <= longest(days)->0 by {
                    if i < before.len() {
                        assert(before[i] == days[i]);
                    }
                }
                assert(days[days.len() - 1] == days.last());
            },
            None => {
                assert(days[0] == days.last());
            },
        }
    }
}

/// The version that comes next is the least above the one that stands, and the first where none does.
pub proof fn the_next_version_is_the_least_above(version: u64, other: u64)
    requires
        version < other,
    ensures
        version < next_version(Some(version)) <= other,
        next_version(None) == next_version(Some(0)),
{
}

/// A time in thousandths is cut towards zero to whole units: nothing is added, and less than one is lost.
pub proof fn times_are_cut_towards_zero(n: int)
    ensures
        n >= 0 ==> thousandth(n) >= 0 && 0 <= n - 1000 * thousandth(n) < 1000,
        n <= 0 ==> thousandth(n) <= 0 && 0 <= 1000 * thousandth(n) - n < 1000,
{
}

/// A feed is shown under its columns: its name, its state, since when it stands still and why, and its
/// counts. The reason is shown to everybody but those from whom its table is hidden.
pub proof fn feeds_are_shown_by_name(feeds: Seq<FeedStanding>, i: int)
    requires
        0 <= i < feeds.len(),
    ensures
        ({
            let shown = feed_list(feeds);
            let row = shown.rows[i];
            let feed = feeds[i];
            &&& shown.rows.len() == feeds.len()
            &&& snapshots::under(shown.fields, row, "feed"@, Some(feed.name@))
            &&& snapshots::under(shown.fields, row, "state"@, Some(feed.word@))
            &&& snapshots::under(shown.fields, row, "runs"@, Some(numerals::decimal(feed.runs as nat)))
            &&& snapshots::under(shown.fields, row, "published"@, Some(numerals::decimal(feed.published as nat)))
            &&& snapshots::under(shown.fields, row, "quarantined"@, Some(numerals::decimal(feed.quarantined as nat)))
            &&& snapshots::under(shown.fields, row, "skipped"@, Some(numerals::decimal(feed.skipped as nat)))
            &&& snapshots::under(shown.fields, row, "halts"@, Some(numerals::decimal(feed.halts as nat)))
            &&& match feed.health {
                Health::Running => snapshots::under(shown.fields, row, "halted_since"@, None) && snapshots::under(
                    shown.fields,
                    row,
                    "reason"@,
                    None,
                ),
                Health::Halted { since, reason } => snapshots::under(
                    shown.fields,
                    row,
                    "halted_since"@,
                    Some(numerals::signed_decimal(since as int)),
                ) && (!(feed.reach is Hidden) ==> snapshots::under(shown.fields, row, "reason"@, Some(reason@))),
            }
        }),
{
    let fields = feed_list(feeds).fields;
    assert(fields[0].0 == "feed"@ && fields[1].0 == "state"@ && fields[2].0 == "halted_since"@ && fields[3].0
        == "reason"@ && fields[4].0 == "runs"@ && fields[5].0 == "published"@ && fields[6].0 == "quarantined"@
        && fields[7].0 == "skipped"@ && fields[8].0 == "halts"@);
}

/// Those from whom a feed's table is hidden see the same of it whatever the reason was.
pub proof fn hidden_reasons_are_not_told(a: FeedStanding, b: FeedStanding)
    requires
        a.reach is Hidden,
        b.reach is Hidden,
        a.name@ == b.name@,
        a.word@ == b.word@,
        a.runs == b.runs,
        a.published == b.published,
        a.quarantined == b.quarantined,
        a.skipped == b.skipped,
        a.halts == b.halts,
        a.health is Halted,
        b.health is Halted,
        a.health->since == b.health->since,
    ensures
        feed_row(a) == feed_row(b),
{
}

/// A feed is resumed exactly where its table is known and the caller may read it, by its own name and into
/// that table.
pub proof fn readers_resume_feeds(feed: Seq<char>, table: (Seq<char>, Seq<char>), readable: bool)
    ensures
        resuming(feed, Some((table, readable))) is Resume <==> readable,
        readable ==> resuming(feed, Some((table, readable))) == StepView::Resume(feed, table),
        !readable ==> (resuming(feed, Some((table, readable))) matches StepView::Denied(_, of) && of == table),
        !(resuming(feed, None) is Resume),
        no_such_feed(feed).sqlstate == "42704"@,
{
}

/// A run is spoken of exactly where it published or put aside a record.
pub proof fn runs_that_did_something_are_said(name: Seq<char>, ran: Ran)
    ensures
        run_said(name, ran) is None <==> ran.published == 0 && ran.quarantined == 0,
{
}

/// The list of feeds says how many there are.
pub proof fn listed_feeds_are_counted(feeds: Seq<FeedStanding>)
    ensures
        feed_list(feeds).tag == "SELECT "@ + numerals::decimal(feed_list(feeds).rows.len()),
{
}

} // verus!
