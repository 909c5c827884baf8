//! Between a statement and its rows: what is registered for a caller, what is refused, how values
//! are written, and what a failure is called.

use crate::datedate;
use crate::lists;
use crate::numerals::{self, decimal_text, padded_text, parse_natural, signed_text};
use crate::text::{self, chars_of, contains, same, to_lower, to_upper, trim, trim_trailing};
use crate::textmap::TextMap;
use crate::wire::{self, refusal, FieldDescription, QueryFailure, QueryResult};
use vstd::arithmetic::power::*;
use vstd::prelude::*;

verus! {

// --- what is registered -----------------------------------------------------------------------

/// A table's name: its schema, and its name there.
#[derive(PartialEq, Eq, Debug)]
pub struct TableName {
    /// The schema.
    pub schema: String,
    /// The name in it.
    pub table: String,
}

impl View for TableName {
    type V = (Seq<char>, Seq<char>);

    open spec fn view(&self) -> (Seq<char>, Seq<char>) {
        (self.schema@, self.table@)
    }
}

impl Clone for TableName {
    fn clone(&self) -> (r: Self)
        ensures
            r == *self,
    {
        TableName { schema: self.schema.clone(), table: self.table.clone() }
    }
}

/// The names of tables.
pub open spec fn names(tables: Seq<TableName>) -> Seq<(Seq<char>, Seq<char>)> {
    tables.map_values(|t: TableName| t@)
}

/// How many tables bear a bare name.
pub open spec fn claims(tables: Seq<(Seq<char>, Seq<char>)>, bare: Seq<char>) -> nat
    decreases tables.len(),
{
    if tables.len() == 0 {
        0
    } else {
        claims(tables.drop_last(), bare) + (if tables.last().1 == bare {
            1nat
        } else {
            0
        })
    }
}

/// Under which names a table is registered in a session.
#[derive(Clone, Copy, PartialEq, Eq, Debug, Structural)]
pub struct Placement {
    /// Under its schema and its name.
    pub qualified: bool,
    /// Under its name alone.
    pub bare: bool,
}

/// Where a table the caller may read is registered. In the session's own schema, or in none, one
/// registration makes it reachable by both names; elsewhere the bare name is its own only where no
/// other table claims it.
pub open spec fn placement(
    tables: Seq<(Seq<char>, Seq<char>)>,
    readable: bool,
    table: (Seq<char>, Seq<char>),
    default_schema: Seq<char>,
) -> Placement {
    let at_home = table.0.len() == 0 || table.0 == default_schema;
    Placement { qualified: readable && !at_home, bare: readable && (at_home || claims(tables, table.1) == 1) }
}

/// The qualified names of the tables that bear a bare name, in order.
pub open spec fn claimants(tables: Seq<(Seq<char>, Seq<char>)>, bare: Seq<char>) -> Seq<Seq<char>>
    decreases tables.len(),
{
    if tables.len() == 0 {
        Seq::empty()
    } else {
        let before = claimants(tables.drop_last(), bare);
        if tables.last().1 == bare {
            before.push(tables.last().0 + "."@ + bare)
        } else {
            before
        }
    }
}

/// Whether a map holds exactly the bare names that more than one table claims, each with the
/// qualified names it could mean.
pub open spec fn lists_contested(
    contested: Map<Seq<char>, Vec<String>>,
    tables: Seq<(Seq<char>, Seq<char>)>,
) -> bool {
    &&& forall|bare: Seq<char>| #[trigger] contested.contains_key(bare) <==> claims(tables, bare) > 1
    &&& forall|bare: Seq<char>| #[trigger]
        contested.contains_key(bare) ==> text::views(contested[bare]@) == claimants(tables, bare)
}

/// How many of these are true.
pub open spec fn count_true(flags: Seq<bool>) -> nat
    decreases flags.len(),
{
    if flags.len() == 0 {
        0
    } else {
        count_true(flags.drop_last()) + (if flags.last() {
            1nat
        } else {
            0
        })
    }
}

/// What a session registers.
#[derive(Debug)]
pub struct RegistrationPlan {
    /// Where each table goes, in the order they were offered.
    pub placements: Vec<Placement>,
    /// How many tables are registered at all.
    pub registered: usize,
    /// The bare names that more than one table claims, each with the qualified names it could mean.
    pub contested: TextMap<Vec<String>>,
}

fn count_claims(tables: &Vec<TableName>, bare: &str) -> (r: usize)
    ensures
        r == claims(names(tables@), bare@),
{
    let ghost all = names(tables@);
    let mut n: usize = 0;
    let mut i: usize = 0;
    while i < tables.len()
        invariant
            i <= tables@.len(),
            all == names(tables@),
            n <= i,
            n == claims(all.take(i as int), bare@),
        decreases tables@.len() - i,
    {
        assert(all.take(i + 1).drop_last() =~= all.take(i as int));
        if same(tables[i].table.as_str(), bare) {
            n = n + 1;
        }
        i = i + 1;
    }
    assert(all.take(tables@.len() as int) =~= all);
    n
}

fn list_claimants(tables: &Vec<TableName>, bare: &str) -> (r: Vec<String>)
    ensures
        text::views(r@) == claimants(names(tables@), bare@),
{
    let ghost all = names(tables@);
    let mut r: Vec<String> = Vec::new();
    let mut i: usize = 0;
    while i < tables.len()
        invariant
            i <= tables@.len(),
            all == names(tables@),
            text::views(r@) == claimants(all.take(i as int), bare@),
        decreases tables@.len() - i,
    {
        assert(all.take(i + 1).drop_last() =~= all.take(i as int));
        if same(tables[i].table.as_str(), bare) {
            let ghost was = r@;
            let mut name = tables[i].schema.clone();
            name.append(".");
            name.append(bare);
            r.push(name);
            assert(text::views(r@) =~= text::views(was).push(all[i as int].0 + "."@ + bare@));
        }
        i = i + 1;
    }
    assert(all.take(tables@.len() as int) =~= all);
    r
}

/// A name that more than one table claims is claimed by one of them.
proof fn lemma_claimed(tables: Seq<(Seq<char>, Seq<char>)>, bare: Seq<char>)
    requires
        claims(tables, bare) > 0,
    ensures
        exists|i: int| 0 <= i < tables.len() && (#[trigger] tables[i]).1 == bare,
    decreases tables.len(),
{
    if tables.last().1 == bare {
        assert(tables[tables.len() - 1].1 == bare);
    } else {
        lemma_claimed(tables.drop_last(), bare);
        let i = choose|i: int| 0 <= i < tables.drop_last().len() && (#[trigger] tables.drop_last()[i]).1 == bare;
        assert(tables[i].1 == bare);
    }
}

/// What a session holding exactly the tables a caller may read registers, and the bare names it
/// leaves out because more than one table claims them.
///
/// `readable` says of each table whether the caller may read it. A table that may not be read is
/// not registered at all, so that a query naming it fails to resolve: one that planned and
/// returned nothing could not be told from an empty table.
pub fn session_and_contested(tables: &Vec<TableName>, readable: &Vec<bool>, default_schema: &str) -> (r: RegistrationPlan)
    requires
        tables@.len() == readable@.len(),
    ensures
        r.placements@.len() == tables@.len(),
        forall|i: int|
            0 <= i < tables@.len() ==> #[trigger] r.placements@[i] == placement(
                names(tables@),
                readable@[i],
                tables@[i]@,
                default_schema@,
            ),
        r.registered == count_true(readable@),
        lists_contested(r.contested@, names(tables@)),
{
    let ghost all = names(tables@);
    let mut placements: Vec<Placement> = Vec::new();
    let mut registered: usize = 0;
    let mut contested: TextMap<Vec<String>> = TextMap::new();
    let mut i: usize = 0;
    while i < tables.len()
        invariant
            i <= tables@.len(),
            tables@.len() == readable@.len(),
            all == names(tables@),
            placements@.len() == i,
            forall|k: int|
                0 <= k < i ==> #[trigger] placements@[k] == placement(
                    all,
                    readable@[k],
                    tables@[k]@,
                    default_schema@,
                ),
            registered <= i,
            registered == count_true(readable@.take(i as int)),
            forall|bare: Seq<char>| #[trigger]
                contested@.contains_key(bare) ==> claims(all, bare) > 1 && text::views(contested@[bare]@) == claimants(
                    all,
                    bare,
                ),
            forall|k: int| 0 <= k < i && claims(all, (#[trigger] all[k]).1) > 1 ==> contested@.contains_key(all[k].1),
        decreases tables@.len() - i,
    {
        let table = &tables[i];
        assert(all[i as int] == table@);
        assert(readable@.take(i + 1).drop_last() =~= readable@.take(i as int));
        let claimed = count_claims(tables, table.table.as_str());
        let at_home = table.schema.as_str().is_empty() || same(table.schema.as_str(), default_schema);
        let may = readable[i];
        placements.push(Placement { qualified: may && !at_home, bare: may && (at_home || claimed == 1) });
        if may {
            registered = registered + 1;
        }
        if claimed > 1 {
            let listed = list_claimants(tables, table.table.as_str());
            contested.insert(table.table.clone(), listed);
        }
        i = i + 1;
    }
    assert(readable@.take(readable@.len() as int) =~= readable@);
    proof {
        assert forall|bare: Seq<char>| claims(all, bare) > 1 implies #[trigger] contested@.contains_key(bare) by {
            lemma_claimed(all, bare);
            let k = choose|k: int| 0 <= k < all.len() && (#[trigger] all[k]).1 == bare;
            assert(contested@.contains_key(all[k].1));
        }
    }
    RegistrationPlan { placements, registered, contested }
}

/// A name that tables of several schemas claim is registered bare by none of them, save a table
/// that lives in the session's own schema, whose full name it is.
pub proof fn contested_names_register_nowhere(
    tables: Seq<(Seq<char>, Seq<char>)>,
    readable: bool,
    table: (Seq<char>, Seq<char>),
    default_schema: Seq<char>,
)
    requires
        claims(tables, table.1) > 1,
        table.0.len() > 0,
        table.0 != default_schema,
    ensures
        !placement(tables, readable, table, default_schema).bare,
{
}

/// A table the caller may not read is registered under no name.
pub proof fn unreadable_tables_are_absent(
    tables: Seq<(Seq<char>, Seq<char>)>,
    table: (Seq<char>, Seq<char>),
    default_schema: Seq<char>,
)
    ensures
        placement(tables, false, table, default_schema) == (Placement { qualified: false, bare: false }),
{
}

// --- what is refused --------------------------------------------------------------------------

/// What a planned statement would do.
#[derive(Clone, Copy, PartialEq, Eq, Debug, Structural)]
pub enum PlanKind {
    /// Define something.
    Definition,
    /// Change rows.
    Modification,
    /// Copy rows in or out.
    Copy,
    /// Read.
    Read,
}

/// What a refused kind of statement is called.
pub open spec fn kind_called(kind: PlanKind) -> Seq<char> {
    match kind {
        PlanKind::Definition => "data definition"@,
        PlanKind::Modification => "data modification"@,
        PlanKind::Copy => "COPY"@,
        PlanKind::Read => Seq::empty(),
    }
}

/// The refusal of a statement that is not a read. `code` is the catalogue's for what is not
/// supported.
pub open spec fn not_a_read(kind: PlanKind, code: Seq<char>) -> wire::Refusal {
    wire::refused_about(
        "0A000"@,
        "["@ + code + "] "@ + kind_called(kind)
            + " is not served over this connection; this server is a read path over a published warehouse"@,
        "Write to the transactional store and let capture publish it, or publish an external table with `sankhya-publish`. See GUIDE.md §3."@,
        Seq::empty(),
    )
}

/// Refuse anything that is not a read. The engine would carry it out in memory and confirm it, and
/// nothing would have been written.
pub fn refuse_if_not_a_read(kind: PlanKind, code: &str) -> (r: Result<(), QueryFailure>)
    ensures
        match r {
            Ok(_) => kind is Read,
            Err(failure) => !(kind is Read) && failure@ == not_a_read(kind, code@),
        },
{
    let what = match kind {
        PlanKind::Definition => "data definition",
        PlanKind::Modification => "data modification",
        PlanKind::Copy => "COPY",
        PlanKind::Read => {
            return Ok(());
        },
    };
    let mut message = "[".to_string();
    message.append(code);
    message.append("] ");
    message.append(what);
    message.append(" is not served over this connection; this server is a read path over a published warehouse");
    let failure = wire::refusal_about(
        "0A000",
        message.as_str(),
        "Write to the transactional store and let capture publish it, or publish an external table with `sankhya-publish`. See GUIDE.md §3.",
        Vec::new(),
    );
    assert(failure@ =~= not_a_read(kind, code@));
    Err(failure)
}

/// A statement with its literals emptied, read from outside a literal. Inside one, a doubled quote
/// stands for a quote and does not end it.
pub open spec fn emptied(s: Seq<char>) -> Seq<char>
    decreases s.len(),
{
    if s.len() == 0 {
        Seq::empty()
    } else if s[0] == '\'' {
        "''"@ + past_literal(s.drop_first())
    } else {
        seq![s[0]] + emptied(s.drop_first())
    }
}

/// What follows a literal, read from inside it.
pub open spec fn past_literal(s: Seq<char>) -> Seq<char>
    decreases s.len(),
{
    if s.len() == 0 {
        Seq::empty()
    } else if s[0] != '\'' {
        past_literal(s.drop_first())
    } else if s.len() > 1 && s[1] == '\'' {
        past_literal(s.skip(2))
    } else {
        emptied(s.drop_first())
    }
}

/// A statement with its literals emptied, so that no value in it can decide how it is treated.
pub fn without_literals(sql: &str) -> (r: String)
    ensures
        r@ == emptied(sql@),
{
    let v = chars_of(sql);
    let mut out = String::new();
    let mut i: usize = 0;
    let mut inside = false;
    assert(v@.skip(0) =~= v@);
    while i < v.len()
        invariant
            i <= v@.len(),
            v@ == sql@,
            emptied(sql@) == out@ + (if inside {
                past_literal(v@.skip(i as int))
            } else {
                emptied(v@.skip(i as int))
            }),
        decreases v@.len() - i,
    {
        let ghost rest = v@.skip(i as int);
        let ghost was = out@;
        assert(rest.drop_first() =~= v@.skip(i + 1));
        if !inside {
            if v[i] == '\'' {
                out.append("''");
                inside = true;
                assert(was + ("''"@ + past_literal(v@.skip(i + 1))) =~= out@ + past_literal(v@.skip(i + 1)));
            } else {
                out.push(v[i]);
                assert(was + (seq![v@[i as int]] + emptied(v@.skip(i + 1))) =~= out@ + emptied(v@.skip(i + 1)));
            }
            i = i + 1;
        } else if v[i] != '\'' {
            i = i + 1;
        } else if v.len() - i > 1 && v[i + 1] == '\'' {
            assert(rest.skip(2) =~= v@.skip(i + 2));
            i = i + 2;
        } else {
            inside = false;
            i = i + 1;
        }
    }
    assert(v@.skip(i as int) =~= Seq::empty());
    assert(out@ + Seq::empty() =~= out@);
    out
}

/// Whether a character can stand in a keyword.
pub open spec fn is_word_char(c: char) -> bool {
    'a' <= c <= 'z' || 'A' <= c <= 'Z' || '0' <= c <= '9' || c == '_'
}

fn word_char(c: char) -> (r: bool)
    ensures
        r == is_word_char(c),
{
    ('a' <= c && c <= 'z') || ('A' <= c && c <= 'Z') || ('0' <= c && c <= '9') || c == '_'
}

/// Whether a word stands at a position of a text as a whole word.
pub open spec fn word_at(s: Seq<char>, word: Seq<char>, at: int) -> bool {
    &&& text::stands_at(s, word, at)
    &&& at == 0 || !is_word_char(s[at - 1])
    &&& at + word.len() == s.len() || !is_word_char(s[at + word.len()])
}

/// Whether a text holds a word as a whole word.
pub open spec fn holds_word(s: Seq<char>, word: Seq<char>) -> bool {
    exists|at: int| #[trigger] word_at(s, word, at)
}

fn has_word(s: &str, word: &str) -> (r: bool)
    ensures
        r == holds_word(s@, word@),
{
    let v = chars_of(s);
    let w = chars_of(word);
    let mut at: usize = 0;
    while at < v.len()
        invariant
            at <= v@.len(),
            v@ == s@,
            w@ == word@,
            forall|k: int| 0 <= k < at ==> !#[trigger] word_at(s@, word@, k),
        decreases v@.len() - at,
    {
        if text::matches_at(&v, &w, at) && (at == 0 || !word_char(v[at - 1])) && (v.len() - at == w.len() || !word_char(
            v[at + w.len()],
        )) {
            assert(word_at(s@, word@, at as int));
            return true;
        }
        assert(!word_at(s@, word@, at as int));
        at = at + 1;
    }
    if text::matches_at(&v, &w, at) && (at == 0 || !word_char(v[at - 1])) {
        assert(word_at(s@, word@, at as int));
        return true;
    }
    assert forall|k: int| !#[trigger] word_at(s@, word@, k) by {
        if word_at(s@, word@, k) {
            assert(0 <= k <= at);
        }
    }
    false
}

/// The refusal of a sampling clause, which the engine parses and then drops.
pub open spec fn not_sampled(code: Seq<char>) -> wire::Refusal {
    wire::refused_about(
        "0A000"@,
        "["@ + code + "] "@ + "TABLESAMPLE"@
            + " is parsed and then ignored by this engine, so the statement would be answered over the whole table while appearing to have sampled it. Refused rather than answered: a statement that silently means something different from what it says is worse than one that is rejected"@,
        "Sample explicitly --- a `WHERE` on a hash of a key column gives a reproducible sample this engine really applies."@,
        Seq::empty(),
    )
}

/// Whether a statement, given in upper case, asks for a sample.
pub open spec fn asks_for_a_sample(upper: Seq<char>) -> bool {
    holds_word(emptied(upper), "TABLESAMPLE"@)
}

/// Refuse a statement, given in upper case, that holds a construct the engine parses and then
/// ignores. `code` is the catalogue's for what is not supported.
pub fn refuse_ignored_construct(upper: &str, code: &str) -> (r: Result<(), QueryFailure>)
    ensures
        match r {
            Ok(_) => !asks_for_a_sample(upper@),
            Err(failure) => asks_for_a_sample(upper@) && failure@ == not_sampled(code@),
        },
{
    if !has_word(without_literals(upper).as_str(), "TABLESAMPLE") {
        return Ok(());
    }
    let mut message = "[".to_string();
    message.append(code);
    message.append("] ");
    message.append("TABLESAMPLE");
    message.append(
        " is parsed and then ignored by this engine, so the statement would be answered over the whole table while appearing to have sampled it. Refused rather than answered: a statement that silently means something different from what it says is worse than one that is rejected",
    );
    let failure = wire::refusal_about(
        "0A000",
        message.as_str(),
        "Sample explicitly --- a `WHERE` on a hash of a key column gives a reproducible sample this engine really applies.",
        Vec::new(),
    );
    assert(failure@ =~= not_sampled(code@));
    Err(failure)
}

/// Refuse a statement that holds a construct the engine parses and then ignores.
pub fn refuse_if_silently_ignored(sql: &str, code: &str) -> (r: Result<(), QueryFailure>)
    ensures
        match r {
            Ok(_) => !asks_for_a_sample(text::uppercase(sql@)),
            Err(failure) => asks_for_a_sample(text::uppercase(sql@)) && failure@ == not_sampled(code@),
        },
{
    refuse_ignored_construct(to_upper(sql).as_str(), code)
}

/// A literal decides nothing: whatever a literal without quotes of its own holds, the statement
/// around it is emptied alike.
pub proof fn literals_are_emptied(before: Seq<char>, a: Seq<char>, b: Seq<char>, after: Seq<char>)
    requires
        forall|i: int| 0 <= i < before.len() ==> before[i] != '\'',
        forall|i: int| 0 <= i < a.len() ==> a[i] != '\'',
        forall|i: int| 0 <= i < b.len() ==> b[i] != '\'',
    ensures
        emptied(before + seq!['\''] + a + seq!['\''] + after) == emptied(before + seq!['\''] + b + seq!['\''] + after),
{
    lemma_before_literal(before, seq!['\''] + a + seq!['\''] + after);
    lemma_before_literal(before, seq!['\''] + b + seq!['\''] + after);
    assert(before + seq!['\''] + a + seq!['\''] + after =~= before + (seq!['\''] + a + seq!['\''] + after));
    assert(before + seq!['\''] + b + seq!['\''] + after =~= before + (seq!['\''] + b + seq!['\''] + after));
    lemma_inside_literal(a, seq!['\''] + after);
    lemma_inside_literal(b, seq!['\''] + after);
    assert((seq!['\''] + a + seq!['\''] + after).drop_first() =~= a + (seq!['\''] + after));
    assert((seq!['\''] + b + seq!['\''] + after).drop_first() =~= b + (seq!['\''] + after));
}

proof fn lemma_before_literal(before: Seq<char>, rest: Seq<char>)
    requires
        forall|i: int| 0 <= i < before.len() ==> before[i] != '\'',
    ensures
        emptied(before + rest) == before + emptied(rest),
    decreases before.len(),
{
    if before.len() == 0 {
        assert(before + rest =~= rest);
        assert(before + emptied(rest) =~= emptied(rest));
    } else {
        assert((before + rest).drop_first() =~= before.drop_first() + rest);
        lemma_before_literal(before.drop_first(), rest);
        assert(seq![before[0]] + (before.drop_first() + emptied(rest)) =~= before + emptied(rest));
    }
}

proof fn lemma_inside_literal(inside: Seq<char>, rest: Seq<char>)
    requires
        forall|i: int| 0 <= i < inside.len() ==> inside[i] != '\'',
    ensures
        past_literal(inside + rest) == past_literal(rest),
    decreases inside.len(),
{
    if inside.len() == 0 {
        assert(inside + rest =~= rest);
    } else {
        assert((inside + rest).drop_first() =~= inside.drop_first() + rest);
        lemma_inside_literal(inside.drop_first(), rest);
    }
}

// --- how long, how much -----------------------------------------------------------------------

/// How many seconds a statement may run: what the setting says, half an hour where it says nothing
/// that is a number, and as good as forever where it says zero.
pub open spec fn deadline_seconds(setting: Option<Seq<char>>) -> int {
    let asked = match setting {
        Some(value) => match numerals::natural(text::trimmed(value), u64::MAX as int) {
            Some(seconds) => seconds,
            None => 1_800,
        },
        None => 1_800,
    };
    if asked == 0 {
        u32::MAX as int
    } else {
        asked
    }
}

/// How many seconds a statement may run.
pub fn statement_deadline(setting: Option<&str>) -> (r: u64)
    ensures
        r == deadline_seconds(
            match setting {
                Some(value) => Some(value@),
                None => None,
            },
        ),
{
    let asked: u64 = match setting {
        Some(value) => match parse_natural(trim(value).as_str()) {
            Some(seconds) => seconds,
            None => 1_800,
        },
        None => 1_800,
    };
    if asked == 0 {
        u32::MAX as u64
    } else {
        asked
    }
}

/// The failure of a statement that ran too long.
pub open spec fn out_of_time(seconds: int) -> wire::Refusal {
    wire::refused(
        "57014"@,
        "this statement ran for longer than "@ + numerals::decimal(seconds as nat)
            + " seconds and was stopped. It is stopped rather than left running because a statement nobody is waiting for still holds a worker, and enough of them starve every other connection"@,
    )
}

/// The failure of a statement that ran for longer than it may.
pub fn deadline_failure(seconds: u64) -> (r: QueryFailure)
    ensures
        r@ == out_of_time(seconds as int),
{
    let mut message = "this statement ran for longer than ".to_string();
    message.append(decimal_text(seconds).as_str());
    message.append(
        " seconds and was stopped. It is stopped rather than left running because a statement nobody is waiting for still holds a worker, and enough of them starve every other connection",
    );
    refusal("57014", message.as_str())
}

/// The refusal of a result with too many rows.
pub open spec fn too_many_rows(total: int, most: int) -> wire::Refusal {
    wire::refused(
        "53400"@,
        "this result has "@ + numerals::decimal(total as nat) + " rows and the limit is "@ + numerals::decimal(
            most as nat,
        ) + ". Refusing rather than returning the first "@ + numerals::decimal(most as nat)
            + ": a truncated result presented as a complete one is a wrong answer, and this protocol has no way to say there are more. Add a LIMIT, or narrow the query"@,
    )
}

/// Refuse a result of more rows than may be sent. It is never cut short: a part presented as the
/// whole is a wrong answer.
pub fn refuse_too_many(total: u64, most: u64) -> (r: Result<(), QueryFailure>)
    ensures
        match r {
            Ok(_) => total <= most,
            Err(failure) => total > most && failure@ == too_many_rows(total as int, most as int),
        },
{
    if total <= most {
        return Ok(());
    }
    let mut message = "this result has ".to_string();
    message.append(decimal_text(total).as_str());
    message.append(" rows and the limit is ");
    message.append(decimal_text(most).as_str());
    message.append(". Refusing rather than returning the first ");
    message.append(decimal_text(most).as_str());
    message.append(
        ": a truncated result presented as a complete one is a wrong answer, and this protocol has no way to say there are more. Add a LIMIT, or narrow the query",
    );
    Err(refusal("53400", message.as_str()))
}

// --- how values are written -------------------------------------------------------------------

/// The type of a column, as far as a client is told about it.
#[derive(Clone, Copy, PartialEq, Eq, Debug, Structural)]
pub enum ColumnType {
    /// True or false.
    Boolean,
    /// An 8-bit integer.
    Int8,
    /// A 16-bit integer.
    Int16,
    /// A 32-bit integer.
    Int32,
    /// A 64-bit integer.
    Int64,
    /// An unsigned 8-bit integer.
    UInt8,
    /// An unsigned 16-bit integer.
    UInt16,
    /// An unsigned 32-bit integer.
    UInt32,
    /// An unsigned 64-bit integer.
    UInt64,
    /// A single-precision float.
    Float32,
    /// A double-precision float.
    Float64,
    /// A 128-bit decimal.
    Decimal128,
    /// A 256-bit decimal.
    Decimal256,
    /// A date, in days.
    Date32,
    /// A date, in milliseconds.
    Date64,
    /// A timestamp in a zone.
    ZonedTimestamp,
    /// A timestamp with no zone.
    Timestamp,
    /// Bytes.
    Binary,
    /// Bytes, at greater length.
    LargeBinary,
    /// A list of floats.
    Floats,
    /// Anything else, which is sent as text.
    Other,
}

/// The type number a client is told, and the size of a value.
pub open spec fn client_type(kind: ColumnType) -> (i32, i16) {
    match kind {
        ColumnType::Boolean => (wire::OID_BOOL, 1),
        ColumnType::Int8 => (wire::OID_INT2, 2),
        ColumnType::Int16 => (wire::OID_INT2, 2),
        ColumnType::Int32 => (wire::OID_INT4, 4),
        ColumnType::Int64 => (wire::OID_INT8, 8),
        ColumnType::UInt8 => (wire::OID_INT2, 2),
        ColumnType::UInt16 => (wire::OID_INT4, 4),
        ColumnType::UInt32 => (wire::OID_INT8, 8),
        ColumnType::UInt64 => (wire::OID_INT8, 8),
        ColumnType::Float32 => (wire::OID_FLOAT4, 4),
        ColumnType::Float64 => (wire::OID_FLOAT8, 8),
        ColumnType::Decimal128 => (wire::OID_NUMERIC, wire::VARIES),
        ColumnType::Decimal256 => (wire::OID_NUMERIC, wire::VARIES),
        ColumnType::Date32 => (wire::OID_DATE, 4),
        ColumnType::Date64 => (wire::OID_DATE, 4),
        ColumnType::ZonedTimestamp => (wire::OID_TIMESTAMPTZ, 8),
        ColumnType::Timestamp => (wire::OID_TIMESTAMP, 8),
        ColumnType::Binary => (wire::OID_BYTEA, wire::VARIES),
        ColumnType::LargeBinary => (wire::OID_BYTEA, wire::VARIES),
        ColumnType::Floats => (wire::OID_FLOAT8_ARRAY, wire::VARIES),
        ColumnType::Other => (wire::OID_TEXT, wire::VARIES),
    }
}

/// The type number a client is told, and the size of a value. Every number is one clients know: an
/// unknown one would turn a number into text with no error anywhere.
pub fn pg_type(kind: ColumnType) -> (r: (i32, i16))
    ensures
        r == client_type(kind),
{
    match kind {
        ColumnType::Boolean => (wire::OID_BOOL, 1),
        ColumnType::Int8 => (wire::OID_INT2, 2),
        ColumnType::Int16 => (wire::OID_INT2, 2),
        ColumnType::Int32 => (wire::OID_INT4, 4),
        ColumnType::Int64 => (wire::OID_INT8, 8),
        ColumnType::UInt8 => (wire::OID_INT2, 2),
        ColumnType::UInt16 => (wire::OID_INT4, 4),
        ColumnType::UInt32 => (wire::OID_INT8, 8),
        ColumnType::UInt64 => (wire::OID_INT8, 8),
        ColumnType::Float32 => (wire::OID_FLOAT4, 4),
        ColumnType::Float64 => (wire::OID_FLOAT8, 8),
        ColumnType::Decimal128 => (wire::OID_NUMERIC, wire::VARIES),
        ColumnType::Decimal256 => (wire::OID_NUMERIC, wire::VARIES),
        ColumnType::Date32 => (wire::OID_DATE, 4),
        ColumnType::Date64 => (wire::OID_DATE, 4),
        ColumnType::ZonedTimestamp => (wire::OID_TIMESTAMPTZ, 8),
        ColumnType::Timestamp => (wire::OID_TIMESTAMP, 8),
        ColumnType::Binary => (wire::OID_BYTEA, wire::VARIES),
        ColumnType::LargeBinary => (wire::OID_BYTEA, wire::VARIES),
        ColumnType::Floats => (wire::OID_FLOAT8_ARRAY, wire::VARIES),
        ColumnType::Other => (wire::OID_TEXT, wire::VARIES),
    }
}

/// The description of a result's columns.
pub open spec fn described(columns: Seq<(String, ColumnType)>) -> Seq<(Seq<char>, i32, i16)> {
    columns.map_values(|c: (String, ColumnType)| (c.0@, client_type(c.1).0, client_type(c.1).1))
}

/// The description of a result's columns.
pub fn describe(columns: &Vec<(String, ColumnType)>) -> (r: Vec<FieldDescription>)
    ensures
        r@.map_values(|f: FieldDescription| f@) == described(columns@),
{
    let mut r: Vec<FieldDescription> = Vec::new();
    let mut i: usize = 0;
    while i < columns.len()
        invariant
            i <= columns@.len(),
            r@.len() == i,
            forall|k: int| 0 <= k < i ==> (#[trigger] r@[k])@ == described(columns@)[k],
        decreases columns@.len() - i,
    {
        let (type_oid, size) = pg_type(columns[i].1);
        r.push(FieldDescription::text(columns[i].0.as_str(), type_oid, size));
        i = i + 1;
    }
    assert(r@.map_values(|f: FieldDescription| f@) =~= described(columns@));
    r
}

/// The unit a timestamp is counted in.
#[derive(Clone, Copy, PartialEq, Eq, Debug, Structural)]
pub enum Resolution {
    /// Seconds.
    Second,
    /// Thousandths.
    Millisecond,
    /// Millionths.
    Microsecond,
    /// Thousand-millionths.
    Nanosecond,
}

/// One value of a result.
#[derive(PartialEq, Eq, Debug)]
pub enum Value {
    /// True or false.
    Truth(bool),
    /// A whole number.
    Whole(i64),
    /// A natural number.
    Natural(u64),
    /// Text, or a value that is sent as the text given.
    Text(String),
    /// A timestamp.
    Timestamp {
        /// The unit it is counted in.
        unit: Resolution,
        /// The count since the epoch.
        count: i64,
        /// Whether its column has a zone.
        zoned: bool,
    },
    /// Bytes.
    Bytes(Vec<u8>),
    /// A list of numbers, each as text, or nothing for a null.
    Numbers(Vec<Option<String>>),
}

/// The microsecond a timestamp falls in, where it can be counted in microseconds at all.
pub open spec fn micros_of(unit: Resolution, count: i64) -> Option<i64> {
    let micros = match unit {
        Resolution::Second => count * 1_000_000,
        Resolution::Millisecond => count * 1_000,
        Resolution::Microsecond => count as int,
        Resolution::Nanosecond => count as int / 1_000,
    };
    if i64::MIN <= micros <= i64::MAX {
        Some(micros as i64)
    } else {
        None
    }
}

/// The quotient and remainder of a division that rounds down.
fn floor_div(n: i64, d: i64) -> (r: (i64, i64))
    requires
        d > 1,
    ensures
        r.0 == n as int / d as int,
        r.1 == n as int % d as int,
{
    if n >= 0 {
        (n / d, n % d)
    } else {
        let p: i64 = -(n + 1);
        proof {
            vstd::arithmetic::div_mod::lemma_fundamental_div_mod(p as int, d as int);
            vstd::arithmetic::div_mod::lemma_mod_bound(p as int, d as int);
            let k = p as int / d as int;
            assert(d * (-k - 1) == -(d * k) - d) by (nonlinear_arith);
            vstd::arithmetic::div_mod::lemma_fundamental_div_mod_converse(
                n as int,
                d as int,
                -k - 1,
                d - 1 - p as int % d as int,
            );
        }
        (-(p / d) - 1, d - 1 - p % d)
    }
}

fn to_micros(unit: Resolution, count: i64) -> (r: Option<i64>)
    ensures
        r == micros_of(unit, count),
{
    match unit {
        Resolution::Second => count.checked_mul(1_000_000),
        Resolution::Millisecond => count.checked_mul(1_000),
        Resolution::Microsecond => Some(count),
        Resolution::Nanosecond => Some(floor_div(count, 1_000).0),
    }
}

/// The microseconds of a day.
pub const DAY_MICROS: i64 = 86_400_000_000;

/// A part of a second in millionths, as it is written behind the seconds: nothing for none, and no
/// zeros at the end.
pub open spec fn fraction_text(micros: int) -> Seq<char> {
    if micros == 0 {
        Seq::empty()
    } else {
        "."@ + text::without_trailing(numerals::padded(micros, 6), '0')
    }
}

/// A time of day.
pub open spec fn clock_text(micros: int) -> Seq<char> {
    let seconds = micros / 1_000_000;
    numerals::padded(seconds / 3_600, 2) + ":"@ + numerals::padded(seconds / 60 % 60, 2) + ":"@ + numerals::padded(
        seconds % 60,
        2,
    ) + fraction_text(micros % 1_000_000)
}

/// An instant in UTC, as a driver reads it: the date, a blank, the time of day, and `+00` where the
/// column has a zone.
pub open spec fn instant_text(micros: int, zoned: bool) -> Seq<char> {
    datedate::partition_text(
        datedate::Granularity::Day,
        datedate::civil(micros / DAY_MICROS as int),
    ) + " "@ + clock_text(micros % DAY_MICROS as int) + (if zoned {
        "+00"@
    } else {
        Seq::empty()
    })
}

/// Microseconds since the epoch, as a driver reads them.
pub fn timestamp_text(micros: i64, zoned: bool) -> (r: String)
    ensures
        r@ == instant_text(micros as int, zoned),
{
    let (days, within) = floor_div(micros, DAY_MICROS);
    let axis = datedate::DateAxis::ingest_date();
    let mut r = axis.partition_of(days as i32);
    let seconds: i64 = within / 1_000_000;
    let fraction: i64 = within % 1_000_000;
    r.append(" ");
    let mut clock = padded_text(seconds / 3_600, 2);
    clock.append(":");
    clock.append(padded_text(seconds / 60 % 60, 2).as_str());
    clock.append(":");
    clock.append(padded_text(seconds % 60, 2).as_str());
    let mut part = String::new();
    if fraction != 0 {
        part.append(".");
        part.append(trim_trailing(padded_text(fraction, 6).as_str(), '0').as_str());
        assert(part@ =~= fraction_text(fraction as int));
    }
    clock.append(part.as_str());
    r.append(clock.as_str());
    let mut tail = String::new();
    if zoned {
        tail.append("+00");
        assert(tail@ =~= "+00"@);
    }
    r.append(tail.as_str());
    r
}

/// The character of one hexadecimal digit.
pub open spec fn hex_digit(d: int) -> char {
    if d < 10 {
        (48 + d) as char
    } else {
        (87 + d) as char
    }
}

/// Bytes as lower-case hexadecimal, two digits each.
pub open spec fn hex_text(bytes: Seq<u8>) -> Seq<char> {
    Seq::new(
        2 * bytes.len(),
        |i: int|
            if i % 2 == 0 {
                hex_digit(bytes[i / 2] as int / 16)
            } else {
                hex_digit(bytes[i / 2] as int % 16)
            },
    )
}

fn hex_char(d: u8) -> (c: char)
    requires
        d < 16,
    ensures
        c == hex_digit(d as int),
{
    if d < 10 {
        (48 + d) as char
    } else {
        (87 + d) as char
    }
}

/// Bytes as lower-case hexadecimal.
pub fn hex(bytes: &Vec<u8>) -> (r: String)
    ensures
        r@ == hex_text(bytes@),
{
    let mut r = String::new();
    let mut i: usize = 0;
    while i < bytes.len()
        invariant
            i <= bytes@.len(),
            r@ == hex_text(bytes@.take(i as int)),
        decreases bytes@.len() - i,
    {
        let ghost was = r@;
        let b = bytes[i];
        r.push(hex_char(b / 16));
        r.push(hex_char(b % 16));
        i = i + 1;
        assert(r@ =~= hex_text(bytes@.take(i as int)));
    }
    assert(bytes@.take(bytes@.len() as int) =~= bytes@);
    r
}

/// Different bytes are never written alike.
pub proof fn hex_is_faithful(a: Seq<u8>, b: Seq<u8>)
    requires
        hex_text(a) == hex_text(b),
    ensures
        a == b,
{
    assert(hex_text(a).len() == 2 * a.len() && hex_text(b).len() == 2 * b.len());
    assert(a.len() == b.len());
    assert forall|i: int| 0 <= i < a.len() implies a[i] == b[i] by {
        assert(hex_text(a)[2 * i] == hex_text(b)[2 * i]);
        assert(hex_text(a)[2 * i + 1] == hex_text(b)[2 * i + 1]);
        assert((2 * i) / 2 == i && (2 * i) % 2 == 0 && (2 * i + 1) / 2 == i && (2 * i + 1) % 2 == 1);
        assert(hex_text(a)[2 * i] == hex_digit(a[i] as int / 16));
        assert(hex_text(b)[2 * i] == hex_digit(b[i] as int / 16));
        assert(hex_text(a)[2 * i + 1] == hex_digit(a[i] as int % 16));
        assert(hex_text(b)[2 * i + 1] == hex_digit(b[i] as int % 16));
        lemma_hex_digit(a[i] as int / 16, b[i] as int / 16);
        lemma_hex_digit(a[i] as int % 16, b[i] as int % 16);
    }
    assert(a =~= b);
}

proof fn lemma_hex_digit(x: int, y: int)
    requires
        0 <= x < 16,
        0 <= y < 16,
        hex_digit(x) == hex_digit(y),
    ensures
        x == y,
{
}

/// The elements of a list of numbers, as they are written: a null as the bare word.
pub open spec fn element_texts(elements: Seq<Option<String>>) -> Seq<Seq<char>> {
    elements.map_values(
        |e: Option<String>|
            match e {
                Some(s) => s@,
                None => "NULL"@,
            },
    )
}

/// A list of numbers, in braces.
pub fn render_double_array(elements: &Vec<Option<String>>) -> (r: String)
    ensures
        r@ == "{"@ + text::joined(element_texts(elements@), ","@) + "}"@,
{
    let mut parts: Vec<String> = Vec::new();
    let mut i: usize = 0;
    while i < elements.len()
        invariant
            i <= elements@.len(),
            parts@.len() == i,
            forall|k: int| 0 <= k < i ==> (#[trigger] parts@[k])@ == element_texts(elements@)[k],
        decreases elements@.len() - i,
    {
        match &elements[i] {
            Some(s) => parts.push(s.clone()),
            None => parts.push("NULL".to_string()),
        }
        i = i + 1;
    }
    assert(text::views(parts@) =~= element_texts(elements@));
    let mut r = "{".to_string();
    r.append(text::join(&parts, ",").as_str());
    r.append("}");
    r
}

/// A value as a client reads it.
pub open spec fn value_text(value: Value) -> Seq<char> {
    match value {
        Value::Truth(true) => "t"@,
        Value::Truth(false) => "f"@,
        Value::Whole(n) => numerals::signed_decimal(n as int),
        Value::Natural(n) => numerals::decimal(n as nat),
        Value::Text(s) => s@,
        Value::Timestamp { unit, count, zoned } => match micros_of(unit, count) {
            Some(micros) => instant_text(micros as int, zoned),
            None => Seq::empty(),
        },
        Value::Bytes(bytes) => "\\x"@ + hex_text(bytes@),
        Value::Numbers(elements) => "{"@ + text::joined(element_texts(elements@), ","@) + "}"@,
    }
}

/// A value as a client reads it.
pub fn render_value(value: &Value) -> (r: String)
    ensures
        r@ == value_text(*value),
{
    match value {
        Value::Truth(b) => {
            if *b {
                "t".to_string()
            } else {
                "f".to_string()
            }
        },
        Value::Whole(n) => signed_text(*n),
        Value::Natural(n) => decimal_text(*n),
        Value::Text(s) => s.clone(),
        Value::Timestamp { unit, count, zoned } => match to_micros(*unit, *count) {
            Some(micros) => timestamp_text(micros, *zoned),
            None => String::new(),
        },
        Value::Bytes(bytes) => {
            let mut r = "\\x".to_string();
            r.append(hex(bytes).as_str());
            r
        },
        Value::Numbers(elements) => render_double_array(elements),
    }
}

/// A row as a client reads it: nothing for a null, never an empty text.
pub open spec fn row_texts(values: Seq<Option<Value>>) -> Seq<Option<Seq<char>>> {
    values.map_values(
        |v: Option<Value>|
            match v {
                Some(value) => Some(value_text(value)),
                None => None,
            },
    )
}

/// A row as a client reads it.
pub fn render_row(values: &Vec<Option<Value>>) -> (r: Vec<Option<String>>)
    ensures
        wire::row(r) == row_texts(values@),
{
    let mut r: Vec<Option<String>> = Vec::new();
    let mut i: usize = 0;
    while i < values.len()
        invariant
            i <= values@.len(),
            r@.len() == i,
            forall|k: int| 0 <= k < i ==> wire::cell(#[trigger] r@[k]) == row_texts(values@)[k],
        decreases values@.len() - i,
    {
        match &values[i] {
            Some(value) => r.push(Some(render_value(value))),
            None => r.push(None),
        }
        i = i + 1;
    }
    assert(wire::row(r) =~= row_texts(values@));
    r
}

/// The answer to a query: its columns, its rows, and how many there are.
pub open spec fn selected(columns: Seq<(String, ColumnType)>, rows: Seq<Vec<Option<Value>>>) -> wire::Answer {
    wire::Answer {
        fields: described(columns),
        rows: rows.map_values(|r: Vec<Option<Value>>| row_texts(r@)),
        tag: "SELECT "@ + numerals::decimal(rows.len()),
    }
}

/// The answer to a query, or the refusal of one with too many rows.
pub fn run(columns: &Vec<(String, ColumnType)>, rows: &Vec<Vec<Option<Value>>>, max_rows: usize) -> (r: Result<
    QueryResult,
    QueryFailure,
>)
    ensures
        wire::reply(r) == (if rows@.len() > max_rows {
            Err::<wire::Answer, wire::Refusal>(too_many_rows(rows@.len() as int, max_rows as int))
        } else {
            Ok(selected(columns@, rows@))
        }),
{
    if let Err(failure) = refuse_too_many(rows.len() as u64, max_rows as u64) {
        return Err(failure);
    }
    let mut texts: Vec<Vec<Option<String>>> = Vec::new();
    let mut i: usize = 0;
    while i < rows.len()
        invariant
            i <= rows@.len(),
            texts@.len() == i,
            forall|k: int| 0 <= k < i ==> wire::row(#[trigger] texts@[k]) == row_texts(rows@[k]@),
        decreases rows@.len() - i,
    {
        texts.push(render_row(&rows[i]));
        i = i + 1;
    }
    let mut tag = "SELECT ".to_string();
    tag.append(decimal_text(rows.len() as u64).as_str());
    let r = QueryResult { fields: describe(columns), rows: texts, tag };
    assert(r@ =~= selected(columns@, rows@)) by {
        assert(r@.rows =~= selected(columns@, rows@).rows);
    }
    Ok(r)
}

// --- what a failure is called -----------------------------------------------------------------

/// A failure of the engine: what it says, and what it is.
#[derive(PartialEq, Eq, Debug)]
pub struct EngineError {
    /// What it says.
    pub said: String,
    /// What it is.
    pub kind: EngineErrorKind,
}

/// What a failure of the engine is.
#[derive(PartialEq, Eq, Debug)]
pub enum EngineErrorKind {
    /// Another failure, with a place or a circumstance added.
    Wrapped(Box<EngineError>),
    /// Several failures.
    Several(Vec<EngineError>),
    /// The statement does not parse.
    Syntax,
    /// The statement does not plan: what the planner says.
    Plan(String),
    /// A column does not resolve.
    Schema,
    /// The engine does not do that.
    NotImplemented,
    /// The engine ran out of something.
    ResourcesExhausted,
    /// The engine's own invariant does not hold.
    Internal,
    /// Storage cannot be read.
    Storage,
    /// The statement fails while running: what the engine says.
    Execution(String),
    /// A computation on columns fails: what it says.
    Computation(String),
    /// A file cannot be decoded.
    File,
    /// The engine's configuration is invalid.
    Configuration,
    /// Anything else.
    Other,
}

/// The failure a wrapped one comes down to: what is wrapped, and of several the first.
pub open spec fn root_cause(error: EngineError) -> EngineError
    decreases error,
{
    match error.kind {
        EngineErrorKind::Wrapped(inner) => root_cause(*inner),
        EngineErrorKind::Several(errors) => if errors@.len() > 0 {
            root_cause(errors@[0])
        } else {
            error
        },
        _ => error,
    }
}

fn find_root(error: &EngineError) -> (r: &EngineError)
    ensures
        *r == root_cause(*error),
    decreases *error,
{
    match &error.kind {
        EngineErrorKind::Wrapped(inner) => find_root(inner),
        EngineErrorKind::Several(errors) => {
            if errors.len() > 0 {
                find_root(&errors[0])
            } else {
                error
            }
        },
        _ => error,
    }
}

/// The state a message names, where it names one.
pub open spec fn state_of_message(said: Seq<char>) -> Option<Seq<char>> {
    if text::holds(said, "not found"@) && text::holds(said, "table"@) {
        Some("42P01"@)
    } else if text::holds(said, "no field named"@) || text::holds(said, "column"@) && text::holds(said, "not found"@) {
        Some("42703"@)
    } else if text::holds(said, "divide by zero"@) {
        Some("22012"@)
    } else if text::holds(said, "cannot cast"@) || text::holds(said, "cast error"@) {
        Some("22P02"@)
    } else {
        None
    }
}

/// The state a failure has of its own, where it has one: it goes by what the failure is, and only
/// where that does not decide by what it says.
pub open spec fn state_of(root: EngineError) -> Option<Seq<char>> {
    match root.kind {
        EngineErrorKind::Schema => Some("42703"@),
        EngineErrorKind::NotImplemented => Some("0A000"@),
        EngineErrorKind::Computation(said) => if text::holds(said@, "Divide by zero"@) {
            Some("22012"@)
        } else if text::holds(said@, "Cast error"@) || text::holds(said@, "Parser error"@) {
            Some("22P02"@)
        } else {
            None
        },
        EngineErrorKind::Plan(said) => state_of_message(text::lowercase(said@)),
        EngineErrorKind::Execution(said) => state_of_message(text::lowercase(said@)),
        _ => None,
    }
}

/// The state a message, given in lower case, names.
pub fn state_named(said: &str) -> (r: Option<&'static str>)
    ensures
        match r {
            Some(state) => state_of_message(said@) == Some(state@),
            None => state_of_message(said@) is None,
        },
{
    if contains(said, "not found") && contains(said, "table") {
        Some("42P01")
    } else if contains(said, "no field named") || (contains(said, "column") && contains(said, "not found")) {
        Some("42703")
    } else if contains(said, "divide by zero") {
        Some("22012")
    } else if contains(said, "cannot cast") || contains(said, "cast error") {
        Some("22P02")
    } else {
        None
    }
}

/// The state a failure has of its own, where it has one.
pub fn specific_sqlstate(error: &EngineError) -> (r: Option<&'static str>)
    ensures
        match r {
            Some(state) => state_of(root_cause(*error)) == Some(state@),
            None => state_of(root_cause(*error)) is None,
        },
{
    match &find_root(error).kind {
        EngineErrorKind::Schema => Some("42703"),
        EngineErrorKind::NotImplemented => Some("0A000"),
        EngineErrorKind::Computation(said) => {
            if contains(said.as_str(), "Divide by zero") {
                Some("22012")
            } else if contains(said.as_str(), "Cast error") || contains(said.as_str(), "Parser error") {
                Some("22P02")
            } else {
                None
            }
        },
        EngineErrorKind::Plan(said) => state_named(to_lower(said.as_str()).as_str()),
        EngineErrorKind::Execution(said) => state_named(to_lower(said.as_str()).as_str()),
        _ => None,
    }
}

/// The catalogue entry a failure falls under.
#[derive(Clone, Copy, PartialEq, Eq, Debug, Structural)]
pub enum FailureClass {
    /// The statement is wrong, and the caller can mend it.
    InvalidQuery,
    /// This is not done here.
    NotSupported,
    /// There is no room for it now.
    AdmissionRejected,
    /// An invariant does not hold.
    InvariantViolated,
    /// Storage cannot be read.
    StorageUnavailable,
    /// The statement failed.
    StatementFailed,
    /// The configuration is invalid.
    ConfigInvalid,
}

/// The catalogue entry a failure falls under. One the engine adds later is a failed statement, not
/// a broken invariant: nobody should be woken for a new kind of error.
pub open spec fn class_of(root: EngineError) -> FailureClass {
    match root.kind {
        EngineErrorKind::Syntax => FailureClass::InvalidQuery,
        EngineErrorKind::Plan(_) => FailureClass::InvalidQuery,
        EngineErrorKind::Schema => FailureClass::InvalidQuery,
        EngineErrorKind::NotImplemented => FailureClass::NotSupported,
        EngineErrorKind::ResourcesExhausted => FailureClass::AdmissionRejected,
        EngineErrorKind::Internal => FailureClass::InvariantViolated,
        EngineErrorKind::Storage => FailureClass::StorageUnavailable,
        EngineErrorKind::Configuration => FailureClass::ConfigInvalid,
        _ => FailureClass::StatementFailed,
    }
}

/// The catalogue entry a failure falls under, and what the failure it comes down to says.
pub fn classify(error: &EngineError) -> (r: (FailureClass, &String))
    ensures
        r.0 == class_of(root_cause(*error)),
        r.1@ == root_cause(*error).said@,
{
    let root = find_root(error);
    let class = match &root.kind {
        EngineErrorKind::Syntax => FailureClass::InvalidQuery,
        EngineErrorKind::Plan(_) => FailureClass::InvalidQuery,
        EngineErrorKind::Schema => FailureClass::InvalidQuery,
        EngineErrorKind::NotImplemented => FailureClass::NotSupported,
        EngineErrorKind::ResourcesExhausted => FailureClass::AdmissionRejected,
        EngineErrorKind::Internal => FailureClass::InvariantViolated,
        EngineErrorKind::Storage => FailureClass::StorageUnavailable,
        EngineErrorKind::Configuration => FailureClass::ConfigInvalid,
        _ => FailureClass::StatementFailed,
    };
    (class, &root.said)
}

/// What the catalogue says of a class of failures.
#[derive(PartialEq, Eq, Debug)]
pub struct CatalogueEntry {
    /// The code a support conversation is conducted in.
    pub code: String,
    /// The state of the class.
    pub sqlstate: String,
    /// What to do about it.
    pub remediation: String,
}

/// A failure as a client is told it: the state of its own or else of its class, the code once, what
/// the engine says, and what to do.
pub open spec fn failure_told(error: EngineError, entry: CatalogueEntry) -> wire::Refusal {
    let said = error.said@;
    let mark = "["@ + entry.code@ + "]"@;
    wire::Refusal {
        sqlstate: match state_of(root_cause(error)) {
            Some(state) => state,
            None => entry.sqlstate@,
        },
        message: if text::holds(said, mark) {
            said
        } else {
            mark + " "@ + said
        },
        detail: Some(entry.remediation@),
        subjects: Seq::empty(),
    }
}

/// A failure of the engine as a client is told it. `entry` is the catalogue's for the class the
/// failure falls under.
pub fn plan_failure(error: &EngineError, entry: &CatalogueEntry) -> (r: QueryFailure)
    ensures
        r@ == failure_told(*error, *entry),
{
    let sqlstate = match specific_sqlstate(error) {
        Some(state) => state.to_string(),
        None => entry.sqlstate.clone(),
    };
    let mut mark = "[".to_string();
    mark.append(entry.code.as_str());
    mark.append("]");
    let message = if contains(error.said.as_str(), mark.as_str()) {
        error.said.clone()
    } else {
        mark.append(" ");
        mark.append(error.said.as_str());
        mark
    };
    let r = QueryFailure { sqlstate, message, detail: Some(entry.remediation.clone()), subjects: Vec::new() };
    assert(r@ =~= failure_told(*error, *entry));
    r
}

/// What a failure is called does not change with what it is wrapped in.
pub proof fn wrapping_changes_no_name(error: EngineError, said: String)
    ensures
        root_cause(EngineError { said, kind: EngineErrorKind::Wrapped(Box::new(error)) }) == root_cause(error),
{
}

/// The pieces an instant is written in.
pub struct Pieces {
    /// The year.
    pub year: Seq<char>,
    /// The month.
    pub month: Seq<char>,
    /// The day.
    pub day: Seq<char>,
    /// The hour.
    pub hour: Seq<char>,
    /// The minute.
    pub minute: Seq<char>,
    /// The second.
    pub second: Seq<char>,
    /// The part of a second, with the point in front; nothing for none.
    pub fraction: Seq<char>,
}

/// The millionths of a second that a written fraction denotes.
pub open spec fn fraction_value(written: Seq<char>) -> int {
    if written.len() == 0 {
        0
    } else {
        numerals::digits_value(written.skip(1)) * pow(10, (7 - written.len()) as nat)
    }
}

/// Whether a text is that of an instant, in these pieces and of this year: a date of the calendar and a
/// time of day, each number at its place and in its width, and together as many microseconds from the
/// epoch as the instant is.
pub open spec fn spells_instant(s: Seq<char>, zoned: bool, micros: int, p: Pieces, year: int) -> bool {
    let (month, day) = (numerals::digits_value(p.month), numerals::digits_value(p.day));
    let (hour, minute, second) = (
        numerals::digits_value(p.hour),
        numerals::digits_value(p.minute),
        numerals::digits_value(p.second),
    );
    &&& s == p.year + "-"@ + p.month + "-"@ + p.day + " "@ + p.hour + ":"@ + p.minute + ":"@ + p.second + p.fraction + (
    if zoned {
        "+00"@
    } else {
        Seq::empty()
    })
    &&& numerals::spells(p.year, year) && p.year.len() >= 4
    &&& p.month.len() == 2 && p.day.len() == 2 && p.hour.len() == 2 && p.minute.len() == 2 && p.second.len() == 2
    &&& numerals::all_digits(p.month) && numerals::all_digits(p.day) && numerals::all_digits(p.hour)
        && numerals::all_digits(p.minute) && numerals::all_digits(p.second)
    &&& datedate::is_date(year, month, day)
    &&& 0 <= hour < 24 && 0 <= minute < 60 && 0 <= second < 60
    &&& 0 <= fraction_value(p.fraction) < 1_000_000
    &&& p.fraction.len() > 0 ==> 2 <= p.fraction.len() <= 7 && p.fraction[0] == '.' && numerals::all_digits(
        p.fraction.skip(1),
    ) && p.fraction.last() != '0'
    &&& micros == datedate::days_to(year, month, day) * 86_400_000_000 + hour * 3_600_000_000 + minute * 60_000_000
        + second * 1_000_000 + fraction_value(p.fraction)
}

/// A written part of a second denotes that part: at most six digits, the last no zero, that count
/// millionths once they are filled up to six.
pub proof fn fractions_denote_themselves(micros: int)
    requires
        0 <= micros < 1_000_000,
    ensures
        micros == 0 <==> fraction_text(micros).len() == 0,
        micros > 0 ==> {
            let digits = fraction_text(micros).skip(1);
            &&& fraction_text(micros)[0] == '.'
            &&& 1 <= digits.len() <= 6
            &&& numerals::all_digits(digits)
            &&& digits.last() != '0'
            &&& numerals::digits_value(digits) * pow(10, (6 - digits.len()) as nat) == micros
        },
{
    if micros > 0 {
        datedate::lemma_small_powers();
        numerals::padded_numbers_read_back(micros, 6);
        numerals::trailing_zeros_scale(numerals::padded(micros, 6));
        reveal_strlit(".");
        assert(fraction_text(micros).skip(1) =~= text::without_trailing(numerals::padded(micros, 6), '0'));
    }
}

/// The pieces that an instant is written in.
spec fn pieces_of(micros: int) -> Pieces {
    let date = datedate::civil(micros / DAY_MICROS as int);
    let within = micros % DAY_MICROS as int;
    let seconds = within / 1_000_000;
    Pieces {
        year: numerals::padded(date.0, 4),
        month: numerals::padded(date.1, 2),
        day: numerals::padded(date.2, 2),
        hour: numerals::padded(seconds / 3_600, 2),
        minute: numerals::padded(seconds / 60 % 60, 2),
        second: numerals::padded(seconds % 60, 2),
        fraction: fraction_text(within % 1_000_000),
    }
}

proof fn lemma_pieces(micros: int, zoned: bool)
    ensures
        spells_instant(
            instant_text(micros, zoned),
            zoned,
            micros,
            pieces_of(micros),
            datedate::civil(micros / DAY_MICROS as int).0,
        ),
{
    let p = pieces_of(micros);
    let days = micros / DAY_MICROS as int;
    let date = datedate::civil(days);
    let within = micros % DAY_MICROS as int;
    let seconds = within / 1_000_000;
    datedate::every_day_has_a_date(days);
    vstd::arithmetic::div_mod::lemma_fundamental_div_mod(micros, DAY_MICROS as int);
    vstd::arithmetic::div_mod::lemma_mod_bound(micros, DAY_MICROS as int);
    datedate::lemma_small_powers();
    numerals::padded_numbers_read_back(date.0, 4);
    numerals::padded_numbers_read_back(date.1, 2);
    numerals::padded_numbers_read_back(date.2, 2);
    numerals::padded_numbers_read_back(seconds / 3_600, 2);
    numerals::padded_numbers_read_back(seconds / 60 % 60, 2);
    numerals::padded_numbers_read_back(seconds % 60, 2);
    fractions_denote_themselves(within % 1_000_000);
    if p.fraction.len() > 0 {
        assert(p.fraction.skip(1).last() == p.fraction.last());
    }
    let zone = if zoned {
        "+00"@
    } else {
        Seq::empty()
    };
    assert(instant_text(micros, zoned) =~= p.year + "-"@ + p.month + "-"@ + p.day + " "@ + p.hour + ":"@ + p.minute + ":"@
        + p.second + p.fraction + zone);
    assert(within == seconds * 1_000_000 + within % 1_000_000);
    assert(seconds == seconds / 3_600 * 3_600 + seconds / 60 % 60 * 60 + seconds % 60);
}

/// The text of an instant reads back to that instant.
pub proof fn instants_read_back(micros: int, zoned: bool)
    ensures
        exists|p: Pieces, year: int| #[trigger] spells_instant(instant_text(micros, zoned), zoned, micros, p, year),
{
    lemma_pieces(micros, zoned);
}

/// A text is that of one instant at most.
pub proof fn spelled_instants_are_one(s: Seq<char>, zoned: bool, a: int, p: Pieces, y: int, b: int, q: Pieces, z: int)
    requires
        spells_instant(s, zoned, a, p, y),
        spells_instant(s, zoned, b, q, z),
    ensures
        a == b,
{
    reveal_strlit("-");
    reveal_strlit(" ");
    reveal_strlit(":");
    reveal_strlit("+00");
    lemma_blank(s, zoned, a, p, y);
    lemma_blank(s, zoned, b, q, z);
    let n = p.year.len() as int;
    let m = q.year.len() as int;
    if n < m {
        assert(s[n + 6] == ' ');
    }
    if m < n {
        assert(s[m + 6] == ' ');
    }
    let end = s.len() - (if zoned {
        3int
    } else {
        0
    });
    assert(p.year =~= s.take(n) && q.year =~= s.take(n));
    assert(p.month =~= s.subrange(n + 1, n + 3) && q.month =~= s.subrange(n + 1, n + 3));
    assert(p.day =~= s.subrange(n + 4, n + 6) && q.day =~= s.subrange(n + 4, n + 6));
    assert(p.hour =~= s.subrange(n + 7, n + 9) && q.hour =~= s.subrange(n + 7, n + 9));
    assert(p.minute =~= s.subrange(n + 10, n + 12) && q.minute =~= s.subrange(n + 10, n + 12));
    assert(p.second =~= s.subrange(n + 13, n + 15) && q.second =~= s.subrange(n + 13, n + 15));
    assert(p.fraction =~= s.subrange(n + 15, end) && q.fraction =~= s.subrange(n + 15, end));
    lemma_one_spelling(p.year, y, z);
}

proof fn lemma_one_spelling(s: Seq<char>, a: int, b: int)
    requires
        numerals::spells(s, a),
        numerals::spells(s, b),
    ensures
        a == b,
{
    if a < 0 && b >= 0 {
        assert(numerals::is_digit(s[0]));
    }
    if b < 0 && a >= 0 {
        assert(numerals::is_digit(s[0]));
    }
}

/// The first blank of a written instant stands behind the day.
proof fn lemma_blank(s: Seq<char>, zoned: bool, micros: int, p: Pieces, year: int)
    requires
        spells_instant(s, zoned, micros, p, year),
    ensures
        s.len() >= p.year.len() + 15,
        s[p.year.len() as int + 6] == ' ',
        forall|i: int| 0 <= i < p.year.len() + 6 ==> #[trigger] s[i] != ' ',
{
    reveal_strlit("-");
    reveal_strlit(" ");
    reveal_strlit(":");
    let n = p.year.len() as int;
    assert forall|i: int| 0 <= i < n implies #[trigger] p.year[i] != ' ' by {
        if year < 0 {
            if i > 0 {
                assert(numerals::is_digit(p.year.skip(1)[i - 1]));
            }
        } else {
            assert(numerals::is_digit(p.year[i]));
        }
    }
    assert(numerals::is_digit(p.month[0]) && numerals::is_digit(p.month[1]));
    assert(numerals::is_digit(p.day[0]) && numerals::is_digit(p.day[1]));
    assert forall|i: int| 0 <= i < n + 6 implies #[trigger] s[i] != ' ' by {
        if i < n {
            assert(s[i] == p.year[i]);
        } else if n < i < n + 3 {
            assert(s[i] == p.month[i - n - 1]);
        } else if n + 3 < i {
            assert(s[i] == p.day[i - n - 4]);
        }
    }
}

/// Two different instants are never written alike.
pub proof fn instants_are_told_apart(a: int, b: int, zoned: bool)
    requires
        instant_text(a, zoned) == instant_text(b, zoned),
    ensures
        a == b,
{
    lemma_pieces(a, zoned);
    lemma_pieces(b, zoned);
    spelled_instants_are_one(
        instant_text(a, zoned),
        zoned,
        a,
        pieces_of(a),
        datedate::civil(a / DAY_MICROS as int).0,
        b,
        pieces_of(b),
        datedate::civil(b / DAY_MICROS as int).0,
    );
}

/// A second is a thousand milliseconds, a millisecond a thousand microseconds and a microsecond a
/// thousand nanoseconds; a count of nanoseconds falls in the microsecond that it has begun.
pub proof fn units_agree(count: i64, micros: i64)
    ensures
        micros_of(Resolution::Microsecond, count) == Some(count),
        micros_of(Resolution::Millisecond, count) == Some(micros) <==> micros == 1_000 * count,
        micros_of(Resolution::Second, count) == Some(micros) <==> micros == 1_000_000 * count,
        micros_of(Resolution::Nanosecond, count) == Some(micros) <==> 1_000 * micros <= count < 1_000 * micros + 1_000,
        micros_of(Resolution::Millisecond, count) is None <==> !(i64::MIN <= 1_000 * count <= i64::MAX),
        micros_of(Resolution::Second, count) is None <==> !(i64::MIN <= 1_000_000 * count <= i64::MAX),
        micros_of(Resolution::Nanosecond, count) is Some,
{
}

/// How many tables bear a name: none, one alone, or several.
pub proof fn lemma_claims(tables: Seq<(Seq<char>, Seq<char>)>, bare: Seq<char>)
    ensures
        claims(tables, bare) == 0 <==> forall|i: int| 0 <= i < tables.len() ==> (#[trigger] tables[i]).1 != bare,
        claims(tables, bare) > 1 <==> exists|i: int, j: int|
            0 <= i < j < tables.len() && (#[trigger] tables[i]).1 == bare && (#[trigger] tables[j]).1 == bare,
    decreases tables.len(),
{
    if tables.len() > 0 {
        let before = tables.drop_last();
        let n = tables.len() - 1;
        lemma_claims(before, bare);
        assert(forall|i: int| 0 <= i < n ==> before[i] == #[trigger] tables[i]);
        if claims(tables, bare) > 1 {
            if claims(before, bare) > 1 {
                let (i, j) = choose|i: int, j: int|
                    0 <= i < j < before.len() && (#[trigger] before[i]).1 == bare && (#[trigger] before[j]).1 == bare;
                assert(tables[i].1 == bare && tables[j].1 == bare);
            } else {
                let i = choose|i: int| 0 <= i < before.len() && (#[trigger] before[i]).1 == bare;
                assert(tables[i].1 == bare && tables[n].1 == bare);
            }
        }
        if exists|i: int, j: int|
            0 <= i < j < tables.len() && (#[trigger] tables[i]).1 == bare && (#[trigger] tables[j]).1 == bare {
            let (i, j) = choose|i: int, j: int|
                0 <= i < j < tables.len() && (#[trigger] tables[i]).1 == bare && (#[trigger] tables[j]).1 == bare;
            assert(before[i].1 == bare);
            if j < n {
                assert(before[j].1 == bare);
            }
        }
        if claims(tables, bare) == 0 {
            assert forall|i: int| 0 <= i < tables.len() implies (#[trigger] tables[i]).1 != bare by {
                if i < n {
                    assert(before[i].1 != bare);
                }
            }
        }
    }
}

/// A table that may be read is reached by its schema and its name always, and by its name alone exactly
/// where no other table bears that name or it lives in the session's own schema; one that may not be read
/// is reached by neither.
pub proof fn readable_tables_are_reached(
    tables: Seq<(Seq<char>, Seq<char>)>,
    readable: bool,
    i: int,
    default_schema: Seq<char>,
)
    requires
        0 <= i < tables.len(),
    ensures
        ({
            let placed = placement(tables, readable, tables[i], default_schema);
            let at_home = tables[i].0.len() == 0 || tables[i].0 == default_schema;
            let alone = forall|j: int| 0 <= j < tables.len() && j != i ==> (#[trigger] tables[j]).1 != tables[i].1;
            &&& placed.qualified <==> readable && !at_home
            &&& placed.bare <==> readable && (at_home || alone)
        }),
{
    let bare = tables[i].1;
    lemma_claims(tables, bare);
    if claims(tables, bare) > 1 {
        let (a, b) = choose|a: int, b: int|
            0 <= a < b < tables.len() && (#[trigger] tables[a]).1 == bare && (#[trigger] tables[b]).1 == bare;
        assert(tables[a].1 == bare && tables[b].1 == bare);
    } else {
        assert forall|j: int| 0 <= j < tables.len() && j != i implies (#[trigger] tables[j]).1 != bare by {
            if tables[j].1 == bare {
                if i < j {
                    assert(tables[i].1 == bare && tables[j].1 == bare);
                } else {
                    assert(tables[j].1 == bare && tables[i].1 == bare);
                }
            }
        }
    }
}

/// The names a contested one could mean are the qualified names of the tables that bear it, in order.
pub proof fn claimants_bear_the_name(tables: Seq<(Seq<char>, Seq<char>)>, bare: Seq<char>)
    ensures
        lists::picked_from(
            tables,
            claimants(tables, bare),
            |t: (Seq<char>, Seq<char>), s: Seq<char>| t.1 == bare && s == t.0 + "."@ + t.1,
        ),
    decreases tables.len(),
{
    let p = |t: (Seq<char>, Seq<char>), s: Seq<char>| t.1 == bare && s == t.0 + "."@ + t.1;
    if tables.len() == 0 {
        lists::lemma_picked_none::<(Seq<char>, Seq<char>), Seq<char>>(p);
        assert(tables =~= Seq::empty());
    } else {
        claimants_bear_the_name(tables.drop_last(), bare);
        let earlier = claimants(tables.drop_last(), bare);
        if tables.last().1 == bare {
            lists::lemma_picked_one(tables, earlier, p, tables.last().0 + "."@ + bare);
        } else {
            lists::lemma_passed_over(tables, earlier, p);
        }
    }
}

/// As many tables are registered as may be read.
pub proof fn registered_are_the_readable(flags: Seq<bool>)
    ensures
        count_true(flags) == flags.filter(|f: bool| f).len(),
    decreases flags.len(),
{
    reveal(Seq::filter);
    if flags.len() > 0 {
        registered_are_the_readable(flags.drop_last());
    }
}

/// Text with no quotes stays as it is, and of a literal only its quotes stay: what stands around it is
/// kept, and a doubled quote does not end it.
pub proof fn only_literals_are_emptied(before: Seq<char>, inside: Seq<char>, after: Seq<char>)
    requires
        !before.contains('\''),
        !inside.contains('\''),
        after.len() > 0 ==> after[0] != '\'',
    ensures
        emptied(before) == before,
        emptied(before + seq!['\''] + inside + seq!['\''] + after) == before + "''"@ + emptied(after),
        emptied(before + seq!['\''] + inside + seq!['\'', '\''] + inside + seq!['\''] + after) == before + "''"@
            + emptied(after),
{
    let q = seq!['\''];
    assert forall|i: int| 0 <= i < before.len() implies before[i] != '\'' by {
        assert(before.contains(before[i]));
    }
    assert forall|i: int| 0 <= i < inside.len() implies inside[i] != '\'' by {
        assert(inside.contains(inside[i]));
    }
    lemma_before_literal(before, Seq::empty());
    assert(before + Seq::<char>::empty() =~= before);
    let one = q + inside + q + after;
    let two = q + inside + seq!['\'', '\''] + inside + q + after;
    lemma_before_literal(before, one);
    lemma_before_literal(before, two);
    assert(before + q + inside + q + after =~= before + one);
    assert(before + q + inside + seq!['\'', '\''] + inside + q + after =~= before + two);
    lemma_inside_literal(inside, q + after);
    assert(one.drop_first() =~= inside + (q + after));
    assert((q + after).drop_first() =~= after);
    let rest = seq!['\'', '\''] + inside + q + after;
    lemma_inside_literal(inside, rest);
    assert(two.drop_first() =~= inside + rest);
    assert(rest.skip(2) =~= inside + (q + after));
    assert(before + ("''"@ + emptied(after)) =~= before + "''"@ + emptied(after));
}

/// A statement that asks for a sample outside a literal is seen to, and one whose literal says so is not.
pub proof fn samples_are_seen_outside_literals(before: Seq<char>, after: Seq<char>)
    requires
        !before.contains('\''),
        !after.contains('\''),
        before.len() > 0 ==> before.last() == ' ',
        after.len() > 0 ==> after[0] == ' ',
    ensures
        asks_for_a_sample(before + "TABLESAMPLE"@ + after),
        asks_for_a_sample(before + seq!['\''] + "TABLESAMPLE"@ + seq!['\''] + after) ==> asks_for_a_sample(
            before + "''"@ + after,
        ),
{
    reveal_strlit("TABLESAMPLE");
    reveal_strlit("''");
    let word = "TABLESAMPLE"@;
    let s = before + word + after;
    let q = seq!['\''];
    assert(!s.contains('\'')) by {
        if s.contains('\'') {
            let i = choose|i: int| 0 <= i < s.len() && s[i] == '\'';
            if i < before.len() {
                assert(before[i] == '\'');
            } else if i >= before.len() + word.len() {
                assert(after[i - before.len() - word.len()] == '\'');
            }
        }
    }
    assert(!word.contains('\''));
    if after.len() > 0 {
        assert(after.contains(after[0]));
    }
    only_literals_are_emptied(s, Seq::empty(), Seq::empty());
    let at = before.len() as int;
    assert(s.subrange(at, at + word.len()) =~= word);
    assert(word_at(s, word, at));
    only_literals_are_emptied(before, word, after);
    only_literals_are_emptied(before, Seq::empty(), after);
    only_literals_are_emptied(after, Seq::empty(), Seq::empty());
    assert(before + q + Seq::<char>::empty() + q + after =~= before + "''"@ + after);
}

/// A statement may run for as many seconds as its setting spells, for half an hour where none is set, and
/// as good as forever where the setting is nought.
pub proof fn deadlines_are_what_is_set(seconds: nat)
    requires
        seconds <= u64::MAX,
    ensures
        seconds > 0 ==> deadline_seconds(Some(numerals::decimal(seconds))) == seconds,
        deadline_seconds(Some(numerals::decimal(0))) == 0xffff_ffff,
        deadline_seconds(None) == 30 * 60,
        deadline_seconds(Some(Seq::empty())) == 30 * 60,
{
    numerals::spelled_naturals_are_read(seconds, u64::MAX as int);
    numerals::spelled_naturals_are_read(0, u64::MAX as int);
    numerals::naturals_read_back(seconds);
    numerals::naturals_read_back(0);
    let d = numerals::decimal(seconds);
    let z = numerals::decimal(0);
    assert(numerals::is_digit(d[0]) && numerals::is_digit(d[d.len() - 1]));
    assert(numerals::is_digit(z[0]) && numerals::is_digit(z[z.len() - 1]));
    text::lemma_trimmed_already(d);
    text::lemma_trimmed_already(z);
    text::lemma_trimmed_already(Seq::empty());
}

/// The type a client is told of a column, by the numbers that clients know, is one that holds every value
/// of it, and its size is that of the type.
pub proof fn clients_know_the_types(kind: ColumnType)
    ensures
        kind is Boolean <==> client_type(kind) == (16i32, 1i16),
        kind is Int8 || kind is Int16 || kind is UInt8 <==> client_type(kind) == (21i32, 2i16),
        kind is Int32 || kind is UInt16 <==> client_type(kind) == (23i32, 4i16),
        kind is Int64 || kind is UInt32 || kind is UInt64 <==> client_type(kind) == (20i32, 8i16),
        kind is Float32 <==> client_type(kind) == (700i32, 4i16),
        kind is Float64 <==> client_type(kind) == (701i32, 8i16),
        kind is Decimal128 || kind is Decimal256 <==> client_type(kind) == (1700i32, -1i16),
        kind is Date32 || kind is Date64 <==> client_type(kind) == (1082i32, 4i16),
        kind is ZonedTimestamp <==> client_type(kind) == (1184i32, 8i16),
        kind is Timestamp <==> client_type(kind) == (1114i32, 8i16),
        kind is Binary || kind is LargeBinary <==> client_type(kind) == (17i32, -1i16),
        kind is Floats <==> client_type(kind) == (1022i32, -1i16),
        kind is Other <==> client_type(kind) == (25i32, -1i16),
{
}

/// The value of one hexadecimal digit in small letters.
pub open spec fn hex_value(c: char) -> int {
    if '0' <= c <= '9' {
        c as int - '0' as int
    } else if 'a' <= c <= 'f' {
        c as int - 'a' as int + 10
    } else {
        -1
    }
}

/// Bytes read back from their digits, two for each, the greater first.
pub proof fn bytes_read_back(bytes: Seq<u8>, i: int)
    requires
        0 <= i < bytes.len(),
    ensures
        hex_text(bytes).len() == 2 * bytes.len(),
        0 <= hex_value(hex_text(bytes)[2 * i]) < 16,
        0 <= hex_value(hex_text(bytes)[2 * i + 1]) < 16,
        16 * hex_value(hex_text(bytes)[2 * i]) + hex_value(hex_text(bytes)[2 * i + 1]) == bytes[i],
{
    assert((2 * i) / 2 == i && (2 * i) % 2 == 0 && (2 * i + 1) / 2 == i && (2 * i + 1) % 2 == 1);
}

/// A value reads back from what a client is sent: a truth from its letter, a number from its digits, text
/// from itself, an instant from its pieces, bytes from the digits behind the mark, and a list from what
/// stands between the commas.
pub proof fn values_read_back(value: Value)
    ensures
        match value {
            Value::Truth(b) => value_text(value) == if b {
                "t"@
            } else {
                "f"@
            },
            Value::Whole(n) => numerals::spells(value_text(value), n as int),
            Value::Natural(n) => numerals::spells(value_text(value), n as int),
            Value::Text(s) => value_text(value) == s@,
            Value::Timestamp { unit, count, zoned } => match micros_of(unit, count) {
                Some(micros) => exists|p: Pieces, year: int| #[trigger]
                    spells_instant(value_text(value), zoned, micros as int, p, year),
                None => value_text(value).len() == 0,
            },
            Value::Bytes(bytes) => value_text(value).take(2) == seq!['\\', 'x'] && value_text(value).skip(2) == hex_text(
                bytes@,
            ),
            Value::Numbers(elements) => {
                let s = value_text(value);
                &&& s.len() >= 2 && s[0] == '{' && s.last() == '}'
                &&& elements@.len() == 0 ==> s.len() == 2
                &&& elements@.len() > 0 && (forall|k: int|
                    0 <= k < elements@.len() && (#[trigger] elements@[k]) is Some ==> !elements@[k]->0@.contains(','))
                    ==> {
                    let parts = text::split_on(s.subrange(1, s.len() - 1), ',');
                    &&& parts.len() == elements@.len()
                    &&& forall|k: int|
                        0 <= k < parts.len() ==> #[trigger] parts[k] == (match elements@[k] {
                            Some(number) => number@,
                            None => "NULL"@,
                        })
                }
            },
        },
{
    match value {
        Value::Whole(n) => {
            numerals::numbers_read_back(n as int);
        },
        Value::Natural(n) => {
            numerals::naturals_read_back(n as nat);
        },
        Value::Timestamp { unit, count, zoned } => {
            if let Some(micros) = micros_of(unit, count) {
                instants_read_back(micros as int, zoned);
            }
        },
        Value::Bytes(bytes) => {
            reveal_strlit("\\x");
            assert(value_text(value).take(2) =~= seq!['\\', 'x']);
            assert(value_text(value).skip(2) =~= hex_text(bytes@));
        },
        Value::Numbers(elements) => {
            reveal_strlit("{");
            reveal_strlit("}");
            reveal_strlit(",");
            reveal_strlit("NULL");
            let s = value_text(value);
            let texts = element_texts(elements@);
            assert(","@ =~= seq![',']);
            assert(s.subrange(1, s.len() - 1) =~= text::joined(texts, ","@));
            if elements@.len() > 0 && (forall|k: int|
                0 <= k < elements@.len() && (#[trigger] elements@[k]) is Some ==> !elements@[k]->0@.contains(',')) {
                assert forall|k: int| 0 <= k < texts.len() implies !(#[trigger] texts[k]).contains(',') by {
                    assert(elements@[k] is Some || texts[k] == "NULL"@);
                }
                text::joined_parts_come_back(texts, ',');
            }
        },
        _ => {},
    }
}

/// An answer has a row for each row, a cell for each value, no cell for a null and only for a null, a
/// description for each column, and counts its rows.
pub proof fn answers_hold_every_row(columns: Seq<(String, ColumnType)>, rows: Seq<Vec<Option<Value>>>, i: int, k: int)
    requires
        0 <= i < rows.len(),
        0 <= k < rows[i]@.len(),
    ensures
        ({
            let answer = selected(columns, rows);
            &&& answer.rows.len() == rows.len()
            &&& answer.rows[i].len() == rows[i]@.len()
            &&& match rows[i]@[k] {
                Some(value) => answer.rows[i][k] == Some(value_text(value)),
                None => answer.rows[i][k] is None,
            }
            &&& answer.fields.len() == columns.len()
            &&& forall|c: int|
                0 <= c < columns.len() ==> (#[trigger] answer.fields[c]).0 == columns[c].0@ && (
                answer.fields[c].1,
                answer.fields[c].2,
                ) == client_type(columns[c].1)
            &&& answer.tag.take(7) == "SELECT "@ && numerals::spells(answer.tag.skip(7), rows.len() as int)
        }),
{
    let answer = selected(columns, rows);
    reveal_strlit("SELECT ");
    numerals::naturals_read_back(rows.len());
    assert(answer.tag.take(7) =~= "SELECT "@);
    assert(answer.tag.skip(7) =~= numerals::decimal(rows.len()));
}

/// What the caller can mend is theirs to mend, and nobody is woken for it; only a broken invariant is
/// reported as one. A state of its own goes before that of the class, and a message carries the code once.
pub proof fn failures_fall_where_they_belong(error: EngineError, entry: CatalogueEntry)
    ensures
        class_of(error) is InvalidQuery <==> error.kind is Syntax || error.kind is Plan || error.kind is Schema,
        class_of(error) is NotSupported <==> error.kind is NotImplemented,
        class_of(error) is AdmissionRejected <==> error.kind is ResourcesExhausted,
        class_of(error) is InvariantViolated <==> error.kind is Internal,
        class_of(error) is StorageUnavailable <==> error.kind is Storage,
        class_of(error) is ConfigInvalid <==> error.kind is Configuration,
        error.kind is Schema ==> state_of(error) == Some("42703"@),
        error.kind is NotImplemented ==> state_of(error) == Some("0A000"@),
        state_of(error) is Some ==> error.kind is Schema || error.kind is NotImplemented || error.kind is Computation
            || error.kind is Plan || error.kind is Execution,
        text::holds(failure_told(error, entry).message, "["@ + entry.code@ + "]"@),
        text::holds(failure_told(error, entry).message, error.said@),
        failure_told(error, entry).detail == Some(entry.remediation@),
        state_of(root_cause(error)) is None ==> failure_told(error, entry).sqlstate == entry.sqlstate@,
        state_of(root_cause(error)) matches Some(state) ==> failure_told(error, entry).sqlstate == state,
{
    let mark = "["@ + entry.code@ + "]"@;
    let said = error.said@;
    let whole = failure_told(error, entry).message;
    if text::holds(said, mark) {
        assert(said.subrange(0, said.len() as int) =~= said);
        assert(text::stands_at(whole, said, 0));
    } else {
        assert(whole.subrange(0, mark.len() as int) =~= mark);
        assert(text::stands_at(whole, mark, 0));
        let at = (mark + " "@).len() as int;
        assert(whole.subrange(at, at + said.len()) =~= said);
        assert(text::stands_at(whole, said, at));
    }
}

/// The state a message names is the client's for what it says: no such table, no such column, a division
/// by nought, or a cast that fails; and none where it says nothing of the kind.
pub proof fn messages_name_their_state(said: Seq<char>)
    ensures
        match state_of_message(said) {
            Some(state) => {
                ||| state == "42P01"@ && text::holds(said, "table"@) && text::holds(said, "not found"@)
                ||| state == "42703"@ && (text::holds(said, "no field named"@) || text::holds(said, "column"@)
                    && text::holds(said, "not found"@))
                ||| state == "22012"@ && text::holds(said, "divide by zero"@)
                ||| state == "22P02"@ && (text::holds(said, "cannot cast"@) || text::holds(said, "cast error"@))
            },
            None => !text::holds(said, "divide by zero"@) && !text::holds(said, "cannot cast"@) && !text::holds(
                said,
                "cast error"@,
            ) && !text::holds(said, "no field named"@) && !(text::holds(said, "not found"@) && (text::holds(
                said,
                "table"@,
            ) || text::holds(said, "column"@))),
        },
{
}

/// Statements that are not reads are called by what they are.
pub proof fn kinds_are_called_by_what_they_are(kind: PlanKind)
    ensures
        kind_called(kind) == "data definition"@ <==> kind is Definition,
        kind_called(kind) == "data modification"@ <==> kind is Modification,
        kind_called(kind) == "COPY"@ <==> kind is Copy,
        kind_called(kind).len() == 0 <==> kind is Read,
{
    reveal_strlit("data definition");
    reveal_strlit("data modification");
    reveal_strlit("COPY");
    assert("data definition"@.len() == 15 && "data modification"@.len() == 17 && "COPY"@.len() == 4);
}

/// Each way of refusing a statement has the state that clients know it by, and names no table.
pub proof fn refusals_have_their_states(kind: PlanKind, code: Seq<char>, seconds: int, total: int, most: int)
    ensures
        not_a_read(kind, code).sqlstate == "0A000"@,
        not_a_read(kind, code).detail is Some,
        not_sampled(code).sqlstate == "0A000"@,
        not_sampled(code).detail is Some,
        out_of_time(seconds).sqlstate == "57014"@,
        too_many_rows(total, most).sqlstate == "53400"@,
        not_a_read(kind, code).subjects.len() == 0 && not_sampled(code).subjects.len() == 0,
{
}

/// Columns are described one by one, by their own names and the types that clients know.
pub proof fn columns_are_described_in_order(columns: Seq<(String, ColumnType)>, i: int)
    requires
        0 <= i < columns.len(),
    ensures
        described(columns).len() == columns.len(),
        described(columns)[i].0 == columns[i].0@,
        described(columns)[i].1 == client_type(columns[i].1).0,
        described(columns)[i].2 == client_type(columns[i].1).1,
{
}

/// A time of day is written as its hours, minutes and seconds, in two digits each, and its fraction.
pub proof fn times_are_written_by_their_parts(hours: int, minutes: int, seconds: int, micros: int)
    requires
        0 <= hours < 24,
        0 <= minutes < 60,
        0 <= seconds < 60,
        0 <= micros < 1_000_000,
    ensures
        clock_text(((hours * 60 + minutes) * 60 + seconds) * 1_000_000 + micros) == numerals::padded(hours, 2) + ":"@
            + numerals::padded(minutes, 2) + ":"@ + numerals::padded(seconds, 2) + fraction_text(micros),
{
    let whole = (hours * 60 + minutes) * 60 + seconds;
    let all = whole * 1_000_000 + micros;
    assert(all / 1_000_000 == whole && all % 1_000_000 == micros);
    assert(whole / 3_600 == hours);
    assert(whole / 60 == hours * 60 + minutes);
    assert(whole / 60 % 60 == minutes);
    assert(whole % 60 == seconds);
}

/// The elements of a list are written one by one, and one that is missing as such.
pub proof fn elements_are_written_one_by_one(elements: Seq<Option<String>>, i: int)
    requires
        0 <= i < elements.len(),
    ensures
        element_texts(elements).len() == elements.len(),
        elements[i] is Some ==> element_texts(elements)[i] == (elements[i]->0)@,
        elements[i] is None ==> element_texts(elements)[i] == "NULL"@,
{
}

/// The values of a row are written one by one, and one that is missing is no text.
pub proof fn rows_are_written_one_by_one(values: Seq<Option<Value>>, i: int)
    requires
        0 <= i < values.len(),
    ensures
        row_texts(values).len() == values.len(),
        values[i] is Some ==> row_texts(values)[i] == Some(value_text(values[i]->0)),
        values[i] is None ==> row_texts(values)[i] is None,
{
}

/// Whether a character can be part of a word.
pub open spec fn is_part_of_word(c: char) -> bool {
    'a' <= c && c <= 'z' || 'A' <= c && c <= 'Z' || '0' <= c && c <= '9' || c == '_'
}

/// A word stands in a text where no letter, digit or underscore touches it.
pub proof fn words_stand_alone(before: Seq<char>, word: Seq<char>, behind: Seq<char>)
    requires
        before.len() > 0 ==> !is_part_of_word(before.last()),
        behind.len() > 0 ==> !is_part_of_word(behind[0]),
    ensures
        holds_word(before + word + behind, word),
{
    let s = before + word + behind;
    let at = before.len() as int;
    assert(s.subrange(at, at + word.len()) =~= word);
    assert(text::stands_at(s, word, at));
    if at > 0 {
        assert(s[at - 1] == before.last());
    }
    if behind.len() > 0 {
        assert(s[at + word.len()] == behind[0]);
    }
    assert(word_at(s, word, at));
}

/// A word that is part of a longer one is not there.
pub proof fn parts_of_words_are_not_words(s: Seq<char>, word: Seq<char>)
    requires
        0 < word.len() < s.len(),
        forall|i: int| 0 <= i < s.len() ==> is_part_of_word(#[trigger] s[i]),
    ensures
        !holds_word(s, word),
{
    if holds_word(s, word) {
        let at = choose|at: int| #[trigger] word_at(s, word, at);
        if at > 0 {
            assert(is_part_of_word(s[at - 1]));
        } else {
            assert(is_part_of_word(s[at + word.len()]));
        }
    }
}

/// What a failure says decides its state: a table that was not found first, then a column, then a division by
/// zero, then a value that cannot be cast; and nothing else has a state of its own.
pub proof fn what_is_said_decides_the_state(said: Seq<char>)
    ensures
        ({
            let missing = text::holds(said, "not found"@);
            let table = missing && text::holds(said, "table"@);
            let column = text::holds(said, "no field named"@) || missing && text::holds(said, "column"@);
            let division = text::holds(said, "divide by zero"@);
            let cast = text::holds(said, "cannot cast"@) || text::holds(said, "cast error"@);
            &&& table ==> state_of_message(said) == Some("42P01"@)
            &&& !table && column ==> state_of_message(said) == Some("42703"@)
            &&& !table && !column && division ==> state_of_message(said) == Some("22012"@)
            &&& !table && !column && !division && cast ==> state_of_message(said) == Some("22P02"@)
            &&& state_of_message(said) is None <==> !table && !column && !division && !cast
        }),
{
}

/// A computation that failed is a division by zero or a value that cannot be read, where it says so.
pub proof fn failed_computations_say_why(error: EngineError)
    ensures
        error.kind matches EngineErrorKind::Computation(said) ==> {
            let division = text::holds(said@, "Divide by zero"@);
            let unread = text::holds(said@, "Cast error"@) || text::holds(said@, "Parser error"@);
            &&& division ==> state_of(error) == Some("22012"@)
            &&& !division && unread ==> state_of(error) == Some("22P02"@)
            &&& state_of(error) is None <==> !division && !unread
        },
        error.kind matches EngineErrorKind::Plan(said) ==> state_of(error) == state_of_message(text::lowercase(said@)),
        error.kind matches EngineErrorKind::Execution(said) ==> state_of(error) == state_of_message(
            text::lowercase(said@),
        ),
{
}

/// A name is contested exactly where more than one table claims it, and then by each of those tables.
pub proof fn contested_names_have_several_claimants(
    contested: Map<Seq<char>, Vec<String>>,
    tables: Seq<(Seq<char>, Seq<char>)>,
    bare: Seq<char>,
)
    requires
        lists_contested(contested, tables),
    ensures
        contested.contains_key(bare) <==> claims(tables, bare) > 1,
        contested.contains_key(bare) ==> text::views(contested[bare]@) == claimants(tables, bare),
{
}

} // verus!
