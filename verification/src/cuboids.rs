//! Which stored aggregates may answer, which are built, and which are let go.
//!
//! A cuboid holds a cube's cells at some grain, so that a question at that grain or a coarser one
//! need not read the fact table. It may only ever change where a number is computed, never the
//! number: what cannot answer exactly is passed over, and the question goes to the fact table.

use vstd::arithmetic::power::*;
use crate::lists;
use crate::execute::TableName;
use crate::text::{self, chars_of, contains, find_from, same, split, split_once, text_between, to_lower_ascii, trim};
use crate::textmap::{self, in_order, TextMap};
use crate::warehouse::{self, Place};
use vstd::prelude::*;

verus! {

// --- what a statement asks ---------------------------------------------------------------------

/// Whether a statement asks for a cube at all.
pub fn mentions_a_cube_function(sql: &str) -> (r: bool)
    ensures
        r == (text::holds(sql@, "cube_rollup"@) || text::holds(sql@, "cube_slice"@)),
{
    contains(sql, "cube_rollup") || contains(sql, "cube_slice")
}

/// Whether a character ends an option.
pub open spec fn ends_option(c: char) -> bool {
    c == ',' || c == '\'' || c == '"' || c == ')'
}

/// How far an option reaches.
pub open spec fn option_end(s: Seq<char>) -> int
    decreases s.len(),
{
    if s.len() == 0 || ends_option(s[0]) {
        0
    } else {
        1 + option_end(s.skip(1))
    }
}

proof fn lemma_option_end(s: Seq<char>)
    ensures
        0 <= option_end(s) <= s.len(),
    decreases s.len(),
{
    if s.len() > 0 && !ends_option(s[0]) {
        lemma_option_end(s.skip(1));
    }
}

/// The dimension that one part of an option names: the part itself, or what stands before its
/// colon where the option restricts dimensions to members.
pub open spec fn dimension_in(part: Seq<char>, restricts: bool) -> Seq<char> {
    text::trimmed(
        if restricts {
            match text::split_at_first(part, ':') {
                Some((name, _)) => name,
                None => part,
            }
        } else {
            part
        },
    )
}

/// The dimensions that the parts of an option name.
pub open spec fn dimensions_in(parts: Seq<Seq<char>>, restricts: bool) -> Seq<Seq<char>>
    decreases parts.len(),
{
    if parts.len() == 0 {
        Seq::empty()
    } else {
        let before = dimensions_in(parts.drop_last(), restricts);
        let name = dimension_in(parts.last(), restricts);
        if name.len() == 0 {
            before
        } else {
            before.push(name)
        }
    }
}

/// The dimensions that every occurrence of an option in a statement names.
pub open spec fn named_by(s: Seq<char>, option: Seq<char>, restricts: bool) -> Seq<Seq<char>>
    decreases s.len(),
    via named_by_shrinks
{
    match text::first_from(s, option, 0) {
        None => Seq::empty(),
        Some(at) => if option.len() == 0 {
            Seq::empty()
        } else {
            let after = s.skip(at + option.len());
            let end = option_end(after);
            dimensions_in(text::split_on(after.take(end), '|'), restricts) + named_by(
                after.skip(end),
                option,
                restricts,
            )
        },
    }
}

#[via_fn]
proof fn named_by_shrinks(s: Seq<char>, option: Seq<char>, restricts: bool) {
    text::lemma_first_from(s, option, 0);
    if let Some(at) = text::first_from(s, option, 0) {
        lemma_option_end(s.skip(at + option.len()));
    }
}

fn is_option_end(c: char) -> (r: bool)
    ensures
        r == ends_option(c),
{
    c == ',' || c == '\'' || c == '"' || c == ')'
}

fn end_of_option(v: &Vec<char>, from: usize) -> (r: usize)
    requires
        from <= v@.len(),
    ensures
        from <= r <= v@.len(),
        r - from == option_end(v@.skip(from as int)),
{
    let mut i: usize = from;
    while i < v.len() && !is_option_end(v[i])
        invariant
            from <= i <= v@.len(),
            option_end(v@.skip(from as int)) == i - from + option_end(v@.skip(i as int)),
        decreases v@.len() - i,
    {
        assert(v@.skip(i as int).skip(1) =~= v@.skip(i + 1));
        i = i + 1;
    }
    i
}

fn gather_dimensions(parts: &Vec<String>, restricts: bool, wanted: &mut Vec<String>)
    ensures
        text::views(final(wanted)@) == text::views(old(wanted)@) + dimensions_in(text::views(parts@), restricts),
{
    let ghost all = text::views(parts@);
    let ghost was = text::views(wanted@);
    let mut i: usize = 0;
    assert(was + dimensions_in(all.take(0), restricts) =~= was);
    while i < parts.len()
        invariant
            i <= parts@.len(),
            all == text::views(parts@),
            text::views(wanted@) == was + dimensions_in(all.take(i as int), restricts),
        decreases parts@.len() - i,
    {
        assert(all.take(i + 1).drop_last() =~= all.take(i as int));
        let name = if restricts {
            match split_once(parts[i].as_str(), ':') {
                Some((name, _)) => trim(name.as_str()),
                None => trim(parts[i].as_str()),
            }
        } else {
            trim(parts[i].as_str())
        };
        assert(name@ == dimension_in(all[i as int], restricts));
        if !name.as_str().is_empty() {
            let ghost before = text::views(wanted@);
            let ghost added = name@;
            wanted.push(name);
            assert(text::views(wanted@) =~= before.push(added));
            assert(before.push(added) =~= was + dimensions_in(all.take(i + 1), restricts));
        }
        i = i + 1;
    }
    assert(all.take(all.len() as int) =~= all);
}

fn gather_named(v: &Vec<char>, option: &str, restricts: bool, wanted: &mut Vec<String>)
    requires
        option@.len() > 0,
    ensures
        text::views(final(wanted)@) == text::views(old(wanted)@) + named_by(v@, option@, restricts),
{
    let needle = chars_of(option);
    let ghost was = text::views(wanted@);
    let mut from: usize = 0;
    assert(v@.skip(0) =~= v@);
    loop
        invariant_except_break
            from <= v@.len(),
            needle@ == option@,
            option@.len() > 0,
            text::views(wanted@) + named_by(v@.skip(from as int), option@, restricts) == was + named_by(
                v@,
                option@,
                restricts,
            ),
        ensures
            text::views(wanted@) == was + named_by(v@, option@, restricts),
        decreases v@.len() - from,
    {
        let rest = text_between(v, from, v.len());
        let chars = chars_of(rest.as_str());
        let ghost s = v@.skip(from as int);
        assert(chars@ =~= s);
        proof {
            text::lemma_first_from(s, option@, 0);
        }
        match find_from(&chars, &needle, 0) {
            None => {
                assert(text::views(wanted@) + named_by(s, option@, restricts) =~= text::views(wanted@));
                break;
            },
            Some(at) => {
                let start: usize = at + needle.len();
                let end: usize = end_of_option(&chars, start);
                let inside = text_between(&chars, start, end);
                let ghost after = s.skip(at + option@.len());
                assert(inside@ =~= after.take(option_end(after)));
                let parts = split(inside.as_str(), '|');
                let ghost before = text::views(wanted@);
                gather_dimensions(&parts, restricts, wanted);
                assert(after.skip(option_end(after)) =~= v@.skip(from + end));
                proof {
                    let named = dimensions_in(text::split_on(after.take(option_end(after)), '|'), restricts);
                    let later = named_by(v@.skip(from + end), option@, restricts);
                    assert(named_by(s, option@, restricts) == named + later);
                    assert((before + named) + later =~= before + (named + later));
                }
                from = from + end;
            },
        }
    }
}

/// The finest grain a statement needs of a cube: every dimension it groups by, because the answer
/// names them, and every one it restricts, because the cells must have it to restrict it. Each
/// once, in order.
pub fn grain_needed(sql: &str) -> (r: Vec<String>)
    ensures
        textmap::in_order_of(
            text::views(r@),
            named_by(sql@, "by="@, false) + named_by(sql@, "where="@, true),
        ),
{
    let v = chars_of(sql);
    let mut wanted: Vec<String> = Vec::new();
    proof {
        reveal_strlit("by=");
        reveal_strlit("where=");
        assert(text::views(wanted@) =~= Seq::<Seq<char>>::empty());
    }
    gather_named(&v, "by=", false, &mut wanted);
    assert(text::views(wanted@) =~= named_by(sql@, "by="@, false));
    gather_named(&v, "where=", true, &mut wanted);
    in_order(&wanted)
}

/// What a statement asks of materialisation: less than is configured, or just that. Nothing asks
/// for more.
#[derive(Clone, Copy, PartialEq, Eq, Debug, Structural)]
pub enum Session {
    /// What is configured.
    AsConfigured,
    /// Only what the definition of the cube pins.
    PinnedOnly,
    /// Nothing: the answer is computed from the base data.
    Off,
}

/// A text without its blanks.
pub open spec fn without_blanks(s: Seq<char>) -> Seq<char> {
    s.filter(|c: char| c != ' ')
}

/// What a statement asks of materialisation. What is not recognised asks for nothing: refusing a
/// statement over a hint would turn a performance control into an outage.
pub open spec fn session_asked(sql: Seq<char>) -> Session {
    let written = without_blanks(text::lower_ascii(sql));
    if text::holds(written, "materialise=false"@) {
        Session::Off
    } else if text::holds(written, "materialise=pinned"@) {
        Session::PinnedOnly
    } else {
        Session::AsConfigured
    }
}

fn drop_blanks(s: &str) -> (r: String)
    ensures
        r@ == without_blanks(s@),
{
    let v = chars_of(s);
    let mut r = String::new();
    let mut i: usize = 0;
    assert(v@.take(0).filter(|c: char| c != ' ') =~= Seq::empty()) by {
        reveal(Seq::filter);
    }
    while i < v.len()
        invariant
            i <= v@.len(),
            r@ == v@.take(i as int).filter(|c: char| c != ' '),
        decreases v@.len() - i,
    {
        assert(v@.take(i + 1).drop_last() =~= v@.take(i as int));
        proof {
            reveal(Seq::filter);
        }
        if v[i] != ' ' {
            r.push(v[i]);
        }
        i = i + 1;
    }
    assert(v@.take(v@.len() as int) =~= v@);
    r
}

/// What a statement asks of materialisation.
pub fn asked_of_materialisation(sql: &str) -> (r: Session)
    ensures
        r == session_asked(sql@),
{
    let written = drop_blanks(to_lower_ascii(sql).as_str());
    if contains(written.as_str(), "materialise=false") {
        Session::Off
    } else if contains(written.as_str(), "materialise=pinned") {
        Session::PinnedOnly
    } else {
        Session::AsConfigured
    }
}

// --- what a cuboid costs -----------------------------------------------------------------------

/// Distinct members assumed of a dimension, for want of a measurement.
pub const ASSUMED_MEMBERS: u64 = 100;

/// The rows a cuboid of this many dimensions is taken to hold, as far as they can be counted.
pub open spec fn rows_of_width(width: nat) -> int {
    let rows = vstd::arithmetic::power::pow(100, width);
    if rows > u64::MAX {
        u64::MAX as int
    } else {
        rows
    }
}

/// What a cuboid costs, where nothing better is known: an estimate that ranks cuboids by width.
pub struct EstimatedCost;

impl EstimatedCost {
    /// The rows a cuboid of this many dimensions is taken to hold.
    pub fn rows(&self, width: usize) -> (r: u64)
        ensures
            r == rows_of_width(width as nat),
    {
        let mut rows: u64 = 1;
        let mut i: usize = 0;
        proof {
            vstd::arithmetic::power::lemma_pow0(100);
        }
        while i < width
            invariant
                i <= width,
                rows == vstd::arithmetic::power::pow(100, i as nat),
            decreases width - i,
        {
            proof {
                reveal(vstd::arithmetic::power::pow);
            }
            match rows.checked_mul(ASSUMED_MEMBERS) {
                Some(more) => {
                    rows = more;
                },
                None => {
                    proof {
                        vstd::arithmetic::power::lemma_pow_increases(100, (i + 1) as nat, width as nat);
                    }
                    return u64::MAX;
                },
            }
            i = i + 1;
        }
        rows
    }
}

/// To drop a dimension makes a cuboid cheaper, as far as its rows can be counted at all: that is
/// what makes a coarser cuboid worth holding.
pub proof fn narrower_is_cheaper(narrow: nat, wide: nat)
    requires
        narrow < wide,
    ensures
        rows_of_width(narrow) <= rows_of_width(wide),
        rows_of_width(narrow) < u64::MAX ==> rows_of_width(narrow) < rows_of_width(wide),
{
    vstd::arithmetic::power::lemma_pow_strictly_increases(100, narrow, wide);
}

// --- snapshots and scopes ----------------------------------------------------------------------

/// The greatest of some versions, and zero where there is none.
pub open spec fn newest(versions: Seq<Option<u64>>) -> int
    decreases versions.len(),
{
    if versions.len() == 0 {
        0
    } else {
        let before = newest(versions.drop_last());
        match versions.last() {
            Some(version) if version > before => version as int,
            _ => before,
        }
    }
}

/// The newest version that any table stands at: what was planned against is not older.
pub fn newest_snapshot(versions: &Vec<Option<u64>>) -> (r: u64)
    ensures
        r == newest(versions@),
{
    let mut r: u64 = 0;
    let mut i: usize = 0;
    while i < versions.len()
        invariant
            i <= versions@.len(),
            r == newest(versions@.take(i as int)),
        decreases versions@.len() - i,
    {
        assert(versions@.take(i + 1).drop_last() =~= versions@.take(i as int));
        if let Some(version) = versions[i] {
            if version > r {
                r = version;
            }
        }
        i = i + 1;
    }
    assert(versions@.take(versions@.len() as int) =~= versions@);
    r
}

/// The version that the first table of a bare name stands at, where it stands at one.
pub open spec fn version_of(tables: Seq<(TableName, Option<u64>)>, table: Seq<char>) -> Option<u64>
    decreases tables.len(),
{
    if tables.len() == 0 {
        None
    } else if tables[0].0.table@ == table {
        tables[0].1
    } else {
        version_of(tables.skip(1), table)
    }
}

/// The version that a table stands at, and zero where it cannot be told. Zero rather than the
/// greatest: a log that cannot be read must not look like a snapshot that will never move.
pub fn snapshot_of(tables: &Vec<(TableName, Option<u64>)>, table: &str) -> (r: u64)
    ensures
        r == (match version_of(tables@, table@) {
            Some(version) => version,
            None => 0,
        }),
{
    let mut i: usize = 0;
    assert(tables@.skip(0) =~= tables@);
    while i < tables.len()
        invariant
            i <= tables@.len(),
            version_of(tables@, table@) == version_of(tables@.skip(i as int), table@),
        decreases tables@.len() - i,
    {
        assert(tables@.skip(i as int).skip(1) =~= tables@.skip(i + 1));
        if same(tables[i].0.table.as_str(), table) {
            return match tables[i].1 {
                Some(version) => version,
                None => 0,
            };
        }
        i = i + 1;
    }
    0
}

/// The version that each of some tables stands at.
pub open spec fn versions_of(tables: Seq<(TableName, Option<u64>)>, names: Seq<Seq<char>>) -> Seq<Option<u64>> {
    names.map_values(|name: Seq<char>| version_of(tables, name))
}

/// The newest version among the tables a cube reads: a cube over a join is stale the moment any of
/// its inputs moves.
pub fn snapshot_across(tables: &Vec<(TableName, Option<u64>)>, reads: &Vec<String>) -> (r: u64)
    ensures
        r == newest(versions_of(tables@, text::views(reads@))),
{
    let ghost all = versions_of(tables@, text::views(reads@));
    let mut r: u64 = 0;
    let mut i: usize = 0;
    while i < reads.len()
        invariant
            i <= reads@.len(),
            all == versions_of(tables@, text::views(reads@)),
            r == newest(all.take(i as int)),
        decreases reads@.len() - i,
    {
        assert(all.take(i + 1).drop_last() =~= all.take(i as int));
        let version = snapshot_of(tables, reads[i].as_str());
        if version > r {
            r = version;
        }
        i = i + 1;
    }
    assert(all.take(all.len() as int) =~= all);
    r
}

/// A commit to any table a cube reads is a new snapshot of the cube, once the table stands at a
/// version above all others it reads.
pub proof fn a_newer_version_is_a_newer_snapshot(versions: Seq<Option<u64>>, i: int, version: u64)
    requires
        0 <= i < versions.len(),
        version > newest(versions),
    ensures
        newest(versions.update(i, Some(version))) == version,
    decreases versions.len(),
{
    let moved = versions.update(i, Some(version));
    if i == versions.len() - 1 {
        assert(moved.drop_last() =~= versions.drop_last());
    } else {
        a_newer_version_is_a_newer_snapshot(versions.drop_last(), i, version);
        assert(moved.drop_last() =~= versions.drop_last().update(i, Some(version)));
    }
}

/// What scopes are folded by.
pub const SCOPE_SEED: u64 = 0xcbf2_9ce4_8422_2325;

/// What scopes are folded with.
pub const SCOPE_PRIME: u64 = 0x0000_0100_0000_01b3;

/// Scopes as one value.
pub open spec fn folded(scopes: Seq<u64>) -> u64
    decreases scopes.len(),
{
    if scopes.len() == 0 {
        SCOPE_SEED
    } else {
        (folded(scopes.drop_last()) ^ scopes.last()).wrapping_mul(SCOPE_PRIME)
    }
}

/// The scopes that are there, in front of the first that is not.
pub open spec fn all_scopes(scopes: Seq<Option<u64>>) -> Option<Seq<u64>>
    decreases scopes.len(),
{
    if scopes.len() == 0 {
        Some(Seq::empty())
    } else {
        match (all_scopes(scopes.drop_last()), scopes.last()) {
            (Some(before), Some(scope)) => Some(before.push(scope)),
            _ => None,
        }
    }
}

proof fn lemma_no_scope(scopes: Seq<Option<u64>>, i: int)
    requires
        0 <= i < scopes.len(),
        scopes[i] is None,
    ensures
        all_scopes(scopes) is None,
    decreases scopes.len(),
{
    if i < scopes.len() - 1 {
        lemma_no_scope(scopes.drop_last(), i);
    }
}

/// What a caller may see of every table a cube reads, as one value, and nothing where there is a
/// table they may not read: a cube over a join is a cube over both sides.
pub fn scope_across(scopes: &Vec<Option<u64>>) -> (r: Option<u64>)
    ensures
        r == (match all_scopes(scopes@) {
            Some(list) => Some(folded(list)),
            None => None,
        }),
        r is None <==> exists|i: int| 0 <= i < scopes@.len() && #[trigger] scopes@[i] is None,
{
    let mut value: u64 = SCOPE_SEED;
    let mut i: usize = 0;
    while i < scopes.len()
        invariant
            i <= scopes@.len(),
            all_scopes(scopes@.take(i as int)) is Some,
            value == folded(all_scopes(scopes@.take(i as int))->Some_0),
            forall|k: int| 0 <= k < i ==> #[trigger] scopes@[k] is Some,
        decreases scopes@.len() - i,
    {
        let ghost before = all_scopes(scopes@.take(i as int))->Some_0;
        assert(scopes@.take(i + 1).drop_last() =~= scopes@.take(i as int));
        match scopes[i] {
            Some(scope) => {
                value = (value ^ scope).wrapping_mul(SCOPE_PRIME);
                assert(before.push(scope).drop_last() =~= before);
            },
            None => {
                proof {
                    lemma_no_scope(scopes@, i as int);
                }
                return None;
            },
        }
        i = i + 1;
    }
    assert(scopes@.take(scopes@.len() as int) =~= scopes@);
    Some(value)
}

proof fn lemma_multiplied_apart(a: u64, b: u64)
    requires
        a != b,
    ensures
        a.wrapping_mul(SCOPE_PRIME) != b.wrapping_mul(SCOPE_PRIME),
{
    lemma_undone(a);
    lemma_undone(b);
}

/// To multiply by the prime can be undone by multiplying with its inverse.
proof fn lemma_undone(a: u64)
    ensures
        (a.wrapping_mul(SCOPE_PRIME) as int * 14886173955864302971) % 0x1_0000_0000_0000_0000 == a,
{
    let m: int = 0x1_0000_0000_0000_0000;
    let p: int = SCOPE_PRIME as int;
    let q: int = 14886173955864302971;
    assert(a.wrapping_mul(SCOPE_PRIME) as int == (a as int * p) % m);
    vstd::arithmetic::div_mod::lemma_mul_mod_noop_left(a as int * p, q, m);
    vstd::arithmetic::mul::lemma_mul_is_associative(a as int, p, q);
    assert(p * q == 887285111055 * m + 1);
    assert(a as int * (887285111055 * m + 1) == m * (a as int * 887285111055) + a as int) by (nonlinear_arith);
    vstd::arithmetic::div_mod::lemma_mod_multiples_vanish(a as int * 887285111055, a as int, m);
    vstd::arithmetic::div_mod::lemma_small_mod(a as nat, m as nat);
}

/// Callers who see the same of all tables but one, and of that one something else, are told apart:
/// cells kept for one are never found for the other.
pub proof fn one_scope_apart_is_another_key(a: Seq<u64>, b: Seq<u64>, i: int)
    requires
        a.len() == b.len(),
        0 <= i < a.len(),
        a[i] != b[i],
        forall|k: int| 0 <= k < a.len() && k != i ==> #[trigger] a[k] == b[k],
    ensures
        folded(a) != folded(b),
    decreases a.len(),
{
    let before = folded(a.drop_last());
    let other = folded(b.drop_last());
    let x = a.last();
    let y = b.last();
    if i == a.len() - 1 {
        assert(a.drop_last() =~= b.drop_last());
        assert(x != y ==> before ^ x != before ^ y) by (bit_vector);
    } else {
        assert forall|k: int| 0 <= k < a.drop_last().len() && k != i implies #[trigger] a.drop_last()[k]
            == b.drop_last()[k] by {
            assert(a[k] == b[k]);
        }
        one_scope_apart_is_another_key(a.drop_last(), b.drop_last(), i);
        assert(a[a.len() - 1] == b[a.len() - 1]);
        assert(before != other ==> before ^ x != other ^ x) by (bit_vector);
    }
    lemma_multiplied_apart(before ^ x, other ^ y);
}

// --- shapes ------------------------------------------------------------------------------------

/// What shapes name: each the dimensions of one cuboid.
pub open spec fn shapes(list: Seq<Vec<String>>) -> Seq<Seq<Seq<char>>> {
    list.map_values(|shape: Vec<String>| text::views(shape@))
}

/// The dimensions that are rolled away to reach a grain: those that it does not keep.
pub open spec fn rolled_away(dimensions: Seq<Seq<char>>, keep: Seq<Seq<char>>) -> Seq<Seq<char>>
    decreases dimensions.len(),
{
    if dimensions.len() == 0 {
        Seq::empty()
    } else {
        let before = rolled_away(dimensions.drop_last(), keep);
        if keep.contains(dimensions.last()) {
            before
        } else {
            before.push(dimensions.last())
        }
    }
}

fn is_named(list: &Vec<String>, name: &str) -> (r: bool)
    ensures
        r == text::views(list@).contains(name@),
{
    let mut i: usize = 0;
    while i < list.len()
        invariant
            i <= list@.len(),
            forall|k: int| 0 <= k < i ==> (#[trigger] list@[k])@ != name@,
        decreases list@.len() - i,
    {
        if same(list[i].as_str(), name) {
            assert(text::views(list@)[i as int] == name@);
            return true;
        }
        i = i + 1;
    }
    assert forall|k: int| 0 <= k < text::views(list@).len() implies text::views(list@)[k] != name@ by {
        assert(list@[k]@ != name@);
    }
    false
}

/// The dimensions that cells are rolled up along, one by one, to reach the grain of a cuboid. Where
/// one cannot be rolled away the cuboid must not be stored at all.
pub fn roll_to(dimensions: &Vec<String>, keep: &Vec<String>) -> (r: Vec<String>)
    ensures
        text::views(r@) == rolled_away(text::views(dimensions@), text::views(keep@)),
{
    let ghost all = text::views(dimensions@);
    let mut r: Vec<String> = Vec::new();
    let mut i: usize = 0;
    assert(text::views(r@) =~= Seq::empty());
    while i < dimensions.len()
        invariant
            i <= dimensions@.len(),
            all == text::views(dimensions@),
            text::views(r@) == rolled_away(all.take(i as int), text::views(keep@)),
        decreases dimensions@.len() - i,
    {
        assert(all.take(i + 1).drop_last() =~= all.take(i as int));
        if !is_named(keep, dimensions[i].as_str()) {
            let ghost was = r@;
            r.push(dimensions[i].clone());
            assert(text::views(r@) =~= text::views(was).push(all[i as int]));
        }
        i = i + 1;
    }
    assert(all.take(all.len() as int) =~= all);
    r
}

/// A stored cuboid's grain is exactly that of its name: whatever is not rolled away is kept.
pub proof fn the_grain_is_what_the_name_says(dimensions: Seq<Seq<char>>, keep: Seq<Seq<char>>, name: Seq<char>)
    requires
        dimensions.contains(name),
    ensures
        rolled_away(dimensions, keep).contains(name) <==> !keep.contains(name),
    decreases dimensions.len(),
{
    let k = choose|k: int| 0 <= k < dimensions.len() && dimensions[k] == name;
    let front = dimensions.drop_last();
    if k < front.len() {
        assert(front[k] == name);
        the_grain_is_what_the_name_says(front, keep, name);
        let before = rolled_away(front, keep);
        if before.contains(name) {
            let m = choose|m: int| 0 <= m < before.len() && before[m] == name;
            assert(before.push(dimensions.last())[m] == name);
        }
    } else {
        let before = rolled_away(front, keep);
        if !keep.contains(name) {
            assert(before.push(name)[before.len() as int] == name);
        } else {
            lemma_only_others_rolled(front, keep, name);
        }
    }
}

proof fn lemma_only_others_rolled(dimensions: Seq<Seq<char>>, keep: Seq<Seq<char>>, name: Seq<char>)
    requires
        keep.contains(name),
    ensures
        !rolled_away(dimensions, keep).contains(name),
    decreases dimensions.len(),
{
    if dimensions.len() > 0 {
        lemma_only_others_rolled(dimensions.drop_last(), keep, name);
    }
}

/// The shapes to hold, each once: the base, then what is pinned, then what was selected.
pub open spec fn with_shapes(held: Seq<Seq<Seq<char>>>, more: Seq<Seq<Seq<char>>>) -> Seq<Seq<Seq<char>>>
    decreases more.len(),
{
    if more.len() == 0 {
        held
    } else {
        let before = with_shapes(held, more.drop_last());
        if before.contains(more.last()) {
            before
        } else {
            before.push(more.last())
        }
    }
}

fn is_held(list: &Vec<Vec<String>>, shape: &Vec<String>) -> (r: bool)
    ensures
        r == shapes(list@).contains(text::views(shape@)),
{
    let mut i: usize = 0;
    while i < list.len()
        invariant
            i <= list@.len(),
            forall|k: int| 0 <= k < i ==> text::views((#[trigger] list@[k])@) != text::views(shape@),
        decreases list@.len() - i,
    {
        if text::same_list(&list[i], shape) {
            assert(shapes(list@)[i as int] == text::views(shape@));
            return true;
        }
        i = i + 1;
    }
    assert forall|k: int| 0 <= k < shapes(list@).len() implies shapes(list@)[k] != text::views(shape@) by {
        assert(text::views(list@[k]@) != text::views(shape@));
    }
    false
}

fn hold_shapes(held: &mut Vec<Vec<String>>, more: &Vec<Vec<String>>)
    ensures
        shapes(final(held)@) == with_shapes(shapes(old(held)@), shapes(more@)),
{
    let ghost was = shapes(held@);
    let ghost all = shapes(more@);
    let mut i: usize = 0;
    while i < more.len()
        invariant
            i <= more@.len(),
            all == shapes(more@),
            shapes(held@) == with_shapes(was, all.take(i as int)),
        decreases more@.len() - i,
    {
        assert(all.take(i + 1).drop_last() =~= all.take(i as int));
        if !is_held(held, &more[i]) {
            let ghost before = held@;
            let copy = text::copy_list(&more[i]);
            let ghost added = text::views(copy@);
            held.push(copy);
            assert(shapes(held@) =~= shapes(before).push(added));
        }
        i = i + 1;
    }
    assert(all.take(all.len() as int) =~= all);
}

/// The shapes to hold of a cube, each once: its base, everything its definition pins, and whatever
/// was selected by the questions that were asked.
pub fn wanted_shapes(base: &Vec<String>, pinned: &Vec<Vec<String>>, selected: &Vec<Vec<String>>) -> (r: Vec<
    Vec<String>,
>)
    ensures
        shapes(r@) == with_shapes(with_shapes(seq![text::views(base@)], shapes(pinned@)), shapes(selected@)),
{
    let mut r: Vec<Vec<String>> = Vec::new();
    r.push(text::copy_list(base));
    assert(shapes(r@) =~= seq![text::views(base@)]);
    hold_shapes(&mut r, pinned);
    hold_shapes(&mut r, selected);
    r
}

proof fn lemma_shapes_kept(held: Seq<Seq<Seq<char>>>, more: Seq<Seq<Seq<char>>>, shape: Seq<Seq<char>>)
    requires
        held.contains(shape) || more.contains(shape),
    ensures
        with_shapes(held, more).contains(shape),
    decreases more.len(),
{
    if more.len() > 0 {
        let before = with_shapes(held, more.drop_last());
        if held.contains(shape) || more.drop_last().contains(shape) {
            lemma_shapes_kept(held, more.drop_last(), shape);
            let k = choose|k: int| 0 <= k < before.len() && before[k] == shape;
            assert(before.push(more.last())[k] == shape);
        } else {
            let k = choose|k: int| 0 <= k < more.len() && more[k] == shape;
            if k < more.len() - 1 {
                assert(more.drop_last()[k] == shape);
            }
            assert(before.push(more.last())[before.len() as int] == more.last());
        }
    }
}

/// What is pinned is held, whatever was selected: a pin says that a shape is worth holding before
/// there is any evidence.
pub proof fn pinned_shapes_are_held(
    base: Seq<Seq<char>>,
    pinned: Seq<Seq<Seq<char>>>,
    selected: Seq<Seq<Seq<char>>>,
    shape: Seq<Seq<char>>,
)
    requires
        pinned.contains(shape),
    ensures
        with_shapes(with_shapes(seq![base], pinned), selected).contains(shape),
{
    lemma_shapes_kept(seq![base], pinned, shape);
    lemma_shapes_kept(with_shapes(seq![base], pinned), selected, shape);
}

// --- answering ---------------------------------------------------------------------------------

/// The scope of cells over every row.
pub const UNRESTRICTED: u64 = 0;

/// What makes cells an answer: whose, of what, as of when.
#[derive(PartialEq, Eq, Debug)]
pub struct Key {
    /// The cube.
    pub cube: String,
    /// The measure.
    pub measure: String,
    /// The version of the cube's definition.
    pub definition_version: u64,
    /// The version of the tables it was read at.
    pub snapshot: u64,
    /// What the caller may see.
    pub scope: u64,
    /// The position the session reads from.
    pub pin: u64,
}

/// What makes cells an answer, as text.
#[verifier::ext_equal]
pub struct KeyView {
    /// The cube.
    pub cube: Seq<char>,
    /// The measure.
    pub measure: Seq<char>,
    /// The version of the cube's definition.
    pub definition_version: u64,
    /// The version of the tables it was read at.
    pub snapshot: u64,
    /// What the caller may see.
    pub scope: u64,
    /// The position the session reads from.
    pub pin: u64,
}

impl View for Key {
    type V = KeyView;

    open spec fn view(&self) -> KeyView {
        KeyView {
            cube: self.cube@,
            measure: self.measure@,
            definition_version: self.definition_version,
            snapshot: self.snapshot,
            scope: self.scope,
            pin: self.pin,
        }
    }
}

/// A cube as a caller finds it.
pub struct CubeRead {
    /// Its name.
    pub name: String,
    /// The version of its definition.
    pub version: u64,
    /// Its measures.
    pub measures: Vec<String>,
    /// The version of the tables it reads.
    pub snapshot: u64,
    /// What the caller may see of them, where they may read all of them.
    pub scope: Option<u64>,
    /// Whether nothing is withheld from the caller of any of them.
    pub unrestricted: bool,
}

/// Cells that a statement wants: what makes them an answer, and the scopes a stored cuboid may be
/// looked for under, in order.
#[derive(PartialEq, Eq, Debug)]
pub struct WantedCells {
    /// What makes them an answer.
    pub key: Key,
    /// The scopes a stored cuboid may be looked for under.
    pub scopes: Vec<u64>,
}

impl View for WantedCells {
    type V = (KeyView, Seq<u64>);

    open spec fn view(&self) -> (KeyView, Seq<u64>) {
        (self.key@, self.scopes@)
    }
}

/// The scopes a stored cuboid may be looked for under: the caller's own, then that of every row,
/// but only for a caller from whom nothing is withheld.
pub open spec fn scopes_to_try(scope: u64, unrestricted: bool) -> Seq<u64> {
    if unrestricted {
        seq![scope, UNRESTRICTED]
    } else {
        seq![scope]
    }
}

/// The cells of each measure of a cube.
pub open spec fn cells_of_cube(cube: CubeRead, scope: u64, pin: u64) -> Seq<(KeyView, Seq<u64>)> {
    text::views(cube.measures@).map_values(
        |measure: Seq<char>|
            (
                KeyView {
                    cube: cube.name@,
                    measure,
                    definition_version: cube.version,
                    snapshot: cube.snapshot,
                    scope,
                    pin,
                },
                scopes_to_try(scope, cube.unrestricted),
            ),
    )
}

/// Whether a statement wants the cells of a cube: it navigates, it names the cube, and the caller
/// may read every table of it.
pub open spec fn wants(sql: Seq<char>, cube: CubeRead) -> bool {
    &&& text::holds(sql, "cube_rollup"@) || text::holds(sql, "cube_slice"@)
    &&& text::holds(sql, cube.name@)
    &&& cube.scope is Some
}

/// The cells that a statement wants, cube by cube.
pub open spec fn cells_wanted(sql: Seq<char>, cubes: Seq<CubeRead>, pin: u64) -> Seq<(KeyView, Seq<u64>)>
    decreases cubes.len(),
{
    if cubes.len() == 0 {
        Seq::empty()
    } else {
        let before = cells_wanted(sql, cubes.drop_last(), pin);
        let cube = cubes.last();
        if wants(sql, cube) {
            before + cells_of_cube(cube, cube.scope->Some_0, pin)
        } else {
            before
        }
    }
}

fn want_cube(cube: &CubeRead, scope: u64, pin: u64, wanted: &mut Vec<WantedCells>)
    ensures
        final(wanted)@.map_values(|w: WantedCells| w@) == old(wanted)@.map_values(|w: WantedCells| w@)
            + cells_of_cube(*cube, scope, pin),
{
    let ghost was = wanted@.map_values(|w: WantedCells| w@);
    let ghost cells = cells_of_cube(*cube, scope, pin);
    let mut i: usize = 0;
    assert(was + cells.take(0) =~= was);
    while i < cube.measures.len()
        invariant
            i <= cube.measures@.len(),
            cells == cells_of_cube(*cube, scope, pin),
            wanted@.map_values(|w: WantedCells| w@) == was + cells.take(i as int),
        decreases cube.measures@.len() - i,
    {
        let mut scopes: Vec<u64> = Vec::new();
        scopes.push(scope);
        if cube.unrestricted {
            scopes.push(UNRESTRICTED);
        }
        assert(scopes@ =~= scopes_to_try(scope, cube.unrestricted));
        let cell = WantedCells {
            key: Key {
                cube: cube.name.clone(),
                measure: cube.measures[i].clone(),
                definition_version: cube.version,
                snapshot: cube.snapshot,
                scope,
                pin,
            },
            scopes,
        };
        assert(cell@ == cells[i as int]);
        let ghost before = wanted@;
        let ghost added = cell@;
        wanted.push(cell);
        assert(wanted@.map_values(|w: WantedCells| w@) =~= before.map_values(|w: WantedCells| w@).push(added));
        assert(was + cells.take(i + 1) =~= (was + cells.take(i as int)).push(added));
        i = i + 1;
    }
    assert(cells.take(cells.len() as int) =~= cells);
}

/// The cells that a statement wants of the cubes a server holds. Every cube is declared to the
/// session, wanted or not; only these are filled.
pub fn register_cubes(sql: &str, cubes: &Vec<CubeRead>, pin: u64) -> (r: Vec<WantedCells>)
    ensures
        r@.map_values(|w: WantedCells| w@) == cells_wanted(sql@, cubes@, pin),
{
    let navigating = mentions_a_cube_function(sql);
    let mut r: Vec<WantedCells> = Vec::new();
    let mut i: usize = 0;
    assert(r@.map_values(|w: WantedCells| w@) =~= Seq::empty());
    while i < cubes.len()
        invariant
            i <= cubes@.len(),
            navigating == (text::holds(sql@, "cube_rollup"@) || text::holds(sql@, "cube_slice"@)),
            r@.map_values(|w: WantedCells| w@) == cells_wanted(sql@, cubes@.take(i as int), pin),
        decreases cubes@.len() - i,
    {
        assert(cubes@.take(i + 1).drop_last() =~= cubes@.take(i as int));
        if navigating && contains(sql, cubes[i].name.as_str()) {
            if let Some(scope) = cubes[i].scope {
                want_cube(&cubes[i], scope, pin, &mut r);
            }
        }
        i = i + 1;
    }
    assert(cubes@.take(cubes@.len() as int) =~= cubes@);
    r
}

/// Cells over every row are looked for only on behalf of a caller from whom nothing is withheld:
/// an aggregate over rows a caller may not read would disclose them through arithmetic.
pub proof fn wide_cells_reach_no_narrower_reader(scope: u64, unrestricted: bool)
    requires
        scope != UNRESTRICTED,
    ensures
        scopes_to_try(scope, unrestricted).contains(UNRESTRICTED) <==> unrestricted,
{
    if unrestricted {
        assert(scopes_to_try(scope, unrestricted)[1] == UNRESTRICTED);
    }
}

/// Where cells come from.
#[derive(Clone, Copy, PartialEq, Eq, Debug, Structural)]
pub enum Source {
    /// From memory.
    Memory,
    /// From the cuboid stored under one of the scopes, by its place among them.
    Cuboid(usize),
    /// From the fact table.
    FactTable,
}

/// The place of the first scope that a cuboid was found under.
pub open spec fn first_found(found: Seq<bool>) -> Option<int>
    decreases found.len(),
{
    if found.len() == 0 {
        None
    } else {
        match first_found(found.drop_last()) {
            Some(i) => Some(i),
            None => if found.last() {
                Some(found.len() - 1)
            } else {
                None
            },
        }
    }
}

/// Whether cells in memory may answer: unless the statement asks for the base data and they came
/// from a cuboid. `held` says of cells in memory, where there are any, whether they did.
pub fn memory_answers(session: Session, held: Option<bool>) -> (r: bool)
    ensures
        r == (held is Some && !(session == Session::Off && held == Some(true))),
{
    match held {
        Some(from_cuboid) => !(session == Session::Off && from_cuboid),
        None => false,
    }
}

/// Where cells come from: from memory where they may, else from the first cuboid found, else from
/// the fact table. A miss is slower and never wrong.
pub open spec fn source(session: Session, held: Option<bool>, found: Seq<bool>) -> Source {
    if held is Some && !(session == Session::Off && held == Some(true)) {
        Source::Memory
    } else {
        match first_found(found) {
            Some(i) => Source::Cuboid(i as usize),
            None => Source::FactTable,
        }
    }
}

/// Where cells come from.
pub fn serve(session: Session, held: Option<bool>, found: &Vec<bool>) -> (r: Source)
    ensures
        r == source(session, held, found@),
{
    if memory_answers(session, held) {
        return Source::Memory;
    }
    let mut i: usize = 0;
    while i < found.len()
        invariant
            i <= found@.len(),
            first_found(found@.take(i as int)) is None,
            !(held is Some && !(session == Session::Off && held == Some(true))),
        decreases found@.len() - i,
    {
        assert(found@.take(i + 1).drop_last() =~= found@.take(i as int));
        if found[i] {
            proof {
                lemma_first_found(found@, i + 1);
            }
            return Source::Cuboid(i);
        }
        i = i + 1;
    }
    assert(found@.take(found@.len() as int) =~= found@);
    Source::FactTable
}

proof fn lemma_first_found(found: Seq<bool>, i: int)
    requires
        0 <= i <= found.len(),
        first_found(found.take(i)) is Some,
    ensures
        first_found(found) == first_found(found.take(i)),
    decreases found.len(),
{
    if i < found.len() {
        assert(found.drop_last().take(i) =~= found.take(i));
        lemma_first_found(found.drop_last(), i);
    } else {
        assert(found.take(i) =~= found);
    }
}

/// A statement that asks for the base data is answered from it: neither from a cuboid, none being
/// usable for it, nor from cells in memory that came from one.
pub proof fn base_data_means_base_data(held: Option<bool>, found: Seq<bool>)
    requires
        forall|i: int| 0 <= i < found.len() ==> !#[trigger] found[i],
    ensures
        !(source(Session::Off, held, found) is Cuboid),
        source(Session::Off, held, found) is Memory ==> held == Some(false),
{
    lemma_none_found(found);
}

proof fn lemma_none_found(found: Seq<bool>)
    requires
        forall|i: int| 0 <= i < found.len() ==> !#[trigger] found[i],
    ensures
        first_found(found) is None,
    decreases found.len(),
{
    if found.len() > 0 {
        assert forall|i: int| 0 <= i < found.drop_last().len() implies !#[trigger] found.drop_last()[i] by {
            assert(!found[i]);
        }
        lemma_none_found(found.drop_last());
        assert(!found[found.len() - 1]);
    }
}

// --- the store ---------------------------------------------------------------------------------

/// What makes a stored cuboid an answer.
#[derive(PartialEq, Eq, Debug)]
pub struct StoredKey {
    /// The version of the cube's definition.
    pub definition: u64,
    /// The version of the tables it was read at.
    pub snapshot: u64,
    /// The scope of its cells.
    pub scope: u64,
    /// The measure.
    pub measure: String,
    /// Its dimensions.
    pub cuboid: Vec<String>,
}

/// What makes a stored cuboid an answer, as text.
#[verifier::ext_equal]
pub struct StoredView {
    /// The version of the cube's definition.
    pub definition: u64,
    /// The version of the tables it was read at.
    pub snapshot: u64,
    /// The scope of its cells.
    pub scope: u64,
    /// The measure.
    pub measure: Seq<char>,
    /// Its dimensions.
    pub cuboid: Seq<Seq<char>>,
}

impl View for StoredKey {
    type V = StoredView;

    open spec fn view(&self) -> StoredView {
        StoredView {
            definition: self.definition,
            snapshot: self.snapshot,
            scope: self.scope,
            measure: self.measure@,
            cuboid: text::views(self.cuboid@),
        }
    }
}

/// Where a stored cuboid lies: under a name that discovery passes over.
pub fn cuboid_root(warehouse: &Place, table: &str) -> (r: Place)
    ensures
        r@ == warehouse::inside(warehouse::inside(warehouse@, "_cubes"@), table@),
{
    warehouse.inside("_cubes").inside(table)
}

/// The order of shapes: dimension by dimension.
pub open spec fn shape_precedes(a: Seq<Seq<char>>, b: Seq<Seq<char>>) -> bool
    decreases a.len(),
{
    if b.len() == 0 {
        false
    } else if a.len() == 0 {
        true
    } else if a[0] == b[0] {
        shape_precedes(a.skip(1), b.skip(1))
    } else {
        text::precedes(a[0], b[0])
    }
}

proof fn lemma_shape_irreflexive(a: Seq<Seq<char>>)
    ensures
        !shape_precedes(a, a),
    decreases a.len(),
{
    if a.len() > 0 {
        lemma_shape_irreflexive(a.skip(1));
    }
}

proof fn lemma_shape_transitive(a: Seq<Seq<char>>, b: Seq<Seq<char>>, c: Seq<Seq<char>>)
    requires
        shape_precedes(a, b),
        shape_precedes(b, c),
    ensures
        shape_precedes(a, c),
    decreases a.len(),
{
    if a.len() > 0 {
        if a[0] == b[0] && b[0] == c[0] {
            lemma_shape_transitive(a.skip(1), b.skip(1), c.skip(1));
        } else if a[0] != b[0] && b[0] != c[0] {
            text::lemma_precedes_transitive(a[0], b[0], c[0]);
            if a[0] == c[0] {
                text::lemma_precedes_irreflexive(a[0]);
            }
        }
    }
}

fn shape_before(a: &Vec<String>, b: &Vec<String>) -> (r: bool)
    ensures
        r == shape_precedes(text::views(a@), text::views(b@)),
{
    let ghost x = text::views(a@);
    let ghost y = text::views(b@);
    let mut i: usize = 0;
    assert(x.skip(0) =~= x);
    assert(y.skip(0) =~= y);
    loop
        invariant
            i <= a@.len(),
            i <= b@.len(),
            x == text::views(a@),
            y == text::views(b@),
            shape_precedes(x, y) == shape_precedes(x.skip(i as int), y.skip(i as int)),
        decreases a@.len() - i,
    {
        if i >= b.len() {
            return false;
        }
        if i >= a.len() {
            return true;
        }
        assert(x.skip(i as int)[0] == a@[i as int]@);
        assert(y.skip(i as int)[0] == b@[i as int]@);
        if !same(a[i].as_str(), b[i].as_str()) {
            return text::before(a[i].as_str(), b[i].as_str());
        }
        assert(x.skip(i as int).skip(1) =~= x.skip(i + 1));
        assert(y.skip(i as int).skip(1) =~= y.skip(i + 1));
        i = i + 1;
    }
}

/// Whether shapes stand in order.
pub open spec fn in_shape_order(list: Seq<Seq<Seq<char>>>) -> bool {
    forall|i: int, j: int| 0 <= i < j < list.len() ==> !shape_precedes(#[trigger] list[j], #[trigger] list[i])
}

fn place_shape(list: &mut Vec<Vec<String>>, shape: Vec<String>)
    requires
        in_shape_order(shapes(old(list)@)),
    ensures
        in_shape_order(shapes(final(list)@)),
        shapes(final(list)@).to_multiset() == shapes(old(list)@).to_multiset().insert(text::views(shape@)),
{
    let ghost was = shapes(list@);
    let ghost x = text::views(shape@);
    let mut at: usize = 0;
    while at < list.len() && !shape_before(&shape, &list[at])
        invariant
            at <= list@.len(),
            was == shapes(list@),
            x == text::views(shape@),
            forall|k: int| 0 <= k < at ==> !shape_precedes(x, #[trigger] was[k]),
        decreases list@.len() - at,
    {
        assert(was[at as int] == text::views(list@[at as int]@));
        at = at + 1;
    }
    proof {
        if at < was.len() {
            assert(was[at as int] == text::views(list@[at as int]@));
        }
        assert forall|k: int| at <= k < was.len() implies !shape_precedes(#[trigger] was[k], x) by {
            if shape_precedes(was[k], x) {
                lemma_shape_transitive(was[k], x, was[at as int]);
                lemma_shape_irreflexive(was[k]);
            }
        }
        vstd::seq_lib::to_multiset_insert(was, at as int, x);
    }
    list.insert(at, shape);
    assert(shapes(list@) =~= was.insert(at as int, x));
}

/// Whether a stored cuboid is one for a cube at this definition, snapshot and scope.
pub open spec fn stored_for(
    entry: Option<(Seq<char>, StoredView)>,
    cube: Seq<char>,
    definition: u64,
    snapshot: u64,
    scope: u64,
) -> bool {
    entry matches Some((named, key)) && named == cube && key.definition == definition && key.snapshot == snapshot
        && key.scope == scope
}

/// The shapes of the stored cuboids for a cube at this definition, snapshot and scope.
pub open spec fn shapes_stored(
    entries: Seq<Option<(Seq<char>, StoredView)>>,
    cube: Seq<char>,
    definition: u64,
    snapshot: u64,
    scope: u64,
) -> Seq<Seq<Seq<char>>>
    decreases entries.len(),
{
    if entries.len() == 0 {
        Seq::empty()
    } else {
        let before = shapes_stored(entries.drop_last(), cube, definition, snapshot, scope);
        if stored_for(entries.last(), cube, definition, snapshot, scope) {
            before.push(entries.last()->Some_0.1.cuboid)
        } else {
            before
        }
    }
}

/// What the names in a store say, where they say anything.
pub open spec fn stored_entry(entry: Option<(String, StoredKey)>) -> Option<(Seq<char>, StoredView)> {
    match entry {
        Some((cube, key)) => Some((cube@, key@)),
        None => None,
    }
}

/// The shapes of the stored cuboids for a cube at this definition, snapshot and scope, in order, so
/// that two runs plan alike. The names in the store say what they hold, so that nothing else
/// records it and nothing can disagree.
pub fn materialised_shapes(
    entries: &Vec<Option<(String, StoredKey)>>,
    cube: &str,
    definition: u64,
    snapshot: u64,
    scope: u64,
) -> (r: Vec<Vec<String>>)
    ensures
        in_shape_order(shapes(r@)),
        shapes(r@).to_multiset() == shapes_stored(
            entries@.map_values(|e: Option<(String, StoredKey)>| stored_entry(e)),
            cube@,
            definition,
            snapshot,
            scope,
        ).to_multiset(),
{
    let ghost all = entries@.map_values(|e: Option<(String, StoredKey)>| stored_entry(e));
    let mut r: Vec<Vec<String>> = Vec::new();
    let mut i: usize = 0;
    assert(shapes(r@) =~= Seq::empty());
    while i < entries.len()
        invariant
            i <= entries@.len(),
            all == entries@.map_values(|e: Option<(String, StoredKey)>| stored_entry(e)),
            in_shape_order(shapes(r@)),
            shapes(r@).to_multiset() == shapes_stored(
                all.take(i as int),
                cube@,
                definition,
                snapshot,
                scope,
            ).to_multiset(),
        decreases entries@.len() - i,
    {
        assert(all.take(i + 1).drop_last() =~= all.take(i as int));
        let ghost before = shapes_stored(all.take(i as int), cube@, definition, snapshot, scope);
        if let Some((named, key)) = &entries[i] {
            if same(named.as_str(), cube) && key.definition == definition && key.snapshot == snapshot && key.scope
                == scope {
                place_shape(&mut r, text::copy_list(&key.cuboid));
                proof {
                    before.to_multiset_ensures();
                }
            }
        }
        i = i + 1;
    }
    assert(all.take(all.len() as int) =~= all);
    r
}

/// What makes the cuboid that answers an answer, where one may: some are usable, and the plan is to
/// read one of those.
pub fn from_a_cuboid(
    definition: u64,
    snapshot: u64,
    scope: u64,
    measure: &str,
    usable: &Vec<Vec<String>>,
    planned: Option<&Vec<String>>,
) -> (r: Option<StoredKey>)
    ensures
        (match r {
            Some(key) => Some(key@),
            None => None,
        }) == (match planned {
            Some(cuboid) if usable@.len() > 0 => Some(
                StoredView { definition, snapshot, scope, measure: measure@, cuboid: text::views(cuboid@) },
            ),
            _ => None,
        }),
{
    if usable.len() == 0 {
        return None;
    }
    match planned {
        None => None,
        Some(cuboid) => Some(
            StoredKey {
                definition,
                snapshot,
                scope,
                measure: measure.to_string(),
                cuboid: text::copy_list(cuboid),
            },
        ),
    }
}

/// What all parts of a stored cuboid say they saw, where each says something and all say the same.
/// The file records one reading, and two answers to how much it saw are none.
pub open spec fn all_saw(parts: Seq<Option<u64>>) -> Option<u64> {
    if parts.len() > 0 && (forall|i: int| 0 <= i < parts.len() ==> #[trigger] parts[i] == parts[0]) {
        parts[0]
    } else {
        None
    }
}

/// What a stored cuboid saw, by what each of its parts says; nothing where it may not be read at
/// all: past the lag it is allowed, or not there.
pub fn materialised(within_target: bool, stored: bool, parts: &Vec<Option<u64>>) -> (r: Option<u64>)
    ensures
        r == (if within_target && stored {
            all_saw(parts@)
        } else {
            None
        }),
{
    if !within_target || !stored {
        return None;
    }
    let mut saw: Option<u64> = None;
    let mut i: usize = 0;
    while i < parts.len()
        invariant
            i <= parts@.len(),
            within_target && stored,
            i > 0 ==> saw is Some && saw == parts@[0],
            forall|k: int| 0 <= k < i ==> #[trigger] parts@[k] == parts@[0],
            i == 0 ==> saw is None,
        decreases parts@.len() - i,
    {
        match (parts[i], saw) {
            (None, _) => {
                assert(parts@[i as int] is None);
                return None;
            },
            (Some(part), None) => {
                saw = Some(part);
            },
            (Some(part), Some(first)) => {
                if part != first {
                    assert(parts@[i as int] != parts@[0]);
                    return None;
                }
            },
        }
        i = i + 1;
    }
    saw
}

// --- upkeep ------------------------------------------------------------------------------------

/// How many versions a superseded cuboid may lie behind before it is removed: more than any lag it
/// is served under, because a query that found it a moment ago still reads it.
pub const CUBOID_DRIFT_TOLERATED: u64 = 100;

/// A cube as upkeep finds it.
pub struct Maintained {
    /// Its name.
    pub name: String,
    /// The version of its definition.
    pub version: u64,
    /// The version of the tables it reads.
    pub snapshot: u64,
    /// Whether it is kept up at all.
    pub maintained: bool,
    /// Its measures.
    pub measures: Vec<String>,
    /// The shapes to hold.
    pub wanted: Vec<Vec<String>>,
}

/// A cuboid to build, where it is not there already.
#[derive(PartialEq, Eq, Debug)]
pub struct Job {
    /// The cube.
    pub cube: String,
    /// What makes the cuboid an answer.
    pub key: StoredKey,
}

impl View for Job {
    type V = (Seq<char>, StoredView);

    open spec fn view(&self) -> (Seq<char>, StoredView) {
        (self.cube@, self.key@)
    }
}

/// The cuboid of one measure and one shape, over every row: upkeep runs for nobody, so it builds
/// what may serve only a caller from whom nothing is withheld.
pub open spec fn job(cube: Maintained, measure: Seq<char>, shape: Seq<Seq<char>>) -> (Seq<char>, StoredView) {
    (
        cube.name@,
        StoredView { definition: cube.version, snapshot: cube.snapshot, scope: UNRESTRICTED, measure, cuboid: shape },
    )
}

/// The cuboids of one measure.
pub open spec fn measure_jobs(cube: Maintained, measure: Seq<char>) -> Seq<(Seq<char>, StoredView)> {
    shapes(cube.wanted@).map_values(|shape: Seq<Seq<char>>| job(cube, measure, shape))
}

/// The cuboids of some measures of a cube.
pub open spec fn cube_jobs(cube: Maintained, measures: Seq<Seq<char>>) -> Seq<(Seq<char>, StoredView)>
    decreases measures.len(),
{
    if measures.len() == 0 {
        Seq::empty()
    } else {
        cube_jobs(cube, measures.drop_last()) + measure_jobs(cube, measures.last())
    }
}

/// The cuboids to build: of each cube that is kept up, each shape of each measure.
pub open spec fn jobs_for(cubes: Seq<Maintained>) -> Seq<(Seq<char>, StoredView)>
    decreases cubes.len(),
{
    if cubes.len() == 0 {
        Seq::empty()
    } else {
        let before = jobs_for(cubes.drop_last());
        if cubes.last().maintained {
            before + cube_jobs(cubes.last(), text::views(cubes.last().measures@))
        } else {
            before
        }
    }
}

/// What jobs are for.
pub open spec fn job_views(jobs: Seq<Job>) -> Seq<(Seq<char>, StoredView)> {
    jobs.map_values(|j: Job| j@)
}

fn add_measure_jobs(cube: &Maintained, measure: &str, jobs: &mut Vec<Job>)
    ensures
        job_views(final(jobs)@) == job_views(old(jobs)@) + measure_jobs(*cube, measure@),
{
    let ghost was = job_views(jobs@);
    let ghost more = measure_jobs(*cube, measure@);
    let mut i: usize = 0;
    assert(was + more.take(0) =~= was);
    while i < cube.wanted.len()
        invariant
            i <= cube.wanted@.len(),
            more == measure_jobs(*cube, measure@),
            job_views(jobs@) == was + more.take(i as int),
        decreases cube.wanted@.len() - i,
    {
        let next = Job {
            cube: cube.name.clone(),
            key: StoredKey {
                definition: cube.version,
                snapshot: cube.snapshot,
                scope: UNRESTRICTED,
                measure: measure.to_string(),
                cuboid: text::copy_list(&cube.wanted[i]),
            },
        };
        assert(next@ == more[i as int]);
        let ghost before = jobs@;
        let ghost added = next@;
        jobs.push(next);
        assert(job_views(jobs@) =~= job_views(before).push(added));
        assert(was + more.take(i + 1) =~= (was + more.take(i as int)).push(added));
        i = i + 1;
    }
    assert(more.take(more.len() as int) =~= more);
}

fn add_cube_jobs(cube: &Maintained, jobs: &mut Vec<Job>)
    ensures
        job_views(final(jobs)@) == job_views(old(jobs)@) + cube_jobs(*cube, text::views(cube.measures@)),
{
    let ghost was = job_views(jobs@);
    let ghost measures = text::views(cube.measures@);
    let mut i: usize = 0;
    assert(was + cube_jobs(*cube, measures.take(0)) =~= was);
    while i < cube.measures.len()
        invariant
            i <= cube.measures@.len(),
            measures == text::views(cube.measures@),
            job_views(jobs@) == was + cube_jobs(*cube, measures.take(i as int)),
        decreases cube.measures@.len() - i,
    {
        assert(measures.take(i + 1).drop_last() =~= measures.take(i as int));
        add_measure_jobs(cube, cube.measures[i].as_str(), jobs);
        assert(job_views(jobs@) =~= was + cube_jobs(*cube, measures.take(i + 1)));
        i = i + 1;
    }
    assert(measures.take(measures.len() as int) =~= measures);
}

/// The cuboids to build, where they are not there already: of each cube that is kept up, each shape
/// of each measure.
pub fn refresh_maintained_cubes(cubes: &Vec<Maintained>) -> (r: Vec<Job>)
    ensures
        job_views(r@) == jobs_for(cubes@),
{
    let mut r: Vec<Job> = Vec::new();
    let mut i: usize = 0;
    assert(job_views(r@) =~= Seq::empty());
    while i < cubes.len()
        invariant
            i <= cubes@.len(),
            job_views(r@) == jobs_for(cubes@.take(i as int)),
        decreases cubes@.len() - i,
    {
        assert(cubes@.take(i + 1).drop_last() =~= cubes@.take(i as int));
        if cubes[i].maintained {
            add_cube_jobs(&cubes[i], &mut r);
        }
        i = i + 1;
    }
    assert(cubes@.take(cubes@.len() as int) =~= cubes@);
    r
}

/// How far the building of one cuboid has come.
#[derive(Clone, Copy, PartialEq, Eq, Debug, Structural)]
pub enum Building {
    /// Whether it is there already is looked up.
    Looking,
    /// The base cells are read.
    Hydrating,
    /// They are rolled to the shape.
    Rolling,
    /// The rule its cells are reduced by is looked up.
    Ruling,
    /// It is written.
    Writing,
    /// It was built.
    Built,
    /// It was not.
    Skipped,
}

/// How far the building of a cuboid has come once a step was taken: `happened` says whether it is
/// there, its cells were read, they rolled, there is a rule, or it was written. A cuboid that is
/// there is not built again, and one that cannot be built exactly is not built at all.
pub fn advance(building: Building, happened: bool) -> (r: Building)
    ensures
        r == (match building {
            Building::Looking => if happened {
                Building::Skipped
            } else {
                Building::Hydrating
            },
            Building::Hydrating => if happened {
                Building::Rolling
            } else {
                Building::Skipped
            },
            Building::Rolling => if happened {
                Building::Ruling
            } else {
                Building::Skipped
            },
            Building::Ruling => if happened {
                Building::Writing
            } else {
                Building::Skipped
            },
            Building::Writing => if happened {
                Building::Built
            } else {
                Building::Skipped
            },
            Building::Built => Building::Built,
            Building::Skipped => Building::Skipped,
        }),
{
    match building {
        Building::Looking => if happened {
            Building::Skipped
        } else {
            Building::Hydrating
        },
        Building::Hydrating => if happened {
            Building::Rolling
        } else {
            Building::Skipped
        },
        Building::Rolling => if happened {
            Building::Ruling
        } else {
            Building::Skipped
        },
        Building::Ruling => if happened {
            Building::Writing
        } else {
            Building::Skipped
        },
        Building::Writing => if happened {
            Building::Built
        } else {
            Building::Skipped
        },
        Building::Built => Building::Built,
        Building::Skipped => Building::Skipped,
    }
}

/// What is reported of a cuboid that was built.
pub fn built_name(job: &Job) -> (r: String)
    ensures
        r@ == job.cube@ + "."@ + job.key.measure@,
{
    let mut r = job.cube.clone();
    r.append(".");
    r.append(job.key.measure.as_str());
    r
}

/// The current version of each cube, by name.
pub open spec fn current_versions(cubes: Seq<(Seq<char>, u64)>) -> Map<Seq<char>, u64>
    decreases cubes.len(),
{
    if cubes.len() == 0 {
        Map::empty()
    } else {
        current_versions(cubes.drop_last()).insert(cubes.last().0, cubes.last().1)
    }
}

/// What superseded cuboids are told from: the current version of each cube. Nothing where there are
/// no cubes, and then nothing is swept.
pub fn retire_superseded_cuboids(cubes: &Vec<(String, u64)>) -> (r: Option<TextMap<u64>>)
    ensures
        r is None <==> cubes@.len() == 0,
        r matches Some(current) ==> current@ == current_versions(
            cubes@.map_values(|cube: (String, u64)| (cube.0@, cube.1)),
        ),
{
    if cubes.len() == 0 {
        return None;
    }
    let ghost all = cubes@.map_values(|cube: (String, u64)| (cube.0@, cube.1));
    let mut current: TextMap<u64> = TextMap::new();
    let mut i: usize = 0;
    while i < cubes.len()
        invariant
            i <= cubes@.len(),
            all == cubes@.map_values(|cube: (String, u64)| (cube.0@, cube.1)),
            current@ == current_versions(all.take(i as int)),
        decreases cubes@.len() - i,
    {
        assert(all.take(i + 1).drop_last() =~= all.take(i as int));
        current.insert(cubes[i].0.clone(), cubes[i].1);
        i = i + 1;
    }
    assert(all.take(all.len() as int) =~= all);
    Some(current)
}

/// Each measure of a cube has cuboids of its own: none is ever served the numbers of another.
pub proof fn each_measure_has_cuboids_of_its_own(
    cube: Maintained,
    one: Seq<char>,
    other: Seq<char>,
    shape: Seq<Seq<char>>,
)
    requires
        one != other,
    ensures
        job(cube, one, shape) != job(cube, other, shape),
{
    assert(job(cube, one, shape).1.measure == one);
    assert(job(cube, other, shape).1.measure == other);
}

/// A session that reads from another position finds no cells that were computed for this one.
pub proof fn positions_share_no_cells(cube: CubeRead, scope: u64, pin: u64, other: u64, i: int, k: int)
    requires
        pin != other,
        0 <= i < cells_of_cube(cube, scope, pin).len(),
        0 <= k < cells_of_cube(cube, scope, other).len(),
    ensures
        cells_of_cube(cube, scope, pin)[i].0 != cells_of_cube(cube, scope, other)[k].0,
{
    assert(cells_of_cube(cube, scope, pin)[i].0.pin == pin);
    assert(cells_of_cube(cube, scope, other)[k].0.pin == other);
}

/// An option ends at the first comma, quotation mark or closing bracket behind it, and else with the text.
pub proof fn options_end_at_the_first_mark(s: Seq<char>)
    ensures
        0 <= option_end(s) <= s.len(),
        forall|k: int|
            0 <= k < option_end(s) ==> (#[trigger] s[k]) != ',' && s[k] != '\'' && s[k] != '"' && s[k] != ')',
        option_end(s) < s.len() ==> s[option_end(s)] == ',' || s[option_end(s)] == '\'' || s[option_end(s)] == '"'
            || s[option_end(s)] == ')',
    decreases s.len(),
{
    if s.len() > 0 && !ends_option(s[0]) {
        let rest = s.skip(1);
        options_end_at_the_first_mark(rest);
        assert forall|k: int| 0 <= k < option_end(s) implies (#[trigger] s[k]) != ',' && s[k] != '\'' && s[k] != '"' && s[k]
            != ')' by {
            if k > 0 {
                assert(rest[k - 1] == s[k]);
            }
        }
        if option_end(s) < s.len() {
            assert(rest[option_end(rest)] == s[option_end(s)]);
        }
    }
}

/// A dimension that is restricted is named in front of its colon, and one that is not by the whole part.
pub proof fn dimensions_are_named_in_front(name: Seq<char>, value: Seq<char>)
    requires
        !name.contains(':'),
        name.len() > 0 ==> !text::is_space(name[0]) && !text::is_space(name.last()),
    ensures
        dimension_in(name + seq![':'] + value, true) == name,
        dimension_in(name, true) == name,
        dimension_in(name, false) == name,
{
    text::lemma_cut_at_first(name, value, ':');
    text::lemma_uncut(name, ':');
    text::lemma_trimmed_already(name);
}

/// The dimensions written behind an option, with bars between them, are those it names, and what follows is
/// read on.
pub proof fn options_name_their_dimensions(option: Seq<char>, names: Seq<Seq<char>>, rest: Seq<char>)
    requires
        option.len() > 0,
        names.len() > 0,
        forall|i: int| 0 <= i < names.len() ==> #[trigger] is_dimension(names[i]),
        rest.len() > 0 ==> rest[0] == ',' || rest[0] == '\'' || rest[0] == '"' || rest[0] == ')',
    ensures
        named_by(option + text::joined(names, seq!['|']) + rest, option, false) == names + named_by(rest, option, false),
{
    let list = text::joined(names, seq!['|']);
    let s = option + list + rest;
    let after = list + rest;
    lemma_joined_dimensions(names);
    assert(s.subrange(0, option.len() as int) =~= option);
    assert(text::stands_at(s, option, 0)) by {
        text::found_needles_are_there(s, option, 0);
        assert(s =~= s.take(0) + option + s.skip(0 + option.len() as int));
    }
    assert(text::first_from(s, option, 0) == Some(0int));
    assert(s.skip(0 + option.len() as int) =~= after);
    options_end_at_the_first_mark(after);
    let end = option_end(after);
    assert(end == list.len()) by {
        if end < list.len() {
            assert(after[end] == list[end]);
        }
        if end > list.len() {
            assert(after[list.len() as int] == rest[0]);
        }
    }
    assert(after.take(end) =~= list);
    assert(after.skip(end) =~= rest);
    assert forall|i: int| 0 <= i < names.len() implies !(#[trigger] names[i]).contains('|') by {
        assert(is_dimension(names[i]));
        if names[i].contains('|') {
            let k = choose|k: int| 0 <= k < names[i].len() && names[i][k] == '|';
            assert(names[i][k] != '|');
        }
    }
    text::joined_parts_come_back(names, '|');
    lemma_dimensions_kept(names);
}

/// Whether a text is the name of a dimension as an option writes it.
pub open spec fn is_dimension(name: Seq<char>) -> bool {
    &&& name.len() > 0
    &&& !text::is_space(name[0])
    &&& !text::is_space(name.last())
    &&& forall|k: int|
        0 <= k < name.len() ==> (#[trigger] name[k]) != '|' && name[k] != ',' && name[k] != '\'' && name[k] != '"'
            && name[k] != ')'
}

proof fn lemma_joined_dimensions(names: Seq<Seq<char>>)
    requires
        names.len() > 0,
        forall|i: int| 0 <= i < names.len() ==> #[trigger] is_dimension(names[i]),
    ensures
        forall|k: int|
            0 <= k < text::joined(names, seq!['|']).len() ==> !ends_option(#[trigger] text::joined(names, seq!['|'])[k]),
    decreases names.len(),
{
    reveal_with_fuel(text::joined, 2);
    assert(is_dimension(names[0]));
    if names.len() > 1 {
        let before = names.drop_last();
        assert forall|i: int| 0 <= i < before.len() implies #[trigger] is_dimension(before[i]) by {
            assert(is_dimension(names[i]));
        }
        lemma_joined_dimensions(before);
        assert(is_dimension(names[names.len() - 1]));
        let front = text::joined(before, seq!['|']);
        let list = text::joined(names, seq!['|']);
        assert(list =~= front + seq!['|'] + names.last());
        assert forall|k: int| 0 <= k < list.len() implies !ends_option(#[trigger] list[k]) by {
            if k < front.len() {
                assert(list[k] == front[k]);
            } else if k > front.len() {
                assert(list[k] == names.last()[k - front.len() - 1]);
            }
        }
    }
}

proof fn lemma_dimensions_kept(names: Seq<Seq<char>>)
    requires
        forall|i: int| 0 <= i < names.len() ==> #[trigger] is_dimension(names[i]),
    ensures
        dimensions_in(names, false) == names,
    decreases names.len(),
{
    if names.len() > 0 {
        let before = names.drop_last();
        assert forall|i: int| 0 <= i < before.len() implies #[trigger] is_dimension(before[i]) by {
            assert(is_dimension(names[i]));
        }
        lemma_dimensions_kept(before);
        assert(is_dimension(names[names.len() - 1]));
        text::lemma_trimmed_already(names.last());
        assert(before.push(names.last()) =~= names);
    }
}

/// Materialisation is off for a statement that says so anywhere in small letters, whatever stands around it,
/// and is what is configured for one that does not speak of it.
pub proof fn statements_turn_materialisation_off(before: Seq<char>, behind: Seq<char>)
    ensures
        session_asked(before + "materialise=false"@ + behind) is Off,
        !(session_asked(before + "materialise = pinned"@ + behind) is AsConfigured),
{
    reveal_strlit("materialise=false");
    reveal_strlit("materialise=pinned");
    reveal_strlit("materialise = pinned");
    let bare = |c: char| c != ' ';
    let said = "materialise=false"@;
    let s = before + said + behind;
    lemma_lowered(before, said, behind);
    assert(text::lower_ascii(said) =~= said);
    assert(without_blanks(said) =~= said) by {
        lemma_no_blanks(said);
    }
    lemma_unblanked(text::lower_ascii(before), said, text::lower_ascii(behind));
    lemma_found_between(without_blanks(text::lower_ascii(before)), said, without_blanks(text::lower_ascii(behind)));
    let spaced = "materialise = pinned"@;
    let pinned = "materialise=pinned"@;
    lemma_lowered(before, spaced, behind);
    assert(text::lower_ascii(spaced) =~= spaced);
    assert(without_blanks(spaced) == pinned) by {
        let a = spaced.take(11);
        let b = spaced.subrange(12, 13);
        let c = spaced.skip(14);
        lemma_no_blanks(a);
        lemma_no_blanks(b);
        lemma_no_blanks(c);
        let blank = seq![' '];
        assert(without_blanks(blank) =~= Seq::empty()) by {
            reveal(Seq::filter);
            assert(blank.drop_last() =~= Seq::empty());
        }
        assert(spaced =~= a + blank + b + (blank + c));
        Seq::filter_distributes_over_add(blank, c, bare);
        Seq::filter_distributes_over_add(a, blank, bare);
        Seq::filter_distributes_over_add(a + blank, b, bare);
        Seq::filter_distributes_over_add(a + blank + b, blank + c, bare);
        assert(without_blanks(spaced) =~= a + b + c);
        assert(pinned.take(11) =~= a);
        assert(pinned.subrange(11, 12) =~= b);
        assert(pinned.skip(12) =~= c);
        lemma_cut_in_three(pinned, 11, 12);
    }
    lemma_unblanked(text::lower_ascii(before), spaced, text::lower_ascii(behind));
    lemma_found_between(without_blanks(text::lower_ascii(before)), pinned, without_blanks(text::lower_ascii(behind)));
}

proof fn lemma_cut_in_three(s: Seq<char>, i: int, j: int)
    requires
        0 <= i <= j <= s.len(),
    ensures
        s == s.take(i) + s.subrange(i, j) + s.skip(j),
{
    assert(s =~= s.take(i) + s.subrange(i, j) + s.skip(j));
}

proof fn lemma_lowered(a: Seq<char>, b: Seq<char>, c: Seq<char>)
    ensures
        text::lower_ascii(a + b + c) == text::lower_ascii(a) + text::lower_ascii(b) + text::lower_ascii(c),
{
    assert(text::lower_ascii(a + b + c) =~= text::lower_ascii(a) + text::lower_ascii(b) + text::lower_ascii(c));
}

proof fn lemma_unblanked(a: Seq<char>, b: Seq<char>, c: Seq<char>)
    ensures
        without_blanks(a + b + c) == without_blanks(a) + without_blanks(b) + without_blanks(c),
{
    let bare = |c: char| c != ' ';
    Seq::filter_distributes_over_add(a, b, bare);
    Seq::filter_distributes_over_add(a + b, c, bare);
}

proof fn lemma_no_blanks(s: Seq<char>)
    requires
        forall|i: int| 0 <= i < s.len() ==> #[trigger] s[i] != ' ',
    ensures
        without_blanks(s) == s,
    decreases s.len(),
{
    reveal(Seq::filter);
    if s.len() > 0 {
        lemma_no_blanks(s.drop_last());
        assert(s.drop_last().push(s.last()) =~= s);
    }
}

proof fn lemma_found_between(a: Seq<char>, needle: Seq<char>, c: Seq<char>)
    ensures
        text::holds(a + needle + c, needle),
{
    let s = a + needle + c;
    let at = a.len() as int;
    assert(s =~= s.take(at) + needle + s.skip(at + needle.len()));
    text::found_needles_are_there(s, needle, at);
}

/// No dimension leaves one row, and every dimension more multiplies the rows by a hundred, up to the most
/// that can be counted.
pub proof fn every_dimension_multiplies_by_a_hundred(width: nat)
    ensures
        rows_of_width(0) == 1,
        100 * rows_of_width(width) <= u64::MAX ==> rows_of_width(width + 1) == 100 * rows_of_width(width),
        100 * rows_of_width(width) > u64::MAX ==> rows_of_width(width + 1) == u64::MAX,
{
    vstd::arithmetic::power::lemma_pow0(100);
    vstd::arithmetic::power::lemma_pow_positive(100, width);
    assert(pow(100, width + 1) == 100 * pow(100, width)) by {
        reveal(pow);
    }
}

/// The newest version is the greatest there is, and nought where there is none.
pub proof fn the_newest_version_is_the_greatest(versions: Seq<Option<u64>>)
    ensures
        forall|i: int| 0 <= i < versions.len() && (#[trigger] versions[i]) is Some ==> versions[i]->0 <= newest(versions),
        newest(versions) != 0 ==> versions.contains(Some(newest(versions) as u64)),
        0 <= newest(versions) <= u64::MAX,
    decreases versions.len(),
{
    if versions.len() > 0 {
        let before = versions.drop_last();
        the_newest_version_is_the_greatest(before);
        assert forall|i: int| 0 <= i < versions.len()
            && (#[trigger] versions[i]) is Some implies versions[i]->0 <= newest(
            versions,
        ) by {
            if i < before.len() {
                assert(before[i] == versions[i]);
            }
        }
        if newest(versions) != 0 {
            if newest(versions) == newest(before) {
                let k = choose|k: int| 0 <= k < before.len() && before[k] == Some(newest(before) as u64);
                assert(versions[k] == before[k]);
            } else {
                assert(versions[versions.len() - 1] == Some(newest(versions) as u64));
            }
        }
    }
}

/// A table's version is that of the first table of its name, and it has none where no table bears the name.
pub proof fn versions_are_found_by_name(tables: Seq<(TableName, Option<u64>)>, table: Seq<char>)
    ensures
        forall|i: int| #![trigger tables[i]]
            lists::first_at(tables, i, |t: (TableName, Option<u64>)| t.0.table@ == table) ==> version_of(tables, table)
                == tables[i].1,
        lists::nowhere(tables, |t: (TableName, Option<u64>)| t.0.table@ == table) ==> version_of(tables, table) is None,
    decreases tables.len(),
{
    let p = |t: (TableName, Option<u64>)| t.0.table@ == table;
    if tables.len() > 0 {
        let rest = tables.skip(1);
        versions_are_found_by_name(rest, table);
        assert forall|i: int| #![trigger tables[i]] lists::first_at(tables, i, p) implies version_of(tables, table)
            == tables[i].1 by {
            if i > 0 {
                assert(!p(tables[0]));
                assert(rest[i - 1] == tables[i]);
                assert forall|k: int| 0 <= k < i - 1 implies !p(#[trigger] rest[k]) by {
                    assert(rest[k] == tables[k + 1]);
                }
                assert(lists::first_at(rest, i - 1, p));
            }
        }
        if lists::nowhere(tables, p) {
            assert(!p(tables[0]));
            assert forall|k: int| 0 <= k < rest.len() implies !p(#[trigger] rest[k]) by {
                assert(rest[k] == tables[k + 1]);
            }
        }
    }
}

/// All scopes are known exactly where each is, and they are those.
pub proof fn scopes_are_known_together(scopes: Seq<Option<u64>>)
    ensures
        match all_scopes(scopes) {
            Some(list) => list.len() == scopes.len() && forall|i: int|
                0 <= i < scopes.len() ==> #[trigger] scopes[i] == Some(list[i]),
            None => exists|i: int| 0 <= i < scopes.len() && (#[trigger] scopes[i]) is None,
        },
    decreases scopes.len(),
{
    if scopes.len() > 0 {
        let before = scopes.drop_last();
        scopes_are_known_together(before);
        match all_scopes(before) {
            Some(list) => {
                if let Some(all) = all_scopes(scopes) {
                    assert forall|i: int| 0 <= i < scopes.len() implies #[trigger] scopes[i] == Some(all[i]) by {
                        if i < before.len() {
                            assert(before[i] == scopes[i]);
                            assert(all[i] == list[i]);
                        }
                    }
                } else {
                    assert(scopes[scopes.len() - 1] is None);
                }
            },
            None => {
                let k = choose|k: int| 0 <= k < before.len() && (#[trigger] before[k]) is None;
                assert(scopes[k] == before[k]);
            },
        }
    }
}

/// Scopes are folded one by one by exclusive or and a wrapping product, from the seed and with the prime that
/// the digest is known by.
pub proof fn scopes_are_folded_one_by_one(scopes: Seq<u64>, scope: u64)
    ensures
        folded(Seq::empty()) == 14_695_981_039_346_656_037u64,
        folded(scopes.push(scope)) == (folded(scopes) ^ scope).wrapping_mul(1_099_511_628_211u64),
{
    assert(scopes.push(scope).drop_last() =~= scopes);
}

/// The dimensions that are rolled away are those that are not kept, in order.
pub proof fn what_is_not_kept_is_rolled_away(dimensions: Seq<Seq<char>>, keep: Seq<Seq<char>>)
    ensures
        lists::picked_from(dimensions, rolled_away(dimensions, keep), |d: Seq<char>, c: Seq<char>| c == d
            && !keep.contains(d)),
    decreases dimensions.len(),
{
    let p = |d: Seq<char>, c: Seq<char>| c == d && !keep.contains(d);
    if dimensions.len() == 0 {
        lists::lemma_picked_none::<Seq<char>, Seq<char>>(p);
        assert(dimensions =~= Seq::empty());
    } else {
        what_is_not_kept_is_rolled_away(dimensions.drop_last(), keep);
        let earlier = rolled_away(dimensions.drop_last(), keep);
        let last = dimensions.last();
        if !keep.contains(last) {
            lists::lemma_picked_one(dimensions, earlier, p, last);
        } else {
            lists::lemma_passed_over(dimensions, earlier, p);
        }
    }
}

/// The shapes that are held are those held before, first and in order, and every one more that is asked for,
/// each once.
pub proof fn shapes_are_held_once(held: Seq<Seq<Seq<char>>>, more: Seq<Seq<Seq<char>>>, shape: Seq<Seq<char>>)
    requires
        held.no_duplicates(),
    ensures
        with_shapes(held, more).contains(shape) <==> held.contains(shape) || more.contains(shape),
        with_shapes(held, more).no_duplicates(),
        held.is_prefix_of(with_shapes(held, more)),
    decreases more.len(),
{
    if more.len() > 0 {
        let before = more.drop_last();
        shapes_are_held_once(held, before, shape);
        shapes_are_held_once(held, before, more.last());
        let earlier = with_shapes(held, before);
        let all = with_shapes(held, more);
        assert(more.contains(shape) <==> before.contains(shape) || more.last() == shape) by {
            if more.contains(shape) {
                let k = choose|k: int| 0 <= k < more.len() && more[k] == shape;
                if k < before.len() {
                    assert(before[k] == shape);
                }
            }
            if before.contains(shape) {
                let k = choose|k: int| 0 <= k < before.len() && before[k] == shape;
                assert(more[k] == shape);
            }
            if more.last() == shape {
                assert(more[more.len() - 1] == shape);
            }
        }
        if !earlier.contains(more.last()) {
            assert(all.contains(shape) <==> earlier.contains(shape) || more.last() == shape) by {
                if all.contains(shape) {
                    let k = choose|k: int| 0 <= k < all.len() && all[k] == shape;
                    if k < earlier.len() {
                        assert(earlier[k] == shape);
                    }
                }
                if earlier.contains(shape) {
                    let k = choose|k: int| 0 <= k < earlier.len() && earlier[k] == shape;
                    assert(all[k] == shape);
                }
                if more.last() == shape {
                    assert(all[all.len() - 1] == shape);
                }
            }
        }
    }
}

/// A reader tries its own scope first, and the cells of everybody only where nothing is withheld from it.
pub proof fn readers_try_their_own_scope_first(scope: u64, unrestricted: bool)
    ensures
        scopes_to_try(scope, unrestricted)[0] == scope,
        forall|i: int|
            1 <= i < scopes_to_try(scope, unrestricted).len() ==> #[trigger] scopes_to_try(scope, unrestricted)[i] == 0
                && unrestricted,
        unrestricted ==> scopes_to_try(scope, unrestricted).len() == 2,
{
}

/// The cells a statement wants are those of each cube that it names, in the order of the cubes and for each
/// of its measures, where it calls a cube function and the scope is known.
pub proof fn named_cubes_are_wanted(sql: Seq<char>, cubes: Seq<CubeRead>, pin: u64)
    ensures
        lists::gathered_from(cubes, cells_wanted(sql, cubes, pin), |c: CubeRead|
                if (text::holds(sql, "cube_rollup"@) || text::holds(sql, "cube_slice"@)) && text::holds(sql, c.name@)
                    && c.scope is Some {
                    Seq::new(
                        c.measures@.len(),
                        |k: int|
                            (
                                KeyView {
                                    cube: c.name@,
                                    measure: c.measures@[k]@,
                                    definition_version: c.version,
                                    snapshot: c.snapshot,
                                    scope: c.scope->0,
                                    pin,
                                },
                                scopes_to_try(c.scope->0, c.unrestricted),
                            ),
                    )
                } else {
                    Seq::<(KeyView, Seq<u64>)>::empty()
                }),
    decreases cubes.len(),
{
    let g = |c: CubeRead|
                if (text::holds(sql, "cube_rollup"@) || text::holds(sql, "cube_slice"@)) && text::holds(sql, c.name@)
                    && c.scope is Some {
                    Seq::new(
                        c.measures@.len(),
                        |k: int|
                            (
                                KeyView {
                                    cube: c.name@,
                                    measure: c.measures@[k]@,
                                    definition_version: c.version,
                                    snapshot: c.snapshot,
                                    scope: c.scope->0,
                                    pin,
                                },
                                scopes_to_try(c.scope->0, c.unrestricted),
                            ),
                    )
                } else {
                    Seq::<(KeyView, Seq<u64>)>::empty()
                };
    if cubes.len() == 0 {
        lists::lemma_gathered_none::<CubeRead, (KeyView, Seq<u64>)>(g);
        assert(cubes =~= Seq::empty());
    } else {
        named_cubes_are_wanted(sql, cubes.drop_last(), pin);
        let earlier = cells_wanted(sql, cubes.drop_last(), pin);
        lists::lemma_gathered_more(cubes, earlier, g);
        let last = cubes.last();
        if wants(sql, last) {
            assert(cells_of_cube(last, last.scope->0, pin) =~= g(last));
        }
        assert(cells_wanted(sql, cubes, pin) =~= earlier + g(cubes.last()));
    }
}

/// The first that was found is the first, and none is where nothing was.
pub proof fn the_first_found_is_first(found: Seq<bool>)
    ensures
        match first_found(found) {
            Some(i) => lists::first_at(found, i, |f: bool| f),
            None => lists::nowhere(found, |f: bool| f),
        },
    decreases found.len(),
{
    let p = |f: bool| f;
    if found.len() > 0 {
        let before = found.drop_last();
        the_first_found_is_first(before);
        match first_found(before) {
            Some(i) => {
                assert(found[i] == before[i]);
                assert forall|k: int| 0 <= k < i implies !p(#[trigger] found[k]) by {
                    assert(!p(before[k]));
                }
            },
            None => {
                assert forall|k: int| 0 <= k < before.len() implies !p(#[trigger] found[k]) by {
                    assert(!p(before[k]));
                }
            },
        }
    }
}

/// A question is answered from memory where cells are held there, unless the session turned materialisation
/// off and they were materialised; else from the first cuboid that was found; and else from the facts.
pub proof fn questions_go_to_the_nearest_source(session: Session, held: Option<bool>, found: Seq<bool>)
    requires
        found.len() <= usize::MAX,
    ensures
        source(session, held, found) is Memory <==> held is Some && !(session is Off && held->0),
        match source(session, held, found) {
            Source::Memory => true,
            Source::Cuboid(i) => lists::first_at(found, i as int, |f: bool| f),
            Source::FactTable => lists::nowhere(found, |f: bool| f),
        },
{
    the_first_found_is_first(found);
}

/// Two shapes are ordered by the first dimension in which they differ, and one that goes on stands behind.
pub proof fn shapes_are_ordered_by_their_first_difference(
    common: Seq<Seq<char>>,
    x: Seq<char>,
    y: Seq<char>,
    a: Seq<Seq<char>>,
    b: Seq<Seq<char>>,
)
    requires
        x != y,
    ensures
        shape_precedes(common + seq![x] + a, common + seq![y] + b) == text::precedes(x, y),
        shape_precedes(common, common + seq![x] + a),
        !shape_precedes(common + seq![x] + a, common),
        !shape_precedes(common, common),
    decreases common.len(),
{
    let p = common + seq![x] + a;
    let q = common + seq![y] + b;
    if common.len() == 0 {
        assert(p[0] == x && q[0] == y);
    } else {
        let rest = common.skip(1);
        shapes_are_ordered_by_their_first_difference(rest, x, y, a, b);
        assert(p.skip(1) =~= rest + seq![x] + a);
        assert(q.skip(1) =~= rest + seq![y] + b);
        assert(p[0] == common[0] && q[0] == common[0]);
    }
}

/// The shapes stored for a reader are those of its cube, its definition, its snapshot and its scope, and of
/// no other.
pub proof fn stored_shapes_are_those_of_the_cube(entries: Seq<Option<(Seq<char>, StoredView)>>, cube: Seq<char>, definition: u64, snapshot: u64, scope: u64)
    ensures
        lists::picked_from(entries, shapes_stored(entries, cube, definition, snapshot, scope), |e: Option<(Seq<char>, StoredView)>, c: Seq<Seq<char>>|
                e is Some && (e->Some_0).0 == cube && (e->Some_0).1.definition == definition
                    && (e->Some_0).1.snapshot == snapshot && (e->Some_0).1.scope
                    == scope && c == (e->Some_0).1.cuboid),
    decreases entries.len(),
{
    let p = |e: Option<(Seq<char>, StoredView)>, c: Seq<Seq<char>>|
                e is Some && (e->Some_0).0 == cube && (e->Some_0).1.definition == definition
                    && (e->Some_0).1.snapshot == snapshot && (e->Some_0).1.scope
                    == scope && c == (e->Some_0).1.cuboid;
    if entries.len() == 0 {
        lists::lemma_picked_none::<Option<(Seq<char>, StoredView)>, Seq<Seq<char>>>(p);
        assert(entries =~= Seq::empty());
    } else {
        stored_shapes_are_those_of_the_cube(entries.drop_last(), cube, definition, snapshot, scope);
        let earlier = shapes_stored(entries.drop_last(), cube, definition, snapshot, scope);
        let last = entries.last();
        if stored_for(last, cube, definition, snapshot, scope) {
            lists::lemma_picked_one(entries, earlier, p, last->Some_0.1.cuboid);
        } else {
            lists::lemma_passed_over(entries, earlier, p);
        }
    }
}

/// What every part saw is the one thing that each of them saw, and nothing where two of them differ or one saw
/// nothing.
pub proof fn parts_saw_the_same(parts: Seq<Option<u64>>, seen: u64)
    ensures
        all_saw(parts) == Some(seen) <==> parts.len() > 0 && forall|i: int|
            0 <= i < parts.len() ==> #[trigger] parts[i] == Some(seen),
{
    if parts.len() > 0 && (forall|i: int| 0 <= i < parts.len() ==> #[trigger] parts[i] == Some(seen)) {
        assert(parts[0] == Some(seen));
    }
}

/// The work of a refresh is that of each maintained cube, in order: each of its measures, and for each
/// measure every shape that is wanted, over all rows.
pub proof fn measures_are_refreshed_in_every_shape(cube: Maintained, measures: Seq<Seq<char>>)
    ensures
        lists::gathered_from(measures, cube_jobs(cube, measures), |m: Seq<char>|
                Seq::new(
                    cube.wanted@.len(),
                    |k: int|
                        (
                            cube.name@,
                            StoredView {
                                definition: cube.version,
                                snapshot: cube.snapshot,
                                scope: 0,
                                measure: m,
                                cuboid: text::views(cube.wanted@[k]@),
                            },
                        ),
                )),
    decreases measures.len(),
{
    let g = |m: Seq<char>|
                Seq::new(
                    cube.wanted@.len(),
                    |k: int|
                        (
                            cube.name@,
                            StoredView {
                                definition: cube.version,
                                snapshot: cube.snapshot,
                                scope: 0,
                                measure: m,
                                cuboid: text::views(cube.wanted@[k]@),
                            },
                        ),
                );
    if measures.len() == 0 {
        lists::lemma_gathered_none::<Seq<char>, (Seq<char>, StoredView)>(g);
        assert(measures =~= Seq::empty());
    } else {
        measures_are_refreshed_in_every_shape(cube, measures.drop_last());
        let earlier = cube_jobs(cube, measures.drop_last());
        lists::lemma_gathered_more(measures, earlier, g);
        assert(measure_jobs(cube, measures.last()) =~= g(measures.last()));
        assert(cube_jobs(cube, measures) =~= earlier + g(measures.last()));
    }
}

/// The work of a refresh is that of each cube that is maintained, in order, and of no other.
pub proof fn maintained_cubes_are_refreshed(cubes: Seq<Maintained>)
    ensures
        lists::gathered_from(cubes, jobs_for(cubes), |c: Maintained|
                if c.maintained {
                    cube_jobs(c, text::views(c.measures@))
                } else {
                    Seq::<(Seq<char>, StoredView)>::empty()
                }),
    decreases cubes.len(),
{
    let g = |c: Maintained|
                if c.maintained {
                    cube_jobs(c, text::views(c.measures@))
                } else {
                    Seq::<(Seq<char>, StoredView)>::empty()
                };
    if cubes.len() == 0 {
        lists::lemma_gathered_none::<Maintained, (Seq<char>, StoredView)>(g);
        assert(cubes =~= Seq::empty());
    } else {
        maintained_cubes_are_refreshed(cubes.drop_last());
        let earlier = jobs_for(cubes.drop_last());
        lists::lemma_gathered_more(cubes, earlier, g);
        assert(jobs_for(cubes) =~= earlier + g(cubes.last()));
    }
}

/// The version that is current for a cube is the last that is given for its name.
pub proof fn the_last_version_is_current(cubes: Seq<(Seq<char>, u64)>, i: int)
    requires
        0 <= i < cubes.len(),
        forall|k: int| i < k < cubes.len() ==> (#[trigger] cubes[k]).0 != cubes[i].0,
    ensures
        current_versions(cubes).contains_key(cubes[i].0),
        current_versions(cubes)[cubes[i].0] == cubes[i].1,
    decreases cubes.len(),
{
    if i < cubes.len() - 1 {
        let before = cubes.drop_last();
        assert(cubes[cubes.len() - 1].0 != cubes[i].0);
        assert forall|k: int| i < k < before.len() implies (#[trigger] before[k]).0 != before[i].0 by {
            assert(cubes[k].0 != cubes[i].0);
        }
        the_last_version_is_current(before, i);
    }
}

/// No cube is current that is not among those given.
pub proof fn only_given_cubes_are_current(cubes: Seq<(Seq<char>, u64)>, name: Seq<char>)
    requires
        current_versions(cubes).contains_key(name),
    ensures
        exists|i: int| 0 <= i < cubes.len() && (#[trigger] cubes[i]).0 == name,
    decreases cubes.len(),
{
    if cubes.len() > 0 {
        if cubes.last().0 == name {
            assert(cubes[cubes.len() - 1].0 == name);
        } else {
            let before = cubes.drop_last();
            only_given_cubes_are_current(before, name);
            let k = choose|k: int| 0 <= k < before.len() && (#[trigger] before[k]).0 == name;
            assert(cubes[k].0 == name);
        }
    }
}

} // verus!
