//! Snapshots: named sets of table versions, the statements that manage them, and reading as of one.
//!
//! A snapshot holds files back from reclamation for as long as it lives. So nothing about one is
//! ever guessed: what cannot be read is reported and never skipped, and a caller who asked for one
//! instant is never served the present.

use crate::lists;
use crate::config::Configuration;
use crate::numerals::{self, decimal_text, parse_natural, signed_text};
use crate::text::{self, join, same, to_lower};
use crate::textmap::{self, TextMap};
use crate::warehouse::{self, Place, Resolved};
use crate::wire::{self, completed, refusal, text_row, FieldDescription, QueryFailure, QueryResult};
use vstd::prelude::*;

verus! {

/// The directory snapshot documents lie in. Its underscore keeps it out of every catalogue.
pub const DIRECTORY: &'static str = "_snapshots";

/// Whether a snapshot still pins anything.
#[derive(Clone, Copy, PartialEq, Eq, Debug, Structural)]
pub enum Standing {
    /// It does.
    Live,
    /// It no longer does.
    Expired,
}

/// A snapshot: what it pins, who took it and when, and how it stands today.
#[derive(PartialEq, Eq, Debug)]
pub struct Snapshot {
    /// Its name.
    pub name: String,
    /// Who took it.
    pub taken_by: String,
    /// When, in microseconds since the epoch.
    pub taken_at: i64,
    /// The day it expires, counted from the epoch.
    pub expires_on: i32,
    /// The version of each table it pins.
    pub tables: TextMap<u64>,
    /// How it stands today.
    pub standing: Standing,
    /// What is said of it once it has expired.
    pub notice: String,
}

/// What was found where snapshot documents lie.
#[derive(Debug)]
pub enum Listing {
    /// No directory, as in every warehouse that has taken none.
    Absent,
    /// A directory that cannot be read: where, and why.
    Unreadable(String, String),
    /// Documents in the order of their names: where each lies, and what it holds or why it cannot
    /// be read.
    Documents(Vec<(String, Result<Snapshot, String>)>),
}

/// The snapshots a listing holds, in order.
pub open spec fn held(documents: Seq<(String, Result<Snapshot, String>)>) -> Seq<Snapshot>
    decreases documents.len(),
{
    if documents.len() == 0 {
        Seq::empty()
    } else {
        match documents.last().1 {
            Ok(snapshot) => held(documents.drop_last()).push(snapshot),
            Err(_) => held(documents.drop_last()),
        }
    }
}

/// What is said of the documents that cannot be read, in order.
pub open spec fn complaints(documents: Seq<(String, Result<Snapshot, String>)>) -> Seq<Seq<char>>
    decreases documents.len(),
{
    if documents.len() == 0 {
        Seq::empty()
    } else {
        match documents.last().1 {
            Ok(_) => complaints(documents.drop_last()),
            Err(why) => complaints(documents.drop_last()).push(documents.last().0@ + ": "@ + why@),
        }
    }
}

/// The snapshots of a warehouse, and what is said of those that cannot be read.
#[derive(Debug)]
pub struct Loaded {
    /// The snapshots.
    pub found: Vec<Snapshot>,
    /// What is said of the documents that cannot be read.
    pub complaints: Vec<String>,
}

fn complaint(at: &str, why: &str) -> (r: String)
    ensures
        r@ == at@ + ": "@ + why@,
{
    let mut r = at.to_owned();
    r.append(": ");
    r.append(why);
    r
}

/// The snapshots of a warehouse. A document that cannot be read is reported, never skipped: it
/// still pins files.
pub fn load(listing: Listing) -> (r: Loaded)
    ensures
        match listing {
            Listing::Absent => r.found@.len() == 0 && r.complaints@.len() == 0,
            Listing::Unreadable(at, why) => r.found@.len() == 0 && text::views(r.complaints@) == seq![
                at@ + ": "@ + why@,
            ],
            Listing::Documents(documents) => r.found@ == held(documents@) && text::views(r.complaints@) == complaints(
                documents@,
            ),
        },
{
    match listing {
        Listing::Absent => Loaded { found: Vec::new(), complaints: Vec::new() },
        Listing::Unreadable(at, why) => {
            let mut complaints: Vec<String> = Vec::new();
            complaints.push(complaint(at.as_str(), why.as_str()));
            assert(text::views(complaints@) =~= seq![at@ + ": "@ + why@]);
            Loaded { found: Vec::new(), complaints }
        },
        Listing::Documents(documents) => {
            let ghost all = documents@;
            let mut rest = documents;
            let mut found: Vec<Snapshot> = Vec::new();
            let mut said: Vec<String> = Vec::new();
            let ghost mut done: int = 0;
            while rest.len() > 0
                invariant
                    0 <= done <= all.len(),
                    rest@ == all.skip(done),
                    found@ == held(all.take(done)),
                    text::views(said@) == complaints(all.take(done)),
                decreases rest@.len(),
            {
                let ghost before = all.take(done);
                let ghost upto = all.take(done + 1);
                assert(upto.drop_last() =~= before);
                assert(upto.last() == all[done]);
                assert(rest@[0] == all[done]);
                let (at, outcome) = rest.remove(0);
                assert(rest@ =~= all.skip(done + 1));
                match outcome {
                    Ok(snapshot) => found.push(snapshot),
                    Err(why) => {
                        let ghost was = said@;
                        said.push(complaint(at.as_str(), why.as_str()));
                        assert(text::views(said@) =~= text::views(was).push(at@ + ": "@ + why@));
                    },
                }
                proof {
                    done = done + 1;
                }
            }
            assert(all.take(done) =~= all);
            Loaded { found, complaints: said }
        },
    }
}

// --- what is pinned ---------------------------------------------------------------------------

/// The versions of a table that live snapshots pin, each once, in the order first met.
pub open spec fn pins_of(snapshots: Seq<Snapshot>, table: Seq<char>) -> Seq<u64>
    decreases snapshots.len(),
{
    if snapshots.len() == 0 {
        Seq::empty()
    } else {
        let before = pins_of(snapshots.drop_last(), table);
        let last = snapshots.last();
        if last.standing is Live && last.tables@.contains_key(table) && !before.contains(last.tables@[table]) {
            before.push(last.tables@[table])
        } else {
            before
        }
    }
}

/// Whether a live snapshot pins a table.
pub open spec fn pins_table(snapshot: Snapshot, table: Seq<char>) -> bool {
    snapshot.standing is Live && snapshot.tables@.contains_key(table)
}

/// Whether any live snapshot pins a table.
pub open spec fn any_pins(snapshots: Seq<Snapshot>, table: Seq<char>) -> bool {
    exists|i: int| 0 <= i < snapshots.len() && pins_table(#[trigger] snapshots[i], table)
}

fn holds_version(versions: &Vec<u64>, version: u64) -> (r: bool)
    ensures
        r == versions@.contains(version),
{
    let mut i: usize = 0;
    while i < versions.len()
        invariant
            i <= versions@.len(),
            forall|k: int| 0 <= k < i ==> versions@[k] != version,
        decreases versions@.len() - i,
    {
        if versions[i] == version {
            assert(versions@[i as int] == version);
            return true;
        }
        i = i + 1;
    }
    false
}

fn copy_versions(versions: &Vec<u64>) -> (r: Vec<u64>)
    ensures
        r@ == versions@,
{
    let mut r: Vec<u64> = Vec::new();
    let mut i: usize = 0;
    while i < versions.len()
        invariant
            i <= versions@.len(),
            r@ == versions@.take(i as int),
        decreases versions@.len() - i,
    {
        r.push(versions[i]);
        i = i + 1;
    }
    r
}

/// What a map of pins says of the tables: exactly the tables a live snapshot pins, each with the
/// versions pinned.
pub open spec fn says_pins(pinned: Map<Seq<char>, Vec<u64>>, snapshots: Seq<Snapshot>) -> bool {
    &&& forall|table: Seq<char>| #[trigger] pinned.contains_key(table) <==> any_pins(snapshots, table)
    &&& forall|table: Seq<char>| #[trigger] pinned.contains_key(table) ==> pinned[table]@ == pins_of(snapshots, table)
}

/// What a map of pins says when the snapshots before the last and the first `count` tables of the
/// last have been taken in.
spec fn says_pins_so_far(
    pinned: Map<Seq<char>, Vec<u64>>,
    before: Seq<Snapshot>,
    last: Snapshot,
    count: int,
) -> bool {
    forall|table: Seq<char>|
        {
            let seen = exists|k: int| 0 <= k < count && #[trigger] last.tables.listing()[k].0@ == table;
            let upto = if seen {
                before.push(last)
            } else {
                before
            };
            (#[trigger] pinned.contains_key(table) <==> any_pins(upto, table)) && (pinned.contains_key(table)
                ==> pinned[table]@ == pins_of(upto, table))
        }
}

proof fn lemma_any_pins_push(before: Seq<Snapshot>, last: Snapshot, table: Seq<char>)
    ensures
        any_pins(before.push(last), table) == (any_pins(before, table) || pins_table(last, table)),
        !pins_table(last, table) ==> pins_of(before.push(last), table) == pins_of(before, table),
        !any_pins(before, table) ==> pins_of(before, table) == Seq::<u64>::empty(),
    decreases before.len(),
{
    let all = before.push(last);
    assert(all.drop_last() =~= before);
    if any_pins(before, table) {
        let i = choose|i: int| 0 <= i < before.len() && pins_table(#[trigger] before[i], table);
        assert(pins_table(all[i], table));
    }
    if pins_table(last, table) {
        assert(pins_table(all[before.len() as int], table));
    }
    if any_pins(all, table) {
        let i = choose|i: int| 0 <= i < all.len() && pins_table(#[trigger] all[i], table);
        if i < before.len() {
            assert(pins_table(before[i], table));
        }
    }
    if before.len() > 0 {
        let front = before.drop_last();
        lemma_any_pins_push(front, before.last(), table);
        assert(front.push(before.last()) =~= before);
    }
}

/// The versions live snapshots still pin, by table. An expired snapshot pins nothing.
pub fn pinned_versions(snapshots: &Vec<Snapshot>) -> (r: TextMap<Vec<u64>>)
    ensures
        says_pins(r@, snapshots@),
{
    let mut pinned: TextMap<Vec<u64>> = TextMap::new();
    let mut i: usize = 0;
    assert(says_pins(pinned@, snapshots@.take(0)));
    while i < snapshots.len()
        invariant
            i <= snapshots@.len(),
            says_pins(pinned@, snapshots@.take(i as int)),
        decreases snapshots@.len() - i,
    {
        let ghost before = snapshots@.take(i as int);
        let ghost last = snapshots@[i as int];
        assert(snapshots@.take(i + 1) =~= before.push(last));
        let snapshot = &snapshots[i];
        if snapshot.standing == Standing::Live {
            let tables = snapshot.tables.entries();
            let mut k: usize = 0;
            assert(says_pins_so_far(pinned@, before, last, 0));
            while k < tables.len()
                invariant
                    k <= tables@.len(),
                    tables@ == last.tables.listing(),
                    textmap::rising(tables@),
                    last.tables@ == textmap::map_of(tables@),
                    last.standing is Live,
                    says_pins_so_far(pinned@, before, last, k as int),
                decreases tables@.len() - k,
            {
                let ghost name = tables@[k as int].0@;
                let version = tables[k].1;
                let ghost was = pinned@;
                proof {
                    textmap::lemma_entry(tables@, k as int);
                    lemma_any_pins_push(before, last, name);
                    if exists|m: int| 0 <= m < k && #[trigger] tables@[m].0@ == name {
                        let m = choose|m: int| 0 <= m < k && #[trigger] tables@[m].0@ == name;
                        assert(text::precedes(tables@[m].0@, tables@[k as int].0@));
                        text::lemma_precedes_irreflexive(name);
                    }
                    assert(before.push(last).drop_last() =~= before);
                    assert(was.contains_key(name) <==> any_pins(before, name));
                }
                let mut versions: Vec<u64> = match pinned.get(tables[k].0.as_str()) {
                    Some(versions) => copy_versions(versions),
                    None => Vec::new(),
                };
                assert(versions@ =~= pins_of(before, name));
                if !holds_version(&versions, version) {
                    versions.push(version);
                }
                assert(versions@ =~= pins_of(before.push(last), name));
                pinned.insert(tables[k].0.clone(), versions);
                proof {
                    assert forall|table: Seq<char>|
                        {
                            let seen = exists|m: int| 0 <= m < k + 1 && #[trigger] last.tables.listing()[m].0@ == table;
                            let upto = if seen {
                                before.push(last)
                            } else {
                                before
                            };
                            (#[trigger] pinned@.contains_key(table) <==> any_pins(upto, table)) && (
                            pinned@.contains_key(table) ==> pinned@[table]@ == pins_of(upto, table))
                        } by {
                        if table == name {
                            assert(last.tables.listing()[k as int].0@ == table);
                        } else {
                            assert(pinned@.contains_key(table) == was.contains_key(table));
                            let seen = exists|m: int| 0 <= m < k && #[trigger] last.tables.listing()[m].0@ == table;
                            if exists|m: int| 0 <= m < k + 1 && #[trigger] last.tables.listing()[m].0@ == table {
                                let m = choose|m: int|
                                    0 <= m < k + 1 && #[trigger] last.tables.listing()[m].0@ == table;
                                assert(m < k);
                                assert(seen);
                            }
                        }
                    }
                }
                k = k + 1;
            }
            proof {
                assert forall|table: Seq<char>|
                    (#[trigger] pinned@.contains_key(table) <==> any_pins(before.push(last), table)) && (
                    pinned@.contains_key(table) ==> pinned@[table]@ == pins_of(before.push(last), table)) by {
                    lemma_any_pins_push(before, last, table);
                    let seen = exists|m: int| 0 <= m < tables@.len() && #[trigger] last.tables.listing()[m].0@ == table;
                    if last.tables@.contains_key(table) {
                        let m = choose|m: int| 0 <= m < tables@.len() && #[trigger] tables@[m].0@ == table;
                        assert(last.tables.listing()[m].0@ == table);
                        assert(seen);
                    }
                    if seen {
                        let m = choose|m: int|
                            0 <= m < tables@.len() && #[trigger] last.tables.listing()[m].0@ == table;
                        textmap::lemma_entry(tables@, m);
                    }
                }
            }
        } else {
            proof {
                assert forall|table: Seq<char>|
                    (#[trigger] pinned@.contains_key(table) <==> any_pins(before.push(last), table)) && (
                    pinned@.contains_key(table) ==> pinned@[table]@ == pins_of(before.push(last), table)) by {
                    lemma_any_pins_push(before, last, table);
                }
            }
        }
        i = i + 1;
    }
    assert(snapshots@.take(snapshots@.len() as int) =~= snapshots@);
    pinned
}

/// Whatever a live snapshot pins is kept: its version of a table is among those pinned.
pub proof fn live_pins_are_kept(snapshots: Seq<Snapshot>, i: int, table: Seq<char>)
    requires
        0 <= i < snapshots.len(),
        pins_table(snapshots[i], table),
    ensures
        pins_of(snapshots, table).contains(snapshots[i].tables@[table]),
    decreases snapshots.len(),
{
    let before = pins_of(snapshots.drop_last(), table);
    let all = pins_of(snapshots, table);
    if i < snapshots.len() - 1 {
        live_pins_are_kept(snapshots.drop_last(), i, table);
        let version = snapshots[i].tables@[table];
        let k = choose|k: int| 0 <= k < before.len() && before[k] == version;
        assert(all[k] == version);
    } else if before.contains(snapshots[i].tables@[table]) {
    } else {
        assert(all[before.len() as int] == snapshots[i].tables@[table]);
    }
}

/// An expired snapshot pins nothing: with it or without it, the same versions are pinned.
pub proof fn expired_snapshots_pin_nothing(before: Seq<Snapshot>, expired: Snapshot, table: Seq<char>)
    requires
        expired.standing is Expired,
    ensures
        pins_of(before.push(expired), table) == pins_of(before, table),
        any_pins(before.push(expired), table) == any_pins(before, table),
{
    lemma_any_pins_push(before, expired, table);
}

/// What still reads the tables: the versions pinned at each place, and what stands in the way of
/// knowing.
#[derive(Debug)]
pub struct Reading {
    /// The versions pinned, by place.
    pub by_root: TextMap<Vec<u64>>,
    /// What could not be established. While there is any, nothing may be deleted.
    pub unreadable: Vec<String>,
}

/// What is said of a snapshot that names a table by a name several bear.
pub open spec fn ambiguity(table: Seq<char>, candidates: Seq<Seq<char>>) -> Seq<char> {
    "the snapshot of `"@ + table + "` names "@ + numerals::decimal(candidates.len()) + " tables ("@ + text::joined(
        candidates,
        ", "@,
    ) + "), so which files it pins                  cannot be established"@
}

/// The versions pinned by place, of the first pins whose tables stand where they are said to. The
/// later of two pins that stand at one place is the one kept.
pub open spec fn pinned_by_root(pins: Seq<(String, Vec<u64>)>, at: Seq<Resolved>) -> Map<Seq<char>, Vec<u64>>
    decreases pins.len(),
{
    if pins.len() == 0 || at.len() != pins.len() {
        Map::empty()
    } else {
        let before = pinned_by_root(pins.drop_last(), at.drop_last());
        match at.last() {
            Resolved::One(place) => before.insert(warehouse::written(place@), pins.last().1),
            _ => before,
        }
    }
}

/// What is said of the pins whose tables cannot be told apart, in order.
pub open spec fn ambiguities(pins: Seq<(String, Vec<u64>)>, at: Seq<Resolved>) -> Seq<Seq<char>>
    decreases pins.len(),
{
    if pins.len() == 0 || at.len() != pins.len() {
        Seq::empty()
    } else {
        let before = ambiguities(pins.drop_last(), at.drop_last());
        match at.last() {
            Resolved::Ambiguous(candidates) => before.push(ambiguity(pins.last().0@, text::views(candidates@))),
            _ => before,
        }
    }
}

/// Two maps that name the same places with the same versions.
pub open spec fn same_pins(a: Map<Seq<char>, Vec<u64>>, b: Map<Seq<char>, Vec<u64>>) -> bool {
    a.dom() == b.dom() && forall|root: Seq<char>| #[trigger] a.contains_key(root) ==> a[root]@ == b[root]@
}

/// What still reads the tables, from the pins and where each pinned table stands.
///
/// A table that is gone pins nothing. A document that cannot be read, and a name that several
/// tables bear, are holes in the answer: they are carried, because a smaller answer would read as
/// fewer pins.
pub fn still_reading(complaints: Vec<String>, pins: &TextMap<Vec<u64>>, at: &Vec<Resolved>) -> (r: Reading)
    requires
        at@.len() == pins.listing().len(),
    ensures
        same_pins(r.by_root@, pinned_by_root(pins.listing(), at@)),
        text::views(r.unreadable@) == text::views(complaints@) + ambiguities(pins.listing(), at@),
{
    let entries = pins.entries();
    let ghost all = pins.listing();
    let ghost said = text::views(complaints@);
    let mut by_root: TextMap<Vec<u64>> = TextMap::new();
    let mut unreadable = complaints;
    let mut i: usize = 0;
    assert(by_root@.dom() =~= pinned_by_root(all.take(0), at@.take(0)).dom());
    assert(text::views(unreadable@) =~= said + ambiguities(all.take(0), at@.take(0)));
    while i < entries.len()
        invariant
            i <= entries@.len(),
            entries@ == all,
            at@.len() == all.len(),
            same_pins(by_root@, pinned_by_root(all.take(i as int), at@.take(i as int))),
            text::views(unreadable@) == said + ambiguities(all.take(i as int), at@.take(i as int)),
        decreases entries@.len() - i,
    {
        assert(all.take(i + 1).drop_last() =~= all.take(i as int));
        assert(at@.take(i + 1).drop_last() =~= at@.take(i as int));
        let ghost was = by_root@;
        let ghost was_said = unreadable@;
        match &at[i] {
            Resolved::One(place) => {
                by_root.insert(place.text(), copy_versions(&entries[i].1));
                assert(by_root@.dom() =~= pinned_by_root(all.take(i + 1), at@.take(i + 1)).dom());
            },
            Resolved::Absent => {},
            Resolved::Ambiguous(candidates) => {
                let mut note = "the snapshot of `".to_string();
                note.append(entries[i].0.as_str());
                note.append("` names ");
                note.append(decimal_text(candidates.len() as u64).as_str());
                note.append(" tables (");
                note.append(join(candidates, ", ").as_str());
                note.append("), so which files it pins                  cannot be established");
                unreadable.push(note);
                assert(text::views(unreadable@) =~= text::views(was_said).push(note@));
                assert(text::views(unreadable@) =~= said + ambiguities(all.take(i + 1), at@.take(i + 1)));
            },
        }
        i = i + 1;
    }
    assert(all.take(all.len() as int) =~= all);
    assert(at@.take(at@.len() as int) =~= at@);
    Reading { by_root, unreadable }
}

/// What keepers say: each version with a name.
pub open spec fn keeper_views(keepers: Seq<(u64, String)>) -> Seq<(u64, Seq<char>)> {
    keepers.map_values(|k: (u64, String)| (k.0, k.1@))
}

/// The versions of the table at a root that a snapshot of a name pins, where `at` says what each
/// table it names stands for. Held by root and not by name, because a table may be asked for by more
/// than one.
pub open spec fn pins_at(
    tables: Seq<(String, u64)>,
    at: Seq<Resolved>,
    root: (bool, Seq<Seq<char>>),
    name: Seq<char>,
) -> Seq<(u64, Seq<char>)>
    decreases at.len(),
{
    if at.len() == 0 {
        Seq::empty()
    } else {
        let before = pins_at(tables.drop_last(), at.drop_last(), root, name);
        if at.last() matches Resolved::One(place) && place@ == root {
            before.push((tables.last().1, name))
        } else {
            before
        }
    }
}

/// The versions of the table at a root that snapshots keep alive, each with the name of the one that
/// does. One that expired keeps nothing.
pub open spec fn kept_by_snapshots(
    snapshots: Seq<Snapshot>,
    at: Seq<Vec<Resolved>>,
    root: (bool, Seq<Seq<char>>),
) -> Seq<(u64, Seq<char>)>
    decreases snapshots.len(),
{
    if snapshots.len() == 0 {
        Seq::empty()
    } else {
        let before = kept_by_snapshots(snapshots.drop_last(), at.drop_last(), root);
        let last = snapshots.last();
        if last.standing is Expired {
            before
        } else {
            before + pins_at(last.tables.listing(), at.last()@, root, last.name@)
        }
    }
}

/// A snapshot that expired keeps no version of any table alive.
pub proof fn expired_snapshots_keep_nothing(
    snapshots: Seq<Snapshot>,
    at: Seq<Vec<Resolved>>,
    expired: Snapshot,
    there: Vec<Resolved>,
    root: (bool, Seq<Seq<char>>),
)
    requires
        expired.standing is Expired,
    ensures
        kept_by_snapshots(snapshots.push(expired), at.push(there), root) == kept_by_snapshots(snapshots, at, root),
{
    assert(snapshots.push(expired).drop_last() =~= snapshots);
    assert(at.push(there).drop_last() =~= at);
}

fn push_pins(keepers: &mut Vec<(u64, String)>, snapshot: &Snapshot, at: &Vec<Resolved>, root: &Place)
    requires
        at@.len() == snapshot.tables.listing().len(),
    ensures
        keeper_views(final(keepers)@) == keeper_views(old(keepers)@) + pins_at(
            snapshot.tables.listing(),
            at@,
            root@,
            snapshot.name@,
        ),
{
    let tables = snapshot.tables.entries();
    let ghost all = snapshot.tables.listing();
    let ghost start = keeper_views(keepers@);
    let mut i: usize = 0;
    assert(start =~= start + pins_at(all.take(0), at@.take(0), root@, snapshot.name@));
    while i < at.len()
        invariant
            i <= at@.len(),
            at@.len() == all.len(),
            tables@ == all,
            keeper_views(keepers@) == start + pins_at(all.take(i as int), at@.take(i as int), root@, snapshot.name@),
        decreases at@.len() - i,
    {
        assert(all.take(i + 1).drop_last() =~= all.take(i as int));
        assert(at@.take(i + 1).drop_last() =~= at@.take(i as int));
        let ghost was = keepers@;
        if let Resolved::One(place) = &at[i] {
            if place.same_as(root) {
                keepers.push((tables[i].1, snapshot.name.clone()));
                assert(keeper_views(keepers@) =~= keeper_views(was).push((all[i as int].1, snapshot.name@)));
            }
        }
        assert(keeper_views(keepers@) =~= start + pins_at(
            all.take(i + 1),
            at@.take(i + 1),
            root@,
            snapshot.name@,
        ));
        i = i + 1;
    }
    assert(all.take(i as int) =~= all);
    assert(at@.take(i as int) =~= at@);
}

/// Everything that keeps a version of the table at a root alive: the snapshots that pin it and have
/// not expired, then its clones. `at` says of each snapshot what each table it names stands for.
pub fn keepers(
    snapshots: &Vec<Snapshot>,
    at: &Vec<Vec<Resolved>>,
    root: &Place,
    clones: &Vec<(u64, String)>,
) -> (r: Vec<(u64, String)>)
    requires
        at@.len() == snapshots@.len(),
        forall|i: int|
            0 <= i < snapshots@.len() ==> (#[trigger] at@[i])@.len() == snapshots@[i].tables.listing().len(),
    ensures
        keeper_views(r@) == kept_by_snapshots(snapshots@, at@, root@) + keeper_views(clones@),
{
    let mut r: Vec<(u64, String)> = Vec::new();
    let mut i: usize = 0;
    assert(keeper_views(r@) =~= kept_by_snapshots(snapshots@.take(0), at@.take(0), root@));
    while i < snapshots.len()
        invariant
            i <= snapshots@.len(),
            at@.len() == snapshots@.len(),
            forall|k: int|
                0 <= k < snapshots@.len() ==> (#[trigger] at@[k])@.len() == snapshots@[k].tables.listing().len(),
            keeper_views(r@) == kept_by_snapshots(snapshots@.take(i as int), at@.take(i as int), root@),
        decreases snapshots@.len() - i,
    {
        assert(snapshots@.take(i + 1).drop_last() =~= snapshots@.take(i as int));
        assert(at@.take(i + 1).drop_last() =~= at@.take(i as int));
        assert(at@[i as int]@.len() == snapshots@[i as int].tables.listing().len());
        match snapshots[i].standing {
            Standing::Expired => {},
            Standing::Live => push_pins(&mut r, &snapshots[i], &at[i], root),
        }
        i = i + 1;
    }
    assert(snapshots@.take(i as int) =~= snapshots@);
    assert(at@.take(i as int) =~= at@);
    let ghost kept = keeper_views(r@);
    let mut k: usize = 0;
    assert(kept =~= kept + keeper_views(clones@).take(0));
    while k < clones.len()
        invariant
            k <= clones@.len(),
            keeper_views(r@) == kept + keeper_views(clones@).take(k as int),
        decreases clones@.len() - k,
    {
        let ghost was = r@;
        r.push((clones[k].0, clones[k].1.clone()));
        assert(keeper_views(r@) =~= keeper_views(was).push(keeper_views(clones@)[k as int]));
        assert(keeper_views(r@) =~= kept + keeper_views(clones@).take(k + 1));
        k = k + 1;
    }
    assert(keeper_views(clones@).take(k as int) =~= keeper_views(clones@));
    r
}

/// Whether something keeps a version of a table alive.
pub open spec fn keeps(keepers: Seq<(u64, String)>, version: u64, name: Seq<char>) -> bool {
    exists|i: int| 0 <= i < keepers.len() && #[trigger] keepers[i].0 == version && keepers[i].1@ == name
}

/// Whether names are exactly those that keep a version alive, each once, in order.
pub open spec fn keeper_names(keepers: Seq<(u64, String)>, version: u64, listed: Seq<Seq<char>>) -> bool {
    &&& forall|i: int, j: int| 0 <= i < j < listed.len() ==> text::precedes(#[trigger] listed[i], #[trigger] listed[j])
    &&& forall|name: Seq<char>| #[trigger] listed.contains(name) <==> keeps(keepers, version, name)
}

/// What keeps a version alive, by name: snapshots and clones alike, because reclamation asks one
/// question of both.
pub fn keepers_of(keepers: &Vec<(u64, String)>, version: u64) -> (r: Vec<String>)
    ensures
        keeper_names(keepers@, version, text::views(r@)),
{
    let mut named: Vec<String> = Vec::new();
    let mut i: usize = 0;
    while i < keepers.len()
        invariant
            i <= keepers@.len(),
            forall|name: Seq<char>| #[trigger]
                text::views(named@).contains(name) <==> keeps(keepers@.take(i as int), version, name),
        decreases keepers@.len() - i,
    {
        let ghost before = keepers@.take(i as int);
        let ghost upto = keepers@.take(i + 1);
        let ghost was = text::views(named@);
        if keepers[i].0 == version {
            named.push(keepers[i].1.clone());
            assert(text::views(named@) =~= was.push(keepers@[i as int].1@));
        }
        proof {
            assert forall|name: Seq<char>| #[trigger] text::views(named@).contains(name) <==> keeps(
                upto,
                version,
                name,
            ) by {
                let now = text::views(named@);
                if keeps(before, version, name) {
                    let k = choose|k: int|
                        0 <= k < before.len() && #[trigger] before[k].0 == version && before[k].1@ == name;
                    assert(upto[k].0 == version && upto[k].1@ == name);
                    assert(was.contains(name));
                    let m = choose|m: int| 0 <= m < was.len() && was[m] == name;
                    assert(now[m] == name);
                }
                if keeps(upto, version, name) {
                    let k = choose|k: int|
                        0 <= k < upto.len() && #[trigger] upto[k].0 == version && upto[k].1@ == name;
                    if k < i {
                        assert(before[k].0 == version && before[k].1@ == name);
                    } else {
                        assert(now[now.len() - 1] == name);
                    }
                }
                if now.contains(name) {
                    let m = choose|m: int| 0 <= m < now.len() && now[m] == name;
                    if m < was.len() {
                        assert(was[m] == name);
                        assert(was.contains(name));
                    } else {
                        assert(upto[i as int].0 == version && upto[i as int].1@ == name);
                    }
                }
            }
        }
        i = i + 1;
    }
    assert(keepers@.take(keepers@.len() as int) =~= keepers@);
    textmap::in_order(&named)
}

// --- taking one -------------------------------------------------------------------------------

/// A table as one pass over the warehouse finds it.
#[derive(PartialEq, Eq, Debug)]
pub struct Observed {
    /// Its qualified name, where it has one.
    pub qualified: Option<String>,
    /// Whether the caller may read it.
    pub readable: bool,
    /// The version it stands at, where its log can be read.
    pub version: Option<u64>,
}

/// The tables a caller may read and the version each stands at, in order.
pub open spec fn readable_versions(tables: Seq<Observed>) -> Seq<(Seq<char>, u64)>
    decreases tables.len(),
{
    if tables.len() == 0 {
        Seq::empty()
    } else {
        let before = readable_versions(tables.drop_last());
        let last = tables.last();
        match (last.qualified, last.version) {
            (Some(name), Some(version)) => if last.readable {
                before.push((name@, version))
            } else {
                before
            },
            _ => before,
        }
    }
}

/// Named versions.
pub open spec fn versions_view(versions: Seq<(String, u64)>) -> Seq<(Seq<char>, u64)> {
    versions.map_values(|v: (String, u64)| (v.0@, v.1))
}

/// The tables a caller may read and the version each stands at. A table the caller may not read is
/// never named: a snapshot is read by others.
pub fn one_pass(tables: &Vec<Observed>) -> (r: Vec<(String, u64)>)
    ensures
        versions_view(r@) == readable_versions(tables@),
{
    let mut r: Vec<(String, u64)> = Vec::new();
    let mut i: usize = 0;
    assert(versions_view(r@) =~= readable_versions(tables@.take(0)));
    while i < tables.len()
        invariant
            i <= tables@.len(),
            versions_view(r@) == readable_versions(tables@.take(i as int)),
        decreases tables@.len() - i,
    {
        assert(tables@.take(i + 1).drop_last() =~= tables@.take(i as int));
        if tables[i].readable {
            if let Some(name) = &tables[i].qualified {
                if let Some(version) = tables[i].version {
                    let ghost was = r@;
                    r.push((name.clone(), version));
                    assert(versions_view(r@) =~= versions_view(was).push((name@, version)));
                }
            }
        }
        i = i + 1;
    }
    assert(tables@.take(tables@.len() as int) =~= tables@);
    r
}

/// How often a warehouse is read twice before it is given up.
pub const ATTEMPTS: u64 = 5;

/// What two passes over a warehouse amount to.
#[derive(Debug)]
pub enum Confirmation {
    /// They agree: these versions were current together.
    Confirmed(Vec<(String, u64)>),
    /// Something moved; this many times so far. Read again.
    Again(u64),
    /// Something moved every time.
    Refused(QueryFailure),
}

/// The refusal of a snapshot of a warehouse that never stood still.
pub open spec fn never_still(moved: int) -> wire::Refusal {
    wire::refused(
        wire::SERIALIZATION_FAILURE@,
        "this warehouse committed during every one of "@ + numerals::decimal(moved as nat)
            + " attempts to read its tables at one instant, so a snapshot taken now would record versions that were never current together. Refused rather than taken: two figures quoted from one snapshot are supposed to describe the same moment. Try again, or take it when writing is quieter"@,
    )
}

fn same_versions(a: &Vec<(String, u64)>, b: &Vec<(String, u64)>) -> (r: bool)
    ensures
        r == (versions_view(a@) == versions_view(b@)),
{
    if a.len() != b.len() {
        assert(versions_view(a@).len() != versions_view(b@).len());
        return false;
    }
    let mut i: usize = 0;
    while i < a.len()
        invariant
            i <= a@.len(),
            a@.len() == b@.len(),
            forall|k: int| 0 <= k < i ==> versions_view(a@)[k] == versions_view(b@)[k],
        decreases a@.len() - i,
    {
        if !(same(a[i].0.as_str(), b[i].0.as_str()) && a[i].1 == b[i].1) {
            assert(versions_view(a@)[i as int] != versions_view(b@)[i as int]);
            return false;
        }
        i = i + 1;
    }
    assert(versions_view(a@) =~= versions_view(b@));
    true
}

/// What two consecutive passes over a warehouse amount to, after `moved` pairs that did not agree.
///
/// A set of versions that is the same across both passes was current throughout, which is what one
/// instant means. A warehouse that commits during every attempt gets a refusal, never a snapshot
/// that is quietly not one.
pub fn at_one_instant(moved: u64, first: Vec<(String, u64)>, second: &Vec<(String, u64)>) -> (r: Confirmation)
    requires
        moved < ATTEMPTS,
    ensures
        match r {
            Confirmation::Confirmed(versions) => versions == first && versions_view(first@) == versions_view(second@),
            Confirmation::Again(so_far) => versions_view(first@) != versions_view(second@) && so_far == moved + 1
                && so_far < ATTEMPTS,
            Confirmation::Refused(failure) => versions_view(first@) != versions_view(second@) && moved + 1 == ATTEMPTS
                && failure@ == never_still(ATTEMPTS as int),
        },
{
    if same_versions(&first, second) {
        return Confirmation::Confirmed(first);
    }
    let so_far: u64 = moved + 1;
    if so_far < ATTEMPTS {
        return Confirmation::Again(so_far);
    }
    let mut message = "this warehouse committed during every one of ".to_string();
    message.append(decimal_text(so_far).as_str());
    message.append(
        " attempts to read its tables at one instant, so a snapshot taken now would record versions that were never current together. Refused rather than taken: two figures quoted from one snapshot are supposed to describe the same moment. Try again, or take it when writing is quieter",
    );
    Confirmation::Refused(refusal(wire::SERIALIZATION_FAILURE, message.as_str()))
}

/// The refusal of a name that cannot name a document.
pub open spec fn unusable_name(name: Seq<char>, why: Seq<char>) -> wire::Refusal {
    wire::refused(wire::DATA_EXCEPTION@, "`"@ + name + "` is not a usable snapshot name: "@ + why)
}

/// The document a snapshot of a name lies in, below the snapshot directory, given what the name is
/// as a file name or why it is none. There is no other way to get at a document.
pub fn document_at(name: &str, checked: Result<&str, &str>) -> (r: Result<String, QueryFailure>)
    ensures
        match checked {
            Ok(file) => r matches Ok(document) && document@ == DIRECTORY@ + "/"@ + file@ + ".json"@,
            Err(why) => r matches Err(failure) && failure@ == unusable_name(name@, why@),
        },
{
    match checked {
        Ok(file) => {
            let mut r = DIRECTORY.to_string();
            r.append("/");
            r.append(file);
            r.append(".json");
            Ok(r)
        },
        Err(why) => {
            let mut message = "`".to_string();
            message.append(name);
            message.append("` is not a usable snapshot name: ");
            message.append(why);
            Err(refusal(wire::DATA_EXCEPTION, message.as_str()))
        },
    }
}

/// The refusal of a snapshot whose name is taken.
pub open spec fn already_taken(name: Seq<char>) -> wire::Refusal {
    wire::refused(
        "42P07"@,
        "a snapshot called `"@ + name
            + "` already exists. Refused rather than replaced: replacing it would silently move the instant every report quoting it reads from. Drop it first, or take one under another name"@,
    )
}

/// What a snapshot document records.
#[derive(PartialEq, Eq, Debug)]
pub struct Record {
    /// The snapshot's name.
    pub name: String,
    /// Who took it.
    pub taken_by: String,
    /// When, in microseconds since the epoch.
    pub taken_at: i64,
    /// The day it expires.
    pub expires_on: i32,
    /// The version of each table it pins.
    pub tables: TextMap<u64>,
}

/// A map of named versions, the later of two of one name.
pub open spec fn versions_map(versions: Seq<(Seq<char>, u64)>) -> Map<Seq<char>, u64>
    decreases versions.len(),
{
    if versions.len() == 0 {
        Map::empty()
    } else {
        versions_map(versions.drop_last()).insert(versions.last().0, versions.last().1)
    }
}

/// The snapshot to write, or the refusal where one of that name exists: replacing it would move the
/// instant that every report quoting it reads from.
pub fn take(
    exists: bool,
    name: &str,
    taken_by: &str,
    taken_at: i64,
    expires_on: i32,
    readable: &Vec<(String, u64)>,
) -> (r: Result<Record, QueryFailure>)
    ensures
        match r {
            Ok(record) => {
                &&& !exists
                &&& record.name@ == name@
                &&& record.taken_by@ == taken_by@
                &&& record.taken_at == taken_at
                &&& record.expires_on == expires_on
                &&& record.tables@ == versions_map(versions_view(readable@))
            },
            Err(failure) => exists && failure@ == already_taken(name@),
        },
{
    if exists {
        let mut message = "a snapshot called `".to_string();
        message.append(name);
        message.append(
            "` already exists. Refused rather than replaced: replacing it would silently move the instant every report quoting it reads from. Drop it first, or take one under another name",
        );
        return Err(refusal("42P07", message.as_str()));
    }
    let ghost all = versions_view(readable@);
    let mut tables: TextMap<u64> = TextMap::new();
    let mut i: usize = 0;
    while i < readable.len()
        invariant
            i <= readable@.len(),
            all == versions_view(readable@),
            tables@ == versions_map(all.take(i as int)),
        decreases readable@.len() - i,
    {
        assert(all.take(i + 1).drop_last() =~= all.take(i as int));
        tables.insert(readable[i].0.clone(), readable[i].1);
        i = i + 1;
    }
    assert(all.take(all.len() as int) =~= all);
    Ok(Record { name: name.to_owned(), taken_by: taken_by.to_owned(), taken_at, expires_on, tables })
}

/// What came of writing a snapshot down.
#[derive(PartialEq, Eq, Debug)]
pub enum Writing {
    /// It is written.
    Written,
    /// It has no form as a document.
    NoDocument(String),
    /// Its directory could not be made.
    NoDirectory(String),
    /// Its document could not be written.
    NotWritten(String),
}

/// What is answered to a statement that takes a snapshot.
pub open spec fn taking(writing: Writing) -> Result<wire::Answer, wire::Refusal> {
    match writing {
        Writing::Written => Ok(wire::done("CREATE SNAPSHOT"@)),
        Writing::NoDocument(why) => Err(wire::refused(wire::INTERNAL_ERROR@, why@)),
        Writing::NoDirectory(why) => Err(
            wire::refused(wire::IO_ERROR@, "the snapshot directory could not be created: "@ + why@),
        ),
        Writing::NotWritten(why) => Err(
            wire::refused(wire::IO_ERROR@, "the snapshot could not be written: "@ + why@),
        ),
    }
}

/// What is answered once a snapshot was written down or could not be.
pub fn taken(writing: Writing) -> (r: Result<QueryResult, QueryFailure>)
    ensures
        wire::reply(r) == taking(writing),
{
    match writing {
        Writing::Written => Ok(completed("CREATE SNAPSHOT")),
        Writing::NoDocument(why) => Err(refusal(wire::INTERNAL_ERROR, why.as_str())),
        Writing::NoDirectory(why) => {
            let mut message = "the snapshot directory could not be created: ".to_string();
            message.append(why.as_str());
            Err(refusal(wire::IO_ERROR, message.as_str()))
        },
        Writing::NotWritten(why) => {
            let mut message = "the snapshot could not be written: ".to_string();
            message.append(why.as_str());
            Err(refusal(wire::IO_ERROR, message.as_str()))
        },
    }
}

/// What is answered once a snapshot's document was removed or could not be.
pub fn dropped(removed: Result<(), String>) -> (r: Result<QueryResult, QueryFailure>)
    ensures
        wire::reply(r) == (match removed {
            Ok(()) => Ok(wire::done("DROP SNAPSHOT"@)),
            Err(why) => Err(
                wire::refused(wire::IO_ERROR@, "the snapshot could not be removed: "@ + why@),
            ),
        }),
{
    match removed {
        Ok(()) => Ok(completed("DROP SNAPSHOT")),
        Err(why) => {
            let mut message = "the snapshot could not be removed: ".to_string();
            message.append(why.as_str());
            Err(refusal(wire::IO_ERROR, message.as_str()))
        },
    }
}

// --- dropping one -----------------------------------------------------------------------------

/// The refusal of a snapshot that is not there, or that the caller may not know of.
pub open spec fn no_such_snapshot(name: Seq<char>) -> wire::Refusal {
    wire::refused(
        "42704"@,
        "there is no snapshot called `"@ + name
            + "`. `SHOW SNAPSHOTS` lists them, with what each pins and when it expires"@,
    )
}

fn absent_snapshot(name: &str) -> (r: QueryFailure)
    ensures
        r@ == no_such_snapshot(name@),
{
    let mut message = "there is no snapshot called `".to_string();
    message.append(name);
    message.append("`. `SHOW SNAPSHOTS` lists them, with what each pins and when it expires");
    refusal("42704", message.as_str())
}

/// The refusal of a snapshot whose document cannot be read.
pub open spec fn unreadable_snapshot(name: Seq<char>) -> wire::Refusal {
    wire::refused(
        wire::DATA_EXCEPTION@,
        "the snapshot document for `"@ + name
            + "` could not be read, so what it pins is unknown. Refused rather than dropped: dropping it would release files whose readers cannot be identified"@,
    )
}

/// What is found where a snapshot's document should lie.
#[derive(Debug)]
pub enum Document {
    /// Nothing.
    Missing,
    /// A document that cannot be read.
    Illegible,
    /// A snapshot: who took it, and whether the caller may read every table it pins.
    Held {
        /// Who took it.
        taken_by: String,
        /// Whether the caller may read every table it pins.
        reads_all: bool,
    },
}

/// What to do about a request to drop a snapshot.
#[derive(Debug)]
pub enum DropDecision {
    /// Nothing is there, and the caller allowed for it.
    Acknowledge(QueryResult),
    /// Refuse, and record in the audit that it was denied where the flag says so.
    Refuse(QueryFailure, bool),
    /// Remove the document, and record in the audit that it was granted.
    Remove,
}

/// Whether a caller may drop a snapshot: they took it, or they may read every table it pins.
pub open spec fn may_drop(document: Document, subject: Seq<char>) -> bool {
    document matches Document::Held { taken_by, reads_all } && (taken_by@ == subject || reads_all)
}

/// What to do about a request to drop a snapshot, as a client is told it.
pub enum DropView {
    /// It is acknowledged.
    Acknowledge(wire::Answer),
    /// It is refused, and recorded as denied where the flag says so.
    Refuse(wire::Refusal, bool),
    /// The document is removed.
    Remove,
}

impl View for DropDecision {
    type V = DropView;

    open spec fn view(&self) -> DropView {
        match self {
            DropDecision::Acknowledge(result) => DropView::Acknowledge(result@),
            DropDecision::Refuse(failure, denied) => DropView::Refuse(failure@, *denied),
            DropDecision::Remove => DropView::Remove,
        }
    }
}

/// What to do about a request to drop a snapshot.
pub open spec fn drop_decided(document: Document, subject: Seq<char>, name: Seq<char>, if_exists: bool) -> DropView {
    match document {
        Document::Missing => if if_exists {
            DropView::Acknowledge(wire::done("DROP SNAPSHOT"@))
        } else {
            DropView::Refuse(no_such_snapshot(name), false)
        },
        Document::Illegible => DropView::Refuse(unreadable_snapshot(name), false),
        Document::Held { .. } => if may_drop(document, subject) {
            DropView::Remove
        } else {
            DropView::Refuse(no_such_snapshot(name), true)
        },
    }
}

/// A snapshot that a caller neither took nor may read all of is refused to them in the words of one
/// that is not there.
pub proof fn hidden_snapshots_look_absent(document: Document, subject: Seq<char>, name: Seq<char>, if_exists: bool)
    requires
        document is Held,
        !may_drop(document, subject),
    ensures
        drop_decided(document, subject, name, if_exists) matches DropView::Refuse(hidden, _) && drop_decided(
            Document::Missing,
            subject,
            name,
            false,
        ) matches DropView::Refuse(absent, _) && hidden == absent,
{
}

/// Nothing is removed but a snapshot that can be read, by whoever took it or may read every table it
/// pins.
pub proof fn only_its_readers_drop_a_snapshot(document: Document, subject: Seq<char>, name: Seq<char>, if_exists: bool)
    requires
        drop_decided(document, subject, name, if_exists) is Remove,
    ensures
        document matches Document::Held { taken_by, reads_all } && (taken_by@ == subject || reads_all),
{
}

/// Whether to drop a snapshot. One that the caller may not drop is refused in the words of one that
/// is not there; one whose document cannot be read is refused, because what it pins is unknown.
pub fn drop_it(document: &Document, subject: &str, name: &str, if_exists: bool) -> (r: DropDecision)
    ensures
        r@ == drop_decided(*document, subject@, name@, if_exists),
{
    match document {
        Document::Missing => {
            if if_exists {
                DropDecision::Acknowledge(completed("DROP SNAPSHOT"))
            } else {
                DropDecision::Refuse(absent_snapshot(name), false)
            }
        },
        Document::Illegible => {
            let mut message = "the snapshot document for `".to_string();
            message.append(name);
            message.append(
                "` could not be read, so what it pins is unknown. Refused rather than dropped: dropping it would release files whose readers cannot be identified",
            );
            DropDecision::Refuse(refusal(wire::DATA_EXCEPTION, message.as_str()), false)
        },
        Document::Held { taken_by, reads_all } => {
            if same(taken_by.as_str(), subject) || *reads_all {
                DropDecision::Remove
            } else {
                DropDecision::Refuse(absent_snapshot(name), true)
            }
        },
    }
}

// --- listing them -----------------------------------------------------------------------------

/// The names of a listing, in order.
pub open spec fn entry_names(entries: Seq<(String, u64)>) -> Seq<Seq<char>> {
    entries.map_values(|e: (String, u64)| e.0@)
}

/// What is shown of a snapshot.
pub open spec fn snapshot_row(snapshot: Snapshot) -> Seq<Option<Seq<char>>> {
    wire::texts(
        seq![
            snapshot.name@,
            if snapshot.standing is Live {
                "live"@
            } else {
                "expired"@
            },
            snapshot.taken_by@,
            numerals::signed_decimal(snapshot.taken_at as int),
            numerals::signed_decimal(snapshot.expires_on as int),
            numerals::decimal(snapshot.tables.listing().len()),
            text::joined(entry_names(snapshot.tables.listing()), " "@),
        ],
    )
}

/// The columns of a list of snapshots.
pub open spec fn snapshot_columns() -> Seq<(Seq<char>, i32, i16)> {
    seq![
        ("snapshot"@, wire::OID_TEXT, wire::VARIES),
        ("state"@, wire::OID_TEXT, wire::VARIES),
        ("taken_by"@, wire::OID_TEXT, wire::VARIES),
        ("taken_at"@, wire::OID_INT8, 8i16),
        ("expires_on"@, wire::OID_INT4, 4i16),
        ("tables"@, wire::OID_INT8, 8i16),
        ("pins"@, wire::OID_TEXT, wire::VARIES),
    ]
}

/// The list of snapshots.
pub open spec fn snapshot_list(snapshots: Seq<Snapshot>) -> wire::Answer {
    wire::Answer {
        fields: snapshot_columns(),
        rows: snapshots.map_values(|s: Snapshot| snapshot_row(s)),
        tag: "SELECT "@ + numerals::decimal(snapshots.len()),
    }
}

fn names_of(tables: &TextMap<u64>) -> (r: Vec<String>)
    ensures
        text::views(r@) == entry_names(tables.listing()),
{
    let entries = tables.entries();
    let mut r: Vec<String> = Vec::new();
    let mut i: usize = 0;
    while i < entries.len()
        invariant
            i <= entries@.len(),
            r@.len() == i,
            forall|k: int| 0 <= k < i ==> (#[trigger] r@[k])@ == entries@[k].0@,
        decreases entries@.len() - i,
    {
        r.push(entries[i].0.clone());
        i = i + 1;
    }
    assert(text::views(r@) =~= entry_names(entries@));
    r
}

/// The list of snapshots, with what each pins and when it expires: a cost somebody should own.
pub fn show(snapshots: &Vec<Snapshot>) -> (r: QueryResult)
    ensures
        r@ == snapshot_list(snapshots@),
{
    let mut rows: Vec<Vec<Option<String>>> = Vec::new();
    let mut i: usize = 0;
    while i < snapshots.len()
        invariant
            i <= snapshots@.len(),
            rows@.len() == i,
            forall|k: int| 0 <= k < i ==> wire::row(#[trigger] rows@[k]) == snapshot_row(snapshots@[k]),
        decreases snapshots@.len() - i,
    {
        let s = &snapshots[i];
        let mut cells: Vec<String> = Vec::new();
        cells.push(s.name.clone());
        match s.standing {
            Standing::Live => cells.push("live".to_string()),
            Standing::Expired => cells.push("expired".to_string()),
        }
        cells.push(s.taken_by.clone());
        cells.push(signed_text(s.taken_at));
        cells.push(signed_text(s.expires_on as i64));
        cells.push(decimal_text(s.tables.len() as u64));
        cells.push(join(&names_of(&s.tables), " "));
        let row = text_row(cells);
        assert(wire::row(row) =~= snapshot_row(*s));
        rows.push(row);
        i = i + 1;
    }
    let mut fields: Vec<FieldDescription> = Vec::new();
    fields.push(FieldDescription::text("snapshot", wire::OID_TEXT, wire::VARIES));
    fields.push(FieldDescription::text("state", wire::OID_TEXT, wire::VARIES));
    fields.push(FieldDescription::text("taken_by", wire::OID_TEXT, wire::VARIES));
    fields.push(FieldDescription::text("taken_at", wire::OID_INT8, 8));
    fields.push(FieldDescription::text("expires_on", wire::OID_INT4, 4));
    fields.push(FieldDescription::text("tables", wire::OID_INT8, 8));
    fields.push(FieldDescription::text("pins", wire::OID_TEXT, wire::VARIES));
    let mut tag = "SELECT ".to_string();
    tag.append(decimal_text(snapshots.len() as u64).as_str());
    let r = QueryResult { fields, rows, tag };
    assert(r@.fields =~= snapshot_columns());
    assert(r@.rows =~= snapshot_list(snapshots@).rows);
    r
}

/// The refusal of a list some of whose documents cannot be read.
pub open spec fn incomplete_list(complaints: Seq<Seq<char>>) -> wire::Refusal {
    wire::refused(
        wire::DATA_EXCEPTION@,
        numerals::decimal(complaints.len()) + " snapshot document(s) could not be read, beginning with "@ + complaints[0]
            + ". Refused rather than listing the rest: an unreadable snapshot still pins files, and reporting it as absent would understate what this warehouse is holding"@,
    )
}

/// The answer to a request for the snapshots there are: all of them, or a refusal.
pub fn show_loaded(loaded: &Loaded) -> (r: Result<QueryResult, QueryFailure>)
    ensures
        wire::reply(r) == (if loaded.complaints@.len() > 0 {
            Err::<wire::Answer, wire::Refusal>(incomplete_list(text::views(loaded.complaints@)))
        } else {
            Ok(snapshot_list(loaded.found@))
        }),
{
    if loaded.complaints.len() > 0 {
        let mut message = decimal_text(loaded.complaints.len() as u64);
        message.append(" snapshot document(s) could not be read, beginning with ");
        message.append(loaded.complaints[0].as_str());
        message.append(
            ". Refused rather than listing the rest: an unreadable snapshot still pins files, and reporting it as absent would understate what this warehouse is holding",
        );
        return Err(refusal(wire::DATA_EXCEPTION, message.as_str()));
    }
    Ok(show(&loaded.found))
}

/// A statement about snapshots or versions.
#[derive(PartialEq, Eq, Debug)]
pub enum Statement {
    /// Take a snapshot of this name.
    Create {
        /// Its name.
        name: String,
    },
    /// List the snapshots.
    Show,
    /// Drop one.
    Drop {
        /// Its name.
        name: String,
        /// Whether its absence is allowed for.
        if_exists: bool,
    },
    /// List the versions of a table.
    History {
        /// The table.
        table: String,
    },
    /// Compare two versions of a table.
    Changes {
        /// The table.
        table: String,
        /// The earlier version.
        from: u64,
        /// The later version.
        to: u64,
    },
    /// Read a table at a version from now on, or at the present again.
    ReadVersion {
        /// The table.
        table: String,
        /// The version, or none for the present.
        version: Option<u64>,
    },
}

/// What a statement is called.
pub open spec fn statement_called(statement: Statement) -> Seq<char> {
    match statement {
        Statement::Create { .. } => "CREATE SNAPSHOT"@,
        Statement::Show => "SHOW SNAPSHOTS"@,
        Statement::Drop { .. } => "DROP SNAPSHOT"@,
        Statement::History { .. } => "SHOW HISTORY"@,
        Statement::Changes { .. } => "SHOW CHANGES"@,
        Statement::ReadVersion { .. } => "SET VERSION"@,
    }
}

/// What a statement is called.
pub fn describe(statement: &Statement) -> (r: &'static str)
    ensures
        r@ == statement_called(*statement),
{
    match statement {
        Statement::Create { .. } => "CREATE SNAPSHOT",
        Statement::Show => "SHOW SNAPSHOTS",
        Statement::Drop { .. } => "DROP SNAPSHOT",
        Statement::History { .. } => "SHOW HISTORY",
        Statement::Changes { .. } => "SHOW CHANGES",
        Statement::ReadVersion { .. } => "SET VERSION",
    }
}

// --- reading as of one ------------------------------------------------------------------------

/// The position of the first snapshot of a name.
pub open spec fn position_of(snapshots: Seq<Snapshot>, name: Seq<char>, from: int) -> Option<int>
    decreases snapshots.len() - from,
{
    if from < 0 || from >= snapshots.len() {
        None
    } else if snapshots[from].name@ == name {
        Some(from)
    } else {
        position_of(snapshots, name, from + 1)
    }
}

fn find_snapshot(snapshots: &Vec<Snapshot>, name: &str) -> (r: Option<usize>)
    ensures
        match r {
            Some(i) => i < snapshots@.len() && position_of(snapshots@, name@, 0) == Some(i as int),
            None => position_of(snapshots@, name@, 0) is None,
        },
{
    let mut i: usize = 0;
    while i < snapshots.len()
        invariant
            i <= snapshots@.len(),
            position_of(snapshots@, name@, 0) == position_of(snapshots@, name@, i as int),
        decreases snapshots@.len() - i,
    {
        if same(snapshots[i].name.as_str(), name) {
            return Some(i);
        }
        i = i + 1;
    }
    None
}

/// What a session that names a snapshot reads, or why it reads nothing. Never the present: a caller
/// who asked for one instant could not tell.
pub open spec fn snapshot_to_read(loaded: Loaded, named: Seq<char>, unsure: Seq<char>) -> Result<int, wire::Refusal> {
    if loaded.complaints@.len() > 0 {
        Err(wire::refused(wire::DATA_EXCEPTION@, unsure))
    } else {
        match position_of(loaded.found@, named, 0) {
            None => Err(no_such_snapshot(named)),
            Some(i) => if loaded.found@[i].standing is Expired {
                Err(wire::refused("42704"@, loaded.found@[i].notice@))
            } else {
                Ok(i)
            },
        }
    }
}

fn choose_snapshot(loaded: &Loaded, named: &str, unsure: &str) -> (r: Result<usize, QueryFailure>)
    ensures
        match r {
            Ok(i) => i < loaded.found@.len() && snapshot_to_read(*loaded, named@, unsure@) == Ok::<int, wire::Refusal>(
                i as int,
            ),
            Err(failure) => snapshot_to_read(*loaded, named@, unsure@) == Err::<int, wire::Refusal>(failure@),
        },
{
    if loaded.complaints.len() > 0 {
        return Err(refusal(wire::DATA_EXCEPTION, unsure));
    }
    match find_snapshot(&loaded.found, named) {
        None => Err(absent_snapshot(named)),
        Some(i) => match loaded.found[i].standing {
            Standing::Expired => Err(refusal("42704", loaded.found[i].notice.as_str())),
            Standing::Live => Ok(i),
        },
    }
}

/// What is said where a session cannot be sure what the snapshot it reads pins.
pub open spec fn unsure_of(loaded: Loaded, named: Seq<char>) -> Seq<char> {
    "a snapshot document could not be read ("@ + first_complaint(loaded)
        + "), so this session cannot be sure what `"@ + named
        + "` pins. Refused rather than answered from what is legible"@
}

/// What is said first of the documents that cannot be read.
pub open spec fn first_complaint(loaded: Loaded) -> Seq<char> {
    if loaded.complaints@.len() > 0 {
        loaded.complaints@[0]@
    } else {
        Seq::empty()
    }
}

fn complaint_text(loaded: &Loaded) -> (r: String)
    ensures
        r@ == first_complaint(*loaded),
{
    if loaded.complaints.len() > 0 {
        loaded.complaints[0].clone()
    } else {
        String::new()
    }
}

/// Which snapshot a session reads as of: none where it names none, and then each table as it asks.
pub fn as_of(named: Option<&str>, loaded: &Loaded) -> (r: Result<Option<usize>, QueryFailure>)
    ensures
        match named {
            None => r matches Ok(None),
            Some(name) => if name@.len() == 0 {
                r matches Ok(None)
            } else {
                match r {
                    Ok(Some(i)) => i < loaded.found@.len() && snapshot_to_read(
                        *loaded,
                        name@,
                        unsure_of(*loaded, name@),
                    ) == Ok::<int, wire::Refusal>(i as int),
                    Ok(None) => false,
                    Err(failure) => snapshot_to_read(*loaded, name@, unsure_of(*loaded, name@)) == Err::<
                        int,
                        wire::Refusal,
                    >(failure@),
                }
            },
        },
{
    match named {
        None => Ok(None),
        Some(name) => {
            if name.is_empty() {
                return Ok(None);
            }
            let mut unsure = "a snapshot document could not be read (".to_string();
            unsure.append(complaint_text(loaded).as_str());
            unsure.append("), so this session cannot be sure what `");
            unsure.append(name);
            unsure.append("` pins. Refused rather than answered from what is legible");
            match choose_snapshot(loaded, name, unsure.as_str()) {
                Ok(i) => Ok(Some(i)),
                Err(failure) => Err(failure),
            }
        },
    }
}

/// The tables a snapshot pins, by position, each with its version.
pub open spec fn tables_pinned(snapshot: Snapshot, tables: Seq<Option<String>>) -> Seq<(int, u64)>
    decreases tables.len(),
{
    if tables.len() == 0 {
        Seq::empty()
    } else {
        let before = tables_pinned(snapshot, tables.drop_last());
        match tables.last() {
            Some(name) => if snapshot.tables@.contains_key(name@) {
                before.push((tables.len() - 1, snapshot.tables@[name@]))
            } else {
                before
            },
            None => before,
        }
    }
}

/// Which tables a session that reads as of a snapshot sees, by position, and each at which version.
/// `tables` are the qualified names of those the server serves. One that the snapshot does not name
/// is left out, so that a statement naming it fails to resolve.
pub fn tables_as_of(snapshot: &Snapshot, tables: &Vec<Option<String>>) -> (r: Vec<(usize, u64)>)
    ensures
        r@.map_values(|t: (usize, u64)| (t.0 as int, t.1)) == tables_pinned(*snapshot, tables@),
{
    let mut r: Vec<(usize, u64)> = Vec::new();
    let mut i: usize = 0;
    assert(r@.map_values(|t: (usize, u64)| (t.0 as int, t.1)) =~= tables_pinned(*snapshot, tables@.take(0)));
    while i < tables.len()
        invariant
            i <= tables@.len(),
            r@.map_values(|t: (usize, u64)| (t.0 as int, t.1)) == tables_pinned(*snapshot, tables@.take(i as int)),
        decreases tables@.len() - i,
    {
        assert(tables@.take(i + 1).drop_last() =~= tables@.take(i as int));
        if let Some(name) = &tables[i] {
            if let Some(version) = snapshot.tables.get(name.as_str()) {
                let ghost was = r@;
                r.push((i, *version));
                assert(r@.map_values(|t: (usize, u64)| (t.0 as int, t.1)) =~= was.map_values(
                    |t: (usize, u64)| (t.0 as int, t.1),
                ).push((i as int, *version)));
            }
        }
        i = i + 1;
    }
    assert(tables@.take(tables@.len() as int) =~= tables@);
    r
}

/// The failure of a table that cannot be read at the version a snapshot pins.
pub fn as_of_failure(qualified: &str, version: u64, named: &str, error: &str) -> (r: QueryFailure)
    ensures
        r@ == wire::refused(
            wire::DATA_EXCEPTION@,
            "`"@ + qualified@ + "` could not be read as of version "@ + numerals::decimal(version as nat)
                + " --- the snapshot `"@ + named@ + "` pins a version this table can no longer produce: "@ + error@,
        ),
{
    let mut message = "`".to_string();
    message.append(qualified);
    message.append("` could not be read as of version ");
    message.append(decimal_text(version).as_str());
    message.append(" --- the snapshot `");
    message.append(named);
    message.append("` pins a version this table can no longer produce: ");
    message.append(error);
    refusal(wire::DATA_EXCEPTION, message.as_str())
}

/// A `SET` or `RESET` as a session reads it.
#[derive(PartialEq, Eq, Debug)]
pub struct SessionSetting {
    /// The setting's name.
    pub name: String,
    /// The value it is given.
    pub value: String,
    /// Whether it is a `RESET`.
    pub reset: bool,
}

/// What a setting amounts to before the session remembers it.
#[derive(Debug)]
pub enum SettingCheck {
    /// It does not name a snapshot to read as of.
    NotASnapshot,
    /// It is refused.
    Refused(QueryFailure),
    /// It names this snapshot; what it pins must be looked at.
    LookAt(usize),
}

/// Whether a setting names a snapshot to read as of.
pub open spec fn sets_snapshot(setting: Option<SessionSetting>) -> bool {
    setting matches Some(s) && !s.reset && text::lower_ascii(s.name@) == "snapshot"@
}

/// Check a setting before the session remembers it: a snapshot that cannot be read as of is refused
/// at the setting, not three statements later.
pub fn check_setting(setting: &Option<SessionSetting>, loaded: &Loaded) -> (r: SettingCheck)
    ensures
        match r {
            SettingCheck::NotASnapshot => !sets_snapshot(*setting),
            SettingCheck::Refused(failure) => sets_snapshot(*setting) && if setting->0.value@.len() == 0 {
                failure@ == wire::refused(
                    wire::SYNTAX_ERROR@,
                    "`SET SNAPSHOT` needs the name of a snapshot. `SHOW SNAPSHOTS` lists them, and `RESET SNAPSHOT` reads the present again"@,
                )
            } else {
                snapshot_to_read(
                    *loaded,
                    setting->0.value@,
                    "a snapshot document could not be read ("@ + first_complaint(*loaded) + ")"@,
                ) == Err::<int, wire::Refusal>(failure@)
            },
            SettingCheck::LookAt(i) => sets_snapshot(*setting) && setting->0.value@.len() > 0 && i < loaded.found@.len()
                && snapshot_to_read(
                *loaded,
                setting->0.value@,
                "a snapshot document could not be read ("@ + first_complaint(*loaded) + ")"@,
            ) == Ok::<int, wire::Refusal>(i as int),
        },
{
    match setting {
        None => SettingCheck::NotASnapshot,
        Some(s) => {
            if s.reset || !same(text::to_lower_ascii(s.name.as_str()).as_str(), "snapshot") {
                return SettingCheck::NotASnapshot;
            }
            if s.value.as_str().is_empty() {
                return SettingCheck::Refused(
                    refusal(
                        wire::SYNTAX_ERROR,
                        "`SET SNAPSHOT` needs the name of a snapshot. `SHOW SNAPSHOTS` lists them, and `RESET SNAPSHOT` reads the present again",
                    ),
                );
            }
            let mut unsure = "a snapshot document could not be read (".to_string();
            unsure.append(complaint_text(loaded).as_str());
            unsure.append(")");
            match choose_snapshot(loaded, s.value.as_str(), unsure.as_str()) {
                Ok(i) => SettingCheck::LookAt(i),
                Err(failure) => SettingCheck::Refused(failure),
            }
        },
    }
}

/// The log of a table a snapshot pins.
#[derive(Debug)]
pub enum PinnedLog {
    /// There is no such table.
    NoTable,
    /// Its log cannot be read.
    Unreadable,
    /// The versions it has.
    Versions(Vec<u64>),
}

/// The newest of some versions, as it is written.
pub open spec fn newest_text(versions: Seq<u64>) -> Seq<char> {
    match newest(versions) {
        Some(version) => numerals::decimal(version as nat),
        None => "none"@,
    }
}

/// The newest of some versions.
pub open spec fn newest(versions: Seq<u64>) -> Option<u64>
    decreases versions.len(),
{
    if versions.len() == 0 {
        None
    } else {
        match newest(versions.drop_last()) {
            Some(version) => if versions.last() > version {
                Some(versions.last())
            } else {
                Some(version)
            },
            None => Some(versions.last()),
        }
    }
}

fn newest_of(versions: &Vec<u64>) -> (r: String)
    ensures
        r@ == newest_text(versions@),
{
    let mut most: Option<u64> = None;
    let mut i: usize = 0;
    while i < versions.len()
        invariant
            i <= versions@.len(),
            most == newest(versions@.take(i as int)),
        decreases versions@.len() - i,
    {
        assert(versions@.take(i + 1).drop_last() =~= versions@.take(i as int));
        most = match most {
            Some(version) => if versions[i] > version {
                Some(versions[i])
            } else {
                Some(version)
            },
            None => Some(versions[i]),
        };
        i = i + 1;
    }
    assert(versions@.take(versions@.len() as int) =~= versions@);
    match most {
        Some(version) => decimal_text(version),
        None => "none".to_string(),
    }
}

/// Why one table stands in the way of reading as of a snapshot, where it does.
pub open spec fn pin_fault(wanted: Seq<char>, table: Seq<char>, version: u64, log: PinnedLog) -> Option<wire::Refusal> {
    match log {
        PinnedLog::NoTable => Some(
            wire::refused(
                "42P01"@,
                "the snapshot `"@ + wanted + "` pins `"@ + table
                    + "`, and there is no such table on this server. Reading as of it would quietly leave that table out"@,
            ),
        ),
        PinnedLog::Unreadable => Some(
            wire::refused(
                wire::DATA_EXCEPTION@,
                "the log of `"@ + table + "`, which `"@ + wanted + "` pins, could not be read"@,
            ),
        ),
        PinnedLog::Versions(versions) => if versions@.contains(version) {
            None
        } else {
            Some(
                wire::refused(
                    "42704"@,
                    "the snapshot `"@ + wanted + "` pins version "@ + numerals::decimal(version as nat) + " of `"@ + table
                        + "`, which that table no longer has — its newest is "@ + newest_text(versions@)
                        + ". Refused rather than served the present: a report quoting this snapshot would silently be about now"@,
                ),
            )
        },
    }
}

fn check_pin(wanted: &str, table: &str, version: u64, log: &PinnedLog) -> (r: Option<QueryFailure>)
    ensures
        match r {
            Some(failure) => pin_fault(wanted@, table@, version, *log) == Some(failure@),
            None => pin_fault(wanted@, table@, version, *log) is None,
        },
{
    match log {
        PinnedLog::NoTable => {
            let mut message = "the snapshot `".to_string();
            message.append(wanted);
            message.append("` pins `");
            message.append(table);
            message.append(
                "`, and there is no such table on this server. Reading as of it would quietly leave that table out",
            );
            Some(refusal("42P01", message.as_str()))
        },
        PinnedLog::Unreadable => {
            let mut message = "the log of `".to_string();
            message.append(table);
            message.append("`, which `");
            message.append(wanted);
            message.append("` pins, could not be read");
            Some(refusal(wire::DATA_EXCEPTION, message.as_str()))
        },
        PinnedLog::Versions(versions) => {
            if holds_version(versions, version) {
                return None;
            }
            let mut message = "the snapshot `".to_string();
            message.append(wanted);
            message.append("` pins version ");
            message.append(decimal_text(version).as_str());
            message.append(" of `");
            message.append(table);
            message.append("`, which that table no longer has — its newest is ");
            message.append(newest_of(versions).as_str());
            message.append(
                ". Refused rather than served the present: a report quoting this snapshot would silently be about now",
            );
            Some(refusal("42704", message.as_str()))
        },
    }
}

/// The first table, from a position on, that stands in the way of reading as of a snapshot.
pub open spec fn first_pin_fault(
    wanted: Seq<char>,
    pins: Seq<(String, u64)>,
    logs: Seq<PinnedLog>,
    from: int,
) -> Option<wire::Refusal>
    decreases pins.len() - from,
{
    if from < 0 || from >= pins.len() {
        None
    } else {
        match pin_fault(wanted, pins[from].0@, pins[from].1, logs[from]) {
            Some(fault) => Some(fault),
            None => first_pin_fault(wanted, pins, logs, from + 1),
        }
    }
}

/// Whether every version a snapshot pins still exists. `logs` are those of the tables it pins, in
/// the order of their names.
pub fn check_pins(wanted: &str, snapshot: &Snapshot, logs: &Vec<PinnedLog>) -> (r: Result<QueryResult, QueryFailure>)
    requires
        logs@.len() == snapshot.tables.listing().len(),
    ensures
        wire::reply(r) == (match first_pin_fault(wanted@, snapshot.tables.listing(), logs@, 0) {
            Some(fault) => Err::<wire::Answer, wire::Refusal>(fault),
            None => Ok(wire::done("SET"@)),
        }),
{
    let pins = snapshot.tables.entries();
    let mut i: usize = 0;
    while i < pins.len()
        invariant
            i <= pins@.len(),
            pins@ == snapshot.tables.listing(),
            logs@.len() == pins@.len(),
            first_pin_fault(wanted@, pins@, logs@, 0) == first_pin_fault(wanted@, pins@, logs@, i as int),
        decreases pins@.len() - i,
    {
        if let Some(failure) = check_pin(wanted, pins[i].0.as_str(), pins[i].1, &logs[i]) {
            return Err(failure);
        }
        i = i + 1;
    }
    Ok(completed("SET"))
}

// --- versions of one table --------------------------------------------------------------------

/// The refusal of a table that is not there, or that the caller may not know of: saying that it may
/// not be asked about would confirm that it is there.
pub open spec fn no_such_table(table: Seq<char>) -> wire::Refusal {
    wire::refused("42P01"@, "there is no table called `"@ + table + "` on this server"@)
}

/// The refusal of a table that is not there, or that the caller may not know of.
pub fn absent_table(table: &str) -> (r: QueryFailure)
    ensures
        r@ == no_such_table(table@),
{
    let mut message = "there is no table called `".to_string();
    message.append(table);
    message.append("` on this server");
    refusal("42P01", message.as_str())
}

/// Refuse a table that is not there or may not be read, in the same words.
pub fn refuse_unless_readable(table: &str, exists: bool, readable: bool) -> (r: Result<(), QueryFailure>)
    ensures
        match r {
            Ok(_) => exists && readable,
            Err(failure) => !(exists && readable) && failure@ == no_such_table(table@),
        },
{
    if exists && readable {
        Ok(())
    } else {
        Err(absent_table(table))
    }
}

/// What changed between two versions of a table, counted from its log.
#[derive(Clone, Copy, PartialEq, Eq, Debug, Structural)]
pub struct Difference {
    /// The commits between them.
    pub commits: u64,
    /// The rows added.
    pub rows_added: u64,
    /// The rows removed.
    pub rows_removed: u64,
    /// The files added.
    pub files_added: u64,
    /// The files removed.
    pub files_removed: u64,
    /// The commits that only rewrote files, counted apart from the numbers beside them.
    pub compactions: u64,
}

/// The answer to a comparison of two versions.
pub open spec fn difference_answer(d: Difference) -> wire::Answer {
    wire::Answer {
        fields: seq![
            ("commits"@, wire::OID_TEXT, wire::VARIES),
            ("rows_added"@, wire::OID_TEXT, wire::VARIES),
            ("rows_removed"@, wire::OID_TEXT, wire::VARIES),
            ("files_added"@, wire::OID_TEXT, wire::VARIES),
            ("files_removed"@, wire::OID_TEXT, wire::VARIES),
            ("compactions"@, wire::OID_TEXT, wire::VARIES),
        ],
        rows: seq![
            wire::texts(
                seq![
                    numerals::decimal(d.commits as nat),
                    numerals::decimal(d.rows_added as nat),
                    numerals::decimal(d.rows_removed as nat),
                    numerals::decimal(d.files_added as nat),
                    numerals::decimal(d.files_removed as nat),
                    numerals::decimal(d.compactions as nat),
                ],
            ),
        ],
        tag: "SHOW"@,
    }
}

/// The answer to a comparison of two versions of a table, given what the log says or why it cannot
/// be compared.
pub fn changes_between(difference: Result<Difference, &str>) -> (r: Result<QueryResult, QueryFailure>)
    ensures
        wire::reply(r) == (match difference {
            Ok(d) => Ok::<wire::Answer, wire::Refusal>(difference_answer(d)),
            Err(why) => Err(wire::refused(wire::DATA_EXCEPTION@, why@)),
        }),
{
    let d = match difference {
        Ok(d) => d,
        Err(why) => {
            return Err(refusal(wire::DATA_EXCEPTION, why));
        },
    };
    let mut fields: Vec<FieldDescription> = Vec::new();
    fields.push(FieldDescription::text("commits", wire::OID_TEXT, wire::VARIES));
    fields.push(FieldDescription::text("rows_added", wire::OID_TEXT, wire::VARIES));
    fields.push(FieldDescription::text("rows_removed", wire::OID_TEXT, wire::VARIES));
    fields.push(FieldDescription::text("files_added", wire::OID_TEXT, wire::VARIES));
    fields.push(FieldDescription::text("files_removed", wire::OID_TEXT, wire::VARIES));
    fields.push(FieldDescription::text("compactions", wire::OID_TEXT, wire::VARIES));
    let mut cells: Vec<String> = Vec::new();
    cells.push(decimal_text(d.commits));
    cells.push(decimal_text(d.rows_added));
    cells.push(decimal_text(d.rows_removed));
    cells.push(decimal_text(d.files_added));
    cells.push(decimal_text(d.files_removed));
    cells.push(decimal_text(d.compactions));
    let row = text_row(cells);
    assert(wire::row(row) =~= difference_answer(d).rows[0]);
    let mut rows: Vec<Vec<Option<String>>> = Vec::new();
    rows.push(row);
    let r = QueryResult { fields, rows, tag: "SHOW".to_string() };
    assert(r@.fields =~= difference_answer(d).fields);
    assert(r@.rows =~= difference_answer(d).rows);
    Ok(r)
}

/// One commit of a table.
#[derive(PartialEq, Eq, Debug)]
pub struct Change {
    /// The version it made.
    pub version: u64,
    /// What it did, in words.
    pub what: String,
    /// When, where it is known.
    pub at: Option<i64>,
    /// The files it added.
    pub added: u64,
    /// The files it removed.
    pub removed: u64,
    /// The bytes it added.
    pub bytes_added: u64,
    /// Whether it changed the data.
    pub changed_data: bool,
}

/// What is shown of a commit: `kept_by` is what keeps its version alive.
pub open spec fn change_row(change: Change, kept_by: Seq<char>) -> Seq<Option<Seq<char>>> {
    seq![
        Some(numerals::decimal(change.version as nat)),
        Some(change.what@),
        match change.at {
            Some(at) => Some(numerals::signed_decimal(at as int)),
            None => None,
        },
        Some(numerals::decimal(change.added as nat)),
        Some(numerals::decimal(change.removed as nat)),
        Some(numerals::decimal(change.bytes_added as nat)),
        Some(
            if change.changed_data {
                "yes"@
            } else {
                "no"@
            },
        ),
        Some(kept_by),
    ]
}

/// The columns of a table's history.
pub open spec fn history_columns() -> Seq<(Seq<char>, i32, i16)> {
    seq![
        ("version"@, wire::OID_INT8, 8i16),
        ("what"@, wire::OID_TEXT, wire::VARIES),
        ("at"@, wire::OID_INT8, 8i16),
        ("files_added"@, wire::OID_INT8, 8i16),
        ("files_removed"@, wire::OID_INT8, 8i16),
        ("bytes_added"@, wire::OID_INT8, 8i16),
        ("changed_data"@, wire::OID_TEXT, wire::VARIES),
        ("kept_by"@, wire::OID_TEXT, wire::VARIES),
    ]
}

/// Whether a row shows a commit with exactly the names that keep its version alive, in order.
pub open spec fn shows_change(row: Seq<Option<Seq<char>>>, change: Change, keepers: Seq<(u64, String)>) -> bool {
    exists|listed: Seq<Seq<char>>| #[trigger]
        keeper_names(keepers, change.version, listed) && row == change_row(change, text::joined(listed, ", "@))
}

/// The failure of a table whose log cannot be read.
pub open spec fn unreadable_history(table: Seq<char>, why: Seq<char>) -> wire::Refusal {
    wire::refused(
        wire::DATA_EXCEPTION@,
        "the log of `"@ + table + "` could not be read: "@ + why
            + ". Refused rather than summarised as empty --- a table with no history and a history nobody can read lead to opposite actions"@,
    )
}

/// The history of a table: its commits, and by name what keeps each version alive. Pinned is all
/// that is said: a version that nothing pins may still be there, but nobody promises it.
pub fn history_of(table: &str, changes: Result<&Vec<Change>, &str>, keepers: &Vec<(u64, String)>) -> (r: Result<
    QueryResult,
    QueryFailure,
>)
    ensures
        match changes {
            Err(why) => r matches Err(failure) && failure@ == unreadable_history(table@, why@),
            Ok(commits) => r matches Ok(result) && {
                &&& result@.fields == history_columns()
                &&& result@.tag == "SELECT "@ + numerals::decimal(commits@.len())
                &&& result@.rows.len() == commits@.len()
                &&& forall|i: int|
                    0 <= i < commits@.len() ==> shows_change(#[trigger] result@.rows[i], commits@[i], keepers@)
            },
        },
{
    let commits = match changes {
        Ok(commits) => commits,
        Err(why) => {
            let mut message = "the log of `".to_string();
            message.append(table);
            message.append("` could not be read: ");
            message.append(why);
            message.append(
                ". Refused rather than summarised as empty --- a table with no history and a history nobody can read lead to opposite actions",
            );
            return Err(refusal(wire::DATA_EXCEPTION, message.as_str()));
        },
    };
    let mut rows: Vec<Vec<Option<String>>> = Vec::new();
    let mut i: usize = 0;
    while i < commits.len()
        invariant
            i <= commits@.len(),
            rows@.len() == i,
            forall|k: int| 0 <= k < i ==> shows_change(wire::row(#[trigger] rows@[k]), commits@[k], keepers@),
        decreases commits@.len() - i,
    {
        let c = &commits[i];
        let listed = keepers_of(keepers, c.version);
        let kept_by = join(&listed, ", ");
        let mut row: Vec<Option<String>> = Vec::new();
        row.push(Some(decimal_text(c.version)));
        row.push(Some(c.what.clone()));
        match c.at {
            Some(at) => row.push(Some(signed_text(at))),
            None => row.push(None),
        }
        row.push(Some(decimal_text(c.added)));
        row.push(Some(decimal_text(c.removed)));
        row.push(Some(decimal_text(c.bytes_added)));
        if c.changed_data {
            row.push(Some("yes".to_string()));
        } else {
            row.push(Some("no".to_string()));
        }
        row.push(Some(kept_by));
        assert(wire::row(row) =~= change_row(*c, text::joined(text::views(listed@), ", "@)));
        assert(shows_change(wire::row(row), *c, keepers@));
        rows.push(row);
        i = i + 1;
    }
    let mut fields: Vec<FieldDescription> = Vec::new();
    fields.push(FieldDescription::text("version", wire::OID_INT8, 8));
    fields.push(FieldDescription::text("what", wire::OID_TEXT, wire::VARIES));
    fields.push(FieldDescription::text("at", wire::OID_INT8, 8));
    fields.push(FieldDescription::text("files_added", wire::OID_INT8, 8));
    fields.push(FieldDescription::text("files_removed", wire::OID_INT8, 8));
    fields.push(FieldDescription::text("bytes_added", wire::OID_INT8, 8));
    fields.push(FieldDescription::text("changed_data", wire::OID_TEXT, wire::VARIES));
    fields.push(FieldDescription::text("kept_by", wire::OID_TEXT, wire::VARIES));
    let mut tag = "SELECT ".to_string();
    tag.append(decimal_text(commits.len() as u64).as_str());
    let r = QueryResult { fields, rows, tag };
    assert(r@.fields =~= history_columns());
    Ok(r)
}

/// What is known of the version a session asks to read a table at.
#[derive(Debug)]
pub enum Wanted {
    /// The present, which always works.
    Present,
    /// A version, of a table whose log cannot be read, for this reason.
    NoLog(u64, String),
    /// A version, of a table that has these.
    Among(u64, Vec<u64>),
}

/// What a check of a version comes to.
#[derive(Debug)]
pub enum VersionCheck {
    /// It is answered.
    Answered(Result<QueryResult, QueryFailure>),
    /// The version is there; its files must be looked at.
    LookAtFiles(u64),
}

/// The refusal of a version that a table does not have.
pub open spec fn no_such_version(table: Seq<char>, version: u64, versions: Seq<u64>) -> wire::Refusal {
    wire::refused(
        "42704"@,
        "`"@ + table + "` has no version "@ + numerals::decimal(version as nat) + ". Its newest is "@ + newest_text(
            versions,
        ) + ". `SHOW HISTORY OF "@ + table + "` lists every version it has, and which are pinned"@,
    )
}

/// Check the version a session asks to read a table at, before the session remembers it. A version
/// beyond the log is refused: it would be served as the newest.
pub fn read_version(table: &str, wanted: &Wanted) -> (r: VersionCheck)
    ensures
        match wanted {
            Wanted::Present => r matches VersionCheck::Answered(Ok(result)) && result@ == wire::done("SET"@),
            Wanted::NoLog(_, why) => r matches VersionCheck::Answered(Err(failure)) && failure@ == wire::refused(
                wire::DATA_EXCEPTION@,
                "the log of `"@ + table@ + "` could not be read: "@ + why@,
            ),
            Wanted::Among(version, versions) => if versions@.contains(*version) {
                r matches VersionCheck::LookAtFiles(v) && v == version
            } else {
                r matches VersionCheck::Answered(Err(failure)) && failure@ == no_such_version(
                    table@,
                    *version,
                    versions@,
                )
            },
        },
{
    match wanted {
        Wanted::Present => VersionCheck::Answered(Ok(completed("SET"))),
        Wanted::NoLog(_, why) => {
            let mut message = "the log of `".to_string();
            message.append(table);
            message.append("` could not be read: ");
            message.append(why.as_str());
            VersionCheck::Answered(Err(refusal(wire::DATA_EXCEPTION, message.as_str())))
        },
        Wanted::Among(version, versions) => {
            if holds_version(versions, *version) {
                return VersionCheck::LookAtFiles(*version);
            }
            let mut message = "`".to_string();
            message.append(table);
            message.append("` has no version ");
            message.append(decimal_text(*version).as_str());
            message.append(". Its newest is ");
            message.append(newest_of(versions).as_str());
            message.append(". `SHOW HISTORY OF ");
            message.append(table);
            message.append("` lists every version it has, and which are pinned");
            VersionCheck::Answered(Err(refusal("42704", message.as_str())))
        },
    }
}

/// The refusal of a version whose data is gone.
pub open spec fn reclaimed(table: Seq<char>, version: u64, missing: int, files: int) -> wire::Refusal {
    wire::refused(
        "42704"@,
        "version "@ + numerals::decimal(version as nat) + " of `"@ + table + "` is in the log and its data is not: "@
            + numerals::decimal(missing as nat) + " of its "@ + numerals::decimal(files as nat)
            + " file(s) have been reclaimed. A version survives only while a snapshot or a clone keeps it, and nothing kept this one. `SHOW HISTORY OF "@
            + table + "` shows which versions are pinned"@,
    )
}

/// How many of these are false.
pub open spec fn count_false(flags: Seq<bool>) -> nat
    decreases flags.len(),
{
    if flags.len() == 0 {
        0
    } else {
        count_false(flags.drop_last()) + (if flags.last() {
            0nat
        } else {
            1
        })
    }
}

/// Check that every file of a version is still there. `files` says of each whether it is, or why
/// the version cannot be resolved. A version some of whose files are gone is refused, never
/// answered short.
pub fn check_version_files(table: &str, version: u64, files: Result<&Vec<bool>, &str>) -> (r: Result<
    QueryResult,
    QueryFailure,
>)
    ensures
        wire::reply(r) == (match files {
            Err(why) => Err::<wire::Answer, wire::Refusal>(
                wire::refused(
                    wire::DATA_EXCEPTION@,
                    "version "@ + numerals::decimal(version as nat) + " of `"@ + table@ + "` could not be resolved: "@
                        + why@,
                ),
            ),
            Ok(there) => if count_false(there@) > 0 {
                Err(reclaimed(table@, version, count_false(there@) as int, there@.len() as int))
            } else {
                Ok(wire::done("SET"@))
            },
        }),
{
    let there = match files {
        Ok(there) => there,
        Err(why) => {
            let mut message = "version ".to_string();
            message.append(decimal_text(version).as_str());
            message.append(" of `");
            message.append(table);
            message.append("` could not be resolved: ");
            message.append(why);
            return Err(refusal(wire::DATA_EXCEPTION, message.as_str()));
        },
    };
    let mut missing: u64 = 0;
    let mut i: usize = 0;
    while i < there.len()
        invariant
            i <= there@.len(),
            missing <= i,
            missing == count_false(there@.take(i as int)),
        decreases there@.len() - i,
    {
        assert(there@.take(i + 1).drop_last() =~= there@.take(i as int));
        if !there[i] {
            missing = missing + 1;
        }
        i = i + 1;
    }
    assert(there@.take(there@.len() as int) =~= there@);
    if missing > 0 {
        let mut message = "version ".to_string();
        message.append(decimal_text(version).as_str());
        message.append(" of `");
        message.append(table);
        message.append("` is in the log and its data is not: ");
        message.append(decimal_text(missing).as_str());
        message.append(" of its ");
        message.append(decimal_text(there.len() as u64).as_str());
        message.append(
            " file(s) have been reclaimed. A version survives only while a snapshot or a clone keeps it, and nothing kept this one. `SHOW HISTORY OF ",
        );
        message.append(table);
        message.append("` shows which versions are pinned");
        return Err(refusal("42704", message.as_str()));
    }
    Ok(completed("SET"))
}

/// The setting a session keeps a table's version under. No setting a driver sends bears such a name.
pub open spec fn version_key(table: Seq<char>) -> Seq<char> {
    "version of "@ + text::lowercase(table)
}

/// The setting a session keeps a table's version under.
#[must_use]
pub fn version_setting(table: &str) -> (r: String)
    ensures
        r@ == version_key(table@),
{
    let mut r = "version of ".to_string();
    r.append(to_lower(table).as_str());
    r
}

/// The version a session asks to read a table at, by either of its names, where it asks for one
/// that is a number.
pub open spec fn version_asked(
    settings: Map<Seq<char>, Seq<char>>,
    qualified: Option<Seq<char>>,
    table: Seq<char>,
) -> Option<int> {
    match qualified {
        None => None,
        Some(name) => if settings.contains_key(version_key(name)) {
            numerals::natural(settings[version_key(name)], u64::MAX as int)
        } else if settings.contains_key(version_key(table)) {
            numerals::natural(settings[version_key(table)], u64::MAX as int)
        } else {
            None
        },
    }
}

/// At which version a session reads each table: none for the present. `tables` are the qualified
/// name, where there is one, and the bare name of each.
pub fn at_versions(tables: &Vec<(Option<String>, String)>, settings: &Configuration) -> (r: Vec<Option<u64>>)
    ensures
        r@.len() == tables@.len(),
        forall|i: int|
            0 <= i < tables@.len() ==> match #[trigger] r@[i] {
                Some(version) => version_asked(settings@, wire::cell(tables@[i].0), tables@[i].1@) == Some(
                    version as int,
                ),
                None => version_asked(settings@, wire::cell(tables@[i].0), tables@[i].1@) is None,
            },
{
    let mut r: Vec<Option<u64>> = Vec::new();
    let mut i: usize = 0;
    while i < tables.len()
        invariant
            i <= tables@.len(),
            r@.len() == i,
            forall|k: int|
                0 <= k < i ==> match #[trigger] r@[k] {
                    Some(version) => version_asked(settings@, wire::cell(tables@[k].0), tables@[k].1@) == Some(
                        version as int,
                    ),
                    None => version_asked(settings@, wire::cell(tables@[k].0), tables@[k].1@) is None,
                },
        decreases tables@.len() - i,
    {
        let asked: Option<u64> = match &tables[i].0 {
            None => None,
            Some(name) => match settings.get(version_setting(name.as_str()).as_str()) {
                Some(value) => parse_natural(value.as_str()),
                None => match settings.get(version_setting(tables[i].1.as_str()).as_str()) {
                    Some(value) => parse_natural(value.as_str()),
                    None => None,
                },
            },
        };
        r.push(asked);
        i = i + 1;
    }
    r
}

/// The failure of a table that cannot be read at the version a session asks for.
pub fn at_version_failure(qualified: &str, version: u64, error: &str) -> (r: QueryFailure)
    ensures
        r@ == wire::refused(
            wire::DATA_EXCEPTION@,
            "`"@ + qualified@ + "` could not be read at version "@ + numerals::decimal(version as nat) + ": "@ + error@,
        ),
{
    let mut message = "`".to_string();
    message.append(qualified);
    message.append("` could not be read at version ");
    message.append(decimal_text(version).as_str());
    message.append(": ");
    message.append(error);
    refusal(wire::DATA_EXCEPTION, message.as_str())
}

/// Whether an observed table is one that a pass takes down: the caller may read it, it has a qualified
/// name, and it stands at a version.
pub open spec fn observed_at(table: Observed, name: Seq<char>, version: u64) -> bool {
    table.readable && (table.qualified matches Some(q) && q@ == name) && table.version == Some(version)
}

/// A pass takes down exactly the tables that the caller may read, each under its name and at the version
/// it stands at, in their order: `at` is where each stood. What the caller may not read is not in it.
pub proof fn passes_take_what_is_readable(tables: Seq<Observed>) -> (at: Seq<int>)
    ensures
        at.len() == readable_versions(tables).len(),
        forall|k: int| 0 <= k < at.len() ==> 0 <= #[trigger] at[k] < tables.len(),
        forall|j: int, k: int| 0 <= j < k < at.len() ==> #[trigger] at[j] < #[trigger] at[k],
        forall|k: int|
            0 <= k < at.len() ==> observed_at(
                tables[at[k]],
                (#[trigger] readable_versions(tables)[k]).0,
                readable_versions(tables)[k].1,
            ),
        forall|i: int, name: Seq<char>, version: u64|
            0 <= i < tables.len() && #[trigger] observed_at(tables[i], name, version) ==> at.contains(i)
                && readable_versions(tables).contains((name, version)),
    decreases tables.len(),
{
    if tables.len() == 0 {
        Seq::empty()
    } else {
        let before = tables.drop_last();
        let last = tables.last();
        let n = tables.len() - 1;
        let was = passes_take_what_is_readable(before);
        let earlier = readable_versions(before);
        let all = readable_versions(tables);
        let taken = last.readable && last.qualified is Some && last.version is Some;
        let at = if taken {
            was.push(n)
        } else {
            was
        };
        assert forall|i: int, name: Seq<char>, version: u64|
            0 <= i < tables.len() && #[trigger] observed_at(tables[i], name, version) implies at.contains(i)
            && all.contains((name, version)) by {
            if i < n {
                assert(observed_at(before[i], name, version));
                let k = choose|k: int| 0 <= k < was.len() && was[k] == i;
                assert(at[k] == i);
                let m = choose|m: int| 0 <= m < earlier.len() && earlier[m] == (name, version);
                assert(all[m] == (name, version));
            } else {
                assert(at[at.len() - 1] == i);
                assert(all[all.len() - 1] == (name, version));
            }
        }
        assert forall|k: int| 0 <= k < at.len() implies observed_at(
            tables[at[k]],
            (#[trigger] all[k]).0,
            all[k].1,
        ) by {
            if k < was.len() {
                assert(all[k] == earlier[k]);
                assert(before[was[k]] == tables[at[k]]);
            }
        }
        at
    }
}

/// The snapshots that are held are those whose documents could be read, in order.
pub proof fn legible_snapshots_are_held(documents: Seq<(String, Result<Snapshot, String>)>)
    ensures
        lists::picked_from(documents, held(documents), |d: (String, Result<Snapshot, String>), s: Snapshot| d.1 == Ok::<Snapshot, String>(s)),
    decreases documents.len(),
{
    let p = |d: (String, Result<Snapshot, String>), s: Snapshot| d.1 == Ok::<Snapshot, String>(s);
    if documents.len() == 0 {
        lists::lemma_picked_none::<(String, Result<Snapshot, String>), Snapshot>(p);
        assert(documents =~= Seq::empty());
    } else {
        legible_snapshots_are_held(documents.drop_last());
        let earlier = held(documents.drop_last());
        let last = documents.last();
        match last.1 {
            Ok(snapshot) => {
                lists::lemma_picked_one(documents, earlier, p, snapshot);
            },
            Err(_) => {
                lists::lemma_passed_over(documents, earlier, p);
            },
        }
    }
}

/// Each document that could not be read is complained of, with its place and the reason.
pub proof fn illegible_snapshots_are_said(documents: Seq<(String, Result<Snapshot, String>)>)
    ensures
        lists::picked_from(documents, complaints(documents), |d: (String, Result<Snapshot, String>), c: Seq<char>| d.1 matches Err(why)
            && c == d.0@ + ": "@ + why@),
    decreases documents.len(),
{
    let p = |d: (String, Result<Snapshot, String>), c: Seq<char>| d.1 matches Err(why) && c == d.0@ + ": "@ + why@;
    if documents.len() == 0 {
        lists::lemma_picked_none::<(String, Result<Snapshot, String>), Seq<char>>(p);
        assert(documents =~= Seq::empty());
    } else {
        illegible_snapshots_are_said(documents.drop_last());
        let earlier = complaints(documents.drop_last());
        let last = documents.last();
        match last.1 {
            Ok(_) => {
                lists::lemma_passed_over(documents, earlier, p);
            },
            Err(why) => {
                lists::lemma_picked_one(documents, earlier, p, last.0@ + ": "@ + why@);
            },
        }
    }
}

/// The pinned versions of a table are those that live snapshots name for it, each once, and no others.
pub proof fn pins_are_what_live_snapshots_name(snapshots: Seq<Snapshot>, table: Seq<char>)
    ensures
        forall|version: u64| #[trigger]
            pins_of(snapshots, table).contains(version) <==> exists|i: int|
                0 <= i < snapshots.len() && (#[trigger] snapshots[i]).standing is Live
                    && snapshots[i].tables@.contains_key(table) && snapshots[i].tables@[table] == version,
        pins_of(snapshots, table).no_duplicates(),
    decreases snapshots.len(),
{
    if snapshots.len() > 0 {
        let before = snapshots.drop_last();
        let last = snapshots.last();
        pins_are_what_live_snapshots_name(before, table);
        let earlier = pins_of(before, table);
        let all = pins_of(snapshots, table);
        assert forall|version: u64| #[trigger] all.contains(version) <==> exists|i: int|
            0 <= i < snapshots.len() && (#[trigger] snapshots[i]).standing is Live
                && snapshots[i].tables@.contains_key(table) && snapshots[i].tables@[table] == version by {
            if earlier.contains(version) {
                let i = choose|i: int|
                    0 <= i < before.len() && (#[trigger] before[i]).standing is Live
                        && before[i].tables@.contains_key(table) && before[i].tables@[table] == version;
                assert(snapshots[i] == before[i]);
                let k = choose|k: int| 0 <= k < earlier.len() && earlier[k] == version;
                assert(all[k] == version);
            } else {
                if all.contains(version) {
                    let k = choose|k: int| 0 <= k < all.len() && all[k] == version;
                    if k < earlier.len() {
                        assert(earlier[k] == version);
                    }
                    assert(snapshots[snapshots.len() - 1] == last);
                }
                if exists|i: int|
                    0 <= i < snapshots.len() && (#[trigger] snapshots[i]).standing is Live
                        && snapshots[i].tables@.contains_key(table) && snapshots[i].tables@[table] == version {
                    let i = choose|i: int|
                        0 <= i < snapshots.len() && (#[trigger] snapshots[i]).standing is Live
                            && snapshots[i].tables@.contains_key(table) && snapshots[i].tables@[table] == version;
                    if i < before.len() {
                        assert(before[i] == snapshots[i]);
                    } else {
                        assert(all[all.len() - 1] == version);
                    }
                }
            }
        }
    }
}

/// What is pinned is found by where each table lies: every table that lies somewhere has its versions
/// under its place, and nothing is under a place that no table lies at.
pub proof fn pins_lie_where_their_tables_do(pins: Seq<(String, Vec<u64>)>, at: Seq<Resolved>)
    requires
        at.len() == pins.len(),
    ensures
        forall|i: int| #![trigger at[i]]
            0 <= i < at.len() ==> (at[i] matches Resolved::One(place) ==> pinned_by_root(pins, at).contains_key(
                warehouse::written(place@),
            )),
        forall|root: Seq<char>| #[trigger]
            pinned_by_root(pins, at).contains_key(root) ==> exists|i: int|
                0 <= i < at.len() && (#[trigger] at[i] matches Resolved::One(place) && warehouse::written(place@) == root)
                    && pinned_by_root(pins, at)[root] == pins[i].1,
    decreases pins.len(),
{
    if pins.len() > 0 {
        let (p, a) = (pins.drop_last(), at.drop_last());
        pins_lie_where_their_tables_do(p, a);
        let before = pinned_by_root(p, a);
        let all = pinned_by_root(pins, at);
        assert forall|i: int| #![trigger at[i]] 0 <= i < at.len() implies (at[i] matches Resolved::One(place)
            ==> all.contains_key(warehouse::written(place@))) by {
            if i < a.len() {
                assert(a[i] == at[i]);
            }
        }
        assert forall|root: Seq<char>| #[trigger] all.contains_key(root) implies exists|i: int|
            0 <= i < at.len() && (#[trigger] at[i] matches Resolved::One(place) && warehouse::written(place@) == root)
                && all[root] == pins[i].1 by {
            let n = at.len() - 1;
            if at[n] matches Resolved::One(place) && warehouse::written(place@) == root {
                assert(all[root] == pins[n].1);
            } else {
                assert(before.contains_key(root));
                let i = choose|i: int|
                    0 <= i < a.len() && (#[trigger] a[i] matches Resolved::One(place) && warehouse::written(place@)
                        == root) && before[root] == p[i].1;
                assert(at[i] == a[i] && pins[i] == p[i]);
            }
        }
    }
}

/// A pin whose table could be several is said to be, so that nothing is reclaimed from under it unseen.
pub proof fn ambiguous_pins_are_said(pins: Seq<(String, Vec<u64>)>, at: Seq<Resolved>, i: int)
    requires
        at.len() == pins.len(),
        0 <= i < at.len(),
        at[i] is Ambiguous,
    ensures
        exists|k: int|
            0 <= k < ambiguities(pins, at).len() && text::holds(#[trigger] ambiguities(pins, at)[k], pins[i].0@),
    decreases pins.len(),
{
    let (p, a) = (pins.drop_last(), at.drop_last());
    let before = ambiguities(p, a);
    let all = ambiguities(pins, at);
    if i == at.len() - 1 {
        let said = all[all.len() - 1];
        let head = "the snapshot of `"@;
        let n = head.len() as int;
        let name = pins[i].0@;
        assert(said.subrange(n, n + name.len()) =~= name);
        assert(text::stands_at(said, name, n));
        assert(text::holds(said, name));
    } else {
        assert(a[i] == at[i] && p[i] == pins[i]);
        ambiguous_pins_are_said(p, a, i);
        let k = choose|k: int| 0 <= k < before.len() && text::holds(#[trigger] before[k], pins[i].0@);
        assert(all[k] == before[k]);
    }
}

/// Whether a snapshot that has not expired pins a version of the table at a root, by the name it has it
/// under.
pub open spec fn keeps_alive(
    snapshot: Snapshot,
    at: Seq<Resolved>,
    root: (bool, Seq<Seq<char>>),
    keeper: (u64, Seq<char>),
) -> bool {
    &&& snapshot.standing is Live
    &&& keeper.1 == snapshot.name@
    &&& exists|k: int|
        0 <= k < at.len() && (#[trigger] at[k] matches Resolved::One(place) && place@ == root)
            && snapshot.tables.listing()[k].1 == keeper.0
}

proof fn lemma_pins_at(tables: Seq<(String, u64)>, at: Seq<Resolved>, root: (bool, Seq<Seq<char>>), name: Seq<char>)
    requires
        at.len() == tables.len(),
    ensures
        forall|keeper: (u64, Seq<char>)| #[trigger]
            pins_at(tables, at, root, name).contains(keeper) <==> keeper.1 == name && exists|k: int|
                0 <= k < at.len() && (#[trigger] at[k] matches Resolved::One(place) && place@ == root) && tables[k].1
                    == keeper.0,
    decreases at.len(),
{
    if at.len() > 0 {
        let (t, a) = (tables.drop_last(), at.drop_last());
        lemma_pins_at(t, a, root, name);
        let before = pins_at(t, a, root, name);
        let all = pins_at(tables, at, root, name);
        let n = at.len() - 1;
        assert forall|keeper: (u64, Seq<char>)| #[trigger] all.contains(keeper) <==> keeper.1 == name && exists|k: int|
            0 <= k < at.len() && (#[trigger] at[k] matches Resolved::One(place) && place@ == root) && tables[k].1
                == keeper.0 by {
            if before.contains(keeper) {
                let m = choose|m: int| 0 <= m < before.len() && before[m] == keeper;
                assert(all[m] == keeper);
                let k = choose|k: int|
                    0 <= k < a.len() && (#[trigger] a[k] matches Resolved::One(place) && place@ == root) && t[k].1
                        == keeper.0;
                assert(at[k] == a[k] && tables[k] == t[k]);
            } else {
                if all.contains(keeper) {
                    let m = choose|m: int| 0 <= m < all.len() && all[m] == keeper;
                    if m < before.len() {
                        assert(before[m] == keeper);
                    }
                    assert(at[n] matches Resolved::One(place) && place@ == root);
                }
                if keeper.1 == name && exists|k: int|
                    0 <= k < at.len() && (#[trigger] at[k] matches Resolved::One(place) && place@ == root) && tables[k].1
                        == keeper.0 {
                    let k = choose|k: int|
                        0 <= k < at.len() && (#[trigger] at[k] matches Resolved::One(place) && place@ == root)
                            && tables[k].1 == keeper.0;
                    if k < n {
                        assert(a[k] == at[k] && t[k] == tables[k]);
                    } else {
                        assert(all[all.len() - 1] == keeper);
                    }
                }
            }
        }
    }
}

/// What keeps a version alive is exactly the live snapshots that pin it, each under its own name and found
/// by where its table lies.
pub proof fn versions_are_kept_by_live_pins(
    snapshots: Seq<Snapshot>,
    at: Seq<Vec<Resolved>>,
    root: (bool, Seq<Seq<char>>),
)
    requires
        at.len() == snapshots.len(),
        forall|i: int| 0 <= i < snapshots.len() ==> (#[trigger] at[i])@.len() == snapshots[i].tables.listing().len(),
    ensures
        forall|keeper: (u64, Seq<char>)| #[trigger]
            kept_by_snapshots(snapshots, at, root).contains(keeper) <==> exists|i: int|
                0 <= i < snapshots.len() && keeps_alive(#[trigger] snapshots[i], at[i]@, root, keeper),
    decreases snapshots.len(),
{
    if snapshots.len() > 0 {
        let (s, a) = (snapshots.drop_last(), at.drop_last());
        let n = snapshots.len() - 1;
        let last = snapshots.last();
        assert forall|i: int| 0 <= i < s.len() implies (#[trigger] a[i])@.len() == s[i].tables.listing().len() by {
            assert(a[i] == at[i] && s[i] == snapshots[i]);
        }
        assert(at[n]@.len() == snapshots[n].tables.listing().len());
        versions_are_kept_by_live_pins(s, a, root);
        lemma_pins_at(last.tables.listing(), at.last()@, root, last.name@);
        let before = kept_by_snapshots(s, a, root);
        let here = pins_at(last.tables.listing(), at.last()@, root, last.name@);
        let all = kept_by_snapshots(snapshots, at, root);
        assert forall|keeper: (u64, Seq<char>)| #[trigger] all.contains(keeper) <==> exists|i: int|
            0 <= i < snapshots.len() && keeps_alive(#[trigger] snapshots[i], at[i]@, root, keeper) by {
            if all.contains(keeper) {
                let m = choose|m: int| 0 <= m < all.len() && all[m] == keeper;
                if m < before.len() {
                    assert(before[m] == keeper);
                    assert(before.contains(keeper));
                    let i = choose|i: int| 0 <= i < s.len() && keeps_alive(#[trigger] s[i], a[i]@, root, keeper);
                    assert(snapshots[i] == s[i] && at[i] == a[i]);
                } else {
                    assert(here[m - before.len()] == keeper);
                    assert(here.contains(keeper));
                    assert(keeps_alive(snapshots[n], at[n]@, root, keeper));
                }
            }
            if exists|i: int| 0 <= i < snapshots.len() && keeps_alive(#[trigger] snapshots[i], at[i]@, root, keeper) {
                let i = choose|i: int|
                    0 <= i < snapshots.len() && keeps_alive(#[trigger] snapshots[i], at[i]@, root, keeper);
                if i < n {
                    assert(snapshots[i] == s[i] && at[i] == a[i]);
                    assert(keeps_alive(s[i], a[i]@, root, keeper));
                    assert(before.contains(keeper));
                    let m = choose|m: int| 0 <= m < before.len() && before[m] == keeper;
                    assert(all[m] == keeper);
                } else {
                    assert(here.contains(keeper));
                    let m = choose|m: int| 0 <= m < here.len() && here[m] == keeper;
                    assert(all[before.len() + m] == keeper);
                }
            }
        }
    }
}

/// A snapshot records every table of the pass it was taken from, at the version it stood at, and nothing
/// else, where no name occurs twice.
pub proof fn snapshots_record_their_pass(versions: Seq<(Seq<char>, u64)>)
    requires
        forall|i: int, j: int|
            0 <= i < versions.len() && 0 <= j < versions.len() && (#[trigger] versions[i]).0 == (
            #[trigger] versions[j]).0 ==> i == j,
    ensures
        forall|i: int|
            0 <= i < versions.len() ==> versions_map(versions).contains_key((#[trigger] versions[i]).0) && versions_map(
                versions,
            )[versions[i].0] == versions[i].1,
        forall|name: Seq<char>| #[trigger]
            versions_map(versions).contains_key(name) ==> exists|i: int|
                0 <= i < versions.len() && (#[trigger] versions[i]).0 == name,
    decreases versions.len(),
{
    if versions.len() > 0 {
        let before = versions.drop_last();
        assert forall|i: int, j: int|
            0 <= i < before.len() && 0 <= j < before.len()
                && (#[trigger] before[i]).0 == (#[trigger] before[j]).0 implies i
            == j by {
            assert(versions[i].0 == versions[j].0);
        }
        snapshots_record_their_pass(before);
        let all = versions_map(versions);
        assert forall|i: int| 0 <= i < versions.len() implies all.contains_key((#[trigger] versions[i]).0)
            && all[versions[i].0] == versions[i].1 by {
            if i < before.len() {
                assert(before[i] == versions[i]);
                if versions[i].0 == versions[versions.len() - 1].0 {
                    assert(false);
                }
            }
        }
        assert forall|name: Seq<char>| #[trigger] all.contains_key(name) implies exists|i: int|
            0 <= i < versions.len() && (#[trigger] versions[i]).0 == name by {
            if name == versions.last().0 {
                assert(versions[versions.len() - 1].0 == name);
            } else {
                assert(versions_map(before).contains_key(name));
                let i = choose|i: int| 0 <= i < before.len() && (#[trigger] before[i]).0 == name;
                assert(versions[i].0 == name);
            }
        }
    }
}

/// The snapshot of a name is the first that bears it.
pub proof fn snapshots_are_found_by_name(snapshots: Seq<Snapshot>, name: Seq<char>, from: int)
    requires
        0 <= from,
    ensures
        match position_of(snapshots, name, from) {
            Some(i) => from <= i < snapshots.len() && snapshots[i].name@ == name && forall|k: int|
                from <= k < i ==> (#[trigger] snapshots[k]).name@ != name,
            None => forall|k: int| from <= k < snapshots.len() ==> (#[trigger] snapshots[k]).name@ != name,
        },
    decreases snapshots.len() - from,
{
    if from < snapshots.len() && snapshots[from].name@ != name {
        snapshots_are_found_by_name(snapshots, name, from + 1);
    }
}

/// A session reads a snapshot only where every document could be read, one bears the name it gave, and
/// that one is live; and then it does.
pub proof fn sessions_read_live_snapshots(loaded: Loaded, named: Seq<char>, unsure: Seq<char>)
    ensures
        match snapshot_to_read(loaded, named, unsure) {
            Ok(i) => 0 <= i < loaded.found@.len() && loaded.found@[i].name@ == named && loaded.found@[i].standing
                is Live && loaded.complaints@.len() == 0,
            Err(refusal) => loaded.complaints@.len() > 0 || (forall|k: int|
                0 <= k < loaded.found@.len() ==> (#[trigger] loaded.found@[k]).name@ != named) || exists|k: int|
                0 <= k < loaded.found@.len() && (#[trigger] loaded.found@[k]).name@ == named && loaded.found@[k].standing
                    is Expired,
        },
{
    snapshots_are_found_by_name(loaded.found@, named, 0);
}

/// A session that reads a snapshot reads each table the snapshot names, at the version it names, and no
/// other table.
pub proof fn pinned_tables_are_read_at_their_version(snapshot: Snapshot, tables: Seq<Option<String>>)
    ensures
        forall|k: int|
            0 <= k < tables_pinned(snapshot, tables).len() ==> {
                let (i, version) = #[trigger] tables_pinned(snapshot, tables)[k];
                0 <= i < tables.len() && (tables[i] matches Some(name) && snapshot.tables@.contains_key(name@)
                    && snapshot.tables@[name@] == version)
            },
        forall|i: int| #![trigger tables[i]]
            0 <= i < tables.len() && tables[i] is Some && snapshot.tables@.contains_key(tables[i]->0@) ==> tables_pinned(
                snapshot,
                tables,
            ).contains((i, snapshot.tables@[tables[i]->0@])),
        forall|j: int, k: int|
            0 <= j < k < tables_pinned(snapshot, tables).len() ==> (#[trigger] tables_pinned(snapshot, tables)[j]).0 < (
            #[trigger] tables_pinned(snapshot, tables)[k]).0,
    decreases tables.len(),
{
    if tables.len() > 0 {
        let before = tables.drop_last();
        pinned_tables_are_read_at_their_version(snapshot, before);
        let earlier = tables_pinned(snapshot, before);
        let all = tables_pinned(snapshot, tables);
        let n = tables.len() - 1;
        assert forall|k: int| 0 <= k < all.len() implies ({
            let (i, version) = #[trigger] all[k];
            0 <= i < tables.len() && (tables[i] matches Some(name) && snapshot.tables@.contains_key(name@)
                && snapshot.tables@[name@] == version)
        }) by {
            if k < earlier.len() {
                assert(all[k] == earlier[k]);
                assert(before[earlier[k].0] == tables[all[k].0]);
            }
        }
        assert forall|i: int| #![trigger tables[i]]
            0 <= i < tables.len() && tables[i] is Some
                && snapshot.tables@.contains_key(tables[i]->0@) implies all.contains(
            (i, snapshot.tables@[tables[i]->0@]),
        ) by {
            let pin = (i, snapshot.tables@[tables[i]->0@]);
            if i < n {
                assert(before[i] == tables[i]);
                assert(earlier.contains(pin));
                let k = choose|k: int| 0 <= k < earlier.len() && earlier[k] == pin;
                assert(all[k] == pin);
            } else {
                assert(all[all.len() - 1] == pin);
            }
        }
        assert forall|j: int, k: int| 0 <= j < k < all.len() implies (#[trigger] all[j]).0 < (#[trigger] all[k]).0 by {
            assert(all[j] == earlier[j]);
            if k < earlier.len() {
                assert(all[k] == earlier[k]);
            }
        }
    }
}

/// The newest version is one of them, and none is newer.
pub proof fn the_newest_is_the_greatest(versions: Seq<u64>)
    ensures
        match newest(versions) {
            Some(version) => versions.contains(version) && forall|k: int|
                0 <= k < versions.len() ==> #[trigger] versions[k] <= version,
            None => versions.len() == 0,
        },
    decreases versions.len(),
{
    if versions.len() > 0 {
        let before = versions.drop_last();
        the_newest_is_the_greatest(before);
        assert forall|k: int| 0 <= k < versions.len() implies #[trigger] versions[k] <= newest(versions)->0 by {
            if k < before.len() {
                assert(before[k] == versions[k]);
            }
        }
        if let Some(version) = newest(before) {
            let k = choose|k: int| 0 <= k < before.len() && before[k] == version;
            assert(versions[k] == version);
        }
        assert(versions[versions.len() - 1] == versions.last());
    }
}

/// A session is let to read a snapshot exactly where every table it names is there, its log can be read,
/// and the version it names is in it.
pub proof fn pins_are_all_there(wanted: Seq<char>, pins: Seq<(String, u64)>, logs: Seq<PinnedLog>, from: int)
    requires
        0 <= from,
        logs.len() == pins.len(),
    ensures
        first_pin_fault(wanted, pins, logs, from) is None <==> forall|k: int|
            from <= k < pins.len() ==> (#[trigger] logs[k] matches PinnedLog::Versions(versions) && versions@.contains(
                pins[k].1,
            )),
    decreases pins.len() - from,
{
    if from < pins.len() {
        pins_are_all_there(wanted, pins, logs, from + 1);
        assert(logs[from] == logs[from]);
    }
}

/// A version is read exactly where no file of it is missing, and otherwise the missing ones are counted.
pub proof fn missing_files_are_counted(there: Seq<bool>)
    ensures
        count_false(there) == there.filter(|f: bool| !f).len(),
        count_false(there) == 0 <==> forall|i: int| 0 <= i < there.len() ==> #[trigger] there[i],
    decreases there.len(),
{
    reveal(Seq::filter);
    if there.len() > 0 {
        let before = there.drop_last();
        missing_files_are_counted(before);
        if count_false(there) == 0 {
            assert forall|i: int| 0 <= i < there.len() implies #[trigger] there[i] by {
                if i < before.len() {
                    assert(before[i]);
                }
            }
        }
        if forall|i: int| 0 <= i < there.len() ==> #[trigger] there[i] {
            assert forall|i: int| 0 <= i < before.len() implies #[trigger] before[i] by {
                assert(there[i]);
            }
            assert(there[there.len() - 1]);
        }
    }
}

/// The version that a session asked of a table is the number it set for the table's own name, whatever the
/// case of the letters, and else for its bare one; a table with no qualified name has none.
pub proof fn versions_are_asked_by_name(
    settings: Map<Seq<char>, Seq<char>>,
    qualified: Seq<char>,
    table: Seq<char>,
    version: nat,
)
    requires
        version <= u64::MAX,
    ensures
        version_asked(settings.insert("version of "@ + text::lowercase(qualified), numerals::decimal(version)), Some(qualified), table)
            == Some(version as int),
        version_asked(settings, None, table) is None,
        !settings.contains_key("version of "@ + text::lowercase(qualified)) && !settings.contains_key(
            "version of "@ + text::lowercase(table),
        ) ==> version_asked(settings, Some(qualified), table) is None,
        !settings.contains_key("version of "@ + text::lowercase(qualified)) && text::lowercase(qualified)
            != text::lowercase(table) ==> version_asked(
            settings.insert("version of "@ + text::lowercase(table), numerals::decimal(version)),
            Some(qualified),
            table,
        ) == Some(version as int),
{
    numerals::spelled_naturals_are_read(version, u64::MAX as int);
    let a = "version of "@ + text::lowercase(qualified);
    let b = "version of "@ + text::lowercase(table);
    let n = "version of "@.len() as int;
    assert(a.skip(n) =~= text::lowercase(qualified));
    assert(b.skip(n) =~= text::lowercase(table));
}

/// The cell of a row under a column's name.
pub open spec fn under(
    fields: Seq<(Seq<char>, i32, i16)>,
    row: Seq<Option<Seq<char>>>,
    name: Seq<char>,
    cell: Option<Seq<char>>,
) -> bool {
    fields.len() == row.len() && exists|k: int| 0 <= k < row.len() && (#[trigger] fields[k]).0 == name && row[k] == cell
}

/// A listed snapshot is shown as it is: its name, whether it is live, who took it and when, when it
/// expires, and which tables it pins, counted.
pub proof fn listed_snapshots_are_shown(snapshots: Seq<Snapshot>, i: int)
    requires
        0 <= i < snapshots.len(),
    ensures
        ({
            let answer = snapshot_list(snapshots);
            let s = snapshots[i];
            let row = answer.rows[i];
            &&& answer.rows.len() == snapshots.len()
            &&& under(answer.fields, row, "snapshot"@, Some(s.name@))
            &&& under(
                answer.fields,
                row,
                "state"@,
                Some(
                    if s.standing is Expired {
                        "expired"@
                    } else {
                        "live"@
                    },
                ),
            )
            &&& under(answer.fields, row, "taken_by"@, Some(s.taken_by@))
            &&& under(answer.fields, row, "taken_at"@, Some(numerals::signed_decimal(s.taken_at as int)))
            &&& under(answer.fields, row, "expires_on"@, Some(numerals::signed_decimal(s.expires_on as int)))
            &&& under(answer.fields, row, "tables"@, Some(numerals::decimal(s.tables.listing().len())))
        }),
{
    let fields = snapshot_list(snapshots).fields;
    assert(fields[0].0 == "snapshot"@ && fields[1].0 == "state"@ && fields[2].0 == "taken_by"@ && fields[3].0
        == "taken_at"@ && fields[4].0 == "expires_on"@ && fields[5].0 == "tables"@ && fields[6].0 == "pins"@);
}

/// What changed between two versions is shown under the names of what was counted.
pub proof fn differences_are_shown_by_name(d: Difference)
    ensures
        ({
            let answer = difference_answer(d);
            let row = answer.rows[0];
            &&& answer.rows.len() == 1
            &&& under(answer.fields, row, "commits"@, Some(numerals::decimal(d.commits as nat)))
            &&& under(answer.fields, row, "rows_added"@, Some(numerals::decimal(d.rows_added as nat)))
            &&& under(answer.fields, row, "rows_removed"@, Some(numerals::decimal(d.rows_removed as nat)))
            &&& under(answer.fields, row, "files_added"@, Some(numerals::decimal(d.files_added as nat)))
            &&& under(answer.fields, row, "files_removed"@, Some(numerals::decimal(d.files_removed as nat)))
            &&& under(answer.fields, row, "compactions"@, Some(numerals::decimal(d.compactions as nat)))
        }),
{
    let fields = difference_answer(d).fields;
    assert(fields[0].0 == "commits"@ && fields[1].0 == "rows_added"@ && fields[2].0 == "rows_removed"@ && fields[3].0
        == "files_added"@ && fields[4].0 == "files_removed"@ && fields[5].0 == "compactions"@);
}

/// A change in a table's history is shown under the names of what it did, with what keeps its version.
pub proof fn changes_are_shown_by_name(change: Change, kept_by: Seq<char>)
    ensures
        ({
            let row = change_row(change, kept_by);
            let fields = history_columns();
            &&& under(fields, row, "version"@, Some(numerals::decimal(change.version as nat)))
            &&& under(fields, row, "what"@, Some(change.what@))
            &&& under(
                fields,
                row,
                "at"@,
                match change.at {
                    Some(at) => Some(numerals::signed_decimal(at as int)),
                    None => None,
                },
            )
            &&& under(fields, row, "files_added"@, Some(numerals::decimal(change.added as nat)))
            &&& under(fields, row, "files_removed"@, Some(numerals::decimal(change.removed as nat)))
            &&& under(fields, row, "bytes_added"@, Some(numerals::decimal(change.bytes_added as nat)))
            &&& under(
                fields,
                row,
                "changed_data"@,
                Some(
                    if change.changed_data {
                        "yes"@
                    } else {
                        "no"@
                    },
                ),
            )
            &&& under(fields, row, "kept_by"@, Some(kept_by))
        }),
{
    let fields = history_columns();
    assert(fields[0].0 == "version"@ && fields[1].0 == "what"@ && fields[2].0 == "at"@ && fields[3].0 == "files_added"@
        && fields[4].0 == "files_removed"@ && fields[5].0 == "bytes_added"@ && fields[6].0 == "changed_data"@
            && fields[7].0
        == "kept_by"@);
}

/// A warehouse that moves is read again at most five times; a statement is known by its own words; and only
/// `SNAPSHOT`, in whatever case, names a snapshot to read.
pub proof fn snapshot_statements_are_known(statement: Statement, setting: SessionSetting)
    ensures
        ATTEMPTS == 5,
        DIRECTORY@ == "_snapshots"@,
        statement is Create <==> statement_called(statement) == "CREATE SNAPSHOT"@,
        statement is Drop <==> statement_called(statement) == "DROP SNAPSHOT"@,
        sets_snapshot(Some(setting)) <==> !setting.reset && text::lower_ascii(setting.name@) == "snapshot"@,
        !sets_snapshot(None),
{
    reveal_strlit("CREATE SNAPSHOT");
    reveal_strlit("SHOW SNAPSHOTS");
    reveal_strlit("DROP SNAPSHOT");
    reveal_strlit("SHOW HISTORY");
    reveal_strlit("SHOW CHANGES");
    reveal_strlit("SET VERSION");
    assert("CREATE SNAPSHOT"@[0] == 'C' && "DROP SNAPSHOT"@[0] == 'D' && "SHOW SNAPSHOTS"@[0] == 'S' && "SHOW HISTORY"@[0]
        == 'S' && "SHOW CHANGES"@[0] == 'S' && "SET VERSION"@[0] == 'S');
}

/// A snapshot is taken exactly where it was written.
pub proof fn snapshots_are_taken_when_written(writing: Writing)
    ensures
        taking(writing) is Ok <==> writing is Written,
        taking(writing) is Ok ==> (taking(writing)->Ok_0).tag == "CREATE SNAPSHOT"@,
{
}

/// A pin holds exactly where the log of its table could be read and still has the version.
pub proof fn pins_hold_while_their_version_is_there(wanted: Seq<char>, table: Seq<char>, version: u64, log: PinnedLog)
    ensures
        pin_fault(wanted, table, version, log) is None <==> log is Versions && (log->Versions_0)@.contains(version),
        log is NoTable ==> (pin_fault(wanted, table, version, log)->0).sqlstate == "42P01"@,
        log is Versions && pin_fault(wanted, table, version, log) is Some ==> (pin_fault(
            wanted,
            table,
            version,
            log,
        )->0).sqlstate == "42704"@,
{
}

/// The newest version is written as the greatest there is, and as none where there is none.
pub proof fn the_newest_is_written(versions: Seq<u64>, version: u64)
    requires
        versions.contains(version),
        forall|i: int| 0 <= i < versions.len() ==> #[trigger] versions[i] <= version,
    ensures
        newest_text(versions) == numerals::decimal(version as nat),
        newest_text(Seq::empty()) == "none"@,
{
    the_newest_is_the_greatest(versions);
    the_newest_is_the_greatest(Seq::empty());
    let k = choose|k: int| 0 <= k < versions.len() && versions[k] == version;
    if let Some(most) = newest(versions) {
        let j = choose|j: int| 0 <= j < versions.len() && versions[j] == most;
        assert(versions[j] <= version && versions[k] <= most);
    }
}

/// What is said first of what could not be read is the first of it.
pub proof fn the_first_complaint_is_said(loaded: Loaded)
    ensures
        loaded.complaints@.len() > 0 ==> first_complaint(loaded) == loaded.complaints@[0]@,
        loaded.complaints@.len() == 0 ==> first_complaint(loaded).len() == 0,
{
}

/// A snapshot may be dropped by whoever took it and by whoever may read all of it, where what it pins is known.
pub proof fn takers_and_readers_may_drop(document: Document, subject: Seq<char>)
    ensures
        may_drop(document, subject) <==> document is Held && (document->taken_by@ == subject || document->reads_all),
{
}

/// Each refusal about snapshots has the state that clients know it by.
pub proof fn snapshot_refusals_have_their_states(name: Seq<char>, count: int, version: u64)
    ensures
        already_taken(name).sqlstate == "42P07"@,
        no_such_snapshot(name).sqlstate == "42704"@,
        no_such_table(name).sqlstate == "42P01"@,
        no_such_version(name, version, Seq::empty()).sqlstate == "42704"@,
        reclaimed(name, version, count, count).sqlstate == "42704"@,
        never_still(count).sqlstate == "40001"@,
{
}

/// The version that a session reads of a table is set under a key of the table's own, whatever its case.
pub proof fn version_keys_are_of_their_table(table: Seq<char>, other: Seq<char>)
    ensures
        version_key(table) == version_key(other) <==> text::lowercase(table) == text::lowercase(other),
        text::begins_with(version_key(table), "version of "@),
{
    let front = "version of "@;
    let a = text::lowercase(table);
    let b = text::lowercase(other);
    assert(version_key(table).skip(front.len() as int) =~= a);
    assert(version_key(other).skip(front.len() as int) =~= b);
    assert(version_key(table).subrange(0, front.len() as int) =~= front);
}

/// The version recorded for a table is the last that is given for it, and only what is given is recorded.
pub proof fn the_last_version_is_recorded(versions: Seq<(Seq<char>, u64)>, i: int)
    requires
        0 <= i < versions.len(),
        forall|k: int| i < k < versions.len() ==> (#[trigger] versions[k]).0 != versions[i].0,
    ensures
        versions_map(versions).contains_key(versions[i].0),
        versions_map(versions)[versions[i].0] == versions[i].1,
        versions_map(Seq::empty()) == Map::<Seq<char>, u64>::empty(),
    decreases versions.len(),
{
    if i < versions.len() - 1 {
        let before = versions.drop_last();
        assert(versions[versions.len() - 1].0 != versions[i].0);
        assert forall|k: int| i < k < before.len() implies (#[trigger] before[k]).0 != before[i].0 by {
            assert(versions[k].0 != versions[i].0);
        }
        the_last_version_is_recorded(before, i);
    }
}

/// The list of snapshots says how many there are.
pub proof fn listed_snapshots_are_counted(snapshots: Seq<Snapshot>)
    ensures
        snapshot_list(snapshots).tag == "SELECT "@ + numerals::decimal(snapshot_list(snapshots).rows.len()),
{
}

} // verus!
