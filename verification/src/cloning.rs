//! Making and dropping clones.
//!
//! A clone refers to the files of its origin rather than copying them. So to make one is to read
//! the origin, the right to act on one derives from the right to read what it refers to, and a
//! table that a clone still reads is not dropped.

use crate::clones::{Lineage, Qualified};
use crate::text::{self, join};
use crate::textmap::TextMap;
use crate::warehouse::{self, place_beside, qualified_name, Place, Resolved};
use crate::wire::{self, completed, refusal, refusal_about, QueryFailure, QueryResult};
use vstd::prelude::*;

verus! {

/// What a name stands for, by qualified name, and where its log lies. What lasts longer than a
/// statement records the qualified name, because a bare one is unambiguous only until a second
/// schema has a table of that name.
pub fn qualify(warehouse: &Place, resolved: Resolved) -> (r: (Qualified, Option<Place>))
    ensures
        match resolved {
            Resolved::One(root) => match warehouse::name_of(warehouse@, root@) {
                Some(name) => r.0 is One && (r.0->One_0)@ == name && r.1 == Some(root),
                None => r.0 is Absent && r.1 is None,
            },
            Resolved::Absent => r.0 is Absent && r.1 is None,
            Resolved::Ambiguous(candidates) => r.0 == Qualified::Ambiguous(candidates) && r.1 is None,
        },
{
    match resolved {
        Resolved::One(root) => match qualified_name(warehouse, &root) {
            Some(name) => (Qualified::One(name), Some(root)),
            None => (Qualified::Absent, None),
        },
        Resolved::Absent => (Qualified::Absent, None),
        Resolved::Ambiguous(candidates) => (Qualified::Ambiguous(candidates), None),
    }
}

/// The table whose readers may read a table: the root of its lineage, or the table itself where it
/// is no clone. None where the lineage cannot be told or leads nowhere.
pub open spec fn authority(ancestors: Option<Seq<Seq<char>>>, table: Seq<char>) -> Option<Seq<char>> {
    match ancestors {
        None => None,
        Some(chain) => {
            let root = if chain.len() > 0 {
                chain.last()
            } else {
                table
            };
            if root.len() == 0 {
                None
            } else {
                Some(root)
            }
        },
    }
}

/// The table whose readers may read a table. A clone a moment old has no rule of its own, so that
/// its own name would let nobody touch it, not even whoever made it.
pub fn readable(ancestors: Option<&Vec<String>>, table: &str) -> (r: Option<String>)
    ensures
        wire::cell(r) == authority(
            match ancestors {
                Some(chain) => Some(text::views(chain@)),
                None => None,
            },
            table@,
        ),
{
    match ancestors {
        None => None,
        Some(chain) => {
            let root = if chain.len() > 0 {
                assert(text::views(chain@).last() == chain@.last()@);
                chain[chain.len() - 1].clone()
            } else {
                table.to_string()
            };
            if root.as_str().is_empty() {
                None
            } else {
                Some(root)
            }
        },
    }
}

/// What a table's log says of its lineage.
pub enum Recorded {
    /// It is no clone.
    NoClone,
    /// It is a clone.
    Clone {
        /// The table it is a clone of.
        origin: String,
        /// The version it reads.
        version: u64,
        /// When it was made.
        cloned_at: i64,
    },
    /// It is a clone, and of what cannot be read.
    Unreadable,
}

/// The lineage that is kept of a table: one that cannot be read is kept as a clone of nothing, so
/// that every decision about it stays on the safe side.
pub open spec fn kept(recorded: Recorded) -> Option<(Seq<char>, u64, i64)> {
    match recorded {
        Recorded::NoClone => None,
        Recorded::Clone { origin, version, cloned_at } => Some((origin@, version, cloned_at)),
        Recorded::Unreadable => Some((Seq::empty(), 0, 0)),
    }
}

/// The lineages of the tables that have a name, by it.
pub open spec fn lineages_of(tables: Seq<(Option<String>, Recorded)>) -> Map<Seq<char>, (Seq<char>, u64, i64)>
    decreases tables.len(),
{
    if tables.len() == 0 {
        Map::empty()
    } else {
        let before = lineages_of(tables.drop_last());
        match (tables.last().0, kept(tables.last().1)) {
            (Some(name), Some(lineage)) => before.insert(name@, lineage),
            _ => before,
        }
    }
}

/// Which tables are clones, by qualified name, as their logs say.
pub fn lineages(tables: &Vec<(Option<String>, Recorded)>) -> (r: TextMap<Lineage>)
    ensures
        r@.map_values(|lineage: Lineage| lineage@) == lineages_of(tables@),
{
    let mut r: TextMap<Lineage> = TextMap::new();
    let mut i: usize = 0;
    assert(r@.map_values(|lineage: Lineage| lineage@) =~= Map::empty());
    while i < tables.len()
        invariant
            i <= tables@.len(),
            r@.map_values(|lineage: Lineage| lineage@) == lineages_of(tables@.take(i as int)),
        decreases tables@.len() - i,
    {
        assert(tables@.take(i + 1).drop_last() =~= tables@.take(i as int));
        if let Some(name) = &tables[i].0 {
            let lineage = match &tables[i].1 {
                Recorded::NoClone => None,
                Recorded::Clone { origin, version, cloned_at } => Some(
                    Lineage { origin: origin.clone(), version: *version, cloned_at: *cloned_at },
                ),
                Recorded::Unreadable => {
                    let lost = Lineage { origin: String::new(), version: 0, cloned_at: 0 };
                    assert(lost.origin@ =~= Seq::empty());
                    Some(lost)
                },
            };
            if let Some(lineage) = lineage {
                let ghost was = r@;
                let ghost added = lineage;
                r.insert(name.clone(), lineage);
                assert(r@.map_values(|lineage: Lineage| lineage@) =~= was.map_values(
                    |lineage: Lineage| lineage@,
                ).insert(name@, added@));
            }
        }
        i = i + 1;
    }
    assert(tables@.take(tables@.len() as int) =~= tables@);
    r
}

/// A clone whose lineage cannot be read is readable by nobody: what it refers to cannot be told.
pub proof fn a_lost_lineage_is_readable_by_nobody(table: Seq<char>, before: Seq<Seq<char>>)
    ensures
        authority(Some(before.push(kept(Recorded::Unreadable)->Some_0.0)), table) is None,
{
    assert(before.push(kept(Recorded::Unreadable)->Some_0.0).last() =~= Seq::empty());
}

// --- dropping ----------------------------------------------------------------------------------

/// Why a table may not be dropped.
pub struct StillNeeded {
    /// The reason, for a reader.
    pub why: String,
    /// The clones that still read it.
    pub by: Vec<String>,
}

/// What becomes of a statement that drops a table.
pub enum Dropping {
    /// It is none of the server's business and goes on to the engine.
    NotOurs,
    /// It is answered.
    Answered(Result<QueryResult, QueryFailure>),
    /// The clone of this name is removed, which lies here.
    Remove(String, Place),
}

/// What becomes of a statement that drops a table, as text.
pub enum DroppingView {
    /// It goes on to the engine.
    NotOurs,
    /// It is answered.
    Answered(Result<wire::Answer, wire::Refusal>),
    /// The clone of this name is removed, which lies here.
    Remove(Seq<char>, (bool, Seq<Seq<char>>)),
}

impl View for Dropping {
    type V = DroppingView;

    open spec fn view(&self) -> DroppingView {
        match self {
            Dropping::NotOurs => DroppingView::NotOurs,
            Dropping::Answered(outcome) => DroppingView::Answered(wire::reply(*outcome)),
            Dropping::Remove(table, root) => DroppingView::Remove(table@, root@),
        }
    }
}

/// What is advised where clones still read a table.
pub open spec fn drop_advice() -> Seq<char> {
    "Drop what still reads it first, or ask `SHOW DEPENDENTS OF` before dropping anything. Every name is in the `subjects` of this refusal."@
}

/// What becomes of a statement that drops `table`, which lies at `root` where it could be found,
/// is a clone where `recorded` says so, and may be dropped where nothing in `needed` speaks against
/// it. Only a clone is dropped, by whoever may read what it refers to, while nothing reads it.
pub open spec fn dropping(
    table: Seq<char>,
    root: Option<(bool, Seq<Seq<char>>)>,
    if_exists: bool,
    recorded: bool,
    readable: bool,
    needed: Option<(Seq<char>, Seq<Seq<char>>)>,
) -> DroppingView {
    if !recorded {
        if if_exists && root is None {
            DroppingView::Answered(Ok(wire::done("DROP TABLE"@)))
        } else {
            DroppingView::NotOurs
        }
    } else if !readable {
        DroppingView::Answered(
            Err(wire::refused(wire::DATA_EXCEPTION@, "there is no table `"@ + table + "` to drop"@)),
        )
    } else {
        match (needed, root) {
            (Some((why, by)), _) => DroppingView::Answered(
                Err(wire::refused_about(wire::DATA_EXCEPTION@, why, drop_advice(), by)),
            ),
            (None, None) => DroppingView::Answered(
                Err(
                    wire::refused(
                        wire::DATA_EXCEPTION@,
                        "`"@ + table + "` is recorded as a clone and its table could not be found in this warehouse"@,
                    ),
                ),
            ),
            (None, Some(root)) => DroppingView::Remove(table, root),
        }
    }
}

/// The name a statement is about: the qualified one where it stands for one table, else as written.
pub open spec fn meant(asked: Seq<char>, found: Qualified) -> Seq<char> {
    match found {
        Qualified::One(name) => name@,
        _ => asked,
    }
}

/// What becomes of a statement that drops a table.
pub fn drop_clone(
    asked: &str,
    found: &Qualified,
    root: Option<Place>,
    if_exists: bool,
    recorded: bool,
    readable: bool,
    needed: Option<StillNeeded>,
) -> (r: Dropping)
    ensures
        r@ == dropping(
            meant(asked@, *found),
            match root {
                Some(root) => Some(root@),
                None => None,
            },
            if_exists,
            recorded,
            readable,
            match needed {
                Some(needed) => Some((needed.why@, text::views(needed.by@))),
                None => None,
            },
        ),
{
    let table = match found {
        Qualified::One(name) => name.clone(),
        _ => asked.to_string(),
    };
    if !recorded {
        if if_exists && root.is_none() {
            return Dropping::Answered(Ok(completed("DROP TABLE")));
        }
        return Dropping::NotOurs;
    }
    if !readable {
        let mut message = "there is no table `".to_string();
        message.append(table.as_str());
        message.append("` to drop");
        return Dropping::Answered(Err(refusal(wire::DATA_EXCEPTION, message.as_str())));
    }
    if let Some(needed) = needed {
        return Dropping::Answered(
            Err(
                refusal_about(
                    wire::DATA_EXCEPTION,
                    needed.why.as_str(),
                    "Drop what still reads it first, or ask `SHOW DEPENDENTS OF` before dropping anything. Every name is in the `subjects` of this refusal.",
                    needed.by,
                ),
            ),
        );
    }
    match root {
        None => {
            let mut message = "`".to_string();
            message.append(table.as_str());
            message.append("` is recorded as a clone and its table could not be found in this warehouse");
            Dropping::Answered(Err(refusal(wire::DATA_EXCEPTION, message.as_str())))
        },
        Some(root) => Dropping::Remove(table, root),
    }
}

/// What is answered once a clone was removed, or could not be.
pub fn dropped(removed: Result<(), String>) -> (r: Result<QueryResult, QueryFailure>)
    ensures
        wire::reply(r) == (match removed {
            Ok(()) => Ok(wire::done("DROP TABLE"@)),
            Err(why) => Err(wire::refused(wire::DATA_EXCEPTION@, "the clone could not be removed: "@ + why@)),
        }),
{
    match removed {
        Ok(()) => Ok(completed("DROP TABLE")),
        Err(why) => {
            let mut message = "the clone could not be removed: ".to_string();
            message.append(why.as_str());
            Err(refusal(wire::DATA_EXCEPTION, message.as_str()))
        },
    }
}

/// What is removed is a clone, that whoever asked may read, and that nothing still reads.
pub proof fn only_unread_clones_are_removed(
    table: Seq<char>,
    root: Option<(bool, Seq<Seq<char>>)>,
    if_exists: bool,
    recorded: bool,
    readable: bool,
    needed: Option<(Seq<char>, Seq<Seq<char>>)>,
)
    requires
        dropping(table, root, if_exists, recorded, readable, needed) is Remove,
    ensures
        recorded && readable && needed is None && root is Some,
{
}

// --- making ------------------------------------------------------------------------------------

/// What is said of a table that is not there to clone, or that may not be read.
pub open spec fn nothing_to_clone(asked: Seq<char>) -> wire::Refusal {
    wire::refused(wire::DATA_EXCEPTION@, "there is no table `"@ + asked + "` to clone"@)
}

fn refuse_nothing(asked: &str) -> (r: QueryFailure)
    ensures
        r@ == nothing_to_clone(asked@),
{
    let mut message = "there is no table `".to_string();
    message.append(asked);
    message.append("` to clone");
    refusal(wire::DATA_EXCEPTION, message.as_str())
}

/// The table that a statement clones, by qualified name and place: the one table the name stands
/// for, where the caller may read it. A name that several tables bear is told so before anything
/// else, because only that answer is of any use.
pub open spec fn origin_of(
    asked: Seq<char>,
    found: Qualified,
    root: Option<(bool, Seq<Seq<char>>)>,
    readable: bool,
) -> Result<(Seq<char>, (bool, Seq<Seq<char>>)), wire::Refusal> {
    match (found, root) {
        (Qualified::Ambiguous(candidates), _) => Err(
            wire::refused_about(
                wire::DATA_EXCEPTION@,
                "`"@ + asked + "` names more than one table: "@ + text::joined(text::views(candidates@), ", "@),
                "Qualify it with its schema --- choosing one here would clone the wrong table silently. Both candidates are in this refusal's `subjects`."@,
                text::views(candidates@),
            ),
        ),
        (Qualified::One(name), Some(root)) if readable => Ok((name@, root)),
        _ => Err(nothing_to_clone(asked)),
    }
}

/// The table that a statement clones.
pub fn clone_origin(asked: &str, found: Qualified, root: Option<Place>, readable: bool) -> (r: Result<
    (String, Place),
    QueryFailure,
>)
    ensures
        (match r {
            Ok((name, place)) => Ok((name@, place@)),
            Err(failure) => Err(failure@),
        }) == origin_of(
            asked@,
            found,
            match root {
                Some(root) => Some(root@),
                None => None,
            },
            readable,
        ),
{
    match (found, root) {
        (Qualified::Ambiguous(candidates), _) => {
            let mut message = "`".to_string();
            message.append(asked);
            message.append("` names more than one table: ");
            message.append(join(&candidates, ", ").as_str());
            Err(
                refusal_about(
                    wire::DATA_EXCEPTION,
                    message.as_str(),
                    "Qualify it with its schema --- choosing one here would clone the wrong table silently. Both candidates are in this refusal's `subjects`.",
                    candidates,
                ),
            )
        },
        (Qualified::One(name), Some(root)) => {
            if readable {
                Ok((name, root))
            } else {
                Err(refuse_nothing(asked))
            }
        },
        _ => Err(refuse_nothing(asked)),
    }
}

/// Where a clone goes, as text, or why it cannot.
pub open spec fn place_for(
    warehouse: (bool, Seq<Seq<char>>),
    table: Seq<char>,
    origin_root: (bool, Seq<Seq<char>>),
) -> Result<(bool, Seq<Seq<char>>), Seq<char>> {
    match warehouse::beside(warehouse, table, origin_root) {
        Some(place) => Ok(place),
        None => Err(
            if warehouse::has_nowhere(table, origin_root) {
                "the table to clone is not in a schema, so there is nowhere to put a clone beside it"@
            } else {
                "a clone stays in its origin's schema, and `"@ + warehouse::schema_name(origin_root) + "` is not `"@
                    + warehouse::asked_for(warehouse, table, origin_root)
                    + "`. A clone is a reference to its origin's files and is authorized through them, so one placed under another schema would have its name governed by one policy and its data by another"@
            },
        ),
    }
}

/// Where a clone goes, or a refusal to put it there.
pub fn clone_place(warehouse: &Place, table: &str, origin_root: &Place) -> (r: Result<Place, QueryFailure>)
    ensures
        (match r {
            Ok(place) => Ok(place@),
            Err(failure) => Err(failure@),
        }) == (match place_for(warehouse@, table@, origin_root@) {
            Ok(place) => Ok(place),
            Err(why) => Err(wire::refused(wire::DATA_EXCEPTION@, why)),
        }),
{
    match place_beside(warehouse, table, origin_root) {
        Ok(place) => Ok(place),
        Err(misplaced) => Err(refusal(wire::DATA_EXCEPTION, misplaced.to_string().as_str())),
    }
}

/// What a log says of the versions that can be cloned.
#[derive(Clone, Copy, PartialEq, Eq, Debug, Structural)]
pub struct Origin {
    /// The version the table stands at.
    pub latest_version: u64,
    /// The first version that can still be read, as far as it can be told.
    pub earliest_retained_version: u64,
}

/// Whether a version can be read: a version past the last is refused elsewhere, and of any other
/// `files_there` says whether every file it names is there.
pub open spec fn resolvable(wanted: Option<u64>, latest: u64, files_there: bool) -> bool {
    match wanted {
        None => true,
        Some(version) => version > latest || files_there,
    }
}

/// What a log says of the versions that can be cloned: the first that the log still holds, unless
/// the wanted one is gone, and then one past it at least.
pub open spec fn facts(
    live: Option<u64>,
    first_commit: Option<u64>,
    wanted: Option<u64>,
    files_there: bool,
) -> Origin {
    let latest_version = match live {
        Some(version) => version,
        None => 0,
    };
    let oldest = match first_commit {
        Some(version) => version,
        None => 0,
    };
    Origin {
        latest_version,
        earliest_retained_version: if resolvable(wanted, latest_version, files_there) {
            oldest
        } else {
            let past = if wanted->Some_0 == u64::MAX {
                u64::MAX
            } else {
                (wanted->Some_0 + 1) as u64
            };
            if past > oldest {
                past
            } else {
                oldest
            }
        },
    }
}

/// What the log of the table to clone says: `live` is the version it stands at as it was read,
/// `first_commit` the first it holds, and `files_there` whether every file of the wanted version is
/// there.
pub fn origin_facts(
    live: Result<Option<u64>, String>,
    first_commit: Option<u64>,
    wanted: Option<u64>,
    files_there: bool,
) -> (r: Result<Origin, QueryFailure>)
    ensures
        (match r {
            Ok(origin) => Ok(origin),
            Err(failure) => Err(failure@),
        }) == (match live {
            Ok(live) => Ok(facts(live, first_commit, wanted, files_there)),
            Err(why) => Err(
                wire::refused(wire::DATA_EXCEPTION@, "the table to clone could not be read: "@ + why@),
            ),
        }),
{
    let live = match live {
        Ok(live) => live,
        Err(why) => {
            let mut message = "the table to clone could not be read: ".to_string();
            message.append(why.as_str());
            return Err(refusal(wire::DATA_EXCEPTION, message.as_str()));
        },
    };
    let latest_version: u64 = match live {
        Some(version) => version,
        None => 0,
    };
    let oldest: u64 = match first_commit {
        Some(version) => version,
        None => 0,
    };
    let earliest_retained_version: u64 = match wanted {
        None => oldest,
        Some(version) => {
            if version > latest_version || files_there {
                oldest
            } else {
                let past: u64 = if version == u64::MAX {
                    u64::MAX
                } else {
                    version + 1
                };
                if past > oldest {
                    past
                } else {
                    oldest
                }
            }
        },
    };
    Ok(Origin { latest_version, earliest_retained_version })
}

/// A version that stands in the log and whose files are gone is never offered: what can still be
/// read begins past it.
pub proof fn a_version_without_its_files_is_not_retained(
    live: Option<u64>,
    first_commit: Option<u64>,
    wanted: u64,
)
    requires
        wanted < u64::MAX,
        live matches Some(latest) && wanted <= latest,
    ensures
        facts(live, first_commit, Some(wanted), false).earliest_retained_version > wanted,
{
}

/// What stands between a statement and a clone, in the order it is asked.
pub struct CloneFacts {
    /// Whether something lies where the clone would go.
    pub exists: bool,
    /// The version the table to clone stands at, or why that cannot be read.
    pub live: Result<Option<u64>, String>,
    /// The first version its log holds.
    pub first_commit: Option<u64>,
    /// Whether every file of the wanted version is there.
    pub files_there: bool,
    /// Why the version may not be cloned, where it may not.
    pub refused: Option<String>,
    /// The schema its log states last.
    pub schema: Option<String>,
}

/// A clone to commit.
#[derive(PartialEq, Eq, Debug)]
pub struct CloneOrder {
    /// Where it goes.
    pub place: Place,
    /// The table it is a clone of.
    pub origin: String,
    /// The version it reads.
    pub version: u64,
    /// Its schema.
    pub schema: String,
}

/// A clone to commit, as text.
#[verifier::ext_equal]
pub struct OrderView {
    /// Where it goes.
    pub place: (bool, Seq<Seq<char>>),
    /// The table it is a clone of.
    pub origin: Seq<char>,
    /// The version it reads.
    pub version: u64,
    /// Its schema.
    pub schema: Seq<char>,
}

impl View for CloneOrder {
    type V = OrderView;

    open spec fn view(&self) -> OrderView {
        OrderView { place: self.place@, origin: self.origin@, version: self.version, schema: self.schema@ }
    }
}

/// The clone that a statement makes, or the first reason not to make it: there is nothing to clone,
/// it cannot go there, something is there already, the table cannot be read, the version may not be
/// cloned, or it has no schema.
pub open spec fn clone_ordered(
    warehouse: (bool, Seq<Seq<char>>),
    table: Seq<char>,
    wanted: Option<u64>,
    origin: Result<(Seq<char>, (bool, Seq<Seq<char>>)), wire::Refusal>,
    f: CloneFacts,
) -> Result<OrderView, wire::Refusal> {
    match origin {
        Err(refused) => Err(refused),
        Ok((origin, origin_root)) => match place_for(warehouse, table, origin_root) {
            Err(why) => Err(wire::refused(wire::DATA_EXCEPTION@, why)),
            Ok(place) => if f.exists {
                Err(
                    wire::refused(
                        wire::DATA_EXCEPTION@,
                        "the table `"@ + table
                            + "` already exists. A clone is created, never replaced: replacing one would drop a table somebody may be the only reader of"@,
                    ),
                )
            } else {
                match (f.live, f.refused, f.schema) {
                    (Err(why), _, _) => Err(
                        wire::refused(wire::DATA_EXCEPTION@, "the table to clone could not be read: "@ + why@),
                    ),
                    (Ok(_), Some(why), _) => Err(wire::refused(wire::DATA_EXCEPTION@, why@)),
                    (Ok(_), None, None) => Err(
                        wire::refused(wire::DATA_EXCEPTION@, "the table to clone declares no schema"@),
                    ),
                    (Ok(live), None, Some(schema)) => Ok(
                        OrderView {
                            place,
                            origin,
                            version: match wanted {
                                Some(version) => version,
                                None => facts(live, f.first_commit, wanted, f.files_there).latest_version,
                            },
                            schema: schema@,
                        },
                    ),
                }
            },
        },
    }
}

/// The clone that a statement makes, or the first reason not to make it.
pub fn create_clone_table(
    warehouse: &Place,
    asked: &str,
    table: &str,
    wanted: Option<u64>,
    found: Qualified,
    root: Option<Place>,
    readable: bool,
    f: CloneFacts,
) -> (r: Result<CloneOrder, QueryFailure>)
    ensures
        (match r {
            Ok(order) => Ok(order@),
            Err(failure) => Err(failure@),
        }) == clone_ordered(
            warehouse@,
            table@,
            wanted,
            origin_of(
                asked@,
                found,
                match root {
                    Some(root) => Some(root@),
                    None => None,
                },
                readable,
            ),
            f,
        ),
{
    let (origin, origin_root) = match clone_origin(asked, found, root, readable) {
        Ok(origin) => origin,
        Err(failure) => {
            return Err(failure);
        },
    };
    let place = match clone_place(warehouse, table, &origin_root) {
        Ok(place) => place,
        Err(failure) => {
            return Err(failure);
        },
    };
    if f.exists {
        let mut message = "the table `".to_string();
        message.append(table);
        message.append(
            "` already exists. A clone is created, never replaced: replacing one would drop a table somebody may be the only reader of",
        );
        return Err(refusal(wire::DATA_EXCEPTION, message.as_str()));
    }
    let facts = match origin_facts(f.live, f.first_commit, wanted, f.files_there) {
        Ok(facts) => facts,
        Err(failure) => {
            return Err(failure);
        },
    };
    let version: u64 = match wanted {
        Some(version) => version,
        None => facts.latest_version,
    };
    if let Some(why) = f.refused {
        return Err(refusal(wire::DATA_EXCEPTION, why.as_str()));
    }
    match f.schema {
        None => Err(refusal(wire::DATA_EXCEPTION, "the table to clone declares no schema")),
        Some(schema) => Ok(CloneOrder { place, origin, version, schema }),
    }
}

/// What is answered once a clone was committed, or could not be.
pub fn write_clone(committed: Result<(), String>) -> (r: Result<QueryResult, QueryFailure>)
    ensures
        wire::reply(r) == (match committed {
            Ok(()) => Ok(wire::done("CREATE TABLE"@)),
            Err(why) => Err(wire::refused(wire::DATA_EXCEPTION@, "the clone could not be committed: "@ + why@)),
        }),
{
    match committed {
        Ok(()) => Ok(completed("CREATE TABLE")),
        Err(why) => {
            let mut message = "the clone could not be committed: ".to_string();
            message.append(why.as_str());
            Err(refusal(wire::DATA_EXCEPTION, message.as_str()))
        },
    }
}

/// A table that may not be read is not cloned, and is answered as one that is not there.
pub proof fn hidden_tables_are_not_cloned(
    asked: Seq<char>,
    hidden: String,
    root: (bool, Seq<Seq<char>>),
    warehouse: (bool, Seq<Seq<char>>),
    table: Seq<char>,
    wanted: Option<u64>,
    f: CloneFacts,
)
    ensures
        clone_ordered(
            warehouse,
            table,
            wanted,
            origin_of(asked, Qualified::One(hidden), Some(root), false),
            f,
        ) == clone_ordered(warehouse, table, wanted, origin_of(asked, Qualified::Absent, None, false), f),
        clone_ordered(
            warehouse,
            table,
            wanted,
            origin_of(asked, Qualified::One(hidden), Some(root), false),
            f,
        ) is Err,
{
}

/// A clone is made, never put in the place of something.
pub proof fn clones_replace_nothing(
    warehouse: (bool, Seq<Seq<char>>),
    table: Seq<char>,
    wanted: Option<u64>,
    origin: Result<(Seq<char>, (bool, Seq<Seq<char>>)), wire::Refusal>,
    f: CloneFacts,
)
    requires
        clone_ordered(warehouse, table, wanted, origin, f) is Ok,
    ensures
        !f.exists,
{
}

/// What becomes of a statement about clones that could not be read.
pub fn refuse_statement(why: &str) -> (r: QueryFailure)
    ensures
        r@ == wire::refused(wire::SYNTAX_ERROR@, why@),
{
    refusal(wire::SYNTAX_ERROR, why)
}

/// What a table's own record says of where it came from is what is known of it: a clone with its origin, its
/// version and its time; a record that cannot be read as a clone of nothing, so that nobody reads through it;
/// and no record as no clone.
pub proof fn lineages_are_what_is_recorded(tables: Seq<(Option<String>, Recorded)>)
    ensures
        forall|name: Seq<char>| #[trigger]
            lineages_of(tables).contains_key(name) ==> exists|i: int|
                0 <= i < tables.len() && (#[trigger] tables[i].0 matches Some(n) && n@ == name) && match tables[i].1 {
                    Recorded::NoClone => false,
                    Recorded::Clone { origin, version, cloned_at } => lineages_of(tables)[name] == (
                        origin@,
                        version,
                        cloned_at,
                    ),
                    Recorded::Unreadable => lineages_of(tables)[name].0.len() == 0,
                },
        forall|i: int| #![trigger tables[i].0]
            0 <= i < tables.len() && !(tables[i].1 is NoClone) ==> (tables[i].0 matches Some(name) ==> lineages_of(
                tables,
            ).contains_key(name@)),
    decreases tables.len(),
{
    if tables.len() > 0 {
        let before = tables.drop_last();
        let n = tables.len() - 1;
        lineages_are_what_is_recorded(before);
        let all = lineages_of(tables);
        assert forall|name: Seq<char>| #[trigger] all.contains_key(name) implies exists|i: int|
            0 <= i < tables.len() && (#[trigger] tables[i].0 matches Some(n) && n@ == name) && match tables[i].1 {
                Recorded::NoClone => false,
                Recorded::Clone { origin, version, cloned_at } => all[name] == (origin@, version, cloned_at),
                Recorded::Unreadable => all[name].0.len() == 0,
            } by {
            if !(tables[n].1 is NoClone) && (tables[n].0 matches Some(m) && m@ == name) {
                assert(tables[n].0 is Some);
            } else {
                assert(lineages_of(before).contains_key(name));
                let i = choose|i: int|
                    0 <= i < before.len() && (#[trigger] before[i].0 matches Some(n) && n@ == name) && match before[i].1 {
                        Recorded::NoClone => false,
                        Recorded::Clone { origin, version, cloned_at } => lineages_of(before)[name] == (
                            origin@,
                            version,
                            cloned_at,
                        ),
                        Recorded::Unreadable => lineages_of(before)[name].0.len() == 0,
                    };
                assert(tables[i].0 == before[i].0);
            }
        }
        assert forall|i: int| #![trigger tables[i].0] 0 <= i < tables.len() && !(tables[i].1 is NoClone) implies (
        tables[i].0 matches Some(name) ==> all.contains_key(name@)) by {
            if i < n {
                assert(before[i].0 == tables[i].0);
            }
        }
    }
}

/// The right to a table is the right to the root of its lineage, or to itself where it has none; a lineage
/// that cannot be followed gives no right.
pub proof fn clones_are_read_by_the_right_to_their_root(nearer: Seq<Seq<char>>, root: Seq<char>, table: Seq<char>)
    requires
        root.len() > 0,
        table.len() > 0,
    ensures
        authority(Some(nearer.push(root)), table) == Some(root),
        authority(Some(Seq::empty()), table) == Some(table),
        authority(None, table) is None,
{
}

/// A clone that the caller may read, that nothing still reads and that lies somewhere is removed, by its own
/// name and from where it lies; every other drop is answered or left to the engine.
pub proof fn unneeded_clones_are_removed(
    table: Seq<char>,
    root: Option<(bool, Seq<Seq<char>>)>,
    if_exists: bool,
    recorded: bool,
    readable: bool,
    needed: Option<(Seq<char>, Seq<Seq<char>>)>,
)
    ensures
        recorded && readable && needed is None ==> (root matches Some(place) ==> dropping(
            table,
            root,
            if_exists,
            recorded,
            readable,
            needed,
        ) == DroppingView::Remove(table, place)),
        recorded && readable ==> (needed matches Some((why, by)) ==> (dropping(
            table,
            root,
            if_exists,
            recorded,
            readable,
            needed,
        ) matches DroppingView::Answered(Err(r)) && r.message == why && r.subjects == by)),
        recorded && !readable ==> dropping(table, root, if_exists, recorded, readable, needed) is Answered,
        !recorded && root is Some ==> dropping(table, root, if_exists, recorded, readable, needed) is NotOurs,
        !recorded && !if_exists ==> dropping(table, root, if_exists, recorded, readable, needed) is NotOurs,
        !recorded && root is None && if_exists ==> (dropping(table, root, if_exists, recorded, readable, needed)
            matches DroppingView::Answered(Ok(a)) && a.tag == "DROP TABLE"@),
{
}

/// A table is there to clone exactly where its name means one table, it lies somewhere, and the caller may
/// read it; then it goes by its own name and from where it lies.
pub proof fn readable_tables_can_be_cloned(
    asked: Seq<char>,
    found: Qualified,
    root: Option<(bool, Seq<Seq<char>>)>,
    readable: bool,
)
    ensures
        match origin_of(asked, found, root, readable) {
            Ok((name, place)) => readable && (found matches Qualified::One(n) && n@ == name) && root == Some(place),
            Err(r) => !readable || !(found is One) || root is None,
        },
        found matches Qualified::Ambiguous(candidates) ==> (origin_of(asked, found, root, readable) matches Err(r)
            && r.subjects == text::views(candidates@)),
{
}

/// A clone stands at the version asked for, or at the newest where none is; a version that was asked for and
/// whose files are gone is no longer retained, and otherwise everything from the first commit is.
pub proof fn clones_stand_at_a_version_there_is(
    live: Option<u64>,
    first_commit: Option<u64>,
    wanted: Option<u64>,
    files_there: bool,
)
    ensures
        ({
            let origin = facts(live, first_commit, wanted, files_there);
            &&& live matches Some(v) ==> origin.latest_version == v
            &&& live is None ==> origin.latest_version == 0
            &&& first_commit matches Some(v) ==> origin.earliest_retained_version >= v
            &&& (wanted is None || files_there) ==> (first_commit matches Some(v) ==> origin.earliest_retained_version
                == v)
            &&& wanted is None && first_commit is None ==> origin.earliest_retained_version == 0
        }),
{
}

/// A clone is ordered of what was asked for: where its name says beside its origin, of that origin, at the
/// version asked for or else the newest, and of the schema the origin declares.
pub proof fn clones_are_of_what_was_asked(
    warehouse: (bool, Seq<Seq<char>>),
    table: Seq<char>,
    wanted: Option<u64>,
    origin: Result<(Seq<char>, (bool, Seq<Seq<char>>)), wire::Refusal>,
    f: CloneFacts,
)
    ensures
        match clone_ordered(warehouse, table, wanted, origin, f) {
            Ok(order) => {
                &&& origin matches Ok((name, root)) && order.origin == name && warehouse::beside(warehouse, table, root)
                    == Some(order.place)
                &&& !f.exists && f.refused is None && (f.schema matches Some(schema) && order.schema == schema@)
                &&& wanted matches Some(version) ==> order.version == version
                &&& wanted is None ==> (f.live matches Ok(Some(version)) ==> order.version == version)
            },
            Err(r) => origin is Err || f.exists || f.refused is Some || f.schema is None || f.live is Err || (
            origin matches Ok((_, root)) && warehouse::beside(warehouse, table, root) is None),
        },
{
}

/// A version of the origin can be cloned exactly where its files are there, and one that the origin does not have
/// is left for the origin to refuse.
pub proof fn versions_with_files_can_be_cloned(version: u64, latest: u64, files_there: bool)
    ensures
        version <= latest ==> (resolvable(Some(version), latest, files_there) <==> files_there),
        version > latest ==> resolvable(Some(version), latest, files_there),
        resolvable(None, latest, files_there),
{
}

/// A clone has a place exactly where one lies beside its origin.
pub proof fn clones_have_a_place_beside_their_origin(
    warehouse: (bool, Seq<Seq<char>>),
    table: Seq<char>,
    origin_root: (bool, Seq<Seq<char>>),
    place: (bool, Seq<Seq<char>>),
)
    ensures
        place_for(warehouse, table, origin_root) == Ok::<(bool, Seq<Seq<char>>), Seq<char>>(place) <==> warehouse::beside(
            warehouse,
            table,
            origin_root,
        ) == Some(place),
{
}

/// A table that is one goes by its own name in what is said of it.
pub proof fn tables_are_spoken_of_by_their_own_names(asked: Seq<char>, found: Qualified)
    ensures
        found matches Qualified::One(name) ==> meant(asked, found) == name@,
        !(found is One) ==> meant(asked, found) == asked,
        nothing_to_clone(asked).subjects.len() == 0,
{
}

/// A clone that has no place is refused because its origin lies in no schema, or because another schema was named.
pub proof fn clones_without_a_place_are_told_why(
    warehouse: (bool, Seq<Seq<char>>),
    table: Seq<char>,
    origin_root: (bool, Seq<Seq<char>>),
)
    requires
        warehouse::beside(warehouse, table, origin_root) is None,
    ensures
        ({
            let why = place_for(warehouse, table, origin_root)->Err_0;
            why[0] == 't' <==> !table.contains('.') && origin_root.1.len() == 0
        }),
{
    warehouse::names_without_a_schema_have_nowhere(table, origin_root);
    reveal_strlit("the table to clone is not in a schema, so there is nowhere to put a clone beside it");
    reveal_strlit("a clone stays in its origin's schema, and `");
    if !warehouse::has_nowhere(table, origin_root) {
        assert((place_for(warehouse, table, origin_root)->Err_0)[0] == "a clone stays in its origin's schema, and `"@[0]);
    }
}

/// Where the files of a version that the origin has are gone, the first version that can be read is the least that is
/// above it and not before the first commit.
pub proof fn lost_versions_are_not_retained(live: u64, first_commit: Option<u64>, wanted: u64, other: u64)
    requires
        wanted <= live,
        wanted < other,
        first_commit is Some ==> first_commit->0 <= other,
    ensures
        wanted < facts(Some(live), first_commit, Some(wanted), false).earliest_retained_version <= other,
        first_commit is Some ==> first_commit->0 <= facts(
            Some(live),
            first_commit,
            Some(wanted),
            false,
        ).earliest_retained_version,
        facts(Some(live), first_commit, Some(wanted), true).earliest_retained_version == (if first_commit is Some {
            first_commit->0
        } else {
            0
        }),
{
}

} // verus!
