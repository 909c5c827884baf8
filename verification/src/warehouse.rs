//! Tables as they lie: what is found, what a name stands for, and where a clone goes.
//!
//! A table lies at `<warehouse>/<schema>/<table>/`, so that its path says where it came from. What
//! begins with an underscore is the warehouse's own bookkeeping and no user's table.

use crate::lists;
use crate::execute::{ColumnType, TableName};
use crate::text::{self, has_prefix, join, same, split, split_once};
use crate::textmap::{self, in_order};
use crate::wire;
use vstd::prelude::*;

verus! {

/// A place in a filesystem: its components from the root or from the current directory. A dot stands
/// among them only at the front of one that is counted from the current directory.
#[derive(PartialEq, Eq, Debug)]
pub struct Place {
    /// Whether it is counted from the root.
    pub absolute: bool,
    /// Its components.
    pub parts: Vec<String>,
}

impl View for Place {
    type V = (bool, Seq<Seq<char>>);

    open spec fn view(&self) -> (bool, Seq<Seq<char>>) {
        (self.absolute, text::views(self.parts@))
    }
}

/// The place that holds another, where there is one.
pub open spec fn parent(place: (bool, Seq<Seq<char>>)) -> Option<(bool, Seq<Seq<char>>)> {
    if place.1.len() == 0 {
        None
    } else {
        Some((place.0, place.1.drop_last()))
    }
}

/// The name a place ends in, where it ends in one.
pub open spec fn last_name(place: (bool, Seq<Seq<char>>)) -> Option<Seq<char>> {
    if place.1.len() == 0 || place.1.last() == ".."@ || place.1.last() == "."@ {
        None
    } else {
        Some(place.1.last())
    }
}

/// Components with the pieces of a path behind them. An empty piece is none, and neither is a dot
/// that stands behind anything.
pub open spec fn followed_by(absolute: bool, parts: Seq<Seq<char>>, pieces: Seq<Seq<char>>) -> Seq<Seq<char>>
    decreases pieces.len(),
{
    if pieces.len() == 0 {
        parts
    } else {
        let before = followed_by(absolute, parts, pieces.drop_last());
        let piece = pieces.last();
        if piece.len() == 0 || (piece == "."@ && (absolute || before.len() > 0)) {
            before
        } else {
            before.push(piece)
        }
    }
}

/// Whether a path leads from the root.
pub open spec fn has_slash(name: Seq<char>) -> bool {
    name.len() > 0 && name[0] == '/'
}

/// Where a path leads from a place. A name is a path of one piece; one that begins with a slash leads
/// from the root, wherever it is followed from.
pub open spec fn inside(place: (bool, Seq<Seq<char>>), name: Seq<char>) -> (bool, Seq<Seq<char>>) {
    if has_slash(name) {
        (true, followed_by(true, Seq::empty(), text::split_on(name, '/')))
    } else {
        (place.0, followed_by(place.0, place.1, text::split_on(name, '/')))
    }
}

/// A place in writing.
pub open spec fn written(place: (bool, Seq<Seq<char>>)) -> Seq<char> {
    (if place.0 {
        "/"@
    } else {
        Seq::empty()
    }) + text::joined(place.1, "/"@)
}

impl Clone for Place {
    fn clone(&self) -> (r: Self)
        ensures
            r@ == self@,
    {
        let mut parts: Vec<String> = Vec::new();
        let mut i: usize = 0;
        while i < self.parts.len()
            invariant
                i <= self.parts@.len(),
                parts@ == self.parts@.take(i as int),
            decreases self.parts@.len() - i,
        {
            parts.push(self.parts[i].clone());
            i = i + 1;
        }
        assert(parts@ =~= self.parts@);
        Place { absolute: self.absolute, parts }
    }
}

impl Place {
    /// Whether two places are the same.
    pub fn same_as(&self, other: &Place) -> (r: bool)
        ensures
            r == (self@ == other@),
    {
        self.absolute == other.absolute && text::same_list(&self.parts, &other.parts)
    }

    /// The place that holds this one, where there is one.
    pub fn parent(&self) -> (r: Option<Place>)
        ensures
            match r {
                Some(place) => parent(self@) == Some(place@),
                None => parent(self@) is None,
            },
    {
        if self.parts.len() == 0 {
            return None;
        }
        let mut place = self.clone();
        let ghost was = place.parts@;
        let _ = place.parts.pop();
        assert(text::views(place.parts@) =~= text::views(was).drop_last());
        Some(place)
    }

    /// The name this place ends in, where it ends in one.
    pub fn name(&self) -> (r: Option<&String>)
        ensures
            match r {
                Some(name) => last_name(self@) == Some(name@),
                None => last_name(self@) is None,
            },
    {
        if self.parts.len() == 0 {
            return None;
        }
        let name = &self.parts[self.parts.len() - 1];
        if same(name.as_str(), "..") || same(name.as_str(), ".") {
            None
        } else {
            Some(name)
        }
    }

    /// Where a path leads from this place.
    pub fn inside(&self, name: &str) -> (r: Place)
        ensures
            r@ == inside(self@, name@),
    {
        let mut place = if has_prefix(name, "/") {
            Place { absolute: true, parts: Vec::new() }
        } else {
            self.clone()
        };
        proof {
            reveal_strlit("/");
            if name@.len() > 0 {
                assert(name@.subrange(0, 1) =~= seq![name@[0]]);
                assert("/"@ =~= seq!['/']);
                assert(seq![name@[0]][0] == name@[0]);
            }
            assert(has_slash(name@) == text::begins_with(name@, "/"@));
        }
        let pieces = split(name, '/');
        let ghost all = text::views(pieces@);
        let ghost base = place@;
        assert(has_slash(name@) ==> base.1 =~= Seq::empty());
        let mut i: usize = 0;
        assert(base.1 =~= followed_by(base.0, base.1, all.take(0)));
        while i < pieces.len()
            invariant
                i <= pieces@.len(),
                all == text::views(pieces@),
                place@ == (base.0, followed_by(base.0, base.1, all.take(i as int))),
            decreases pieces@.len() - i,
        {
            assert(all.take(i + 1).drop_last() =~= all.take(i as int));
            assert(all[i as int] == pieces@[i as int]@);
            let ghost was = place.parts@;
            let piece = pieces[i].as_str();
            let idle = piece.is_empty() || (same(piece, ".") && (place.absolute || place.parts.len() > 0));
            if !idle {
                place.parts.push(pieces[i].clone());
                assert(text::views(place.parts@) =~= text::views(was).push(all[i as int]));
            }
            i = i + 1;
        }
        assert(all.take(i as int) =~= all);
        place
    }

    /// This place in writing.
    pub fn text(&self) -> (r: String)
        ensures
            r@ == written(self@),
    {
        let mut r = String::new();
        if self.absolute {
            r.append("/");
            assert(r@ =~= "/"@);
        }
        r.append(join(&self.parts, "/").as_str());
        r
    }
}

// --- what is found ----------------------------------------------------------------------------

/// Whether a schema's tables are users' tables.
pub open spec fn is_visible(schema: Seq<char>) -> bool {
    !text::begins_with(schema, "_"@)
}

/// The texts of a list that are users' schemas, in order.
pub open spec fn visible_of(schemas: Seq<Seq<char>>) -> Seq<Seq<char>>
    decreases schemas.len(),
{
    if schemas.len() == 0 {
        Seq::empty()
    } else if is_visible(schemas.last()) {
        visible_of(schemas.drop_last()).push(schemas.last())
    } else {
        visible_of(schemas.drop_last())
    }
}

/// The users' schemas of a warehouse, in order, from the directories it holds. Two nodes that read
/// one warehouse meet its tables in the same order.
pub fn visible_schemas(directories: &Vec<String>) -> (r: Vec<String>)
    ensures
        exists|sorted: Seq<Seq<char>>| #[trigger]
            textmap::in_order_of(sorted, text::views(directories@)) && text::views(r@) == visible_of(sorted),
{
    let sorted = in_order(directories);
    let ghost all = text::views(sorted@);
    let mut r: Vec<String> = Vec::new();
    let mut i: usize = 0;
    assert(text::views(r@) =~= visible_of(all.take(0)));
    while i < sorted.len()
        invariant
            i <= sorted@.len(),
            all == text::views(sorted@),
            text::views(r@) == visible_of(all.take(i as int)),
        decreases sorted@.len() - i,
    {
        assert(all.take(i + 1).drop_last() =~= all.take(i as int));
        if !has_prefix(sorted[i].as_str(), "_") {
            let ghost was = r@;
            r.push(sorted[i].clone());
            assert(text::views(r@) =~= text::views(was).push(all[i as int]));
        }
        i = i + 1;
    }
    assert(all.take(all.len() as int) =~= all);
    r
}

/// A directory of a schema, as it is found.
#[derive(Debug)]
pub struct Found {
    /// Its schema.
    pub schema: String,
    /// Its name.
    pub name: String,
    /// Whether it holds a log, without which it is no table.
    pub has_log: bool,
    /// Whether its log could be read, or why not.
    pub opened: Result<(), String>,
}

/// The tables that were found and opened, in order.
pub open spec fn opened_tables(directories: Seq<Found>) -> Seq<(Seq<char>, Seq<char>)>
    decreases directories.len(),
{
    if directories.len() == 0 {
        Seq::empty()
    } else {
        let before = opened_tables(directories.drop_last());
        let last = directories.last();
        if last.has_log && last.opened is Ok {
            before.push((last.schema@, last.name@))
        } else {
            before
        }
    }
}

/// The tables that were found and could not be opened, in order, each with the reason.
pub open spec fn refused_tables(directories: Seq<Found>) -> Seq<(Seq<char>, Seq<char>, Seq<char>)>
    decreases directories.len(),
{
    if directories.len() == 0 {
        Seq::empty()
    } else {
        let before = refused_tables(directories.drop_last());
        let last = directories.last();
        match last.opened {
            Err(why) => if last.has_log {
                before.push((last.schema@, last.name@, why@))
            } else {
                before
            },
            Ok(_) => before,
        }
    }
}

/// A table that could not be opened, and why.
#[derive(PartialEq, Eq, Debug)]
pub struct RefusedTable {
    /// The table.
    pub table: TableName,
    /// Why.
    pub why: String,
}

impl View for RefusedTable {
    type V = (Seq<char>, Seq<char>, Seq<char>);

    open spec fn view(&self) -> (Seq<char>, Seq<char>, Seq<char>) {
        (self.table.schema@, self.table.table@, self.why@)
    }
}

/// The tables of a warehouse, and those that could not be opened. None is left out in silence: a
/// server that starts with three of four tables has an outage that looks like a missing table.
pub fn discover(directories: &Vec<Found>) -> (r: (Vec<TableName>, Vec<RefusedTable>))
    ensures
        r.0@.map_values(|t: TableName| t@) == opened_tables(directories@),
        r.1@.map_values(|t: RefusedTable| t@) == refused_tables(directories@),
{
    let mut found: Vec<TableName> = Vec::new();
    let mut refused: Vec<RefusedTable> = Vec::new();
    let mut i: usize = 0;
    assert(found@.map_values(|t: TableName| t@) =~= opened_tables(directories@.take(0)));
    assert(refused@.map_values(|t: RefusedTable| t@) =~= refused_tables(directories@.take(0)));
    while i < directories.len()
        invariant
            i <= directories@.len(),
            found@.map_values(|t: TableName| t@) == opened_tables(directories@.take(i as int)),
            refused@.map_values(|t: RefusedTable| t@) == refused_tables(directories@.take(i as int)),
        decreases directories@.len() - i,
    {
        assert(directories@.take(i + 1).drop_last() =~= directories@.take(i as int));
        let d = &directories[i];
        if d.has_log {
            let table = TableName { schema: d.schema.clone(), table: d.name.clone() };
            match &d.opened {
                Ok(_) => {
                    let ghost was = found@;
                    found.push(table);
                    assert(found@.map_values(|t: TableName| t@) =~= was.map_values(|t: TableName| t@).push(
                        (d.schema@, d.name@),
                    ));
                },
                Err(why) => {
                    let ghost was = refused@;
                    refused.push(RefusedTable { table, why: why.clone() });
                    assert(refused@.map_values(|t: RefusedTable| t@) =~= was.map_values(|t: RefusedTable| t@).push(
                        (d.schema@, d.name@, why@),
                    ));
                },
            }
        }
        i = i + 1;
    }
    assert(directories@.take(directories@.len() as int) =~= directories@);
    (found, refused)
}

/// An action of a table's log, as far as its shape goes.
#[derive(PartialEq, Eq, Debug)]
pub enum LogAction {
    /// A statement of the table's schema.
    Metadata(String),
    /// Anything else.
    Other,
}

/// The last schema a log states.
pub open spec fn last_schema(actions: Seq<LogAction>) -> Option<Seq<char>>
    decreases actions.len(),
{
    if actions.len() == 0 {
        None
    } else {
        match actions.last() {
            LogAction::Metadata(schema) => Some(schema@),
            LogAction::Other => last_schema(actions.drop_last()),
        }
    }
}

/// The schema a log states: the last, because a table that evolved states it anew.
pub fn open(actions: &Vec<LogAction>) -> (r: Result<&String, String>)
    ensures
        match r {
            Ok(schema) => last_schema(actions@) == Some(schema@),
            Err(why) => last_schema(actions@) is None && why@ == "the log contains no metadata action"@,
        },
{
    let mut i: usize = actions.len();
    assert(actions@.take(i as int) =~= actions@);
    while i > 0
        invariant
            i <= actions@.len(),
            last_schema(actions@) == last_schema(actions@.take(i as int)),
        decreases i,
    {
        i = i - 1;
        assert(actions@.take(i + 1).drop_last() =~= actions@.take(i as int));
        if let LogAction::Metadata(schema) = &actions[i] {
            return Ok(schema);
        }
    }
    Err("the log contains no metadata action".to_string())
}

/// Whether a table moved since it was resolved, and to which version. A log that cannot be read
/// says nothing, and the table is served as it was.
pub fn refresh(now: Option<u64>, resolved_at: u64) -> (r: Option<u64>)
    ensures
        r == (match now {
            Some(version) => if version != resolved_at {
                Some(version)
            } else {
                None
            },
            None => None,
        }),
{
    match now {
        Some(version) => {
            if version != resolved_at {
                Some(version)
            } else {
                None
            }
        },
        None => None,
    }
}

// --- what a name stands for -------------------------------------------------------------------

/// What a name resolved to.
#[derive(PartialEq, Eq, Debug)]
pub enum Resolved {
    /// Exactly one table.
    One(Place),
    /// No table of that name.
    Absent,
    /// Several, each by its qualified name.
    Ambiguous(Vec<String>),
}

/// The places where a table of a name may lie: the one a qualified name says, and for a bare name
/// one in each users' schema.
pub open spec fn places_to_look(
    warehouse: (bool, Seq<Seq<char>>),
    name: Seq<char>,
    schemas: Seq<Seq<char>>,
) -> Seq<(bool, Seq<Seq<char>>)> {
    match text::split_at_first(name, '.') {
        Some((schema, table)) => seq![inside(inside(warehouse, schema), table)],
        None => schemas.map_values(|schema: Seq<char>| inside(inside(warehouse, schema), name)),
    }
}

/// The places where a table of a name may lie. `schemas` are the users' schemas in order.
pub fn candidates(warehouse: &Place, name: &str, schemas: &Vec<String>) -> (r: Vec<Place>)
    ensures
        r@.map_values(|p: Place| p@) == places_to_look(warehouse@, name@, text::views(schemas@)),
{
    let mut r: Vec<Place> = Vec::new();
    if let Some((schema, table)) = split_once(name, '.') {
        r.push(warehouse.inside(schema.as_str()).inside(table.as_str()));
        assert(r@.map_values(|p: Place| p@) =~= places_to_look(warehouse@, name@, text::views(schemas@)));
        return r;
    }
    let mut i: usize = 0;
    while i < schemas.len()
        invariant
            i <= schemas@.len(),
            r@.len() == i,
            forall|k: int| 0 <= k < i ==> (#[trigger] r@[k])@ == inside(inside(warehouse@, schemas@[k]@), name@),
        decreases schemas@.len() - i,
    {
        r.push(warehouse.inside(schemas[i].as_str()).inside(name));
        i = i + 1;
    }
    assert(r@.map_values(|p: Place| p@) =~= places_to_look(warehouse@, name@, text::views(schemas@)));
    r
}

/// The places at which a table lies, in order.
pub open spec fn places_found(
    places: Seq<(bool, Seq<Seq<char>>)>,
    is_table: Seq<bool>,
) -> Seq<(bool, Seq<Seq<char>>)>
    decreases places.len(),
{
    if places.len() == 0 || is_table.len() != places.len() {
        Seq::empty()
    } else {
        let before = places_found(places.drop_last(), is_table.drop_last());
        if is_table.last() {
            before.push(places.last())
        } else {
            before
        }
    }
}

/// A table's name for a message that must be unambiguous: schema, dot, table; or the name alone for
/// a table that lies in the warehouse itself.
pub open spec fn name_of(
    warehouse: (bool, Seq<Seq<char>>),
    root: (bool, Seq<Seq<char>>),
) -> Option<Seq<char>> {
    match (last_name(root), parent(root)) {
        (Some(table), Some(schema)) => if schema == warehouse {
            Some(table)
        } else {
            match last_name(schema) {
                Some(name) => Some(name + "."@ + table),
                None => None,
            }
        },
        _ => None,
    }
}

/// The names of places, of those that have one, in order.
pub open spec fn names_of(
    warehouse: (bool, Seq<Seq<char>>),
    places: Seq<(bool, Seq<Seq<char>>)>,
) -> Seq<Seq<char>>
    decreases places.len(),
{
    if places.len() == 0 {
        Seq::empty()
    } else {
        match name_of(warehouse, places.last()) {
            Some(name) => names_of(warehouse, places.drop_last()).push(name),
            None => names_of(warehouse, places.drop_last()),
        }
    }
}

/// A table's name for a message that must be unambiguous.
#[must_use]
pub fn qualified_name(warehouse: &Place, root: &Place) -> (r: Option<String>)
    ensures
        match r {
            Some(name) => name_of(warehouse@, root@) == Some(name@),
            None => name_of(warehouse@, root@) is None,
        },
{
    match root.name() {
        None => None,
        Some(table) => match root.parent() {
            None => None,
            Some(schema) => {
                if schema.same_as(warehouse) {
                    return Some(table.clone());
                }
                match schema.name() {
                    None => None,
                    Some(name) => {
                        let mut r = name.clone();
                        r.append(".");
                        r.append(table.as_str());
                        Some(r)
                    },
                }
            },
        },
    }
}

/// What a name stands for, from the places looked at and whether a table lies at each. Two tables
/// of one name are both named, never one of them chosen.
pub fn resolve(warehouse: &Place, places: &Vec<Place>, is_table: &Vec<bool>) -> (r: Resolved)
    requires
        places@.len() == is_table@.len(),
    ensures
        ({
            let found = places_found(places@.map_values(|p: Place| p@), is_table@);
            match r {
                Resolved::One(place) => found == seq![place@],
                Resolved::Absent => found.len() == 0,
                Resolved::Ambiguous(names) => found.len() > 1 && text::views(names@) == names_of(warehouse@, found),
            }
        }),
{
    let ghost all = places@.map_values(|p: Place| p@);
    let mut found: Vec<Place> = Vec::new();
    let mut i: usize = 0;
    assert(found@.map_values(|p: Place| p@) =~= places_found(all.take(0), is_table@.take(0)));
    while i < places.len()
        invariant
            i <= places@.len(),
            places@.len() == is_table@.len(),
            all == places@.map_values(|p: Place| p@),
            found@.map_values(|p: Place| p@) == places_found(all.take(i as int), is_table@.take(i as int)),
        decreases places@.len() - i,
    {
        assert(all.take(i + 1).drop_last() =~= all.take(i as int));
        assert(is_table@.take(i + 1).drop_last() =~= is_table@.take(i as int));
        if is_table[i] {
            let ghost was = found@;
            found.push(places[i].clone());
            assert(found@.map_values(|p: Place| p@) =~= was.map_values(|p: Place| p@).push(all[i as int]));
        }
        i = i + 1;
    }
    assert(all.take(all.len() as int) =~= all);
    assert(is_table@.take(is_table@.len() as int) =~= is_table@);
    let ghost places_there = found@.map_values(|p: Place| p@);
    if found.len() == 0 {
        return Resolved::Absent;
    }
    if found.len() == 1 {
        let place = found[0].clone();
        assert(places_there =~= seq![place@]);
        return Resolved::One(place);
    }
    let mut names: Vec<String> = Vec::new();
    let mut k: usize = 0;
    assert(text::views(names@) =~= names_of(warehouse@, places_there.take(0)));
    while k < found.len()
        invariant
            k <= found@.len(),
            places_there == found@.map_values(|p: Place| p@),
            text::views(names@) == names_of(warehouse@, places_there.take(k as int)),
        decreases found@.len() - k,
    {
        assert(places_there.take(k + 1).drop_last() =~= places_there.take(k as int));
        if let Some(name) = qualified_name(warehouse, &found[k]) {
            let ghost was = names@;
            names.push(name);
            assert(text::views(names@) =~= text::views(was).push(name@));
        }
        k = k + 1;
    }
    assert(places_there.take(places_there.len() as int) =~= places_there);
    Resolved::Ambiguous(names)
}

// --- where a clone goes -----------------------------------------------------------------------

/// Why a clone cannot go where it was asked to.
#[derive(PartialEq, Eq, Debug)]
pub enum Misplaced {
    /// A schema was named that is not the origin's.
    OtherSchema {
        /// The schema asked for.
        asked: String,
        /// The origin's, which is the only one there is.
        origin: String,
    },
    /// The origin is in no schema.
    NoSchema,
}

impl Misplaced {
    /// The message an error is reported with.
    pub open spec fn message(self) -> Seq<char> {
        match self {
            Misplaced::OtherSchema { asked, origin } => "a clone stays in its origin's schema, and `"@ + origin@
                + "` is not `"@ + asked@
                + "`. A clone is a reference to its origin's files and is authorized through them, so one placed under another schema would have its name governed by one policy and its data by another"@,
            Misplaced::NoSchema => "the table to clone is not in a schema, so there is nowhere to put a clone beside it"@,
        }
    }

    /// The error as a sentence.
    pub fn to_string(&self) -> (r: String)
        ensures
            r@ == self.message(),
    {
        match self {
            Misplaced::OtherSchema { asked, origin } => {
                let mut r = "a clone stays in its origin's schema, and `".to_string();
                r.append(origin.as_str());
                r.append("` is not `");
                r.append(asked.as_str());
                r.append(
                    "`. A clone is a reference to its origin's files and is authorized through them, so one placed under another schema would have its name governed by one policy and its data by another",
                );
                r
            },
            Misplaced::NoSchema => {
                "the table to clone is not in a schema, so there is nowhere to put a clone beside it".to_string()
            },
        }
    }
}

/// The name of the schema a table lies in, or an empty one.
pub open spec fn schema_name(root: (bool, Seq<Seq<char>>)) -> Seq<char> {
    match parent(root) {
        Some(schema) => match last_name(schema) {
            Some(name) => name,
            None => Seq::empty(),
        },
        None => Seq::empty(),
    }
}

/// Whether a place is that of a table in a schema: it lies in the schema itself, and has a name.
pub open spec fn lies_in(place: (bool, Seq<Seq<char>>), schema: (bool, Seq<Seq<char>>)) -> bool {
    parent(place) == Some(schema) && last_name(place) is Some
}

/// Where a clone of a name goes, where it may go there: beside its origin, always. A qualified name
/// is obeyed only where it names the schema the origin is in, and no name that leads out of it is:
/// elsewhere the clone's name would be governed by one policy and its data by another.
pub open spec fn beside(
    warehouse: (bool, Seq<Seq<char>>),
    name: Seq<char>,
    origin: (bool, Seq<Seq<char>>),
) -> Option<(bool, Seq<Seq<char>>)> {
    match parent(origin) {
        None => None,
        Some(schema) => {
            let place = match text::split_at_first(name, '.') {
                None => inside(schema, name),
                Some((_, table)) => inside(schema, table),
            };
            if (text::split_at_first(name, '.') matches Some((asked, _)) ==> inside(warehouse, asked) == schema)
                && lies_in(place, schema) {
                Some(place)
            } else {
                None
            }
        },
    }
}

/// What a name asks for that is not the origin's schema: the schema it names, or the whole of one
/// that leads out of it.
pub open spec fn asked_for(
    warehouse: (bool, Seq<Seq<char>>),
    name: Seq<char>,
    origin: (bool, Seq<Seq<char>>),
) -> Seq<char> {
    match text::split_at_first(name, '.') {
        Some((schema, _)) if parent(origin) != Some(inside(warehouse, schema)) => schema,
        _ => name,
    }
}

/// Whether a clone of a name has no schema to go to: it names none, and its origin is in none.
pub open spec fn has_nowhere(name: Seq<char>, origin: (bool, Seq<Seq<char>>)) -> bool {
    text::split_at_first(name, '.') is None && parent(origin) is None
}

/// Where a clone goes: beside its origin, always.
pub fn place_beside(warehouse: &Place, name: &str, origin_root: &Place) -> (r: Result<Place, Misplaced>)
    ensures
        match r {
            Ok(place) => beside(warehouse@, name@, origin_root@) == Some(place@),
            Err(Misplaced::NoSchema) => has_nowhere(name@, origin_root@),
            Err(Misplaced::OtherSchema { asked, origin }) => {
                &&& beside(warehouse@, name@, origin_root@) is None
                &&& !has_nowhere(name@, origin_root@)
                &&& asked@ == asked_for(warehouse@, name@, origin_root@)
                &&& origin@ == schema_name(origin_root@)
            },
        },
{
    let origin_schema = origin_root.parent();
    let origin = match &origin_schema {
        Some(schema) => match schema.name() {
            Some(name) => name.clone(),
            None => String::new(),
        },
        None => String::new(),
    };
    assert(origin@ =~= schema_name(origin_root@));
    let asked = split_once(name, '.');
    match &origin_schema {
        None => match asked {
            None => Err(Misplaced::NoSchema),
            Some((schema, _)) => Err(Misplaced::OtherSchema { asked: schema, origin }),
        },
        Some(beside) => {
            let place = match asked {
                None => beside.inside(name),
                Some((schema, table)) => {
                    if !warehouse.inside(schema.as_str()).same_as(beside) {
                        return Err(Misplaced::OtherSchema { asked: schema, origin });
                    }
                    beside.inside(table.as_str())
                },
            };
            let stays = match place.parent() {
                Some(schema) => schema.same_as(beside),
                None => false,
            };
            if stays && place.name().is_some() {
                Ok(place)
            } else {
                Err(Misplaced::OtherSchema { asked: name.to_owned(), origin })
            }
        },
    }
}

/// A clone always lies in the schema its origin lies in, whatever it is called.
pub proof fn clones_stay_beside_their_origin(
    warehouse: (bool, Seq<Seq<char>>),
    name: Seq<char>,
    origin: (bool, Seq<Seq<char>>),
)
    ensures
        beside(warehouse, name, origin) matches Some(place) ==> parent(place) == parent(origin) && last_name(
            place,
        ) is Some,
{
}

// --- what a schema browser sees ---------------------------------------------------------------

/// One column of a table, as a schema browser sees it.
#[derive(PartialEq, Eq, Debug)]
pub struct CatalogColumn {
    /// Its name.
    pub name: String,
    /// Its type's name.
    pub sql_type: String,
    /// Its type's number.
    pub type_oid: i32,
    /// Whether a value may be missing.
    pub nullable: bool,
}

impl View for CatalogColumn {
    type V = (Seq<char>, Seq<char>, i32, bool);

    open spec fn view(&self) -> (Seq<char>, Seq<char>, i32, bool) {
        (self.name@, self.sql_type@, self.type_oid, self.nullable)
    }
}

/// The name and number a schema browser is told of a type.
pub open spec fn catalogue_type(kind: ColumnType) -> (Seq<char>, i32) {
    match kind {
        ColumnType::Boolean => ("bool"@, wire::OID_BOOL),
        ColumnType::Int8 => ("int2"@, wire::OID_INT2),
        ColumnType::Int16 => ("int2"@, wire::OID_INT2),
        ColumnType::Int32 => ("int4"@, wire::OID_INT4),
        ColumnType::Int64 => ("int8"@, wire::OID_INT8),
        ColumnType::UInt64 => ("int8"@, wire::OID_INT8),
        ColumnType::Float32 => ("float4"@, wire::OID_FLOAT4),
        ColumnType::Float64 => ("float8"@, wire::OID_FLOAT8),
        ColumnType::Decimal128 => ("numeric"@, wire::OID_NUMERIC),
        ColumnType::Date32 => ("date"@, wire::OID_DATE),
        ColumnType::Timestamp => ("timestamp"@, wire::OID_TIMESTAMP),
        ColumnType::ZonedTimestamp => ("timestamp"@, wire::OID_TIMESTAMP),
        ColumnType::Binary => ("bytea"@, wire::OID_BYTEA),
        ColumnType::LargeBinary => ("bytea"@, wire::OID_BYTEA),
        _ => ("text"@, wire::OID_TEXT),
    }
}

fn type_in_catalogue(kind: ColumnType) -> (r: (&'static str, i32))
    ensures
        (r.0@, r.1) == catalogue_type(kind),
{
    match kind {
        ColumnType::Boolean => ("bool", wire::OID_BOOL),
        ColumnType::Int8 => ("int2", wire::OID_INT2),
        ColumnType::Int16 => ("int2", wire::OID_INT2),
        ColumnType::Int32 => ("int4", wire::OID_INT4),
        ColumnType::Int64 => ("int8", wire::OID_INT8),
        ColumnType::UInt64 => ("int8", wire::OID_INT8),
        ColumnType::Float32 => ("float4", wire::OID_FLOAT4),
        ColumnType::Float64 => ("float8", wire::OID_FLOAT8),
        ColumnType::Decimal128 => ("numeric", wire::OID_NUMERIC),
        ColumnType::Date32 => ("date", wire::OID_DATE),
        ColumnType::Timestamp => ("timestamp", wire::OID_TIMESTAMP),
        ColumnType::ZonedTimestamp => ("timestamp", wire::OID_TIMESTAMP),
        ColumnType::Binary => ("bytea", wire::OID_BYTEA),
        ColumnType::LargeBinary => ("bytea", wire::OID_BYTEA),
        _ => ("text", wire::OID_TEXT),
    }
}

/// A column of a table: its name, its type, whether a value may be missing.
#[derive(PartialEq, Eq, Debug)]
pub struct TableColumn {
    /// Its name.
    pub name: String,
    /// Its type.
    pub kind: ColumnType,
    /// Whether a value may be missing.
    pub nullable: bool,
}

/// What a schema browser sees of a table's columns.
pub open spec fn catalogue_columns(columns: Seq<TableColumn>) -> Seq<(Seq<char>, Seq<char>, i32, bool)> {
    columns.map_values(
        |c: TableColumn| (c.name@, catalogue_type(c.kind).0, catalogue_type(c.kind).1, c.nullable),
    )
}

/// What a schema browser sees of a table's columns.
#[must_use]
pub fn describe(columns: &Vec<TableColumn>) -> (r: Vec<CatalogColumn>)
    ensures
        r@.map_values(|c: CatalogColumn| c@) == catalogue_columns(columns@),
{
    let mut r: Vec<CatalogColumn> = Vec::new();
    let mut i: usize = 0;
    while i < columns.len()
        invariant
            i <= columns@.len(),
            r@.len() == i,
            forall|k: int| 0 <= k < i ==> (#[trigger] r@[k])@ == catalogue_columns(columns@)[k],
        decreases columns@.len() - i,
    {
        let c = &columns[i];
        let (sql_type, type_oid) = type_in_catalogue(c.kind);
        r.push(
            CatalogColumn {
                name: c.name.clone(),
                sql_type: sql_type.to_string(),
                type_oid,
                nullable: c.nullable,
            },
        );
        i = i + 1;
    }
    assert(r@.map_values(|c: CatalogColumn| c@) =~= catalogue_columns(columns@));
    r
}

// --- opening ----------------------------------------------------------------------------------

/// The places of the tables that were opened, where each comes with why it was not.
pub open spec fn opened(tables: Seq<(Seq<char>, Option<Seq<char>>)>) -> Seq<int>
    decreases tables.len(),
{
    if tables.len() == 0 {
        Seq::empty()
    } else {
        let before = opened(tables.drop_last());
        if tables.last().1 is None {
            before.push(tables.len() - 1)
        } else {
            before
        }
    }
}

/// The tables that were not opened, each with why.
pub open spec fn unopened(tables: Seq<(Seq<char>, Option<Seq<char>>)>) -> Seq<(Seq<char>, Seq<char>)>
    decreases tables.len(),
{
    if tables.len() == 0 {
        Seq::empty()
    } else {
        let before = unopened(tables.drop_last());
        match tables.last().1 {
            Some(why) => before.push((tables.last().0, why)),
            None => before,
        }
    }
}

/// The tables that are served, by their places, and those that are not, each with where it lies and
/// why: `tables` says of each where it lies and why it could not be opened, where it could not.
pub fn servable(tables: &Vec<(String, Option<String>)>) -> (r: (Vec<usize>, Vec<(String, String)>))
    ensures
        ({
            let all = tables@.map_values(|t: (String, Option<String>)| (t.0@, wire::cell(t.1)));
            &&& r.0@.map_values(|i: usize| i as int) == opened(all)
            &&& crate::config::pairs(r.1@) == unopened(all)
        }),
        r.0@.len() + r.1@.len() == tables@.len(),
{
    let ghost all = tables@.map_values(|t: (String, Option<String>)| (t.0@, wire::cell(t.1)));
    let mut open: Vec<usize> = Vec::new();
    let mut refused: Vec<(String, String)> = Vec::new();
    let mut i: usize = 0;
    assert(open@.map_values(|i: usize| i as int) =~= Seq::empty());
    assert(crate::config::pairs(refused@) =~= Seq::empty());
    while i < tables.len()
        invariant
            i <= tables@.len(),
            all == tables@.map_values(|t: (String, Option<String>)| (t.0@, wire::cell(t.1))),
            open@.map_values(|i: usize| i as int) == opened(all.take(i as int)),
            crate::config::pairs(refused@) == unopened(all.take(i as int)),
            open@.len() + refused@.len() == i,
        decreases tables@.len() - i,
    {
        assert(all.take(i + 1).drop_last() =~= all.take(i as int));
        match &tables[i].1 {
            None => {
                let ghost was = open@;
                open.push(i);
                assert(open@.map_values(|i: usize| i as int) =~= was.map_values(|i: usize| i as int).push(i as int));
            },
            Some(why) => {
                let ghost was = refused@;
                refused.push((tables[i].0.clone(), why.clone()));
                assert(crate::config::pairs(refused@) =~= crate::config::pairs(was).push((tables@[i as int].0@, why@)));
            },
        }
        i = i + 1;
    }
    assert(all.take(all.len() as int) =~= all);
    (open, refused)
}

/// Whether a text is one plain piece of a path: not empty, with no slash, and no dot that stands for here.
pub open spec fn is_piece(s: Seq<char>) -> bool {
    s.len() > 0 && !s.contains('/') && s != "."@
}

proof fn lemma_one_piece(absolute: bool, parts: Seq<Seq<char>>, name: Seq<char>)
    requires
        is_piece(name),
    ensures
        followed_by(absolute, parts, text::split_on(name, '/')) == parts.push(name),
{
    text::lemma_uncut(name, '/');
    let pieces = seq![name];
    assert(pieces.drop_last() =~= Seq::empty());
    reveal_with_fuel(followed_by, 2);
}

/// A plain name leads to what lies under it in a place, a path that begins with a slash leads from the root
/// wherever it is followed, and a path of nothing, or of here, stays.
pub proof fn names_lead_inside(place: (bool, Seq<Seq<char>>), name: Seq<char>)
    ensures
        is_piece(name) ==> inside(place, name) == (place.0, place.1.push(name)) && parent(inside(place, name)) == Some(
            place,
        ),
        is_piece(name) && name != ".."@ ==> last_name(inside(place, name)) == Some(name),
        has_slash(name) ==> inside(place, name).0 && inside(place, name) == inside((true, Seq::empty()), name),
        inside(place, Seq::empty()) == place,
        place.0 || place.1.len() > 0 ==> inside(place, "."@) == place,
{
    if is_piece(name) {
        lemma_one_piece(place.0, place.1, name);
        assert(place.1.push(name).drop_last() =~= place.1);
        if has_slash(name) {
            assert(name.contains(name[0]));
        }
    }
    reveal_with_fuel(followed_by, 2);
    reveal_strlit(".");
    text::lemma_uncut(Seq::empty(), '/');
    text::lemma_uncut("."@, '/');
    assert(seq![Seq::<char>::empty()].drop_last() =~= Seq::empty());
    assert(seq!["."@].drop_last() =~= Seq::empty());
}

proof fn lemma_pieces(absolute: bool, parts: Seq<Seq<char>>, pieces: Seq<Seq<char>>)
    requires
        forall|i: int| 0 <= i < pieces.len() ==> is_piece(#[trigger] pieces[i]),
    ensures
        followed_by(absolute, parts, pieces) == parts + pieces,
    decreases pieces.len(),
{
    if pieces.len() > 0 {
        assert(is_piece(pieces[pieces.len() - 1]));
        assert forall|i: int| 0 <= i < pieces.drop_last().len() implies is_piece(#[trigger] pieces.drop_last()[i]) by {
            assert(is_piece(pieces[i]));
        }
        lemma_pieces(absolute, parts, pieces.drop_last());
        assert(followed_by(absolute, parts, pieces) =~= parts + pieces);
    } else {
        assert(parts + pieces =~= parts);
    }
}

/// A place reads back from its writing: followed from the root where it is absolute, and from nowhere
/// where it is not.
pub proof fn places_read_back(place: (bool, Seq<Seq<char>>))
    requires
        place.1.len() > 0,
        forall|i: int| 0 <= i < place.1.len() ==> is_piece(#[trigger] place.1[i]),
    ensures
        inside((place.0, Seq::empty()), written(place)) == place,
        has_slash(written(place)) <==> place.0,
{
    let parts = place.1;
    let w = written(place);
    reveal_strlit("/");
    assert("/"@ =~= seq!['/']);
    assert forall|i: int| 0 <= i < parts.len() implies !(#[trigger] parts[i]).contains('/') by {
        assert(is_piece(parts[i]));
    }
    let j = text::joined(parts, "/"@);
    text::joined_parts_come_back(parts, '/');
    lemma_pieces(place.0, Seq::empty(), parts);
    assert(Seq::<Seq<char>>::empty() + parts =~= parts);
    lemma_begins(parts);
    assert(is_piece(parts[0]));
    assert(!parts[0].contains('/'));
    if j[0] == '/' {
        assert(parts[0].contains(parts[0][0]));
    }
    if place.0 {
        assert(w =~= Seq::<char>::empty() + seq!['/'] + j);
        text::lemma_cut_at_first(Seq::empty(), j, '/');
        assert(text::split_on(w, '/') =~= seq![Seq::<char>::empty()] + parts);
        lemma_empty_first(true, parts);
    } else {
        assert(w =~= j);
    }
}

proof fn lemma_empty_first(absolute: bool, pieces: Seq<Seq<char>>)
    ensures
        followed_by(absolute, Seq::empty(), seq![Seq::<char>::empty()] + pieces) == followed_by(
            absolute,
            Seq::empty(),
            pieces,
        ),
    decreases pieces.len(),
{
    let all = seq![Seq::<char>::empty()] + pieces;
    if pieces.len() == 0 {
        assert(all.drop_last() =~= Seq::empty());
        reveal_with_fuel(followed_by, 2);
    } else {
        assert(all.drop_last() =~= seq![Seq::<char>::empty()] + pieces.drop_last());
        lemma_empty_first(absolute, pieces.drop_last());
    }
}

proof fn lemma_begins(parts: Seq<Seq<char>>)
    requires
        parts.len() > 0,
        parts[0].len() > 0,
    ensures
        text::joined(parts, "/"@).len() > 0,
        text::joined(parts, "/"@)[0] == parts[0][0],
    decreases parts.len(),
{
    if parts.len() > 1 {
        assert(parts.drop_last()[0] == parts[0]);
        lemma_begins(parts.drop_last());
    }
}

/// A name of a schema and a table is looked for at one place, that of the table in the schema; a bare one
/// in every schema. What is found there goes by the name of its schema and its own.
pub proof fn tables_lie_under_their_schemas(
    warehouse: (bool, Seq<Seq<char>>),
    schema: Seq<char>,
    table: Seq<char>,
    schemas: Seq<Seq<char>>,
)
    requires
        is_piece(schema) && is_piece(table),
        !schema.contains('.'),
        forall|i: int| 0 <= i < schemas.len() ==> is_piece(#[trigger] schemas[i]),
    ensures
        places_to_look(warehouse, schema + "."@ + table, schemas) == seq![
            (warehouse.0, warehouse.1.push(schema).push(table)),
        ],
        !table.contains('.') ==> places_to_look(warehouse, table, schemas).len() == schemas.len() && forall|i: int|
            0 <= i < schemas.len() ==> #[trigger] places_to_look(warehouse, table, schemas)[i] == (
                warehouse.0,
                warehouse.1.push(schemas[i]).push(table),
            ),
        table != ".."@ && schema != ".."@ ==> name_of(warehouse, (warehouse.0, warehouse.1.push(schema).push(table)))
            == Some(schema + "."@ + table),
        table != ".."@ ==> name_of(warehouse, (warehouse.0, warehouse.1.push(table))) == Some(table),
{
    reveal_strlit(".");
    assert("."@ =~= seq!['.']);
    text::lemma_cut_at_first(schema, table, '.');
    names_lead_inside(warehouse, schema);
    names_lead_inside(inside(warehouse, schema), table);
    if !table.contains('.') {
        text::lemma_uncut(table, '.');
        assert forall|i: int| 0 <= i < schemas.len() implies #[trigger] places_to_look(warehouse, table, schemas)[i] == (
            warehouse.0,
            warehouse.1.push(schemas[i]).push(table),
        ) by {
            assert(is_piece(schemas[i]));
            names_lead_inside(warehouse, schemas[i]);
            names_lead_inside(inside(warehouse, schemas[i]), table);
        }
    }
    let root = warehouse.1.push(schema).push(table);
    assert(root.drop_last() =~= warehouse.1.push(schema));
    assert(warehouse.1.push(schema).len() != warehouse.1.len());
    assert(warehouse.1.push(table).drop_last() =~= warehouse.1);
}

/// A clone goes where its name says beside its origin: a bare name, or one with the origin's own schema in
/// front, leads into that schema; one with any other schema leads nowhere.
pub proof fn clones_go_where_they_are_named(
    warehouse: (bool, Seq<Seq<char>>),
    schema: Seq<char>,
    table: Seq<char>,
    other: Seq<char>,
    name: Seq<char>,
)
    requires
        is_piece(schema) && is_piece(other) && is_piece(name),
        !schema.contains('.') && !other.contains('.') && !name.contains('.'),
    ensures
        ({
            let origin = (warehouse.0, warehouse.1.push(schema).push(table));
            let goes = (warehouse.0, warehouse.1.push(schema).push(name));
            &&& beside(warehouse, name, origin) == Some(goes)
            &&& beside(warehouse, schema + "."@ + name, origin) == Some(goes)
            &&& other != schema ==> beside(warehouse, other + "."@ + name, origin) is None
        }),
{
    reveal_strlit(".");
    reveal_strlit("..");
    assert("."@ =~= seq!['.']);
    let home = warehouse.1.push(schema);
    let origin = (warehouse.0, home.push(table));
    assert(home.push(table).drop_last() =~= home);
    assert(parent(origin) == Some((warehouse.0, home)));
    text::lemma_uncut(name, '.');
    text::lemma_cut_at_first(schema, name, '.');
    text::lemma_cut_at_first(other, name, '.');
    names_lead_inside(warehouse, schema);
    names_lead_inside(warehouse, other);
    names_lead_inside((warehouse.0, home), name);
    assert(name != ".."@) by {
        assert(".."@[0] == '.');
        if name == ".."@ {
            assert(name.contains(name[0]));
        }
    }
    if other != schema {
        assert(warehouse.1.push(other).last() != home.last());
    }
}

/// Schemas that begin with an underscore hold what is the warehouse's own, and are passed over; every other
/// is seen.
pub proof fn underscores_hide_schemas(schema: Seq<char>)
    ensures
        is_visible(schema) <==> !(schema.len() > 0 && schema[0] == '_'),
{
    reveal_strlit("_");
    if schema.len() > 0 {
        assert(schema.subrange(0, 1) =~= seq![schema[0]]);
        assert("_"@ =~= seq!['_']);
        assert(seq![schema[0]][0] == schema[0]);
        if schema.subrange(0, 1) == "_"@ {
            assert(schema.subrange(0, 1)[0] == '_');
        }
    }
}

/// The schema of a table is the last that its log states.
pub proof fn the_last_schema_holds(actions: Seq<LogAction>)
    ensures
        match last_schema(actions) {
            Some(schema) => exists|i: int|
                0 <= i < actions.len() && (#[trigger] actions[i] matches LogAction::Metadata(s) && s@ == schema)
                    && forall|
                    k: int,
                |
                    i < k < actions.len() ==> #[trigger] actions[k] is Other,
            None => forall|i: int| 0 <= i < actions.len() ==> #[trigger] actions[i] is Other,
        },
    decreases actions.len(),
{
    if actions.len() > 0 {
        let before = actions.drop_last();
        let n = actions.len() - 1;
        if actions.last() is Other {
            the_last_schema_holds(before);
            match last_schema(before) {
                Some(schema) => {
                    let i = choose|i: int|
                        0 <= i < before.len() && (#[trigger] before[i] matches LogAction::Metadata(s) && s@ == schema)
                            && forall|k: int| i < k < before.len() ==> #[trigger] before[k] is Other;
                    assert(actions[i] == before[i]);
                    assert forall|k: int| i < k < actions.len() implies #[trigger] actions[k] is Other by {
                        if k < n {
                            assert(before[k] is Other);
                        }
                    }
                },
                None => {
                    assert forall|i: int| 0 <= i < actions.len() implies #[trigger] actions[i] is Other by {
                        if i < n {
                            assert(before[i] is Other);
                        }
                    }
                },
            }
        } else {
            assert(actions[n] is Metadata);
        }
    }
}

/// The types a schema browser is told of are by the names and numbers that clients know.
pub proof fn browsers_know_the_types(kind: ColumnType)
    ensures
        catalogue_type(kind).1 == 16 <==> kind is Boolean,
        catalogue_type(kind).1 == 21 <==> kind is Int8 || kind is Int16,
        catalogue_type(kind).1 == 23 <==> kind is Int32,
        catalogue_type(kind).1 == 20 <==> kind is Int64 || kind is UInt64,
        catalogue_type(kind).1 == 700 <==> kind is Float32,
        catalogue_type(kind).1 == 701 <==> kind is Float64,
        catalogue_type(kind).1 == 1700 <==> kind is Decimal128,
        catalogue_type(kind).1 == 1082 <==> kind is Date32,
        catalogue_type(kind).1 == 1114 <==> kind is Timestamp || kind is ZonedTimestamp,
        catalogue_type(kind).1 == 17 <==> kind is Binary || kind is LargeBinary,
        catalogue_type(kind).0 == (if catalogue_type(kind).1 == 16 {
            "bool"@
        } else if catalogue_type(kind).1 == 21 {
            "int2"@
        } else if catalogue_type(kind).1 == 23 {
            "int4"@
        } else if catalogue_type(kind).1 == 20 {
            "int8"@
        } else if catalogue_type(kind).1 == 700 {
            "float4"@
        } else if catalogue_type(kind).1 == 701 {
            "float8"@
        } else if catalogue_type(kind).1 == 1700 {
            "numeric"@
        } else if catalogue_type(kind).1 == 1082 {
            "date"@
        } else if catalogue_type(kind).1 == 1114 {
            "timestamp"@
        } else if catalogue_type(kind).1 == 17 {
            "bytea"@
        } else {
            "text"@
        }),
        catalogue_type(kind).1 == 16 || catalogue_type(kind).1 == 17 || catalogue_type(kind).1 == 20 || catalogue_type(
            kind,
        ).1 == 21 || catalogue_type(kind).1 == 23 || catalogue_type(kind).1 == 25 || catalogue_type(kind).1 == 700
            || catalogue_type(kind).1 == 701 || catalogue_type(kind).1 == 1082 || catalogue_type(kind).1 == 1114
            || catalogue_type(kind).1 == 1700,
{
}

/// The schemas that are seen are those that are not hidden, in order.
pub proof fn hidden_schemas_are_passed_over(schemas: Seq<Seq<char>>)
    ensures
        lists::picked_from(schemas, visible_of(schemas), |a: Seq<char>, b: Seq<char>| b == a && !(a.len() > 0
            && a[0] == '_')),
    decreases schemas.len(),
{
    let p = |a: Seq<char>, b: Seq<char>| b == a && !(a.len() > 0 && a[0] == '_');
    if schemas.len() == 0 {
        lists::lemma_picked_none::<Seq<char>, Seq<char>>(p);
        assert(schemas =~= Seq::empty());
    } else {
        hidden_schemas_are_passed_over(schemas.drop_last());
        let earlier = visible_of(schemas.drop_last());
        let last = schemas.last();
        underscores_hide_schemas(last);
        if is_visible(last) {
            lists::lemma_picked_one(schemas, earlier, p, last);
        } else {
            lists::lemma_passed_over(schemas, earlier, p);
        }
    }
}

/// The tables of a warehouse are the directories that have a log that opens, in order.
pub proof fn logs_that_open_are_tables(directories: Seq<Found>)
    ensures
        lists::picked_from(directories, opened_tables(directories), |d: Found, t: (Seq<char>, Seq<char>)| d.has_log
            && d.opened is Ok && t == (d.schema@, d.name@)),
    decreases directories.len(),
{
    let p = |d: Found, t: (Seq<char>, Seq<char>)| d.has_log && d.opened is Ok && t == (d.schema@, d.name@);
    if directories.len() == 0 {
        lists::lemma_picked_none::<Found, (Seq<char>, Seq<char>)>(p);
        assert(directories =~= Seq::empty());
    } else {
        logs_that_open_are_tables(directories.drop_last());
        let earlier = opened_tables(directories.drop_last());
        let last = directories.last();
        if last.has_log && last.opened is Ok {
            lists::lemma_picked_one(directories, earlier, p, (last.schema@, last.name@));
        } else {
            lists::lemma_passed_over(directories, earlier, p);
        }
    }
}

/// Every directory whose log does not open is named, with the reason: no table is left out in silence.
pub proof fn logs_that_do_not_open_are_said(directories: Seq<Found>)
    ensures
        lists::picked_from(directories, refused_tables(directories), |d: Found, t: (Seq<char>, Seq<char>, Seq<char>)| d.has_log
            && (d.opened matches Err(why) && t == (d.schema@, d.name@, why@))),
    decreases directories.len(),
{
    let p = |d: Found, t: (Seq<char>, Seq<char>, Seq<char>)| d.has_log && (d.opened matches Err(why)
        && t == (d.schema@, d.name@, why@));
    if directories.len() == 0 {
        lists::lemma_picked_none::<Found, (Seq<char>, Seq<char>, Seq<char>)>(p);
        assert(directories =~= Seq::empty());
    } else {
        logs_that_do_not_open_are_said(directories.drop_last());
        let earlier = refused_tables(directories.drop_last());
        let last = directories.last();
        match last.opened {
            Err(why) => {
                if last.has_log {
                    lists::lemma_picked_one(directories, earlier, p, (last.schema@, last.name@, why@));
                } else {
                    lists::lemma_passed_over(directories, earlier, p);
                }
            },
            Ok(_) => {
                lists::lemma_passed_over(directories, earlier, p);
            },
        }
    }
}

/// The tables that are served are those that opened, in order.
pub proof fn opened_tables_are_served(tables: Seq<(Seq<char>, Option<Seq<char>>)>)
    ensures
        lists::places_where(tables, opened(tables), |t: (Seq<char>, Option<Seq<char>>)| t.1 is None),
    decreases tables.len(),
{
    if tables.len() > 0 {
        opened_tables_are_served(tables.drop_last());
        lists::lemma_one_more_place(tables, opened(tables.drop_last()), |t: (Seq<char>, Option<Seq<char>>)| t.1 is None);
    }
}

/// Each table that did not open is named, with the reason.
pub proof fn unopened_tables_are_said(tables: Seq<(Seq<char>, Option<Seq<char>>)>)
    ensures
        lists::picked_from(tables, unopened(tables), |t: (Seq<char>, Option<Seq<char>>), u: (Seq<char>, Seq<char>)| t.1 == Some(u.1)
            && u.0 == t.0),
    decreases tables.len(),
{
    let p = |t: (Seq<char>, Option<Seq<char>>), u: (Seq<char>, Seq<char>)| t.1 == Some(u.1) && u.0 == t.0;
    if tables.len() == 0 {
        lists::lemma_picked_none::<(Seq<char>, Option<Seq<char>>), (Seq<char>, Seq<char>)>(p);
        assert(tables =~= Seq::empty());
    } else {
        unopened_tables_are_said(tables.drop_last());
        let earlier = unopened(tables.drop_last());
        let last = tables.last();
        match last.1 {
            Some(why) => {
                lists::lemma_picked_one(tables, earlier, p, (last.0, why));
            },
            None => {
                lists::lemma_passed_over(tables, earlier, p);
            },
        }
    }
}

/// What is found is exactly the places that are tables, in order.
pub proof fn tables_are_found(places: Seq<(bool, Seq<Seq<char>>)>, is_table: Seq<bool>)
    requires
        is_table.len() == places.len(),
    ensures
        lists::picked_from(
            places.zip_with(is_table),
            places_found(places, is_table),
            |p: ((bool, Seq<Seq<char>>), bool), q: (bool, Seq<Seq<char>>)| p.1 && q == p.0,
        ),
    decreases places.len(),
{
    let p = |p: ((bool, Seq<Seq<char>>), bool), q: (bool, Seq<Seq<char>>)| p.1 && q == p.0;
    let all = places.zip_with(is_table);
    if places.len() == 0 {
        lists::lemma_picked_none::<((bool, Seq<Seq<char>>), bool), (bool, Seq<Seq<char>>)>(p);
        assert(all =~= Seq::empty());
    } else {
        tables_are_found(places.drop_last(), is_table.drop_last());
        let earlier = places_found(places.drop_last(), is_table.drop_last());
        assert(all.drop_last() =~= places.drop_last().zip_with(is_table.drop_last()));
        if is_table.last() {
            lists::lemma_picked_one(all, earlier, p, places.last());
        } else {
            lists::lemma_passed_over(all, earlier, p);
        }
    }
}

/// The names of the places found are the qualified names of those that have one, in order.
pub proof fn found_tables_go_by_their_names(warehouse: (bool, Seq<Seq<char>>), places: Seq<(bool, Seq<Seq<char>>)>)
    ensures
        lists::picked_from(places, names_of(warehouse, places), |q: (bool, Seq<Seq<char>>), n: Seq<char>| name_of(warehouse, q) == Some(n)),
    decreases places.len(),
{
    let p = |q: (bool, Seq<Seq<char>>), n: Seq<char>| name_of(warehouse, q) == Some(n);
    if places.len() == 0 {
        lists::lemma_picked_none::<(bool, Seq<Seq<char>>), Seq<char>>(p);
        assert(places =~= Seq::empty());
    } else {
        found_tables_go_by_their_names(warehouse, places.drop_last());
        let earlier = names_of(warehouse, places.drop_last());
        let last = places.last();
        match name_of(warehouse, last) {
            Some(name) => {
                lists::lemma_picked_one(places, earlier, p, name);
            },
            None => {
                lists::lemma_passed_over(places, earlier, p);
            },
        }
    }
}

/// The schema of a table is the name of the place it lies in.
pub proof fn schemas_are_named_by_their_place(rooted: bool, inside: Seq<Seq<char>>, schema: Seq<char>, table: Seq<char>)
    requires
        schema != "."@,
        schema != ".."@,
    ensures
        schema_name((rooted, inside.push(schema).push(table))) == schema,
        schema_name((rooted, Seq::empty())).len() == 0,
{
    let place = inside.push(schema).push(table);
    assert(place.drop_last() =~= inside.push(schema));
    assert(inside.push(schema).last() == schema);
}

/// A place lies in a schema exactly where it is the schema's place and one name more.
pub proof fn places_lie_one_name_below(place: (bool, Seq<Seq<char>>), schema: (bool, Seq<Seq<char>>))
    ensures
        lies_in(place, schema) <==> place.0 == schema.0 && place.1.len() > 0 && place.1 == schema.1.push(place.1.last())
            && place.1.last() != "."@ && place.1.last() != ".."@,
{
    if place.1.len() > 0 {
        assert(place.1 =~= place.1.drop_last().push(place.1.last()));
        assert(schema.1.push(place.1.last()).drop_last() =~= schema.1);
    }
}

/// There is nowhere to put a clone exactly where its name has no schema and its origin lies in none.
pub proof fn names_without_a_schema_have_nowhere(name: Seq<char>, origin: (bool, Seq<Seq<char>>))
    ensures
        has_nowhere(name, origin) <==> !name.contains('.') && origin.1.len() == 0,
{
    text::lemma_split_at_first(name, '.');
    if let Some((before, behind)) = text::split_at_first(name, '.') {
        assert(name[before.len() as int] == '.');
    }
}

/// The columns of a table are shown one by one, by their own names, with the types that browsers know and
/// whether they may be empty.
pub proof fn catalogued_columns_are_in_order(columns: Seq<TableColumn>, i: int)
    requires
        0 <= i < columns.len(),
    ensures
        catalogue_columns(columns).len() == columns.len(),
        catalogue_columns(columns)[i].0 == columns[i].name@,
        catalogue_columns(columns)[i].1 == catalogue_type(columns[i].kind).0,
        catalogue_columns(columns)[i].2 == catalogue_type(columns[i].kind).1,
        catalogue_columns(columns)[i].3 == columns[i].nullable,
{
}

/// What was asked for in vain is the schema that is not the origin's, where one was named.
pub proof fn other_schemas_are_asked_for_in_vain(
    warehouse: (bool, Seq<Seq<char>>),
    schema: Seq<char>,
    table: Seq<char>,
    origin: (bool, Seq<Seq<char>>),
)
    requires
        !schema.contains('.'),
        origin.1.len() > 0,
    ensures
        (origin.0, origin.1.drop_last()) != inside(warehouse, schema) ==> asked_for(
            warehouse,
            schema + seq!['.'] + table,
            origin,
        ) == schema,
        asked_for(warehouse, schema, origin) == schema,
{
    text::lemma_cut_at_first(schema, table, '.');
    text::lemma_uncut(schema, '.');
}

} // verus!
