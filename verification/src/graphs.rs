//! Which graphs are built, and who may traverse them.
//!
//! A graph is built over every row, once. So it is offered only to a caller who may read every table
//! it is built from and from whom nothing of them is withheld: a walk over edges somebody may not
//! see would disclose them, and nothing in the answer would say so.

use crate::lists;
use crate::cuboids::{self, snapshot_across};
use crate::execute::TableName;
use crate::text::{self, debug_list_text, same, split_last};
use crate::wire;
use vstd::prelude::*;

verus! {

/// The bare name of a table: what stands behind its last dot.
pub open spec fn bare(table: Seq<char>) -> Seq<char> {
    match text::split_at_last(table, '.') {
        Some((_, name)) => name,
        None => table,
    }
}

/// The bare name of a table.
pub fn bare_name(table: &str) -> (r: String)
    ensures
        r@ == bare(table@),
{
    match split_last(table, '.') {
        Some((_, name)) => name,
        None => table.to_string(),
    }
}

/// The place of the first table served under a bare name.
pub open spec fn served_as(served: Seq<Seq<char>>, name: Seq<char>) -> Option<int>
    decreases served.len(),
{
    if served.len() == 0 {
        None
    } else {
        match served_as(served.drop_last(), name) {
            Some(i) => Some(i),
            None => if served.last() == name {
                Some(served.len() - 1)
            } else {
                None
            },
        }
    }
}

/// A table that a graph reads, with what came of it.
pub struct GraphTable {
    /// Its name, as the graph has it.
    pub table: String,
    /// Why it could not be put before the scan, where it could not.
    pub unregistered: Option<String>,
    /// Why its rows could not be taken in, where they could not.
    pub unread: Option<String>,
}

/// What is said of a table that a graph reads and that cannot be put before the scan.
pub open spec fn not_scanned(served: Seq<Seq<char>>, read: GraphTable) -> Option<Seq<char>> {
    if served_as(served, bare(read.table@)) is None {
        Some("it reads `"@ + read.table@ + "`, which this server does not serve"@)
    } else {
        match read.unregistered {
            Some(why) => Some("`"@ + read.table@ + "` could not be registered: "@ + why@),
            None => None,
        }
    }
}

/// The places of the tables that a graph reads, or what is said of the first that cannot be put
/// before the scan.
pub open spec fn places_read(served: Seq<Seq<char>>, reads: Seq<GraphTable>) -> Result<Seq<int>, Seq<char>>
    decreases reads.len(),
{
    if reads.len() == 0 {
        Ok(Seq::empty())
    } else {
        match places_read(served, reads.drop_last()) {
            Err(why) => Err(why),
            Ok(before) => match not_scanned(served, reads.last()) {
                Some(why) => Err(why),
                None => Ok(before.push(served_as(served, bare(reads.last().table@))->Some_0)),
            },
        }
    }
}

proof fn lemma_served(served: Seq<Seq<char>>, name: Seq<char>, i: int)
    requires
        0 <= i <= served.len(),
        served_as(served.take(i), name) is Some,
    ensures
        served_as(served, name) == served_as(served.take(i), name),
    decreases served.len(),
{
    if i < served.len() {
        assert(served.drop_last().take(i) =~= served.take(i));
        lemma_served(served.drop_last(), name, i);
    } else {
        assert(served.take(i) =~= served);
    }
}

fn find_served(served: &Vec<String>, name: &str) -> (r: Option<usize>)
    ensures
        (match r {
            Some(i) => Some(i as int),
            None => None,
        }) == served_as(text::views(served@), name@),
{
    let ghost all = text::views(served@);
    let mut i: usize = 0;
    while i < served.len()
        invariant
            i <= served@.len(),
            all == text::views(served@),
            served_as(all.take(i as int), name@) is None,
        decreases served@.len() - i,
    {
        assert(all.take(i + 1).drop_last() =~= all.take(i as int));
        if same(served[i].as_str(), name) {
            proof {
                lemma_served(all, name@, i + 1);
            }
            return Some(i);
        }
        i = i + 1;
    }
    assert(all.take(all.len() as int) =~= all);
    None
}

proof fn lemma_places_stop(served: Seq<Seq<char>>, reads: Seq<GraphTable>, i: int)
    requires
        0 <= i <= reads.len(),
        places_read(served, reads.take(i)) is Err,
    ensures
        places_read(served, reads) == places_read(served, reads.take(i)),
    decreases reads.len(),
{
    if i < reads.len() {
        assert(reads.drop_last().take(i) =~= reads.take(i));
        lemma_places_stop(served, reads.drop_last(), i);
    } else {
        assert(reads.take(i) =~= reads);
    }
}

/// The places of the tables that a graph reads among those served, by their bare names, or why one
/// of them cannot be put before the scan.
pub fn tables_read(served: &Vec<String>, reads: &Vec<GraphTable>) -> (r: Result<Vec<usize>, String>)
    ensures
        (match r {
            Ok(places) => Ok::<Seq<int>, Seq<char>>(places@.map_values(|i: usize| i as int)),
            Err(why) => Err(why@),
        }) == places_read(text::views(served@), reads@),
{
    let ghost open = text::views(served@);
    let mut r: Vec<usize> = Vec::new();
    let mut i: usize = 0;
    assert(r@.map_values(|i: usize| i as int) =~= Seq::empty());
    while i < reads.len()
        invariant
            i <= reads@.len(),
            open == text::views(served@),
            places_read(open, reads@.take(i as int)) == Ok::<Seq<int>, Seq<char>>(
                r@.map_values(|i: usize| i as int),
            ),
        decreases reads@.len() - i,
    {
        assert(reads@.take(i + 1).drop_last() =~= reads@.take(i as int));
        let name = bare_name(reads[i].table.as_str());
        let place = match find_served(served, name.as_str()) {
            Some(place) => place,
            None => {
                let mut why = "it reads `".to_string();
                why.append(reads[i].table.as_str());
                why.append("`, which this server does not serve");
                proof {
                    lemma_places_stop(open, reads@, i + 1);
                }
                return Err(why);
            },
        };
        if let Some(refused) = &reads[i].unregistered {
            let mut why = "`".to_string();
            why.append(reads[i].table.as_str());
            why.append("` could not be registered: ");
            why.append(refused.as_str());
            proof {
                lemma_places_stop(open, reads@, i + 1);
            }
            return Err(why);
        }
        let ghost was = r@;
        r.push(place);
        assert(r@.map_values(|i: usize| i as int) =~= was.map_values(|i: usize| i as int).push(place as int));
        i = i + 1;
    }
    assert(reads@.take(reads@.len() as int) =~= reads@);
    Ok(r)
}

// --- columns ----------------------------------------------------------------------------------

/// An edge as it is declared.
pub struct EdgeColumns {
    /// Its type.
    pub edge_type: String,
    /// The table its rows lie in.
    pub table: String,
    /// The columns it names: its source, its target, and then where it names them the times it
    /// holds between and its weight.
    pub named: Vec<Option<String>>,
    /// The columns its table has, or why they could not be read.
    pub held: Result<Vec<String>, String>,
}

/// The first column that is named and not held.
pub open spec fn first_missing(named: Seq<Option<Seq<char>>>, held: Seq<Seq<char>>) -> Option<Seq<char>>
    decreases named.len(),
{
    if named.len() == 0 {
        None
    } else if named[0] is Some && !held.contains(named[0]->Some_0) {
        named[0]
    } else {
        first_missing(named.skip(1), held)
    }
}

/// What is said of an edge that names a column its table does not have. A graph built without it
/// would have no edges, and answer every walk with no rows.
pub open spec fn missing_column(edge: EdgeColumns, column: Seq<char>, held: Seq<Seq<char>>) -> Seq<char> {
    "its `"@ + edge.edge_type@ + "` edge names column `"@ + column + "`, which `"@ + edge.table@
        + "` does not have --- it has "@ + text::debug_list(held)
        + ". Refused rather than hydrated without it: a graph built from a column that is not there has no edges, and answers every traversal with no rows"@
}

/// What stands against an edge.
pub open spec fn edge_fault(edge: EdgeColumns) -> Option<Seq<char>> {
    match edge.held {
        Err(why) => Some("`"@ + edge.table@ + "` could not be read: "@ + why@),
        Ok(held) => match first_missing(wire::row(edge.named), text::views(held@)) {
            Some(column) => Some(missing_column(edge, column, text::views(held@))),
            None => None,
        },
    }
}

/// What stands against the first edge that something stands against.
pub open spec fn columns_missing(edges: Seq<EdgeColumns>) -> Option<Seq<char>>
    decreases edges.len(),
{
    if edges.len() == 0 {
        None
    } else {
        match edge_fault(edges[0]) {
            Some(why) => Some(why),
            None => columns_missing(edges.skip(1)),
        }
    }
}

fn is_held(held: &Vec<String>, column: &str) -> (r: bool)
    ensures
        r == text::views(held@).contains(column@),
{
    let ghost all = text::views(held@);
    let mut i: usize = 0;
    while i < held.len()
        invariant
            i <= held@.len(),
            all == text::views(held@),
            forall|k: int| 0 <= k < i ==> #[trigger] all[k] != column@,
        decreases held@.len() - i,
    {
        assert(all[i as int] == held@[i as int]@);
        if same(held[i].as_str(), column) {
            return true;
        }
        i = i + 1;
    }
    false
}

fn find_missing(named: &Vec<Option<String>>, held: &Vec<String>) -> (r: Option<String>)
    ensures
        wire::cell(r) == first_missing(wire::row(*named), text::views(held@)),
{
    let ghost all = wire::row(*named);
    let ghost there = text::views(held@);
    let mut i: usize = 0;
    assert(all.skip(0) =~= all);
    while i < named.len()
        invariant
            i <= named@.len(),
            all == wire::row(*named),
            there == text::views(held@),
            all.len() == named@.len(),
            first_missing(all, there) == first_missing(all.skip(i as int), there),
        decreases named@.len() - i,
    {
        assert(all.skip(i as int).skip(1) =~= all.skip(i + 1));
        assert(all.skip(i as int)[0] == wire::cell(named@[i as int]));
        if let Some(column) = &named[i] {
            if !is_held(held, column.as_str()) {
                return Some(column.clone());
            }
        }
        i = i + 1;
    }
    None
}

fn find_fault(edge: &EdgeColumns) -> (r: Option<String>)
    ensures
        wire::cell(r) == edge_fault(*edge),
{
    match &edge.held {
        Err(unread) => {
            let mut why = "`".to_string();
            why.append(edge.table.as_str());
            why.append("` could not be read: ");
            why.append(unread.as_str());
            Some(why)
        },
        Ok(held) => match find_missing(&edge.named, held) {
            None => None,
            Some(column) => {
                let mut why = "its `".to_string();
                why.append(edge.edge_type.as_str());
                why.append("` edge names column `");
                why.append(column.as_str());
                why.append("`, which `");
                why.append(edge.table.as_str());
                why.append("` does not have --- it has ");
                why.append(debug_list_text(held).as_str());
                why.append(
                    ". Refused rather than hydrated without it: a graph built from a column that is not there has no edges, and answers every traversal with no rows",
                );
                Some(why)
            },
        },
    }
}

/// Why a graph may not be built, where an edge names a column that its table does not have. Asked
/// before a row is read.
pub fn columns_there(edges: &Vec<EdgeColumns>) -> (r: Result<(), String>)
    ensures
        (match r {
            Ok(()) => None::<Seq<char>>,
            Err(why) => Some(why@),
        }) == columns_missing(edges@),
{
    let mut i: usize = 0;
    assert(edges@.skip(0) =~= edges@);
    while i < edges.len()
        invariant
            i <= edges@.len(),
            columns_missing(edges@) == columns_missing(edges@.skip(i as int)),
        decreases edges@.len() - i,
    {
        assert(edges@.skip(i as int).skip(1) =~= edges@.skip(i + 1));
        if let Some(why) = find_fault(&edges[i]) {
            return Err(why);
        }
        i = i + 1;
    }
    Ok(())
}

// --- building ---------------------------------------------------------------------------------

/// What is said of the first table whose rows could not be taken in.
pub open spec fn first_unread(reads: Seq<GraphTable>) -> Option<Seq<char>>
    decreases reads.len(),
{
    if reads.len() == 0 {
        None
    } else {
        match reads[0].unread {
            Some(why) => Some("reading `"@ + reads[0].table@ + "`: "@ + why@),
            None => first_unread(reads.skip(1)),
        }
    }
}

/// The names of the tables that a graph reads.
pub open spec fn read_names(reads: Seq<GraphTable>) -> Seq<Seq<char>> {
    reads.map_values(|read: GraphTable| read.table@)
}

/// What building a graph comes to: the snapshot it is built at, or the first thing that stands
/// against it, in the order in which it is built.
pub open spec fn hydration(
    served: Seq<Seq<char>>,
    reads: Seq<GraphTable>,
    edges: Seq<EdgeColumns>,
    unfinished: Option<Seq<char>>,
    versions: Seq<(TableName, Option<u64>)>,
) -> Result<int, Seq<char>> {
    match places_read(served, reads) {
        Err(why) => Err(why),
        Ok(_) => match columns_missing(edges) {
            Some(why) => Err(why),
            None => match first_unread(reads) {
                Some(why) => Err(why),
                None => match unfinished {
                    Some(why) => Err(why),
                    None => Ok(cuboids::newest(cuboids::versions_of(versions, read_names(reads)))),
                },
            },
        },
    }
}

fn find_unread(reads: &Vec<GraphTable>) -> (r: Option<String>)
    ensures
        wire::cell(r) == first_unread(reads@),
{
    let mut i: usize = 0;
    assert(reads@.skip(0) =~= reads@);
    while i < reads.len()
        invariant
            i <= reads@.len(),
            first_unread(reads@) == first_unread(reads@.skip(i as int)),
        decreases reads@.len() - i,
    {
        assert(reads@.skip(i as int).skip(1) =~= reads@.skip(i + 1));
        if let Some(unread) = &reads[i].unread {
            let mut why = "reading `".to_string();
            why.append(reads[i].table.as_str());
            why.append("`: ");
            why.append(unread.as_str());
            return Some(why);
        }
        i = i + 1;
    }
    None
}

/// The snapshot that a graph is built at, across every table it reads, or why it is not built.
/// `served` are the bare names of the tables that are served, `unfinished` says why what was taken
/// in makes no graph, where it makes none, and `versions` what each table stands at.
pub fn hydrate(
    served: &Vec<String>,
    reads: &Vec<GraphTable>,
    edges: &Vec<EdgeColumns>,
    unfinished: Option<String>,
    versions: &Vec<(TableName, Option<u64>)>,
) -> (r: Result<u64, String>)
    ensures
        (match r {
            Ok(snapshot) => Ok::<int, Seq<char>>(snapshot as int),
            Err(why) => Err(why@),
        }) == hydration(text::views(served@), reads@, edges@, wire::cell(unfinished), versions@),
{
    if let Err(why) = tables_read(served, reads) {
        return Err(why);
    }
    if let Err(why) = columns_there(edges) {
        return Err(why);
    }
    if let Some(why) = find_unread(reads) {
        return Err(why);
    }
    if let Some(why) = unfinished {
        return Err(why);
    }
    let mut names: Vec<String> = Vec::new();
    let mut i: usize = 0;
    while i < reads.len()
        invariant
            i <= reads@.len(),
            text::views(names@) == read_names(reads@).take(i as int),
        decreases reads@.len() - i,
    {
        let ghost was = names@;
        names.push(reads[i].table.clone());
        assert(text::views(names@) =~= text::views(was).push(reads@[i as int].table@));
        assert(read_names(reads@).take(i + 1) =~= read_names(reads@).take(i as int).push(
            reads@[i as int].table@,
        ));
        i = i + 1;
    }
    assert(read_names(reads@).take(i as int) =~= read_names(reads@));
    Ok(snapshot_across(versions, &names))
}

proof fn lemma_none_missing(named: Seq<Option<Seq<char>>>, held: Seq<Seq<char>>, i: int)
    requires
        first_missing(named, held) is None,
        0 <= i < named.len(),
        named[i] is Some,
    ensures
        held.contains(named[i]->Some_0),
    decreases named.len(),
{
    if i > 0 {
        assert(named.skip(1)[i - 1] == named[i]);
        lemma_none_missing(named.skip(1), held, i - 1);
    }
}

/// A graph that is built names no column that is not there.
pub proof fn built_graphs_have_their_columns(
    served: Seq<Seq<char>>,
    reads: Seq<GraphTable>,
    edges: Seq<EdgeColumns>,
    unfinished: Option<Seq<char>>,
    versions: Seq<(TableName, Option<u64>)>,
    k: int,
    i: int,
)
    requires
        hydration(served, reads, edges, unfinished, versions) is Ok,
        0 <= k < edges.len(),
        0 <= i < wire::row(edges[k].named).len(),
        wire::row(edges[k].named)[i] is Some,
    ensures
        edges[k].held is Ok,
        text::views(edges[k].held->Ok_0@).contains(wire::row(edges[k].named)[i]->Some_0),
{
    lemma_edge_holds(edges, k);
    lemma_none_missing(wire::row(edges[k].named), text::views(edges[k].held->Ok_0@), i);
}

proof fn lemma_edge_holds(edges: Seq<EdgeColumns>, k: int)
    requires
        columns_missing(edges) is None,
        0 <= k < edges.len(),
    ensures
        edge_fault(edges[k]) is None,
    decreases edges.len(),
{
    if k > 0 {
        assert(edges.skip(1)[k - 1] == edges[k]);
        lemma_edge_holds(edges.skip(1), k - 1);
    }
}

// --- who may see which ------------------------------------------------------------------------

/// A graph as a caller finds it.
pub struct GraphSeen {
    /// Whether the caller may read every table it is built from.
    pub readable: bool,
    /// Whether nothing of any of them is withheld from the caller.
    pub unrestricted: bool,
    /// Whether it was built.
    pub built: bool,
}

/// What a caller is told of a graph.
#[derive(Clone, Copy, PartialEq, Eq, Debug, Structural)]
pub enum Sight {
    /// Nothing: it is as though it were not.
    Hidden,
    /// That it is declared and not built yet: a name to wait on.
    Waiting,
    /// It may be walked.
    Shown,
}

/// What a caller is told of a graph.
pub open spec fn sight(graph: GraphSeen) -> Sight {
    if !(graph.readable && graph.unrestricted) {
        Sight::Hidden
    } else if graph.built {
        Sight::Shown
    } else {
        Sight::Waiting
    }
}

/// What a caller is told of each graph.
pub fn visible_to(graphs: &Vec<GraphSeen>) -> (r: Vec<Sight>)
    ensures
        r@ == graphs@.map_values(|graph: GraphSeen| sight(graph)),
{
    let mut r: Vec<Sight> = Vec::new();
    let mut i: usize = 0;
    while i < graphs.len()
        invariant
            i <= graphs@.len(),
            r@.len() == i,
            forall|k: int| 0 <= k < i ==> #[trigger] r@[k] == sight(graphs@[k]),
        decreases graphs@.len() - i,
    {
        let told = if !(graphs[i].readable && graphs[i].unrestricted) {
            Sight::Hidden
        } else if graphs[i].built {
            Sight::Shown
        } else {
            Sight::Waiting
        };
        r.push(told);
        i = i + 1;
    }
    assert(r@ =~= graphs@.map_values(|graph: GraphSeen| sight(graph)));
    r
}

/// A caller who may not read a table of a graph, or from whom anything of one is withheld, is told
/// nothing of the graph, not even whether it is built.
pub proof fn filtered_callers_see_no_graph(graph: GraphSeen)
    requires
        !graph.readable || !graph.unrestricted,
    ensures
        sight(graph) is Hidden,
{
}

/// What is complained of the graphs that were not built, by name.
pub open spec fn unbuilt(graphs: Seq<(Seq<char>, Option<Seq<char>>)>) -> Seq<Seq<char>>
    decreases graphs.len(),
{
    if graphs.len() == 0 {
        Seq::empty()
    } else {
        let before = unbuilt(graphs.drop_last());
        match graphs.last().1 {
            Some(why) => before.push("the graph `"@ + graphs.last().0 + "`: "@ + why),
            None => before,
        }
    }
}

/// What is complained of the graphs that were not built. Such a graph is declared none the less, so
/// that its name is one to wait on and not a wrong one.
pub fn adopt(graphs: &Vec<(String, Option<String>)>) -> (r: Vec<String>)
    ensures
        text::views(r@) == unbuilt(graphs@.map_values(|g: (String, Option<String>)| (g.0@, wire::cell(g.1)))),
{
    let ghost all = graphs@.map_values(|g: (String, Option<String>)| (g.0@, wire::cell(g.1)));
    let mut r: Vec<String> = Vec::new();
    let mut i: usize = 0;
    assert(text::views(r@) =~= Seq::empty());
    while i < graphs.len()
        invariant
            i <= graphs@.len(),
            all == graphs@.map_values(|g: (String, Option<String>)| (g.0@, wire::cell(g.1))),
            text::views(r@) == unbuilt(all.take(i as int)),
        decreases graphs@.len() - i,
    {
        assert(all.take(i + 1).drop_last() =~= all.take(i as int));
        if let Some(why) = &graphs[i].1 {
            let mut said = "the graph `".to_string();
            said.append(graphs[i].0.as_str());
            said.append("`: ");
            said.append(why.as_str());
            let ghost was = r@;
            let ghost added = said@;
            r.push(said);
            assert(text::views(r@) =~= text::views(was).push(added));
        }
        i = i + 1;
    }
    assert(all.take(all.len() as int) =~= all);
    r
}

/// A table is served under a name at the first place that bears it, and nowhere where none does.
pub proof fn tables_are_served_by_name(served: Seq<Seq<char>>, name: Seq<char>)
    ensures
        match served_as(served, name) {
            Some(i) => lists::first_at(served, i, |s: Seq<char>| s == name),
            None => !served.contains(name),
        },
    decreases served.len(),
{
    if served.len() > 0 {
        let before = served.drop_last();
        tables_are_served_by_name(before, name);
        match served_as(before, name) {
            Some(i) => {
                assert(served[i] == before[i]);
                assert forall|k: int| 0 <= k < i implies #[trigger] served[k] != name by {
                    assert(before[k] == served[k]);
                }
            },
            None => {
                assert forall|k: int| 0 <= k < before.len() implies #[trigger] served[k] != name by {
                    assert(before[k] == served[k]);
                    assert(before.contains(before[k]));
                }
                if served.contains(name) {
                    let k = choose|k: int| 0 <= k < served.len() && served[k] == name;
                    assert(served.last() == name);
                }
            },
        }
    }
}

/// A name without its schema is what stands behind the last dot, and the whole where there is none.
pub proof fn bare_names_stand_behind_the_last_dot(schema: Seq<char>, table: Seq<char>)
    requires
        !table.contains('.'),
    ensures
        bare(schema + "."@ + table) == table,
        bare(table) == table,
{
    reveal_strlit(".");
    let s = schema + "."@ + table;
    text::last_cuts_are_last(s, '.');
    text::last_cuts_are_last(table, '.');
    if let Some((before, behind)) = text::split_at_last(table, '.') {
        assert(table[before.len() as int] == '.');
    }
    match text::split_at_last(s, '.') {
        Some((before, behind)) => {
            let n = schema.len() as int;
            let m = before.len() as int;
            if m < n {
                assert(s[n] == '.');
                assert(behind[n - m - 1] == '.');
            } else if m > n {
                assert(s[m] == '.');
                assert(table[m - n - 1] == '.');
            } else {
                assert(behind =~= s.skip(n + 1));
                assert(table =~= s.skip(n + 1));
            }
        },
        None => {
            assert(s[schema.len() as int] == '.');
        },
    }
}

/// A graph is built exactly where every table it reads is served and registered, every column its edges name
/// is there, every table could be read and nothing was left unfinished.
pub proof fn graphs_are_built_of_what_is_there(
    served: Seq<Seq<char>>,
    reads: Seq<GraphTable>,
    edges: Seq<EdgeColumns>,
    unfinished: Option<Seq<char>>,
    versions: Seq<(TableName, Option<u64>)>,
)
    ensures
        hydration(served, reads, edges, unfinished, versions) is Ok <==> (forall|i: int|
            0 <= i < reads.len() ==> served.contains(bare((#[trigger] reads[i]).table@)) && reads[i].unregistered is None
                && reads[i].unread is None) && (forall|i: int|
            0 <= i < edges.len() ==> edge_fault(#[trigger] edges[i]) is None) && unfinished is None,
{
    lemma_places_read(served, reads);
    lemma_columns_missing(edges);
    unread_tables_are_found(reads);
    if let Some(found) = first_unread(reads) {
        let i = choose|i: int| #![trigger reads[i]] lists::first_at(reads, i, |r: GraphTable| r.unread is Some)
            && found == (
        "reading `"@ + reads[i].table@ + "`: "@ + reads[i].unread->0@);
        assert(reads[i].unread is Some);
    } else {
        let p = |r: GraphTable| r.unread is Some;
        assert forall|i: int| 0 <= i < reads.len() implies (#[trigger] reads[i]).unread is None by {
            assert(!p(reads[i]));
        }
    }
}

proof fn lemma_places_read(served: Seq<Seq<char>>, reads: Seq<GraphTable>)
    ensures
        places_read(served, reads) is Ok <==> forall|i: int|
            0 <= i < reads.len() ==> served.contains(bare((#[trigger] reads[i]).table@)) && reads[i].unregistered is None,
    decreases reads.len(),
{
    if reads.len() > 0 {
        let before = reads.drop_last();
        let last = reads.last();
        lemma_places_read(served, before);
        tables_are_served_by_name(served, bare(last.table@));
        if let Some(i) = served_as(served, bare(last.table@)) {
            assert(served[i] == bare(last.table@));
            assert(served.contains(bare(last.table@)));
        }
        assert(reads[reads.len() - 1] == last);
        if forall|i: int|
            0 <= i < reads.len() ==> served.contains(bare((#[trigger] reads[i]).table@))
                && reads[i].unregistered is None {
            assert forall|i: int| 0 <= i < before.len() implies served.contains(bare((#[trigger] before[i]).table@))
                && before[i].unregistered is None by {
                assert(reads[i] == before[i]);
            }
        }
        if places_read(served, reads) is Ok {
            assert forall|i: int| 0 <= i < reads.len() implies served.contains(bare((#[trigger] reads[i]).table@))
                && reads[i].unregistered is None by {
                if i < before.len() {
                    assert(reads[i] == before[i]);
                }
            }
        }
    }
}

proof fn lemma_columns_missing(edges: Seq<EdgeColumns>)
    ensures
        columns_missing(edges) is None <==> forall|i: int|
            0 <= i < edges.len() ==> edge_fault(#[trigger] edges[i]) is None,
    decreases edges.len(),
{
    if edges.len() > 0 {
        let rest = edges.skip(1);
        lemma_columns_missing(rest);
        assert(edges[0] == edges[0]);
        if columns_missing(edges) is None {
            assert forall|i: int| 0 <= i < edges.len() implies edge_fault(#[trigger] edges[i]) is None by {
                if i > 0 {
                    assert(rest[i - 1] == edges[i]);
                }
            }
        }
        if forall|i: int| 0 <= i < edges.len() ==> edge_fault(#[trigger] edges[i]) is None {
            assert forall|i: int| 0 <= i < rest.len() implies edge_fault(#[trigger] rest[i]) is None by {
                assert(edges[i + 1] == rest[i]);
            }
        }
    }
}

/// The first table that could not be read is said, with the reason.
pub proof fn unread_tables_are_found(reads: Seq<GraphTable>)
    ensures
        match first_unread(reads) {
            Some(found) => exists|i: int| #![trigger reads[i]] lists::first_at(reads, i, |r: GraphTable| r.unread is Some)
                && found == ("reading `"@ + reads[i].table@
                    + "`: "@ + reads[i].unread->0@),
            None => lists::nowhere(reads, |r: GraphTable| r.unread is Some),
        },
    decreases reads.len(),
{
    let p = |r: GraphTable| r.unread is Some;
    if reads.len() > 0 {
        let rest = reads.skip(1);
        lists::lemma_first_behind(reads, p);
        if p(reads[0]) {
            assert(lists::first_at(reads, 0, p));
        } else {
            unread_tables_are_found(rest);
            if let Some(found) = first_unread(rest) {
                let i = choose|i: int| #![trigger rest[i]] lists::first_at(rest, i, p)
                    && found == ("reading `"@ + rest[i].table@ + "`: "@ + rest[i].unread->0@);
                assert(lists::first_at(reads, i + 1, p));
                assert(reads[i + 1] == rest[i]);
            }
        }
    }
}

/// An edge has no fault exactly where its table could be read and holds every column it names.
pub proof fn sound_edges_have_their_columns(edge: EdgeColumns)
    ensures
        edge_fault(edge) is None <==> (edge.held matches Ok(held) && forall|i: int|
            0 <= i < edge.named@.len() && (#[trigger] edge.named@[i]) is Some ==> text::views(held@).contains(
                edge.named@[i]->0@,
            )),
{
    if let Ok(held) = edge.held {
        let named = wire::row(edge.named);
        let there = text::views(held@);
        lemma_first_missing(named, there);
        if first_missing(named, there) is None {
            assert forall|i: int| 0 <= i < edge.named@.len()
                && (#[trigger] edge.named@[i]) is Some implies there.contains(
                edge.named@[i]->0@,
            ) by {
                assert(named[i] == Some(edge.named@[i]->0@));
            }
        } else {
            let i = choose|i: int| 0 <= i < named.len() && (#[trigger] named[i]) is Some && !there.contains(named[i]->0);
            assert(edge.named@[i] is Some);
        }
    }
}

proof fn lemma_first_missing(named: Seq<Option<Seq<char>>>, held: Seq<Seq<char>>)
    ensures
        first_missing(named, held) is None ==> forall|i: int|
            0 <= i < named.len() && (#[trigger] named[i]) is Some ==> held.contains(named[i]->0),
        first_missing(named, held) is Some ==> exists|i: int|
            0 <= i < named.len() && (#[trigger] named[i]) is Some && !held.contains(named[i]->0),
    decreases named.len(),
{
    if named.len() > 0 {
        let rest = named.skip(1);
        lemma_first_missing(rest, held);
        if named[0] is Some && !held.contains(named[0]->0) {
            assert(named[0] is Some);
        } else if first_missing(rest, held) is None {
            assert forall|i: int| 0 <= i < named.len() && (#[trigger] named[i]) is Some implies held.contains(
                named[i]->0,
            ) by {
                if i > 0 {
                    assert(rest[i - 1] == named[i]);
                }
            }
        } else {
            let i = choose|i: int| 0 <= i < rest.len() && (#[trigger] rest[i]) is Some && !held.contains(rest[i]->0);
            assert(named[i + 1] == rest[i]);
        }
    }
}

/// A graph is seen by whoever may read all of it and has no rows withheld: shown where it is built, and
/// waited for where it is not.
pub proof fn whole_readers_see_graphs(graph: GraphSeen)
    ensures
        sight(graph) is Shown <==> graph.readable && graph.unrestricted && graph.built,
        sight(graph) is Waiting <==> graph.readable && graph.unrestricted && !graph.built,
        sight(graph) is Hidden <==> !graph.readable || !graph.unrestricted,
{
}

/// Each graph that was not built is named, with the reason.
pub proof fn unbuilt_graphs_are_said(graphs: Seq<(Seq<char>, Option<Seq<char>>)>)
    ensures
        lists::picked_from(graphs, unbuilt(graphs), |g: (Seq<char>, Option<Seq<char>>), c: Seq<char>| g.1 matches Some(why)
            && c == "the graph `"@ + g.0 + "`: "@ + why),
    decreases graphs.len(),
{
    let p = |g: (Seq<char>, Option<Seq<char>>), c: Seq<char>| g.1 matches Some(why)
        && c == "the graph `"@ + g.0 + "`: "@ + why;
    if graphs.len() == 0 {
        lists::lemma_picked_none::<(Seq<char>, Option<Seq<char>>), Seq<char>>(p);
        assert(graphs =~= Seq::empty());
    } else {
        unbuilt_graphs_are_said(graphs.drop_last());
        let earlier = unbuilt(graphs.drop_last());
        let last = graphs.last();
        match last.1 {
            Some(why) => {
                lists::lemma_picked_one(graphs, earlier, p, "the graph `"@ + last.0 + "`: "@ + why);
            },
            None => {
                lists::lemma_passed_over(graphs, earlier, p);
            },
        }
    }
}

/// A table can be scanned exactly where it is served and was registered.
pub proof fn served_tables_can_be_scanned(served: Seq<Seq<char>>, read: GraphTable)
    ensures
        not_scanned(served, read) is None <==> served.contains(bare(read.table@)) && read.unregistered is None,
{
    tables_are_served_by_name(served, bare(read.table@));
    if let Some(i) = served_as(served, bare(read.table@)) {
        assert(served[i] == bare(read.table@));
    }
}

} // verus!
