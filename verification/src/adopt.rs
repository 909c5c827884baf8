//! Tables that appear while a server is running.

use crate::lists;
use crate::execute::TableName;
use crate::text::{self, same, split_once};
use vstd::prelude::*;

verus! {

/// A table's name in one piece: schema, dot, table; or the name alone where there is no schema.
pub open spec fn full_name(name: (Seq<char>, Seq<char>)) -> Seq<char> {
    if name.0.len() == 0 {
        name.1
    } else {
        name.0 + "."@ + name.1
    }
}

/// A table's name in one piece.
pub fn full_name_of(name: &TableName) -> (r: String)
    ensures
        r@ == full_name(name@),
{
    if name.schema.as_str().is_empty() {
        return name.table.clone();
    }
    let mut r = name.schema.clone();
    r.append(".");
    r.append(name.table.as_str());
    r
}

/// Whether a table is among those served.
pub open spec fn is_served(table: TableName, served: Seq<TableName>) -> bool {
    exists|i: int| 0 <= i < served.len() && (#[trigger] served[i])@ == table@
}

fn among(table: &TableName, served: &Vec<TableName>) -> (r: bool)
    ensures
        r == is_served(*table, served@),
{
    let mut i: usize = 0;
    while i < served.len()
        invariant
            i <= served@.len(),
            forall|k: int| 0 <= k < i ==> (#[trigger] served@[k])@ != table@,
        decreases served@.len() - i,
    {
        if same(served[i].schema.as_str(), table.schema.as_str()) && same(
            served[i].table.as_str(),
            table.table.as_str(),
        ) {
            assert(served@[i as int]@ == table@);
            return true;
        }
        i = i + 1;
    }
    false
}

/// The positions of the tables that are not served yet, in order.
pub open spec fn unseen(found: Seq<TableName>, served: Seq<TableName>) -> Seq<int>
    decreases found.len(),
{
    if found.len() == 0 {
        Seq::empty()
    } else {
        let before = unseen(found.drop_last(), served);
        if is_served(found.last(), served) {
            before
        } else {
            before.push(found.len() - 1)
        }
    }
}

/// The tables that appeared since the served ones were opened, by position.
pub fn new_tables(found: &Vec<TableName>, served: &Vec<TableName>) -> (r: Vec<usize>)
    ensures
        r@.map_values(|i: usize| i as int) == unseen(found@, served@),
{
    let mut r: Vec<usize> = Vec::new();
    let mut i: usize = 0;
    assert(r@.map_values(|i: usize| i as int) =~= unseen(found@.take(0), served@));
    while i < found.len()
        invariant
            i <= found@.len(),
            r@.map_values(|i: usize| i as int) == unseen(found@.take(i as int), served@),
        decreases found@.len() - i,
    {
        assert(found@.take(i + 1).drop_last() =~= found@.take(i as int));
        if !among(&found[i], served) {
            let ghost was = r@;
            r.push(i);
            assert(r@.map_values(|i: usize| i as int) =~= was.map_values(|i: usize| i as int).push(i as int));
        }
        i = i + 1;
    }
    assert(found@.take(found@.len() as int) =~= found@);
    r
}

/// The table that a clone's read right derives from: the root of its lineage, where it can be told.
/// A clone refers to the files of the table at the root, however many clones lie between.
pub open spec fn authority(ancestors: Option<Seq<Seq<char>>>) -> Option<(Seq<char>, Seq<char>)> {
    match ancestors {
        Some(chain) => if chain.len() > 0 {
            text::split_at_first(chain.last(), '.')
        } else {
            None
        },
        None => None,
    }
}

/// The table that a clone's read right derives from, or `None` for a table that is no clone and for
/// one whose lineage cannot be told, which is then authorised by its own name.
pub fn authority_for(ancestors: Option<&Vec<String>>) -> (r: Option<TableName>)
    ensures
        ({
            let chain = match ancestors {
                Some(chain) => Some(text::views(chain@)),
                None => None,
            };
            match r {
                Some(name) => authority(chain) == Some(name@),
                None => authority(chain) is None,
            }
        }),
{
    match ancestors {
        None => None,
        Some(chain) => {
            if chain.len() == 0 {
                return None;
            }
            let root = &chain[chain.len() - 1];
            assert(text::views(chain@).last() == root@);
            match split_once(root.as_str(), '.') {
                Some((schema, table)) => Some(TableName { schema, table }),
                None => None,
            }
        },
    }
}

/// The full name of a table is its schema and its name with a dot between, or its name alone where it is
/// in no schema.
pub proof fn full_names_hold_both(schema: Seq<char>, table: Seq<char>)
    ensures
        full_name((Seq::empty(), table)) == table,
        schema.len() > 0 ==> full_name((schema, table)) == schema + "."@ + table,
{
}

/// The right to read a clone is the right to read the root of what it was cloned from, the last of its
/// ancestors; what was not cloned has no other authority than its own.
pub proof fn roots_are_the_authority(nearer: Seq<Seq<char>>, schema: Seq<char>, table: Seq<char>)
    requires
        !schema.contains('.'),
    ensures
        authority(Some(nearer.push(schema + "."@ + table))) == Some((schema, table)),
        authority(None) is None,
        authority(Some(Seq::empty())) is None,
{
    reveal_strlit(".");
    assert("."@ =~= seq!['.']);
    text::lemma_cut_at_first(schema, table, '.');
}

/// The tables that are new are those found that are not served already, in order.
pub proof fn unserved_tables_are_new(found: Seq<TableName>, served: Seq<TableName>)
    ensures
        lists::places_where(found, unseen(found, served), |t: TableName| forall|i: int| 0 <= i < served.len()
            ==> (#[trigger] served[i])@ != t@),
    decreases found.len(),
{
    if found.len() > 0 {
        unserved_tables_are_new(found.drop_last(), served);
        lists::lemma_one_more_place(found, unseen(found.drop_last(), served), |t: TableName| forall|i: int| 0 <= i < served.len()
            ==> (#[trigger] served[i])@ != t@);
    }
}

} // verus!
