//! Making and dropping cubes, and what a declared fact query obliges.
//!
//! A cube's facts may be a table or a query. The text of a query does not say what it reads, so it
//! is planned once, and what it reads is recorded: every decision about the cube is then taken of
//! those tables.

use crate::lists;
use crate::aggregations::{self, Aggregation};
use crate::text::{self, join, same};
use crate::textmap::{self, in_order};
use crate::wire::{self, completed, refusal, QueryFailure, QueryResult};
use vstd::prelude::*;

verus! {

/// A rule that a measure combines by along a dimension.
pub struct AlongRule {
    /// The dimension.
    pub dimension: String,
    /// The aggregation that a user declared, where the rule is one.
    pub supplied: Option<String>,
}

/// A measure of a cube.
pub struct MeasureRules {
    /// Its name.
    pub name: String,
    /// What it combines by, dimension by dimension.
    pub rules: Vec<AlongRule>,
}

/// A cube as it is declared.
pub struct CubeDefinition {
    /// Its name.
    pub name: String,
    /// Whether it is a derived result rather than a cube.
    pub derived: bool,
    /// Whether it says how far behind it may lie.
    pub maintained: bool,
    /// Its measures.
    pub measures: Vec<MeasureRules>,
}

/// The tables that a query reads, or what is said of one that cannot be planned. Each stands once
/// and in order, because the order a plan is walked in is no part of what a cube means.
pub fn tables_read_by(planned: Result<Vec<String>, String>) -> (r: Result<Vec<String>, QueryFailure>)
    ensures
        match (planned, r) {
            (Ok(scanned), Ok(reads)) => textmap::in_order_of(text::views(reads@), text::views(scanned@)),
            (Err(why), Err(failure)) => failure@ == wire::refused(
                wire::DATA_EXCEPTION@,
                "this cube's fact query could not be planned, so nothing knows what it reads: "@ + why@,
            ),
            _ => false,
        },
{
    match planned {
        Ok(scanned) => Ok(in_order(&scanned)),
        Err(why) => {
            let mut message =
                "this cube's fact query could not be planned, so nothing knows what it reads: ".to_string();
            message.append(why.as_str());
            Err(refusal(wire::DATA_EXCEPTION, message.as_str()))
        },
    }
}

/// Two plans of one query that walk its tables in different orders read the same tables in the same
/// order, so that a cube's version does not depend on how it was planned.
pub proof fn reads_do_not_depend_on_the_walk(
    first: Seq<Seq<char>>,
    second: Seq<Seq<char>>,
    reads: Seq<Seq<char>>,
    others: Seq<Seq<char>>,
)
    requires
        forall|name: Seq<char>| #[trigger] first.contains(name) <==> second.contains(name),
        textmap::in_order_of(reads, first),
        textmap::in_order_of(others, second),
    ensures
        reads == others,
{
    assert forall|name: Seq<char>| #[trigger] reads.contains(name) <==> others.contains(name) by {
        assert(first.contains(name) <==> second.contains(name));
    }
    lemma_one_order(reads, others);
}

/// Lists that strictly rise and hold the same are the same.
proof fn lemma_one_order(a: Seq<Seq<char>>, b: Seq<Seq<char>>)
    requires
        forall|i: int, j: int| 0 <= i < j < a.len() ==> text::precedes(#[trigger] a[i], #[trigger] a[j]),
        forall|i: int, j: int| 0 <= i < j < b.len() ==> text::precedes(#[trigger] b[i], #[trigger] b[j]),
        forall|name: Seq<char>| #[trigger] a.contains(name) <==> b.contains(name),
    ensures
        a == b,
    decreases a.len(),
{
    if a.len() == 0 {
        if b.len() > 0 {
            assert(b.contains(b[0]));
            assert(a.contains(b[0]));
        }
        assert(a =~= b);
    } else {
        assert(a.contains(a[0]));
        assert(b.contains(a[0]));
        let k = choose|k: int| 0 <= k < b.len() && b[k] == a[0];
        assert(b.contains(b[0]));
        assert(a.contains(b[0]));
        let m = choose|m: int| 0 <= m < a.len() && a[m] == b[0];
        if k > 0 {
            assert(text::precedes(b[0], b[k]));
            if m > 0 {
                assert(text::precedes(a[0], a[m]));
                text::lemma_precedes_transitive(a[0], b[0], a[0]);
            }
            text::lemma_precedes_irreflexive(a[0]);
        }
        assert(a[0] == b[0]);
        let x = a.skip(1);
        let y = b.skip(1);
        assert forall|name: Seq<char>| #[trigger] x.contains(name) <==> y.contains(name) by {
            if x.contains(name) {
                let i = choose|i: int| 0 <= i < x.len() && x[i] == name;
                assert(a[i + 1] == name);
                assert(a.contains(name));
                let j = choose|j: int| 0 <= j < b.len() && b[j] == name;
                if j == 0 {
                    assert(text::precedes(a[0], a[i + 1]));
                    text::lemma_precedes_irreflexive(name);
                }
                assert(y[j - 1] == name);
            }
            if y.contains(name) {
                let i = choose|i: int| 0 <= i < y.len() && y[i] == name;
                assert(b[i + 1] == name);
                assert(b.contains(name));
                assert(a.contains(name));
                let j = choose|j: int| 0 <= j < a.len() && a[j] == name;
                if j == 0 {
                    assert(text::precedes(b[0], b[i + 1]));
                    text::lemma_precedes_irreflexive(name);
                }
                assert(x[j - 1] == name);
            }
        }
        assert forall|i: int, j: int| 0 <= i < j < x.len() implies text::precedes(#[trigger] x[i], #[trigger] x[j]) by {
            assert(text::precedes(a[i + 1], a[j + 1]));
        }
        assert forall|i: int, j: int| 0 <= i < j < y.len() implies text::precedes(#[trigger] y[i], #[trigger] y[j]) by {
            assert(text::precedes(b[i + 1], b[j + 1]));
        }
        lemma_one_order(x, y);
        assert(a =~= seq![a[0]] + x);
        assert(b =~= seq![b[0]] + y);
    }
}

// --- making -----------------------------------------------------------------------------------

/// The first table of a list that a caller may not read.
pub open spec fn first_unreadable(tables: Seq<(Seq<char>, bool)>) -> Option<Seq<char>>
    decreases tables.len(),
{
    if tables.len() == 0 {
        None
    } else if !tables[0].1 {
        Some(tables[0].0)
    } else {
        first_unreadable(tables.skip(1))
    }
}

/// Whether an aggregation that was declared composes, by the first of its name.
pub open spec fn composes(declared: Seq<(Seq<char>, Seq<char>, bool)>, name: Seq<char>) -> Option<bool>
    decreases declared.len(),
{
    if declared.len() == 0 {
        None
    } else if declared[0].0 == name {
        Some(declared[0].2)
    } else {
        composes(declared.skip(1), name)
    }
}

/// What is said of a measure that combines by an aggregation that was not declared.
pub open spec fn undeclared(measure: Seq<char>, dimension: Seq<char>, named: Seq<char>) -> Seq<char> {
    "the measure `"@ + measure + "` combines along `"@ + dimension + "` by an aggregation called `"@ + named
        + "`, and this server has none by that name. `SHOW AGGREGATIONS` lists what it has"@
}

/// Whether each rule of a measure composes, where it is an aggregation that a user declared, or what
/// is said of the first that was not declared. It is taken from the declaration and never from the
/// cube, because it was tried when it was declared.
pub open spec fn rules_resolved(
    measure: Seq<char>,
    rules: Seq<AlongRule>,
    declared: Seq<(Seq<char>, Seq<char>, bool)>,
) -> Result<Seq<Option<bool>>, Seq<char>>
    decreases rules.len(),
{
    if rules.len() == 0 {
        Ok(Seq::empty())
    } else {
        match rules_resolved(measure, rules.drop_last(), declared) {
            Err(why) => Err(why),
            Ok(before) => match rules.last().supplied {
                None => Ok(before.push(None)),
                Some(named) => match composes(declared, named@) {
                    Some(composes) => Ok(before.push(Some(composes))),
                    None => Err(undeclared(measure, rules.last().dimension@, named@)),
                },
            },
        }
    }
}

/// Whether each rule of each measure composes, or what is said of the first that was not declared.
pub open spec fn measures_resolved(
    measures: Seq<MeasureRules>,
    declared: Seq<(Seq<char>, Seq<char>, bool)>,
) -> Result<Seq<Seq<Option<bool>>>, Seq<char>>
    decreases measures.len(),
{
    if measures.len() == 0 {
        Ok(Seq::empty())
    } else {
        match measures_resolved(measures.drop_last(), declared) {
            Err(why) => Err(why),
            Ok(before) => match rules_resolved(measures.last().name@, measures.last().rules@, declared) {
                Err(why) => Err(why),
                Ok(rules) => Ok(before.push(rules)),
            },
        }
    }
}

proof fn lemma_rules_stop(
    measure: Seq<char>,
    rules: Seq<AlongRule>,
    declared: Seq<(Seq<char>, Seq<char>, bool)>,
    i: int,
)
    requires
        0 <= i <= rules.len(),
        rules_resolved(measure, rules.take(i), declared) is Err,
    ensures
        rules_resolved(measure, rules, declared) == rules_resolved(measure, rules.take(i), declared),
    decreases rules.len(),
{
    if i < rules.len() {
        assert(rules.drop_last().take(i) =~= rules.take(i));
        lemma_rules_stop(measure, rules.drop_last(), declared, i);
    } else {
        assert(rules.take(i) =~= rules);
    }
}

proof fn lemma_measures_stop(
    measures: Seq<MeasureRules>,
    declared: Seq<(Seq<char>, Seq<char>, bool)>,
    i: int,
)
    requires
        0 <= i <= measures.len(),
        measures_resolved(measures.take(i), declared) is Err,
    ensures
        measures_resolved(measures, declared) == measures_resolved(measures.take(i), declared),
    decreases measures.len(),
{
    if i < measures.len() {
        assert(measures.drop_last().take(i) =~= measures.take(i));
        lemma_measures_stop(measures.drop_last(), declared, i);
    } else {
        assert(measures.take(i) =~= measures);
    }
}

fn find_composes(declared: &Vec<Aggregation>, name: &str) -> (r: Option<bool>)
    ensures
        r == composes(aggregations::all_views(declared@), name@),
{
    let ghost all = aggregations::all_views(declared@);
    let mut i: usize = 0;
    assert(all.skip(0) =~= all);
    while i < declared.len()
        invariant
            i <= declared@.len(),
            all == aggregations::all_views(declared@),
            composes(all, name@) == composes(all.skip(i as int), name@),
        decreases declared@.len() - i,
    {
        assert(all.skip(i as int).skip(1) =~= all.skip(i + 1));
        if same(declared[i].name.as_str(), name) {
            return Some(declared[i].composes);
        }
        i = i + 1;
    }
    None
}

fn resolve_rules(measure: &MeasureRules, declared: &Vec<Aggregation>) -> (r: Result<Vec<Option<bool>>, String>)
    ensures
        (match r {
            Ok(rules) => Ok::<Seq<Option<bool>>, Seq<char>>(rules@),
            Err(why) => Err(why@),
        }) == rules_resolved(measure.name@, measure.rules@, aggregations::all_views(declared@)),
{
    let ghost all = aggregations::all_views(declared@);
    let rules = &measure.rules;
    let mut r: Vec<Option<bool>> = Vec::new();
    let mut i: usize = 0;
    while i < rules.len()
        invariant
            i <= rules@.len(),
            rules == measure.rules,
            all == aggregations::all_views(declared@),
            rules_resolved(measure.name@, rules@.take(i as int), all) == Ok::<Seq<Option<bool>>, Seq<char>>(r@),
        decreases rules@.len() - i,
    {
        assert(rules@.take(i + 1).drop_last() =~= rules@.take(i as int));
        match &rules[i].supplied {
            None => {
                r.push(None);
            },
            Some(named) => match find_composes(declared, named.as_str()) {
                Some(composes) => {
                    r.push(Some(composes));
                },
                None => {
                    let mut why = "the measure `".to_string();
                    why.append(measure.name.as_str());
                    why.append("` combines along `");
                    why.append(rules[i].dimension.as_str());
                    why.append("` by an aggregation called `");
                    why.append(named.as_str());
                    why.append("`, and this server has none by that name. `SHOW AGGREGATIONS` lists what it has");
                    proof {
                        lemma_rules_stop(measure.name@, rules@, all, i + 1);
                    }
                    return Err(why);
                },
            },
        }
        i = i + 1;
    }
    assert(rules@.take(rules@.len() as int) =~= rules@);
    Ok(r)
}

/// What rules of measures say.
pub open spec fn rule_views(rules: Seq<Vec<Option<bool>>>) -> Seq<Seq<Option<bool>>> {
    rules.map_values(|r: Vec<Option<bool>>| r@)
}

fn resolve_measures(measures: &Vec<MeasureRules>, declared: &Vec<Aggregation>) -> (r: Result<
    Vec<Vec<Option<bool>>>,
    String,
>)
    ensures
        (match r {
            Ok(rules) => Ok::<Seq<Seq<Option<bool>>>, Seq<char>>(rule_views(rules@)),
            Err(why) => Err(why@),
        }) == measures_resolved(measures@, aggregations::all_views(declared@)),
{
    let ghost all = aggregations::all_views(declared@);
    let mut r: Vec<Vec<Option<bool>>> = Vec::new();
    let mut i: usize = 0;
    assert(rule_views(r@) =~= Seq::empty());
    while i < measures.len()
        invariant
            i <= measures@.len(),
            all == aggregations::all_views(declared@),
            measures_resolved(measures@.take(i as int), all) == Ok::<Seq<Seq<Option<bool>>>, Seq<char>>(
                rule_views(r@),
            ),
        decreases measures@.len() - i,
    {
        assert(measures@.take(i + 1).drop_last() =~= measures@.take(i as int));
        match resolve_rules(&measures[i], declared) {
            Ok(rules) => {
                let ghost was = r@;
                let ghost added = rules@;
                r.push(rules);
                assert(rule_views(r@) =~= rule_views(was).push(added));
            },
            Err(why) => {
                proof {
                    lemma_measures_stop(measures@, all, i + 1);
                }
                return Err(why);
            },
        }
        i = i + 1;
    }
    assert(measures@.take(measures@.len() as int) =~= measures@);
    Ok(r)
}

/// What stands against a cube, up to its own validity, or whether each of its rules composes: its
/// name is taken, a table is not there or may not be read, an aggregation was not declared, or it is
/// a derived result that is to be maintained, which nothing does.
pub open spec fn creation(
    definition: CubeDefinition,
    taken: bool,
    tables: Seq<(Seq<char>, bool)>,
    declared: Seq<(Seq<char>, Seq<char>, bool)>,
) -> Result<Seq<Seq<Option<bool>>>, wire::Refusal> {
    if taken {
        Err(
            wire::refused(
                wire::DATA_EXCEPTION@,
                "`"@ + definition.name@
                    + "` already exists. Drop it first: replacing a cube retires every cuboid it materialised, which is not something a re-run of a script should do silently"@,
            ),
        )
    } else {
        match first_unreadable(tables) {
            Some(table) => Err(
                wire::refused(wire::DATA_EXCEPTION@, "there is no table `"@ + table + "` to build a cube on"@),
            ),
            None => match measures_resolved(definition.measures@, declared) {
                Err(why) => Err(wire::refused(wire::DATA_EXCEPTION@, why)),
                Ok(rules) => if definition.derived && definition.maintained {
                    Err(
                        wire::refused(
                            wire::DATA_EXCEPTION@,
                            "`"@ + definition.name@
                                + "` is a derived result, and a maintained one is not built yet ---                  `ADR-0014` Option A settles that it can be, and nothing materialises it today.                  Declare it without `MAINTAINED` and it is computed under the caller's own                  scope on every read, which is correct and is not cached. Refused rather than                  accepted: a staleness bound nothing honours is worse than none"@,
                        ),
                    )
                } else {
                    Ok(rules)
                },
            },
        }
    }
}

fn find_unreadable(tables: &Vec<(String, bool)>) -> (r: Option<String>)
    ensures
        wire::cell(r) == first_unreadable(tables@.map_values(|t: (String, bool)| (t.0@, t.1))),
{
    let ghost all = tables@.map_values(|t: (String, bool)| (t.0@, t.1));
    let mut i: usize = 0;
    assert(all.skip(0) =~= all);
    while i < tables.len()
        invariant
            i <= tables@.len(),
            all == tables@.map_values(|t: (String, bool)| (t.0@, t.1)),
            first_unreadable(all) == first_unreadable(all.skip(i as int)),
        decreases tables@.len() - i,
    {
        assert(all.skip(i as int).skip(1) =~= all.skip(i + 1));
        if !tables[i].1 {
            return Some(tables[i].0.clone());
        }
        i = i + 1;
    }
    None
}

/// What stands against a cube, or whether each of its rules composes: `taken` says whether its name
/// is, and `tables` whether the caller may read each table it reads and each that a dimension lies
/// in.
pub fn create(
    definition: &CubeDefinition,
    taken: bool,
    tables: &Vec<(String, bool)>,
    declared: &Vec<Aggregation>,
) -> (r: Result<Vec<Vec<Option<bool>>>, QueryFailure>)
    ensures
        (match r {
            Ok(rules) => Ok::<Seq<Seq<Option<bool>>>, wire::Refusal>(rule_views(rules@)),
            Err(failure) => Err(failure@),
        }) == creation(
            *definition,
            taken,
            tables@.map_values(|t: (String, bool)| (t.0@, t.1)),
            aggregations::all_views(declared@),
        ),
{
    if taken {
        let mut message = "`".to_string();
        message.append(definition.name.as_str());
        message.append(
            "` already exists. Drop it first: replacing a cube retires every cuboid it materialised, which is not something a re-run of a script should do silently",
        );
        return Err(refusal(wire::DATA_EXCEPTION, message.as_str()));
    }
    if let Some(table) = find_unreadable(tables) {
        let mut message = "there is no table `".to_string();
        message.append(table.as_str());
        message.append("` to build a cube on");
        return Err(refusal(wire::DATA_EXCEPTION, message.as_str()));
    }
    let rules = match resolve_measures(&definition.measures, declared) {
        Ok(rules) => rules,
        Err(why) => {
            return Err(refusal(wire::DATA_EXCEPTION, why.as_str()));
        },
    };
    if definition.derived && definition.maintained {
        let mut message = "`".to_string();
        message.append(definition.name.as_str());
        message.append(
            "` is a derived result, and a maintained one is not built yet ---                  `ADR-0014` Option A settles that it can be, and nothing materialises it today.                  Declare it without `MAINTAINED` and it is computed under the caller's own                  scope on every read, which is correct and is not cached. Refused rather than                  accepted: a staleness bound nothing honours is worse than none",
        );
        return Err(refusal(wire::DATA_EXCEPTION, message.as_str()));
    }
    Ok(rules)
}

/// What is answered to a statement that makes a cube, once nothing else stands against it: what is
/// wrong with it, all of it at once, or why it could not be kept, or that it was made.
pub fn created(name: &str, derived: bool, rejections: &Vec<String>, unsaved: Option<&str>) -> (r: Result<
    QueryResult,
    QueryFailure,
>)
    ensures
        wire::reply(r) == (if rejections@.len() > 0 {
            Err(
                wire::refused(
                    wire::DATA_EXCEPTION@,
                    "the cube `"@ + name@ + "` was not created: "@ + text::joined(
                        text::views(rejections@),
                        "; "@,
                    ),
                ),
            )
        } else {
            match unsaved {
                Some(why) => Err(wire::refused(wire::IO_ERROR@, why@)),
                None => Ok(
                    wire::done(
                        if derived {
                            "CREATE DERIVED"@
                        } else {
                            "CREATE CUBE"@
                        },
                    ),
                ),
            }
        }),
{
    if rejections.len() > 0 {
        let mut message = "the cube `".to_string();
        message.append(name);
        message.append("` was not created: ");
        message.append(join(rejections, "; ").as_str());
        return Err(refusal(wire::DATA_EXCEPTION, message.as_str()));
    }
    match unsaved {
        Some(why) => Err(refusal(wire::IO_ERROR, why)),
        None => {
            if derived {
                Ok(completed("CREATE DERIVED"))
            } else {
                Ok(completed("CREATE CUBE"))
            }
        },
    }
}

/// A table that is not there and one that may not be read are answered alike, so that a cube cannot
/// be used to ask which of the two a table is.
pub proof fn cubes_confirm_no_table(
    definition: CubeDefinition,
    before: Seq<(Seq<char>, bool)>,
    table: Seq<char>,
    after: Seq<(Seq<char>, bool)>,
    declared: Seq<(Seq<char>, Seq<char>, bool)>,
)
    requires
        forall|i: int| 0 <= i < before.len() ==> (#[trigger] before[i]).1,
    ensures
        creation(definition, false, before + seq![(table, false)] + after, declared) == Err::<
            Seq<Seq<Option<bool>>>,
            wire::Refusal,
        >(wire::refused(wire::DATA_EXCEPTION@, "there is no table `"@ + table + "` to build a cube on"@)),
{
    lemma_first_unreadable(before, table, after);
}

proof fn lemma_first_unreadable(before: Seq<(Seq<char>, bool)>, table: Seq<char>, after: Seq<(Seq<char>, bool)>)
    requires
        forall|i: int| 0 <= i < before.len() ==> (#[trigger] before[i]).1,
    ensures
        first_unreadable(before + seq![(table, false)] + after) == Some(table),
    decreases before.len(),
{
    let all = before + seq![(table, false)] + after;
    if before.len() == 0 {
        assert(all[0] == (table, false));
    } else {
        assert(all[0] == before[0]);
        assert(before[0].1);
        assert forall|i: int| 0 <= i < before.skip(1).len() implies (#[trigger] before.skip(1)[i]).1 by {
            assert(before[i + 1].1);
        }
        lemma_first_unreadable(before.skip(1), table, after);
        assert(all.skip(1) =~= before.skip(1) + seq![(table, false)] + after);
    }
}

// --- dropping ---------------------------------------------------------------------------------

/// A cube as a drop finds it.
pub struct Held {
    /// Its name.
    pub name: String,
    /// Whether it is a derived result.
    pub derived: bool,
    /// Whether the caller may read every table it reads.
    pub readable: bool,
}

/// Whether the first of this name and kind may be read; none where there is none.
pub open spec fn held_as(cubes: Seq<Held>, name: Seq<char>, derived: bool) -> Option<bool>
    decreases cubes.len(),
{
    if cubes.len() == 0 {
        None
    } else if cubes[0].name@ == name && cubes[0].derived == derived {
        Some(cubes[0].readable)
    } else {
        held_as(cubes.skip(1), name, derived)
    }
}

/// What a drop is called.
pub open spec fn drop_tag(derived: bool) -> Seq<char> {
    if derived {
        "DROP DERIVED"@
    } else {
        "DROP CUBE"@
    }
}

/// What is said of a cube or derived result that is not there, or whose tables may not be read.
pub open spec fn no_such(name: Seq<char>, derived: bool) -> wire::Refusal {
    wire::refused(
        wire::DATA_EXCEPTION@,
        "there is no "@ + (if derived {
            "derived result"@
        } else {
            "cube"@
        }) + " `"@ + name + "`"@,
    )
}

/// What becomes of a drop: it goes on, or it is answered. What is dropped is of the kind that was
/// named, and its tables may be read by whoever asks.
pub fn remove(cubes: &Vec<Held>, name: &str, if_exists: bool, derived: bool) -> (r: Option<
    Result<QueryResult, QueryFailure>,
>)
    ensures
        wire::reply_if_any(r) == (match held_as(cubes@, name@, derived) {
            Some(true) => None,
            Some(false) => Some(Err(no_such(name@, derived))),
            None => if if_exists {
                Some(Ok(wire::done(drop_tag(derived))))
            } else {
                Some(Err(no_such(name@, derived)))
            },
        }),
{
    let mut found: Option<bool> = None;
    let mut i: usize = 0;
    assert(cubes@.skip(0) =~= cubes@);
    while i < cubes.len() && found.is_none()
        invariant
            i <= cubes@.len(),
            match found {
                Some(readable) => held_as(cubes@, name@, derived) == Some(readable),
                None => held_as(cubes@, name@, derived) == held_as(cubes@.skip(i as int), name@, derived),
            },
        decreases cubes@.len() - i,
    {
        assert(cubes@.skip(i as int).skip(1) =~= cubes@.skip(i + 1));
        if same(cubes[i].name.as_str(), name) && cubes[i].derived == derived {
            found = Some(cubes[i].readable);
        }
        i = i + 1;
    }
    let kind = if derived {
        "derived result"
    } else {
        "cube"
    };
    match found {
        Some(true) => None,
        None if if_exists => {
            if derived {
                Some(Ok(completed("DROP DERIVED")))
            } else {
                Some(Ok(completed("DROP CUBE")))
            }
        },
        _ => {
            let mut message = "there is no ".to_string();
            message.append(kind);
            message.append(" `");
            message.append(name);
            message.append("`");
            Some(Err(refusal(wire::DATA_EXCEPTION, message.as_str())))
        },
    }
}

/// What is answered once a drop went on: `unnamed` says why its definition has no place, `kept` why
/// the definition that lies there could not be removed; one that lies nowhere is as good as removed.
pub fn dropped(derived: bool, unnamed: Option<&str>, kept: Option<&str>) -> (r: Result<QueryResult, QueryFailure>)
    ensures
        wire::reply(r) == (match (unnamed, kept) {
            (Some(why), _) => Err(wire::refused(wire::DATA_EXCEPTION@, why@)),
            (None, Some(why)) => Err(wire::refused(wire::IO_ERROR@, why@)),
            (None, None) => Ok(wire::done(drop_tag(derived))),
        }),
{
    if let Some(why) = unnamed {
        return Err(refusal(wire::DATA_EXCEPTION, why));
    }
    match kept {
        Some(why) => Err(refusal(wire::IO_ERROR, why)),
        None => {
            if derived {
                Ok(completed("DROP DERIVED"))
            } else {
                Ok(completed("DROP CUBE"))
            }
        },
    }
}

// --- derived results --------------------------------------------------------------------------

/// A derived result or a cube, as a session finds it.
pub struct Derivable {
    /// Whether it is a derived result.
    pub derived: bool,
    /// Whether the caller may read every table it reads.
    pub readable: bool,
    /// What its rows come from.
    pub fact: String,
}

/// The derived results that a session may name, by their places, each with the statement it is
/// planned from: those whose tables the caller may read.
pub open spec fn registrable(cubes: Seq<Derivable>) -> Seq<(int, Seq<char>)>
    decreases cubes.len(),
{
    if cubes.len() == 0 {
        Seq::empty()
    } else {
        let before = registrable(cubes.drop_last());
        if cubes.last().derived && cubes.last().readable {
            before.push((cubes.len() - 1, "SELECT * FROM "@ + cubes.last().fact@ + " AS derived"@))
        } else {
            before
        }
    }
}

/// The derived results that a session may name.
pub fn register_derived(cubes: &Vec<Derivable>) -> (r: Vec<(usize, String)>)
    ensures
        r@.map_values(|d: (usize, String)| (d.0 as int, d.1@)) == registrable(cubes@),
{
    let mut r: Vec<(usize, String)> = Vec::new();
    let mut i: usize = 0;
    assert(r@.map_values(|d: (usize, String)| (d.0 as int, d.1@)) =~= Seq::empty());
    while i < cubes.len()
        invariant
            i <= cubes@.len(),
            r@.map_values(|d: (usize, String)| (d.0 as int, d.1@)) == registrable(cubes@.take(i as int)),
        decreases cubes@.len() - i,
    {
        assert(cubes@.take(i + 1).drop_last() =~= cubes@.take(i as int));
        if cubes[i].derived && cubes[i].readable {
            let mut statement = "SELECT * FROM ".to_string();
            statement.append(cubes[i].fact.as_str());
            statement.append(" AS derived");
            let ghost was = r@;
            let ghost added = (i as int, statement@);
            r.push((i, statement));
            assert(r@.map_values(|d: (usize, String)| (d.0 as int, d.1@)) =~= was.map_values(
                |d: (usize, String)| (d.0 as int, d.1@),
            ).push(added));
        }
        i = i + 1;
    }
    assert(cubes@.take(cubes@.len() as int) =~= cubes@);
    r
}

/// The first table that may not be read is found, and none where all may be.
pub proof fn unreadable_tables_are_found(tables: Seq<(Seq<char>, bool)>)
    ensures
        match first_unreadable(tables) {
            Some(found) => exists|i: int| #![trigger tables[i]] lists::first_at(tables, i, |t: (Seq<char>, bool)| !t.1)
                && found == tables[i].0,
            None => lists::nowhere(tables, |t: (Seq<char>, bool)| !t.1),
        },
    decreases tables.len(),
{
    let p = |t: (Seq<char>, bool)| !t.1;
    if tables.len() > 0 {
        lists::lemma_first_behind(tables, p);
        if p(tables[0]) {
            assert(lists::first_at(tables, 0, p));
        } else {
            unreadable_tables_are_found(tables.skip(1));
            if let Some(found) = first_unreadable(tables.skip(1)) {
                let i = choose|i: int| #![trigger tables.skip(1)[i]] lists::first_at(tables.skip(1), i, p)
                    && found == tables.skip(1)[i].0;
                assert(lists::first_at(tables, i + 1, p));
                assert(tables[i + 1] == tables.skip(1)[i]);
            }
        }
    }
}

/// Whether an aggregation composes is what its own declaration says, the first of its name.
pub proof fn aggregations_compose_as_declared(declared: Seq<(Seq<char>, Seq<char>, bool)>, name: Seq<char>)
    ensures
        match composes(declared, name) {
            Some(found) => exists|i: int| #![trigger declared[i]] lists::first_at(declared, i, |a: (Seq<char>, Seq<char>, bool)| a.0 == name)
                && found == declared[i].2,
            None => lists::nowhere(declared, |a: (Seq<char>, Seq<char>, bool)| a.0 == name),
        },
    decreases declared.len(),
{
    let p = |a: (Seq<char>, Seq<char>, bool)| a.0 == name;
    if declared.len() > 0 {
        lists::lemma_first_behind(declared, p);
        if p(declared[0]) {
            assert(lists::first_at(declared, 0, p));
        } else {
            aggregations_compose_as_declared(declared.skip(1), name);
            if let Some(found) = composes(declared.skip(1), name) {
                let i = choose|i: int| #![trigger declared.skip(1)[i]] lists::first_at(declared.skip(1), i, p)
                    && found == declared.skip(1)[i].2;
                assert(lists::first_at(declared, i + 1, p));
                assert(declared[i + 1] == declared.skip(1)[i]);
            }
        }
    }
}

/// A cube is held, readable or not, where one of its name and kind is: the first such.
pub proof fn cubes_are_held_by_name_and_kind(cubes: Seq<Held>, name: Seq<char>, derived: bool)
    ensures
        match held_as(cubes, name, derived) {
            Some(found) => exists|i: int| #![trigger cubes[i]] lists::first_at(cubes, i, |c: Held| c.name@ == name
                && c.derived == derived) && found == cubes[i].readable,
            None => lists::nowhere(cubes, |c: Held| c.name@ == name && c.derived == derived),
        },
    decreases cubes.len(),
{
    let p = |c: Held| c.name@ == name && c.derived == derived;
    if cubes.len() > 0 {
        lists::lemma_first_behind(cubes, p);
        if p(cubes[0]) {
            assert(lists::first_at(cubes, 0, p));
        } else {
            cubes_are_held_by_name_and_kind(cubes.skip(1), name, derived);
            if let Some(found) = held_as(cubes.skip(1), name, derived) {
                let i = choose|i: int| #![trigger cubes.skip(1)[i]] lists::first_at(cubes.skip(1), i, p)
                    && found == cubes.skip(1)[i].readable;
                assert(lists::first_at(cubes, i + 1, p));
                assert(cubes[i + 1] == cubes.skip(1)[i]);
            }
        }
    }
}

/// A measure's rules compose as the aggregations they name do, rule by rule, and every aggregation that is
/// named is declared; where one is not, nothing is resolved.
pub proof fn rules_compose_as_declared(
    measure: Seq<char>,
    rules: Seq<AlongRule>,
    declared: Seq<(Seq<char>, Seq<char>, bool)>,
)
    ensures
        match rules_resolved(measure, rules, declared) {
            Ok(resolved) => resolved.len() == rules.len() && forall|i: int|
                0 <= i < rules.len() ==> match (#[trigger] rules[i]).supplied {
                    Some(named) => composes(declared, named@) is Some && resolved[i] == composes(declared, named@),
                    None => resolved[i] is None,
                },
            Err(_) => exists|i: int|
                0 <= i < rules.len() && ((#[trigger] rules[i]).supplied matches Some(named) && composes(declared, named@)
                    is None),
        },
    decreases rules.len(),
{
    if rules.len() > 0 {
        let before = rules.drop_last();
        let n = rules.len() - 1;
        rules_compose_as_declared(measure, before, declared);
        match rules_resolved(measure, before, declared) {
            Err(_) => {
                let i = choose|i: int|
                    0 <= i < before.len() && ((#[trigger] before[i]).supplied matches Some(named) && composes(
                        declared,
                        named@,
                    ) is None);
                assert(rules[i] == before[i]);
            },
            Ok(earlier) => {
                if let Ok(resolved) = rules_resolved(measure, rules, declared) {
                    assert forall|i: int| 0 <= i < rules.len() implies match (#[trigger] rules[i]).supplied {
                        Some(named) => composes(declared, named@) is Some && resolved[i] == composes(declared, named@),
                        None => resolved[i] is None,
                    } by {
                        if i < n {
                            assert(before[i] == rules[i]);
                            assert(resolved[i] == earlier[i]);
                        }
                    }
                } else {
                    assert(rules[n].supplied is Some);
                }
            },
        }
    }
}

/// A cube is created exactly where its name is free, every table it reads may be read, its rules resolve, and
/// it is not a derived result that asks to be maintained.
pub proof fn cubes_are_created_of_readable_tables(
    definition: CubeDefinition,
    taken: bool,
    tables: Seq<(Seq<char>, bool)>,
    declared: Seq<(Seq<char>, Seq<char>, bool)>,
)
    ensures
        creation(definition, taken, tables, declared) is Ok <==> !taken && (forall|i: int|
            0 <= i < tables.len() ==> (#[trigger] tables[i]).1) && measures_resolved(definition.measures@, declared) is Ok
            && !(definition.derived && definition.maintained),
        creation(definition, taken, tables, declared) matches Ok(rules) ==> measures_resolved(
            definition.measures@,
            declared,
        ) == Ok::<Seq<Seq<Option<bool>>>, Seq<char>>(rules),
{
    unreadable_tables_are_found(tables);
    let p = |t: (Seq<char>, bool)| !t.1;
    match first_unreadable(tables) {
        Some(found) => {
            let i = choose|i: int| #![trigger tables[i]] lists::first_at(tables, i, p) && found == tables[i].0;
            assert(!tables[i].1);
        },
        None => {
            assert forall|i: int| 0 <= i < tables.len() implies (#[trigger] tables[i]).1 by {
                assert(!p(tables[i]));
            }
        },
    }
}

/// Every measure of a cube is resolved by its own rules, in order.
pub proof fn measures_resolve_one_by_one(
    measures: Seq<MeasureRules>,
    declared: Seq<(Seq<char>, Seq<char>, bool)>,
    i: int,
)
    requires
        measures_resolved(measures, declared) is Ok,
        0 <= i < measures.len(),
    ensures
        measures_resolved(measures, declared)->Ok_0.len() == measures.len(),
        rules_resolved(measures[i].name@, measures[i].rules@, declared) == Ok::<Seq<Option<bool>>, Seq<char>>(
            measures_resolved(measures, declared)->Ok_0[i],
        ),
    decreases measures.len(),
{
    reveal_with_fuel(measures_resolved, 2);
    if i < measures.len() - 1 {
        measures_resolve_one_by_one(measures.drop_last(), declared, i);
    } else if measures.len() > 1 {
        measures_resolve_one_by_one(measures.drop_last(), declared, 0);
    }
}

/// The derived results put before a session are those the caller may read, each from its own facts.
pub proof fn readable_derived_results_are_registered(cubes: Seq<Derivable>)
    ensures
        forall|k: int|
            0 <= k < registrable(cubes).len() ==> {
                let (i, query) = #[trigger] registrable(cubes)[k];
                0 <= i < cubes.len() && cubes[i].derived && cubes[i].readable && query == "SELECT * FROM "@
                    + cubes[i].fact@ + " AS derived"@
            },
        forall|i: int|
            0 <= i < cubes.len() && (#[trigger] cubes[i]).derived && cubes[i].readable ==> registrable(cubes).contains(
                (i, "SELECT * FROM "@ + cubes[i].fact@ + " AS derived"@),
            ),
    decreases cubes.len(),
{
    if cubes.len() > 0 {
        let before = cubes.drop_last();
        let n = cubes.len() - 1;
        readable_derived_results_are_registered(before);
        let earlier = registrable(before);
        let all = registrable(cubes);
        assert forall|k: int| 0 <= k < all.len() implies ({
            let (i, query) = #[trigger] all[k];
            0 <= i < cubes.len() && cubes[i].derived && cubes[i].readable && query == "SELECT * FROM "@ + cubes[i].fact@
                + " AS derived"@
        }) by {
            if k < earlier.len() {
                assert(all[k] == earlier[k]);
                assert(before[earlier[k].0] == cubes[all[k].0]);
            }
        }
        assert forall|i: int| 0 <= i < cubes.len() && (#[trigger] cubes[i]).derived
            && cubes[i].readable implies all.contains(
            (i, "SELECT * FROM "@ + cubes[i].fact@ + " AS derived"@),
        ) by {
            let entry = (i, "SELECT * FROM "@ + cubes[i].fact@ + " AS derived"@);
            if i < n {
                assert(before[i] == cubes[i]);
                assert(earlier.contains(entry));
                let k = choose|k: int| 0 <= k < earlier.len() && earlier[k] == entry;
                assert(all[k] == entry);
            } else {
                assert(all[all.len() - 1] == entry);
            }
        }
    }
}

/// What is dropped is acknowledged by its own kind, and what is not there is refused by its own kind.
pub proof fn drops_are_acknowledged_by_kind(name: Seq<char>)
    ensures
        drop_tag(true) == "DROP DERIVED"@,
        drop_tag(false) == "DROP CUBE"@,
        no_such(name, true).message == "there is no derived result"@ + " `"@ + name + "`"@,
        no_such(name, false).message == "there is no cube"@ + " `"@ + name + "`"@,
        no_such(name, true).sqlstate == no_such(name, false).sqlstate,
{
    reveal_strlit("there is no ");
    reveal_strlit("derived result");
    reveal_strlit("cube");
    reveal_strlit("there is no derived result");
    reveal_strlit("there is no cube");
    assert("there is no derived result"@ =~= "there is no "@ + "derived result"@);
    assert("there is no cube"@ =~= "there is no "@ + "cube"@);
}

} // verus!
