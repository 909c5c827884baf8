//! What a table is a clone of, and what still reads it.
//!
//! These are questions about data: to learn that one table is a clone of another is to learn that
//! the other exists. So they are answered only to a caller who may read the table asked about, and
//! to everyone else in the words of a table that is not there.

use crate::numerals::{self, decimal_text, signed_text};
use crate::snapshots::{self, absent_table};
use crate::text::{self, join, same};
use crate::textmap::TextMap;
use crate::wire::{self, refusal, refusal_about, FieldDescription, QueryFailure, QueryResult};
use vstd::prelude::*;

verus! {

/// What a name stands for among the tables of a warehouse, by qualified name.
#[derive(PartialEq, Eq, Debug)]
pub enum Qualified {
    /// One table.
    One(String),
    /// None.
    Absent,
    /// Several.
    Ambiguous(Vec<String>),
}

/// Where a clone came from.
#[derive(PartialEq, Eq, Debug)]
pub struct Lineage {
    /// The table it is a clone of.
    pub origin: String,
    /// The version it reads.
    pub version: u64,
    /// When it was made.
    pub cloned_at: i64,
}

impl View for Lineage {
    type V = (Seq<char>, u64, i64);

    open spec fn view(&self) -> (Seq<char>, u64, i64) {
        (self.origin@, self.version, self.cloned_at)
    }
}

/// A question about a clone.
#[derive(Clone, Copy, PartialEq, Eq, Debug, Structural)]
pub enum Question {
    /// What is it a clone of?
    Lineage,
    /// What reads it?
    Dependents,
}

/// The refusal of a name that several tables bear.
pub open spec fn ambiguous_name(asked: Seq<char>, candidates: Seq<Seq<char>>) -> wire::Refusal {
    wire::refused_about(
        "42P09"@,
        "`"@ + asked + "` names more than one table: "@ + text::joined(candidates, ", "@),
        "Qualify it with its schema. Both candidates are in this refusal's `subjects`."@,
        candidates,
    )
}

/// The refusal of a lineage that leads back to itself.
pub open spec fn cyclic(table: Seq<char>, at: Seq<char>) -> wire::Refusal {
    wire::refused(
        wire::DATA_EXCEPTION@,
        "the lineage of `"@ + table + "` forms a cycle at `"@ + at
            + "`, which cannot                              happen by cloning and can by editing a table's properties.                              Refused rather than followed"@,
    )
}

fn cycle_refusal(table: &str, at: &str) -> (r: QueryFailure)
    ensures
        r@ == cyclic(table@, at@),
{
    let mut message = "the lineage of `".to_string();
    message.append(table);
    message.append("` forms a cycle at `");
    message.append(at);
    message.append(
        "`, which cannot                              happen by cloning and can by editing a table's properties.                              Refused rather than followed",
    );
    refusal(wire::DATA_EXCEPTION, message.as_str())
}

/// The number of a lineage's version, where there is a lineage.
pub open spec fn version_cell(lineages: Map<Seq<char>, Lineage>, table: Seq<char>) -> Option<Seq<char>> {
    if lineages.contains_key(table) {
        Some(numerals::decimal(lineages[table].version as nat))
    } else {
        None
    }
}

/// The time of a lineage, where there is a lineage.
pub open spec fn time_cell(lineages: Map<Seq<char>, Lineage>, table: Seq<char>) -> Option<Seq<char>> {
    if lineages.contains_key(table) {
        Some(numerals::signed_decimal(lineages[table].cloned_at as int))
    } else {
        None
    }
}

/// The table one step nearer than a step of a chain: the one whose lineage names that step.
pub open spec fn nearer(table: Seq<char>, chain: Seq<Seq<char>>, step: int) -> Seq<char> {
    if step == 0 {
        table
    } else {
        chain[step - 1]
    }
}

/// What a table is a clone of, step by step: the nearest first, what it ultimately reads last.
pub open spec fn lineage_answer(
    table: Seq<char>,
    chain: Seq<Seq<char>>,
    lineages: Map<Seq<char>, Lineage>,
) -> wire::Answer {
    wire::Answer {
        fields: seq![
            ("step"@, wire::OID_INT8, 8i16),
            ("origin"@, wire::OID_TEXT, wire::VARIES),
            ("origin_version"@, wire::OID_INT8, 8i16),
            ("cloned_at"@, wire::OID_INT8, 8i16),
        ],
        rows: Seq::new(
            chain.len(),
            |i: int|
                seq![
                    Some(numerals::decimal((i + 1) as nat)),
                    Some(chain[i]),
                    version_cell(lineages, nearer(table, chain, i)),
                    time_cell(lineages, nearer(table, chain, i)),
                ],
        ),
        tag: "SELECT "@ + numerals::decimal(chain.len()),
    }
}

/// Whether a table is a clone of another itself, rather than of a clone of it.
pub open spec fn is_direct(lineages: Map<Seq<char>, Lineage>, dependent: Seq<char>, table: Seq<char>) -> bool {
    lineages.contains_key(dependent) && lineages[dependent].origin@ == table
}

/// What reads a table: each dependent, whether it reads the table itself, and at which version.
pub open spec fn dependents_answer(
    table: Seq<char>,
    dependents: Seq<Seq<char>>,
    lineages: Map<Seq<char>, Lineage>,
) -> wire::Answer {
    wire::Answer {
        fields: seq![
            ("dependent"@, wire::OID_TEXT, wire::VARIES),
            ("relation"@, wire::OID_TEXT, wire::VARIES),
            ("reads_version"@, wire::OID_INT8, 8i16),
        ],
        rows: Seq::new(
            dependents.len(),
            |i: int|
                seq![
                    Some(dependents[i]),
                    Some(
                        if is_direct(lineages, dependents[i], table) {
                            "direct"@
                        } else {
                            "indirect"@
                        },
                    ),
                    version_cell(lineages, dependents[i]),
                ],
        ),
        tag: "SELECT "@ + numerals::decimal(dependents.len()),
    }
}

fn cells_of(lineages: &TextMap<Lineage>, table: &str) -> (r: (Option<String>, Option<String>))
    ensures
        wire::cell(r.0) == version_cell(lineages@, table@),
        wire::cell(r.1) == time_cell(lineages@, table@),
{
    match lineages.get(table) {
        Some(lineage) => (Some(decimal_text(lineage.version)), Some(signed_text(lineage.cloned_at))),
        None => (None, None),
    }
}

fn answer_lineage(table: &str, chain: &Vec<String>, lineages: &TextMap<Lineage>) -> (r: QueryResult)
    ensures
        r@ == lineage_answer(table@, text::views(chain@), lineages@),
{
    let ghost names = text::views(chain@);
    let ghost expected = lineage_answer(table@, names, lineages@);
    let mut rows: Vec<Vec<Option<String>>> = Vec::new();
    let mut i: usize = 0;
    while i < chain.len()
        invariant
            i <= chain@.len(),
            names == text::views(chain@),
            expected == lineage_answer(table@, names, lineages@),
            rows@.len() == i,
            forall|k: int| 0 <= k < i ==> wire::row(#[trigger] rows@[k]) == expected.rows[k],
        decreases chain@.len() - i,
    {
        let (version, time) = if i == 0 {
            cells_of(lineages, table)
        } else {
            cells_of(lineages, chain[i - 1].as_str())
        };
        let mut row: Vec<Option<String>> = Vec::new();
        row.push(Some(decimal_text(i as u64 + 1)));
        row.push(Some(chain[i].clone()));
        row.push(version);
        row.push(time);
        assert(wire::row(row) =~= expected.rows[i as int]);
        rows.push(row);
        i = i + 1;
    }
    let mut fields: Vec<FieldDescription> = Vec::new();
    fields.push(FieldDescription::text("step", wire::OID_INT8, 8));
    fields.push(FieldDescription::text("origin", wire::OID_TEXT, wire::VARIES));
    fields.push(FieldDescription::text("origin_version", wire::OID_INT8, 8));
    fields.push(FieldDescription::text("cloned_at", wire::OID_INT8, 8));
    let mut tag = "SELECT ".to_string();
    tag.append(decimal_text(chain.len() as u64).as_str());
    let r = QueryResult { fields, rows, tag };
    assert(r@.fields =~= expected.fields);
    assert(r@.rows =~= expected.rows);
    r
}

fn answer_dependents(table: &str, dependents: &Vec<String>, lineages: &TextMap<Lineage>) -> (r: QueryResult)
    ensures
        r@ == dependents_answer(table@, text::views(dependents@), lineages@),
{
    let ghost names = text::views(dependents@);
    let ghost expected = dependents_answer(table@, names, lineages@);
    let mut rows: Vec<Vec<Option<String>>> = Vec::new();
    let mut i: usize = 0;
    while i < dependents.len()
        invariant
            i <= dependents@.len(),
            names == text::views(dependents@),
            expected == dependents_answer(table@, names, lineages@),
            rows@.len() == i,
            forall|k: int| 0 <= k < i ==> wire::row(#[trigger] rows@[k]) == expected.rows[k],
        decreases dependents@.len() - i,
    {
        let direct = match lineages.get(dependents[i].as_str()) {
            Some(lineage) => same(lineage.origin.as_str(), table),
            None => false,
        };
        let mut row: Vec<Option<String>> = Vec::new();
        row.push(Some(dependents[i].clone()));
        if direct {
            row.push(Some("direct".to_string()));
        } else {
            row.push(Some("indirect".to_string()));
        }
        row.push(cells_of(lineages, dependents[i].as_str()).0);
        assert(wire::row(row) =~= expected.rows[i as int]);
        rows.push(row);
        i = i + 1;
    }
    let mut fields: Vec<FieldDescription> = Vec::new();
    fields.push(FieldDescription::text("dependent", wire::OID_TEXT, wire::VARIES));
    fields.push(FieldDescription::text("relation", wire::OID_TEXT, wire::VARIES));
    fields.push(FieldDescription::text("reads_version", wire::OID_INT8, 8));
    let mut tag = "SELECT ".to_string();
    tag.append(decimal_text(dependents.len() as u64).as_str());
    let r = QueryResult { fields, rows, tag };
    assert(r@.fields =~= expected.fields);
    assert(r@.rows =~= expected.rows);
    r
}

/// What is answered to a question about a clone.
///
/// `asked` is the name as the caller wrote it, `found` what it stands for, `readable` whether the
/// caller may read that table, and `family` the tables the question is about: for its lineage its
/// ancestors, for its dependents those, or where the lineage leads back to itself.
pub open spec fn clone_reply(
    question: Result<Question, Seq<char>>,
    asked: Seq<char>,
    found: Qualified,
    readable: bool,
    family: Result<Seq<Seq<char>>, Seq<char>>,
    lineages: Map<Seq<char>, Lineage>,
) -> Result<wire::Answer, wire::Refusal> {
    match question {
        Err(why) => Err(wire::refused(wire::SYNTAX_ERROR@, why)),
        Ok(question) => match found {
            Qualified::Absent => Err(snapshots::no_such_table(asked)),
            Qualified::Ambiguous(candidates) => Err(ambiguous_name(asked, text::views(candidates@))),
            Qualified::One(table) => if !readable {
                Err(snapshots::no_such_table(asked))
            } else {
                match family {
                    Err(at) => Err(cyclic(table@, at)),
                    Ok(names) => match question {
                        Question::Lineage => Ok(lineage_answer(table@, names, lineages)),
                        Question::Dependents => Ok(dependents_answer(table@, names, lineages)),
                    },
                }
            },
        },
    }
}

/// Texts behind a reference to a vector.
pub open spec fn family_view(family: Result<&Vec<String>, &str>) -> Result<Seq<Seq<char>>, Seq<char>> {
    match family {
        Ok(names) => Ok(text::views(names@)),
        Err(at) => Err(at@),
    }
}

/// What is answered to a question about a clone.
pub fn answer(
    question: Result<Question, &str>,
    asked: &str,
    found: &Qualified,
    readable: bool,
    family: Result<&Vec<String>, &str>,
    lineages: &TextMap<Lineage>,
) -> (r: Result<QueryResult, QueryFailure>)
    ensures
        wire::reply(r) == clone_reply(
            match question {
                Ok(question) => Ok(question),
                Err(why) => Err(why@),
            },
            asked@,
            *found,
            readable,
            family_view(family),
            lineages@,
        ),
{
    let question = match question {
        Ok(question) => question,
        Err(why) => {
            return Err(refusal(wire::SYNTAX_ERROR, why));
        },
    };
    let table = match found {
        Qualified::One(table) => table,
        Qualified::Absent => {
            return Err(absent_table(asked));
        },
        Qualified::Ambiguous(candidates) => {
            let mut message = "`".to_string();
            message.append(asked);
            message.append("` names more than one table: ");
            message.append(join(candidates, ", ").as_str());
            return Err(
                refusal_about(
                    "42P09",
                    message.as_str(),
                    "Qualify it with its schema. Both candidates are in this refusal's `subjects`.",
                    text::copy_list(candidates),
                ),
            );
        },
    };
    if !readable {
        return Err(absent_table(asked));
    }
    match family {
        Err(at) => Err(cycle_refusal(table.as_str(), at)),
        Ok(names) => match question {
            Question::Lineage => Ok(answer_lineage(table.as_str(), names, lineages)),
            Question::Dependents => Ok(answer_dependents(table.as_str(), names, lineages)),
        },
    }
}

/// A table that may not be read is answered exactly as one that is not there.
pub proof fn hidden_tables_look_absent(
    question: Question,
    asked: Seq<char>,
    hidden: String,
    family: Result<Seq<Seq<char>>, Seq<char>>,
    lineages: Map<Seq<char>, Lineage>,
)
    ensures
        clone_reply(Ok(question), asked, Qualified::One(hidden), false, family, lineages) == clone_reply(
            Ok(question),
            asked,
            Qualified::Absent,
            false,
            family,
            lineages,
        ),
{
}

/// The lineage of a table is answered step by step, nearest first: what it was cloned from, at which version
/// and when, each told by the table one step nearer.
pub proof fn lineages_are_told_nearest_first(
    table: Seq<char>,
    chain: Seq<Seq<char>>,
    lineages: Map<Seq<char>, Lineage>,
    i: int,
)
    requires
        0 <= i < chain.len(),
    ensures
        ({
            let answer = lineage_answer(table, chain, lineages);
            let row = answer.rows[i];
            let nearer = if i == 0 {
                table
            } else {
                chain[i - 1]
            };
            &&& answer.rows.len() == chain.len()
            &&& snapshots::under(answer.fields, row, "step"@, Some(numerals::decimal((i + 1) as nat)))
            &&& snapshots::under(answer.fields, row, "origin"@, Some(chain[i]))
            &&& lineages.contains_key(nearer) ==> snapshots::under(
                answer.fields,
                row,
                "origin_version"@,
                Some(numerals::decimal(lineages[nearer].version as nat)),
            ) && snapshots::under(
                answer.fields,
                row,
                "cloned_at"@,
                Some(numerals::signed_decimal(lineages[nearer].cloned_at as int)),
            )
            &&& !lineages.contains_key(nearer) ==> snapshots::under(answer.fields, row, "origin_version"@, None)
                && snapshots::under(answer.fields, row, "cloned_at"@, None)
        }),
{
    let fields = lineage_answer(table, chain, lineages).fields;
    assert(fields[0].0 == "step"@ && fields[1].0 == "origin"@ && fields[2].0 == "origin_version"@ && fields[3].0
        == "cloned_at"@);
}

/// What depends on a table is answered name by name: directly exactly where the table is what it was cloned
/// from, with the version it reads.
pub proof fn dependents_are_told_by_relation(
    table: Seq<char>,
    dependents: Seq<Seq<char>>,
    lineages: Map<Seq<char>, Lineage>,
    i: int,
)
    requires
        0 <= i < dependents.len(),
    ensures
        ({
            let answer = dependents_answer(table, dependents, lineages);
            let row = answer.rows[i];
            let known = lineages.contains_key(dependents[i]);
            let direct = known && lineages[dependents[i]].origin@ == table;
            &&& answer.rows.len() == dependents.len()
            &&& snapshots::under(answer.fields, row, "dependent"@, Some(dependents[i]))
            &&& direct ==> snapshots::under(answer.fields, row, "relation"@, Some("direct"@))
            &&& !direct ==> snapshots::under(answer.fields, row, "relation"@, Some("indirect"@))
            &&& known ==> snapshots::under(
                answer.fields,
                row,
                "reads_version"@,
                Some(numerals::decimal(lineages[dependents[i]].version as nat)),
            )
            &&& !known ==> snapshots::under(answer.fields, row, "reads_version"@, None)
        }),
{
    let fields = dependents_answer(table, dependents, lineages).fields;
    assert(fields[0].0 == "dependent"@ && fields[1].0 == "relation"@ && fields[2].0 == "reads_version"@);
}

/// A question about a table is answered exactly where it can be read, names one table that the caller may
/// read, and that table's lineage runs in no circle.
pub proof fn questions_are_answered_to_readers(
    question: Result<Question, Seq<char>>,
    asked: Seq<char>,
    found: Qualified,
    readable: bool,
    family: Result<Seq<Seq<char>>, Seq<char>>,
    lineages: Map<Seq<char>, Lineage>,
)
    ensures
        clone_reply(question, asked, found, readable, family, lineages) is Ok <==> question is Ok && found is One
            && readable && family is Ok,
        question == Ok::<Question, Seq<char>>(Question::Lineage) && found is One && readable ==> (family matches Ok(chain)
            ==> (clone_reply(question, asked, found, readable, family, lineages) matches Ok(a) && a.rows.len()
            == chain.len() && a.fields.len() == 4)),
        question == Ok::<Question, Seq<char>>(Question::Dependents) && found is One && readable ==> (
        family matches Ok(names) ==> (clone_reply(question, asked, found, readable, family, lineages) matches Ok(a)
            && a.rows.len() == names.len() && a.fields.len() == 3)),
{
}

/// A name that means several tables is refused with every one of them.
pub proof fn ambiguous_names_name_their_candidates(asked: Seq<char>, candidates: Seq<Seq<char>>)
    ensures
        ambiguous_name(asked, candidates).sqlstate == "42P09"@,
        ambiguous_name(asked, candidates).subjects == candidates,
        ambiguous_name(asked, candidates).detail is Some,
{
}

/// What is told of a family says how many rows it has.
pub proof fn told_families_are_counted(table: Seq<char>, names: Seq<Seq<char>>, lineages: Map<Seq<char>, Lineage>)
    ensures
        lineage_answer(table, names, lineages).tag == "SELECT "@ + numerals::decimal(
            lineage_answer(table, names, lineages).rows.len(),
        ),
        dependents_answer(table, names, lineages).tag == "SELECT "@ + numerals::decimal(
            dependents_answer(table, names, lineages).rows.len(),
        ),
{
}

} // verus!
