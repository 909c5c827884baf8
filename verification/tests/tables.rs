use sankhya::adopt::{authority_for, full_name_of, new_tables};
use sankhya::clones::{answer, Lineage, Qualified, Question};
use sankhya::cloning::{
    clone_origin, create_clone_table, drop_clone, dropped, lineages, origin_facts, qualify, readable, refuse_statement,
    write_clone, CloneFacts, Dropping, Origin, Recorded, StillNeeded,
};
use sankhya::execute::{ColumnType, TableName};
use sankhya::textmap::TextMap;
use sankhya::warehouse::{
    candidates, describe, discover, open, place_beside, qualified_name, refresh, resolve, servable, visible_schemas,
    Found, LogAction, Misplaced, Place, Resolved, TableColumn,
};

fn names(list: &[&str]) -> Vec<String> {
    list.iter().map(|name| (*name).to_string()).collect()
}

fn place(parts: &[&str]) -> Place {
    Place { absolute: true, parts: names(parts) }
}

fn table(schema: &str, name: &str) -> TableName {
    TableName { schema: schema.to_string(), table: name.to_string() }
}

#[test]
fn a_name_two_schemas_claim_is_both_of_them() {
    let warehouse = place(&["w"]);
    let schemas = visible_schemas(&names(&["us", "_cubes", "eu"]));
    assert_eq!(schemas, names(&["eu", "us"]));
    let places = candidates(&warehouse, "orders", &schemas);
    assert_eq!(places, vec![place(&["w", "eu", "orders"]), place(&["w", "us", "orders"])]);
    assert_eq!(resolve(&warehouse, &places, &vec![true, true]), Resolved::Ambiguous(names(&["eu.orders", "us.orders"])));
    assert_eq!(resolve(&warehouse, &places, &vec![false, true]), Resolved::One(place(&["w", "us", "orders"])));
    assert_eq!(resolve(&warehouse, &places, &vec![false, false]), Resolved::Absent);
    assert_eq!(candidates(&warehouse, "a.b", &schemas), vec![place(&["w", "a", "b"])]);
    assert_eq!(qualified_name(&warehouse, &place(&["w", "eu", "orders"])).as_deref(), Some("eu.orders"));
    assert_eq!(qualified_name(&warehouse, &place(&["w", "orders"])).as_deref(), Some("orders"));
}

#[test]
fn no_table_is_left_out_in_silence() {
    let found = |schema: &str, name: &str, has_log, opened| Found {
        schema: schema.to_string(),
        name: name.to_string(),
        has_log,
        opened,
    };
    let (tables, refused) = discover(&vec![
        found("s", "a", true, Ok(())),
        found("s", "b", true, Err("torn".to_string())),
    ]);
    assert_eq!(tables, vec![table("s", "a")]);
    assert_eq!((refused[0].table.table.as_str(), refused[0].why.as_str()), ("b", "torn"));
    let (served, unserved) = servable(&vec![
        ("/w/s/a".to_string(), None),
        ("/w/s/b".to_string(), Some("torn".to_string())),
    ]);
    assert_eq!(served, vec![0]);
    assert_eq!(unserved, vec![("/w/s/b".to_string(), "torn".to_string())]);
}

#[test]
fn the_last_schema_a_log_states_is_the_schema() {
    let actions = vec![
        LogAction::Metadata("old".to_string()),
        LogAction::Other,
        LogAction::Metadata("new".to_string()),
        LogAction::Other,
    ];
    assert_eq!(open(&actions).map(String::as_str), Ok("new"));
    assert_eq!(open(&vec![LogAction::Other]), Err("the log contains no metadata action".to_string()));
    assert_eq!(refresh(Some(4), 3), Some(4));
    assert_eq!(refresh(Some(3), 3), None);
    assert_eq!(refresh(None, 3), None);
}

#[test]
fn a_clone_stays_beside_its_origin() {
    let warehouse = place(&["w"]);
    let origin = place(&["w", "sales", "orders"]);
    assert_eq!(place_beside(&warehouse, "copy", &origin), Ok(place(&["w", "sales", "copy"])));
    assert_eq!(place_beside(&warehouse, "sales.copy", &origin), Ok(place(&["w", "sales", "copy"])));
    let elsewhere = place_beside(&warehouse, "hr.copy", &origin).expect_err("refused");
    assert_eq!(elsewhere, Misplaced::OtherSchema { asked: "hr".to_string(), origin: "sales".to_string() });
    assert!(elsewhere.to_string().starts_with("a clone stays in its origin's schema, and `sales` is not `hr`."));
    assert_eq!(place_beside(&warehouse, "copy", &place(&[])), Err(Misplaced::NoSchema));
    assert_eq!(place_beside(&warehouse, ".x", &place(&["w", "orders"])), Ok(place(&["w", "x"])));
    for outside in ["a/b", "/x", "", ".", ".."] {
        assert!(
            matches!(place_beside(&warehouse, outside, &origin), Err(Misplaced::OtherSchema { .. })),
            "{outside}"
        );
    }
}

#[test]
fn columns_are_described_by_what_a_client_calls_them() {
    let columns = describe(&vec![TableColumn { name: "id".to_string(), kind: ColumnType::Int64, nullable: false }]);
    assert_eq!((columns[0].name.as_str(), columns[0].type_oid, columns[0].nullable), ("id", 20, false));
}

#[test]
fn a_clone_is_read_by_the_right_to_its_root() {
    assert_eq!(full_name_of(&table("s", "t")), "s.t");
    assert_eq!(new_tables(&vec![table("s", "a"), table("s", "b")], &vec![table("s", "a")]), vec![1]);
    assert_eq!(authority_for(Some(&names(&["s.mid", "s.root"]))), Some(table("s", "root")));
    assert_eq!(authority_for(None), None);
    assert_eq!(readable(Some(&names(&["s.mid", "s.root"])), "s.c").as_deref(), Some("s.root"));
    assert_eq!(readable(Some(&Vec::new()), "s.t").as_deref(), Some("s.t"));
    assert_eq!(readable(Some(&names(&[""])), "s.c"), None);
    assert_eq!(readable(None, "s.t"), None);
}

#[test]
fn a_lineage_that_cannot_be_read_is_kept_as_one_of_nothing() {
    let kept = lineages(&vec![
        (Some("s.a".to_string()), Recorded::NoClone),
        (Some("s.b".to_string()), Recorded::Clone { origin: "s.a".to_string(), version: 3, cloned_at: 9 }),
        (Some("s.c".to_string()), Recorded::Unreadable),
        (None, Recorded::Unreadable),
    ]);
    assert_eq!(kept.entries().len(), 2);
    assert_eq!(kept.get("s.b"), Some(&Lineage { origin: "s.a".to_string(), version: 3, cloned_at: 9 }));
    assert_eq!(kept.get("s.c"), Some(&Lineage { origin: String::new(), version: 0, cloned_at: 0 }));
}

#[test]
fn a_question_about_a_hidden_table_is_answered_as_for_none() {
    let mut held: TextMap<Lineage> = TextMap::new();
    held.insert("s.b".to_string(), Lineage { origin: "s.a".to_string(), version: 3, cloned_at: 9 });
    let family = names(&["s.a"]);
    let found = Qualified::One("s.b".to_string());
    let told = answer(Ok(Question::Lineage), "b", &found, true, Ok(&family), &held).expect("answered");
    assert_eq!(
        told.rows,
        vec![vec![Some("1".to_string()), Some("s.a".to_string()), Some("3".to_string()), Some("9".to_string())]]
    );
    let hidden = answer(Ok(Question::Lineage), "b", &found, false, Ok(&family), &held);
    let absent = answer(Ok(Question::Lineage), "b", &Qualified::Absent, false, Ok(&family), &held);
    assert_eq!(hidden, absent);
    let readers = names(&["s.b", "s.c"]);
    let told = answer(Ok(Question::Dependents), "a", &Qualified::One("s.a".to_string()), true, Ok(&readers), &held)
        .expect("answered");
    assert_eq!(told.rows[0], vec![Some("s.b".to_string()), Some("direct".to_string()), Some("3".to_string())]);
    assert_eq!(told.rows[1], vec![Some("s.c".to_string()), Some("indirect".to_string()), None]);
    let cycle = answer(Ok(Question::Lineage), "b", &found, true, Err("s.a"), &held).expect_err("refused");
    assert!(cycle.message.contains("forms a cycle at `s.a`"));
    let both = answer(Ok(Question::Lineage), "b", &Qualified::Ambiguous(names(&["x.b", "y.b"])), true, Ok(&family), &held)
        .expect_err("refused");
    assert_eq!((both.sqlstate.as_str(), both.subjects), ("42P09", names(&["x.b", "y.b"])));
    assert_eq!(answer(Err("bad"), "b", &found, true, Ok(&family), &held).expect_err("refused").sqlstate, "42601");
}

#[test]
fn only_a_clone_nobody_reads_is_dropped() {
    let found = || Qualified::One("s.c".to_string());
    let root = || Some(place(&["w", "s", "c"]));
    assert!(matches!(drop_clone("c", &found(), root(), false, false, true, None), Dropping::NotOurs));
    assert!(matches!(drop_clone("c", &Qualified::Absent, None, true, false, true, None), Dropping::Answered(Ok(_))));
    assert!(matches!(drop_clone("c", &Qualified::Absent, None, false, false, true, None), Dropping::NotOurs));
    match drop_clone("c", &found(), root(), false, true, false, None) {
        Dropping::Answered(Err(failure)) => assert_eq!(failure.message, "there is no table `s.c` to drop"),
        _ => panic!("not refused"),
    }
    let needed = StillNeeded { why: "still read".to_string(), by: names(&["s.d"]) };
    match drop_clone("c", &found(), root(), false, true, true, Some(needed)) {
        Dropping::Answered(Err(failure)) => {
            assert_eq!(failure.subjects, names(&["s.d"]));
            assert!(failure.detail.expect("advice").starts_with("Drop what still reads it first"));
        }
        _ => panic!("not refused"),
    }
    assert!(matches!(drop_clone("c", &found(), None, false, true, true, None), Dropping::Answered(Err(_))));
    match drop_clone("c", &found(), root(), false, true, true, None) {
        Dropping::Remove(name, at) => assert_eq!((name.as_str(), at), ("s.c", place(&["w", "s", "c"]))),
        _ => panic!("not removed"),
    }
    assert_eq!(dropped(Ok(())).expect("done").tag, "DROP TABLE");
    assert_eq!(dropped(Err("x".to_string())).expect_err("failed").message, "the clone could not be removed: x");
}

fn facts() -> CloneFacts {
    CloneFacts {
        exists: false,
        live: Ok(Some(8)),
        first_commit: Some(2),
        files_there: true,
        refused: None,
        schema: Some("{}".to_string()),
    }
}

fn order(facts: CloneFacts, wanted: Option<u64>) -> Result<(Place, String, u64), String> {
    create_clone_table(
        &place(&["w"]),
        "orders",
        "copy",
        wanted,
        Qualified::One("s.orders".to_string()),
        Some(place(&["w", "s", "orders"])),
        true,
        facts,
    )
    .map(|order| (order.place, order.origin, order.version))
    .map_err(|failure| failure.message)
}

#[test]
fn a_clone_is_made_and_never_put_in_the_place_of_something() {
    assert_eq!(order(facts(), None), Ok((place(&["w", "s", "copy"]), "s.orders".to_string(), 8)));
    assert_eq!(order(facts(), Some(5)).map(|order| order.2), Ok(5));
    let mut there = facts();
    there.exists = true;
    assert!(order(there, None).expect_err("refused").starts_with("the table `copy` already exists."));
    let mut unread = facts();
    unread.live = Err("torn".to_string());
    assert_eq!(order(unread, None), Err("the table to clone could not be read: torn".to_string()));
    let mut refused = facts();
    refused.refused = Some("too old".to_string());
    assert_eq!(order(refused, None), Err("too old".to_string()));
    let mut bare = facts();
    bare.schema = None;
    assert_eq!(order(bare, None), Err("the table to clone declares no schema".to_string()));
    assert_eq!(write_clone(Ok(())).expect("done").tag, "CREATE TABLE");
    assert!(write_clone(Err("x".to_string())).expect_err("failed").message.ends_with("committed: x"));
    assert_eq!(refuse_statement("bad").sqlstate, "42601");
}

#[test]
fn a_table_that_may_not_be_read_is_not_there_to_clone() {
    let root = || Some(place(&["w", "s", "orders"]));
    let hidden = clone_origin("orders", Qualified::One("s.orders".to_string()), root(), false).expect_err("refused");
    let absent = clone_origin("orders", Qualified::Absent, None, false).expect_err("refused");
    assert_eq!(hidden, absent);
    let both = clone_origin("orders", Qualified::Ambiguous(names(&["a.orders", "b.orders"])), None, true)
        .expect_err("refused");
    assert_eq!(both.message, "`orders` names more than one table: a.orders, b.orders");
    let (found, at) = qualify(&place(&["w"]), Resolved::One(place(&["w", "s", "orders"])));
    assert_eq!((found, at), (Qualified::One("s.orders".to_string()), root()));
    assert_eq!(qualify(&place(&["w"]), Resolved::Absent), (Qualified::Absent, None));
}

#[test]
fn a_version_without_its_files_is_not_retained() {
    let origin = |wanted, files_there| origin_facts(Ok(Some(8)), Some(2), wanted, files_there);
    assert_eq!(origin(Some(5), true), Ok(Origin { latest_version: 8, earliest_retained_version: 2 }));
    assert_eq!(origin(Some(5), false), Ok(Origin { latest_version: 8, earliest_retained_version: 6 }));
    assert_eq!(origin(Some(9), false), Ok(Origin { latest_version: 8, earliest_retained_version: 2 }));
    assert_eq!(origin(None, false), Ok(Origin { latest_version: 8, earliest_retained_version: 2 }));
    assert_eq!(origin_facts(Ok(None), None, None, false), Ok(Origin { latest_version: 0, earliest_retained_version: 0 }));
}

#[test]
fn a_path_is_followed_piece_by_piece() {
    let warehouse = place(&["w"]);
    assert_eq!(warehouse.inside("s"), place(&["w", "s"]));
    assert_eq!(warehouse.inside(""), warehouse);
    assert_eq!(warehouse.inside("."), warehouse);
    assert_eq!(warehouse.inside("a//b/./c"), place(&["w", "a", "b", "c"]));
    assert_eq!(warehouse.inside(".."), place(&["w", ".."]));
    assert_eq!(warehouse.inside("/x/y"), place(&["x", "y"]));
    let here = Place { absolute: false, parts: Vec::new() };
    assert_eq!(here.inside("./w"), Place { absolute: false, parts: names(&[".", "w"]) });
    assert_eq!(candidates(&warehouse, ".x", &Vec::new()), vec![place(&["w", "x"])]);
}
