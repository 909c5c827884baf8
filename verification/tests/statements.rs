use sankhya::aggregations::{
    decode, declared, encode, forget_aggregation, parse, quoted, remember_aggregation, removed, run, show, stored,
    Aggregation, Running, Statement,
};
use sankhya::audit::{log_statement, record_read, resume_audit, statement_shape, Restriction};
use sankhya::execute::TableName;
use sankhya::policy::{Action, Effect, TenantId};
use sankhya::settings::Settings;
use sankhya::wire::{QueryFailure, QueryResult};
use sankhya::wiring::{
    adopting, authenticate, check_admission, claims, describe, explain_contested, list_visible_tables, now_micros,
    outcome_label, permissive_policy, principal, record, refreshed_servable, refuse_if_nothing_readable, run_statement,
    scope_for, startup_complaints, withholds_nothing, Authentication, Recognised, Route, Validated,
};

fn nothing() -> Recognised {
    Recognised { cube: false, setting: false, snapshot: false, feed: false, question: false, clone: false }
}

fn table(schema: &str, name: &str) -> TableName {
    TableName { schema: schema.to_string(), table: name.to_string() }
}

fn settings(roles: Vec<(&str, Vec<&str>)>, credentials: usize, require_password: bool) -> Settings {
    Settings {
        listen: String::new(),
        warehouse: String::new(),
        read_as_of: 0,
        tenant: TenantId { id: 1 },
        credentials: (0..credentials).map(|i| (format!("u{i}"), "v".to_string())).collect(),
        roles: roles
            .into_iter()
            .map(|(user, held)| (user.to_string(), held.into_iter().map(str::to_string).collect()))
            .collect(),
        maintenance: None,
        flight_listen: None,
        cuboid_budget_rows: 0,
        metrics_listen: None,
        require_password,
        user_functions: false,
        transport_security: None,
    }
}

fn failure(sqlstate: &str, message: &str) -> QueryFailure {
    QueryFailure {
        sqlstate: sqlstate.to_string(),
        message: message.to_string(),
        detail: None,
        subjects: Vec::new(),
    }
}

#[test]
fn a_list_of_users_is_the_list() {
    let open = settings(vec![], 0, false);
    assert_eq!(principal(&open, "anyone"), (vec!["reader".to_string()], Authentication::Internal));
    let listed = settings(vec![("ann", vec!["auditor"])], 0, true);
    assert_eq!(principal(&listed, "ann"), (vec!["auditor".to_string()], Authentication::Password));
    assert_eq!(principal(&listed, "bob").0, Vec::<String>::new());
}

#[test]
fn a_login_is_refused_alike_for_a_stranger_and_a_wrong_password() {
    let held = settings(vec![], 1, true);
    let named = |user: &str| vec![("user".to_string(), user.to_string())];
    let password = b"secret".to_vec();
    let wrong = authenticate(&held, &named("u0"), Some(&password), false, "28P01").expect_err("refused");
    let unknown = authenticate(&held, &named("zed"), Some(&password), false, "28P01").expect_err("refused");
    assert_eq!(wrong, unknown);
    assert_eq!(wrong.sqlstate, "28P01");
    assert!(authenticate(&held, &named("u0"), Some(&password), true, "28P01").is_ok());
    let nobody = authenticate(&held, &Vec::new(), Some(&password), true, "28P01").expect_err("refused");
    assert!(nobody.message.contains("cannot be audited"));
    let silent = authenticate(&held, &named("u0"), Some(&Vec::new()), true, "28P01").expect_err("refused");
    assert_eq!(silent.message, "a password is required");
    assert!(authenticate(&settings(vec![], 0, true), &named("x"), Some(&password), false, "28P01").is_ok());
}

#[test]
fn an_insecure_server_looks_wrong_in_its_log() {
    let line = |held: &Settings| describe(held, "t1", 2, 3);
    assert_eq!(
        line(&settings(vec![], 4, true)),
        "tenant t1, password verified for 4 user(s), 2 policy rule(s), 3 table(s) known"
    );
    assert!(line(&settings(vec![], 0, true)).contains("PASSWORD UNVERIFIED"));
    assert!(line(&settings(vec![], 0, false)).contains("NO AUTHENTICATION"));
}

#[test]
fn a_version_is_never_taken_for_a_setting_that_changes_nothing() {
    let mut seen = nothing();
    assert!(matches!(run_statement("SET VERSION OF t = 3", &seen), Route::Session(Ok(_))));
    seen.snapshot = true;
    assert_eq!(run_statement("SET VERSION OF t = 3", &seen), Route::Snapshot);
    seen.setting = true;
    assert_eq!(run_statement("SET SNAPSHOT = x", &seen), Route::Setting);
    seen.cube = true;
    assert_eq!(run_statement("CREATE CUBE c", &seen), Route::Cube);
}

#[test]
fn each_statement_goes_to_what_answers_it() {
    let mut seen = nothing();
    assert_eq!(run_statement("SELECT 1", &seen), Route::Engine);
    assert_eq!(run_statement("show aggregations;", &seen), Route::Aggregation(Statement::Show));
    seen.clone = true;
    assert_eq!(run_statement("DROP TABLE t", &seen), Route::Clone);
    seen.question = true;
    assert_eq!(run_statement("SHOW LINEAGE OF t", &seen), Route::Question);
    seen.feed = true;
    assert_eq!(run_statement("SHOW FEEDS", &seen), Route::Feed);
}

#[test]
fn whatever_is_answered_is_claimed() {
    assert!(!claims("SELECT 1", &nothing()));
    assert!(claims("  set snapshot = 'x'", &nothing()));
    assert!(claims("BEGIN", &nothing()));
    assert!(claims("SHOW AGGREGATIONS", &nothing()));
    let mut seen = nothing();
    seen.feed = true;
    assert!(claims("SHOW FEEDS", &seen));
}

#[test]
fn a_quota_is_told_from_a_permission() {
    let held = check_admission(Some("too many"), true, "28000").expect_err("refused");
    assert_eq!((held.sqlstate.as_str(), held.message.as_str()), ("53400", "too many"));
    assert_eq!(check_admission(None, false, "28000").expect_err("refused").sqlstate, "28000");
    assert_eq!(check_admission(None, true, "28000"), Ok(()));
    assert!(refuse_if_nothing_readable(0, 2, "42501").is_err());
    assert!(refuse_if_nothing_readable(0, 0, "42501").is_ok());
    assert!(refuse_if_nothing_readable(1, 2, "42501").is_ok());
}

#[test]
fn a_refusal_is_not_counted_as_an_error() {
    let label = |state: &str| outcome_label(&Err(failure(state, "")));
    assert_eq!(label("53400"), "refused");
    assert_eq!(label("28P01"), "refused");
    assert_eq!(label("42501"), "refused");
    assert_eq!(label("57014"), "cancelled");
    assert_eq!(label("42601"), "error");
    let answered = QueryResult { fields: Vec::new(), rows: Vec::new(), tag: "SELECT 0".to_string() };
    assert_eq!(outcome_label(&Ok(answered)), "ok");
}

#[test]
fn a_contested_name_is_explained_and_its_state_kept() {
    let contested = vec![("orders".to_string(), vec!["eu.orders".to_string(), "us.orders".to_string()])];
    let told = explain_contested(failure("42P01", "table 'datafusion.public.orders' not found"), &contested);
    assert_eq!(told.sqlstate, "42P01");
    assert_eq!(told.subjects, vec!["eu.orders".to_string(), "us.orders".to_string()]);
    assert!(told.detail.expect("a detail").contains("eu.orders, us.orders. It is registered under neither"));
    let other = explain_contested(failure("42P01", "table 'reorders' not found"), &contested);
    assert_eq!(other.detail, None);
}

#[test]
fn a_bare_name_two_schemas_claim_authorises_nothing() {
    let tables = vec![table("eu", "orders"), table("us", "orders"), table("eu", "people")];
    assert_eq!(scope_for(&tables, "orders"), None);
    assert_eq!(scope_for(&tables, "us.orders"), Some(table("us", "orders")));
    assert_eq!(scope_for(&tables, "people"), Some(table("eu", "people")));
    assert_eq!(scope_for(&tables, "gone"), Some(table("", "gone")));
    assert_eq!(scope_for(&tables, "a.b.c"), Some(table("a", "b.c")));
    assert_eq!(withholds_nothing(&tables, "orders"), table("eu", "orders"));
    assert_eq!(withholds_nothing(&tables, "gone"), table("", "gone"));
}

#[test]
fn only_what_a_policy_shows_is_listed() {
    let known = vec![table("a", "x"), table("b", "x"), table("b", "y")];
    assert_eq!(list_visible_tables(&known, &vec![table("b", "y"), table("a", "x")]), vec![0, 2]);
    let open = permissive_policy(TenantId { id: 7 }, &known);
    assert_eq!(open.len(), 3);
    assert_eq!(open.rules[1].table, table("b", "x"));
    assert_eq!((open.rules[1].action, open.rules[1].effect), (Action::Read, Effect::Grant));
    assert_eq!(open.rules[1].role, "reader");
}

#[test]
fn what_could_not_be_served_is_said() {
    let pair = |a: &str, b: &str| (a.to_string(), b.to_string());
    assert_eq!(
        startup_complaints(&vec![pair("/w/a", "no log")], &vec![pair("/w/b", "torn")], vec!["the cube `c`: x".to_string()]),
        vec!["/w/a: no log".to_string(), "/w/b: torn".to_string(), "the cube `c`: x".to_string()]
    );
    let definitions = vec![
        Validated { name: "ok".to_string(), rejections: Vec::new() },
        Validated { name: "bad".to_string(), rejections: vec!["one".to_string(), "two".to_string()] },
    ];
    let (adopted, complaints) = adopting("cube", Some("torn".to_string()), &definitions);
    assert_eq!(adopted, vec![0]);
    assert_eq!(complaints, vec!["torn".to_string(), "the cube `bad`: one; two".to_string()]);
}

#[test]
fn the_clock_and_the_list_move_only_when_something_happens() {
    assert_eq!(record(4), 5);
    assert!(!refreshed_servable(0, 0));
    assert!(refreshed_servable(0, 1));
    assert!(refreshed_servable(2, 0));
    assert_eq!(now_micros(Some(u128::MAX)), i64::MAX);
    assert_eq!(now_micros(None), 0);
    assert_eq!(now_micros(Some(9)), 9);
}

#[test]
fn a_shape_holds_nothing_a_caller_chose() {
    assert_eq!(statement_shape("SELECT 'a-secret'"), "select");
    assert_eq!(statement_shape("select nosuchcolumn from t"), "select");
    assert_eq!(statement_shape("  CREATE   Table x"), "create table");
    assert_eq!(statement_shape("show feeds;"), "show");
    assert_eq!(statement_shape("/*x*/SELECT 1"), "xselect");
    assert_eq!(statement_shape("   "), "");
}

#[test]
fn every_table_reached_leaves_an_entry_of_its_own() {
    let restrictions = vec![
        Restriction { table: table("hr", "people"), row_filter: Some("id = 1".to_string()), column_masks: Vec::new() },
        Restriction { table: table("hr", "pay"), row_filter: None, column_masks: Vec::new() },
    ];
    let entries = record_read(&restrictions, &vec![table("", "pay"), table("x", "people")], "SELECT 1", Some(3), 9);
    assert_eq!(entries.len(), 2);
    assert_eq!((&entries[0].table, entries[0].granted_under), (&table("hr", "pay"), Some(1)));
    assert_eq!((&entries[1].table, entries[1].granted_under), (&table("x", "people"), None));
    assert_eq!((entries[0].rows, entries[0].snapshot, entries[0].statement.as_str()), (Some(3), 9, "select"));
    let refused = record_read(&restrictions, &Vec::new(), "DROP TABLE t", None, 9);
    assert_eq!(refused.len(), 1);
    assert_eq!(refused[0].table, table("", "drop table"));
    assert_eq!(refused[0].granted_under, None);
}

#[test]
fn the_audit_and_the_log_say_what_they_can() {
    assert_eq!(
        resume_audit(vec!["line 3".to_string()], Some("at 4".to_string()), Some("full".to_string())),
        vec![
            "line 3".to_string(),
            "the stored audit chain does not verify: at 4".to_string(),
            "the audit could not be written to disk: full".to_string(),
        ]
    );
    assert!(resume_audit(Vec::new(), None, None).is_empty());
    let line = log_statement("SELECT 1", &vec![table("a", "b")], None, u128::MAX, true);
    assert_eq!((line.shape.as_str(), line.scanned, line.row_count, line.millis, line.outcome), ("select", 1, 0, u64::MAX, "refused"));
    assert_eq!(log_statement("", &Vec::new(), Some(2), 5, false).outcome, "answered");
}

fn aggregation(name: &str, source: &str, composes: bool) -> Aggregation {
    Aggregation { name: name.to_string(), source: source.to_string(), composes }
}

#[test]
fn aggregation_statements_are_read() {
    assert_eq!(
        parse("create aggregation wavg language python as $$ x = '$' $$ ;"),
        Some(Statement::Create { name: "wavg".to_string(), source: " x = '$' ".to_string() })
    );
    assert_eq!(parse("DROP AGGREGATION if exists  w ;"), Some(Statement::Drop { name: "w".to_string(), if_exists: true }));
    assert_eq!(parse("drop aggregation w"), Some(Statement::Drop { name: "w".to_string(), if_exists: false }));
    assert_eq!(parse("drop aggregation a b"), None);
    assert_eq!(parse("create aggregation w language sql as $$x$$"), None);
    assert_eq!(parse("create aggregation w language python as $$x"), None);
    assert_eq!(parse("createaggregation w"), None);
    assert_eq!(parse("select 1"), None);
    assert_eq!(parse("create aggregation w language python as $$a$$b$$"), Some(Statement::Create {
        name: "w".to_string(),
        source: "a$$b".to_string(),
    }));
}

#[test]
fn a_document_reads_back_what_was_put_in_it() {
    for (name, source, composes) in [
        ("wavg", "def f(x):\n\treturn \"\\n\" + 'é'\r\n", true),
        ("\"source\":\"x\"", "\"composes\":true", false),
        ("source", "", false),
        ("\\", "\\\"", true),
        ("a\u{1}", "if x:\u{c}\n\u{0}\u{1f}", false),
    ] {
        let held = aggregation(name, source, composes);
        assert_eq!(decode(&encode(&held)), Some(held));
    }
    assert_eq!(
        encode(&aggregation("a\"b", "x\n", false)),
        "{\"format\":1,\"name\":\"a\\\"b\",\"composes\":false,\"source\":\"x\\n\"}"
    );
    assert_eq!(decode("{\"name\":\"a\"}"), None);
    assert_eq!(quoted("\u{c}"), "\"\u{c}\"");
}

#[test]
fn aggregations_stand_in_the_order_of_their_names() {
    let documents = vec![
        Some(encode(&aggregation("b", "1", true))),
        None,
        Some("torn".to_string()),
        Some(encode(&aggregation("a", "2", false))),
    ];
    let list = stored(&documents);
    assert_eq!(list, vec![aggregation("a", "2", false), aggregation("b", "1", true)]);
    let list = remember_aggregation(&list, aggregation("a", "3", true));
    assert_eq!(list, vec![aggregation("a", "3", true), aggregation("b", "1", true)]);
    assert_eq!(forget_aggregation(&list, "a"), vec![aggregation("b", "1", true)]);
    let shown = show(&list);
    assert_eq!(shown.tag, "SHOW");
    assert_eq!(shown.rows[0], vec![Some("a".to_string()), Some("yes".to_string()), Some("3".to_string())]);
}

#[test]
fn a_closed_door_runs_no_supplied_code() {
    let create = || Statement::Create { name: "w".to_string(), source: "x".to_string() };
    let list = Vec::new();
    assert!(matches!(run(create(), false, false, &list), Running::Answered(Err(_))));
    assert!(matches!(run(create(), true, true, &list), Running::Answered(Err(_))));
    assert!(matches!(run(create(), true, false, &list), Running::Declare(name, source) if name == "w" && source == "x"));
    let drop = |if_exists| Statement::Drop { name: "w".to_string(), if_exists };
    assert!(matches!(run(drop(true), false, false, &list), Running::Answered(Ok(_))));
    assert!(matches!(run(drop(false), false, false, &list), Running::Answered(Err(_))));
    assert!(matches!(run(drop(false), false, true, &list), Running::Remove(name) if name == "w"));
    assert_eq!(removed(Ok(())).expect("done").tag, "DROP AGGREGATION");
    assert_eq!(removed(Err("io".to_string())).expect_err("failed").sqlstate, "58030");
    assert_eq!(declared(None, None).expect("done").tag, "CREATE AGGREGATION");
    assert_eq!(declared(Some("x".to_string()), None).expect_err("refused").sqlstate, "22000");
    assert_eq!(declared(None, Some("x".to_string())).expect_err("failed").sqlstate, "58030");
}
