use sankhya::execute::{
    classify, deadline_failure, describe, hex, pg_type, plan_failure, refuse_if_not_a_read, refuse_if_silently_ignored,
    refuse_ignored_construct, refuse_too_many, render_double_array, render_row, render_value, run,
    session_and_contested, specific_sqlstate, state_named, statement_deadline, timestamp_text, without_literals,
    CatalogueEntry, ColumnType, EngineError, EngineErrorKind, FailureClass, PlanKind, Resolution, TableName, Value,
};

fn table(schema: &str, name: &str) -> TableName {
    TableName { schema: schema.to_string(), table: name.to_string() }
}

#[test]
fn a_contested_name_registers_nowhere() {
    let tables = vec![table("eu", "orders"), table("us", "orders"), table("eu", "people"), table("public", "home")];
    let plan = session_and_contested(&tables, &vec![true, true, true, true], "public");
    let bare: Vec<bool> = plan.placements.iter().map(|placement| placement.bare).collect();
    assert_eq!(bare, vec![false, false, true, true]);
    let qualified: Vec<bool> = plan.placements.iter().map(|placement| placement.qualified).collect();
    assert_eq!(qualified, vec![true, true, true, false]);
    assert_eq!(
        plan.contested.get("orders"),
        Some(&vec!["eu.orders".to_string(), "us.orders".to_string()])
    );
    let hidden = session_and_contested(&tables, &vec![false, false, false, false], "public");
    assert_eq!(hidden.registered, 0);
}

#[test]
fn only_reads_are_served() {
    assert_eq!(refuse_if_not_a_read(PlanKind::Read, "X"), Ok(()));
    let refused = refuse_if_not_a_read(PlanKind::Copy, "NOT_SUPPORTED").expect_err("refused");
    assert_eq!(refused.sqlstate, "0A000");
    assert!(refused.message.starts_with("[NOT_SUPPORTED] COPY is not served"));
    assert!(refuse_if_not_a_read(PlanKind::Definition, "X").is_err());
    assert!(refuse_if_not_a_read(PlanKind::Modification, "X").is_err());
}

#[test]
fn literals_are_emptied_before_anything_is_looked_for() {
    assert_eq!(without_literals("a = 'it''s' and b = 'x'"), "a = '' and b = ''");
    assert_eq!(without_literals("open 'never closed"), "open ''");
    assert!(refuse_if_silently_ignored("SELECT 1", "X").is_ok());
    assert!(refuse_ignored_construct("SELECT 1", "X").is_ok());
}

#[test]
fn a_statement_has_a_deadline() {
    assert_eq!(statement_deadline(None), 1_800);
    assert_eq!(statement_deadline(Some(" 7 ")), 7);
    assert_eq!(statement_deadline(Some("0")), u64::from(u32::MAX));
    assert_eq!(statement_deadline(Some("x")), 1_800);
    assert_eq!(deadline_failure(9).sqlstate, "57014");
    assert!(deadline_failure(9).message.contains("longer than 9 seconds"));
}

#[test]
fn a_result_is_never_cut_short() {
    assert_eq!(refuse_too_many(3, 3), Ok(()));
    let refused = refuse_too_many(4, 3).expect_err("refused");
    assert_eq!(refused.sqlstate, "53400");
    assert!(refused.message.starts_with("this result has 4 rows and the limit is 3."));
    let columns = vec![("n".to_string(), ColumnType::Int64)];
    let rows = vec![vec![Some(Value::Whole(1))], vec![None]];
    assert!(run(&columns, &rows, 1).is_err());
    let answered = run(&columns, &rows, 2).expect("answered");
    assert_eq!(answered.tag, "SELECT 2");
    assert_eq!(answered.rows, vec![vec![Some("1".to_string())], vec![None]]);
    assert_eq!(describe(&columns)[0].type_oid, 20);
    assert_eq!(pg_type(ColumnType::Float64), (701, 8));
    assert_eq!(pg_type(ColumnType::Other), (25, -1));
}

#[test]
fn values_are_written_as_clients_read_them() {
    assert_eq!(render_value(&Value::Truth(true)), "t");
    assert_eq!(render_value(&Value::Whole(i64::MIN)), "-9223372036854775808");
    assert_eq!(render_value(&Value::Natural(u64::MAX)), "18446744073709551615");
    assert_eq!(render_value(&Value::Text("x".to_string())), "x");
    assert_eq!(render_value(&Value::Bytes(vec![0, 255])), "\\x00ff");
    assert_eq!(hex(&vec![1, 171]), "01ab");
    assert_eq!(timestamp_text(0, false), "1970-01-01 00:00:00");
    assert_eq!(timestamp_text(-1, true), "1969-12-31 23:59:59.999999+00");
    assert_eq!(
        render_value(&Value::Timestamp { unit: Resolution::Millisecond, count: 1_500, zoned: false }),
        "1970-01-01 00:00:01.5"
    );
    assert_eq!(render_double_array(&vec![Some("1.5".to_string()), None]), "{1.5,NULL}");
    assert_eq!(render_row(&vec![None, Some(Value::Truth(false))]), vec![None, Some("f".to_string())]);
}

fn error(kind: EngineErrorKind) -> EngineError {
    EngineError { said: "said".to_string(), kind }
}

#[test]
fn a_wrapped_failure_is_the_failure_it_wraps() {
    let plan = || error(EngineErrorKind::Plan("TABLE 'x' NOT FOUND".to_string()));
    assert_eq!(specific_sqlstate(&plan()), Some("42P01"));
    let wrapped = error(EngineErrorKind::Wrapped(Box::new(error(EngineErrorKind::Several(vec![
        plan(),
        error(EngineErrorKind::Internal),
    ])))));
    assert_eq!(specific_sqlstate(&wrapped), Some("42P01"));
    assert_eq!(classify(&wrapped).0, FailureClass::InvalidQuery);
    assert_eq!(specific_sqlstate(&error(EngineErrorKind::Computation("Divide by zero error".to_string()))), Some("22012"));
    assert_eq!(specific_sqlstate(&error(EngineErrorKind::NotImplemented)), Some("0A000"));
    assert_eq!(specific_sqlstate(&error(EngineErrorKind::Internal)), None);
    assert_eq!(state_named("cannot cast"), Some("22P02"));
    assert_eq!(state_named("fine"), None);
    let entry = CatalogueEntry {
        code: "C1".to_string(),
        sqlstate: "XX000".to_string(),
        remediation: "do".to_string(),
    };
    let failed = plan_failure(&plan(), &entry);
    assert_eq!(failed.sqlstate, "42P01");
    assert_eq!(failed.detail.as_deref(), Some("do"));
    assert_eq!(plan_failure(&error(EngineErrorKind::Internal), &entry).sqlstate, "XX000");
}

#[test]
fn a_message_beyond_the_latin_alphabet_is_lowered_too() {
    let loud = error(EngineErrorKind::Plan("ÉTAT: TABLE NOT FOUND".to_string()));
    assert_eq!(specific_sqlstate(&loud), Some("42P01"));
}

#[test]
fn a_sample_is_refused_beside_letters_beyond_ascii() {
    assert!(refuse_if_silently_ignored("select \u{e9} from t tablesample system (10)", "SNK-C0006").is_err());
    assert!(refuse_if_silently_ignored("select \u{e9} from t", "SNK-C0006").is_ok());
}
