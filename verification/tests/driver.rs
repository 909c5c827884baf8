use sankhya::driver::{names_a_lock, run_session_statement};

#[test]
fn every_spelling_of_a_row_lock_is_seen() {
    for (sql, expected) in [
        ("SELECT balance FROM accounts WHERE id = 42 FOR UPDATE", "FOR UPDATE"),
        ("select * from t for share", "FOR SHARE"),
        ("SELECT * FROM t FOR NO KEY UPDATE", "FOR NO KEY UPDATE"),
        ("SELECT * FROM t FOR KEY SHARE", "FOR KEY SHARE"),
        ("SELECT * FROM t FOR UPDATE OF t NOWAIT", "FOR UPDATE"),
    ] {
        assert_eq!(names_a_lock(sql), Some(expected), "{sql}");
    }
}

#[test]
fn a_row_that_says_for_update_is_still_selectable() {
    assert_eq!(names_a_lock("SELECT * FROM notes WHERE body = 'for update'"), None);
    assert_eq!(names_a_lock("SELECT 'FOR SHARE' AS why FROM t"), None);
    assert_eq!(names_a_lock("SELECT * FROM t WHERE reason = 4"), None);
}

#[test]
fn a_lock_clause_is_refused_rather_than_answered_with_rows() {
    let refused = run_session_statement("SELECT * FROM t FOR UPDATE")
        .expect("a lock clause is a statement this layer answers")
        .expect_err("and the answer is a refusal");
    assert!(
        format!("{}", refused.message).contains("no lock manager"),
        "the refusal says why: {}",
        refused.message
    );
}

#[test]
fn a_setting_this_build_cannot_honour_is_refused() {
    for sql in [
        "SET TRANSACTION ISOLATION LEVEL SERIALIZABLE",
        "SET SESSION CHARACTERISTICS AS TRANSACTION ISOLATION LEVEL REPEATABLE READ",
        "SET ROLE analyst",
        "SET SESSION AUTHORIZATION analyst",
    ] {
        let answered = run_session_statement(sql).expect("this layer answers a SET");
        assert!(answered.is_err(), "accepted quietly: {sql}");
    }
}

#[test]
fn an_ordinary_setting_is_still_a_no_op() {
    for sql in [
        "SET application_name = 'psql'",
        "SET extra_float_digits = 3",
        "SET SESSION application_name = 'jdbc'",
        "SET client_encoding TO 'UTF8'",
    ] {
        let answered = run_session_statement(sql).expect("this layer answers a SET");
        assert!(answered.is_ok(), "refused a harmless setting: {sql}");
    }
}

#[test]
fn a_position_to_read_from_is_not_accepted_and_ignored() {
    for sql in [
        "SET READ_AS_OF = 5",
        "SET READ_AS_OF='5'",
        "SET READ_AS_OF= 5",
        "SET SESSION READ_AS_OF = 5",
        "SET LOCAL read_as_of = 5",
        "SET \"READ_AS_OF\" = 5",
        "SET \"read_as_of\"=5",
        "SET \"\"READ_AS_OF\"\" = 5",
        "SET \"READ_AS_OF= 5",
        "RESET READ_AS_OF;",
    ] {
        assert!(run_session_statement(sql).expect("a SET is answered").is_err(), "{sql}");
    }
}

#[test]
fn an_equals_sign_inside_the_quotes_is_part_of_the_name() {
    for sql in [
        "SET \"READ_AS_OF=X\" = 5",
        "SET \"READ_AS_OF=X\"=5",
        "SET \"READ_AS_OF\"X = 5",
        "SET \"READ_AS_OF=5",
        "SET X=READ_AS_OF",
    ] {
        let answered = run_session_statement(sql).expect("a SET is answered").expect("accepted");
        assert_eq!(answered.tag, "SET", "{sql}");
    }
}

#[test]
fn a_lock_before_a_semicolon_is_still_a_lock() {
    assert_eq!(names_a_lock("SELECT * FROM t FOR UPDATE;"), Some("FOR UPDATE"));
    assert_eq!(names_a_lock("SELECT * FROM t FOR SHARE ; ;\n"), Some("FOR SHARE"));
    assert_eq!(names_a_lock("SELECT 1 FOR; UPDATE t"), None);
    assert_eq!(names_a_lock("SELECT * FROM t FOR; 'x' UPDATE;"), None);
    assert!(run_session_statement("SELECT 1 FOR; UPDATE t").is_none());
}

#[test]
fn transactions_are_acknowledged_and_undoing_one_is_not() {
    let tag = |sql: &str| run_session_statement(sql).expect("answered").expect("acknowledged").tag;
    assert_eq!(tag("begin"), "BEGIN");
    assert_eq!(tag("COMMIT;"), "COMMIT");
    assert_eq!(tag("DISCARD ALL"), "DISCARD ALL");
    let refused = run_session_statement("ROLLBACK").expect("answered").expect_err("refused");
    assert_eq!(refused.sqlstate, "25P01");
    assert!(run_session_statement("SELECT 1").is_none());
}
