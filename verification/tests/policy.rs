use sankhya::policy::{read, Action, Effect, Mask, TenantId};
use sankhya::Configuration;

fn tenant() -> TenantId {
    TenantId { id: 1 }
}

fn written(pairs: &[(&str, &str)]) -> Configuration {
    let mut settings = Configuration::new();
    for (key, value) in pairs {
        settings.insert((*key).to_owned(), (*value).to_owned());
    }
    settings
}

#[test]
fn a_warehouse_with_no_policy_configured_has_none() {
    assert!(read(&written(&[]), tenant()).expect("no policy is not an error").is_none());
}

#[test]
fn a_rule_becomes_a_rule() {
    let policy = read(
        &written(&[
            ("analysts.role", "analyst"),
            ("analysts.table", "sales.orders"),
            ("analysts.action", "read"),
            ("analysts.where", "region = 'north'"),
            ("analysts.mask.email", "null"),
            ("analysts.mask.phone", "partial:4"),
        ]),
        tenant(),
    )
    .expect("a well-formed rule")
    .expect("a policy");
    assert_eq!(policy.len(), 1);
}

#[test]
fn a_rule_that_cannot_be_read_is_refused_and_says_why() {
    for (why, pairs) in [
        ("no role", vec![("r.table", "sales.orders"), ("r.action", "read")]),
        ("no table", vec![("r.role", "analyst"), ("r.action", "read")]),
        ("no action", vec![("r.role", "analyst"), ("r.table", "sales.orders")]),
        (
            "an unqualified table",
            vec![("r.role", "a"), ("r.table", "orders"), ("r.action", "read")],
        ),
        (
            "an action this server does not have",
            vec![("r.role", "a"), ("r.table", "s.o"), ("r.action", "truncate")],
        ),
        (
            "an effect this server does not have",
            vec![
                ("r.role", "a"),
                ("r.table", "s.o"),
                ("r.action", "read"),
                ("r.effect", "maybe"),
            ],
        ),
        (
            "a mask this server does not have",
            vec![
                ("r.role", "a"),
                ("r.table", "s.o"),
                ("r.action", "read"),
                ("r.mask.email", "hash"),
            ],
        ),
        (
            "a partial mask that keeps no number",
            vec![
                ("r.role", "a"),
                ("r.table", "s.o"),
                ("r.action", "read"),
                ("r.mask.email", "partial:some"),
            ],
        ),
    ] {
        let refused = read(&written(&pairs), tenant())
            .expect_err(&format!("a rule with {why} must be refused"));
        assert!(
            !refused.is_empty() && refused.contains('`'),
            "and must name what it could not read: {refused}"
        );
    }
}

#[test]
fn the_two_spellings_of_a_null_mask_agree() {
    for spelling in ["null", "NULL", ""] {
        let policy = read(
            &written(&[
                ("r.role", "a"),
                ("r.table", "s.o"),
                ("r.action", "read"),
                ("r.mask.email", spelling),
            ]),
            tenant(),
        );
        assert!(policy.is_ok(), "`{spelling}` is a null mask");
    }
}

#[test]
fn a_denial_is_spelled_out_rather_than_inferred() {
    let policy = read(
        &written(&[
            ("nobody.role", "intern"),
            ("nobody.table", "hr.payroll"),
            ("nobody.action", "read"),
            ("nobody.effect", "deny"),
        ]),
        tenant(),
    )
    .expect("a well-formed rule")
    .expect("a policy");
    assert_eq!(policy.len(), 1);
}

#[test]
fn a_rule_says_what_its_fields_say() {
    let policy = read(
        &written(&[
            ("b.role", "analyst"),
            ("b.table", "sales.orders"),
            ("b.action", "READ"),
            ("b.where", "region = 'north'"),
            ("b.mask.phone", "Partial: 4 "),
            ("b.mask.email", "constant:a:b"),
            ("a-b.role", "intern"),
            ("a-b.table", "hr.payroll.extra"),
            ("a-b.action", "delete"),
            ("a-b.effect", "Forbid"),
            ("a.role", "r"),
            ("a.table", "s.o"),
            ("a.action", "insert"),
        ]),
        tenant(),
    )
    .expect("well-formed rules")
    .expect("a policy");
    let roles: Vec<&str> = policy.rules.iter().map(|rule| rule.role.as_str()).collect();
    assert_eq!(roles, vec!["r", "intern", "analyst"]);
    let denied = &policy.rules[1];
    assert_eq!((denied.table.schema.as_str(), denied.table.table.as_str()), ("hr", "payroll.extra"));
    assert_eq!((denied.action, denied.effect), (Action::Delete, Effect::Deny));
    let masked = &policy.rules[2];
    assert_eq!(masked.predicate.as_deref(), Some("region = 'north'"));
    assert_eq!(
        masked.masks,
        vec![
            ("email".to_string(), Mask::Constant { value: "a:b".to_string() }),
            ("phone".to_string(), Mask::Partial { keep: 4 }),
        ]
    );
}

#[test]
fn a_setting_that_names_no_field_is_refused_by_its_key() {
    let refused = read(&written(&[("analysts", "x")]), tenant()).expect_err("refused");
    assert!(refused.starts_with("`policy.rules.analysts` names no field."), "{refused}");
}

#[test]
fn a_table_with_an_empty_half_is_refused() {
    let refused = read(&written(&[("r.role", "a"), ("r.table", ".o"), ("r.action", "read")]), tenant())
        .expect_err("refused");
    assert_eq!(refused, "the policy rule `r` names the table `.o`, which has an empty half");
}
