use sankhya::{
    inexact_columns, is_fully_exact, onboard_relation, ColumnDescriptor, OnboardingError,
    OnboardingWarning, RelationDescriptor, ReplicaIdentity, WriteStrategy,
};

fn column(name: &str, oid: u32, modifier: i32, is_key: bool) -> ColumnDescriptor {
    ColumnDescriptor {
        name: name.into(),
        type_oid: oid,
        type_modifier: modifier,
        is_key,
    }
}

fn relation(
    name: &str,
    identity: ReplicaIdentity,
    columns: Vec<ColumnDescriptor>,
) -> RelationDescriptor {
    RelationDescriptor {
        relation_id: 1,
        namespace: "public".into(),
        name: name.into(),
        replica_identity: identity,
        columns,
    }
}

#[test]
fn a_keyed_table_is_mergeable() {
    let r = relation(
        "orders",
        ReplicaIdentity::Default,
        vec![column("id", 20, -1, true), column("label", 25, -1, false)],
    );
    let onboarded = onboard_relation(&r).expect("onboards");
    assert_eq!(onboarded.strategy, WriteStrategy::Mergeable);
    assert_eq!(onboarded.location.relative_path(), "public/orders");
    assert!(onboarded.warnings.is_empty());
}

#[test]
fn a_key_column_is_never_nullable() {
    let r = relation(
        "t",
        ReplicaIdentity::Default,
        vec![column("id", 20, -1, true)],
    );
    let onboarded = onboard_relation(&r).expect("onboards");
    assert!(!onboarded.schema.fields[0].nullable);
}

#[test]
fn a_keyless_table_is_append_only_and_says_so() {
    let r = relation(
        "events",
        ReplicaIdentity::Default,
        vec![column("payload", 25, -1, false)],
    );
    let onboarded = onboard_relation(&r).expect("onboards");
    assert_eq!(onboarded.strategy, WriteStrategy::AppendOnly);
    assert!(onboarded
        .warnings
        .iter()
        .any(|w| matches!(w, OnboardingWarning::NoRowIdentity { .. })));
}

#[test]
fn replica_identity_nothing_forces_append_only_even_with_a_key() {
    let r = relation(
        "t",
        ReplicaIdentity::Nothing,
        vec![column("id", 20, -1, true)],
    );
    assert_eq!(
        onboard_relation(&r).expect("onboards").strategy,
        WriteStrategy::AppendOnly
    );
}

#[test]
fn full_replica_identity_warns_about_log_volume() {
    let r = relation("t", ReplicaIdentity::Full, vec![column("id", 20, -1, true)]);
    let onboarded = onboard_relation(&r).expect("onboards");
    let warning = onboarded
        .warnings
        .iter()
        .find(|w| matches!(w, OnboardingWarning::FullReplicaIdentity { .. }))
        .expect("should warn");
    assert!(warning.to_string().contains("write-ahead log volume"));
}

#[test]
fn one_unmappable_column_refuses_the_whole_table() {
    let r = relation(
        "t",
        ReplicaIdentity::Default,
        vec![
            column("id", 20, -1, true),
            column("amount", 1700, -1, false), // unconstrained decimal
        ],
    );
    let err = onboard_relation(&r).expect_err("must refuse");
    let OnboardingError::UnmappableColumn { column, reason, .. } = err else {
        panic!("expected an unmappable column, got {err:?}");
    };
    assert_eq!(column, "amount");
    assert!(reason.contains("arbitrary precision"), "{reason}");
}

#[test]
fn a_column_shadowing_provenance_is_refused() {
    let r = relation(
        "t",
        ReplicaIdentity::Default,
        vec![
            column("id", 20, -1, true),
            column("_sankhya_commit_lsn", 20, -1, false),
        ],
    );
    assert!(matches!(
        onboard_relation(&r),
        Err(OnboardingError::ReservedColumn { .. })
    ));
}

#[test]
fn exactness_is_reported_per_column() {
    let r = relation(
        "t",
        ReplicaIdentity::Default,
        vec![
            column("id", 20, -1, true),
            column("measurement", 701, -1, false), // float
        ],
    );
    let onboarded = onboard_relation(&r).expect("onboards");
    assert!(!is_fully_exact(&onboarded.schema));
    assert_eq!(inexact_columns(&onboarded.schema), ["measurement"]);
}

#[test]
fn a_name_that_is_no_path_is_an_error_of_onboarding() {
    let empty = || sankhya::segment_for("").expect_err("an empty name is no path");
    assert_eq!(OnboardingError::from(empty()), OnboardingError::Naming(empty()));
}
