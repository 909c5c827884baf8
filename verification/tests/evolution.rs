use sankhya::{
    apply_compatible, classify_change, widened_decimal, Compatibility, Field, LogicalSchema, LogicalType, Precision,
    SchemaChange,
};

fn field(name: &str, logical: LogicalType, nullable: bool, is_key: bool) -> Field {
    Field {
        name: name.into(),
        logical,
        nullable,
        is_key,
    }
}

fn schema(fields: Vec<Field>) -> LogicalSchema {
    LogicalSchema::new(fields)
}

fn base() -> LogicalSchema {
    schema(vec![
        field("id", LogicalType::Int64, false, true),
        field("label", LogicalType::Utf8, true, false),
    ])
}

fn dec(digits: u8, scale: u8) -> LogicalType {
    LogicalType::Decimal(Precision::new(digits, scale).expect("valid"))
}

#[test]
fn an_identical_shape_is_unchanged() {
    assert_eq!(classify_change(&base(), &base()), Compatibility::Unchanged);
}

#[test]
fn adding_a_column_is_applied_automatically() {
    let mut extended = base();
    extended
        .fields
        .push(field("added", LogicalType::Int32, true, false));

    let classification = classify_change(&base(), &extended);
    assert!(classification.may_continue());
    let Compatibility::Compatible { changes } = classification else {
        panic!("adding a column should be compatible");
    };
    assert_eq!(changes.len(), 1);
    assert!(matches!(changes[0], SchemaChange::ColumnAdded { .. }));
    assert_eq!(apply_compatible(&base(), &extended), Some(extended));
}

#[test]
fn widening_an_integer_is_applied_automatically() {
    let widened = schema(vec![
        field("id", LogicalType::Int64, false, true),
        field("label", LogicalType::Utf8, true, false),
    ]);
    let narrow = schema(vec![
        field("id", LogicalType::Int32, false, true),
        field("label", LogicalType::Utf8, true, false),
    ]);
    let classification = classify_change(&narrow, &widened);
    assert!(
        classification.may_continue(),
        "every 32-bit value fits in 64 bits"
    );
}

#[test]
fn narrowing_an_integer_quarantines() {
    let wide = base();
    let narrow = schema(vec![
        field("id", LogicalType::Int32, false, true),
        field("label", LogicalType::Utf8, true, false),
    ]);
    let classification = classify_change(&wide, &narrow);
    assert!(!classification.may_continue());
    let Compatibility::Incompatible { reason, .. } = classification else {
        panic!("narrowing must quarantine");
    };
    assert!(reason.contains("retyped"), "{reason}");
}

#[test]
fn a_decimal_gaining_digits_at_the_same_scale_is_compatible() {
    let before = schema(vec![field("amount", dec(9, 2), false, false)]);
    let after = schema(vec![field("amount", dec(18, 2), false, false)]);
    assert!(classify_change(&before, &after).may_continue());
}

#[test]
fn a_decimal_changing_scale_quarantines_even_when_it_grows() {
    let before = schema(vec![field("amount", dec(9, 2), false, false)]);
    let after = schema(vec![field("amount", dec(18, 4), false, false)]);
    let classification = classify_change(&before, &after);
    assert!(
        !classification.may_continue(),
        "a scale change reinterprets every stored value and must not be automatic"
    );
}

#[test]
fn dropping_a_column_quarantines_because_intent_is_unknowable() {
    let reduced = schema(vec![field("id", LogicalType::Int64, false, true)]);
    let classification = classify_change(&base(), &reduced);
    assert!(!classification.may_continue());
    let Compatibility::Incompatible { reason, changes } = classification else {
        panic!("dropping must quarantine");
    };
    assert!(changes
        .iter()
        .any(|c| matches!(c, SchemaChange::ColumnDropped { .. })));
    assert!(
        reason.contains("cannot be inferred"),
        "the message must explain why it refuses: {reason}"
    );
    assert!(
        reason.contains("remains queryable"),
        "and must say the table is not lost: {reason}"
    );
}

#[test]
fn a_rename_quarantines_because_it_looks_like_a_drop_and_an_add() {
    let renamed = schema(vec![
        field("id", LogicalType::Int64, false, true),
        field("caption", LogicalType::Utf8, true, false), // was `label`
    ]);
    let classification = classify_change(&base(), &renamed);
    assert!(!classification.may_continue());
    let Compatibility::Incompatible { changes, .. } = classification else {
        panic!("a rename must quarantine");
    };
    assert!(changes
        .iter()
        .any(|c| matches!(c, SchemaChange::ColumnDropped { .. })));
    assert!(changes
        .iter()
        .any(|c| matches!(c, SchemaChange::ColumnAdded { .. })));
}

#[test]
fn relaxing_nullability_is_compatible_but_tightening_is_not() {
    let relaxed = schema(vec![
        field("id", LogicalType::Int64, false, true),
        field("label", LogicalType::Utf8, true, false),
    ]);
    let strict = schema(vec![
        field("id", LogicalType::Int64, false, true),
        field("label", LogicalType::Utf8, false, false),
    ]);

    assert!(classify_change(&strict, &relaxed).may_continue());
    assert!(!classify_change(&relaxed, &strict).may_continue());
}

#[test]
fn changing_row_identity_quarantines() {
    let rekeyed = schema(vec![
        field("id", LogicalType::Int64, false, false),
        field("label", LogicalType::Utf8, true, true),
    ]);
    let classification = classify_change(&base(), &rekeyed);
    assert!(!classification.may_continue());
    let Compatibility::Incompatible { changes, .. } = classification else {
        panic!("an identity change must quarantine");
    };
    assert!(changes.contains(&SchemaChange::IdentityChanged));
}

#[test]
fn an_incompatible_change_cannot_be_applied_by_omission() {
    let reduced = schema(vec![field("id", LogicalType::Int64, false, true)]);
    assert_eq!(apply_compatible(&base(), &reduced), None);
}

#[test]
fn several_compatible_changes_apply_together() {
    let mut evolved = base();
    evolved
        .fields
        .push(field("a", LogicalType::Int32, true, false));
    evolved
        .fields
        .push(field("b", LogicalType::Utf8, true, false));

    let Compatibility::Compatible { changes } = classify_change(&base(), &evolved) else {
        panic!("two additions should be compatible");
    };
    assert_eq!(changes.len(), 2);
}

#[test]
fn one_incompatible_change_among_compatible_ones_still_quarantines() {
    let mixed = schema(vec![
        field("id", LogicalType::Int64, false, true),
        field("added", LogicalType::Int32, true, false),
    ]);
    assert!(!classify_change(&base(), &mixed).may_continue());
}

#[test]
fn the_key_is_the_columns_that_are_in_it() {
    let keys: Vec<String> = base().key_fields().iter().map(|field| field.name.clone()).collect();
    assert_eq!(keys, vec!["id".to_string()]);
    assert!(base().has_identity());
    assert!(!schema(vec![field("label", LogicalType::Utf8, true, false)]).has_identity());
}

#[test]
fn a_widened_decimal_is_applied_automatically() {
    let from = Precision::new(12, 4).expect("valid");
    let to = widened_decimal(from, 6).expect("still exact");
    assert_eq!(to, Precision::new(18, 4).expect("valid"));
    assert_eq!(widened_decimal(from, 26), Precision::new(38, 4));
    assert_eq!(widened_decimal(from, 27), None);
    assert_eq!(widened_decimal(from, 255), None);
    let shape = |amount| {
        schema(vec![
            field("id", LogicalType::Int64, false, true),
            field("amount", LogicalType::Decimal(amount), true, false),
        ])
    };
    let Compatibility::Compatible { changes } = classify_change(&shape(from), &shape(to)) else {
        panic!("a wider decimal holds every value");
    };
    assert_eq!(
        changes,
        vec![SchemaChange::ColumnWidened {
            name: "amount".into(),
            from: LogicalType::Decimal(from),
            to: LogicalType::Decimal(to),
        }]
    );
    assert_eq!(apply_compatible(&shape(from), &shape(to)), Some(shape(to)));
}

#[test]
fn a_repeated_name_counts_where_it_first_stands() {
    let a = || field("a", LogicalType::Int64, true, false);
    let b = || field("b", LogicalType::Int64, true, false);
    for (before, after) in [
        (vec![a()], vec![a(), a()]),
        (vec![a(), a()], vec![a()]),
        (vec![a(), b()], vec![a(), b(), a()]),
    ] {
        assert_eq!(
            classify_change(&schema(before), &schema(after)),
            Compatibility::Compatible { changes: Vec::new() }
        );
    }
    let Compatibility::Incompatible { changes, .. } =
        classify_change(&schema(vec![a(), b(), a()]), &schema(vec![b(), a(), a()]))
    else {
        panic!("the order of the first places changed");
    };
    assert_eq!(changes, vec![SchemaChange::ColumnsReordered]);
}

#[test]
fn a_decimal_widens_beside_repeated_names() {
    let from = Precision::new(12, 4).expect("valid");
    let to = widened_decimal(from, 6).expect("still exact");
    let shape = |second, amount| {
        schema(vec![
            field("a", LogicalType::Int32, true, false),
            field("a", second, true, false),
            field("amount", LogicalType::Decimal(amount), true, false),
        ])
    };
    let widened = SchemaChange::ColumnWidened {
        name: "amount".into(),
        from: LogicalType::Decimal(from),
        to: LogicalType::Decimal(to),
    };
    assert_eq!(
        classify_change(&shape(LogicalType::Int32, from), &shape(LogicalType::Int32, to)),
        Compatibility::Compatible { changes: vec![widened] }
    );
    // A second column of the name that departs from the first without loss does not block.
    assert!(classify_change(&shape(LogicalType::Int64, from), &shape(LogicalType::Int64, to)).may_continue());
    // One of another type does, whatever else changed.
    assert!(!classify_change(&shape(LogicalType::Utf8, from), &shape(LogicalType::Utf8, to)).may_continue());
}
