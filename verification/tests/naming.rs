use sankhya::{segment_for, CollisionCheck, NameClass, NamingError, TableLocation};

#[test]
fn ordinary_identifiers_pass_through_untouched() {
    for name in [
        "orders",
        "order_lines",
        "device_readings",
        "t2",
        "shipment_scans_2025",
    ] {
        let segment = segment_for(name).expect("maps");
        assert_eq!(segment.as_str(), name, "{name} should be untouched");
        assert!(
            segment.is_identity(),
            "{name} should require no transformation"
        );
    }
}

#[test]
fn every_acceptance_table_is_identity_mapped() {
    for name in [
        "shipment_scans",
        "device_readings",
        "order_lines",
        "inventory_levels",
        "support_tickets",
        "media_assets",
        "energy_intervals",
        "route_legs",
        "sensor_calibrations",
        "access_events",
    ] {
        let location = TableLocation::resolve("public", name).expect("resolves");
        assert!(
            location.is_fully_relatable(),
            "{name} should map with no transformation at all"
        );
        assert_eq!(location.relative_path(), format!("public/{name}"));
    }
}

#[test]
fn awkward_identifiers_stay_legible() {
    for (input, expected) in [
        ("Orders", "orders"),
        ("Order Items", "order-items"),
        ("customer.profile", "customer-profile"),
        ("weird//name", "weird-name"),
        ("  padded  ", "padded"),
        ("MiXeD_Case_42", "mixed_case_42"),
    ] {
        let segment = segment_for(input).expect("maps");
        assert_eq!(segment.as_str(), expected, "{input:?}");
        assert_eq!(segment.class(), NameClass::Transformed);
    }
}

#[test]
fn the_separator_signals_that_a_transformation_happened() {
    let segment = segment_for("Order Items").expect("maps");
    assert!(segment.as_str().contains('-'));
    assert!(!segment.is_identity());
}

#[test]
fn bare_reserved_names_are_refused() {
    for name in ["metadata", "data", "con", "lpt1", "graveyard", "nul"] {
        let err = segment_for(name).expect_err("must refuse");
        assert!(
            matches!(err, NamingError::Reserved { .. }),
            "{name} should be refused as reserved, got {err:?}"
        );
    }
}

#[test]
fn hidden_prefixed_names_are_relocated_rather_than_refused() {
    for (input, expected) in [
        ("_delta_log", "t_delta_log"),
        ("_sankhya", "t_sankhya"),
        ("_internal", "t_internal"),
    ] {
        let segment = segment_for(input).expect("should be relocated, not refused");
        assert_eq!(segment.as_str(), expected);
        assert!(!segment.as_str().starts_with('_'), "must not remain hidden");
        assert_eq!(segment.class(), NameClass::Transformed);
    }
}

#[test]
fn a_hidden_prefix_is_never_produced() {
    for input in ["_internal", "__private", "_"] {
        match segment_for(input) {
            Ok(segment) => assert!(
                !segment.as_str().starts_with('_'),
                "{input:?} produced {:?}, which external readers would skip",
                segment.as_str()
            ),
            Err(NamingError::Reserved { .. } | NamingError::Empty { .. }) => {}
            Err(e) => panic!("{input:?}: unexpected {e:?}"),
        }
    }
}

#[test]
fn an_identifier_with_nothing_legible_is_refused() {
    for input in ["", "!!!", "///", "   "] {
        let err = segment_for(input).expect_err("must refuse");
        assert!(
            matches!(err, NamingError::Empty { .. }),
            "{input:?} gave {err:?}"
        );
    }
}

#[test]
fn a_collision_is_refused_and_names_both_sides() {
    let mut check = CollisionCheck::new();
    let first = TableLocation::resolve("public", "Order Items").expect("resolves");
    let second = TableLocation::resolve("public", "order.items").expect("resolves");
    assert_eq!(
        first.relative_path(),
        second.relative_path(),
        "these should collide"
    );

    check.insert(&first).expect("first insert succeeds");
    let err = check
        .insert(&second)
        .expect_err("the collision must be refused");

    let NamingError::Collision {
        identifier,
        existing,
        segment,
    } = err
    else {
        panic!("expected a collision, got {err:?}");
    };
    assert!(identifier.contains("order.items"), "{identifier}");
    assert!(existing.contains("Order Items"), "{existing}");
    assert!(segment.contains("order-items"), "{segment}");
}

#[test]
fn case_only_differences_collide_and_are_refused() {
    let mut check = CollisionCheck::new();
    check
        .insert(&TableLocation::resolve("public", "Orders").expect("resolves"))
        .expect("first");
    let err = check
        .insert(&TableLocation::resolve("public", "orders").expect("resolves"))
        .expect_err("must refuse");
    assert!(matches!(err, NamingError::Collision { .. }));
}

#[test]
fn re_registering_the_same_table_is_not_a_collision() {
    let mut check = CollisionCheck::new();
    let location = TableLocation::resolve("public", "orders").expect("resolves");
    check.insert(&location).expect("first");
    check
        .insert(&location)
        .expect("the same table is not a conflict");
    assert_eq!(check.len(), 1);
}

#[test]
fn the_collision_message_explains_the_refusal() {
    let mut check = CollisionCheck::new();
    check
        .insert(&TableLocation::resolve("s", "A B").expect("resolves"))
        .expect("first");
    let err = check
        .insert(&TableLocation::resolve("s", "a.b").expect("resolves"))
        .expect_err("must refuse");
    let message = err.to_string();
    assert!(
        message.contains("will not disambiguate"),
        "the message must explain why it refuses rather than fixing it: {message}"
    );
}


#[test]
fn letters_beyond_ascii_take_their_lower_case() {
    // The kelvin sign, whose lower case is the letter k.
    let segment = segment_for("\u{212A}ilo").expect("legible");
    assert!(segment.as_str().starts_with("kilo"), "{}", segment.as_str());
    assert!(!segment.is_identity());
}

#[test]
fn a_segment_maps_to_itself() {
    for name in ["orders", "Order Items", "  a  --  b  ", "_hidden", "Sales.2024/Q1", "--x--"] {
        let segment = segment_for(name).expect("maps");
        let again = segment_for(segment.as_str()).expect("maps again");
        assert_eq!(again.as_str(), segment.as_str(), "{name}");
        assert!(!segment.as_str().starts_with('-') && !segment.as_str().contains("--"), "{name}");
    }
}

#[test]
fn a_relatable_path_is_the_names() {
    let plain = TableLocation::resolve("public", "orders").expect("resolves");
    assert!(plain.is_fully_relatable());
    assert_eq!(plain.relative_path(), "public/orders");
    let mapped = TableLocation::resolve("public", "Order Items").expect("resolves");
    assert!(!mapped.is_fully_relatable());
    assert_eq!(mapped.relative_path(), "public/order-items");
}
