use sankhya::wiring::pin_digest;
use sankhya::Configuration;

fn caller_with(settings: &[(&str, &str)]) -> u64 {
    let mut held = Configuration::new();
    for (name, value) in settings {
        held.insert((*name).to_string(), (*value).to_string());
    }
    pin_digest(&held)
}

#[test]
fn a_session_reading_the_present_has_no_pin() {
    assert_eq!(caller_with(&[]), 0);
    assert_eq!(caller_with(&[("search_path", "sales")]), 0, "an ordinary setting is not a position");
    assert_eq!(caller_with(&[("snapshot", "")]), 0, "a cleared snapshot is reading the present again");
}

#[test]
fn a_pinned_session_is_not_an_unpinned_one() {
    let pinned = caller_with(&[("snapshot", "eod")]);
    assert_ne!(pinned, 0, "a session reading a snapshot looks unpinned");
}

#[test]
fn two_positions_are_two_digests_and_one_position_is_one() {
    let eod = caller_with(&[("snapshot", "eod")]);
    let month = caller_with(&[("snapshot", "month_end")]);
    assert_ne!(eod, month, "two snapshots digest the same, so one serves the other's cells");
    assert_eq!(eod, caller_with(&[("snapshot", "eod")]));
}

#[test]
fn a_version_pin_names_the_table_it_pins() {
    let orders = caller_with(&[("version of sales.orders", "7")]);
    let people = caller_with(&[("version of hr.people", "7")]);
    assert_ne!(orders, 0);
    assert_ne!(
        orders, people,
        "two tables pinned at the same version digest the same, so one session's position is served to another's"
    );
    let both = caller_with(&[("version of sales.orders", "7"), ("version of hr.people", "7")]);
    assert_ne!(both, orders);
    assert_ne!(both, people);
}
