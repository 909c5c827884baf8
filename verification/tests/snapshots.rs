use sankhya::snapshots::{
    absent_table, as_of, as_of_failure, at_one_instant, at_version_failure, at_versions, changes_between, check_pins,
    check_setting, check_version_files, describe, document_at, drop_it, dropped, history_of, keepers, keepers_of, load, one_pass,
    pinned_versions, read_version, refuse_unless_readable, show, show_loaded, still_reading, tables_as_of, take,
    taken, version_setting, Change, Confirmation, Difference, Document, DropDecision, Listing, Loaded, Observed, PinnedLog,
    SessionSetting, SettingCheck, Snapshot, Standing, Statement, VersionCheck, Wanted, Writing,
};
use sankhya::textmap::TextMap;
use sankhya::warehouse::{Place, Resolved};
use sankhya::Configuration;

fn snapshot(name: &str, standing: Standing, pins: &[(&str, u64)]) -> Snapshot {
    let mut tables: TextMap<u64> = TextMap::new();
    for (table, version) in pins {
        tables.insert((*table).to_string(), *version);
    }
    Snapshot {
        name: name.to_string(),
        taken_by: "ann".to_string(),
        taken_at: 5,
        expires_on: 20,
        tables,
        standing,
        notice: "it expired".to_string(),
    }
}

fn loaded(found: Vec<Snapshot>) -> Loaded {
    Loaded { found, complaints: Vec::new() }
}

#[test]
fn live_pins_are_kept_and_expired_ones_are_not() {
    let pins = pinned_versions(&vec![
        snapshot("a", Standing::Live, &[("s.t", 3)]),
        snapshot("b", Standing::Expired, &[("s.t", 4), ("s.u", 1)]),
        snapshot("c", Standing::Live, &[("s.t", 7)]),
    ]);
    assert!(pins.get("s.t").expect("pinned").contains(&3));
    assert!(pins.get("s.t").expect("pinned").contains(&7));
    assert!(!pins.get("s.t").expect("pinned").contains(&4));
    assert!(pins.get("s.u").is_none());
    let root = Resolved::One(Place { absolute: true, parts: vec!["w".to_string()] });
    let reading = still_reading(vec!["torn".to_string()], &pins, &vec![root]);
    assert!(reading.unreadable.contains(&"torn".to_string()));
    assert_eq!(keepers_of(&vec![(3, "a".to_string()), (4, "b".to_string()), (3, "c".to_string())], 3).len(), 2);
}

#[test]
fn a_document_that_cannot_be_read_is_said() {
    let held = load(Listing::Documents(vec![
        ("b.json".to_string(), Ok(snapshot("b", Standing::Live, &[]))),
        ("a.json".to_string(), Err("torn".to_string())),
    ]));
    assert_eq!((held.found.len(), held.complaints.len()), (1, 1));
    assert!(load(Listing::Absent).complaints.is_empty());
    assert_eq!(load(Listing::Unreadable("d".to_string(), "no".to_string())).complaints.len(), 1);
    let refused = show_loaded(&held).expect_err("refused");
    assert!(refused.message.starts_with("1 snapshot document(s) could not be read, beginning with "));
    assert_eq!(show_loaded(&loaded(Vec::new())).expect("shown").rows.len(), 0);
    assert_eq!(show(&vec![snapshot("a", Standing::Live, &[])]).rows.len(), 1);
}

fn versions(list: &[(&str, u64)]) -> Vec<(String, u64)> {
    list.iter().map(|(name, version)| ((*name).to_string(), *version)).collect()
}

#[test]
fn one_instant_is_one_that_did_not_move() {
    let seen = |qualified: &str, readable, version| Observed {
        qualified: Some(qualified.to_string()),
        readable,
        version,
    };
    assert_eq!(
        one_pass(&vec![seen("s.a", true, Some(3)), seen("s.b", false, Some(4)), seen("s.c", true, None)]).len(),
        1
    );
    assert!(matches!(
        at_one_instant(0, versions(&[("s.a", 3)]), &versions(&[("s.a", 3)])),
        Confirmation::Confirmed(held) if held == versions(&[("s.a", 3)])
    ));
    assert!(matches!(
        at_one_instant(0, versions(&[("s.a", 3)]), &versions(&[("s.a", 4)])),
        Confirmation::Again(1)
    ));
}

#[test]
fn a_snapshot_is_taken_and_never_replaced() {
    let record = take(false, "eod", "ann", 5, 20, &versions(&[("s.a", 3)])).expect("taken");
    assert_eq!(record.tables.get("s.a"), Some(&3));
    assert_eq!(take(true, "eod", "ann", 5, 20, &Vec::new()).expect_err("refused").sqlstate, "42P07");
    assert_eq!(document_at("eod", Ok("eod")).expect("named"), "_snapshots/eod.json");
    assert!(document_at("../x", Err("a slash")).expect_err("refused").message.ends_with("a slash"));
}

#[test]
fn a_snapshot_is_dropped_by_whoever_took_it_or_reads_all_of_it() {
    let held = |reads_all| Document::Held { taken_by: "ann".to_string(), reads_all };
    assert!(matches!(drop_it(&held(false), "ann", "eod", false), DropDecision::Remove));
    assert!(matches!(drop_it(&held(true), "bob", "eod", false), DropDecision::Remove));
    match (drop_it(&held(false), "bob", "eod", true), drop_it(&Document::Missing, "bob", "eod", false)) {
        (DropDecision::Refuse(hidden, true), DropDecision::Refuse(absent, false)) => assert_eq!(hidden, absent),
        _ => panic!("not refused alike"),
    }
    assert!(matches!(drop_it(&Document::Missing, "bob", "eod", true), DropDecision::Acknowledge(_)));
    assert!(matches!(drop_it(&Document::Illegible, "ann", "eod", true), DropDecision::Refuse(_, false)));
}

#[test]
fn a_session_reads_the_snapshot_it_named_or_nothing() {
    let held = loaded(vec![snapshot("old", Standing::Expired, &[]), snapshot("eod", Standing::Live, &[("s.a", 3)])]);
    assert_eq!(as_of(None, &held), Ok(None));
    assert_eq!(as_of(Some(""), &held), Ok(None));
    assert_eq!(as_of(Some("eod"), &held), Ok(Some(1)));
    assert_eq!(as_of(Some("old"), &held).expect_err("refused").message, "it expired");
    assert_eq!(as_of(Some("zzz"), &held).expect_err("refused").sqlstate, "42704");
    let tables = vec![Some("s.b".to_string()), None, Some("s.a".to_string())];
    assert_eq!(tables_as_of(&held.found[1], &tables), vec![(2, 3)]);
    assert!(as_of_failure("s.a", 3, "eod", "gone").message.ends_with("gone"));
    assert_eq!(absent_table("t"), refuse_unless_readable("t", true, false).expect_err("refused"));
    assert_eq!(absent_table("t"), refuse_unless_readable("t", false, true).expect_err("refused"));
    assert!(refuse_unless_readable("t", true, true).is_ok());
}

#[test]
fn a_setting_is_checked_where_it_is_set() {
    let held = loaded(vec![snapshot("eod", Standing::Live, &[("s.a", 3)])]);
    let set = |name: &str, value: &str| {
        Some(SessionSetting { name: name.to_string(), value: value.to_string(), reset: false })
    };
    assert!(matches!(check_setting(&None, &held), SettingCheck::NotASnapshot));
    assert!(matches!(check_setting(&set("search_path", "x"), &held), SettingCheck::NotASnapshot));
    assert!(matches!(check_setting(&set("snapshot", "eod"), &held), SettingCheck::LookAt(0)));
    assert!(matches!(check_setting(&set("snapshot", "zzz"), &held), SettingCheck::Refused(_)));
    assert!(check_pins("eod", &held.found[0], &vec![PinnedLog::Versions(vec![2, 3])]).is_ok());
    assert!(check_pins("eod", &held.found[0], &vec![PinnedLog::Versions(vec![4])]).is_err());
    assert!(check_pins("eod", &held.found[0], &vec![PinnedLog::NoTable]).is_err());
}

#[test]
fn versions_are_listed_compared_and_read() {
    assert_eq!(describe(&Statement::Show), "SHOW SNAPSHOTS");
    let difference = Difference {
        commits: 2,
        rows_added: 5,
        rows_removed: 1,
        files_added: 2,
        files_removed: 1,
        compactions: 0,
    };
    assert_eq!(changes_between(Ok(difference)).expect("answered").rows.len(), 1);
    assert!(changes_between(Err("no log")).is_err());
    let change = Change {
        version: 3,
        what: "append".to_string(),
        at: None,
        added: 1,
        removed: 0,
        bytes_added: 9,
        changed_data: true,
    };
    let listed = history_of("s.a", Ok(&vec![change]), &vec![(3, "eod".to_string())]).expect("answered");
    assert_eq!(listed.rows.len(), 1);
    assert!(history_of("s.a", Err("torn"), &Vec::new()).is_err());
    assert!(matches!(read_version("s.a", &Wanted::Present), VersionCheck::Answered(Ok(_))));
    assert!(matches!(read_version("s.a", &Wanted::Among(3, vec![2, 3])), VersionCheck::LookAtFiles(3)));
    assert!(matches!(read_version("s.a", &Wanted::Among(9, vec![2, 3])), VersionCheck::Answered(Err(_))));
    assert!(matches!(read_version("s.a", &Wanted::NoLog(1, "x".to_string())), VersionCheck::Answered(Err(_))));
    assert!(check_version_files("s.a", 3, Ok(&vec![true, true])).is_ok());
    assert!(check_version_files("s.a", 3, Ok(&vec![true, false])).is_err());
    assert!(check_version_files("s.a", 3, Err("torn")).is_err());
    let mut settings = Configuration::new();
    settings.insert(version_setting("s.a"), "4".to_string());
    let tables = vec![(Some("s.a".to_string()), "a".to_string()), (Some("s.b".to_string()), "b".to_string())];
    assert_eq!(at_versions(&tables, &settings), vec![Some(4), None]);
    assert!(at_version_failure("s.a", 4, "gone").message.contains("gone"));
}

#[test]
fn a_snapshot_that_is_not_written_is_not_taken() {
    assert_eq!(taken(Writing::Written).expect("taken").tag, "CREATE SNAPSHOT");
    for (writing, state, said) in [
        (Writing::NoDocument("no".to_string()), "XX000", "no"),
        (Writing::NoDirectory("no".to_string()), "58030", "the snapshot directory could not be created: no"),
        (Writing::NotWritten("no".to_string()), "58030", "the snapshot could not be written: no"),
    ] {
        let refused = taken(writing).expect_err("refused");
        assert_eq!((refused.sqlstate.as_str(), refused.message.as_str()), (state, said));
    }
    assert_eq!(dropped(Ok(())).expect("dropped").tag, "DROP SNAPSHOT");
    let refused = dropped(Err("busy".to_string())).expect_err("refused");
    assert_eq!(refused.message, "the snapshot could not be removed: busy");
}

#[test]
fn a_version_is_kept_by_live_snapshots_and_by_clones() {
    let root = |name: &str| Place { absolute: true, parts: vec!["w".to_string(), "s".to_string(), name.to_string()] };
    let found = vec![
        snapshot("a", Standing::Live, &[("s.t", 3), ("s.u", 4)]),
        snapshot("b", Standing::Expired, &[("s.t", 5)]),
        snapshot("c", Standing::Live, &[("t", 7), ("x", 1)]),
    ];
    let at = vec![
        vec![Resolved::One(root("t")), Resolved::One(root("u"))],
        vec![Resolved::One(root("t"))],
        vec![Resolved::One(root("t")), Resolved::Absent],
    ];
    let clones = vec![(9, "copy".to_string())];
    assert_eq!(
        keepers(&found, &at, &root("t"), &clones),
        vec![(3, "a".to_string()), (7, "c".to_string()), (9, "copy".to_string())]
    );
    assert_eq!(keepers(&found, &at, &root("u"), &Vec::new()), vec![(4, "a".to_string())]);
}
