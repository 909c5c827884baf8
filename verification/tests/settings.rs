use sankhya::policy::TenantId;
use sankhya::settings::{
    check_files, command, configuration_dir, configuration_files, connect_with, data_dir, feed_interval_seconds,
    legacy_environment, maintenance_policy, now_micros, password_typed, reload, roles_named, settings, today,
    transport_posture, transport_security as read_security, Command, MaintenancePolicy, Posture, Readings, Reload,
    TransportSecurity, CUBOID_ROW_BUDGET, USAGE,
};
use sankhya::warehouse::Place;
use sankhya::Configuration;

fn configured(pairs: &[(&str, &str)]) -> Configuration {
    let mut config = Configuration::new();
    for (key, value) in pairs {
        config.insert((*key).to_owned(), (*value).to_owned());
    }
    config
}

fn transport_security(config: &Configuration) -> Result<Option<TransportSecurity>, String> {
    let require = match config.get("server.tls.require") {
        None => Ok(None),
        Some(said) => said.parse::<bool>().map(Some).map_err(|why| why.to_string()),
    };
    read_security(config, require)
}

#[test]
fn a_configuration_that_says_nothing_about_tls_asks_for_none() {
    assert_eq!(transport_security(&configured(&[])), Ok(None));
}

#[test]
fn a_certificate_without_its_key_refuses_to_start() {
    let refused = transport_security(&configured(&[("server.tls.certificate", "/x.crt")]))
        .expect_err("half a configuration is not a configuration");
    assert!(refused.contains("server.tls.private_key"), "{refused}");
    assert!(refused.contains("believes it is encrypted"), "{refused}");
}

#[test]
fn a_key_without_its_certificate_refuses_to_start() {
    let refused = transport_security(&configured(&[("server.tls.private_key", "/x.key")]))
        .expect_err("half a configuration is not a configuration");
    assert!(refused.contains("server.tls.certificate"), "{refused}");
}

#[test]
fn a_complete_configuration_requires_tls_unless_told_otherwise() {
    let security = transport_security(&configured(&[
        ("server.tls.certificate", "/x.crt"),
        ("server.tls.private_key", "/x.key"),
    ]))
    .expect("a complete configuration")
    .expect("some security");
    assert!(security.require, "requiring is the default an operator gets by not deciding");
    assert_eq!(security.client_ca, None);

    let permissive = transport_security(&configured(&[
        ("server.tls.certificate", "/x.crt"),
        ("server.tls.private_key", "/x.key"),
        ("server.tls.require", "false"),
    ]))
    .expect("a complete configuration")
    .expect("some security");
    assert!(!permissive.require, "and it can be asked out of, by name");
}

#[test]
fn a_client_bundle_is_carried_through() {
    let security = transport_security(&configured(&[
        ("server.tls.certificate", "/x.crt"),
        ("server.tls.private_key", "/x.key"),
        ("server.tls.client_ca", "/clients.pem"),
    ]))
    .expect("a complete configuration")
    .expect("some security");
    assert_eq!(security.client_ca, Some(String::from("/clients.pem")));
}

fn defaults() -> MaintenancePolicy {
    MaintenancePolicy { interval_nanos: 30, compact_every: 4, orphan_sweep_every: 60 }
}

fn unset() -> Readings {
    Readings {
        require_password: Ok(None),
        user_functions: Ok(None),
        tls_require: Ok(None),
        read_as_of: Ok(None),
        budget_rows: Ok(None),
        interval_nanos: Ok(None),
        compact_every: Ok(None),
        orphan_sweep_every: Ok(None),
    }
}

fn place(absolute: bool, parts: &[&str]) -> Place {
    Place { absolute, parts: parts.iter().map(|part| (*part).to_string()).collect() }
}

#[test]
fn settings_that_say_nothing_are_the_defaults() {
    let read = settings(
        &configured(&[]),
        unset(),
        &configured(&[("ann", " reader , ,auditor"), ("bob", "")]),
        &vec![("ann".to_string(), Ok("v".to_string()))],
        defaults(),
        TenantId { id: 1 },
    )
    .expect("nothing to refuse");
    assert_eq!(read.listen, "127.0.0.1:5433");
    assert_eq!(read.flight_listen.as_deref(), Some("127.0.0.1:5434"));
    assert_eq!(read.metrics_listen.as_deref(), Some("127.0.0.1:9464"));
    assert_eq!(read.warehouse, "./warehouse");
    assert_eq!(read.read_as_of, u64::MAX);
    assert_eq!(read.cuboid_budget_rows, CUBOID_ROW_BUDGET);
    assert!(read.require_password);
    assert!(!read.user_functions);
    assert_eq!(read.maintenance, Some(defaults()));
    assert_eq!(
        read.roles,
        vec![
            ("ann".to_string(), vec!["reader".to_string(), "auditor".to_string()]),
            ("bob".to_string(), Vec::new()),
        ]
    );
    assert_eq!(read.credentials, vec![("ann".to_string(), "v".to_string())]);
}

fn refused(readings: Readings) -> String {
    settings(&configured(&[]), readings, &configured(&[]), &Vec::new(), defaults(), TenantId { id: 1 })
        .expect_err("refused")
}

#[test]
fn a_count_below_zero_is_refused_and_never_read_as_something_else() {
    let mut readings = unset();
    readings.read_as_of = Ok(Some(-5));
    assert_eq!(
        refused(readings),
        "`warehouse.read_as_of` must be a position at or after zero and holds `-5`. Leave it unset to read everything published"
    );
    let mut readings = unset();
    readings.budget_rows = Ok(Some(-1));
    assert!(refused(readings).contains("`cubes.budget_rows`"));
    let mut readings = unset();
    readings.compact_every = Ok(Some(-2));
    assert!(refused(readings).contains("`maintenance.compact_every`"));
    let mut readings = unset();
    readings.orphan_sweep_every = Ok(Some(-3));
    assert!(refused(readings).contains("holds `-3`"));
}

#[test]
fn what_cannot_be_read_is_refused_in_its_own_words() {
    let mut readings = unset();
    readings.require_password = Err("not a boolean".to_string());
    readings.read_as_of = Err("later".to_string());
    assert_eq!(refused(readings), "not a boolean");
    let why = settings(
        &configured(&[]),
        unset(),
        &configured(&[]),
        &vec![("eve".to_string(), Err("too short".to_string()))],
        defaults(),
        TenantId { id: 1 },
    )
    .expect_err("refused");
    assert_eq!(
        why,
        "`server.credentials.eve` is not a password verifier: too short. Make one with `sankhya-server hash-password`"
    );
}

#[test]
fn an_interval_of_nothing_turns_maintenance_off() {
    assert_eq!(maintenance_policy(Ok(Some(0)), Err("unread".to_string()), Ok(None), defaults()), Ok(None));
    let asked = maintenance_policy(Ok(None), Ok(Some(2)), Ok(None), defaults());
    let policy = MaintenancePolicy { interval_nanos: 30, compact_every: 2, orphan_sweep_every: 60 };
    assert_eq!(asked, Ok(Some(policy)));
    assert_eq!(reload(asked.clone(), policy), Reload::Unchanged(policy));
    assert_eq!(reload(asked, defaults()), Reload::Changed(policy));
    assert_eq!(reload(Ok(None), defaults()), Reload::Kept);
    assert_eq!(reload(Err("why".to_string()), defaults()), Reload::Refused("why".to_string()));
}

#[test]
fn a_named_file_that_is_missing_stops_the_server() {
    let files = vec![("a.yaml".to_string(), true), ("b.yaml".to_string(), false)];
    assert!(check_files(true, &files).expect_err("refused").contains("`b.yaml`"));
    assert_eq!(check_files(false, &files), Ok(()));
}

#[test]
fn the_environment_sets_only_what_is_documented() {
    let set = legacy_environment(&configured(&[
        ("SANKHYA_LISTEN", "0.0.0.0:1"),
        ("SANKHYA_NO_PASSWORD", ""),
        ("PATH", "/bin"),
    ]));
    assert_eq!(set.get("server.listen").map(String::as_str), Some("0.0.0.0:1"));
    assert_eq!(set.get("server.require_password").map(String::as_str), Some("false"));
    assert_eq!(set.entries().len(), 2);
}

#[test]
fn places_follow_the_files_and_the_warehouse() {
    assert_eq!(configuration_files(None), vec!["config/application.yaml".to_string()]);
    assert_eq!(configuration_files(Some("a,b")), vec!["a".to_string(), "b".to_string()]);
    assert_eq!(configuration_dir(&vec![place(true, &["etc", "s.yaml"])]), place(true, &["etc"]));
    assert_eq!(configuration_dir(&Vec::new()), place(false, &["config"]));
    assert_eq!(data_dir(None, &place(true, &["data", "wh"])), place(true, &["data", ".sankhya"]));
    assert_eq!(data_dir(None, &place(true, &[])), place(false, &[".", ".sankhya"]));
    assert_eq!(data_dir(None, &place(false, &["wh"])), place(false, &[".sankhya"]));
    assert_eq!(data_dir(Some(place(true, &["d"])), &place(true, &["wh"])), place(true, &["d"]));
}

#[test]
fn a_feed_never_looks_without_pausing() {
    assert_eq!(feed_interval_seconds(None), (30, None));
    assert_eq!(feed_interval_seconds(Some(" 5 ")), (5, None));
    let (seconds, said) = feed_interval_seconds(Some("0"));
    assert_eq!(seconds, 30);
    assert_eq!(
        said.as_deref(),
        Some("  SANKHYA_FEED_INTERVAL_SECONDS is `0`, which is not a number of seconds greater than zero — using 30")
    );
    assert_eq!(feed_interval_seconds(Some("soon")).0, 30);
}

#[test]
fn clocks_that_cannot_be_counted_read_zero() {
    assert_eq!(now_micros(Some(7)), 7);
    assert_eq!(now_micros(None), 0);
    assert_eq!(now_micros(Some(u128::MAX)), 0);
    assert_eq!(today(Some(86_400 * 3 + 5)), 3);
    assert_eq!(today(Some(u64::MAX)), 0);
}

#[test]
fn an_unknown_subcommand_is_refused_with_what_is_known() {
    assert_eq!(command(None, None), Command::Serve);
    assert_eq!(command(Some("start"), None), Command::Serve);
    assert_eq!(command(Some("-V"), None), Command::Version);
    assert_eq!(command(Some("attest"), Some("s3".to_string())), Command::Attest(Some("s3".to_string())));
    match command(Some("statr"), None) {
        Command::Unrecognised(why) => {
            assert!(why.starts_with("sankhya: `statr` is not a subcommand of this binary\n\nSANKHYA ---"));
            assert!(why.ends_with(USAGE));
        }
        other => panic!("{other:?}"),
    }
}

#[test]
fn a_password_keeps_its_spaces() {
    assert_eq!(password_typed(" a b \r\n").as_deref(), Some(" a b "));
    assert_eq!(password_typed("x\n\n").as_deref(), Some("x\n"));
    assert_eq!(password_typed("\r\n"), None);
}

#[test]
fn the_connect_line_names_what_was_bound() {
    assert_eq!(connect_with("[::1]:6000"), "  connect with: psql -h [::1] -p 6000 -U <user>");
    assert_eq!(connect_with("nowhere"), "  connect with: psql -h 127.0.0.1 -p 5433 -U <user>");
}

#[test]
fn a_door_says_how_it_is_encrypted() {
    let mut security = TransportSecurity {
        certificate: "c".to_string(),
        private_key: "k".to_string(),
        client_ca: None,
        require: true,
    };
    assert_eq!(transport_posture(None, Some(&security)), Posture::Clear);
    assert_eq!(transport_posture(Some(true), Some(&security)), Posture::Mutual);
    assert_eq!(transport_posture(Some(false), Some(&security)), Posture::Required);
    security.require = false;
    assert_eq!(transport_posture(Some(false), Some(&security)), Posture::Offered);
    assert!(Posture::Clear.said().contains("plain text"));
}

#[test]
fn roles_are_what_stands_between_commas() {
    assert_eq!(roles_named("a, b ,,c"), vec!["a".to_string(), "b".to_string(), "c".to_string()]);
    assert!(roles_named(" , ").is_empty());
}
