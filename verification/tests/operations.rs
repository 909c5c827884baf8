use sankhya::aggregations::Aggregation;
use sankhya::backup::{
    keep_until, may_take, recorded, run_drill, take, unreadable, Digested, Drill, COULD_NOT_RUN, NOT_PROVEN, PROVEN,
};
use sankhya::cubes::{
    create, created, dropped, register_derived, remove, tables_read_by, AlongRule, CubeDefinition, Derivable, Held,
    MeasureRules,
};
use sankhya::doctor::{available_blocks, doctor, report_additions, Checks, Outcome, Report, CLEAN, FINDINGS};
use sankhya::execute::TableName;
use sankhya::feeds::{
    after_a_run, declares_a_feed, expire_quarantine, expiry_report, load, longest_retention, reach, resumed, run_command,
    run_once, target_of, Command, Declaration, Expiry, FeedStanding, Health, Listing, Ran, Reach, Step,
};
use sankhya::flight::{session_for, user_of, FlightRefusal};
use sankhya::graphs::{
    adopt, bare_name, columns_there, hydrate, tables_read, visible_to, EdgeColumns, GraphSeen, GraphTable, Sight,
};
use sankhya::scrape::{
    answer, is_metrics_request, progress, refresh_table_gauges, respond, response, too_large, Progress, Rejections,
};

fn names(list: &[&str]) -> Vec<String> {
    list.iter().map(|name| (*name).to_string()).collect()
}

#[test]
fn only_one_route_is_served() {
    assert!(is_metrics_request("GET /metrics HTTP/1.1"));
    assert!(is_metrics_request("GET /metrics?x=1 HTTP/1.1"));
    assert!(!is_metrics_request("GET /metrics/../etc/passwd HTTP/1.1"));
    assert!(!is_metrics_request("POST /metrics HTTP/1.1"));
    assert!(!is_metrics_request("GET"));
    assert!(!is_metrics_request(""));
}

#[test]
fn a_response_names_its_length_in_bytes() {
    assert_eq!(
        response(200, "text/plain", "é"),
        "HTTP/1.1 200 OK\r\nContent-Type: text/plain\r\nContent-Length: 2\r\nConnection: close\r\n\r\né".as_bytes()
    );
    assert!(response(404, "t", "").starts_with(b"HTTP/1.1 404 Not Found\r\n"));
    assert!(too_large().starts_with(b"HTTP/1.1 413 Payload Too Large\r\n"));
}

#[test]
fn a_request_is_read_to_its_end_and_no_further() {
    assert_eq!(progress(0, &b"GET".to_vec()), Progress::Gone);
    assert_eq!(progress(3, &b"GET".to_vec()), Progress::More);
    assert_eq!(progress(3, &b"GET / HTTP/1.1\r\n\r\n".to_vec()), Progress::Complete);
    assert_eq!(progress(1, &vec![b'a'; 8192]), Progress::More);
    assert_eq!(progress(1, &vec![b'a'; 8193]), Progress::TooLarge);
    assert_eq!(
        answer("GET /metrics HTTP/1.1\r\nHost: x\r\n\r\n", "up 1\n"),
        response(200, "text/plain; version=0.0.4", "up 1\n")
    );
    assert_eq!(
        respond(&b"GET /other HTTP/1.1\r\n\r\n".to_vec(), "up 1\n"),
        response(404, "text/plain", "only GET /metrics is served here")
    );
    assert_eq!(
        respond(&b"GET /metrics \xff\r\n\r\n".to_vec(), "up 1\n"),
        response(200, "text/plain; version=0.0.4", "up 1\n")
    );
}

#[test]
fn a_bulk_request_names_who_asks() {
    assert_eq!(user_of(Some(" ann ")), Ok("ann".to_string()));
    let refused = FlightRefusal::Unauthenticated(
        "no `sankhya-user` was supplied; an unattributable request cannot be audited".to_string(),
    );
    assert_eq!(user_of(Some("  ")), Err(refused));
    assert!(user_of(None).is_err());
    assert_eq!(session_for(true, Ok((1, 2))), Ok(()));
    assert_eq!(session_for(true, Ok((0, 0))), Ok(()));
    assert!(matches!(session_for(true, Ok((0, 2))), Err(FlightRefusal::PermissionDenied(_))));
    assert!(matches!(session_for(false, Ok((1, 2))), Err(FlightRefusal::Unauthenticated(_))));
    assert!(matches!(session_for(true, Err("x".to_string())), Err(FlightRefusal::PermissionDenied(why)) if why == "x"));
}

#[test]
fn a_partial_backup_is_not_recorded() {
    let refused = vec![("/w/a".to_string(), "torn".to_string())];
    let said = may_take("/w", &refused, 3);
    assert_eq!(said[0], "  COULD NOT READ /w/a: torn");
    assert!(said[1].starts_with("\nRefusing to record a partial backup."));
    assert_eq!(may_take("/w", &Vec::new(), 0), names(&["no tables found under /w"]));
    assert!(may_take("/w", &Vec::new(), 1).is_empty());
    let tables = vec![
        Digested { name: "s.a".to_string(), outcome: Ok((3, 10)) },
        Digested { name: "s.b".to_string(), outcome: Err("torn".to_string()) },
        Digested { name: "s.c".to_string(), outcome: Ok((1, 1)) },
    ];
    assert_eq!(take(&tables), (names(&["  s.a at version 3, 10 row(s)", "  COULD NOT DIGEST s.b: torn"]), false));
    assert_eq!(keep_until(0), 7_776_000_000_000);
}

#[test]
fn a_drill_that_was_not_written_down_did_not_run() {
    let drill = |passed| Drill {
        tables: vec![("s.a".to_string(), "ok".to_string())],
        failures: if passed { 0 } else { 1 },
        passed,
    };
    let (lines, status) = run_drill(&drill(true), None);
    assert_eq!(status, PROVEN);
    assert_eq!(lines, names(&["  s.a: ok", "", "Proven. 1 table(s) read back and digested."]));
    let (lines, status) = run_drill(&drill(false), None);
    assert_eq!(status, NOT_PROVEN);
    assert!(lines[2].starts_with("NOT PROVEN. 1 of 1 table(s) did not verify"));
    assert_eq!(run_drill(&drill(true), Some("full")), (names(&["  full"]), COULD_NOT_RUN));
}

#[test]
fn the_doctor_tells_clean_from_not_looked() {
    assert_eq!(available_blocks("Filesystem blocks\n/dev/x 100 40 60 40% /\n").as_deref(), Some("60"));
    assert_eq!(available_blocks("header only\n"), None);
    let report = |findings: &[&str], skipped: usize| Report {
        findings: names(findings),
        could_not_run: vec![("a".to_string(), "b".to_string()); skipped],
        summary: "done".to_string(),
    };
    assert_eq!(doctor(&report(&[], 0)).1, CLEAN);
    assert_eq!(doctor(&report(&["x"], 0)).1, FINDINGS);
    assert_ne!(doctor(&report(&[], 1)).1, CLEAN);
    let checks = Checks {
        drill: None,
        measured: false,
        headroom: None,
        data_dir: "/d".to_string(),
        archived: false,
        attestation: None,
        refused: vec![("/w/a".to_string(), "torn".to_string())],
    };
    let added = report_additions(&checks);
    assert_eq!(added.len(), 3);
    assert!(matches!(&added[0], Outcome::Clean(check) if check == "restore-drill"));
    assert!(matches!(&added[2], Outcome::Skipped(_, why) if why == "/w/a: torn"));
}

#[test]
fn a_feed_lands_where_somebody_designed() {
    let target = TableName { schema: "s".to_string(), table: "t".to_string() };
    assert!(declares_a_feed(Some("yaml")));
    assert!(!declares_a_feed(Some("txt")));
    assert!(run_once("f", "f.yaml", &target, "q", true, true).is_ok());
    assert!(run_once("f", "f.yaml", &target, "q", false, true).expect_err("refused").contains("lands in s.t,"));
    assert!(run_once("f", "f.yaml", &target, "q", true, false).expect_err("refused").contains("sank.q"));
    assert_eq!(longest_retention(&vec![3, 9, 4]), Some(9));
    assert_eq!(longest_retention(&Vec::new()), None);
    assert!(matches!(expire_quarantine(false, Ok(None), true, 0), Expiry::Nothing));
    assert!(matches!(expire_quarantine(true, Err("x"), true, 0), Expiry::Failed(_)));
    assert!(matches!(
        expire_quarantine(true, Ok(Some(4)), true, -1_500),
        Expiry::Detach { version: 5, at_millis: -1 }
    ));
    assert_eq!(expiry_report(Ok((2, 3)), 7), Ok("2 partition(s), 3 file(s), older than 7 day(s)".to_string()));
    assert_eq!(target_of(&target), "s.t");
    let (declared, complaints) = load(&Listing::Files(vec![
        ("a.yaml".to_string(), Declaration::Valid),
        ("b.yaml".to_string(), Declaration::Unreadable("torn".to_string())),
    ]));
    assert_eq!((declared, complaints.len()), (vec![0], 1));
}

#[test]
fn a_feed_is_listed_to_all_and_its_reason_to_its_readers() {
    let halted = |reach| FeedStanding {
        name: "f".to_string(),
        health: Health::Halted { since: 5, reason: "row 3".to_string() },
        word: "halted".to_string(),
        runs: 1,
        published: 2,
        quarantined: 3,
        skipped: 4,
        halts: 5,
        reach,
    };
    let shown = |reach| match run_command(Ok(&Command::Show), &vec![halted(reach)], None) {
        Step::Answered(Ok(result)) => result.rows[0][3].clone(),
        _ => panic!("not listed"),
    };
    assert_eq!(shown(Reach::Readable).as_deref(), Some("row 3"));
    assert_eq!(shown(Reach::Missing).as_deref(), Some("row 3"));
    assert!(shown(Reach::Hidden).expect("said").starts_with("halted; the reason names"));
    let target = TableName { schema: "s".to_string(), table: "t".to_string() };
    let resume = Command::Resume { feed: "f".to_string() };
    assert!(matches!(run_command(Ok(&resume), &Vec::new(), Some((&target, true))), Step::Resume(_, _)));
    assert!(matches!(run_command(Ok(&resume), &Vec::new(), Some((&target, false))), Step::Denied(_, _)));
    assert!(matches!(run_command(Ok(&resume), &Vec::new(), None), Step::Answered(Err(_))));
    assert_eq!(resumed("f", true).expect("done").tag, "RESUME FEED f");
    assert_eq!(resumed("f", false).expect_err("refused").sqlstate, "42704");
}

#[test]
fn a_feed_that_stops_stays_stopped() {
    let ran = |published, stopped| Ok(Ran { published, quarantined: 0, sources: 1, stopped });
    let quiet = after_a_run("f", &ran(0, None));
    assert_eq!((quiet.said, quiet.complaint, quiet.halted), (None, None, None));
    let landed = after_a_run("f", &ran(2, None));
    assert_eq!(landed.said.as_deref(), Some("  feed `f`: 2 published, 0 quarantined, 1 source(s)"));
    let stopped = after_a_run("f", &ran(0, Some("shape".to_string())));
    assert_eq!(stopped.halted.as_deref(), Some("shape"));
    assert!(stopped.complaint.expect("said").ends_with("`RESUME FEED f`"));
    let refused = after_a_run("f", &Err("no table".to_string()));
    assert_eq!(refused.complaint.as_deref(), Some("  feed `f` refused — no table"));
    assert_eq!(refused.halted.as_deref(), Some("no table"));
}

fn definition(derived: bool, maintained: bool, supplied: Option<&str>) -> CubeDefinition {
    CubeDefinition {
        name: "c".to_string(),
        derived,
        maintained,
        measures: vec![MeasureRules {
            name: "m".to_string(),
            rules: vec![
                AlongRule { dimension: "region".to_string(), supplied: None },
                AlongRule { dimension: "period".to_string(), supplied: supplied.map(str::to_string) },
            ],
        }],
    }
}

#[test]
fn a_cube_is_made_only_of_what_its_maker_may_read() {
    let declared = vec![Aggregation { name: "wavg".to_string(), source: String::new(), composes: true }];
    let readable = vec![("s.a".to_string(), true)];
    assert_eq!(
        create(&definition(false, true, Some("wavg")), false, &readable, &declared),
        Ok(vec![vec![None, Some(true)]])
    );
    let refused = |definition: CubeDefinition, taken, tables: &Vec<(String, bool)>| {
        create(&definition, taken, tables, &declared).expect_err("refused").message
    };
    assert!(refused(definition(false, false, None), true, &readable).starts_with("`c` already exists."));
    let hidden = vec![("s.a".to_string(), true), ("s.b".to_string(), false)];
    assert_eq!(refused(definition(false, false, None), false, &hidden), "there is no table `s.b` to build a cube on");
    assert!(refused(definition(false, false, Some("gone")), false, &readable).contains("an aggregation called `gone`"));
    assert!(refused(definition(true, true, None), false, &readable).contains("is a derived result"));
    assert_eq!(created("c", true, &Vec::new(), None).expect("done").tag, "CREATE DERIVED");
    assert_eq!(created("c", false, &Vec::new(), None).expect("done").tag, "CREATE CUBE");
    assert_eq!(
        created("c", false, &names(&["x", "y"]), None).expect_err("refused").message,
        "the cube `c` was not created: x; y"
    );
    assert_eq!(created("c", false, &Vec::new(), Some("full")).expect_err("failed").sqlstate, "58030");
}

#[test]
fn what_a_query_reads_does_not_depend_on_the_walk() {
    assert_eq!(tables_read_by(Ok(names(&["b", "a", "b"]))), Ok(names(&["a", "b"])));
    assert_eq!(tables_read_by(Ok(names(&["a", "b"]))), Ok(names(&["a", "b"])));
    assert!(tables_read_by(Err("bad".to_string())).expect_err("refused").message.ends_with("reads: bad"));
}

#[test]
fn a_cube_is_dropped_by_the_word_for_what_it_is() {
    let cubes = vec![
        Held { name: "c".to_string(), derived: false, readable: true },
        Held { name: "d".to_string(), derived: true, readable: false },
    ];
    assert_eq!(remove(&cubes, "c", false, false), None);
    let absent = remove(&cubes, "c", false, true).expect("answered").expect_err("refused");
    assert_eq!(absent.message, "there is no derived result `c`");
    let hidden = remove(&cubes, "d", true, true).expect("answered").expect_err("refused");
    assert_eq!(hidden.message, "there is no derived result `d`");
    assert_eq!(remove(&cubes, "z", true, false).expect("answered").expect("done").tag, "DROP CUBE");
    assert_eq!(dropped(true, None, None).expect("done").tag, "DROP DERIVED");
    assert_eq!(dropped(false, Some("x"), None).expect_err("failed").sqlstate, "22000");
    assert_eq!(dropped(false, None, Some("x")).expect_err("failed").sqlstate, "58030");
    let derivable = |derived, readable| Derivable { derived, readable, fact: "(SELECT 1)".to_string() };
    assert_eq!(
        register_derived(&vec![derivable(false, true), derivable(true, false), derivable(true, true)]),
        vec![(2, "SELECT * FROM (SELECT 1) AS derived".to_string())]
    );
}

#[test]
fn a_graph_is_built_of_columns_that_are_there() {
    assert_eq!(bare_name("a.b.c"), "c");
    assert_eq!(bare_name("c"), "c");
    let table = |name: &str, unregistered: Option<&str>, unread: Option<&str>| GraphTable {
        table: name.to_string(),
        unregistered: unregistered.map(str::to_string),
        unread: unread.map(str::to_string),
    };
    let served = names(&["x", "c"]);
    assert_eq!(tables_read(&served, &vec![table("s.c", None, None), table("x", None, None)]), Ok(vec![1, 0]));
    assert_eq!(
        tables_read(&names(&["x"]), &vec![table("s.c", None, None)]),
        Err("it reads `s.c`, which this server does not serve".to_string())
    );
    assert_eq!(
        tables_read(&served, &vec![table("s.c", Some("taken"), None), table("no", None, None)]),
        Err("`s.c` could not be registered: taken".to_string())
    );
    let edge = |named: Vec<Option<&str>>, held: Result<Vec<String>, String>| EdgeColumns {
        edge_type: "knows".to_string(),
        table: "s.c".to_string(),
        named: named.into_iter().map(|column| column.map(str::to_string)).collect(),
        held,
    };
    let there = || Ok(names(&["src", "dst"]));
    let whole = || vec![edge(vec![Some("src"), Some("dst"), None], there())];
    assert_eq!(columns_there(&whole()), Ok(()));
    let missing = columns_there(&vec![edge(vec![Some("src"), Some("to")], there())]).expect_err("refused");
    assert!(missing.starts_with("its `knows` edge names column `to`, which `s.c` does not have --- it has [\"src\", \"dst\"]."));
    assert_eq!(
        columns_there(&vec![edge(vec![Some("src")], Err("gone".to_string()))]),
        Err("`s.c` could not be read: gone".to_string())
    );
    let versions = vec![
        (TableName { schema: "s".to_string(), table: "x".to_string() }, Some(4)),
        (TableName { schema: "s".to_string(), table: "c".to_string() }, Some(9)),
    ];
    let reads = || vec![table("c", None, None), table("x", None, None)];
    assert_eq!(hydrate(&served, &reads(), &whole(), None, &versions), Ok(9));
    assert_eq!(
        hydrate(&served, &reads(), &whole(), Some("over its budget".to_string()), &versions),
        Err("over its budget".to_string())
    );
    assert_eq!(
        hydrate(&served, &vec![table("c", None, Some("torn"))], &whole(), Some("over".to_string()), &versions),
        Err("reading `c`: torn".to_string())
    );
    assert_eq!(
        adopt(&vec![("g".to_string(), None), ("h".to_string(), Some("no".to_string()))]),
        names(&["the graph `h`: no"])
    );
}

#[test]
fn a_graph_is_shown_only_to_who_sees_every_row() {
    let seen = |readable, unrestricted, built| GraphSeen { readable, unrestricted, built };
    assert_eq!(
        visible_to(&vec![
            seen(true, true, true),
            seen(true, true, false),
            seen(true, false, true),
            seen(false, true, true),
        ]),
        vec![Sight::Shown, Sight::Waiting, Sight::Hidden, Sight::Hidden]
    );
}

#[test]
fn a_backup_that_was_kept_is_said_to_be_unproven() {
    let (lines, status) = recorded(Ok(("b-1".to_string(), 7)), "/d/b", None);
    assert_eq!(status, PROVEN);
    assert_eq!(
        lines,
        names(&[
            "",
            "  b-1",
            "  queryable at 7",
            "  manifest /d/b",
            "",
            "This backup is unproven until it has been drilled: `sankhya-server drill`.",
        ])
    );
    assert_eq!(recorded(Err("no key".to_string()), "/d/b", None), (names(&["\nno key"]), COULD_NOT_RUN));
    assert_eq!(
        recorded(Ok(("b-1".to_string(), 7)), "/d/b", Some("full".to_string())),
        (names(&["could not write /d/b: full"]), COULD_NOT_RUN)
    );
    assert_eq!(unreadable("/d/b", "gone"), ("  could not read /d/b: gone".to_string(), COULD_NOT_RUN));
}

#[test]
fn a_table_that_cannot_be_read_has_no_figure() {
    let table = |name: &str| TableName { schema: "s".to_string(), table: name.to_string() };
    let gauges = refresh_table_gauges(
        &vec![(table("a"), Some(3)), (table("b"), None), (table("c"), Some(0))],
        &Rejections { value_not_permitted: 1, label_not_declared: 2, label_missing: 3, over_cap: 4 },
    );
    assert_eq!(gauges.live_files, vec![("s.a".to_string(), 3), ("s.c".to_string(), 0)]);
    assert_eq!(
        gauges.rejected,
        vec![("value_not_permitted", 1), ("label_not_declared", 2), ("label_missing", 3), ("over_cap", 4)]
    );
}

#[test]
fn a_feed_is_reached_through_the_table_it_writes() {
    assert_eq!(reach(false, false, false), Reach::NoTarget);
    assert_eq!(reach(true, true, false), Reach::Readable);
    assert_eq!(reach(true, false, true), Reach::Missing);
    assert_eq!(reach(true, false, false), Reach::Hidden);
}
