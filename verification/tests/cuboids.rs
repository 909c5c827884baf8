use sankhya::cuboids::{
    advance, asked_of_materialisation, built_name, cuboid_root, from_a_cuboid, grain_needed, materialised,
    materialised_shapes, memory_answers, mentions_a_cube_function, newest_snapshot, refresh_maintained_cubes,
    register_cubes, retire_superseded_cuboids, roll_to, scope_across, serve, snapshot_across, snapshot_of,
    wanted_shapes, Building, CubeRead, EstimatedCost, Maintained, Session, Source, StoredKey,
};
use sankhya::execute::TableName;
use sankhya::warehouse::Place;

fn names(list: &[&str]) -> Vec<String> {
    list.iter().map(|name| (*name).to_string()).collect()
}

fn table(name: &str) -> TableName {
    TableName { schema: "s".to_string(), table: name.to_string() }
}

#[test]
fn the_grain_is_what_is_grouped_by_and_what_is_restricted() {
    assert_eq!(
        grain_needed("SELECT * FROM cube_rollup('sales', 'by=region| period,where=product:x|region:north')"),
        names(&["period", "product", "region"])
    );
    assert_eq!(grain_needed("by=a by=b'"), names(&["a by=b"]));
    assert_eq!(grain_needed("by=a) by=b"), names(&["a", "b"]));
    assert!(grain_needed("by=,where=|").is_empty());
    assert!(mentions_a_cube_function("select cube_slice(1)"));
    assert!(!mentions_a_cube_function("select 1"));
}

#[test]
fn a_statement_only_ever_asks_for_less() {
    assert_eq!(asked_of_materialisation("x MATERIALISE = False"), Session::Off);
    assert_eq!(asked_of_materialisation("materialise=pinned"), Session::PinnedOnly);
    assert_eq!(asked_of_materialisation("materialise=everything"), Session::AsConfigured);
}

#[test]
fn a_narrower_cuboid_is_cheaper() {
    assert_eq!(EstimatedCost.rows(0), 1);
    assert_eq!(EstimatedCost.rows(3), 1_000_000);
    assert_eq!(EstimatedCost.rows(9), 1_000_000_000_000_000_000);
    assert_eq!(EstimatedCost.rows(10), u64::MAX);
    assert_eq!(EstimatedCost.rows(usize::MAX), u64::MAX);
}

#[test]
fn a_snapshot_is_the_newest_of_what_is_read() {
    let tables = vec![(table("a"), Some(3)), (table("b"), None), (table("a"), Some(9)), (table("c"), Some(5))];
    assert_eq!(snapshot_of(&tables, "a"), 3);
    assert_eq!(snapshot_of(&tables, "b"), 0);
    assert_eq!(snapshot_of(&tables, "z"), 0);
    assert_eq!(snapshot_across(&tables, &names(&["a", "c", "z"])), 5);
    assert_eq!(newest_snapshot(&vec![Some(2), None, Some(7)]), 7);
    assert_eq!(newest_snapshot(&Vec::new()), 0);
}

#[test]
fn one_scope_apart_is_another_key() {
    assert_eq!(scope_across(&Vec::new()), Some(0xcbf2_9ce4_8422_2325));
    let folded = (0xcbf2_9ce4_8422_2325u64 ^ 7).wrapping_mul(0x0000_0100_0000_01b3);
    assert_eq!(scope_across(&vec![Some(7)]), Some(folded));
    assert_ne!(scope_across(&vec![Some(1), Some(2)]), scope_across(&vec![Some(1), Some(3)]));
    assert_ne!(scope_across(&vec![Some(1), Some(2)]), scope_across(&vec![Some(2), Some(1)]));
    assert_eq!(scope_across(&vec![Some(1), None]), None);
}

#[test]
fn only_what_is_not_kept_is_rolled_away() {
    assert_eq!(roll_to(&names(&["a", "b", "c"]), &names(&["c", "a"])), names(&["b"]));
    assert!(roll_to(&names(&["a"]), &names(&["a"])).is_empty());
}

#[test]
fn pinned_shapes_are_held_each_once() {
    let held = wanted_shapes(
        &names(&["a", "b"]),
        &vec![names(&["a"]), names(&["a", "b"])],
        &vec![names(&["b"]), names(&["a"])],
    );
    assert_eq!(held, vec![names(&["a", "b"]), names(&["a"]), names(&["b"])]);
}

fn cube(name: &str, scope: Option<u64>, unrestricted: bool) -> CubeRead {
    CubeRead {
        name: name.to_string(),
        version: 2,
        measures: names(&["m", "n"]),
        snapshot: 5,
        scope,
        unrestricted,
    }
}

#[test]
fn only_cubes_that_are_named_and_readable_are_filled() {
    let cubes = vec![cube("sales", Some(8), true), cube("hidden", None, true), cube("other", Some(9), false)];
    let wanted = register_cubes("select cube_rollup('sales hidden')", &cubes, 4);
    assert_eq!(wanted.len(), 2);
    assert_eq!(wanted[1].key.measure, "n");
    assert_eq!((wanted[0].key.scope, wanted[0].key.pin, wanted[0].key.snapshot), (8, 4, 5));
    assert_eq!(wanted[0].scopes, vec![8, 0]);
    assert!(register_cubes("select sales", &cubes, 4).is_empty());
    assert_eq!(register_cubes("cube_slice other", &cubes, 0)[0].scopes, vec![9]);
}

#[test]
fn base_data_means_base_data() {
    assert!(memory_answers(Session::AsConfigured, Some(true)));
    assert!(!memory_answers(Session::Off, Some(true)));
    assert!(memory_answers(Session::Off, Some(false)));
    assert_eq!(serve(Session::Off, Some(true), &vec![false, false]), Source::FactTable);
    assert_eq!(serve(Session::AsConfigured, None, &vec![false, true]), Source::Cuboid(1));
    assert_eq!(serve(Session::AsConfigured, Some(true), &vec![true]), Source::Memory);
}

fn stored(definition: u64, scope: u64, cuboid: &[&str]) -> StoredKey {
    StoredKey { definition, snapshot: 5, scope, measure: "m".to_string(), cuboid: names(cuboid) }
}

#[test]
fn stored_shapes_come_in_order() {
    let entries = vec![
        Some(("sales".to_string(), stored(2, 0, &["b"]))),
        None,
        Some(("sales".to_string(), stored(1, 0, &["z"]))),
        Some(("other".to_string(), stored(2, 0, &["z"]))),
        Some(("sales".to_string(), stored(2, 0, &["a", "b"]))),
        Some(("sales".to_string(), stored(2, 0, &["a"]))),
        Some(("sales".to_string(), stored(2, 1, &["a"]))),
    ];
    assert_eq!(
        materialised_shapes(&entries, "sales", 2, 5, 0),
        vec![names(&["a"]), names(&["a", "b"]), names(&["b"])]
    );
}

#[test]
fn a_cuboid_answers_only_where_it_may() {
    let usable = vec![names(&["a"])];
    let planned = names(&["a"]);
    assert_eq!(from_a_cuboid(2, 5, 0, "m", &usable, Some(&planned)), Some(stored(2, 0, &["a"])));
    assert_eq!(from_a_cuboid(2, 5, 0, "m", &usable, None), None);
    assert_eq!(from_a_cuboid(2, 5, 0, "m", &Vec::new(), Some(&planned)), None);
    assert_eq!(materialised(true, true, &vec![Some(4), Some(4)]), Some(4));
    assert_eq!(materialised(true, true, &vec![Some(4), Some(5)]), None);
    assert_eq!(materialised(true, true, &vec![Some(4), None]), None);
    assert_eq!(materialised(true, true, &Vec::new()), None);
    assert_eq!(materialised(false, true, &vec![Some(4)]), None);
    assert_eq!(materialised(true, false, &vec![Some(4)]), None);
    let root = cuboid_root(&Place { absolute: true, parts: names(&["w"]) }, "t");
    assert_eq!(root.text(), "/w/_cubes/t");
}

#[test]
fn each_measure_has_cuboids_of_its_own() {
    let kept = |maintained| Maintained {
        name: "sales".to_string(),
        version: 2,
        snapshot: 5,
        maintained,
        measures: names(&["m", "n"]),
        wanted: vec![names(&["a"]), names(&["b"])],
    };
    let jobs = refresh_maintained_cubes(&vec![kept(false), kept(true)]);
    let named: Vec<(String, Vec<String>)> = jobs.iter().map(|job| (built_name(job), job.key.cuboid.clone())).collect();
    assert_eq!(
        named,
        vec![
            ("sales.m".to_string(), names(&["a"])),
            ("sales.m".to_string(), names(&["b"])),
            ("sales.n".to_string(), names(&["a"])),
            ("sales.n".to_string(), names(&["b"])),
        ]
    );
    assert!(jobs.iter().all(|job| job.key.scope == 0));
}

#[test]
fn a_cuboid_that_cannot_be_built_exactly_is_not_built() {
    let mut building = Building::Looking;
    for happened in [false, true, true, true, true] {
        building = advance(building, happened);
    }
    assert_eq!(building, Building::Built);
    assert_eq!(advance(Building::Looking, true), Building::Skipped);
    assert_eq!(advance(Building::Rolling, false), Building::Skipped);
    assert_eq!(advance(Building::Skipped, true), Building::Skipped);
}

#[test]
fn nothing_is_swept_where_there_are_no_cubes() {
    assert!(retire_superseded_cuboids(&Vec::new()).is_none());
    let current = retire_superseded_cuboids(&vec![("b".to_string(), 2), ("a".to_string(), 1), ("b".to_string(), 3)])
        .expect("some");
    assert_eq!(current.entries(), &vec![("a".to_string(), 1), ("b".to_string(), 3)]);
}
