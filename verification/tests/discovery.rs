use sqf_project::discovery::{
    find, find_, find_from, identify, identify_, Probe, Snapshot, DEFAULT_FLOOR,
};
use sqf_project::package::{PackageRoot, ADDON_DOCUMENT, MISSION_DOCUMENT};
use sqf_project::path::ProjectPath;
use sqf_project::table::FunctionTable;
use tower_lsp::lsp_types::Url;

fn path(parts: &[&str]) -> ProjectPath {
    ProjectPath { components: parts.iter().map(|p| p.to_string()).collect() }
}

fn table(names: &[&str]) -> FunctionTable {
    let mut table = FunctionTable::new();
    for (i, name) in names.iter().enumerate() {
        table.insert(name.to_string(), format!("functions/fn_{}.sqf", name), (i * 10, i * 10 + 5));
    }
    table
}

fn root(parts: &[&str], document: &str) -> PackageRoot {
    PackageRoot { directory: path(parts), document: document.to_string() }
}

/// A workspace with the addons A and B, and a directory C without a document.
fn workspace() -> Snapshot {
    let mut snapshot = Snapshot::new();
    snapshot.record_probe(
        path(&["/", "ws", "addons", "A", "config.cpp"]),
        Probe::Parsed(table(&["a_one", "a_two"])),
    );
    snapshot.record_probe(
        path(&["/", "ws", "addons", "B", "config.cpp"]),
        Probe::Parsed(table(&["b_one"])),
    );
    snapshot.record_probe(path(&["/", "ws", "addons", "C", "config.cpp"]), Probe::Missing);
    snapshot.record_listing(
        path(&["/", "ws", "addons"]),
        vec![
            path(&["/", "ws", "addons", "A"]),
            path(&["/", "ws", "addons", "B"]),
            path(&["/", "ws", "addons", "C"]),
        ],
    );
    snapshot
}

#[test]
fn the_default_floor_is_three() {
    assert_eq!(DEFAULT_FLOOR, 3);
    assert_eq!(ADDON_DOCUMENT, "config.cpp");
    assert_eq!(MISSION_DOCUMENT, "description.ext");
}

#[test]
fn root_discovery_finds_the_package_of_a_function_file() {
    let mut snapshot = Snapshot::new();
    snapshot.record_probe(
        path(&["/", "ws", "addons", "Pkg", "config.cpp"]),
        Probe::Parsed(table(&["foo"])),
    );
    let file = path(&["/", "ws", "addons", "Pkg", "functions", "fn_foo.sqf"]);
    let (found, functions) = identify(file, DEFAULT_FLOOR, &snapshot).expect("a package");
    assert_eq!(found, root(&["/", "ws", "addons", "Pkg"], "config.cpp"));
    assert_eq!(found.document_path(), path(&["/", "ws", "addons", "Pkg", "config.cpp"]));
    assert_eq!(functions.len(), 1);
    assert_eq!(functions.entry(0).name, "foo");
    assert_eq!(functions.entry(0).path, "functions/fn_foo.sqf");
    assert_eq!(functions.entry(0).span, (0, 5));
}

#[test]
fn root_discovery_without_any_document_finds_nothing() {
    let snapshot = Snapshot::new();
    let file = path(&["/", "ws", "addons", "Pkg", "functions", "fn_foo.sqf"]);
    assert!(identify(file.clone(), DEFAULT_FLOOR, &snapshot).is_none());
    assert!(identify_(file.clone(), "config.cpp", DEFAULT_FLOOR, &snapshot).is_none());
    assert!(identify_(file, "description.ext", 0, &snapshot).is_none());
}

#[test]
fn root_discovery_takes_the_nearest_document() {
    let mut snapshot = Snapshot::new();
    snapshot.record_probe(path(&["/", "ws", "config.cpp"]), Probe::Parsed(table(&["outer"])));
    snapshot.record_probe(
        path(&["/", "ws", "addons", "Pkg", "config.cpp"]),
        Probe::Parsed(table(&["inner"])),
    );
    let file = path(&["/", "ws", "addons", "Pkg", "functions", "deep", "fn_foo.sqf"]);
    let (found, functions) = identify_(file, "config.cpp", 1, &snapshot).expect("a package");
    assert_eq!(found.directory, path(&["/", "ws", "addons", "Pkg"]));
    assert_eq!(functions.entry(0).name, "inner");
}

#[test]
fn root_discovery_does_not_start_in_the_path_it_is_given() {
    // The search starts at the parent: a document at the start path itself is not looked at.
    let mut snapshot = Snapshot::new();
    snapshot.record_probe(
        path(&["/", "ws", "addons", "Pkg", "config.cpp"]),
        Probe::Parsed(table(&["foo"])),
    );
    let start = path(&["/", "ws", "addons", "Pkg"]);
    assert!(identify_(start, "config.cpp", 1, &snapshot).is_none());
}

#[test]
fn root_discovery_stops_at_the_floor() {
    let mut snapshot = Snapshot::new();
    snapshot.record_probe(path(&["/", "ws", "config.cpp"]), Probe::Parsed(table(&["foo"])));
    let file = path(&["/", "ws", "addons", "Pkg", "fn_foo.sqf"]);
    // The directory /ws has two components: a floor of three keeps the search out of it.
    assert!(identify_(file.clone(), "config.cpp", 3, &snapshot).is_none());
    // A floor of two lets the search reach it.
    let (found, _) = identify_(file.clone(), "config.cpp", 2, &snapshot).expect("a package");
    assert_eq!(found.directory, path(&["/", "ws"]));
    // So does any lower floor.
    let (found, _) = identify_(file, "config.cpp", 0, &snapshot).expect("a package");
    assert_eq!(found.directory, path(&["/", "ws"]));
}

#[test]
fn root_discovery_of_a_short_path_finds_nothing() {
    let mut snapshot = Snapshot::new();
    snapshot.record_probe(path(&["config.cpp"]), Probe::Parsed(table(&["foo"])));
    assert!(identify_(ProjectPath::new(), "config.cpp", 0, &snapshot).is_none());
    assert!(identify_(path(&["/", "a", "b"]), "config.cpp", 3, &snapshot).is_none());
    // From a relative path of one component the search reaches the empty directory.
    let (found, _) = identify_(path(&["a"]), "config.cpp", 0, &snapshot).expect("a package");
    assert_eq!(found.directory, ProjectPath::new());
    assert_eq!(found.container(), ProjectPath::new());
}

#[test]
fn a_broken_document_ends_the_search() {
    let mut snapshot = Snapshot::new();
    snapshot.record_probe(path(&["/", "ws", "config.cpp"]), Probe::Parsed(table(&["outer"])));
    snapshot.record_probe(path(&["/", "ws", "addons", "Pkg", "config.cpp"]), Probe::Malformed);
    let file = path(&["/", "ws", "addons", "Pkg", "functions", "fn_foo.sqf"]);
    assert!(identify_(file, "config.cpp", 1, &snapshot).is_none());
    // From above the broken document the outer package is found.
    let above = path(&["/", "ws", "addons", "other.sqf"]);
    let (found, _) = identify_(above, "config.cpp", 1, &snapshot).expect("a package");
    assert_eq!(found.directory, path(&["/", "ws"]));
}

#[test]
fn a_later_probe_of_a_document_replaces_the_earlier_one() {
    let mut snapshot = Snapshot::new();
    let document = path(&["/", "ws", "addons", "Pkg", "config.cpp"]);
    snapshot.record_probe(document.clone(), Probe::Missing);
    snapshot.record_probe(document, Probe::Parsed(table(&["foo"])));
    let file = path(&["/", "ws", "addons", "Pkg", "fn_foo.sqf"]);
    assert!(identify_(file, "config.cpp", 1, &snapshot).is_some());
}

#[test]
fn identify_prefers_an_addon_to_a_mission() {
    let mut snapshot = Snapshot::new();
    snapshot.record_probe(path(&["/", "ws", "config.cpp"]), Probe::Parsed(table(&["addon"])));
    snapshot.record_probe(
        path(&["/", "ws", "mission", "description.ext"]),
        Probe::Parsed(table(&["mission"])),
    );
    let file = path(&["/", "ws", "mission", "init.sqf"]);
    let (found, functions) = identify(file, 1, &snapshot).expect("a package");
    assert_eq!(found, root(&["/", "ws"], "config.cpp"));
    assert_eq!(functions.entry(0).name, "addon");
}

#[test]
fn identify_falls_back_to_the_mission() {
    let mut snapshot = Snapshot::new();
    snapshot.record_probe(
        path(&["/", "ws", "mission", "description.ext"]),
        Probe::Parsed(table(&["mission"])),
    );
    let file = path(&["/", "ws", "mission", "init.sqf"]);
    let (found, functions) = identify(file, DEFAULT_FLOOR, &snapshot).expect("a package");
    assert_eq!(found, root(&["/", "ws", "mission"], "description.ext"));
    assert_eq!(functions.entry(0).name, "mission");
}

#[test]
fn sibling_discovery_finds_the_packages_and_skips_the_rest() {
    let snapshot = workspace();
    let seed = path(&["/", "ws", "addons", "A", "config.cpp"]);
    let roots = find_(seed, "config.cpp", DEFAULT_FLOOR, &snapshot);
    assert_eq!(roots.len(), 2);
    assert_eq!(roots[0].0, root(&["/", "ws", "addons", "A"], "config.cpp"));
    assert_eq!(roots[0].1.len(), 2);
    assert_eq!(roots[1].0, root(&["/", "ws", "addons", "B"], "config.cpp"));
    assert_eq!(roots[1].1.len(), 1);
    assert_eq!(roots[1].1.entry(0).name, "b_one");
}

#[test]
fn sibling_discovery_without_a_seed_finds_nothing() {
    let snapshot = workspace();
    let seed = path(&["/", "elsewhere", "x", "y", "file.sqf"]);
    assert!(find_(seed, "config.cpp", DEFAULT_FLOOR, &snapshot).is_empty());
    let seed = path(&["/", "ws", "addons", "A", "config.cpp"]);
    assert!(find_(seed, "description.ext", DEFAULT_FLOOR, &snapshot).is_empty());
}

#[test]
fn sibling_discovery_without_a_listing_finds_nothing() {
    let mut snapshot = Snapshot::new();
    snapshot.record_probe(
        path(&["/", "ws", "addons", "A", "config.cpp"]),
        Probe::Parsed(table(&["a_one"])),
    );
    let seed = path(&["/", "ws", "addons", "A", "config.cpp"]);
    assert!(find_(seed, "config.cpp", DEFAULT_FLOOR, &snapshot).is_empty());
}

#[test]
fn a_sibling_without_a_document_is_passed_over_whatever_lies_above() {
    let mut snapshot = workspace();
    snapshot.record_probe(path(&["/", "ws", "config.cpp"]), Probe::Parsed(table(&["top"])));
    snapshot.record_probe(path(&["/", "ws", "addons", "config.cpp"]), Probe::Parsed(table(&["mid"])));
    let seed = path(&["/", "ws", "addons", "A", "config.cpp"]);
    for floor in [0, 2, DEFAULT_FLOOR] {
        let roots = find_(seed.clone(), "config.cpp", floor, &snapshot);
        assert_eq!(roots.len(), 2);
        assert_eq!(roots[0].0, root(&["/", "ws", "addons", "A"], "config.cpp"));
        assert_eq!(roots[1].0, root(&["/", "ws", "addons", "B"], "config.cpp"));
    }
}

#[test]
fn two_siblings_without_a_document_add_nothing() {
    let mut snapshot = Snapshot::new();
    snapshot.record_probe(path(&["/", "w", "addons", "A", "config.cpp"]), Probe::Parsed(table(&["a"])));
    snapshot.record_probe(path(&["/", "w", "addons", "config.cpp"]), Probe::Parsed(table(&["up"])));
    snapshot.record_listing(
        path(&["/", "w", "addons"]),
        vec![
            path(&["/", "w", "addons", "C"]),
            path(&["/", "w", "addons", "A"]),
            path(&["/", "w", "addons", "D"]),
        ],
    );
    let seed = path(&["/", "w", "addons", "A", "config.cpp"]);
    let roots = find_(seed, "config.cpp", DEFAULT_FLOOR, &snapshot);
    assert_eq!(roots.len(), 1);
    assert_eq!(roots[0].0, root(&["/", "w", "addons", "A"], "config.cpp"));
    assert_eq!(roots[0].1.entry(0).name, "a");
}

#[test]
fn a_sibling_with_a_broken_document_is_passed_over() {
    let mut snapshot = workspace();
    snapshot.record_probe(path(&["/", "ws", "addons", "B", "config.cpp"]), Probe::Malformed);
    let seed = path(&["/", "ws", "addons", "A", "config.cpp"]);
    let roots = find_(seed, "config.cpp", DEFAULT_FLOOR, &snapshot);
    assert_eq!(roots.len(), 1);
    assert_eq!(roots[0].0, root(&["/", "ws", "addons", "A"], "config.cpp"));
}

#[test]
fn the_search_does_not_go_above_the_root() {
    let mut snapshot = Snapshot::new();
    snapshot.record_probe(path(&["config.cpp"]), Probe::Parsed(table(&["nowhere"])));
    // From an absolute path the search ends at the root, also without a floor.
    assert!(identify_(path(&["/", "a", "b.sqf"]), "config.cpp", 0, &snapshot).is_none());
    assert!(identify_(path(&["/"]), "config.cpp", 0, &snapshot).is_none());
    snapshot.record_probe(path(&["/", "config.cpp"]), Probe::Parsed(table(&["root"])));
    let (found, functions) =
        identify_(path(&["/", "a", "b.sqf"]), "config.cpp", 0, &snapshot).expect("a package");
    assert_eq!(found.directory, path(&["/"]));
    assert_eq!(found.container(), path(&["/"]));
    assert_eq!(functions.entry(0).name, "root");
}

#[test]
fn find_lists_addons_before_missions() {
    let mut snapshot = workspace();
    snapshot.record_probe(
        path(&["/", "ws", "addons", "A", "description.ext"]),
        Probe::Parsed(table(&["m_one"])),
    );
    let start = path(&["/", "ws", "addons", "A", "functions", "fn_x.sqf"]);
    let roots = find_from(Some(start), DEFAULT_FLOOR, &snapshot);
    assert_eq!(roots.len(), 3);
    assert_eq!(roots[0].0, root(&["/", "ws", "addons", "A"], "config.cpp"));
    assert_eq!(roots[1].0, root(&["/", "ws", "addons", "B"], "config.cpp"));
    assert_eq!(roots[2].0, root(&["/", "ws", "addons", "A"], "description.ext"));
    assert!(find_from(None, DEFAULT_FLOOR, &snapshot).is_empty());
}

#[test]
fn find_starts_from_the_path_of_the_url() {
    let snapshot = workspace();
    let url = Url::parse("file:///ws/addons/A/functions/fn_x.sqf").unwrap();
    let roots = find(&url, DEFAULT_FLOOR, &snapshot);
    assert_eq!(roots.len(), 2);
    assert_eq!(roots[0].0, root(&["/", "ws", "addons", "A"], "config.cpp"));
    assert_eq!(roots[1].0, root(&["/", "ws", "addons", "B"], "config.cpp"));
    // Another file gives another start: from outside the workspace nothing is found.
    let url = Url::parse("file:///other/addons/A/functions/fn_x.sqf").unwrap();
    assert!(find(&url, DEFAULT_FLOOR, &snapshot).is_empty());
}

#[test]
fn find_gives_what_find_underscore_gives_for_addons_and_then_for_missions() {
    let mut snapshot = workspace();
    snapshot.record_probe(
        path(&["/", "ws", "addons", "A", "description.ext"]),
        Probe::Parsed(table(&["m_one"])),
    );
    snapshot.record_probe(
        path(&["/", "ws", "addons", "C", "description.ext"]),
        Probe::Parsed(table(&["m_two"])),
    );
    let url = Url::parse("file:///ws/addons/A/functions/fn_x.sqf").unwrap();
    let start = path(&["/", "ws", "addons", "A", "functions", "fn_x.sqf"]);
    let addons = find_(start.clone(), "config.cpp", DEFAULT_FLOOR, &snapshot);
    let missions = find_(start, "description.ext", DEFAULT_FLOOR, &snapshot);
    assert_eq!(addons.len(), 2);
    assert_eq!(missions.len(), 2);
    let roots = find(&url, DEFAULT_FLOOR, &snapshot);
    assert_eq!(roots.len(), addons.len() + missions.len());
    let expected: Vec<&PackageRoot> = addons.iter().chain(missions.iter()).map(|r| &r.0).collect();
    let got: Vec<&PackageRoot> = roots.iter().map(|r| &r.0).collect();
    assert_eq!(got, expected);
    assert_eq!(roots[2].0, root(&["/", "ws", "addons", "A"], "description.ext"));
    assert_eq!(roots[3].0, root(&["/", "ws", "addons", "C"], "description.ext"));
    assert_eq!(roots[3].1.entry(0).name, "m_two");
}

#[test]
fn find_of_a_url_without_a_path_finds_nothing() {
    let snapshot = workspace();
    let url = Url::parse("https://example.com/ws/addons/A/functions/fn_x.sqf").unwrap();
    assert!(find(&url, DEFAULT_FLOOR, &snapshot).is_empty());
    let url = Url::parse("data:text/plain,config.cpp").unwrap();
    assert!(find(&url, DEFAULT_FLOOR, &snapshot).is_empty());
}
