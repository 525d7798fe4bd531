use sqf_project::discovery::{find, find_, find_from, identify, identify_, Probe, Snapshot};
use sqf_project::path::ProjectPath;
use sqf_project::survey::{
    find_needs, identify_needs, search_needs, siblings_need, workspace_needs, Request,
};
use tower_lsp::lsp_types::Url;
use sqf_project::table::FunctionTable;

fn path(text: &str) -> ProjectPath {
    let mut components: Vec<String> = Vec::new();
    if text.starts_with('/') {
        components.push("/".to_string());
    }
    components.extend(text.split('/').filter(|part| !part.is_empty()).map(|p| p.to_string()));
    ProjectPath { components }
}

fn table(name: &str) -> FunctionTable {
    let mut table = FunctionTable::new();
    table.insert(name.to_string(), format!("functions/fn_{}.sqf", name), (0, 1));
    table
}

/// A disk with the addons A and B under /ws/addons, a directory C without a
/// document, a mission under /ws/missions/M, and a broken document in /ws/broken.
fn probe(document: &ProjectPath) -> Probe {
    match document.display().as_str() {
        "/ws/addons/A/config.cpp" => Probe::Parsed(table("a")),
        "/ws/addons/B/config.cpp" => Probe::Parsed(table("b")),
        "/ws/missions/M/description.ext" => Probe::Parsed(table("m")),
        "/ws/broken/config.cpp" => Probe::Malformed,
        _ => Probe::Missing,
    }
}

fn list(directory: &ProjectPath) -> Vec<ProjectPath> {
    match directory.display().as_str() {
        "/ws/addons" => vec![path("/ws/addons/A"), path("/ws/addons/B"), path("/ws/addons/C")],
        "/ws/missions" => vec![path("/ws/missions/M")],
        _ => vec![],
    }
}

/// Serves requests until none is left, and returns them as text.
fn survey(snapshot: &mut Snapshot, next: impl Fn(&Snapshot) -> Option<Request>) -> Vec<String> {
    let mut asked = Vec::new();
    while let Some(request) = next(snapshot) {
        match request {
            Request::Probe(document) => {
                asked.push(format!("probe {}", document.display()));
                assert!(!snapshot.documents.contains(&document), "a document is asked for twice");
                let found = probe(&document);
                snapshot.record_probe(document, found);
            }
            Request::List(directory) => {
                asked.push(format!("list {}", directory.display()));
                assert!(!snapshot.directories.contains(&directory), "a listing is asked for twice");
                let found = list(&directory);
                snapshot.record_listing(directory, found);
            }
        }
        assert!(asked.len() < 100, "the survey does not end");
    }
    asked
}

#[test]
fn a_search_asks_for_the_nearest_document_first_and_stops_when_it_is_found() {
    let start = path("/ws/addons/A/functions/deep/fn_a.sqf");
    let mut snapshot = Snapshot::new();
    let asked = survey(&mut snapshot, |s| search_needs(&start, "config.cpp", 1, s).map(Request::Probe));
    assert_eq!(
        asked,
        vec![
            "probe /ws/addons/A/functions/deep/config.cpp",
            "probe /ws/addons/A/functions/config.cpp",
            "probe /ws/addons/A/config.cpp",
        ]
    );
    let (root, _) = identify_(start, "config.cpp", 1, &snapshot).expect("a package");
    assert_eq!(root.directory, path("/ws/addons/A"));
}

#[test]
fn a_search_asks_down_to_the_floor_and_no_further() {
    let start = path("/elsewhere/x/y/fn.sqf");
    let mut snapshot = Snapshot::new();
    let asked = survey(&mut snapshot, |s| search_needs(&start, "config.cpp", 3, s).map(Request::Probe));
    assert_eq!(asked, vec!["probe /elsewhere/x/y/config.cpp", "probe /elsewhere/x/config.cpp"]);
    assert!(identify_(start.clone(), "config.cpp", 3, &snapshot).is_none());
    let asked = survey(&mut snapshot, |s| search_needs(&start, "config.cpp", 0, s).map(Request::Probe));
    assert_eq!(asked, vec!["probe /elsewhere/config.cpp", "probe /config.cpp"]);
    // A relative path has no root to stop at: the search reaches the empty path.
    let relative = path("x/fn.sqf");
    let asked =
        survey(&mut snapshot, |s| search_needs(&relative, "config.cpp", 0, s).map(Request::Probe));
    assert_eq!(asked, vec!["probe x/config.cpp", "probe config.cpp"]);
    assert!(search_needs(&path("/a/b"), "config.cpp", 3, &Snapshot::new()).is_none());
}

#[test]
fn a_search_stops_asking_at_a_broken_document() {
    let start = path("/ws/broken/functions/fn.sqf");
    let mut snapshot = Snapshot::new();
    let asked = survey(&mut snapshot, |s| search_needs(&start, "config.cpp", 1, s).map(Request::Probe));
    assert_eq!(asked, vec!["probe /ws/broken/functions/config.cpp", "probe /ws/broken/config.cpp"]);
    assert!(identify_(start, "config.cpp", 1, &snapshot).is_none());
}

#[test]
fn identify_asks_for_missions_only_when_there_is_no_addon() {
    let start = path("/ws/addons/A/functions/fn_a.sqf");
    let mut snapshot = Snapshot::new();
    let asked = survey(&mut snapshot, |s| identify_needs(&start, 3, s));
    assert_eq!(asked, vec!["probe /ws/addons/A/functions/config.cpp", "probe /ws/addons/A/config.cpp"]);
    let (root, functions) = identify(start, 3, &snapshot).expect("a package");
    assert_eq!(root.document_path(), path("/ws/addons/A/config.cpp"));
    assert_eq!(functions.entry(0).name, "a");

    let start = path("/ws/missions/M/init.sqf");
    let mut snapshot = Snapshot::new();
    let asked = survey(&mut snapshot, |s| identify_needs(&start, 3, s));
    assert_eq!(
        asked,
        vec![
            "probe /ws/missions/M/config.cpp",
            "probe /ws/missions/config.cpp",
            "probe /ws/missions/M/description.ext",
        ]
    );
    let (root, functions) = identify(start, 3, &snapshot).expect("a package");
    assert_eq!(root.document_path(), path("/ws/missions/M/description.ext"));
    assert_eq!(functions.entry(0).name, "m");
}

#[test]
fn finding_siblings_asks_for_the_seed_the_listing_and_each_sibling() {
    let start = path("/ws/addons/A/config.cpp");
    let mut snapshot = Snapshot::new();
    let asked = survey(&mut snapshot, |s| siblings_need(&start, "config.cpp", 3, s));
    assert_eq!(
        asked,
        vec![
            "probe /ws/addons/A/config.cpp",
            "list /ws/addons",
            "probe /ws/addons/B/config.cpp",
            "probe /ws/addons/C/config.cpp",
        ]
    );
    let roots = find_(start, "config.cpp", 3, &snapshot);
    assert_eq!(roots.len(), 2);
    assert_eq!(roots[0].0.directory, path("/ws/addons/A"));
    assert_eq!(roots[1].0.directory, path("/ws/addons/B"));
}

#[test]
fn finding_siblings_without_a_seed_asks_for_no_listing() {
    let start = path("/elsewhere/x/y/fn.sqf");
    let mut snapshot = Snapshot::new();
    let asked = survey(&mut snapshot, |s| siblings_need(&start, "config.cpp", 3, s));
    assert_eq!(asked, vec!["probe /elsewhere/x/y/config.cpp", "probe /elsewhere/x/config.cpp"]);
    assert!(find_(start, "config.cpp", 3, &snapshot).is_empty());
}

#[test]
fn finding_a_workspace_asks_for_addons_and_then_for_missions() {
    let start = path("/ws/missions/M/init.sqf");
    let mut snapshot = Snapshot::new();
    let asked = survey(&mut snapshot, |s| workspace_needs(Some(&start), 3, s));
    assert_eq!(
        asked,
        vec![
            "probe /ws/missions/M/config.cpp",
            "probe /ws/missions/config.cpp",
            "probe /ws/missions/M/description.ext",
            "list /ws/missions",
        ]
    );
    let roots = find_from(Some(start), 3, &snapshot);
    assert_eq!(roots.len(), 1);
    assert_eq!(roots[0].0.document_path(), path("/ws/missions/M/description.ext"));
    assert!(workspace_needs(None, 3, &Snapshot::new()).is_none());
}

#[test]
fn what_is_seen_after_a_survey_does_not_change_the_answer() {
    let start = path("/ws/addons/A/functions/fn_a.sqf");
    let mut snapshot = Snapshot::new();
    survey(&mut snapshot, |s| workspace_needs(Some(&start), 3, s));
    let before = find_from(Some(start.clone()), 3, &snapshot);
    // More of the disk: a package far above, a mission elsewhere, another listing.
    snapshot.record_probe(path("/config.cpp"), Probe::Parsed(table("root")));
    snapshot.record_probe(path("/ws/missions/M/description.ext"), Probe::Parsed(table("m")));
    snapshot.record_listing(path("/ws/missions"), vec![path("/ws/missions/M")]);
    let after = find_from(Some(start), 3, &snapshot);
    assert_eq!(before.len(), 2);
    assert_eq!(after.len(), 2);
    assert_eq!(before[0].0, after[0].0);
    assert_eq!(before[1].0, after[1].0);
}

#[test]
fn find_asks_from_the_path_of_the_url() {
    let url = Url::parse("file:///ws/addons/A/functions/fn_a.sqf").unwrap();
    let mut snapshot = Snapshot::new();
    let asked = survey(&mut snapshot, |s| find_needs(&url, 3, s));
    assert_eq!(
        asked,
        vec![
            "probe /ws/addons/A/functions/config.cpp",
            "probe /ws/addons/A/config.cpp",
            "list /ws/addons",
            "probe /ws/addons/B/config.cpp",
            "probe /ws/addons/C/config.cpp",
            "probe /ws/addons/A/functions/description.ext",
            "probe /ws/addons/A/description.ext",
            "probe /ws/addons/description.ext",
        ]
    );
    let roots = find(&url, 3, &snapshot);
    assert_eq!(roots.len(), 2);
    assert_eq!(roots[0].0.directory, path("/ws/addons/A"));
    assert_eq!(roots[1].0.directory, path("/ws/addons/B"));
    let url = Url::parse("https://example.com/ws/addons/A/functions/fn_a.sqf").unwrap();
    assert!(find_needs(&url, 3, &Snapshot::new()).is_none());
}
