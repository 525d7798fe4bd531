use sqf_project::path::ProjectPath;
use sqf_project::path_map::PathMap;
use sqf_project::symbol::symbol_eq;
use sqf_project::table::{Declaration, FunctionTable};

fn path(parts: &[&str]) -> ProjectPath {
    ProjectPath { components: parts.iter().map(|p| p.to_string()).collect() }
}

#[test]
fn symbols_compare_without_regard_to_ascii_case() {
    assert!(symbol_eq("BIS_fnc_init", "bis_FNC_Init"));
    assert!(symbol_eq("", ""));
    assert!(symbol_eq("azAZ09_", "AZaz09_"));
    assert!(!symbol_eq("fnc_a", "fnc_b"));
    assert!(!symbol_eq("fnc", "fnc_"));
    assert!(!symbol_eq("", "a"));
    // The characters next to the letters in ASCII are not letters.
    assert!(!symbol_eq("@", "`"));
    assert!(!symbol_eq("[", "{"));
}

#[test]
fn symbols_outside_ascii_compare_as_they_are() {
    assert!(symbol_eq("fnc_é", "FNC_é"));
    assert!(!symbol_eq("fnc_É", "fnc_é"));
}

#[test]
fn a_table_keeps_its_declarations_in_order() {
    let mut table = FunctionTable::new();
    assert_eq!(table.len(), 0);
    table.insert("fnc_b".to_string(), "b.sqf".to_string(), (1, 2));
    table.insert("fnc_a".to_string(), "a.sqf".to_string(), (3, 4));
    assert_eq!(table.len(), 2);
    assert_eq!(
        table.entry(0),
        &Declaration { name: "fnc_b".to_string(), path: "b.sqf".to_string(), span: (1, 2) }
    );
    assert_eq!(
        table.entry(1),
        &Declaration { name: "fnc_a".to_string(), path: "a.sqf".to_string(), span: (3, 4) }
    );
}

#[test]
fn a_later_declaration_of_a_symbol_replaces_the_earlier_one() {
    let mut table = FunctionTable::new();
    table.insert("fnc_a".to_string(), "a.sqf".to_string(), (1, 2));
    table.insert("fnc_b".to_string(), "b.sqf".to_string(), (3, 4));
    table.insert("FNC_A".to_string(), "other.sqf".to_string(), (5, 6));
    assert_eq!(table.len(), 2);
    assert_eq!(
        table.entry(0),
        &Declaration { name: "fnc_a".to_string(), path: "other.sqf".to_string(), span: (5, 6) }
    );
    assert_eq!(table.entry(1).path, "b.sqf");
}

#[test]
fn a_table_is_read_by_symbol() {
    let mut table = FunctionTable::new();
    table.insert("fnc_a".to_string(), "a.sqf".to_string(), (1, 2));
    table.insert("fnc_b".to_string(), "b.sqf".to_string(), (3, 4));
    assert_eq!(table.get("Fnc_B").map(|d| d.path.as_str()), Some("b.sqf"));
    assert_eq!(table.get("fnc_a").map(|d| d.span), Some((1, 2)));
    assert!(table.get("fnc_c").is_none());
    assert!(FunctionTable::new().get("fnc_a").is_none());
}

#[test]
fn a_copy_of_a_table_holds_the_same_declarations() {
    let mut table = FunctionTable::new();
    table.insert("fnc_a".to_string(), "a.sqf".to_string(), (1, 2));
    let mut copy = table.clone();
    copy.insert("fnc_b".to_string(), "b.sqf".to_string(), (3, 4));
    assert_eq!(table.len(), 1);
    assert_eq!(copy.len(), 2);
    assert_eq!(copy.entry(0), table.entry(0));
}

#[test]
fn a_path_map_keeps_the_last_value_written_to_a_path() {
    let mut map: PathMap<u32> = PathMap::new();
    assert_eq!(map.len(), 0);
    assert!(!map.contains(&path(&["a"])));
    map.insert(path(&["a"]), 1);
    map.insert(path(&["a", "b"]), 2);
    map.insert(path(&["a"]), 3);
    assert_eq!(map.len(), 2);
    assert_eq!(map.get(&path(&["a"])), Some(&3));
    assert_eq!(map.get(&path(&["a", "b"])), Some(&2));
    assert_eq!(map.get(&path(&["b"])), None);
    assert!(map.contains(&path(&["a", "b"])));
    assert_eq!(map.key(0), &path(&["a"]));
    assert_eq!(map.value(0), &3);
    assert_eq!(map.key(1), &path(&["a", "b"]));
    assert_eq!(map.into_entries(), vec![(path(&["a"]), 3), (path(&["a", "b"]), 2)]);
}

#[test]
fn paths_are_compared_by_component() {
    assert!(path(&["a", "b"]).equals(&path(&["a", "b"])));
    assert!(!path(&["a", "b"]).equals(&path(&["a"])));
    assert!(!path(&["a", "b"]).equals(&path(&["a", "c"])));
    assert!(!path(&["ab"]).equals(&path(&["a", "b"])));
    assert!(ProjectPath::new().equals(&path(&[])));
    // Paths are not symbols: case counts.
    assert!(!path(&["A"]).equals(&path(&["a"])));
}

#[test]
fn a_path_grows_and_shrinks_by_one_component() {
    let mut p = path(&["/", "ws"]);
    assert_eq!(p.depth(), 2);
    p.push("addons");
    assert_eq!(p, path(&["/", "ws", "addons"]));
    assert_eq!(p.join("A"), path(&["/", "ws", "addons", "A"]));
    assert_eq!(p.depth(), 3);
    assert!(p.pop());
    assert!(p.pop());
    // The root has no parent.
    assert!(!p.pop());
    assert_eq!(p, path(&["/"]));
    assert_eq!(p.depth(), 1);
    assert_eq!(p.clone(), p);
    // A relative path goes down to the empty path, which has no parent either.
    let mut q = path(&["a", "b"]);
    assert!(q.pop());
    assert!(q.pop());
    assert_eq!(q, ProjectPath::new());
    assert!(!q.pop());
    assert_eq!(q.depth(), 0);
}

#[test]
fn a_relative_path_is_joined_component_by_component() {
    let base = path(&["/", "ws"]);
    assert_eq!(base.join_path(&path(&["a", "b.sqf"])), path(&["/", "ws", "a", "b.sqf"]));
    assert_eq!(base.join_path(&ProjectPath::new()), base);
    assert_eq!(ProjectPath::new().join_path(&base), base);
}

#[test]
fn a_path_is_shown_with_slashes() {
    assert_eq!(path(&["/", "ws", "addons", "A"]).display(), "/ws/addons/A");
    assert_eq!(path(&["ws", "addons"]).display(), "ws/addons");
    assert_eq!(path(&["/"]).display(), "/");
    assert_eq!(path(&["/", "ws"]).display(), "/ws");
    assert_eq!(path(&["a"]).display(), "a");
    assert_eq!(ProjectPath::new().display(), "");
    assert_eq!(path(&["a", "/", "b"]).display(), "a///b");
}
