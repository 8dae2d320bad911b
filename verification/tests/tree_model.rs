use roe::tree::{build_path, split_path, truncate, JsonTree, NodeKind, PathSet};
use roe::value::{parse_path_parts, JsonEntry, JsonValue};

fn chars_of(s: &str) -> Vec<char> {
    s.chars().collect()
}

fn num(n: &str) -> JsonValue {
    JsonValue::Number(n.to_string())
}

fn text(s: &str) -> JsonValue {
    JsonValue::String(s.to_string())
}

fn obj(members: Vec<(&str, JsonValue)>) -> JsonValue {
    JsonValue::Object(members.into_iter().map(|(k, v)| JsonEntry { key: k.to_string(), value: v }).collect())
}

fn display_at(tree: &JsonTree, path: &str) -> Option<String> {
    tree.index_of_path(path).map(|i| tree.flat_nodes()[i].value_display())
}

#[test]
fn test_flatten_simple() {
    let v = obj(vec![("a", num("1")), ("b", text("hello"))]);
    let tree = JsonTree::from_value(v, PathSet::new());
    assert_eq!(tree.visible_node_count(), 3);
}

#[test]
fn test_collapse() {
    let v = obj(vec![("a", obj(vec![("x", num("1"))]))]);
    let mut tree = JsonTree::from_value(v, PathSet::new());
    assert_eq!(tree.visible_node_count(), 3);
    tree.toggle_collapse(1);
    assert_eq!(tree.visible_node_count(), 2);
}

#[test]
fn test_split_path() {
    assert_eq!(split_path("foo.bar").unwrap(), ("foo".to_string(), "bar".to_string()));
    assert_eq!(split_path("foo[2]").unwrap(), ("foo".to_string(), "2".to_string()));
    assert_eq!(split_path("foo").unwrap(), ("".to_string(), "foo".to_string()));
}

#[test]
fn split_of_empty_path_is_an_error() {
    assert_eq!(split_path(""), Err("Cannot split empty path".to_string()));
}

#[test]
fn child_paths_split_back() {
    let p = build_path(&chars_of("users[0]"), &chars_of("name"));
    let p: String = p.into_iter().collect();
    assert_eq!(p, "users[0].name");
    assert_eq!(split_path(&p).unwrap(), ("users[0]".to_string(), "name".to_string()));
    let q: String = build_path(&chars_of("items"), &chars_of("3")).into_iter().collect();
    assert_eq!(q, "items[3]");
    assert_eq!(split_path(&q).unwrap(), ("items".to_string(), "3".to_string()));
    let top: String = build_path(&chars_of(""), &chars_of("root")).into_iter().collect();
    assert_eq!(top, "root");
    assert_eq!(split_path(&top).unwrap(), ("".to_string(), "root".to_string()));
}

#[test]
fn rows_are_in_document_order_with_paths() {
    let v = obj(vec![
        ("list", JsonValue::Array(vec![num("10"), JsonValue::Bool(true)])),
        ("name", text("x")),
        ("none", JsonValue::Null),
    ]);
    let tree = JsonTree::from_value(v, PathSet::new());
    let paths: Vec<String> = tree.flat_nodes().iter().map(|n| n.path.clone()).collect();
    assert_eq!(paths, vec!["", "list", "list[0]", "list[1]", "name", "none"]);
    let shown: Vec<String> = tree.flat_nodes().iter().map(|n| n.value_display()).collect();
    assert_eq!(shown, vec!["{3}", "[2]", "10", "true", "\"x\"", "null"]);
    assert_eq!(tree.flat_nodes()[1].kind, NodeKind::Array { child_count: 2 });
    assert_eq!(tree.flat_nodes()[2].depth, 2);
}

#[test]
fn set_then_read_gives_the_value() {
    let v = obj(vec![("a", obj(vec![("x", num("1"))]))]);
    let mut tree = JsonTree::from_value(v, PathSet::new());
    assert_eq!(tree.set_value_at_path("a.x", num("2")), Ok(()));
    assert_eq!(display_at(&tree, "a.x"), Some("2".to_string()));
    assert_eq!(tree.set_value_at_path("a.y", text("new")), Ok(()));
    assert_eq!(display_at(&tree, "a.y"), Some("\"new\"".to_string()));
    assert_eq!(tree.set_value_at_path("", num("7")), Ok(()));
    assert_eq!(tree.root(), &num("7"));
}

#[test]
fn edit_errors_name_the_problem() {
    let v = obj(vec![("a", obj(vec![("x", num("1"))])), ("l", JsonValue::Array(vec![num("1")]))]);
    let mut tree = JsonTree::from_value(v, PathSet::new());
    assert_eq!(tree.set_value_at_path("a.x.z", num("2")), Err("Cannot set value at scalar node 'a.x'".to_string()));
    assert_eq!(tree.set_value_at_path("b.c", num("2")), Err("Key 'b' not found".to_string()));
    assert_eq!(tree.set_value_at_path("l[5]", num("2")), Err("Index 5 out of range".to_string()));
    assert_eq!(tree.set_value_at_path("l.q", num("2")), Err("'q' is not a valid index".to_string()));
    assert_eq!(tree.set_value_at_path("a.x.z.w", num("2")), Err("Cannot index into scalar at 'z'".to_string()));
    assert_eq!(tree.delete_at_path(""), Err("Cannot delete root".to_string()));
    assert_eq!(tree.delete_at_path("a.q"), Err("Key 'q' not found".to_string()));
    assert_eq!(tree.delete_at_path("a.x.y"), Err("Cannot delete from scalar".to_string()));
    assert_eq!(
        tree.add_key("a.x", "k".to_string(), num("1")),
        Err("Node at 'a.x' is not an object or array".to_string())
    );
    assert_eq!(tree.rename_key_at_path("l[0]", "k".to_string()), Err("Parent at 'l' is not an object".to_string()));
    assert_eq!(tree.rename_key_at_path("a.q", "k".to_string()), Err("Key 'q' not found".to_string()));
}

#[test]
fn add_then_read_gives_the_value() {
    let v = obj(vec![("a", obj(vec![])), ("l", JsonValue::Array(vec![num("1")]))]);
    let mut tree = JsonTree::from_value(v, PathSet::new());
    assert_eq!(tree.add_key("a", "k".to_string(), text("v")), Ok(()));
    assert_eq!(display_at(&tree, "a.k"), Some("\"v\"".to_string()));
    assert_eq!(tree.add_key("l", "ignored".to_string(), num("9")), Ok(()));
    assert_eq!(display_at(&tree, "l[1]"), Some("9".to_string()));
    assert_eq!(display_at(&tree, "l"), Some("[2]".to_string()));
}

#[test]
fn rename_keeps_the_value() {
    let v = obj(vec![("a", obj(vec![("x", num("1")), ("y", num("2"))]))]);
    let mut tree = JsonTree::from_value(v, PathSet::new());
    assert_eq!(tree.rename_key_at_path("a.x", "z".to_string()), Ok(()));
    assert_eq!(display_at(&tree, "a.z"), Some("1".to_string()));
    assert_eq!(display_at(&tree, "a.x"), None);
    let keys: Vec<String> = tree.flat_nodes().iter().map(|n| n.key.clone()).collect();
    assert_eq!(keys, vec!["", "a", "y", "z"]);
}

#[test]
fn delete_removes_the_node() {
    let v = obj(vec![("a", num("1")), ("l", JsonValue::Array(vec![num("1"), num("2")]))]);
    let mut tree = JsonTree::from_value(v, PathSet::new());
    assert_eq!(tree.delete_at_path("a"), Ok(()));
    assert_eq!(tree.delete_at_path("l[0]"), Ok(()));
    let paths: Vec<String> = tree.flat_nodes().iter().map(|n| n.path.clone()).collect();
    assert_eq!(paths, vec!["", "l", "l[0]"]);
    assert_eq!(display_at(&tree, "l[0]"), Some("2".to_string()));
}

#[test]
fn search_shows_matches_and_their_ancestors() {
    let v = obj(vec![
        ("a", obj(vec![("needle", num("1")), ("other", num("2"))])),
        ("b", obj(vec![("c", text("Needle here"))])),
        ("d", num("3")),
    ]);
    let mut tree = JsonTree::from_value(v, PathSet::new());
    tree.set_search("NEEDLE");
    let rows: Vec<(String, bool)> = tree.flat_nodes().iter().map(|n| (n.path.clone(), n.search_match)).collect();
    assert_eq!(
        rows,
        vec![
            ("".to_string(), false),
            ("a".to_string(), false),
            ("a.needle".to_string(), true),
            ("b".to_string(), false),
            ("b.c".to_string(), true),
        ]
    );
    assert_eq!(tree.first_search_match(), Some(2));
    tree.clear_search();
    assert_eq!(tree.visible_node_count(), 7);
}

#[test]
fn toggling_twice_restores_the_rows() {
    let v = obj(vec![("a", obj(vec![("x", num("1"))])), ("b", num("2"))]);
    let mut tree = JsonTree::from_value(v, PathSet::new());
    let before: Vec<String> = tree.flat_nodes().iter().map(|n| n.path.clone()).collect();
    assert!(tree.toggle_collapse(1));
    assert_eq!(tree.visible_node_count(), 3);
    assert!(tree.toggle_collapse(1));
    let after: Vec<String> = tree.flat_nodes().iter().map(|n| n.path.clone()).collect();
    assert_eq!(before, after);
    assert!(!tree.toggle_collapse(3));
    assert!(!tree.toggle_collapse(99));
}

#[test]
fn expand_to_path_opens_the_ancestors() {
    let v = obj(vec![("a", obj(vec![("b", obj(vec![("c", num("1"))]))]))]);
    let mut coll = PathSet::new();
    coll.insert("a".to_string());
    coll.insert("a.b".to_string());
    let mut tree = JsonTree::from_value(v, coll);
    assert_eq!(tree.visible_node_count(), 2);
    tree.expand_to_path("a.b.c");
    assert_eq!(tree.visible_node_count(), 4);
    assert_eq!(tree.index_of_path("a.b.c"), Some(3));
}

#[test]
fn long_strings_are_cut_for_display() {
    assert_eq!(truncate("hello", 10), "hello");
    assert_eq!(truncate("hello", 3), "hel");
    let wide = format!("{}\u{e9}", "a".repeat(59));
    assert_eq!(truncate(&wide, 60), "a".repeat(59));
    assert_eq!(truncate(&wide, 61), wide);
    assert_eq!(truncate("\u{e9}\u{e9}", 3), "\u{e9}");
    let long = "x".repeat(70);
    let v = obj(vec![("s", text(&long))]);
    let tree = JsonTree::from_value(v, PathSet::new());
    assert_eq!(tree.flat_nodes()[1].value_display(), format!("\"{}\"", "x".repeat(60)));
}

#[test]
fn lines_pick_the_row_under_the_cursor() {
    let v = obj(vec![("a", num("1")), ("b", num("2"))]);
    let mut tree = JsonTree::from_value(v, PathSet::new());
    tree.sync_line_numbers(|p: &str| match p {
        "" => Some(0),
        "a" => Some(1),
        "b" => Some(2),
        _ => None,
    });
    assert_eq!(tree.find_node_at_line(0), Some(0));
    assert_eq!(tree.find_node_at_line(1), Some(1));
    assert_eq!(tree.find_node_at_line(5), Some(2));
}

#[test]
fn search_and_edits_work_with_wide_characters() {
    let wide = format!("{}\u{e9}{}", "a".repeat(59), "b".repeat(5));
    let v = obj(vec![("s", text(&wide)), ("k", num("1"))]);
    let mut tree = JsonTree::from_value(v, PathSet::new());
    tree.set_search("aaa");
    assert_eq!(tree.visible_node_count(), 2);
    assert_eq!(tree.flat_nodes()[1].value_display(), format!("\"{}\"", "a".repeat(59)));
    assert!(tree.set_value_at_path("k", num("2")).is_ok());
    assert_eq!(display_at(&tree, "s"), Some(format!("\"{}\"", "a".repeat(59))));
    assert!(tree.add_key("", "n".to_string(), num("5")).is_ok());
    assert!(tree.rename_key_at_path("k", "kk".to_string()).is_ok());
    assert!(tree.delete_at_path("kk").is_ok());
    assert!(tree.index_of_path("s").is_some());
}

#[test]
fn paths_built_from_keys_split_back_into_them() {
    let keys = ["users", "0", "name", "1", "2", "x"];
    let mut path: Vec<char> = Vec::new();
    for k in keys {
        path = build_path(&path, &chars_of(k));
    }
    assert_eq!(path.iter().collect::<String>(), "users[0].name[1][2].x");
    let parts: Vec<String> = parse_path_parts(&path).into_iter().map(|p| p.into_iter().collect()).collect();
    assert_eq!(parts, keys.to_vec());
    let single = build_path(&Vec::new(), &chars_of("7"));
    assert_eq!(parse_path_parts(&single), vec![chars_of("7")]);
}

#[test]
fn every_value_gets_one_row_in_pre_order() {
    let v = obj(vec![
        ("a", JsonValue::Array(vec![num("1"), num("2")])),
        ("b", obj(vec![("c", JsonValue::Null)])),
    ]);
    let tree = JsonTree::from_value(v, PathSet::new());
    let rows: Vec<(String, usize)> = tree.flat_nodes().iter().map(|n| (n.path.clone(), n.depth)).collect();
    assert_eq!(
        rows,
        vec![
            ("".to_string(), 0),
            ("a".to_string(), 1),
            ("a[0]".to_string(), 2),
            ("a[1]".to_string(), 2),
            ("b".to_string(), 1),
            ("b.c".to_string(), 2),
        ]
    );
    let scalar = JsonTree::from_value(num("5"), PathSet::new());
    assert_eq!(scalar.visible_node_count(), 1);
}

#[test]
fn search_results_keep_document_order_without_repeats() {
    let v = obj(vec![
        ("x", obj(vec![("hit", num("1")), ("hit2", num("2"))])),
        ("y", text("hit")),
    ]);
    let mut tree = JsonTree::from_value(v, PathSet::new());
    tree.set_search("hit");
    let paths: Vec<String> = tree.flat_nodes().iter().map(|n| n.path.clone()).collect();
    assert_eq!(paths, vec!["", "x", "x.hit", "x.hit2", "y"]);
}

#[test]
fn expanding_reaches_a_node_inside_collapsed_arrays() {
    let item = |n: &str| obj(vec![("name", text(n))]);
    let v = obj(vec![("items", JsonValue::Array(vec![item("x"), item("y")])), ("z", num("0"))]);
    let mut coll = PathSet::new();
    coll.insert("items".to_string());
    coll.insert("items[1]".to_string());
    coll.insert("z".to_string());
    let mut tree = JsonTree::from_value(v, coll);
    assert_eq!(tree.index_of_path("items[1].name"), None);
    tree.expand_to_path("items[1].name");
    assert_eq!(tree.index_of_path("items[1].name"), Some(5));
    let paths: Vec<String> = tree.flat_nodes().iter().map(|n| n.path.clone()).collect();
    assert_eq!(paths, vec!["", "items", "items[0]", "items[0].name", "items[1]", "items[1].name", "z"]);
}

#[test]
fn toggling_a_row_twice_restores_the_rows() {
    let v = obj(vec![("a", obj(vec![("x", num("1")), ("y", num("2"))])), ("b", JsonValue::Array(vec![num("3")]))]);
    let mut tree = JsonTree::from_value(v, PathSet::new());
    let before: Vec<(String, bool)> = tree.flat_nodes().iter().map(|n| (n.path.clone(), n.collapsed)).collect();
    assert!(tree.toggle_collapse(1));
    assert_eq!(tree.visible_node_count(), 4);
    assert_eq!(tree.flat_nodes()[1].path, "a");
    assert!(tree.flat_nodes()[1].collapsed);
    assert!(tree.toggle_collapse(1));
    let after: Vec<(String, bool)> = tree.flat_nodes().iter().map(|n| (n.path.clone(), n.collapsed)).collect();
    assert_eq!(after, before);
    assert!(!tree.toggle_collapse(2));
    assert!(!tree.toggle_collapse(99));
}
