use roe::render::{
    about_area, about_lines, build_picker_item, build_status_parts, build_tree_item, centered_rect, centered_top,
    fmt_badge, highlight_json_line, kb_line, pane_border, raw_badge, status_split, tree_placeholder, Area, Segment,
    Tint,
};
use roe::session::prettify_initial;
use roe::state::{AppState, FileEntry, Mode};
use roe::tree::{JsonTree, PathSet};
use roe::value::{JsonEntry, JsonValue};

fn texts(segs: &[Segment]) -> Vec<String> {
    segs.iter().map(|s| s.text.clone()).collect()
}

fn tints(segs: &[Segment]) -> Vec<Tint> {
    segs.iter().map(|s| s.tint).collect()
}

#[test]
fn json_lines_are_coloured_by_token() {
    let line = highlight_json_line("  \"a\": \"b\", \"n\": -1.5e3, \"t\": true, \"z\": null");
    assert_eq!(
        texts(&line),
        vec![
            " ", " ", "\"a\"", ":", " ", "\"b\"", ",", " ", "\"n\"", ":", " ", "-1.5e3", ",", " ", "\"t\"", ":", " ",
            "true", ",", " ", "\"z\"", ":", " ", "null"
        ]
    );
    assert_eq!(line[2].tint, Tint::Yellow);
    assert_eq!(line[5].tint, Tint::Green);
    assert_eq!(line[11].tint, Tint::Cyan);
    assert_eq!(line[17].tint, Tint::Magenta);
    assert_eq!(line[23].tint, Tint::Magenta);
    assert_eq!(line[3].tint, Tint::White);
    let odd = highlight_json_line("nope x");
    assert_eq!(texts(&odd), vec!["nope", " ", "x"]);
    assert_eq!(odd[0].tint, Tint::Reset);
    assert_eq!(odd[2].tint, Tint::Default);
}

#[test]
fn tree_rows_show_key_value_and_hint() {
    let v = JsonValue::Object(vec![
        JsonEntry { key: "list".to_string(), value: JsonValue::Array(vec![JsonValue::Number("1".to_string())]) },
        JsonEntry { key: "s".to_string(), value: JsonValue::String("hi".to_string()) },
    ]);
    let mut coll = PathSet::new();
    coll.insert("list".to_string());
    let tree = JsonTree::from_value(v, coll);
    let rows = tree.flat_nodes();
    let (root, selected) = build_tree_item(&rows[0], true);
    assert!(selected);
    assert_eq!(texts(&root), vec!["", "▼ ", "(root)", "", "{", " (2 keys)"]);
    let (list, _) = build_tree_item(&rows[1], false);
    assert_eq!(texts(&list), vec!["  ", "▶ ", "list", ": ", "[ 1 item ]", ""]);
    assert_eq!(list[2].tint, Tint::Yellow);
    let (s, _) = build_tree_item(&rows[2], false);
    assert_eq!(texts(&s), vec!["  ", "  ", "s", ": ", "\"hi\"", ""]);
    assert_eq!(tints(&s)[4], Tint::Green);
}

#[test]
fn status_bar_of_a_new_buffer() {
    let state = AppState::new(None, String::new());
    let (left, hint) = build_status_parts(&state);
    assert_eq!(texts(&left), vec!["[NORMAL]", "  ", "[new file]"]);
    assert!(left[0].bold);
    assert!(hint.starts_with("i/Enter:edit  Ctrl+A:select-all"));
}

#[test]
fn status_bar_shows_errors_and_search() {
    let mut state = AppState::new(Some("f.json".to_string()), "{\"needle\": 1, \"b\": 2}".to_string());
    prettify_initial(&mut state);
    state.modified = true;
    state.parse_error = Some("bad".to_string());
    state.mode = Mode::Search;
    state.search_query = "needle".to_string();
    state.tree.as_mut().unwrap().set_search("needle");
    let (left, hint) = build_status_parts(&state);
    assert_eq!(
        texts(&left),
        vec!["[SEARCH]", "  ", "f.json *", "  ", "⚠ bad", "  ", "Search: needle_", "  1 match"]
    );
    assert_eq!(left[4].tint, Tint::Red);
    assert_eq!(hint, "↑↓/jk:navigate  Enter:jump  Ctrl+R:replace  Esc:cancel");
}

#[test]
fn layout_helpers() {
    let r = centered_rect(70, 70, Area { x: 0, y: 0, width: 100, height: 40 });
    assert_eq!(r, Area { x: 15, y: 6, width: 70, height: 28 });
    let a = about_area(Area { x: 0, y: 0, width: 80, height: 30 });
    assert_eq!(a, Area { x: 7, y: 0, width: 66, height: 30 });
    assert_eq!(status_split(50, 100), (50, 50));
    assert_eq!(status_split(200, 100), (10, 90));
    assert_eq!(status_split(5, 8), (8, 0));
    assert_eq!(centered_top(20, 5), 7);
    assert_eq!(centered_top(3, 5), 0);
    assert_eq!(pane_border(true), (Tint::Green, true));
    assert_eq!(pane_border(false), (Tint::DarkGray, false));
}

#[test]
fn about_screen_lines() {
    let lines = about_lines("1.2.3");
    assert_eq!(lines.len(), 51);
    assert_eq!(texts(&lines[0]), vec!["OE", "  Object Editor", "  v1.2.3"]);
    assert!(lines[1].is_empty());
    assert_eq!(texts(&lines[6]), vec!["JSON", "  ", "YAML", "  ", "TOML", "  ", "XML"]);
    assert_eq!(texts(&lines[10]), vec!["  Tab           ", "Switch focus between source and tree pane"]);
    assert_eq!(texts(&lines[50]), vec!["MIT License — open source, free to use and modify."]);
    assert_eq!(texts(&kb_line("a-very-long-key-name", "d")), vec!["  a-very-long-key-name", "d"]);
    let badge = fmt_badge("JSON", Tint::Green);
    assert!(badge.bold);
    assert_eq!(badge.tint, Tint::Green);
}

#[test]
fn picker_rows_mark_directories() {
    let dir = FileEntry { name: "sub".to_string(), is_dir: true, path: "/x/sub".to_string() };
    assert_eq!(texts(&build_picker_item(&dir)), vec![" ", "▶ ", "sub/"]);
    let up = FileEntry { name: "..".to_string(), is_dir: true, path: "/".to_string() };
    assert_eq!(texts(&build_picker_item(&up)), vec![" ", "▶ ", ".."]);
    let file = FileEntry { name: "a.json".to_string(), is_dir: false, path: "/x/a.json".to_string() };
    let row = build_picker_item(&file);
    assert_eq!(texts(&row), vec![" ", "  ", "a.json"]);
    assert_eq!(row[2].tint, Tint::Green);
}

#[test]
fn panes_show_badge_and_placeholder() {
    let blank = AppState::new(None, "   \n".to_string());
    assert_eq!(raw_badge(&blank), None);
    let p = tree_placeholder(&blank).unwrap();
    assert_eq!(p.text, "No file open.\n\nCtrl+O  open a file\n\nOr paste content into the left pane.");
    assert_eq!(p.lines, 5);
    let mut empty_doc = AppState::new(Some("x.yaml".to_string()), "{}".to_string());
    prettify_initial(&mut empty_doc);
    assert_eq!(raw_badge(&empty_doc), Some(" YAML ".to_string()));
    assert!(tree_placeholder(&empty_doc).is_none());
    let mut broken = AppState::new(None, "{".to_string());
    prettify_initial(&mut broken);
    let p = tree_placeholder(&broken).unwrap();
    assert_eq!(p.text, "(no valid content)");
    assert_eq!(p.tint, Tint::Red);
}
