use roe::events::{
    extract_error_line, handle_key, is_double_click, reparse_now, text_edited, Action, EditorCommand, Followup,
    KeyCode, KeyInput, MouseInput, MouseKind, MOD_CONTROL, MOD_NONE, MOD_SHIFT,
};
use roe::format::FileFormat;
use roe::session::{apply_layout, load_document, mark_saved, prettify_initial, reparse_due, save_plan};
use roe::state::{arrange_entries, AppState, ConfirmAction, DirItem, Focus, Mode, Snapshot, TreeEditKind, UndoStack};

fn key(c: char) -> KeyInput {
    KeyInput { code: KeyCode::Char(c), modifiers: MOD_NONE }
}

fn ctrl(c: char) -> KeyInput {
    KeyInput { code: KeyCode::Char(c), modifiers: MOD_CONTROL }
}

fn plain(code: KeyCode) -> KeyInput {
    KeyInput { code, modifiers: MOD_NONE }
}

fn opened(path: &str, text: &str) -> AppState {
    let mut state = AppState::new(Some(path.to_string()), text.to_string());
    prettify_initial(&mut state);
    state
}

#[test]
fn start_up_formats_the_document() {
    let mut state = AppState::new(Some("data.json".to_string()), "{\"b\":2,\"a\":1}".to_string());
    let shown = prettify_initial(&mut state);
    assert_eq!(shown, "{\n  \"a\": 1,\n  \"b\": 2\n}");
    assert_eq!(state.raw_text, shown);
    assert_eq!(state.tree.as_ref().unwrap().visible_node_count(), 3);
    assert_eq!(state.tree.as_ref().unwrap().flat_nodes()[2].line_number, Some(2));
    assert!(!state.modified);
}

#[test]
fn start_up_keeps_text_that_does_not_parse() {
    let mut state = AppState::new(Some("data.json".to_string()), "{oops".to_string());
    let shown = prettify_initial(&mut state);
    assert_eq!(shown, "{oops");
    assert!(state.tree.is_none());
    assert!(state.parse_error.as_ref().unwrap().starts_with("JSON error at 1:2"));
    let mut empty = AppState::new(None, String::new());
    assert_eq!(prettify_initial(&mut empty), String::new());
    assert!(empty.parse_error.is_none());
}

#[test]
fn loading_resets_the_editor() {
    let mut state = opened("a.json", "{\"a\": 1}");
    state.modified = true;
    state.mode = Mode::Search;
    let shown = load_document(&mut state, "b.yaml".to_string(), "x: 1\n".to_string());
    assert_eq!(shown, "x: 1\n");
    assert_eq!(state.format, FileFormat::Yaml);
    assert_eq!(state.file_path, Some("b.yaml".to_string()));
    assert!(!state.modified);
    assert_eq!(state.mode, Mode::Normal);
    assert!(!state.undo_stack.can_undo());
    assert_eq!(state.tree.as_ref().unwrap().visible_node_count(), 2);
}

#[test]
fn saving_a_new_file_uses_the_default_name() {
    let mut state = AppState::new(None, String::new());
    let (path, text) = save_plan(&mut state, &vec!["{".to_string(), "}".to_string()]);
    assert_eq!(path, "output.json");
    assert_eq!(text, "{\n}");
    assert_eq!(state.file_path, Some("output.json".to_string()));
    state.modified = true;
    mark_saved(&mut state, text);
    assert!(!state.modified);
    assert_eq!(state.raw_text, "{\n}");
}

#[test]
fn reparse_waits_for_the_debounce() {
    let mut state = AppState::new(None, String::new());
    assert!(!reparse_due(&state, 1000));
    state.parse_dirty = true;
    state.last_edit = Some(1000);
    assert!(!reparse_due(&state, 1249));
    assert!(reparse_due(&state, 1250));
}

#[test]
fn reparse_keeps_the_last_tree_on_error() {
    let mut state = opened("a.json", "{\"a\": 1}");
    state.raw_text = "{\"a\": ".to_string();
    state.parse_dirty = true;
    reparse_now(&mut state);
    assert!(state.parse_error.is_some());
    assert_eq!(state.tree.as_ref().unwrap().visible_node_count(), 2);
    assert!(!state.parse_dirty);
    state.raw_text = "{\"a\": 1, \"b\": [true]}".to_string();
    reparse_now(&mut state);
    assert!(state.parse_error.is_none());
    assert_eq!(state.tree.as_ref().unwrap().visible_node_count(), 4);
}

#[test]
fn layout_records_the_geometry() {
    let mut state = AppState::new(None, String::new());
    apply_layout(&mut state, 100, 40);
    assert_eq!(state.tree_pane_height, 37);
    assert_eq!(state.scrollbar_x_start, 48);
    assert_eq!(state.tree_x_start, 51);
    assert_eq!(state.picker_x, 16);
    assert_eq!(state.picker_y, 8);
    assert_eq!(state.picker_w, 68);
    assert_eq!(state.picker_height, 25);
}

#[test]
fn save_without_a_file_asks_for_a_name() {
    let mut state = AppState::new(None, String::new());
    let out = handle_key(ctrl('s'), &mut state);
    assert_eq!(out.action, Action::Continue);
    assert!(matches!(state.mode, Mode::SaveAs { .. }));
    let mut named = opened("a.json", "{}");
    assert_eq!(handle_key(ctrl('s'), &mut named).action, Action::Save);
}

#[test]
fn quitting_with_unsaved_changes_asks_first() {
    let mut clean = opened("a.json", "{}");
    assert_eq!(handle_key(key('q'), &mut clean).action, Action::Quit);
    let mut dirty = opened("a.json", "{}");
    dirty.modified = true;
    assert_eq!(handle_key(key('q'), &mut dirty).action, Action::Continue);
    assert_eq!(
        dirty.mode,
        Mode::Confirm {
            question: "Unsaved changes. Quit anyway? [y/N]".to_string(),
            action: ConfirmAction::QuitUnsaved,
        }
    );
    assert_eq!(handle_key(key('y'), &mut dirty).action, Action::Quit);
}

#[test]
fn tab_and_about_keys() {
    let mut state = opened("a.json", "{}");
    handle_key(plain(KeyCode::Tab), &mut state);
    assert_eq!(state.focus, Focus::TreePane);
    handle_key(key('?'), &mut state);
    assert_eq!(state.mode, Mode::About);
    handle_key(key('x'), &mut state);
    assert_eq!(state.mode, Mode::Normal);
}

#[test]
fn editing_a_leaf_rewrites_the_text_and_undo_restores_it() {
    let mut state = opened("a.json", "{\"a\": 1}");
    let before = state.raw_text.clone();
    handle_key(plain(KeyCode::Tab), &mut state);
    handle_key(plain(KeyCode::Down), &mut state);
    assert_eq!(state.tree_selected, 1);
    handle_key(plain(KeyCode::Enter), &mut state);
    assert!(matches!(state.mode, Mode::TreeEdit { kind: TreeEditKind::EditValue { .. }, .. }));
    handle_key(key('4'), &mut state);
    handle_key(key('2'), &mut state);
    let out = handle_key(plain(KeyCode::Enter), &mut state);
    assert_eq!(state.mode, Mode::Normal);
    assert_eq!(state.raw_text, "{\n  \"a\": 42\n}");
    assert!(state.modified);
    assert!(matches!(out.commands.last(), Some(EditorCommand::Load(t)) if t == "{\n  \"a\": 42\n}"));
    handle_key(ctrl('z'), &mut state);
    assert_eq!(state.raw_text, before);
    handle_key(ctrl('y'), &mut state);
    assert_eq!(state.raw_text, "{\n  \"a\": 42\n}");
}

#[test]
fn typed_text_that_is_not_json_becomes_a_string() {
    let mut state = opened("a.json", "{\"a\": 1}");
    handle_key(plain(KeyCode::Tab), &mut state);
    handle_key(plain(KeyCode::Down), &mut state);
    handle_key(plain(KeyCode::Enter), &mut state);
    for c in "hi there".chars() {
        handle_key(key(c), &mut state);
    }
    handle_key(plain(KeyCode::Enter), &mut state);
    assert_eq!(state.raw_text, "{\n  \"a\": \"hi there\"\n}");
}

#[test]
fn error_lines_are_found_in_messages() {
    assert_eq!(extract_error_line("JSON error at 3:5 — expected value"), Some(2));
    assert_eq!(extract_error_line("YAML error: bad indentation at line 7 column 2"), Some(6));
    assert_eq!(extract_error_line("TOML error: at line 1, column 5"), Some(0));
    assert_eq!(extract_error_line("nothing here"), None);
}

#[test]
fn double_clicks_are_on_one_cell_within_the_window() {
    let m = MouseInput { kind: MouseKind::LeftDown, column: 4, row: 2 };
    assert!(is_double_click(m, Some((4, 2, 1000)), 1399));
    assert!(!is_double_click(m, Some((4, 2, 1000)), 1400));
    assert!(!is_double_click(m, Some((5, 2, 1000)), 1100));
    assert!(!is_double_click(m, None, 1100));
}

#[test]
fn the_picker_lists_parent_then_directories_then_files() {
    let item = |name: &str, is_dir: bool, is_file: bool| DirItem {
        name: name.to_string(),
        is_dir,
        is_file,
        path: format!("/d/{}", name),
    };
    let items = vec![
        item("b.JSON", false, true),
        item("zeta", true, false),
        item(".hidden", true, false),
        item("notes.txt", false, true),
        item("A.yaml", false, true),
        item("Alpha", true, false),
        item("c.toml", false, true),
        item("noext", false, true),
        item("d.json", false, true),
    ];
    let entries = arrange_entries(Some("/".to_string()), &items);
    let names: Vec<String> = entries.iter().map(|e| e.name.clone()).collect();
    assert_eq!(names, vec!["..", "Alpha", "zeta", "b.JSON", "d.json"]);
    assert!(entries[0].is_dir);
    assert_eq!(entries[0].path, "/");
    assert_eq!(entries[1].path, "/d/Alpha");
    let root = arrange_entries(None, &items);
    assert_eq!(root.len(), 4);
}

#[test]
fn history_keeps_the_last_hundred_states() {
    let snap = |t: &str| Snapshot { text: t.to_string(), cursor_row: 0, cursor_col: 0 };
    let mut stack = UndoStack::default();
    assert!(!stack.can_undo());
    for i in 0..150 {
        stack.push(snap(&i.to_string()));
    }
    let mut current = "now".to_string();
    let mut undone = 0;
    while let Some(prev) = stack.undo(snap(&current)) {
        current = prev.text;
        undone += 1;
    }
    assert_eq!(undone, 100);
    assert_eq!(current, "50");
    assert!(stack.can_redo());
    let next = stack.redo(snap("50")).unwrap();
    assert_eq!(next.text, "51");
}

#[test]
fn a_printable_key_in_the_raw_pane_starts_typing() {
    let mut state = opened("a.json", "{}");
    assert_eq!(state.focus, Focus::RawPane);
    let out = handle_key(key('x'), &mut state);
    assert_eq!(state.mode, Mode::Insert);
    assert_eq!(out.action, Action::Continue);
    assert!(matches!(out.commands.as_slice(), [EditorCommand::Forward]));
    assert!(matches!(out.followup, Followup::SyncText { modifying: true }));
    text_edited(&mut state, "x{}".to_string(), true, 5);
    assert!(state.modified);
    handle_key(plain(KeyCode::Esc), &mut state);
    assert_eq!(state.mode, Mode::Normal);
    let out = handle_key(KeyInput { code: KeyCode::Char('X'), modifiers: MOD_SHIFT }, &mut state);
    assert_eq!(state.mode, Mode::Insert);
    assert!(matches!(out.followup, Followup::SyncText { modifying: true }));
    let mut other = opened("a.json", "{}");
    let out = handle_key(ctrl('x'), &mut other);
    assert_eq!(other.mode, Mode::Normal);
    assert_eq!(out.action, Action::Noop);
}
