//! Input handling: what each key, mouse and paste event does to the
//! editor state.
//!
//! `handle_event` takes an input event and the state, applies the change
//! and returns an `Outcome`: the `Action` for the main loop, the commands
//! for the raw pane's text widget (which the caller owns), and what the
//! caller must hand back once it has run them (`Followup`).  No rendering
//! and no I/O happen here; times are milliseconds the caller reads from a
//! monotonic clock.
use vstd::prelude::*;
use crate::text::{chars_of, first_index_of, is_index_text, is_whitespace, is_ws, lemma_first_index_of, parse_usize, parse_usize_spec, starts_with_chars, starts_with_seq, string_of, sub_chars};
use crate::format::FileFormat;
use crate::state::{AppState, ConfirmAction, FileEntry, Focus, Mode, ROW_CAP, TreeEditKind, scroll_for};
use crate::tree::{FlatNode, JsonTree, NodeKind, NodeV, display_spec, rebuild_spec, starts_by, toggled};
use crate::value::{JVal, JsonValue, vv, split_path, split_path_spec, set_value_spec, add_key_spec, rename_spec};
use crate::codec::{JsonSyntaxError, parse_spec, serde_json_parse, serialize_spec};
use crate::state::{history_push, history_undo};
use crate::tree::{PathSet, strip_lines};
use crate::format::path_extension_spec;

verus! {

// ── input and output types ───────────────────────────────────────────────────

/// High-level actions returned to the main loop after processing an event.
#[derive(Debug, PartialEq, Eq)]
pub enum Action {
    /// Continue running normally.
    Continue,
    /// Save the file now.
    Save,
    /// Quit the application.
    Quit,
    /// Load the file at the given path into the editor.
    OpenFile(String),
    /// Nothing happened (the event was ignored).
    Noop,
}

/// A key as the editor sees it.
#[derive(Debug, Clone, Copy, PartialEq, Eq, Structural)]
pub enum KeyCode {
    Char(char),
    Enter,
    Esc,
    Tab,
    Backspace,
    Delete,
    Up,
    Down,
    Left,
    Right,
    PageUp,
    PageDown,
    Home,
    End,
    /// Any other key.
    Other,
}

/// No modifier key held.
pub const MOD_NONE: u8 = 0;
/// The Shift bit of `KeyInput::modifiers`.
pub const MOD_SHIFT: u8 = 1;
/// The Control bit of `KeyInput::modifiers`.
pub const MOD_CONTROL: u8 = 2;
/// The Alt bit of `KeyInput::modifiers`.
pub const MOD_ALT: u8 = 4;

/// Whether modifier bit `m` is among `bits`.
pub open spec fn holds(bits: u8, m: u8) -> bool {
    bits & m != 0
}

/// Whether modifier bit `m` is among `bits`.
fn held(bits: u8, m: u8) -> (r: bool)
    ensures
        r == holds(bits, m),
{
    bits & m != 0
}

/// A key press: the key and the modifier bits held (Shift 1, Control 2,
/// Alt 4, others above).
#[derive(Debug, Clone, Copy, PartialEq, Eq, Structural)]
pub struct KeyInput {
    pub code: KeyCode,
    pub modifiers: u8,
}

/// What a mouse event was.
#[derive(Debug, Clone, Copy, PartialEq, Eq, Structural)]
pub enum MouseKind {
    LeftDown,
    RightDown,
    LeftDrag,
    ScrollDown,
    ScrollUp,
    /// Any other mouse event.
    Other,
}

/// A mouse event and the screen cell it happened at.
#[derive(Debug, Clone, Copy, PartialEq, Eq, Structural)]
pub struct MouseInput {
    pub kind: MouseKind,
    pub column: u16,
    pub row: u16,
}

/// An input event.
#[derive(Debug)]
pub enum Input {
    Key(KeyInput),
    Mouse(MouseInput),
    /// Text pasted by the terminal.
    Paste(String),
    Resize,
    /// Any other event.
    Other,
}

/// A command for the raw pane's text widget.
#[derive(Debug)]
pub enum EditorCommand {
    /// Hand the event being handled to the widget.
    Forward,
    /// Replace the widget's content with the lines of this text.
    Load(String),
    /// Replace the widget's content with these lines.
    LoadLines(Vec<String>),
    /// Move the cursor to (row, column); the widget clamps both.
    Jump(u16, u16),
    /// Select the whole text, leaving the cursor at its start.
    SelectAll,
    /// Select the word under the cursor.
    SelectWord,
    /// Move the cursor one line down.
    CursorDown,
    /// Move the cursor one line up.
    CursorUp,
}

/// What the caller hands back once it has run the commands.
#[derive(Debug)]
pub enum Followup {
    /// Nothing.
    Nothing,
    /// The widget's text (lines joined by `\n`), to `text_edited`.
    SyncText { modifying: bool },
    /// The cursor's row, to `sync_tree_to_cursor`.
    SyncTree,
    /// The clipboard's text, to `insert_text`.
    Paste,
    /// Put this text on the clipboard.
    Copy(String),
    /// The targets of a scrollbar click on this row (0-based, below the
    /// border), to `seek_tree`.
    Seek(usize),
    /// The entries of this directory, to `open_picker`.
    ReadDir(String),
    /// The entries of the start directory (that of the open file, else the
    /// working directory), to `open_picker`.
    OpenPicker,
}

/// The result of handling an event.
#[derive(Debug)]
pub struct Outcome {
    pub action: Action,
    pub commands: Vec<EditorCommand>,
    pub followup: Followup,
}

/// An outcome with no widget command and nothing to hand back.
fn plain(action: Action) -> (r: Outcome)
    ensures
        r.action == action,
        r.commands@.len() == 0,
        r.followup is Nothing,
{
    Outcome { action, commands: Vec::new(), followup: Followup::Nothing }
}

/// An outcome with one widget command.
fn with_command(action: Action, c: EditorCommand) -> (r: Outcome)
    ensures
        r.action == action,
        r.commands@ == seq![c],
        r.followup is Nothing,
{
    let mut commands: Vec<EditorCommand> = Vec::new();
    commands.push(c);
    Outcome { action, commands, followup: Followup::Nothing }
}

// ── the selected row ─────────────────────────────────────────────────────────

/// The selected row, if the tree has one at the cursor.
pub open spec fn selected_row(s: AppState) -> Option<NodeV> {
    match s.tree {
        Some(t) => if s.tree_selected < t.rows().len() {
            Some(t.rows()[s.tree_selected as int])
        } else {
            None
        },
        None => None,
    }
}

/// A copy of the selected row.
fn selected_copy(state: &AppState) -> (r: Option<FlatNode>)
    ensures
        match selected_row(*state) {
            Some(n) => r matches Some(c) && c@ == n,
            None => r is None,
        },
{
    match &state.tree {
        Some(t) => {
            let nodes = t.flat_nodes();
            if state.tree_selected < nodes.len() {
                Some(nodes[state.tree_selected].duplicate())
            } else {
                None
            }
        },
        None => None,
    }
}

/// The state after clamping the cursor to the last row and scrolling it
/// into view.
pub open spec fn clamp_and_show(s: AppState) -> AppState {
    let sel = if s.tree_selected <= s.last_row() {
        s.tree_selected
    } else {
        s.last_row() as usize
    };
    AppState { tree_selected: sel, tree_scroll: scroll_for(sel, s.tree_scroll, s.tree_pane_height as nat), ..s }
}

/// The state after moving the cursor to `sel` and scrolling it into view.
pub open spec fn select_row(s: AppState, sel: usize) -> AppState {
    AppState { tree_selected: sel, tree_scroll: scroll_for(sel, s.tree_scroll, s.tree_pane_height as nat), ..s }
}

/// Tree `b` is tree `a` with the collapse state of row `idx` toggled.
pub open spec fn toggled_tree(a: JsonTree, b: JsonTree, idx: usize) -> bool {
    &&& idx < a.rows().len()
    &&& b.wf()
    &&& b.doc() == a.doc()
    &&& b.query() == a.query()
    &&& b.coll() == toggled(a.coll(), a.rows()[idx as int].path)
    &&& b.rows() == rebuild_spec(b.doc(), b.coll(), b.query())
}

/// Toggle the selected container row, then clamp and show the cursor.
fn toggle_selected(state: &mut AppState)
    requires
        old(state).wf(),
        old(state).in_bounds(),
        selected_row(*old(state)) matches Some(n) && n.kind.spec_is_container(),
    ensures
        final(state).wf(),
        ({
            let t0 = old(state).tree->0;
            final(state).tree matches Some(t1) && toggled_tree(t0, t1, old(state).tree_selected)
                && *final(state) == clamp_and_show(
                AppState { tree: final(state).tree, ..*old(state) },
            )
        }),
{
    let sel = state.tree_selected;
    let mut tree = state.tree.take().unwrap();
    let _ = tree.toggle_collapse(sel);
    state.tree = Some(tree);
    state.clamp_tree_selection();
    state.ensure_visible();
}

/// What Enter does on the tree.
pub open spec fn enter_done(s: AppState, f: AppState) -> bool {
    &&& (match selected_row(s) {
            None => f == s,
            Some(n) => if n.kind.spec_is_container() {
                let t0 = s.tree->0;
                f.tree matches Some(t1) && toggled_tree(t0, t1, s.tree_selected)
                    && f == clamp_and_show(
                    AppState { tree: f.tree, ..s },
                )
            } else {
                &&& f.mode matches Mode::TreeEdit {
                    kind: TreeEditKind::EditValue { node_type, original },
                    buffer,
                } && buffer@.len() == 0 && node_type@ == n.kind.label_spec() && original@
                    == display_spec(n)
                &&& f == (AppState { mode: f.mode, ..s })
            },
        })
}

/// Enter on a tree row: toggle a container; on a leaf open the inline
/// value editor (empty buffer, the old value shown beside it).
fn tree_enter_action(state: &mut AppState)
    requires
        old(state).wf(),
        old(state).in_bounds(),
    ensures
        final(state).wf(),
        enter_done(*old(state), *final(state)),
{
    let node = match selected_copy(state) {
        Some(n) => n,
        None => return,
    };
    if node.kind.is_container() {
        toggle_selected(state);
    } else {
        let original = node.value_display();
        let node_type = string_of(chars_of(node.kind.label()).as_slice());
        state.mode = Mode::TreeEdit {
            kind: TreeEditKind::EditValue { node_type, original },
            buffer: String::new(),
        };
    }
}

/// What the right arrow does on the tree.
pub open spec fn right_done(s: AppState, f: AppState) -> bool {
    &&& (match selected_row(s) {
            Some(n) => if n.kind.spec_is_container() && n.collapsed {
                let t0 = s.tree->0;
                f.tree matches Some(t1) && toggled_tree(t0, t1, s.tree_selected)
                    && f == clamp_and_show(
                    AppState { tree: f.tree, ..s },
                )
            } else if n.kind.spec_is_container() {
                f == select_row(
                    s,
                    if s.tree_selected + 1 <= s.last_row() {
                        (s.tree_selected + 1) as usize
                    } else {
                        s.last_row() as usize
                    },
                )
            } else {
                f == s
            },
            None => f == s,
        })
}

/// Right arrow on a tree row: expand a collapsed container, move to the
/// first child of an expanded one; nothing on a leaf.
fn tree_right_action(state: &mut AppState)
    requires
        old(state).wf(),
        old(state).in_bounds(),
    ensures
        final(state).wf(),
        right_done(*old(state), *final(state)),
{
    let node = match selected_copy(state) {
        Some(n) => n,
        None => return,
    };
    if node.kind.is_container() && node.collapsed {
        toggle_selected(state);
    } else if node.kind.is_container() {
        state.tree_down(1);
    }
}

/// Row `i` is the first of `rows` whose path is `p`.
pub open spec fn first_with_path(rows: Seq<NodeV>, p: Seq<char>, i: int) -> bool {
    0 <= i < rows.len() && rows[i].path == p && forall|j: int| 0 <= j < i ==> rows[j].path != p
}

/// The parent path of `path`, when it has a non-empty one.
pub open spec fn parent_of(path: Seq<char>) -> Option<Seq<char>> {
    match split_path_spec(path) {
        Ok((parent, _)) => if parent.len() > 0 {
            Some(parent)
        } else {
            None
        },
        Err(_) => None,
    }
}

/// What the left arrow does on the tree.
pub open spec fn left_done(s: AppState, f: AppState) -> bool {
    &&& (match selected_row(s) {
            Some(n) => if n.kind.spec_is_container() && !n.collapsed {
                let t0 = s.tree->0;
                f.tree matches Some(t1) && toggled_tree(t0, t1, s.tree_selected)
                    && f == clamp_and_show(
                    AppState { tree: f.tree, ..s },
                )
            } else {
                match parent_of(n.path) {
                    Some(p) => {
                        let rows = s.tree->0.rows();
                        ||| (forall|j: int| 0 <= j < rows.len() ==> rows[j].path != p) && f
                            == s
                        ||| exists|i: int| #[trigger] first_with_path(rows, p, i) && f == select_row(
                            s,
                            i as usize,
                        )
                    },
                    None => f == s,
                }
            },
            None => f == s,
        })
}

/// Left arrow on a tree row: collapse an expanded container; otherwise
/// move to the parent row when it is visible.
fn tree_left_action(state: &mut AppState)
    requires
        old(state).wf(),
        old(state).in_bounds(),
    ensures
        final(state).wf(),
        left_done(*old(state), *final(state)),
{
    let node = match selected_copy(state) {
        Some(n) => n,
        None => return,
    };
    if node.kind.is_container() && !node.collapsed {
        toggle_selected(state);
        return;
    }
    match split_path(node.path.as_str()) {
        Ok((parent, _)) => {
            if chars_of(parent.as_str()).len() > 0 {
                let idx = match &state.tree {
                    Some(t) => t.index_of_path(parent.as_str()),
                    None => None,
                };
                match idx {
                    Some(i) => {
                        state.tree_selected = i;
                        state.ensure_visible();
                        assert(first_with_path(old(state).tree->0.rows(), parent@, i as int));
                    },
                    None => {},
                }
            }
        },
        Err(_) => {},
    }
}

/// The hint shown when `a` is pressed on a leaf.
pub open spec fn add_hint() -> Seq<char> {
    "Select an object { } or array [ ] node first, then press 'a' to add"@
}

/// What `a` does on the tree.
pub open spec fn add_started(s: AppState, f: AppState) -> bool {
    &&& (match selected_row(s) {
            Some(n) if n.kind is Object => f.mode matches Mode::TreeEdit {
                kind: TreeEditKind::AddKey,
                buffer,
            } && buffer@.len() == 0 && f == (AppState { mode: f.mode, ..s }),
            Some(n) if n.kind is Array => f.mode matches Mode::TreeEdit {
                kind: TreeEditKind::AddValue { key },
                buffer,
            } && buffer@.len() == 0 && key@.len() == 0 && f == (AppState {
                mode: f.mode,
                ..s
            }),
            _ => f.parse_error matches Some(m) && m@ == add_hint() && f == (
            AppState { parse_error: f.parse_error, ..s }),
        })
}

/// `a` on a tree row: add to an object (key first) or an array (value
/// directly); on anything else show a hint.
fn tree_add_action(state: &mut AppState)
    ensures
        add_started(*old(state), *final(state)),
{
    let node = selected_copy(state);
    match node {
        Some(n) => match n.kind {
            NodeKind::Object { .. } => {
                state.mode = Mode::TreeEdit { kind: TreeEditKind::AddKey, buffer: String::new() };
                return;
            },
            NodeKind::Array { .. } => {
                state.mode = Mode::TreeEdit {
                    kind: TreeEditKind::AddValue { key: String::new() },
                    buffer: String::new(),
                };
                return;
            },
            _ => {},
        },
        None => {},
    }
    state.parse_error = Some(
        string_of(chars_of("Select an object { } or array [ ] node first, then press 'a' to add").as_slice()),
    );
}

/// The name a delete prompt gives the selected row.
pub open spec fn delete_label(n: Option<NodeV>) -> Seq<char> {
    match n {
        Some(r) => if r.key.len() == 0 {
            "(root "@ + r.kind.label_spec() + ")"@
        } else {
            r.key
        },
        None => "node"@,
    }
}

/// What `d` does on the tree.
pub open spec fn delete_asked(s: AppState, f: AppState) -> bool {
    &&& (f.mode matches Mode::Confirm { question, action: ConfirmAction::DeleteNode }
            && question@ == "Delete '"@ + delete_label(selected_row(s)) + "'? [y/N]"@)
    &&& (f == (AppState { mode: f.mode, ..s }))
}

/// `d` on a tree row: ask whether to delete it.
fn tree_delete_prompt(state: &mut AppState)
    ensures
        delete_asked(*old(state), *final(state)),
{
    let node = selected_copy(state);
    let mut label: Vec<char> = Vec::new();
    match &node {
        Some(n) => {
            if chars_of(n.key.as_str()).len() == 0 {
                crate::text::push_str(&mut label, "(root ");
                crate::text::push_str(&mut label, n.kind.label());
                crate::text::push_str(&mut label, ")");
            } else {
                crate::text::push_str(&mut label, n.key.as_str());
            }
        },
        None => {
            crate::text::push_str(&mut label, "node");
        },
    }
    let mut q: Vec<char> = Vec::new();
    crate::text::push_str(&mut q, "Delete '");
    crate::text::push_all(&mut q, &label);
    crate::text::push_str(&mut q, "'? [y/N]");
    state.mode = Mode::Confirm { question: string_of(q.as_slice()), action: ConfirmAction::DeleteNode };
}

/// The message shown when renaming an array item or the root.
pub open spec fn rename_hint() -> Seq<char> {
    "Cannot rename array items or the root node"@
}

/// What `r` does on the tree.
pub open spec fn rename_started(s: AppState, f: AppState) -> bool {
    &&& (match selected_row(s) {
            Some(n) => if is_index_text(n.key) || n.key.len() == 0 {
                f.parse_error matches Some(m) && m@ == rename_hint() && f == (
                AppState { parse_error: f.parse_error, ..s })
            } else {
                f.mode matches Mode::TreeEdit { kind: TreeEditKind::RenameKey, buffer }
                    && buffer@ == n.key && f == (AppState {
                    mode: f.mode,
                    ..s
                })
            },
            None => f == s,
        })
}

/// `r` on a tree row: rename its key (the buffer starts with the current
/// key); array items and the root cannot be renamed.
fn tree_rename_prompt(state: &mut AppState)
    ensures
        rename_started(*old(state), *final(state)),
{
    let node = match selected_copy(state) {
        Some(n) => n,
        None => return,
    };
    let kc = chars_of(node.key.as_str());
    let is_index = parse_usize(&kc).is_some();
    if is_index || kc.len() == 0 {
        state.parse_error = Some(string_of(chars_of("Cannot rename array items or the root node").as_slice()));
        return;
    }
    state.mode = Mode::TreeEdit { kind: TreeEditKind::RenameKey, buffer: node.key };
}

/// The prompt shown when quitting with unsaved changes.
pub open spec fn quit_question() -> Seq<char> {
    "Unsaved changes. Quit anyway? [y/N]"@
}

/// Quit, asking for confirmation when there are unsaved changes.
fn maybe_quit(state: &mut AppState) -> (r: Action)
    ensures
        old(state).modified ==> r is Continue && (final(state).mode matches Mode::Confirm {
            question,
            action: ConfirmAction::QuitUnsaved,
        } && question@ == quit_question()) && *final(state) == (AppState {
            mode: final(state).mode,
            ..*old(state)
        }),
        !old(state).modified ==> r is Quit && *final(state) == *old(state),
{
    if state.modified {
        state.mode = Mode::Confirm {
            question: string_of(chars_of("Unsaved changes. Quit anyway? [y/N]").as_slice()),
            action: ConfirmAction::QuitUnsaved,
        };
        Action::Continue
    } else {
        Action::Quit
    }
}

/// The text `y` copies: the selected row's display text, when there is a
/// tree and a selected row.
fn copy_node_value(state: &AppState) -> (r: Option<String>)
    ensures
        match selected_row(*state) {
            Some(n) => {
                r matches Some(t) && t@ == display_spec(n)
            },
            None => r is None,
        },
{
    match selected_copy(state) {
        Some(n) => {
            Some(n.value_display())
        },
        None => None,
    }
}

/// The raw-text line of the selected row: its cached line number, else
/// the line its path maps to.
pub open spec fn selection_line(s: AppState) -> Option<int> {
    match selected_row(s) {
        Some(n) => match n.line_number {
            Some(l) => Some(l as int),
            None => s.format.line_spec(s.raw_text@, n.path),
        },
        None => None,
    }
}

/// Move the raw pane's cursor to the selected row's line, if it has one.
fn sync_raw_cursor_to_selection(state: &AppState) -> (r: Option<EditorCommand>)
    ensures
        match selection_line(*state) {
            Some(l) => r matches Some(EditorCommand::Jump(row, col)) && row == (l as usize) as u16 && col == 0,
            None => r is None,
        },
{
    let node = match selected_copy(state) {
        Some(n) => n,
        None => return None,
    };
    let line = match node.line_number {
        Some(l) => Some(l),
        None => crate::sync::find_line_for_path(state.raw_text.as_str(), node.path.as_str(), state.format),
    };
    match line {
        Some(l) => Some(EditorCommand::Jump(l as u16, 0)),
        None => None,
    }
}

/// Move the raw pane's cursor to the line `path` maps to, if any.
fn jump_to_path_in_raw(state: &AppState, path: &str) -> (r: Option<EditorCommand>)
    ensures
        match state.format.line_spec(state.raw_text@, path@) {
            Some(l) => r matches Some(EditorCommand::Jump(row, col)) && row == (l as usize) as u16 && col == 0,
            None => r is None,
        },
{
    match crate::sync::find_line_for_path(state.raw_text.as_str(), path, state.format) {
        Some(l) => Some(EditorCommand::Jump(l as u16, 0)),
        None => None,
    }
}

/// `g` / `l`: move the raw pane's cursor to the selected row's line and
/// focus the raw pane.
fn jump_to_line_in_raw(state: &mut AppState) -> (r: Option<EditorCommand>)
    ensures
        match selected_row(*old(state)) {
            Some(n) => *final(state) == (AppState { focus: Focus::RawPane, ..*old(state) }) && match old(state).format.line_spec(old(state).raw_text@, n.path) {
                Some(l) => r matches Some(EditorCommand::Jump(row, col)) && row == (l as usize) as u16
                    && col == 0,
                None => r is None,
            },
            None => r is None && *final(state) == *old(state),
        },
{
    let node = match selected_copy(state) {
        Some(n) => n,
        None => return None,
    };
    let c = jump_to_path_in_raw(state, node.path.as_str());
    state.focus = Focus::RawPane;
    c
}

/// Row `i` owns line `line`: its line number is the largest one at or
/// before the line (the last such row on a tie).
pub open spec fn owns_line(rows: Seq<NodeV>, line: usize, i: int) -> bool {
    &&& 0 <= i < rows.len()
    &&& starts_by(rows[i], line)
    &&& forall|j: int|
        0 <= j < rows.len() && #[trigger] starts_by(rows[j], line) ==> (rows[j].line_number->0
            < rows[i].line_number->0 || (rows[j].line_number->0 == rows[i].line_number->0 && j <= i))
}

/// Select the row that owns the raw pane's cursor line `cursor_line`
/// (when there is one) and scroll it into view.
pub fn sync_tree_to_cursor(state: &mut AppState, cursor_line: usize)
    requires
        old(state).in_bounds(),
    ensures
        match old(state).tree {
            Some(t) => {
                ||| (forall|j: int| 0 <= j < t.rows().len() ==> !starts_by(#[trigger] t.rows()[j], cursor_line))
                    && *final(state) == *old(state)
                ||| exists|i: int| #[trigger] owns_line(t.rows(), cursor_line, i) && *final(state) == select_row(
                    *old(state),
                    i as usize,
                )
            },
            None => *final(state) == *old(state),
        },
{
    let idx = match &state.tree {
        Some(t) => t.find_node_at_line(cursor_line),
        None => None,
    };
    match idx {
        Some(i) => {
            state.tree_selected = i;
            state.ensure_visible();
            assert(owns_line(old(state).tree->0.rows(), cursor_line, i as int));
        },
        None => {},
    }
}

// ── reparsing ────────────────────────────────────────────────────────────────

/// The format tried at step `k` of detection.
pub open spec fn format_at(k: nat) -> FileFormat {
    if k == 0 {
        FileFormat::Json
    } else if k == 1 {
        FileFormat::Yaml
    } else if k == 2 {
        FileFormat::Toml
    } else {
        FileFormat::Xml
    }
}

/// The first format from step `k` on, other than `pref`, that parses
/// `text`, with its document.
pub open spec fn detect_from(text: Seq<char>, pref: FileFormat, k: nat) -> Option<(FileFormat, JVal)>
    decreases 4 - k,
{
    if k >= 4 {
        None
    } else if format_at(k) != pref && parse_spec(format_at(k), text) is Ok {
        Some((format_at(k), parse_spec(format_at(k), text)->Ok_0))
    } else {
        detect_from(text, pref, k + 1)
    }
}

/// `pref` when it parses `text`, else the first of JSON, YAML, TOML, XML
/// that does.
pub open spec fn detect_spec(text: Seq<char>, pref: FileFormat) -> Option<(FileFormat, JVal)> {
    match parse_spec(pref, text) {
        Ok(v) => Some((pref, v)),
        Err(_) => detect_from(text, pref, 0),
    }
}

/// Parse `text` with `preferred`, else with the first other format (JSON,
/// YAML, TOML, XML in that order) that accepts it.
fn detect_format_and_parse(text: &str, preferred: FileFormat) -> (r: Option<(FileFormat, JsonValue)>)
    ensures
        match detect_spec(text@, preferred) {
            Some((f, v)) => r matches Some((g, w)) && g == f && w@ == v,
            None => r is None,
        },
{
    proof {
        reveal_with_fuel(detect_from, 5);
    }
    match preferred.parse(text) {
        Ok(v) => return Some((preferred, v)),
        Err(_) => {},
    }
    if preferred != FileFormat::Json {
        match FileFormat::Json.parse(text) {
            Ok(v) => return Some((FileFormat::Json, v)),
            Err(_) => {},
        }
    }
    if preferred != FileFormat::Yaml {
        match FileFormat::Yaml.parse(text) {
            Ok(v) => return Some((FileFormat::Yaml, v)),
            Err(_) => {},
        }
    }
    if preferred != FileFormat::Toml {
        match FileFormat::Toml.parse(text) {
            Ok(v) => return Some((FileFormat::Toml, v)),
            Err(_) => {},
        }
    }
    if preferred != FileFormat::Xml {
        match FileFormat::Xml.parse(text) {
            Ok(v) => return Some((FileFormat::Xml, v)),
            Err(_) => {},
        }
    }
    None
}

/// The line a format maps a tree path to, as a `usize`.
pub open spec fn line_of(f: FileFormat, raw: Seq<char>, path: Seq<char>) -> Option<usize> {
    match f.line_spec(raw, path) {
        Some(x) => Some(x as usize),
        None => None,
    }
}

/// Every row of `t` carries the line its path maps to in `raw`.
pub open spec fn lines_synced(t: JsonTree, f: FileFormat, raw: Seq<char>) -> bool {
    forall|i: int| 0 <= i < t.rows().len() ==> #[trigger] t.rows()[i].line_number == line_of(f, raw, t.rows()[i].path)
}

/// Tree `b` is tree `a` with each row's line number set from `raw`.
pub open spec fn lines_refreshed(a: JsonTree, b: JsonTree, f: FileFormat, raw: Seq<char>) -> bool {
    &&& b.wf() == a.wf()
    &&& b.doc() == a.doc()
    &&& b.coll() == a.coll()
    &&& b.query() == a.query()
    &&& b.rows().len() == a.rows().len()
    &&& strip_lines(b.rows()) == strip_lines(a.rows())
    &&& lines_synced(b, f, raw)
}

/// Set every visible row's line number to the line its path maps to in
/// the raw text (call after every successful parse).
pub fn refresh_line_numbers(state: &mut AppState)
    ensures
        match old(state).tree {
            Some(t) => final(state).tree matches Some(t1) && lines_refreshed(
                t,
                t1,
                old(state).format,
                old(state).raw_text@,
            ) && *final(state) == (AppState { tree: final(state).tree, ..*old(state) }),
            None => *final(state) == *old(state),
        },
{
    let mut tree = match state.tree.take() {
        Some(t) => t,
        None => return,
    };
    let fmt = state.format;
    let raw = &state.raw_text;
    let resolve = |p: &str| -> (r: Option<usize>)
        ensures
            r == line_of(fmt, raw@, p@),
        { fmt.line_for_path(raw.as_str(), p) };
    tree.sync_line_numbers(resolve);
    assert forall|i: int| 0 <= i < tree.rows().len() implies #[trigger] tree.rows()[i].line_number == line_of(
        fmt,
        raw@,
        tree.rows()[i].path,
    ) by {
        assert(crate::tree::resolved_by(resolve, tree.rows()[i]));
        let p = choose|p: &str| p@ == tree.rows()[i].path && call_ensures(resolve, (p,), tree.rows()[i].line_number);
    }
    state.tree = Some(tree);
}

/// The document a reparse of `raw` in format `f` gives, with the format
/// that read it: `f` when it parses the text, else the first other format
/// that does; otherwise `f`'s error.
pub open spec fn reparse_result(raw: Seq<char>, f: FileFormat) -> Result<(FileFormat, JVal), Seq<char>> {
    match parse_spec(f, raw) {
        Ok(v) => Ok((f, v)),
        Err(e) => match detect_spec(raw, f) {
            Some((g, v)) => Ok((g, v)),
            None => Err(e),
        },
    }
}

/// What an immediate reparse does.
pub open spec fn reparsed(s: AppState, f: AppState) -> bool {
    &&& (({
            if crate::text::trim_seq(s.raw_text@).len() == 0 {
                f == (AppState { tree: None, parse_error: None, parse_dirty: false, ..s })
            } else {
                match reparse_result(s.raw_text@, s.format) {
                    Ok((g, v)) => {
                        &&& f.tree matches Some(t1)
                        &&& t1.doc() == v
                        &&& t1.coll() == (match s.tree {
                            Some(t) => t.coll(),
                            None => Set::<Seq<char>>::empty(),
                        })
                        &&& t1.query() == (match s.tree {
                            Some(t) => t.query(),
                            None => Seq::<char>::empty(),
                        })
                        &&& strip_lines(t1.rows()) == strip_lines(rebuild_spec(v, t1.coll(), t1.query()))
                        &&& lines_synced(t1, g, s.raw_text@)
                        &&& f == (AppState {
                            format: g,
                            tree: f.tree,
                            parse_error: None,
                            parse_dirty: false,
                            ..s
                        })
                    },
                    Err(e) => f.parse_error matches Some(m) && m@ == e && f == (
                    AppState { parse_error: f.parse_error, parse_dirty: false, ..s }),
                }
            }
        }))
}

/// Immediately reparse the raw text and update the tree: blank text clears
/// tree and error; a document (in the current format, else in the first
/// format that reads it, which becomes the format) replaces the tree's
/// document, keeping its collapse state, and refreshes the line numbers; a
/// failure leaves the tree and sets the error.
pub fn reparse_now(state: &mut AppState)
    requires
        old(state).wf(),
    ensures
        final(state).wf(),
        ({
            let s = *old(state);
            if crate::text::trim_seq(s.raw_text@).len() == 0 {
                *final(state) == (AppState { tree: None, parse_error: None, parse_dirty: false, ..s })
            } else {
                match reparse_result(s.raw_text@, s.format) {
                    Ok((g, v)) => {
                        &&& final(state).tree matches Some(t1)
                        &&& t1.doc() == v
                        &&& t1.coll() == (match s.tree {
                            Some(t) => t.coll(),
                            None => Set::<Seq<char>>::empty(),
                        })
                        &&& t1.query() == (match s.tree {
                            Some(t) => t.query(),
                            None => Seq::<char>::empty(),
                        })
                        &&& strip_lines(t1.rows()) == strip_lines(rebuild_spec(v, t1.coll(), t1.query()))
                        &&& lines_synced(t1, g, s.raw_text@)
                        &&& *final(state) == (AppState {
                            format: g,
                            tree: final(state).tree,
                            parse_error: None,
                            parse_dirty: false,
                            ..s
                        })
                    },
                    Err(e) => final(state).parse_error matches Some(m) && m@ == e && *final(state) == (
                    AppState { parse_error: final(state).parse_error, parse_dirty: false, ..s }),
                }
            }
        }),
{
    let blank = crate::text::trim_chars(&chars_of(state.raw_text.as_str())).len() == 0;
    if blank {
        state.tree = None;
        state.parse_error = None;
        state.parse_dirty = false;
        return;
    }
    let (detected, result) = match state.format.parse(state.raw_text.as_str()) {
        Ok(value) => (state.format, Ok(value)),
        Err(original_err) => match detect_format_and_parse(state.raw_text.as_str(), state.format) {
            Some((fmt, value)) => (fmt, Ok(value)),
            None => (state.format, Err(original_err)),
        },
    };
    match result {
        Ok(value) => {
            match state.tree.take() {
                Some(mut tree) => {
                    tree.update_value(value);
                    state.tree = Some(tree);
                },
                None => {
                    state.tree = Some(JsonTree::from_value(value, PathSet::new()));
                },
            }
            state.format = detected;
            state.parse_error = None;
            refresh_line_numbers(state);
        },
        Err(msg) => {
            state.parse_error = Some(msg);
        },
    }
    state.parse_dirty = false;
}

// ── insert mode ──────────────────────────────────────────────────────────────

/// Keys that change the text in insert mode.
pub open spec fn is_modifying(code: KeyCode) -> bool {
    code is Char || code is Enter || code is Backspace || code is Delete
}

/// What a key does in insert mode.
pub open spec fn insert_post(key: KeyInput, s: AppState, f: AppState, r: Outcome) -> bool {
    &&& (if key.modifiers == MOD_NONE && key.code == KeyCode::Esc {
            r.action is Continue && r.commands@.len() == 0 && r.followup is Nothing && f == (
            AppState { mode: Mode::Normal, ..s })
        } else if key.modifiers == MOD_CONTROL && key.code == KeyCode::Char('a') {
            r.action is Continue && r.commands@.len() == 1 && r.commands@[0] is SelectAll
                && r.followup is Nothing && f == s
        } else {
            &&& r.action is Continue
            &&& r.commands@.len() == 1 && r.commands@[0] is Forward
            &&& r.followup matches Followup::SyncText { modifying } && modifying == is_modifying(key.code)
            &&& if is_modifying(key.code) {
                &&& f.undo_stack.history() == history_push(
                    s.undo_stack.history(),
                    s.current_snapshot(),
                )
                &&& f == (AppState { undo_stack: f.undo_stack, ..s })
            } else {
                f == s
            }
        })
}

/// A key in insert mode: Esc returns to normal mode, Ctrl+A selects all;
/// any other key goes to the widget (a text-changing key after an undo
/// snapshot), and the widget's text comes back to `text_edited`.
fn handle_insert(key: KeyInput, state: &mut AppState) -> (r: Outcome)
    requires
        old(state).wf(),
    ensures
        final(state).wf(),
        insert_post(key, *old(state), *final(state), r),
{
    if key.modifiers == MOD_NONE && key.code == KeyCode::Esc {
        state.mode = Mode::Normal;
        return plain(Action::Continue);
    }
    if key.modifiers == MOD_CONTROL && key.code == KeyCode::Char('a') {
        return with_command(Action::Continue, EditorCommand::SelectAll);
    }
    let modifying = match key.code {
        KeyCode::Char(_) | KeyCode::Enter | KeyCode::Backspace | KeyCode::Delete => true,
        _ => false,
    };
    if modifying {
        state.push_undo();
    }
    let mut commands: Vec<EditorCommand> = Vec::new();
    commands.push(EditorCommand::Forward);
    Outcome { action: Action::Continue, commands, followup: Followup::SyncText { modifying } }
}

/// The widget's text after a key in insert mode: mirror it, and when the
/// key changed the text mark the buffer modified and schedule a reparse
/// (at time `now`).
pub fn text_edited(state: &mut AppState, text: String, modifying: bool, now: u64)
    ensures
        modifying ==> *final(state) == (AppState {
            raw_text: text,
            modified: true,
            parse_dirty: true,
            last_edit: Some(now),
            ..*old(state)
        }),
        !modifying ==> *final(state) == (AppState { raw_text: text, ..*old(state) }),
{
    state.raw_text = text;
    if modifying {
        state.modified = true;
        state.parse_dirty = true;
        state.last_edit = Some(now);
    }
}

// ── tree edit mode ───────────────────────────────────────────────────────────

/// `s` with `c` appended.
fn string_push(s: String, c: char) -> (r: String)
    ensures
        r@ == s@.push(c),
{
    let mut v = chars_of(s.as_str());
    v.push(c);
    string_of(v.as_slice())
}

/// `s` without its last character (`String::pop`).
fn string_pop(s: String) -> (r: String)
    ensures
        r@ == (if s@.len() > 0 {
            s@.drop_last()
        } else {
            s@
        }),
{
    let mut v = chars_of(s.as_str());
    if v.len() > 0 {
        v.pop();
    }
    string_of(v.as_slice())
}

/// The value typed into an edit prompt: the JSON it reads as, else the
/// text itself as a string.
pub open spec fn input_value_spec(s: Seq<char>) -> JVal {
    match serde_json_parse(s) {
        Ok(v) => v,
        Err(_) => JVal::Str(s),
    }
}

/// The value typed as `text`, given what `serde_json` read from it.
pub fn input_value(text: &str, read: Result<JsonValue, JsonSyntaxError>) -> (r: JsonValue)
    ensures
        match read {
            Ok(v) => r@ == v@,
            Err(_) => r@ == JVal::Str(text@),
        },
{
    match read {
        Ok(v) => v,
        Err(_) => JsonValue::String(string_of(chars_of(text).as_slice())),
    }
}

/// Read a typed value: JSON if it parses, else a plain string.
fn parse_value_input(s: &str) -> (r: JsonValue)
    ensures
        r@ == input_value_spec(s@),
{
    input_value(s, crate::codec::serde_json_from_str(s))
}

/// The path of the selected row (empty without one).
pub open spec fn selected_path(s: AppState) -> Seq<char> {
    match selected_row(s) {
        Some(n) => n.path,
        None => Seq::empty(),
    }
}

/// What committing an edit of `kind` with `buffer` does to document `doc`
/// at `path`.
pub open spec fn edit_result(kind: TreeEditKind, doc: JVal, path: Seq<char>, buffer: Seq<char>) -> Result<JVal, Seq<char>> {
    match kind {
        TreeEditKind::AddValue { key } => add_key_spec(doc, path, key@, input_value_spec(buffer)),
        TreeEditKind::RenameKey => rename_spec(doc, path, buffer),
        _ => set_value_spec(doc, path, input_value_spec(buffer)),
    }
}

/// Committing the edit changes nothing but the mode: no tree, the first
/// step of adding a key, or an empty value edit.
pub open spec fn commit_is_step(s: AppState, kind: TreeEditKind, buffer: Seq<char>) -> bool {
    s.tree is None || kind is AddKey || (kind is EditValue && buffer.len() == 0)
}

/// The state after an edit that changed document `nr`: the tree holds it
/// (collapse state and query kept, rows recomputed), the raw text is its
/// serialization, the buffer is modified, the error cleared, the text
/// before recorded for undo, and the mode is normal.
pub open spec fn edit_applied(s: AppState, f: AppState, nr: JVal) -> bool {
    &&& f.tree matches Some(t1)
    &&& t1.wf()
    &&& t1.doc() == nr
    &&& t1.coll() == s.tree->0.coll()
    &&& t1.query() == s.tree->0.query()
    &&& t1.rows() == rebuild_spec(nr, t1.coll(), t1.query())
    &&& f.raw_text@ == serialize_spec(s.format, nr)
    &&& f.undo_stack.history() == history_push(s.undo_stack.history(), s.current_snapshot())
    &&& f == (AppState {
        mode: Mode::Normal,
        tree: f.tree,
        raw_text: f.raw_text,
        modified: true,
        parse_error: None,
        undo_stack: f.undo_stack,
        ..s
    })
}

/// Undoing a tree edit gives back the raw text from before the edit, and
/// leaves it to redo.
pub proof fn lemma_tree_edit_undo(s: AppState, f: AppState, nr: JVal)
    requires
        edit_applied(s, f, nr),
    ensures
        history_undo(f.undo_stack.history(), f.current_snapshot()).1 matches Some(p) && p.text == s.raw_text@,
        history_undo(f.undo_stack.history(), f.current_snapshot()).0.future.last() == f.current_snapshot(),
{
    crate::state::lemma_push_then_undo(s.undo_stack.history(), s.current_snapshot(), f.current_snapshot());
}

/// What committing a tree edit does.
pub open spec fn committed(kind: TreeEditKind, buffer: String, s: AppState, f: AppState, r: Option<EditorCommand>) -> bool {
    &&& (({
            if commit_is_step(s, kind, buffer@) {
                r is None && if s.tree is Some && kind is AddKey {
                    f.mode matches Mode::TreeEdit { kind: TreeEditKind::AddValue { key }, buffer: b }
                        && key@ == buffer@ && b@.len() == 0 && f == (AppState {
                        mode: f.mode,
                        ..s
                    })
                } else {
                    f == (AppState { mode: Mode::Normal, ..s })
                }
            } else {
                let t = s.tree->0;
                match edit_result(kind, t.doc(), selected_path(s), buffer@) {
                    Ok(nr) => {
                        edit_applied(s, f, nr) && (r matches Some(EditorCommand::Load(text))
                            && text@ == f.raw_text@)
                    },
                    Err(e) => r is None && (f.parse_error matches Some(m) && m@ == e)
                        && f.undo_stack.history() == history_push(
                        s.undo_stack.history(),
                        s.current_snapshot(),
                    ) && f == (AppState {
                        mode: Mode::Normal,
                        parse_error: f.parse_error,
                        undo_stack: f.undo_stack,
                        ..s
                    }),
                }
            }
        }))
}

/// Commit a tree-pane edit.  Adding a key moves on to typing its value; an
/// empty value edit is dropped; otherwise the edit is applied at the
/// selected path and the raw text rewritten (returned to load into the
/// widget), or its error shown.
fn commit_tree_edit(state: &mut AppState, kind: TreeEditKind, buffer: String) -> (r: Option<EditorCommand>)
    requires
        old(state).wf(),
    ensures
        final(state).wf(),
        ({
            let s = *old(state);
            if commit_is_step(s, kind, buffer@) {
                r is None && if s.tree is Some && kind is AddKey {
                    final(state).mode matches Mode::TreeEdit { kind: TreeEditKind::AddValue { key }, buffer: b }
                        && key@ == buffer@ && b@.len() == 0 && *final(state) == (AppState {
                        mode: final(state).mode,
                        ..s
                    })
                } else {
                    *final(state) == (AppState { mode: Mode::Normal, ..s })
                }
            } else {
                let t = s.tree->0;
                match edit_result(kind, t.doc(), selected_path(s), buffer@) {
                    Ok(nr) => {
                        edit_applied(s, *final(state), nr) && (r matches Some(EditorCommand::Load(text))
                            && text@ == final(state).raw_text@)
                    },
                    Err(e) => r is None && (final(state).parse_error matches Some(m) && m@ == e)
                        && final(state).undo_stack.history() == history_push(
                        s.undo_stack.history(),
                        s.current_snapshot(),
                    ) && *final(state) == (AppState {
                        mode: Mode::Normal,
                        parse_error: final(state).parse_error,
                        undo_stack: final(state).undo_stack,
                        ..s
                    }),
                }
            }
        }),
{
    state.mode = Mode::Normal;
    let path = match selected_copy(state) {
        Some(n) => n.path,
        None => String::new(),
    };
    if state.tree.is_none() {
        return None;
    }
    match kind {
        TreeEditKind::AddKey => {
            state.mode = Mode::TreeEdit { kind: TreeEditKind::AddValue { key: buffer }, buffer: String::new() };
            return None;
        },
        _ => {},
    }
    let empty = chars_of(buffer.as_str()).len() == 0;
    if empty {
        match kind {
            TreeEditKind::EditValue { .. } => return None,
            _ => {},
        }
    }
    let mut tree = state.tree.take().unwrap();
    let result = match kind {
        TreeEditKind::AddValue { key } => {
            let value = parse_value_input(buffer.as_str());
            tree.add_key(path.as_str(), key, value)
        },
        TreeEditKind::RenameKey => tree.rename_key_at_path(path.as_str(), buffer),
        _ => {
            let value = parse_value_input(buffer.as_str());
            tree.set_value_at_path(path.as_str(), value)
        },
    };
    match result {
        Ok(()) => {
            let new_raw = crate::sync::tree_to_raw(&tree, state.format);
            state.tree = Some(tree);
            state.push_undo();
            state.raw_text = copy_string(&new_raw);
            state.modified = true;
            state.parse_error = None;
            Some(EditorCommand::Load(new_raw))
        },
        Err(e) => {
            state.tree = Some(tree);
            state.push_undo();
            state.parse_error = Some(e);
            None
        },
    }
}

/// A copy of `s`.
fn copy_string(s: &String) -> (r: String)
    ensures
        r == *s,
{
    s.clone()
}

/// What a key does while a tree edit is typed.
pub open spec fn tree_edit_post(key: KeyInput, kind: TreeEditKind, buffer: String, s: AppState, f: AppState, r: Outcome) -> bool {
    &&& (match key.code {
            KeyCode::Esc => r.action is Continue && r.commands@.len() == 0 && f == (AppState {
                mode: Mode::Normal,
                ..s
            }),
            KeyCode::Backspace => r.action is Continue && r.commands@.len() == 0 && (f.mode matches Mode::TreeEdit { kind: k, buffer: b } && k == kind && b@ == (if buffer@.len()
                > 0 {
                buffer@.drop_last()
            } else {
                buffer@
            })) && f == (AppState { mode: f.mode, ..s }),
            KeyCode::Char(c) => r.action is Continue && r.commands@.len() == 0 && (f.mode matches Mode::TreeEdit { kind: k, buffer: b } && k == kind && b@ == buffer@.push(c))
                && f == (AppState { mode: f.mode, ..s }),
            KeyCode::Enter => r.action is Continue && r.followup is Nothing && r.commands@.len() <= 1 && committed(
                kind,
                buffer,
                s,
                f,
                if r.commands@.len() == 0 {
                    None
                } else {
                    Some(r.commands@[0])
                },
            ),
            _ => r.action is Noop && r.commands@.len() == 0 && f == s,
        })
}

/// A key while a tree edit prompt is open: Esc cancels, Backspace and
/// characters edit the buffer, Enter commits.
fn handle_tree_edit(key: KeyInput, state: &mut AppState, kind: TreeEditKind, buffer: String) -> (r: Outcome)
    requires
        old(state).wf(),
    ensures
        final(state).wf(),
        tree_edit_post(key, kind, buffer, *old(state), *final(state), r),
{
    match key.code {
        KeyCode::Esc => {
            state.mode = Mode::Normal;
            plain(Action::Continue)
        },
        KeyCode::Backspace => {
            let b = string_pop(buffer);
            state.mode = Mode::TreeEdit { kind, buffer: b };
            plain(Action::Continue)
        },
        KeyCode::Enter => {
            let c = commit_tree_edit(state, kind, buffer);
            match c {
                Some(cmd) => with_command(Action::Continue, cmd),
                None => plain(Action::Continue),
            }
        },
        KeyCode::Char(c) => {
            let b = string_push(buffer, c);
            state.mode = Mode::TreeEdit { kind, buffer: b };
            plain(Action::Continue)
        },
        _ => plain(Action::Noop),
    }
}

// ── search mode ──────────────────────────────────────────────────────────────

/// Whether row `n` is a target when moving among matches: a search match,
/// and a leaf when `leaves_only`.
pub open spec fn move_target(n: NodeV, leaves_only: bool) -> bool {
    n.search_match && (!leaves_only || !n.kind.spec_is_container())
}

/// The row `k` steps from `cur`, forward or backward, wrapping around
/// `count` rows.
pub open spec fn step_index(cur: nat, count: nat, k: nat, forward: bool) -> nat {
    if forward {
        ((cur + k) as int % (count as int)) as nat
    } else {
        ((cur + count - k) as int % (count as int)) as nat
    }
}

/// The nearest target row from `cur` on, at step `k` or later.
pub open spec fn scan_match(rows: Seq<NodeV>, cur: nat, forward: bool, leaves_only: bool, k: nat) -> Option<nat>
    decreases rows.len() + 1 - k,
{
    if k == 0 || k > rows.len() {
        None
    } else if move_target(rows[step_index(cur, rows.len(), k, forward) as int], leaves_only) {
        Some(step_index(cur, rows.len(), k, forward))
    } else {
        scan_match(rows, cur, forward, leaves_only, k + 1)
    }
}

/// The state after moving to the next (or previous) target row, wrapping;
/// unchanged when there is none.
pub open spec fn moved_to_match(s: AppState, forward: bool, leaves_only: bool) -> AppState {
    match s.tree {
        Some(t) => match scan_match(t.rows(), s.tree_selected as nat, forward, leaves_only, 1) {
            Some(i) => select_row(s, i as usize),
            None => s,
        },
        None => s,
    }
}

/// Move the cursor to the next (`forward`) or previous match, wrapping
/// around; with `leaves_only` only leaf matches count.
fn search_move_impl(state: &mut AppState, forward: bool, leaves_only: bool)
    requires
        old(state).tree_scroll <= ROW_CAP,
    ensures
        *final(state) == moved_to_match(*old(state), forward, leaves_only),
{
    let found = match &state.tree {
        Some(t) => {
            let nodes = t.flat_nodes();
            let count = nodes.len();
            let current = state.tree_selected;
            let ghost rows = t.rows();
            let mut found: Option<usize> = None;
            let mut k: usize = 0;
            while k < count && found.is_none()
                invariant
                    k <= count,
                    count == rows.len(),
                    rows == crate::tree::rows_view(nodes@),
                    rows == t.rows(),
                    found is None ==> scan_match(rows, current as nat, forward, leaves_only, (k + 1) as nat)
                        == scan_match(rows, current as nat, forward, leaves_only, 1),
                    found matches Some(i) ==> scan_match(rows, current as nat, forward, leaves_only, 1)
                        == Some(i as nat),
                decreases count - k,
            {
                let i = if forward {
                    ((current as u128 + k as u128 + 1) % count as u128) as usize
                } else {
                    ((current as u128 + count as u128 - k as u128 - 1) % count as u128) as usize
                };
                assert(i == step_index(current as nat, count as nat, (k + 1) as nat, forward));
                assert(rows[i as int] == nodes@[i as int]@);
                let n = &nodes[i];
                if n.search_match && (!leaves_only || !n.kind.is_container()) {
                    found = Some(i);
                }
                k = k + 1;
            }
            found
        },
        None => None,
    };
    match found {
        Some(i) => {
            state.tree_selected = i;
            state.ensure_visible();
        },
        None => {},
    }
}

/// The state after the query is re-applied: the tree filters by it and the
/// cursor goes to the first match, if any.  Unchanged without a tree.
pub open spec fn query_applied(s: AppState, f: AppState) -> bool {
    match s.tree {
        Some(t) => {
            &&& f.tree matches Some(t1)
            &&& t1.wf() && t1.doc() == t.doc() && t1.coll() == t.coll() && t1.query() == s.search_query@
            &&& t1.rows() == rebuild_spec(t1.doc(), t1.coll(), t1.query())
            &&& {
                ||| (forall|j: int| 0 <= j < t1.rows().len() ==> !t1.rows()[j].search_match) && f == (
                AppState { tree: f.tree, ..s })
                ||| exists|i: int|
                    0 <= i < t1.rows().len() && #[trigger] t1.rows()[i].search_match && (forall|j: int|
                        0 <= j < i ==> !t1.rows()[j].search_match) && f == select_row(
                        AppState { tree: f.tree, ..s },
                        i as usize,
                    )
            }
        },
        None => f == s,
    }
}

/// Apply the search query to the tree and select the first match.
fn search_apply_query(state: &mut AppState)
    requires
        old(state).wf(),
        old(state).in_bounds(),
    ensures
        final(state).wf(),
        query_applied(*old(state), *final(state)),
{
    let mut tree = match state.tree.take() {
        Some(t) => t,
        None => return,
    };
    tree.set_search(state.search_query.as_str());
    let first = tree.first_search_match();
    state.tree = Some(tree);
    match first {
        Some(i) => {
            state.tree_selected = i;
            state.ensure_visible();
        },
        None => {},
    }
}

/// The state after the search is cancelled: normal mode, no query, the
/// tree unfiltered, the cursor clamped and shown.
pub open spec fn search_cancelled(s: AppState, f: AppState) -> bool {
    &&& f.search_query@.len() == 0
    &&& match s.tree {
        Some(t) => f.tree matches Some(t1) && t1.wf() && t1.doc() == t.doc() && t1.coll() == t.coll()
            && t1.query().len() == 0 && t1.rows() == rebuild_spec(t1.doc(), t1.coll(), t1.query()),
        None => f.tree is None,
    }
    &&& f == clamp_and_show(
        AppState { mode: Mode::Normal, search_query: f.search_query, tree: f.tree, ..s },
    )
}

/// Clear the search query and the tree's filter.
fn clear_query(state: &mut AppState)
    requires
        old(state).wf(),
    ensures
        final(state).wf(),
        final(state).search_query@.len() == 0,
        match old(state).tree {
            Some(t) => final(state).tree matches Some(t1) && t1.wf() && t1.doc() == t.doc() && t1.coll()
                == t.coll() && t1.query().len() == 0 && t1.rows() == rebuild_spec(
                t1.doc(),
                t1.coll(),
                t1.query(),
            ),
            None => final(state).tree is None,
        },
        *final(state) == (AppState {
            search_query: final(state).search_query,
            tree: final(state).tree,
            ..*old(state)
        }),
{
    state.search_query = String::new();
    match state.tree.take() {
        Some(mut t) => {
            t.clear_search();
            state.tree = Some(t);
        },
        None => {},
    }
}

/// Cancel the search: clear the filter, back to normal mode, keep the
/// cursor (clamped to the larger tree).
fn search_cancel(state: &mut AppState)
    requires
        old(state).wf(),
        old(state).in_bounds(),
    ensures
        final(state).wf(),
        search_cancelled(*old(state), *final(state)),
{
    state.mode = Mode::Normal;
    clear_query(state);
    state.clamp_tree_selection();
    state.ensure_visible();
}

/// The path a search commit jumps to: the selected row's when it is a
/// match, else the first match's.
pub open spec fn commit_target(s: AppState) -> Option<Seq<char>> {
    match selected_row(s) {
        Some(n) if n.search_match => Some(n.path),
        _ => match s.tree {
            Some(t) => if exists|i: int| 0 <= i < t.rows().len() && #[trigger] t.rows()[i].search_match {
                let i = choose|i: int|
                    0 <= i < t.rows().len() && #[trigger] t.rows()[i].search_match && forall|j: int|
                        0 <= j < i ==> !t.rows()[j].search_match;
                Some(t.rows()[i].path)
            } else {
                None
            },
            None => None,
        },
    }
}

/// The path a search commit jumps to (see `commit_target`).
fn commit_target_exec(state: &AppState) -> (r: Option<String>)
    ensures
        match commit_target(*state) {
            Some(p) => r matches Some(q) && q@ == p,
            None => r is None,
        },
{
    match selected_copy(state) {
        Some(n) => if n.search_match {
            return Some(n.path);
        },
        None => {},
    }
    match &state.tree {
        Some(t) => match t.first_search_match() {
            Some(i) => {
                let nodes = t.flat_nodes();
                assert(t.rows()[i as int] == nodes@[i as int]@);
                let ghost j = choose|j: int|
                    0 <= j < t.rows().len() && #[trigger] t.rows()[j].search_match && forall|k: int|
                        0 <= k < j ==> !t.rows()[k].search_match;
                assert(t.rows()[i as int].search_match);
                assert(j == i);
                Some(copy_string(&nodes[i].path))
            },
            None => None,
        },
        None => None,
    }
}

/// The state after a search commit: normal mode, no query, the tree
/// unfiltered; when there is a target path, its ancestors are expanded, its
/// row (if visible) selected and shown, the tree pane focused, and the raw
/// pane's cursor moved to the path's line.
pub open spec fn search_committed(s: AppState, f: AppState, r: Seq<EditorCommand>) -> bool {
    match commit_target(s) {
        None => r.len() == 0 && search_cleared(s, f) && f == (AppState {
            mode: Mode::Normal,
            search_query: f.search_query,
            tree: f.tree,
            ..s
        }),
        Some(p) => {
            &&& f.search_query@.len() == 0
            &&& f.tree matches Some(t1)
            &&& t1.wf() && t1.doc() == s.tree->0.doc() && t1.query().len() == 0
            &&& t1.coll() == crate::tree::expanded(s.tree->0.coll(), p)
            &&& t1.rows() == rebuild_spec(t1.doc(), t1.coll(), t1.query())
            &&& match s.format.line_spec(s.raw_text@, p) {
                Some(l) => r == seq![EditorCommand::Jump((l as usize) as u16, 0)],
                None => r.len() == 0,
            }
            &&& {
                let g = AppState {
                    mode: Mode::Normal,
                    search_query: f.search_query,
                    tree: f.tree,
                    focus: Focus::TreePane,
                    ..s
                };
                ||| (forall|j: int| 0 <= j < t1.rows().len() ==> t1.rows()[j].path != p) && f == g
                ||| exists|i: int| #[trigger] first_with_path(t1.rows(), p, i) && f == select_row(g, i as usize)
            }
        },
    }
}

/// The tree after clearing the search: same document and collapse state,
/// no query, rows recomputed.
pub open spec fn search_cleared(s: AppState, f: AppState) -> bool {
    &&& f.search_query@.len() == 0
    &&& match s.tree {
        Some(t) => f.tree matches Some(t1) && t1.wf() && t1.doc() == t.doc() && t1.coll() == t.coll()
            && t1.query().len() == 0 && t1.rows() == rebuild_spec(t1.doc(), t1.coll(), t1.query()),
        None => f.tree is None,
    }
}

/// Commit the search: clear the filter, expand to the chosen match, select
/// it and move the raw pane's cursor to its line.
fn search_commit(state: &mut AppState) -> (r: Vec<EditorCommand>)
    requires
        old(state).wf(),
        old(state).in_bounds(),
    ensures
        final(state).wf(),
        search_committed(*old(state), *final(state), r@),
{
    let target = commit_target_exec(state);
    state.mode = Mode::Normal;
    clear_query(state);
    let mut commands: Vec<EditorCommand> = Vec::new();
    let path = match target {
        Some(p) => p,
        None => return commands,
    };
    let mut tree = state.tree.take().unwrap();
    tree.expand_to_path(path.as_str());
    let idx = tree.index_of_path(path.as_str());
    state.tree = Some(tree);
    let ghost before_select = *state;
    match idx {
        Some(i) => {
            state.tree_selected = i;
            state.ensure_visible();
        },
        None => {},
    }
    match jump_to_path_in_raw(state, path.as_str()) {
        Some(c) => commands.push(c),
        None => {},
    }
    state.focus = Focus::TreePane;
    proof {
        if let Some(i) = idx {
            assert(first_with_path(state.tree->0.rows(), path@, i as int));
        }
    }
    commands
}

/// What a key does in search mode.
pub open spec fn search_post(key: KeyInput, s: AppState, f: AppState, r: Outcome) -> bool {
    &&& (({
            match key.code {
                KeyCode::Esc => r.action is Continue && r.commands@.len() == 0 && search_cancelled(s, f),
                KeyCode::Enter => r.action is Continue && search_committed(s, f, r.commands@),
                KeyCode::Up | KeyCode::Char('k') => r.action is Continue && r.commands@.len() == 0 && f
                    == moved_to_match(s, false, false),
                KeyCode::Down | KeyCode::Char('j') => r.action is Continue && r.commands@.len() == 0 && f
                    == moved_to_match(s, true, false),
                KeyCode::Char('r') if key.modifiers == MOD_CONTROL => {
                    let m = if selected_row(s) matches Some(n) && n.kind.spec_is_container() {
                        moved_to_match(s, true, true)
                    } else {
                        s
                    };
                    r.action is Continue && r.commands@.len() == 0 && (f.mode matches Mode::Replace {
                        replacement,
                    } && replacement@.len() == 0) && f == (AppState { mode: f.mode, ..m })
                },
                KeyCode::Backspace => r.action is Continue && r.commands@.len() == 0 && query_applied(
                    AppState {
                        search_query: f.search_query,
                        ..s
                    },
                    f,
                ) && f.search_query@ == (if s.search_query@.len() > 0 {
                    s.search_query@.drop_last()
                } else {
                    s.search_query@
                }),
                KeyCode::Char(c) => r.action is Continue && r.commands@.len() == 0 && query_applied(
                    AppState { search_query: f.search_query, ..s },
                    f,
                ) && f.search_query@ == s.search_query@.push(c),
                _ => r.action is Noop && r.commands@.len() == 0 && f == s,
            }
        }))
}

/// A key in search mode: Esc cancels, Enter commits, Up/`k` and Down/`j`
/// move among matches, Ctrl+R switches to replace (on a leaf match),
/// Backspace and other characters edit the query.
fn handle_search(key: KeyInput, state: &mut AppState) -> (r: Outcome)
    requires
        old(state).wf(),
        old(state).in_bounds(),
    ensures
        final(state).wf(),
        search_post(key, *old(state), *final(state), r),
{
    match key.code {
        KeyCode::Esc => {
            search_cancel(state);
            plain(Action::Continue)
        },
        KeyCode::Enter => {
            let commands = search_commit(state);
            Outcome { action: Action::Continue, commands, followup: Followup::Nothing }
        },
        KeyCode::Up | KeyCode::Char('k') => {
            search_move_impl(state, false, false);
            plain(Action::Continue)
        },
        KeyCode::Down | KeyCode::Char('j') => {
            search_move_impl(state, true, false);
            plain(Action::Continue)
        },
        KeyCode::Char('r') if key.modifiers == MOD_CONTROL => {
            let on_container = match selected_copy(state) {
                Some(n) => n.kind.is_container(),
                None => false,
            };
            if on_container {
                search_move_impl(state, true, true);
            }
            state.mode = Mode::Replace { replacement: String::new() };
            plain(Action::Continue)
        },
        KeyCode::Backspace => {
            let q = string_pop(copy_string(&state.search_query));
            state.search_query = q;
            search_apply_query(state);
            plain(Action::Continue)
        },
        KeyCode::Char(c) => {
            let q = string_push(copy_string(&state.search_query), c);
            state.search_query = q;
            search_apply_query(state);
            plain(Action::Continue)
        },
        _ => plain(Action::Noop),
    }
}

// ── replace mode ─────────────────────────────────────────────────────────────

/// The document-level effect of a replacement of the selected match: its
/// value becomes the typed value; the raw text is rewritten from the new
/// document, the text before is recorded for undo, the buffer marked
/// modified and the error cleared.
pub open spec fn replaced(s: AppState, f: AppState, nr: JVal) -> bool {
    &&& f.tree matches Some(t1)
    &&& t1.wf()
    &&& t1.doc() == nr
    &&& t1.coll() == s.tree->0.coll()
    &&& f.raw_text@ == serialize_spec(s.format, nr)
    &&& f.undo_stack.history() == history_push(s.undo_stack.history(), s.current_snapshot())
    &&& f.modified
    &&& f.parse_error is None
    &&& f.format == s.format
    &&& f.file_path == s.file_path
}

/// What replacing the match under the cursor does.
pub open spec fn replaced_one(replacement: Seq<char>, s: AppState, f: AppState, r: Option<EditorCommand>) -> bool {
    &&& (({
            match selected_row(s) {
                None => r is None && f == s,
                Some(n) => if !move_target(n, true) {
                    r is None && f == moved_to_match(s, true, true)
                } else {
                    let t = s.tree->0;
                    match set_value_spec(t.doc(), n.path, input_value_spec(replacement)) {
                        Ok(nr) => {
                            replaced(s, f, nr) && (r matches Some(EditorCommand::Load(text)) && text@
                                == f.raw_text@)
                        },
                        Err(e) => r is None && (f.parse_error matches Some(m) && m@ == e)
                            && f.undo_stack.history() == history_push(
                            s.undo_stack.history(),
                            s.current_snapshot(),
                        ) && f == (AppState {
                            parse_error: f.parse_error,
                            undo_stack: f.undo_stack,
                            ..s
                        }),
                    }
                },
            }
        }))
}

/// Replace the value of the selected match (a leaf) with the typed value,
/// then move to the next leaf match, or, with none left, leave replace mode
/// and clear the filter.  On a row that is not a leaf match, move to the
/// next leaf match instead.  The filter is then re-applied to the new
/// document.
fn replace_current(state: &mut AppState, replacement: &str) -> (r: Option<EditorCommand>)
    requires
        old(state).wf(),
        old(state).in_bounds(),
    ensures
        final(state).wf(),
        ({
            let s = *old(state);
            let f = *final(state);
            match selected_row(s) {
                None => r is None && f == s,
                Some(n) => if !move_target(n, true) {
                    r is None && f == moved_to_match(s, true, true)
                } else {
                    let t = s.tree->0;
                    match set_value_spec(t.doc(), n.path, input_value_spec(replacement@)) {
                        Ok(nr) => {
                            replaced(s, f, nr) && (r matches Some(EditorCommand::Load(text)) && text@
                                == f.raw_text@)
                        },
                        Err(e) => r is None && (f.parse_error matches Some(m) && m@ == e)
                            && f.undo_stack.history() == history_push(
                            s.undo_stack.history(),
                            s.current_snapshot(),
                        ) && f == (AppState {
                            parse_error: f.parse_error,
                            undo_stack: f.undo_stack,
                            ..s
                        }),
                    }
                },
            }
        }),
{
    let node = match selected_copy(state) {
        Some(n) => n,
        None => return None,
    };
    if !node.search_match || node.kind.is_container() {
        search_move_impl(state, true, true);
        return None;
    }
    let new_value = parse_value_input(replacement);
    let mut tree = state.tree.take().unwrap();
    match tree.set_value_at_path(node.path.as_str(), new_value) {
        Err(e) => {
            state.tree = Some(tree);
            state.push_undo();
            state.parse_error = Some(e);
            return None;
        },
        Ok(()) => {},
    }
    let new_raw = crate::sync::tree_to_raw(&tree, state.format);
    tree.set_search(state.search_query.as_str());
    let has_more = {
        let nodes = tree.flat_nodes();
        let mut any = false;
        let mut i: usize = 0;
        while i < nodes.len()
            invariant
                i <= nodes@.len(),
            decreases nodes@.len() - i,
        {
            if nodes[i].search_match && !nodes[i].kind.is_container() {
                any = true;
            }
            i = i + 1;
        }
        any
    };
    state.tree = Some(tree);
    state.push_undo();
    state.raw_text = copy_string(&new_raw);
    state.modified = true;
    state.parse_error = None;
    if has_more {
        search_move_impl(state, true, true);
    } else {
        state.mode = Mode::Normal;
        clear_query(state);
        state.clamp_tree_selection();
    }
    Some(EditorCommand::Load(new_raw))
}

/// The paths of the rows that are leaf matches, in order.
pub open spec fn leaf_match_paths(rows: Seq<NodeV>) -> Seq<Seq<char>>
    decreases rows.len(),
{
    if rows.len() == 0 {
        Seq::empty()
    } else if move_target(rows.last(), true) {
        leaf_match_paths(rows.drop_last()).push(rows.last().path)
    } else {
        leaf_match_paths(rows.drop_last())
    }
}

/// Replace-all targets leaf matches only: the paths it sets are those of the
/// rows flagged as matches whose kind is not a container, in row order and
/// one per such row; each is the path of such a row.
pub proof fn lemma_replace_all_targets_leaves(rows: Seq<NodeV>)
    ensures
        leaf_match_paths(rows) == rows.filter_map(
            |n: NodeV|
                if n.search_match && !n.kind.spec_is_container() {
                    Some(n.path)
                } else {
                    None
                },
        ),
        forall|k: int|
            #![trigger leaf_match_paths(rows)[k]]
            0 <= k < leaf_match_paths(rows).len() ==> exists|j: int|
                #![trigger rows[j]]
                0 <= j < rows.len() && rows[j].path == leaf_match_paths(rows)[k] && rows[j].search_match
                    && !rows[j].kind.spec_is_container(),
    decreases rows.len(),
{
    if rows.len() > 0 {
        let init = rows.drop_last();
        lemma_replace_all_targets_leaves(init);
        let lp = leaf_match_paths(rows);
        let li = leaf_match_paths(init);
        if move_target(rows.last(), true) {
            assert(lp == li.push(rows.last().path));
        } else {
            assert(lp == li);
        }
        assert forall|k: int| #![trigger lp[k]] 0 <= k < lp.len() implies exists|j: int|
            #![trigger rows[j]]
            0 <= j < rows.len() && rows[j].path == lp[k] && rows[j].search_match
                && !rows[j].kind.spec_is_container() by {
            if k < li.len() {
                assert(lp[k] == li[k]);
                let j = choose|j: int|
                    #![trigger init[j]]
                    0 <= j < init.len() && init[j].path == li[k] && init[j].search_match
                        && !init[j].kind.spec_is_container();
                assert(rows[j] == init[j]);
            } else {
                let j = rows.len() - 1;
                assert(move_target(rows.last(), true));
                assert(lp[k] == rows.last().path);
                assert(rows[j] == rows.last());
            }
        }
    }
}

/// Set the value at each path in turn; stop at the first error, with the
/// document as edited so far.
pub open spec fn set_each(doc: JVal, paths: Seq<Seq<char>>, v: JVal) -> (JVal, Option<Seq<char>>)
    decreases paths.len(),
{
    if paths.len() == 0 {
        (doc, None)
    } else {
        match set_value_spec(doc, paths[0], v) {
            Ok(d) => set_each(d, paths.drop_first(), v),
            Err(e) => (doc, Some(e)),
        }
    }
}

/// What replacing every leaf match does.
pub open spec fn replaced_every(replacement: Seq<char>, s: AppState, f: AppState, r: Option<EditorCommand>) -> bool {
    &&& (({
            let paths = match s.tree {
                Some(t) => leaf_match_paths(t.rows()),
                None => Seq::empty(),
            };
            if paths.len() == 0 {
                r is None && search_cleared(s, f) && f == (AppState {
                    mode: Mode::Normal,
                    search_query: f.search_query,
                    tree: f.tree,
                    ..s
                })
            } else {
                let t = s.tree->0;
                let (nr, err) = set_each(t.doc(), paths, input_value_spec(replacement));
                &&& f.tree matches Some(t1)
                &&& t1.wf() && t1.doc() == nr && t1.coll() == t.coll() && t1.query().len() == 0
                &&& t1.rows() == rebuild_spec(nr, t1.coll(), t1.query())
                &&& f.raw_text@ == serialize_spec(s.format, nr)
                &&& (r matches Some(EditorCommand::Load(text)) && text@ == f.raw_text@)
                &&& f.undo_stack.history() == history_push(s.undo_stack.history(), s.current_snapshot())
                &&& match err {
                    Some(e) => f.parse_error matches Some(m) && m@ == e,
                    None => f.parse_error is None,
                }
                &&& f.search_query@.len() == 0
                &&& f == clamp_and_show_sel(
                    AppState {
                        mode: Mode::Normal,
                        search_query: f.search_query,
                        tree: f.tree,
                        raw_text: f.raw_text,
                        modified: true,
                        parse_error: f.parse_error,
                        undo_stack: f.undo_stack,
                        ..s
                    },
                )
            }
        }))
}

/// Replace the value of every leaf match with the typed value in one
/// pass, then leave replace mode and clear the filter.  The first error
/// stops the pass and is shown; the edits before it stay.
fn replace_all(state: &mut AppState, replacement: &str) -> (r: Option<EditorCommand>)
    requires
        old(state).wf(),
        old(state).in_bounds(),
    ensures
        final(state).wf(),
        ({
            let s = *old(state);
            let f = *final(state);
            let paths = match s.tree {
                Some(t) => leaf_match_paths(t.rows()),
                None => Seq::empty(),
            };
            if paths.len() == 0 {
                r is None && search_cleared(s, f) && f == (AppState {
                    mode: Mode::Normal,
                    search_query: f.search_query,
                    tree: f.tree,
                    ..s
                })
            } else {
                let t = s.tree->0;
                let (nr, err) = set_each(t.doc(), paths, input_value_spec(replacement@));
                &&& f.tree matches Some(t1)
                &&& t1.wf() && t1.doc() == nr && t1.coll() == t.coll() && t1.query().len() == 0
                &&& t1.rows() == rebuild_spec(nr, t1.coll(), t1.query())
                &&& f.raw_text@ == serialize_spec(s.format, nr)
                &&& (r matches Some(EditorCommand::Load(text)) && text@ == f.raw_text@)
                &&& f.undo_stack.history() == history_push(s.undo_stack.history(), s.current_snapshot())
                &&& match err {
                    Some(e) => f.parse_error matches Some(m) && m@ == e,
                    None => f.parse_error is None,
                }
                &&& f.search_query@.len() == 0
                &&& f == clamp_and_show_sel(
                    AppState {
                        mode: Mode::Normal,
                        search_query: f.search_query,
                        tree: f.tree,
                        raw_text: f.raw_text,
                        modified: true,
                        parse_error: f.parse_error,
                        undo_stack: f.undo_stack,
                        ..s
                    },
                )
            }
        }),
{
    let paths: Vec<String> = match &state.tree {
        Some(t) => {
            let nodes = t.flat_nodes();
            let ghost rows = t.rows();
            let mut ps: Vec<String> = Vec::new();
            let n = nodes.len();
            for i in 0..n
                invariant
                    n == nodes@.len(),
                    rows == crate::tree::rows_view(nodes@),
                    ps@.map_values(|x: String| x@) == leaf_match_paths(rows.take(i as int)),
            {
                assert(rows.take(i + 1).drop_last() =~= rows.take(i as int));
                assert(rows[i as int] == nodes@[i as int]@);
                if nodes[i].search_match && !nodes[i].kind.is_container() {
                    let ghost before = ps@.map_values(|x: String| x@);
                    ps.push(copy_string(&nodes[i].path));
                    assert(ps@.map_values(|x: String| x@) =~= before.push(rows[i as int].path));
                }
            }
            assert(rows.take(n as int) =~= rows);
            ps
        },
        None => Vec::new(),
    };
    if paths.len() == 0 {
        state.mode = Mode::Normal;
        clear_query(state);
        return None;
    }
    let mut tree = state.tree.take().unwrap();
    let ghost t0 = tree;
    let ghost pv = paths@.map_values(|x: String| x@);
    let ghost v0 = input_value_spec(replacement@);
    let mut first_error: Option<String> = None;
    let n = paths.len();
    let mut i: usize = 0;
    assert(pv.skip(0) =~= pv);
    while i < n && first_error.is_none()
        invariant
            n == paths@.len(),
            i <= n,
            pv == paths@.map_values(|x: String| x@),
            v0 == input_value_spec(replacement@),
            tree.wf(),
            tree.coll() == t0.coll(),
            tree.query() == t0.query(),
            first_error is None ==> set_each(tree.doc(), pv.skip(i as int), v0) == set_each(t0.doc(), pv, v0),
            first_error matches Some(e) ==> set_each(t0.doc(), pv, v0) == (tree.doc(), Some(e@)),
        decreases n - i,
    {
        let val = parse_value_input(replacement);
        assert(pv.skip(i as int)[0] == paths@[i as int]@);
        assert(pv.skip(i as int).drop_first() =~= pv.skip(i + 1));
        let ghost d0 = tree.doc();
        assert(pv.skip(i as int).len() > 0);
        match tree.set_value_at_path_no_rebuild(paths[i].as_str(), val) {
            Ok(()) => {
                assert(set_value_spec(d0, pv.skip(i as int)[0], v0) == Ok::<JVal, Seq<char>>(tree.doc()));
                assert(set_each(d0, pv.skip(i as int), v0) == set_each(tree.doc(), pv.skip(i as int).drop_first(), v0));
                assert(set_each(d0, pv.skip(i as int), v0) == set_each(tree.doc(), pv.skip(i + 1), v0));
            },
            Err(e) => {
                assert(set_each(d0, pv.skip(i as int), v0) == (d0, Some(e@)));
                first_error = Some(e);
            },
        }
        i = i + 1;
    }
    proof {
        if first_error is None {
            assert(pv.skip(n as int).len() == 0);
        }
    }
    tree.rebuild();
    let new_raw = crate::sync::tree_to_raw(&tree, state.format);
    tree.clear_search();
    state.tree = Some(tree);
    state.push_undo();
    state.raw_text = copy_string(&new_raw);
    state.modified = true;
    state.parse_error = first_error;
    state.mode = Mode::Normal;
    state.search_query = String::new();
    state.clamp_tree_selection();
    Some(EditorCommand::Load(new_raw))
}

/// The state with the cursor clamped to the last row (not scrolled).
pub open spec fn clamp_and_show_sel(s: AppState) -> AppState {
    AppState {
        tree_selected: if s.tree_selected <= s.last_row() {
            s.tree_selected
        } else {
            s.last_row() as usize
        },
        ..s
    }
}

/// Put `replacement` back as the replace prompt's text while replace mode
/// is still on.
fn keep_replacement(state: &mut AppState, replacement: String)
    ensures
        old(state).mode is Replace ==> *final(state) == (AppState {
            mode: Mode::Replace { replacement },
            ..*old(state)
        }),
        !(old(state).mode is Replace) ==> *final(state) == *old(state),
{
    if matches!(state.mode, Mode::Replace { .. }) {
        state.mode = Mode::Replace { replacement };
    }
}

/// What a key does in replace mode.
pub open spec fn replace_post(key: KeyInput, replacement: String, s: AppState, f: AppState, r: Outcome) -> bool {
    &&& (({
            match key.code {
                KeyCode::Esc => r.action is Continue && f == (AppState { mode: Mode::Search, ..s }),
                KeyCode::Up => r.action is Continue && f == (AppState {
                    mode: f.mode,
                    ..moved_to_match(s, false, false)
                }) && (f.mode matches Mode::Replace { replacement: b } && b@ == replacement@),
                KeyCode::Down => r.action is Continue && f == (AppState {
                    mode: f.mode,
                    ..moved_to_match(s, true, false)
                }) && (f.mode matches Mode::Replace { replacement: b } && b@ == replacement@),
                KeyCode::Enter => r.action is Continue && r.followup is Nothing && r.commands@.len() <= 1 && exists|
                    m: AppState,
                | replaced_one(
                    replacement@,
                    s,
                    m,
                    if r.commands@.len() == 0 {
                        None
                    } else {
                        Some(r.commands@[0])
                    },
                ) && f == (if m.mode is Replace {
                    AppState { mode: Mode::Replace { replacement }, ..m }
                } else {
                    m
                }),
                KeyCode::Char('a') if key.modifiers == MOD_CONTROL => r.action is Continue && r.followup is Nothing
                    && r.commands@.len() <= 1 && replaced_every(
                    replacement@,
                    s,
                    f,
                    if r.commands@.len() == 0 {
                        None
                    } else {
                        Some(r.commands@[0])
                    },
                ),
                KeyCode::Backspace => r.action is Continue && (f.mode matches Mode::Replace {
                    replacement: b,
                } && b@ == (if replacement@.len() > 0 {
                    replacement@.drop_last()
                } else {
                    replacement@
                })) && f == (AppState { mode: f.mode, ..s }),
                KeyCode::Char(c) if !holds(key.modifiers, MOD_CONTROL) && !holds(key.modifiers, MOD_ALT) => r.action
                    is Continue && (f.mode matches Mode::Replace { replacement: b } && b@
                    == replacement@.push(c)) && f == (AppState { mode: f.mode, ..s }),
                _ => r.action is Noop && f == s,
            }
        }))
}

/// A key in replace mode: Esc goes back to search, Up/Down move among
/// matches, Enter replaces the selected match, Ctrl+A replaces all, and
/// Backspace and characters (without Control or Alt) edit the
/// replacement.
fn handle_replace(key: KeyInput, state: &mut AppState, replacement: String) -> (r: Outcome)
    requires
        old(state).wf(),
        old(state).in_bounds(),
    ensures
        final(state).wf(),
        replace_post(key, replacement, *old(state), *final(state), r),
{
    match key.code {
        KeyCode::Esc => {
            state.mode = Mode::Search;
            plain(Action::Continue)
        },
        KeyCode::Up => {
            search_move_impl(state, false, false);
            state.mode = Mode::Replace { replacement };
            plain(Action::Continue)
        },
        KeyCode::Down => {
            search_move_impl(state, true, false);
            state.mode = Mode::Replace { replacement };
            plain(Action::Continue)
        },
        KeyCode::Enter => {
            let c = replace_current(state, replacement.as_str());
            keep_replacement(state, replacement);
            match c {
                Some(cmd) => with_command(Action::Continue, cmd),
                None => plain(Action::Continue),
            }
        },
        KeyCode::Char('a') if key.modifiers == MOD_CONTROL => {
            let c = replace_all(state, replacement.as_str());
            match c {
                Some(cmd) => with_command(Action::Continue, cmd),
                None => plain(Action::Continue),
            }
        },
        KeyCode::Backspace => {
            let b = string_pop(replacement);
            state.mode = Mode::Replace { replacement: b };
            plain(Action::Continue)
        },
        KeyCode::Char(c) => {
            if !held(key.modifiers, MOD_CONTROL) && !held(key.modifiers, MOD_ALT) {
                let b = string_push(replacement, c);
                state.mode = Mode::Replace { replacement: b };
                plain(Action::Continue)
            } else {
                plain(Action::Noop)
            }
        },
        _ => plain(Action::Noop),
    }
}

// ── confirmation prompts ─────────────────────────────────────────────────────

/// What a confirmed action does.
pub open spec fn confirmed(action: ConfirmAction, s: AppState, f: AppState, r: Outcome) -> bool {
    &&& (({
            match action {
                ConfirmAction::DeleteNode => r.action is Continue && match s.tree {
                    None => r.commands@.len() == 0 && f.undo_stack.history() == history_push(
                        s.undo_stack.history(),
                        s.current_snapshot(),
                    ) && f == (AppState { undo_stack: f.undo_stack, ..s }),
                    Some(t) => match crate::value::delete_value_spec(t.doc(), selected_path(s)) {
                        Ok(nr) => {
                            &&& f.tree matches Some(t1)
                            &&& t1.wf() && t1.doc() == nr && t1.coll() == t.coll().remove(selected_path(s))
                                && t1.query() == t.query()
                            &&& t1.rows() == rebuild_spec(nr, t1.coll(), t1.query())
                            &&& f.raw_text@ == serialize_spec(s.format, nr)
                            &&& r.commands@.len() == 1 && (r.commands@[0] matches EditorCommand::Load(text)
                                && text@ == f.raw_text@)
                            &&& f.undo_stack.history() == history_push(
                                s.undo_stack.history(),
                                s.current_snapshot(),
                            )
                            &&& f == clamp_and_show_sel(
                                AppState {
                                    tree: f.tree,
                                    raw_text: f.raw_text,
                                    modified: true,
                                    undo_stack: f.undo_stack,
                                    ..s
                                },
                            )
                        },
                        Err(e) => r.commands@.len() == 0 && (f.parse_error matches Some(m) && m@ == e)
                            && f.undo_stack.history() == history_push(
                            s.undo_stack.history(),
                            s.current_snapshot(),
                        ) && f == (AppState {
                            parse_error: f.parse_error,
                            undo_stack: f.undo_stack,
                            ..s
                        }),
                    },
                },
                ConfirmAction::QuitUnsaved => r.action is Quit && f == s,
                ConfirmAction::SaveAs { path } => r.action is Save && f == (AppState {
                    file_path: Some(path),
                    ..s
                }),
                ConfirmAction::DiscardAndOpen { path } => r.action == Action::OpenFile(path) && f == s,
            }
        }))
}

/// Carry out a confirmed action: delete the selected node (rewriting the
/// raw text; the text before is recorded for undo), quit, save to a path,
/// or open a file.
fn execute_confirm_action(state: &mut AppState, action: ConfirmAction) -> (r: Outcome)
    requires
        old(state).wf(),
    ensures
        final(state).wf(),
        ({
            let s = *old(state);
            let f = *final(state);
            match action {
                ConfirmAction::DeleteNode => r.action is Continue && match s.tree {
                    None => r.commands@.len() == 0 && f.undo_stack.history() == history_push(
                        s.undo_stack.history(),
                        s.current_snapshot(),
                    ) && f == (AppState { undo_stack: f.undo_stack, ..s }),
                    Some(t) => match crate::value::delete_value_spec(t.doc(), selected_path(s)) {
                        Ok(nr) => {
                            &&& f.tree matches Some(t1)
                            &&& t1.wf() && t1.doc() == nr && t1.coll() == t.coll().remove(selected_path(s))
                                && t1.query() == t.query()
                            &&& t1.rows() == rebuild_spec(nr, t1.coll(), t1.query())
                            &&& f.raw_text@ == serialize_spec(s.format, nr)
                            &&& r.commands@.len() == 1 && (r.commands@[0] matches EditorCommand::Load(text)
                                && text@ == f.raw_text@)
                            &&& f.undo_stack.history() == history_push(
                                s.undo_stack.history(),
                                s.current_snapshot(),
                            )
                            &&& f == clamp_and_show_sel(
                                AppState {
                                    tree: f.tree,
                                    raw_text: f.raw_text,
                                    modified: true,
                                    undo_stack: f.undo_stack,
                                    ..s
                                },
                            )
                        },
                        Err(e) => r.commands@.len() == 0 && (f.parse_error matches Some(m) && m@ == e)
                            && f.undo_stack.history() == history_push(
                            s.undo_stack.history(),
                            s.current_snapshot(),
                        ) && f == (AppState {
                            parse_error: f.parse_error,
                            undo_stack: f.undo_stack,
                            ..s
                        }),
                    },
                },
                ConfirmAction::QuitUnsaved => r.action is Quit && f == s,
                ConfirmAction::SaveAs { path } => r.action is Save && f == (AppState {
                    file_path: Some(path),
                    ..s
                }),
                ConfirmAction::DiscardAndOpen { path } => r.action == Action::OpenFile(path) && f == s,
            }
        }),
{
    match action {
        ConfirmAction::DeleteNode => {
            let path = match selected_copy(state) {
                Some(n) => n.path,
                None => String::new(),
            };
            let mut tree = match state.tree.take() {
                Some(t) => t,
                None => {
                    state.push_undo();
                    return plain(Action::Continue);
                },
            };
            match tree.delete_at_path(path.as_str()) {
                Err(e) => {
                    state.tree = Some(tree);
                    state.push_undo();
                    state.parse_error = Some(e);
                    plain(Action::Continue)
                },
                Ok(()) => {
                    let new_raw = crate::sync::tree_to_raw(&tree, state.format);
                    state.tree = Some(tree);
                    state.push_undo();
                    state.raw_text = copy_string(&new_raw);
                    state.modified = true;
                    state.clamp_tree_selection();
                    with_command(Action::Continue, EditorCommand::Load(new_raw))
                },
            }
        },
        ConfirmAction::QuitUnsaved => plain(Action::Quit),
        ConfirmAction::SaveAs { path } => {
            state.file_path = Some(path);
            plain(Action::Save)
        },
        ConfirmAction::DiscardAndOpen { path } => plain(Action::OpenFile(path)),
    }
}

/// What a key does at a confirmation prompt.
pub open spec fn confirm_post(key: KeyInput, action: ConfirmAction, s: AppState, f: AppState, r: Outcome) -> bool {
    &&& (!(key.code == KeyCode::Char('y') || key.code == KeyCode::Char('Y')) ==> r.action is Continue
            && r.commands@.len() == 0 && f == (AppState { mode: Mode::Normal, ..s }))
    &&& ((key.code == KeyCode::Char('y') || key.code == KeyCode::Char('Y')) ==> confirmed(
        action,
        AppState { mode: Mode::Normal, ..s },
        f,
        r,
    ))
}

/// A key while a confirmation prompt is open: `y`/`Y` confirms, anything
/// else cancels; either way the mode returns to normal.
fn handle_confirm(key: KeyInput, state: &mut AppState, action: ConfirmAction) -> (r: Outcome)
    requires
        old(state).wf(),
    ensures
        final(state).wf(),
        confirm_post(key, action, *old(state), *final(state), r),
{
    if key.code == KeyCode::Char('y') || key.code == KeyCode::Char('Y') {
        state.mode = Mode::Normal;
        execute_confirm_action(state, action)
    } else {
        state.mode = Mode::Normal;
        plain(Action::Continue)
    }
}

// ── file picker ──────────────────────────────────────────────────────────────

/// The picker's scroll offset that shows entry `sel` in a list of `h` rows
/// starting at `scroll`.
pub open spec fn picker_scroll(sel: usize, scroll: usize, h: nat) -> usize {
    if sel < scroll {
        sel
    } else if h > 0 && sel >= scroll + h {
        (sel - h + 1) as usize
    } else {
        scroll
    }
}

/// Select picker entry `selected`, scrolling the list so it is shown.
fn picker_set_selected(state: &mut AppState, selected: usize, scroll: usize)
    requires
        scroll <= ROW_CAP,
    ensures
        match old(state).mode {
            Mode::FilePicker { current_dir, entries, .. } => *final(state) == (AppState {
                mode: Mode::FilePicker {
                    current_dir,
                    entries,
                    selected,
                    scroll: picker_scroll(selected, scroll, old(state).picker_height as nat),
                },
                ..*old(state)
            }),
            _ => *final(state) == *old(state),
        },
{
    let height = state.picker_height as usize;
    let mut scroll = scroll;
    if selected < scroll {
        scroll = selected;
    } else if height > 0 && selected >= scroll + height {
        scroll = selected - height + 1;
    }
    let mut mode = Mode::Normal;
    std::mem::swap(&mut mode, &mut state.mode);
    state.mode = match mode {
        Mode::FilePicker { current_dir, entries, .. } => Mode::FilePicker { current_dir, entries, selected, scroll },
        other => other,
    };
}

/// Open the picker on directory `dir` listing `entries`, the first one
/// selected.
pub fn open_picker(state: &mut AppState, dir: String, entries: Vec<FileEntry>)
    ensures
        *final(state) == (AppState {
            mode: Mode::FilePicker { current_dir: dir, entries, selected: 0, scroll: 0 },
            ..*old(state)
        }),
{
    state.mode = Mode::FilePicker { current_dir: dir, entries, selected: 0, scroll: 0 };
}

/// The prompt shown before opening a file over unsaved changes.
pub open spec fn discard_question(name: Seq<char>) -> Seq<char> {
    "Discard unsaved changes and open '"@ + name + "'? [y/N]"@
}

/// The picker entry at the selection.
pub open spec fn picked_entry(s: AppState) -> Option<FileEntry> {
    match s.mode {
        Mode::FilePicker { entries, selected, .. } => if selected < entries@.len() {
            Some(entries@[selected as int])
        } else {
            None
        },
        _ => None,
    }
}

/// What opening the selected picker entry does.
pub open spec fn picker_opened(s: AppState, f: AppState, r: Outcome) -> bool {
    &&& (r.commands@.len() == 0)
    &&& (match picked_entry(s) {
            None => f == s && r.followup is Nothing && (if s.mode is FilePicker {
                r.action is Continue
            } else {
                r.action is Noop
            }),
            Some(e) => if e.is_dir {
                r.action is Continue && (r.followup matches Followup::ReadDir(p) && p@ == e.path@)
                    && f == s
            } else if s.modified {
                r.action is Continue && r.followup is Nothing && (f.mode matches Mode::Confirm {
                    question,
                    action: ConfirmAction::DiscardAndOpen { path },
                } && question@ == discard_question(e.name@) && path@ == e.path@) && f == (
                AppState { mode: f.mode, ..s })
            } else {
                (r.action matches Action::OpenFile(p) && p@ == e.path@) && r.followup is Nothing
                    && f == (AppState { mode: Mode::Normal, ..s })
            },
        })
}

/// Open the selected picker entry: a directory is listed next (its
/// entries come back to `open_picker`); a file is opened, after a
/// confirmation when there are unsaved changes.
fn picker_open_selected(state: &mut AppState) -> (r: Outcome)
    ensures
        r.commands@.len() == 0,
        match picked_entry(*old(state)) {
            None => *final(state) == *old(state) && r.followup is Nothing && (if old(state).mode is FilePicker {
                r.action is Continue
            } else {
                r.action is Noop
            }),
            Some(e) => if e.is_dir {
                r.action is Continue && (r.followup matches Followup::ReadDir(p) && p@ == e.path@)
                    && *final(state) == *old(state)
            } else if old(state).modified {
                r.action is Continue && r.followup is Nothing && (final(state).mode matches Mode::Confirm {
                    question,
                    action: ConfirmAction::DiscardAndOpen { path },
                } && question@ == discard_question(e.name@) && path@ == e.path@) && *final(state) == (
                AppState { mode: final(state).mode, ..*old(state) })
            } else {
                (r.action matches Action::OpenFile(p) && p@ == e.path@) && r.followup is Nothing
                    && *final(state) == (AppState { mode: Mode::Normal, ..*old(state) })
            },
        },
{
    let entry = match &state.mode {
        Mode::FilePicker { entries, selected, .. } => if *selected < entries.len() {
            let e = &entries[*selected];
            Some(FileEntry { name: copy_string(&e.name), is_dir: e.is_dir, path: copy_string(&e.path) })
        } else {
            None
        },
        _ => return plain(Action::Noop),
    };
    let entry = match entry {
        Some(e) => e,
        None => return plain(Action::Continue),
    };
    if entry.is_dir {
        return Outcome {
            action: Action::Continue,
            commands: Vec::new(),
            followup: Followup::ReadDir(entry.path),
        };
    }
    state.mode = Mode::Normal;
    if state.modified {
        let mut q: Vec<char> = Vec::new();
        crate::text::push_str(&mut q, "Discard unsaved changes and open '");
        crate::text::push_str(&mut q, entry.name.as_str());
        crate::text::push_str(&mut q, "'? [y/N]");
        state.mode = Mode::Confirm {
            question: string_of(q.as_slice()),
            action: ConfirmAction::DiscardAndOpen { path: entry.path },
        };
        return plain(Action::Continue);
    }
    plain(Action::OpenFile(entry.path))
}

/// What a key does in the file picker.
pub open spec fn picker_post(key: KeyInput, selected: usize, scroll: usize, s: AppState, f: AppState, r: Outcome) -> bool {
    &&& (f.tree == s.tree)
    &&& (f.undo_stack == s.undo_stack)
    &&& (match s.mode {
            Mode::FilePicker { entries, .. } => {
                let count = entries@.len();
                let last = if count > 0 {
                    (count - 1) as nat
                } else {
                    0
                };
                let page = s.picker_height as nat;
                let moved = |n: nat|
                    {
                        &&& r.action is Continue
                        &&& r.commands@.len() == 0
                        &&& f == (AppState {
                            mode: match s.mode {
                                Mode::FilePicker { current_dir, entries, .. } => Mode::FilePicker {
                                    current_dir,
                                    entries,
                                    selected: n as usize,
                                    scroll: picker_scroll(n as usize, scroll, page),
                                },
                                m => m,
                            },
                            ..s
                        })
                    };
                match key.code {
                    KeyCode::Esc => r.action is Continue && f == (AppState {
                        mode: Mode::Normal,
                        ..s
                    }),
                    KeyCode::Up | KeyCode::Char('k') => moved(
                        if selected >= 1 {
                            (selected - 1) as nat
                        } else {
                            0
                        },
                    ),
                    KeyCode::Down | KeyCode::Char('j') => moved(
                        if selected + 1 <= last {
                            (selected + 1) as nat
                        } else {
                            last
                        },
                    ),
                    KeyCode::PageUp => moved(
                        if selected >= page {
                            (selected - page) as nat
                        } else {
                            0
                        },
                    ),
                    KeyCode::PageDown => moved(
                        if selected + page <= last {
                            (selected + page) as nat
                        } else {
                            last
                        },
                    ),
                    KeyCode::Enter => picker_opened(s, f, r),
                    _ => r.action is Noop && f == s,
                }
            },
            _ => r.action is Noop && f == s,
        })
}

/// A key while the picker is open: Esc closes it; Up/`k`, Down/`j`,
/// PageUp and PageDown move the selection (within the list); Enter opens
/// the selected entry.
fn handle_file_picker(key: KeyInput, state: &mut AppState, selected: usize, scroll: usize) -> (r: Outcome)
    requires
        selected <= ROW_CAP,
        scroll <= ROW_CAP,
    ensures
        picker_post(key, selected, scroll, *old(state), *final(state), r),
{
    let entry_count = match &state.mode {
        Mode::FilePicker { entries, .. } => entries.len(),
        _ => return plain(Action::Noop),
    };
    let page = state.picker_height as usize;
    let last = entry_count.saturating_sub(1);
    match key.code {
        KeyCode::Esc => {
            state.mode = Mode::Normal;
            plain(Action::Continue)
        },
        KeyCode::Up | KeyCode::Char('k') => {
            picker_set_selected(state, selected.saturating_sub(1), scroll);
            plain(Action::Continue)
        },
        KeyCode::Down | KeyCode::Char('j') => {
            let n = if selected + 1 <= last {
                selected + 1
            } else {
                last
            };
            picker_set_selected(state, n, scroll);
            plain(Action::Continue)
        },
        KeyCode::PageUp => {
            picker_set_selected(state, selected.saturating_sub(page), scroll);
            plain(Action::Continue)
        },
        KeyCode::PageDown => {
            let n = if selected + page <= last {
                selected + page
            } else {
                last
            };
            picker_set_selected(state, n, scroll);
            plain(Action::Continue)
        },
        KeyCode::Enter => picker_open_selected(state),
        _ => plain(Action::Noop),
    }
}

// ── save as ──────────────────────────────────────────────────────────────────

/// The path a save-as name gives: the trimmed name, with the format's
/// default extension added when it has none.
pub open spec fn save_path(name: Seq<char>, f: FileFormat) -> Seq<char> {
    let n = crate::text::trim_seq(name);
    if path_extension_spec(n) is Some {
        n
    } else {
        n + seq!['.'] + f.default_extension_spec()
    }
}

/// What a key does at the save-as prompt.
pub open spec fn save_as_post(key: KeyInput, buffer: String, s: AppState, f: AppState, r: Outcome) -> bool {
    &&& (f.tree == s.tree)
    &&& (f.undo_stack == s.undo_stack)
    &&& (r.commands@.len() == 0)
    &&& (match key.code {
            KeyCode::Esc => r.action is Continue && f == (AppState { mode: Mode::Normal, ..s }),
            KeyCode::Backspace => r.action is Continue && (f.mode matches Mode::SaveAs { buffer: b }
                && b@ == (if buffer@.len() > 0 {
                buffer@.drop_last()
            } else {
                buffer@
            })) && f == (AppState { mode: f.mode, ..s }),
            KeyCode::Enter => if crate::text::trim_seq(buffer@).len() == 0 {
                r.action is Continue && f == s
            } else {
                r.action is Save && (f.file_path matches Some(p) && p@ == save_path(
                    buffer@,
                    s.format,
                )) && f == (AppState {
                    file_path: f.file_path,
                    mode: Mode::Normal,
                    ..s
                })
            },
            KeyCode::Char(c) => if key.modifiers == MOD_NONE || key.modifiers == MOD_SHIFT {
                r.action is Continue && (f.mode matches Mode::SaveAs { buffer: b } && b@
                    == buffer@.push(c)) && f == (AppState { mode: f.mode, ..s })
            } else {
                r.action is Noop && f == s
            },
            _ => r.action is Noop && f == s,
        })
}

/// A key while typing a file name to save as: Esc cancels, Backspace and
/// characters (no modifier or Shift) edit the name, Enter saves to it (an
/// empty name does nothing).
fn handle_save_as(key: KeyInput, state: &mut AppState, buffer: String) -> (r: Outcome)
    ensures
        final(state).tree == old(state).tree,
        final(state).undo_stack == old(state).undo_stack,
        r.commands@.len() == 0,
        match key.code {
            KeyCode::Esc => r.action is Continue && *final(state) == (AppState { mode: Mode::Normal, ..*old(state) }),
            KeyCode::Backspace => r.action is Continue && (final(state).mode matches Mode::SaveAs { buffer: b }
                && b@ == (if buffer@.len() > 0 {
                buffer@.drop_last()
            } else {
                buffer@
            })) && *final(state) == (AppState { mode: final(state).mode, ..*old(state) }),
            KeyCode::Enter => if crate::text::trim_seq(buffer@).len() == 0 {
                r.action is Continue && *final(state) == *old(state)
            } else {
                r.action is Save && (final(state).file_path matches Some(p) && p@ == save_path(
                    buffer@,
                    old(state).format,
                )) && *final(state) == (AppState {
                    file_path: final(state).file_path,
                    mode: Mode::Normal,
                    ..*old(state)
                })
            },
            KeyCode::Char(c) => if key.modifiers == MOD_NONE || key.modifiers == MOD_SHIFT {
                r.action is Continue && (final(state).mode matches Mode::SaveAs { buffer: b } && b@
                    == buffer@.push(c)) && *final(state) == (AppState { mode: final(state).mode, ..*old(state) })
            } else {
                r.action is Noop && *final(state) == *old(state)
            },
            _ => r.action is Noop && *final(state) == *old(state),
        },
{
    match key.code {
        KeyCode::Esc => {
            state.mode = Mode::Normal;
            plain(Action::Continue)
        },
        KeyCode::Backspace => {
            let b = string_pop(buffer);
            state.mode = Mode::SaveAs { buffer: b };
            plain(Action::Continue)
        },
        KeyCode::Enter => {
            let name = crate::text::trim_chars(&chars_of(buffer.as_str()));
            if name.len() == 0 {
                return plain(Action::Continue);
            }
            let name_s = string_of(name.as_slice());
            let path = match crate::format::path_extension(name_s.as_str()) {
                Some(_) => name_s,
                None => {
                    let mut p = name.clone();
                    p.push('.');
                    crate::text::push_str(&mut p, state.format.default_extension());
                    string_of(p.as_slice())
                },
            };
            state.file_path = Some(path);
            state.mode = Mode::Normal;
            plain(Action::Save)
        },
        KeyCode::Char(c) => {
            if key.modifiers == MOD_NONE || key.modifiers == MOD_SHIFT {
                let b = string_push(buffer, c);
                state.mode = Mode::SaveAs { buffer: b };
                plain(Action::Continue)
            } else {
                plain(Action::Noop)
            }
        },
        _ => plain(Action::Noop),
    }
}

// ── mouse ────────────────────────────────────────────────────────────────────

/// How many milliseconds between two clicks count as a double click.
pub const DOUBLE_CLICK_MS: u64 = 400;

/// Whether a click at `(col, row)` at time `now` is a double click: the
/// previous click was on the same cell less than `DOUBLE_CLICK_MS` ago.
pub open spec fn double_click_spec(col: u16, row: u16, last: Option<(u16, u16, u64)>, now: u64) -> bool {
    match last {
        Some((c, r, t)) => col == c && row == r && (if now >= t {
            now - t
        } else {
            0
        }) < DOUBLE_CLICK_MS,
        None => false,
    }
}

/// Whether `mouse` at time `now` makes a double click after `last`.
pub fn is_double_click(mouse: MouseInput, last: Option<(u16, u16, u64)>, now: u64) -> (r: bool)
    ensures
        r == double_click_spec(mouse.column, mouse.row, last, now),
{
    match last {
        Some((col, row, t)) => mouse.column == col && mouse.row == row && now.saturating_sub(t)
            < DOUBLE_CLICK_MS,
        None => false,
    }
}

/// What a left click in the raw pane does.
pub open spec fn raw_clicked(mouse: MouseInput, now: u64, s: AppState, f: AppState, r: Outcome) -> bool {
    &&& (r.action is Continue)
    &&& (r.followup is SyncTree)
    &&& (({
            let double = double_click_spec(mouse.column, mouse.row, s.last_click, now);
            let s1 = AppState {
                focus: Focus::RawPane,
                last_click: Some((mouse.column, mouse.row, now)),
                ..s
            };
            if double {
                r.commands@.len() == 2 && r.commands@[0] is Forward && r.commands@[1] is SelectWord
                    && f == (AppState { mode: Mode::Insert, ..s1 })
            } else {
                r.commands@.len() == 1 && r.commands@[0] is Forward && f == s1
            }
        }))
}

/// A left click in the raw pane: focus it, record the click, hand the
/// click to the widget; a double click also selects the word under the
/// cursor and enters insert mode.  The cursor's row comes back to
/// `sync_tree_to_cursor`.
fn handle_mouse_raw_click(mouse: MouseInput, state: &mut AppState, now: u64) -> (r: Outcome)
    ensures
        r.action is Continue,
        r.followup is SyncTree,
        ({
            let double = double_click_spec(mouse.column, mouse.row, old(state).last_click, now);
            let s1 = AppState {
                focus: Focus::RawPane,
                last_click: Some((mouse.column, mouse.row, now)),
                ..*old(state)
            };
            if double {
                r.commands@.len() == 2 && r.commands@[0] is Forward && r.commands@[1] is SelectWord
                    && *final(state) == (AppState { mode: Mode::Insert, ..s1 })
            } else {
                r.commands@.len() == 1 && r.commands@[0] is Forward && *final(state) == s1
            }
        }),
{
    state.focus = Focus::RawPane;
    let double = is_double_click(mouse, state.last_click, now);
    state.last_click = Some((mouse.column, mouse.row, now));
    let mut commands: Vec<EditorCommand> = Vec::new();
    commands.push(EditorCommand::Forward);
    if double {
        commands.push(EditorCommand::SelectWord);
        state.mode = Mode::Insert;
    }
    Outcome { action: Action::Continue, commands, followup: Followup::SyncTree }
}

/// Whether content column `col` falls on the collapse indicator of a row
/// at `depth` (the two columns after its indentation).
pub open spec fn on_indicator(col: nat, depth: nat) -> bool {
    depth * 2 <= col <= depth * 2 + 1
}

/// What a left click in the tree pane does.
pub open spec fn tree_clicked(mouse: MouseInput, now: u64, s: AppState, f: AppState, r: Option<EditorCommand>) -> bool {
    &&& (({
            let s1 = AppState { focus: Focus::TreePane, ..s };
            let idx = s.tree_scroll + mouse.row - 1;
            if mouse.row == 0 || idx >= s.row_count() {
                r is None && f == s1
            } else {
                let s2 = AppState { last_click: Some((mouse.column, mouse.row, now)), ..s1 };
                let n = s.tree->0.rows()[idx];
                let col = if mouse.column - s.tree_x_start >= 1 {
                    (mouse.column - s.tree_x_start - 1) as nat
                } else {
                    0
                };
                if n.kind.spec_is_container() && on_indicator(col, n.depth as nat) {
                    r is None && (f.tree matches Some(t1) && toggled_tree(s.tree->0, t1, idx as usize)
                        && f == clamp_and_show(AppState { tree: f.tree, tree_selected: idx as usize, ..s2 }))
                } else if double_click_spec(mouse.column, mouse.row, s.last_click, now) {
                    enter_done(select_row(s2, idx as usize), f) && match selection_line(f) {
                        Some(l) => r matches Some(EditorCommand::Jump(row, col)) && row == (l as usize) as u16
                            && col == 0,
                        None => r is None,
                    }
                } else {
                    r is None && f == select_row(s2, idx as usize)
                }
            }
        }))
}

/// A left click in the tree pane: focus it; a click on a row selects it,
/// a click on a container's indicator toggles it, and a double click acts
/// like Enter.  Returns the raw pane command for a double click.
fn handle_mouse_tree_click(mouse: MouseInput, state: &mut AppState, now: u64) -> (r: Option<EditorCommand>)
    requires
        old(state).wf(),
        old(state).in_bounds(),
        mouse.column >= old(state).tree_x_start,
    ensures
        final(state).wf(),
        ({
            let s = *old(state);
            let s1 = AppState { focus: Focus::TreePane, ..s };
            let idx = s.tree_scroll + mouse.row - 1;
            if mouse.row == 0 || idx >= s.row_count() {
                r is None && *final(state) == s1
            } else {
                let s2 = AppState { last_click: Some((mouse.column, mouse.row, now)), ..s1 };
                let n = s.tree->0.rows()[idx];
                let col = if mouse.column - s.tree_x_start >= 1 {
                    (mouse.column - s.tree_x_start - 1) as nat
                } else {
                    0
                };
                if n.kind.spec_is_container() && on_indicator(col, n.depth as nat) {
                    r is None && (final(state).tree matches Some(t1) && toggled_tree(s.tree->0, t1, idx as usize)
                        && *final(state) == clamp_and_show(
                        AppState { tree: final(state).tree, tree_selected: idx as usize, ..s2 },
                    ))
                } else if double_click_spec(mouse.column, mouse.row, s.last_click, now) {
                    enter_done(select_row(s2, idx as usize), *final(state)) && match selection_line(*final(state)) {
                        Some(l) => r matches Some(EditorCommand::Jump(row, col)) && row == (l as usize) as u16
                            && col == 0,
                        None => r is None,
                    }
                } else {
                    r is None && *final(state) == select_row(s2, idx as usize)
                }
            }
        }),
{
    state.focus = Focus::TreePane;
    if mouse.row == 0 {
        return None;
    }
    let content_row = (mouse.row - 1) as usize;
    let flat_idx = state.tree_scroll + content_row;
    let visible = match &state.tree {
        Some(t) => t.visible_node_count(),
        None => 0,
    };
    if flat_idx >= visible {
        return None;
    }
    let double = is_double_click(mouse, state.last_click, now);
    state.last_click = Some((mouse.column, mouse.row, now));
    let (node_depth, is_container) = match &state.tree {
        Some(t) => {
            let nodes = t.flat_nodes();
            assert(t.rows()[flat_idx as int] == nodes@[flat_idx as int]@);
            (nodes[flat_idx].depth, nodes[flat_idx].kind.is_container())
        },
        None => (0, false),
    };
    let content_col = (mouse.column - state.tree_x_start).saturating_sub(1) as usize;
    let indicator_start = node_depth as u128 * 2;
    let clicked_indicator = is_container && content_col as u128 >= indicator_start && content_col as u128
        <= indicator_start + 1;
    if clicked_indicator {
        let mut tree = state.tree.take().unwrap();
        let _ = tree.toggle_collapse(flat_idx);
        state.tree = Some(tree);
        state.tree_selected = flat_idx;
        state.clamp_tree_selection();
        state.ensure_visible();
        None
    } else if double {
        state.tree_selected = flat_idx;
        state.ensure_visible();
        tree_enter_action(state);
        sync_raw_cursor_to_selection(state)
    } else {
        state.tree_selected = flat_idx;
        state.ensure_visible();
        None
    }
}

/// Select tree row `target` (the caller computed it from a click on the
/// scrollbar) and scroll it into view.
pub fn seek_tree(state: &mut AppState, target: usize)
    requires
        old(state).tree_scroll + old(state).tree_pane_height <= usize::MAX,
    ensures
        *final(state) == select_row(*old(state), target),
{
    state.tree_selected = target;
    state.ensure_visible();
}

/// What a mouse event does while the picker is open.
pub open spec fn picker_clicked(mouse: MouseInput, s: AppState, f: AppState, r: Outcome) -> bool {
    &&& (r.commands@.len() == 0)
    &&& (f.tree == s.tree)
    &&& (f.undo_stack == s.undo_stack)
    &&& (({
            match mouse.kind {
                MouseKind::LeftDown => {
                    let in_x = mouse.column >= s.picker_x && mouse.column < (if s.picker_x + s.picker_w
                        <= u16::MAX {
                        s.picker_x + s.picker_w
                    } else {
                        u16::MAX as int
                    });
                    let in_y = mouse.row >= s.picker_y && mouse.row < s.picker_y + s.picker_height;
                    if !(in_x && in_y) {
                        r.action is Continue && f == (AppState { mode: Mode::Normal, ..s })
                    } else {
                        match s.mode {
                            Mode::FilePicker { entries, selected, scroll, .. } => {
                                let target = scroll + mouse.row - s.picker_y;
                                if target >= entries@.len() {
                                    r.action is Continue && f == s
                                } else if target == selected {
                                    picker_opened(s, f, r)
                                } else {
                                    r.action is Continue && f == (AppState {
                                        mode: match s.mode {
                                            Mode::FilePicker { current_dir, entries, .. } => Mode::FilePicker {
                                                current_dir,
                                                entries,
                                                selected: target as usize,
                                                scroll: picker_scroll(target as usize, scroll, s.picker_height as nat),
                                            },
                                            m => m,
                                        },
                                        ..s
                                    })
                                }
                            },
                            _ => false,
                        }
                    }
                },
                MouseKind::ScrollDown | MouseKind::ScrollUp => r.action is Continue && match s.mode {
                    Mode::FilePicker { current_dir, entries, selected, scroll } => {
                        let count = entries@.len();
                        let n: usize = if mouse.kind is ScrollDown {
                            if selected + 1 <= count - 1 {
                                (selected + 1) as usize
                            } else if count > 0 {
                                (count - 1) as usize
                            } else {
                                0
                            }
                        } else if selected >= 1 {
                            (selected - 1) as usize
                        } else {
                            0
                        };
                        f == (AppState {
                            mode: Mode::FilePicker {
                                current_dir,
                                entries,
                                selected: n,
                                scroll: picker_scroll(n, scroll, s.picker_height as nat),
                            },
                            ..s
                        })
                    },
                    _ => false,
                },
                _ => r.action is Noop && f == s,
            }
        }))
}

/// A mouse event while the picker is open: a click outside it closes it;
/// a click on an entry selects it, or opens it when already selected; the
/// wheel moves the selection.
fn handle_mouse_file_picker(mouse: MouseInput, state: &mut AppState) -> (r: Outcome)
    requires
        old(state).in_bounds(),
        old(state).mode is FilePicker,
    ensures
        r.commands@.len() == 0,
        final(state).tree == old(state).tree,
        final(state).undo_stack == old(state).undo_stack,
        ({
            let s = *old(state);
            match mouse.kind {
                MouseKind::LeftDown => {
                    let in_x = mouse.column >= s.picker_x && mouse.column < (if s.picker_x + s.picker_w
                        <= u16::MAX {
                        s.picker_x + s.picker_w
                    } else {
                        u16::MAX as int
                    });
                    let in_y = mouse.row >= s.picker_y && mouse.row < s.picker_y + s.picker_height;
                    if !(in_x && in_y) {
                        r.action is Continue && *final(state) == (AppState { mode: Mode::Normal, ..s })
                    } else {
                        match s.mode {
                            Mode::FilePicker { entries, selected, scroll, .. } => {
                                let target = scroll + mouse.row - s.picker_y;
                                if target >= entries@.len() {
                                    r.action is Continue && *final(state) == s
                                } else if target == selected {
                                    picker_opened(s, *final(state), r)
                                } else {
                                    r.action is Continue && *final(state) == (AppState {
                                        mode: match s.mode {
                                            Mode::FilePicker { current_dir, entries, .. } => Mode::FilePicker {
                                                current_dir,
                                                entries,
                                                selected: target as usize,
                                                scroll: picker_scroll(target as usize, scroll, s.picker_height as nat),
                                            },
                                            m => m,
                                        },
                                        ..s
                                    })
                                }
                            },
                            _ => false,
                        }
                    }
                },
                MouseKind::ScrollDown | MouseKind::ScrollUp => r.action is Continue && match s.mode {
                    Mode::FilePicker { current_dir, entries, selected, scroll } => {
                        let count = entries@.len();
                        let n: usize = if mouse.kind is ScrollDown {
                            if selected + 1 <= count - 1 {
                                (selected + 1) as usize
                            } else if count > 0 {
                                (count - 1) as usize
                            } else {
                                0
                            }
                        } else if selected >= 1 {
                            (selected - 1) as usize
                        } else {
                            0
                        };
                        *final(state) == (AppState {
                            mode: Mode::FilePicker {
                                current_dir,
                                entries,
                                selected: n,
                                scroll: picker_scroll(n, scroll, s.picker_height as nat),
                            },
                            ..s
                        })
                    },
                    _ => false,
                },
                _ => r.action is Noop && *final(state) == s,
            }
        }),
{
    match mouse.kind {
        MouseKind::LeftDown => {
            let in_x = mouse.column >= state.picker_x && mouse.column < state.picker_x.saturating_add(
                state.picker_w,
            );
            let in_y = mouse.row >= state.picker_y && (mouse.row as usize) < state.picker_y as usize
                + state.picker_height as usize;
            if !(in_x && in_y) {
                state.mode = Mode::Normal;
                return plain(Action::Continue);
            }
            let click_row = (mouse.row - state.picker_y) as usize;
            let (current_selected, current_scroll, entry_count) = match &state.mode {
                Mode::FilePicker { selected, scroll, entries, .. } => (*selected, *scroll, entries.len()),
                _ => return plain(Action::Noop),
            };
            let target_idx = current_scroll + click_row;
            if target_idx >= entry_count {
                return plain(Action::Continue);
            }
            if target_idx == current_selected {
                picker_open_selected(state)
            } else {
                picker_set_selected(state, target_idx, current_scroll);
                plain(Action::Continue)
            }
        },
        MouseKind::ScrollDown => {
            let (selected, scroll, count) = match &state.mode {
                Mode::FilePicker { selected, scroll, entries, .. } => (*selected, *scroll, entries.len()),
                _ => return plain(Action::Noop),
            };
            let last = count.saturating_sub(1);
            let n = if selected + 1 <= last {
                selected + 1
            } else {
                last
            };
            picker_set_selected(state, n, scroll);
            plain(Action::Continue)
        },
        MouseKind::ScrollUp => {
            let (selected, scroll) = match &state.mode {
                Mode::FilePicker { selected, scroll, .. } => (*selected, *scroll),
                _ => return plain(Action::Noop),
            };
            picker_set_selected(state, selected.saturating_sub(1), scroll);
            plain(Action::Continue)
        },
        _ => plain(Action::Noop),
    }
}

/// Sends an outcome's commands and follow-up through unchanged, adding one
/// more command at the end when there is one.
fn then_command(o: Outcome, c: Option<EditorCommand>) -> (r: Outcome)
    ensures
        r.action == o.action,
        r.followup == o.followup,
        match c {
            Some(x) => r.commands@ == o.commands@.push(x),
            None => r.commands@ == o.commands@,
        },
{
    let mut o = o;
    match c {
        Some(x) => o.commands.push(x),
        None => {},
    }
    o
}

/// What a mouse event does.
pub open spec fn mouse_post(mouse: MouseInput, now: u64, s: AppState, f: AppState, r: Outcome) -> bool {
    &&& (s.mode is FilePicker ==> picker_clicked(mouse, s, f, r))
    &&& (!(s.mode is FilePicker) ==> ({
            match mouse.kind {
                MouseKind::RightDown => r.action is Continue && r.commands@.len() == 0 && f
                    == (if mouse.column >= s.tree_x_start {
                    AppState { focus: Focus::TreePane, ..s }
                } else if mouse.column < s.scrollbar_x_start {
                    AppState { focus: Focus::RawPane, ..s }
                } else {
                    s
                }),
                MouseKind::LeftDrag => r.action is Continue && r.commands@.len() == 0 && f == s
                    && if mouse.column >= s.scrollbar_x_start && mouse.column < s.tree_x_start
                    && s.tree_pane_height > 0 && mouse.row > 0 {
                    r.followup == Followup::Seek((mouse.row - 1) as usize)
                } else {
                    r.followup is Nothing
                },
                MouseKind::ScrollDown => r.action is Continue && if s.focus == Focus::TreePane {
                    f == select_row(
                        s,
                        if s.tree_selected + 3 <= s.last_row() {
                            (s.tree_selected + 3) as usize
                        } else {
                            s.last_row() as usize
                        },
                    )
                } else {
                    f == s && r.commands@ == seq![
                        EditorCommand::CursorDown,
                        EditorCommand::CursorDown,
                        EditorCommand::CursorDown,
                    ] && r.followup is SyncTree
                },
                MouseKind::ScrollUp => r.action is Continue && if s.focus == Focus::TreePane {
                    f == select_row(
                        s,
                        if s.tree_selected >= 3 {
                            (s.tree_selected - 3) as usize
                        } else {
                            0
                        },
                    )
                } else {
                    f == s && r.commands@ == seq![
                        EditorCommand::CursorUp,
                        EditorCommand::CursorUp,
                        EditorCommand::CursorUp,
                    ] && r.followup is SyncTree
                },
                MouseKind::LeftDown => if mouse.column >= s.tree_x_start {
                    let sync = match selection_line(f) {
                        Some(l) => seq![EditorCommand::Jump((l as usize) as u16, 0)],
                        None => Seq::<EditorCommand>::empty(),
                    };
                    let k = r.commands@.len() - sync.len();
                    &&& r.action is Continue && r.followup is Nothing
                    &&& (k == 0 || k == 1) && r.commands@.skip(k) == sync
                    &&& tree_clicked(mouse, now, s, f, if k == 1 {
                        Some(r.commands@[0])
                    } else {
                        None
                    })
                } else if mouse.column >= s.scrollbar_x_start {
                    r.action is Continue && r.commands@.len() == 0 && f == s && if s.tree_pane_height > 0
                        && mouse.row > 0 {
                        r.followup == Followup::Seek((mouse.row - 1) as usize)
                    } else {
                        r.followup is Nothing
                    }
                } else {
                    raw_clicked(mouse, now, s, f, r)
                },
                MouseKind::Other => r.action is Noop && r.commands@.len() == 0 && f == s,
            }
        }))
}

/// A mouse event.  With the picker open it goes to the picker.  A left
/// click goes to the tree pane, the scrollbar strip (the seek targets come
/// back to `seek_tree`) or the raw pane by its column; a right click
/// focuses the pane under it; dragging on the scrollbar seeks; the wheel
/// scrolls the focused pane by three rows.
fn handle_mouse(mouse: MouseInput, state: &mut AppState, now: u64) -> (r: Outcome)
    requires
        old(state).wf(),
        old(state).in_bounds(),
    ensures
        final(state).wf(),
        old(state).mode is FilePicker ==> picker_clicked(mouse, *old(state), *final(state), r),
        !(old(state).mode is FilePicker) ==> ({
            let s = *old(state);
            match mouse.kind {
                MouseKind::RightDown => r.action is Continue && r.commands@.len() == 0 && *final(state)
                    == (if mouse.column >= s.tree_x_start {
                    AppState { focus: Focus::TreePane, ..s }
                } else if mouse.column < s.scrollbar_x_start {
                    AppState { focus: Focus::RawPane, ..s }
                } else {
                    s
                }),
                MouseKind::LeftDrag => r.action is Continue && r.commands@.len() == 0 && *final(state) == s
                    && if mouse.column >= s.scrollbar_x_start && mouse.column < s.tree_x_start
                    && s.tree_pane_height > 0 && mouse.row > 0 {
                    r.followup == Followup::Seek((mouse.row - 1) as usize)
                } else {
                    r.followup is Nothing
                },
                MouseKind::ScrollDown => r.action is Continue && if s.focus == Focus::TreePane {
                    *final(state) == select_row(
                        s,
                        if s.tree_selected + 3 <= s.last_row() {
                            (s.tree_selected + 3) as usize
                        } else {
                            s.last_row() as usize
                        },
                    )
                } else {
                    *final(state) == s && r.commands@ == seq![
                        EditorCommand::CursorDown,
                        EditorCommand::CursorDown,
                        EditorCommand::CursorDown,
                    ] && r.followup is SyncTree
                },
                MouseKind::ScrollUp => r.action is Continue && if s.focus == Focus::TreePane {
                    *final(state) == select_row(
                        s,
                        if s.tree_selected >= 3 {
                            (s.tree_selected - 3) as usize
                        } else {
                            0
                        },
                    )
                } else {
                    *final(state) == s && r.commands@ == seq![
                        EditorCommand::CursorUp,
                        EditorCommand::CursorUp,
                        EditorCommand::CursorUp,
                    ] && r.followup is SyncTree
                },
                MouseKind::LeftDown => if mouse.column >= s.tree_x_start {
                    let sync = match selection_line(*final(state)) {
                        Some(l) => seq![EditorCommand::Jump((l as usize) as u16, 0)],
                        None => Seq::<EditorCommand>::empty(),
                    };
                    let k = r.commands@.len() - sync.len();
                    &&& r.action is Continue && r.followup is Nothing
                    &&& (k == 0 || k == 1) && r.commands@.skip(k) == sync
                    &&& tree_clicked(mouse, now, s, *final(state), if k == 1 {
                        Some(r.commands@[0])
                    } else {
                        None
                    })
                } else if mouse.column >= s.scrollbar_x_start {
                    r.action is Continue && r.commands@.len() == 0 && *final(state) == s && if s.tree_pane_height > 0
                        && mouse.row > 0 {
                        r.followup == Followup::Seek((mouse.row - 1) as usize)
                    } else {
                        r.followup is Nothing
                    }
                } else {
                    raw_clicked(mouse, now, s, *final(state), r)
                },
                MouseKind::Other => r.action is Noop && r.commands@.len() == 0 && *final(state) == s,
            }
        }),
{
    if matches!(state.mode, Mode::FilePicker { .. }) {
        return handle_mouse_file_picker(mouse, state);
    }
    match mouse.kind {
        MouseKind::LeftDown => {
            let col = mouse.column;
            if col >= state.tree_x_start {
                let c = handle_mouse_tree_click(mouse, state, now);
                let o = match c {
                    Some(x) => with_command(Action::Continue, x),
                    None => plain(Action::Continue),
                };
                let sync = sync_raw_cursor_to_selection(state);
                then_command(o, sync)
            } else if col >= state.scrollbar_x_start {
                seek_outcome(mouse, state)
            } else {
                handle_mouse_raw_click(mouse, state, now)
            }
        },
        MouseKind::RightDown => {
            if mouse.column >= state.tree_x_start {
                state.focus = Focus::TreePane;
            } else if mouse.column < state.scrollbar_x_start {
                state.focus = Focus::RawPane;
            }
            plain(Action::Continue)
        },
        MouseKind::LeftDrag => {
            let col = mouse.column;
            if col >= state.scrollbar_x_start && col < state.tree_x_start {
                seek_outcome(mouse, state)
            } else {
                plain(Action::Continue)
            }
        },
        MouseKind::ScrollDown => {
            if state.focus == Focus::TreePane {
                state.tree_down(3);
                match sync_raw_cursor_to_selection(state) {
                    Some(c) => with_command(Action::Continue, c),
                    None => plain(Action::Continue),
                }
            } else {
                let mut commands: Vec<EditorCommand> = Vec::new();
                commands.push(EditorCommand::CursorDown);
                commands.push(EditorCommand::CursorDown);
                commands.push(EditorCommand::CursorDown);
                Outcome { action: Action::Continue, commands, followup: Followup::SyncTree }
            }
        },
        MouseKind::ScrollUp => {
            if state.focus == Focus::TreePane {
                state.tree_up(3);
                match sync_raw_cursor_to_selection(state) {
                    Some(c) => with_command(Action::Continue, c),
                    None => plain(Action::Continue),
                }
            } else {
                let mut commands: Vec<EditorCommand> = Vec::new();
                commands.push(EditorCommand::CursorUp);
                commands.push(EditorCommand::CursorUp);
                commands.push(EditorCommand::CursorUp);
                Outcome { action: Action::Continue, commands, followup: Followup::SyncTree }
            }
        },
        MouseKind::Other => plain(Action::Noop),
    }
}

/// A click or drag on the scrollbar strip: the caller computes where it
/// seeks (from the row below the border) when the strip has rows.
fn seek_outcome(mouse: MouseInput, state: &AppState) -> (r: Outcome)
    ensures
        r.action is Continue,
        r.commands@.len() == 0,
        if state.tree_pane_height > 0 && mouse.row > 0 {
            r.followup == Followup::Seek((mouse.row - 1) as usize)
        } else {
            r.followup is Nothing
        },
{
    if state.tree_pane_height == 0 || mouse.row == 0 {
        plain(Action::Continue)
    } else {
        Outcome {
            action: Action::Continue,
            commands: Vec::new(),
            followup: Followup::Seek((mouse.row - 1) as usize),
        }
    }
}

// ── paste ────────────────────────────────────────────────────────────────────

/// The raw pane's text widget as the paste needs it: the cursor (row and
/// character column) and the lines.
pub struct EditorView {
    pub cursor_row: usize,
    pub cursor_col: usize,
    pub lines: Vec<String>,
}

/// `t` with each `\r\n` replaced by `\n` (scanning left to right).
pub open spec fn crlf_to_lf(t: Seq<char>) -> Seq<char>
    decreases t.len(),
{
    if t.len() == 0 {
        Seq::empty()
    } else if t.len() > 1 && t[0] == '\r' && t[1] == '\n' {
        seq!['\n'] + crlf_to_lf(t.skip(2))
    } else {
        seq![t[0]] + crlf_to_lf(t.drop_first())
    }
}

/// `t` with each `\r` replaced by `\n`.
pub open spec fn cr_to_lf(t: Seq<char>) -> Seq<char> {
    t.map_values(|c: char| if c == '\r' {
        '\n'
    } else {
        c
    })
}

/// Pasted text with line endings normalised to `\n`.
pub open spec fn normalize_newlines(t: Seq<char>) -> Seq<char> {
    cr_to_lf(crlf_to_lf(t))
}

/// `str::split('\n')`: the pieces between newlines (one more than there
/// are newlines).
pub open spec fn split_lf(t: Seq<char>) -> Seq<Seq<char>>
    decreases t.len(),
{
    proof {
        lemma_first_index_of(t, '\n');
    }
    match first_index_of(t, '\n') {
        Some(i) => seq![t.take(i)] + split_lf(t.skip(i + 1)),
        None => seq![t],
    }
}

/// `lines` joined with `\n` between them.
pub open spec fn join_lf(lines: Seq<Seq<char>>) -> Seq<char>
    decreases lines.len(),
{
    if lines.len() == 0 {
        Seq::empty()
    } else if lines.len() == 1 {
        lines[0]
    } else {
        join_lf(lines.drop_last()) + seq!['\n'] + lines.last()
    }
}

/// The views of a sequence of strings.
pub open spec fn strings_view(s: Seq<String>) -> Seq<Seq<char>> {
    s.map_values(|l: String| l@)
}

/// The widget's lines (one empty line when it has none).
pub open spec fn view_lines(e: EditorView) -> Seq<Seq<char>> {
    let ls = strings_view(e.lines@);
    if ls.len() == 0 {
        seq![Seq::empty()]
    } else {
        ls
    }
}
/// The row the paste goes to: the cursor's, within the lines.
pub open spec fn paste_row(e: EditorView) -> nat {
    let n = view_lines(e).len();
    if e.cursor_row <= n - 1 {
        e.cursor_row as nat
    } else {
        (n - 1) as nat
    }
}

/// The lines after pasting `parts` at the cursor: the cursor's line is cut
/// at the cursor column (its end when the column is past it); the first
/// part ends its first half and the last part starts its second half.
pub open spec fn pasted_lines(e: EditorView, parts: Seq<Seq<char>>) -> Seq<Seq<char>> {
    let ls = view_lines(e);
    let row = paste_row(e) as int;
    let cur = ls[row];
    let k = if e.cursor_col <= cur.len() {
        e.cursor_col as int
    } else {
        cur.len() as int
    };
    let before = cur.take(k);
    let after = cur.skip(k);
    let middle = if parts.len() == 1 {
        seq![before + parts[0] + after]
    } else {
        seq![before + parts[0]] + parts.subrange(1, parts.len() - 1) + seq![parts.last() + after]
    };
    ls.take(row) + middle + ls.skip(row + 1)
}

/// Where the cursor goes after the paste: the last pasted line, after the
/// pasted text.
pub open spec fn pasted_cursor(e: EditorView, parts: Seq<Seq<char>>) -> (u16, u16) {
    (
        (paste_row(e) + parts.len() - 1) as u16,
        if parts.len() == 1 {
            (e.cursor_col + parts[0].len()) as u16
        } else {
            parts.last().len() as u16
        },
    )
}

/// Text with `\r\n` and `\r` turned into `\n`.
fn normalized(t: &Vec<char>) -> (r: Vec<char>)
    ensures
        r@ == normalize_newlines(t@),
{
    let mut a: Vec<char> = Vec::new();
    let n = t.len();
    let mut i: usize = 0;
    assert(t@.skip(0) =~= t@);
    while i < n
        invariant
            i <= n,
            n == t@.len(),
            a@ + crlf_to_lf(t@.skip(i as int)) == crlf_to_lf(t@),
        decreases n - i,
    {
        let ghost rest = t@.skip(i as int);
        if i + 1 < n && t[i] == '\r' && t[i + 1] == '\n' {
            assert(rest.skip(2) =~= t@.skip(i + 2));
            a.push('\n');
            assert(a@ + crlf_to_lf(t@.skip(i + 2)) =~= crlf_to_lf(t@));
            i = i + 2;
        } else {
            assert(rest.drop_first() =~= t@.skip(i + 1));
            a.push(t[i]);
            assert(a@ + crlf_to_lf(t@.skip(i + 1)) =~= crlf_to_lf(t@));
            i = i + 1;
        }
    }
    assert(t@.skip(n as int) =~= Seq::<char>::empty());
    assert(a@ =~= crlf_to_lf(t@));
    let mut b: Vec<char> = Vec::new();
    let m = a.len();
    for j in 0..m
        invariant
            m == a@.len(),
            b@ == cr_to_lf(a@.take(j as int)),
    {
        let c = if a[j] == '\r' {
            '\n'
        } else {
            a[j]
        };
        b.push(c);
        assert(b@ =~= cr_to_lf(a@.take(j + 1)));
    }
    assert(a@.take(m as int) =~= a@);
    b
}

/// `str::split('\n')` on characters.
fn split_at_newlines(t: &Vec<char>) -> (r: Vec<Vec<char>>)
    ensures
        vv(r@) == split_lf(t@),
{
    let mut out: Vec<Vec<char>> = Vec::new();
    let n = t.len();
    let mut from: usize = 0;
    assert(t@.skip(0) =~= t@);
    loop
        invariant
            from <= n,
            n == t@.len(),
            vv(out@) + split_lf(t@.skip(from as int)) == split_lf(t@),
        decreases n - from,
    {
        let ghost rest = t@.skip(from as int);
        proof {
            lemma_first_index_of(rest, '\n');
        }
        let mut j = from;
        while j < n && t[j] != '\n'
            invariant
                from <= j <= n,
                n == t@.len(),
                forall|k: int| from <= k < j ==> t@[k] != '\n',
            decreases n - j,
        {
            j = j + 1;
        }
        if j < n {
            proof {
                crate::text::lemma_first_index_skip(t@, '\n', from as int, j as int);
            }
            let piece = sub_chars(t, from, j);
            assert(piece@ =~= rest.take(j - from));
            assert(rest.skip(j - from + 1) =~= t@.skip(j + 1));
            let ghost before = vv(out@);
            out.push(piece);
            assert(vv(out@) =~= before.push(rest.take(j - from)));
            assert(split_lf(rest) == seq![rest.take(j - from)] + split_lf(t@.skip(j + 1)));
            assert(vv(out@) + split_lf(t@.skip(j + 1)) =~= before + split_lf(rest));
            from = j + 1;
        } else {
            proof {
                crate::text::lemma_first_index_skip_none(t@, '\n', from as int);
            }
            let piece = sub_chars(t, from, n);
            assert(piece@ =~= rest);
            let ghost before = vv(out@);
            out.push(piece);
            assert(vv(out@) =~= before + split_lf(rest));
            return out;
        }
    }
}

/// Lines joined with `\n`.
pub(crate) fn join_lines(lines: &Vec<Vec<char>>) -> (r: Vec<char>)
    ensures
        r@ == join_lf(vv(lines@)),
{
    let ghost ls = vv(lines@);
    let mut out: Vec<char> = Vec::new();
    let n = lines.len();
    for i in 0..n
        invariant
            n == lines@.len(),
            ls == vv(lines@),
            out@ == join_lf(ls.take(i as int)),
    {
        assert(ls.take(i + 1).drop_last() =~= ls.take(i as int));
        if i > 0 {
            out.push('\n');
        }
        crate::text::push_all(&mut out, &lines[i]);
        assert(out@ =~= join_lf(ls.take(i + 1)));
    }
    assert(ls.take(n as int) =~= ls);
    out
}

/// The lines of the widget as characters.
pub(crate) fn char_lines(lines: &Vec<String>) -> (r: Vec<Vec<char>>)
    ensures
        vv(r@) == strings_view(lines@),
{
    let mut out: Vec<Vec<char>> = Vec::new();
    let n = lines.len();
    for i in 0..n
        invariant
            n == lines@.len(),
            vv(out@) == strings_view(lines@).take(i as int),
    {
        let ghost before = out@;
        let c = chars_of(lines[i].as_str());
        assert(c@ == strings_view(lines@)[i as int]);
        out.push(c);
        assert(vv(out@) =~= vv(before).push(c@));
        assert(strings_view(lines@).take(i + 1) =~= strings_view(lines@).take(i as int).push(strings_view(lines@)[i as int]));
        assert(vv(out@) =~= strings_view(lines@).take(i + 1));
    }
    assert(strings_view(lines@).take(n as int) =~= strings_view(lines@));
    out
}

/// Append copies of `src[from..to]` to `out`.
fn append_lines(out: &mut Vec<Vec<char>>, src: &Vec<Vec<char>>, from: usize, to: usize)
    requires
        from <= to <= src@.len(),
    ensures
        vv(final(out)@) == vv(old(out)@) + vv(src@).subrange(from as int, to as int),
{
    let ghost start = vv(out@);
    for i in from..to
        invariant
            from <= to <= src@.len(),
            vv(out@) == start + vv(src@).subrange(from as int, i as int),
    {
        let ghost before = out@;
        let c = sub_chars(&src[i], 0, src[i].len());
        assert(c@ == vv(src@)[i as int]);
        out.push(c);
        assert(vv(out@) =~= vv(before).push(c@));
        assert(vv(src@).subrange(from as int, i + 1) =~= vv(src@).subrange(from as int, i as int).push(
            vv(src@)[i as int],
        ));
        assert(vv(out@) =~= start + vv(src@).subrange(from as int, i + 1));
    }
}

/// `a` followed by `b`.
fn concat_chars(a: &Vec<char>, b: &Vec<char>) -> (r: Vec<char>)
    ensures
        r@ == a@ + b@,
{
    let mut r = sub_chars(a, 0, a.len());
    crate::text::push_all(&mut r, b);
    assert(r@ =~= a@ + b@);
    r
}

/// The lines after the paste and where the cursor goes.
fn splice_lines(e: &EditorView, parts: &Vec<Vec<char>>) -> (r: (Vec<Vec<char>>, u16, u16))
    requires
        parts@.len() >= 1,
    ensures
        vv(r.0@) == pasted_lines(*e, vv(parts@)),
        (r.1, r.2) == pasted_cursor(*e, vv(parts@)),
{
    let ghost pv = vv(parts@);
    let mut lines = char_lines(&e.lines);
    if lines.len() == 0 {
        lines.push(Vec::new());
        assert(vv(lines@) =~= seq![Seq::<char>::empty()]);
    }
    let ghost ls = vv(lines@);
    assert(ls == view_lines(*e));
    let row = if e.cursor_row <= lines.len() - 1 {
        e.cursor_row
    } else {
        lines.len() - 1
    };
    assert(ls[row as int] == lines@[row as int]@);
    let cur = &lines[row];
    let k = if e.cursor_col <= cur.len() {
        e.cursor_col
    } else {
        cur.len()
    };
    let before = sub_chars(cur, 0, k);
    let after = sub_chars(cur, k, cur.len());
    let mut out: Vec<Vec<char>> = Vec::new();
    append_lines(&mut out, &lines, 0, row);
    assert(vv(out@) =~= ls.take(row as int));
    let np = parts.len();
    assert(pv[0] == parts@[0]@);
    assert(pv.last() == parts@[np - 1]@);
    if np == 1 {
        let l = concat_chars(&concat_chars(&before, &parts[0]), &after);
        out.push(l);
        assert(vv(out@) =~= ls.take(row as int) + seq![before@ + pv[0] + after@]);
    } else {
        let l = concat_chars(&before, &parts[0]);
        out.push(l);
        assert(vv(out@) =~= ls.take(row as int) + seq![before@ + pv[0]]);
        append_lines(&mut out, parts, 1, np - 1);
        let l2 = concat_chars(&parts[np - 1], &after);
        let ghost o1 = out@;
        out.push(l2);
        assert(vv(out@) =~= vv(o1).push(l2@));
        assert(vv(out@) =~= ls.take(row as int) + (seq![before@ + pv[0]] + pv.subrange(1, np - 1) + seq![
            pv.last() + after@,
        ]));
    }
    let ghost mid = vv(out@);
    append_lines(&mut out, &lines, row + 1, lines.len());
    assert(ls.subrange(row + 1, ls.len() as int) =~= ls.skip(row + 1));
    assert(vv(out@) =~= pasted_lines(*e, pv));
    let new_row = #[verifier::truncate] ((row as u128 + np as u128 - 1) as u16);
    let new_col = if np == 1 {
        #[verifier::truncate] ((e.cursor_col as u128 + parts[0].len() as u128) as u16)
    } else {
        #[verifier::truncate] (parts[np - 1].len() as u16)
    };
    (out, new_row, new_col)
}

/// The raw text after pasting `text` at the widget's cursor.
pub open spec fn pasted_text(e: EditorView, text: Seq<char>) -> Seq<char> {
    join_lf(pasted_lines(e, split_lf(normalize_newlines(text))))
}

/// The tree and error after a paste whose buffer was reformatted as
/// `text` in format `g`: `text` is read again in `g` with the old tree's
/// collapse state (none without a tree); on success the tree is the one
/// read, with no query, and the error is cleared; on failure the tree
/// stays and the error is the message.  Mode, focus, undo history, text,
/// format and the parse clock are as the paste set them; nothing else
/// changes.
pub open spec fn paste_reparsed(s: AppState, f: AppState, g: FileFormat, text: Seq<char>) -> bool {
    let c = match s.tree {
        Some(t) => t.coll(),
        None => Set::<Seq<char>>::empty(),
    };
    &&& match parse_spec(g, text) {
        Ok(w) => {
            &&& f.tree matches Some(t1)
            &&& t1.wf() && t1.doc() == w && t1.coll() == c && t1.query() == Seq::<char>::empty()
            &&& t1.rows() == rebuild_spec(w, c, Seq::empty())
            &&& f.parse_error is None
        },
        Err(m) => f.tree == s.tree && (f.parse_error matches Some(e) && e@ == m),
    }
    &&& f == (AppState {
        mode: Mode::Insert,
        focus: Focus::RawPane,
        undo_stack: f.undo_stack,
        raw_text: f.raw_text,
        modified: true,
        format: g,
        tree: f.tree,
        parse_error: f.parse_error,
        parse_dirty: false,
        last_edit: None,
        ..s
    })
}

/// What inserting pasted text does.
pub open spec fn paste_post(text: Seq<char>, editor: EditorView, now: u64, s: AppState, f: AppState, r: Outcome) -> bool {
    &&& (r.action is Continue)
    &&& (r.followup is Nothing)
    &&& (text.len() == 0 ==> r.commands@.len() == 0 && f == s)
    &&& (text.len() > 0 ==> {
            let parts = split_lf(normalize_newlines(text));
            let t = pasted_text(editor, text);
            &&& r.commands@.len() >= 2
            &&& (r.commands@[0] matches EditorCommand::LoadLines(ls) && strings_view(ls@)
                == pasted_lines(editor, parts))
            &&& r.commands@[1] == EditorCommand::Jump(pasted_cursor(editor, parts).0, pasted_cursor(editor, parts).1)
            &&& f.undo_stack.history() == history_push(s.undo_stack.history(), s.current_snapshot())
            &&& f.mode is Insert && f.focus == Focus::RawPane && f.modified
            &&& f.file_path == s.file_path
            &&& if detect_spec(t, s.format) is Some {
                let (g, v) = detect_spec(t, s.format)->0;
                &&& f.format == g
                &&& f.raw_text@ == serialize_spec(g, v)
                &&& r.commands@.len() == 3 && (r.commands@[2] matches EditorCommand::Load(x) && x@
                    == f.raw_text@)
                &&& !f.parse_dirty && f.last_edit is None
                &&& paste_reparsed(s, f, g, f.raw_text@)
            } else {
                &&& r.commands@.len() == 2
                &&& f.raw_text@ == t
                &&& f.parse_dirty && f.last_edit == Some(now)
                &&& f == (AppState {
                    mode: Mode::Insert,
                    focus: Focus::RawPane,
                    undo_stack: f.undo_stack,
                    raw_text: f.raw_text,
                    modified: true,
                    parse_dirty: true,
                    last_edit: Some(now),
                    ..s
                })
            }
        })
}

/// Insert `text` at the raw pane's cursor (line endings normalised).  The
/// raw pane enters insert mode and takes focus; the text before is
/// recorded for undo.  When the whole buffer then parses (in the current
/// format, or the first other format that reads it, which becomes the
/// format), it is replaced by its canonical form and the tree rebuilt with
/// the collapse state kept; otherwise a reparse is scheduled at `now`.
pub fn insert_text(text: &str, state: &mut AppState, editor: &EditorView, now: u64) -> (r: Outcome)
    requires
        old(state).wf(),
    ensures
        final(state).wf(),
        r.action is Continue,
        r.followup is Nothing,
        text@.len() == 0 ==> r.commands@.len() == 0 && *final(state) == *old(state),
        text@.len() > 0 ==> {
            let s = *old(state);
            let f = *final(state);
            let parts = split_lf(normalize_newlines(text@));
            let t = pasted_text(*editor, text@);
            &&& r.commands@.len() >= 2
            &&& (r.commands@[0] matches EditorCommand::LoadLines(ls) && strings_view(ls@)
                == pasted_lines(*editor, parts))
            &&& r.commands@[1] == EditorCommand::Jump(pasted_cursor(*editor, parts).0, pasted_cursor(*editor, parts).1)
            &&& f.undo_stack.history() == history_push(s.undo_stack.history(), s.current_snapshot())
            &&& f.mode is Insert && f.focus == Focus::RawPane && f.modified
            &&& f.file_path == s.file_path
            &&& if detect_spec(t, s.format) is Some {
                let (g, v) = detect_spec(t, s.format)->0;
                &&& f.format == g
                &&& f.raw_text@ == serialize_spec(g, v)
                &&& r.commands@.len() == 3 && (r.commands@[2] matches EditorCommand::Load(x) && x@
                    == f.raw_text@)
                &&& !f.parse_dirty && f.last_edit is None
                &&& paste_reparsed(s, f, g, f.raw_text@)
            } else {
                &&& r.commands@.len() == 2
                &&& f.raw_text@ == t
                &&& f.parse_dirty && f.last_edit == Some(now)
                &&& f == (AppState {
                    mode: Mode::Insert,
                    focus: Focus::RawPane,
                    undo_stack: f.undo_stack,
                    raw_text: f.raw_text,
                    modified: true,
                    parse_dirty: true,
                    last_edit: Some(now),
                    ..s
                })
            }
        },
{
    let tc = chars_of(text);
    if tc.len() == 0 {
        return plain(Action::Continue);
    }
    state.mode = Mode::Insert;
    state.focus = Focus::RawPane;
    state.push_undo();
    let norm = normalized(&tc);
    let parts = split_at_newlines(&norm);
    proof {
        lemma_split_lf_nonempty(norm@);
    }
    let (new_lines, new_row, new_col) = splice_lines(editor, &parts);
    let new_text = join_lines(&new_lines);
    let mut line_strings: Vec<String> = Vec::new();
    let nl = new_lines.len();
    for i in 0..nl
        invariant
            nl == new_lines@.len(),
            strings_view(line_strings@) == vv(new_lines@).take(i as int),
    {
        let ghost before = line_strings@;
        let l = string_of(new_lines[i].as_slice());
        assert(l@ == vv(new_lines@)[i as int]);
        line_strings.push(l);
        assert(strings_view(line_strings@) =~= strings_view(before).push(l@));
        assert(vv(new_lines@).take(i + 1) =~= vv(new_lines@).take(i as int).push(vv(new_lines@)[i as int]));
        assert(strings_view(line_strings@) =~= vv(new_lines@).take(i + 1));
    }
    assert(vv(new_lines@).take(nl as int) =~= vv(new_lines@));
    let mut commands: Vec<EditorCommand> = Vec::new();
    commands.push(EditorCommand::LoadLines(line_strings));
    commands.push(EditorCommand::Jump(new_row, new_col));
    let new_text_s = string_of(new_text.as_slice());
    state.raw_text = copy_string(&new_text_s);
    state.modified = true;
    let detected = detect_format_and_parse(new_text_s.as_str(), state.format);
    match detected {
        Some((fmt, value)) => {
            state.format = fmt;
            let formatted = fmt.serialize(&value);
            let collapsed = match &state.tree {
                Some(t) => t.take_collapsed(),
                None => PathSet::new(),
            };
            commands.push(EditorCommand::Load(copy_string(&formatted)));
            state.raw_text = copy_string(&formatted);
            state.parse_dirty = false;
            state.last_edit = None;
            match crate::sync::raw_to_tree(formatted.as_str(), collapsed, fmt) {
                crate::sync::ParseResult::Parsed(tree) => {
                    state.tree = Some(tree);
                    state.parse_error = None;
                },
                crate::sync::ParseResult::Failed(msg) => {
                    state.parse_error = Some(msg);
                },
            }
        },
        None => {
            state.parse_dirty = true;
            state.last_edit = Some(now);
        },
    }
    Outcome { action: Action::Continue, commands, followup: Followup::Nothing }
}

/// `split_lf` gives at least one piece.
proof fn lemma_split_lf_nonempty(t: Seq<char>)
    ensures
        split_lf(t).len() >= 1,
{
    lemma_first_index_of(t, '\n');
}

// ── normal mode ──────────────────────────────────────────────────────────────

/// Whether the key is an arrow key.
pub open spec fn is_arrow(c: KeyCode) -> bool {
    c is Up || c is Down || c is Left || c is Right
}

/// Which normal-mode binding a key takes (0 for none), in priority order:
/// Tab, `q`, `/` anywhere; then the raw pane's `i`/Enter, Ctrl+A,
/// Shift+arrows and scroll keys; then the tree pane's bindings; last, any
/// other character typed (plain or shifted) into the raw pane.
pub open spec fn normal_binding(key: KeyInput, focus: Focus) -> nat {
    let no_mod = key.modifiers == MOD_NONE;
    let raw = focus == Focus::RawPane;
    let tree = focus == Focus::TreePane;
    let c = key.code;
    if c == KeyCode::Tab && no_mod {
        1
    } else if (c == KeyCode::Char('q') || c == KeyCode::Char('Q')) && no_mod {
        2
    } else if c == KeyCode::Char('/') && no_mod {
        3
    } else if (c == KeyCode::Char('i') || c == KeyCode::Enter) && raw && no_mod {
        4
    } else if c == KeyCode::Char('a') && raw && key.modifiers == MOD_CONTROL {
        5
    } else if is_arrow(c) && raw && key.modifiers == MOD_SHIFT {
        6
    } else if (is_arrow(c) || c is PageUp || c is PageDown || c is Home || c is End) && raw {
        7
    } else if (c == KeyCode::Up || c == KeyCode::Char('k')) && tree && no_mod {
        8
    } else if (c == KeyCode::Down || c == KeyCode::Char('j')) && tree && no_mod {
        9
    } else if c == KeyCode::PageUp && tree {
        10
    } else if c == KeyCode::PageDown && tree {
        11
    } else if c == KeyCode::Home && tree {
        12
    } else if c == KeyCode::End && tree {
        13
    } else if c == KeyCode::Char(' ') && tree && no_mod {
        14
    } else if c == KeyCode::Right && tree && no_mod {
        15
    } else if c == KeyCode::Left && tree && no_mod {
        16
    } else if c == KeyCode::Enter && tree && no_mod {
        17
    } else if c == KeyCode::Char('a') && tree && no_mod {
        18
    } else if c == KeyCode::Char('d') && tree && no_mod {
        19
    } else if c == KeyCode::Char('r') && tree && no_mod {
        20
    } else if c == KeyCode::Char('y') && tree && no_mod {
        21
    } else if (c == KeyCode::Char('g') || c == KeyCode::Char('l')) && tree && no_mod {
        22
    } else if c is Char && raw && (no_mod || key.modifiers == MOD_SHIFT) {
        23
    } else {
        0
    }
}

/// Which normal-mode binding a key takes (see `normal_binding`).
fn normal_binding_exec(key: KeyInput, focus: Focus) -> (r: u8)
    ensures
        r as nat == normal_binding(key, focus),
{
    let no_mod = key.modifiers == MOD_NONE;
    let raw = focus == Focus::RawPane;
    let tree = focus == Focus::TreePane;
    let c = key.code;
    let arrow = c == KeyCode::Up || c == KeyCode::Down || c == KeyCode::Left || c == KeyCode::Right;
    let printable = match c {
        KeyCode::Char(_) => true,
        _ => false,
    };
    if c == KeyCode::Tab && no_mod {
        1
    } else if (c == KeyCode::Char('q') || c == KeyCode::Char('Q')) && no_mod {
        2
    } else if c == KeyCode::Char('/') && no_mod {
        3
    } else if (c == KeyCode::Char('i') || c == KeyCode::Enter) && raw && no_mod {
        4
    } else if c == KeyCode::Char('a') && raw && key.modifiers == MOD_CONTROL {
        5
    } else if arrow && raw && key.modifiers == MOD_SHIFT {
        6
    } else if (arrow || c == KeyCode::PageUp || c == KeyCode::PageDown || c == KeyCode::Home || c
        == KeyCode::End) && raw {
        7
    } else if (c == KeyCode::Up || c == KeyCode::Char('k')) && tree && no_mod {
        8
    } else if (c == KeyCode::Down || c == KeyCode::Char('j')) && tree && no_mod {
        9
    } else if c == KeyCode::PageUp && tree {
        10
    } else if c == KeyCode::PageDown && tree {
        11
    } else if c == KeyCode::Home && tree {
        12
    } else if c == KeyCode::End && tree {
        13
    } else if c == KeyCode::Char(' ') && tree && no_mod {
        14
    } else if c == KeyCode::Right && tree && no_mod {
        15
    } else if c == KeyCode::Left && tree && no_mod {
        16
    } else if c == KeyCode::Enter && tree && no_mod {
        17
    } else if c == KeyCode::Char('a') && tree && no_mod {
        18
    } else if c == KeyCode::Char('d') && tree && no_mod {
        19
    } else if c == KeyCode::Char('r') && tree && no_mod {
        20
    } else if c == KeyCode::Char('y') && tree && no_mod {
        21
    } else if (c == KeyCode::Char('g') || c == KeyCode::Char('l')) && tree && no_mod {
        22
    } else if printable && raw && (no_mod || key.modifiers == MOD_SHIFT) {
        23
    } else {
        0
    }
}

/// Outcome carrying the raw pane's sync to the selection, if any.
fn synced(state: &AppState) -> (r: Outcome)
    ensures
        r.action is Continue,
        r.followup is Nothing,
        match selection_line(*state) {
            Some(l) => r.commands@ == seq![EditorCommand::Jump((l as usize) as u16, 0)],
            None => r.commands@.len() == 0,
        },
{
    match sync_raw_cursor_to_selection(state) {
        Some(c) => with_command(Action::Continue, c),
        None => plain(Action::Continue),
    }
}

/// What toggling the row under the cursor does (Space).
pub open spec fn cursor_toggled(s: AppState, f: AppState) -> bool {
    &&& (match s.tree {
            Some(t) => if s.tree_selected < t.rows().len() && t.rows()[s.tree_selected as int].kind.spec_is_container() {
                f.tree matches Some(t1) && toggled_tree(t, t1, s.tree_selected)
                    && f == clamp_and_show(AppState { tree: f.tree, ..s })
            } else {
                f == clamp_and_show(s)
            },
            None => f == clamp_and_show(s),
        })
}

/// Space on the tree pane: toggle the selected row's collapse state (when
/// it is a container), then clamp and show the cursor.
fn toggle_at_cursor(state: &mut AppState)
    requires
        old(state).wf(),
        old(state).in_bounds(),
    ensures
        final(state).wf(),
        cursor_toggled(*old(state), *final(state)),
{
    match state.tree.take() {
        Some(mut t) => {
            let _ = t.toggle_collapse(state.tree_selected);
            state.tree = Some(t);
        },
        None => {},
    }
    state.clamp_tree_selection();
    state.ensure_visible();
}

/// What a key does in normal mode.
pub open spec fn normal_post(key: KeyInput, s: AppState, f: AppState, r: Outcome) -> bool {
    &&& (({
            let b = normal_binding(key, s.focus);
            let down = |n: nat| if s.tree_selected + n <= s.last_row() {
                (s.tree_selected + n) as usize
            } else {
                s.last_row() as usize
            };
            let up = |n: nat| if s.tree_selected >= n {
                (s.tree_selected - n) as usize
            } else {
                0usize
            };
            &&& (b == 0 ==> r.action is Noop && r.commands@.len() == 0 && f == s)
            &&& (b == 1 ==> r.action is Continue && f == (AppState {
                focus: if s.focus == Focus::RawPane {
                    Focus::TreePane
                } else {
                    Focus::RawPane
                },
                ..s
            }))
            &&& (b == 2 ==> (s.modified ==> r.action is Continue && (f.mode matches Mode::Confirm {
                question,
                action: ConfirmAction::QuitUnsaved,
            } && question@ == quit_question())) && (!s.modified ==> r.action is Quit && f == s))
            &&& (b == 3 ==> r.action is Continue && f.mode is Search && f.focus == Focus::TreePane
                && search_cleared(s, f))
            &&& (b == 4 ==> r.action is Continue && f == (AppState { mode: Mode::Insert, ..s }))
            &&& (b == 5 ==> r.action is Continue && r.commands@.len() == 1 && r.commands@[0] is SelectAll
                && f == (AppState { mode: Mode::Insert, ..s }))
            &&& (b == 6 ==> r.action is Continue && r.commands@.len() == 1 && r.commands@[0] is Forward
                && f == (AppState { mode: Mode::Insert, ..s }))
            &&& (b == 7 ==> r.action is Continue && r.commands@.len() == 1 && r.commands@[0] is Forward
                && f == s)
            &&& (b == 8 ==> r.action is Continue && f == select_row(s, up(1)))
            &&& (b == 9 ==> r.action is Continue && f == select_row(s, down(1)))
            &&& (b == 10 ==> r.action is Continue && f == select_row(s, up(s.tree_pane_height as nat)))
            &&& (b == 11 ==> r.action is Continue && f == select_row(s, down(s.tree_pane_height as nat)))
            &&& (b == 12 ==> r.action is Continue && f == select_row(s, 0))
            &&& (b == 13 ==> r.action is Continue && f == select_row(s, s.last_row() as usize))
            &&& (8 <= b <= 13 ==> match selection_line(f) {
                Some(l) => r.commands@ == seq![EditorCommand::Jump((l as usize) as u16, 0)],
                None => r.commands@.len() == 0,
            })
            &&& (14 <= b <= 20 ==> r.action is Continue && r.commands@.len() == 0 && r.followup is Nothing)
            &&& (b == 14 ==> cursor_toggled(s, f))
            &&& (b == 15 ==> right_done(s, f))
            &&& (b == 16 ==> left_done(s, f))
            &&& (b == 17 ==> enter_done(s, f))
            &&& (b == 18 ==> add_started(s, f))
            &&& (b == 19 ==> delete_asked(s, f))
            &&& (b == 20 ==> rename_started(s, f))
            &&& (b == 22 ==> r.action is Continue && r.followup is Nothing && match selected_row(s) {
                Some(n) => f == (AppState { focus: Focus::RawPane, ..s }) && match s.format.line_spec(
                    s.raw_text@,
                    n.path,
                ) {
                    Some(l) => r.commands@ == seq![EditorCommand::Jump((l as usize) as u16, 0)],
                    None => r.commands@.len() == 0,
                },
                None => r.commands@.len() == 0 && f == s,
            })
            &&& (b == 23 ==> {
                &&& r.action is Continue
                &&& r.commands@.len() == 1 && r.commands@[0] is Forward
                &&& r.followup matches Followup::SyncText { modifying } && modifying
                &&& f.undo_stack.history() == history_push(s.undo_stack.history(), s.current_snapshot())
                &&& f == (AppState { mode: Mode::Insert, undo_stack: f.undo_stack, ..s })
            })
            &&& (b == 21 ==> r.action is Continue && r.commands@.len() == 0 && f == s && match selected_row(s) {
                Some(n) => {
                    r.followup matches Followup::Copy(t) && t@ == display_spec(n)
                },
                None => r.followup is Nothing,
            })
        }))
}

/// A key in normal mode (see `normal_binding` for which binding it
/// takes).
fn handle_normal(key: KeyInput, state: &mut AppState) -> (r: Outcome)
    requires
        old(state).wf(),
        old(state).in_bounds(),
    ensures
        final(state).wf(),
        normal_post(key, *old(state), *final(state), r),
{
    let b = normal_binding_exec(key, state.focus);
    if b == 1 {
        state.toggle_focus();
        plain(Action::Continue)
    } else if b == 2 {
        let a = maybe_quit(state);
        plain(a)
    } else if b == 3 {
        state.mode = Mode::Search;
        clear_query(state);
        state.focus = Focus::TreePane;
        plain(Action::Continue)
    } else if b == 4 {
        state.mode = Mode::Insert;
        plain(Action::Continue)
    } else if b == 5 {
        state.mode = Mode::Insert;
        with_command(Action::Continue, EditorCommand::SelectAll)
    } else if b == 6 {
        state.mode = Mode::Insert;
        with_command(Action::Continue, EditorCommand::Forward)
    } else if b == 7 {
        with_command(Action::Continue, EditorCommand::Forward)
    } else if b == 8 {
        state.tree_up(1);
        synced(state)
    } else if b == 9 {
        state.tree_down(1);
        synced(state)
    } else if b == 10 {
        state.tree_up(state.tree_pane_height as usize);
        synced(state)
    } else if b == 11 {
        state.tree_down(state.tree_pane_height as usize);
        synced(state)
    } else if b == 12 {
        state.tree_selected = 0;
        state.ensure_visible();
        synced(state)
    } else if b == 13 {
        state.tree_selected = state.last_row_index();
        state.ensure_visible();
        synced(state)
    } else if b == 14 {
        toggle_at_cursor(state);
        plain(Action::Continue)
    } else if b == 15 {
        tree_right_action(state);
        plain(Action::Continue)
    } else if b == 16 {
        tree_left_action(state);
        plain(Action::Continue)
    } else if b == 17 {
        tree_enter_action(state);
        plain(Action::Continue)
    } else if b == 18 {
        tree_add_action(state);
        plain(Action::Continue)
    } else if b == 19 {
        tree_delete_prompt(state);
        plain(Action::Continue)
    } else if b == 20 {
        tree_rename_prompt(state);
        plain(Action::Continue)
    } else if b == 21 {
        match copy_node_value(state) {
            Some(t) => Outcome { action: Action::Continue, commands: Vec::new(), followup: Followup::Copy(t) },
            None => plain(Action::Continue),
        }
    } else if b == 22 {
        match jump_to_line_in_raw(state) {
            Some(c) => with_command(Action::Continue, c),
            None => plain(Action::Continue),
        }
    } else if b == 23 {
        state.push_undo();
        state.mode = Mode::Insert;
        let mut commands: Vec<EditorCommand> = Vec::new();
        commands.push(EditorCommand::Forward);
        Outcome { action: Action::Continue, commands, followup: Followup::SyncText { modifying: true } }
    } else {
        plain(Action::Noop)
    }
}

// ── key dispatch ─────────────────────────────────────────────────────────────

/// A copy of an edit kind.
fn copy_kind(k: &TreeEditKind) -> (r: TreeEditKind)
    ensures
        r == *k,
{
    match k {
        TreeEditKind::AddKey => TreeEditKind::AddKey,
        TreeEditKind::AddValue { key } => TreeEditKind::AddValue { key: key.clone() },
        TreeEditKind::RenameKey => TreeEditKind::RenameKey,
        TreeEditKind::EditValue { node_type, original } => TreeEditKind::EditValue {
            node_type: node_type.clone(),
            original: original.clone(),
        },
    }
}

/// A copy of a confirmed action.
fn copy_action(a: &ConfirmAction) -> (r: ConfirmAction)
    ensures
        r == *a,
{
    match a {
        ConfirmAction::DeleteNode => ConfirmAction::DeleteNode,
        ConfirmAction::QuitUnsaved => ConfirmAction::QuitUnsaved,
        ConfirmAction::SaveAs { path } => ConfirmAction::SaveAs { path: path.clone() },
        ConfirmAction::DiscardAndOpen { path } => ConfirmAction::DiscardAndOpen { path: path.clone() },
    }
}

/// What undo (or, with `redo`, redo) does.
pub open spec fn undo_post(redo: bool, s: AppState, f: AppState, r: Outcome) -> bool {
    &&& (r.action is Continue)
    &&& (r.followup is Nothing)
    &&& (({
            let h = s.undo_stack.history();
            let (h1, got) = if redo {
                crate::state::history_redo(h, s.current_snapshot())
            } else {
                crate::state::history_undo(h, s.current_snapshot())
            };
            match got {
                Some(p) => r.commands@.len() == 1 && (r.commands@[0] matches EditorCommand::Load(t) && t@ == p.text)
                    && exists|m: AppState|
                    #![trigger reparsed(m, f)]
                    m.undo_stack.history() == h1 && m.raw_text@ == p.text && m == (AppState {
                        undo_stack: m.undo_stack,
                        raw_text: m.raw_text,
                        modified: true,
                        ..s
                    }) && reparsed(m, f),
                None => r.commands@.len() == 0 && f == (AppState {
                    undo_stack: f.undo_stack,
                    ..s
                }) && f.undo_stack.history() == h,
            }
        }))
}

/// Undo (or redo, with `redo`): the raw text goes back (or forward), the
/// widget is reloaded with it and the text reparsed.
fn undo_step(state: &mut AppState, redo: bool) -> (r: Outcome)
    requires
        old(state).wf(),
    ensures
        final(state).wf(),
        undo_post(redo, *old(state), *final(state), r),
{
    let snap = if redo {
        state.apply_redo()
    } else {
        state.apply_undo()
    };
    match snap {
        Some(sn) => {
            let ghost m = *state;
            reparse_now(state);
            assert(reparsed(m, *state));
            with_command(Action::Continue, EditorCommand::Load(sn.text))
        },
        None => plain(Action::Continue),
    }
}

/// Ctrl+E: move the raw pane's cursor to the line the parse error names,
/// focusing the raw pane.
fn jump_to_error(state: &mut AppState) -> (r: Outcome)
    ensures
        r.action is Continue,
        r.followup is Nothing,
        match old(state).parse_error {
            Some(m) => match error_line_spec(m@) {
                Some(l) => r.commands@ == seq![EditorCommand::Jump((l as usize) as u16, 0)] && *final(state) == (
                AppState { focus: Focus::RawPane, ..*old(state) }),
                None => r.commands@.len() == 0 && *final(state) == *old(state),
            },
            None => r.commands@.len() == 0 && *final(state) == *old(state),
        },
{
    let line = match &state.parse_error {
        Some(m) => extract_error_line(m.as_str()),
        None => None,
    };
    match line {
        Some(l) => {
            state.focus = Focus::RawPane;
            with_command(Action::Continue, EditorCommand::Jump(l as u16, 0))
        },
        None => plain(Action::Continue),
    }
}

/// What a key does.
pub open spec fn key_post(key: KeyInput, s: AppState, f: AppState, r: Outcome) -> bool {
    &&& (({
            let c = key.code;
            let ctrl = key.modifiers == MOD_CONTROL;
            if ctrl && (c == KeyCode::Char('q') || c == KeyCode::Char('Q')) {
                (s.modified ==> r.action is Continue && (f.mode matches Mode::Confirm {
                    question,
                    action: ConfirmAction::QuitUnsaved,
                } && question@ == quit_question())) && (!s.modified ==> r.action is Quit && f == s)
            } else if ctrl && (c == KeyCode::Char('s') || c == KeyCode::Char('S')) {
                if s.file_path is None {
                    r.action is Continue && (f.mode matches Mode::SaveAs { buffer } && buffer@.len() == 0)
                        && f == (AppState { mode: f.mode, ..s })
                } else {
                    r.action is Save && f == s
                }
            } else if ctrl && (c == KeyCode::Char('o') || c == KeyCode::Char('O')) {
                r.action is Continue && r.followup is OpenPicker && f == s
            } else if ctrl && (c == KeyCode::Char('v') || c == KeyCode::Char('V')) {
                r.action is Continue && r.followup is Paste && f == s
            } else if ctrl && (c == KeyCode::Char('z') || c == KeyCode::Char('Z')) {
                undo_post(false, s, f, r)
            } else if ctrl && (c == KeyCode::Char('y') || c == KeyCode::Char('Y')) {
                undo_post(true, s, f, r)
            } else if ctrl && (c == KeyCode::Char('e') || c == KeyCode::Char('E')) {
                r.action is Continue && match s.parse_error {
                    Some(m) => match error_line_spec(m@) {
                        Some(l) => r.commands@ == seq![EditorCommand::Jump((l as usize) as u16, 0)] && f == (
                        AppState { focus: Focus::RawPane, ..s }),
                        None => f == s,
                    },
                    None => f == s,
                }
            } else if key.modifiers == MOD_NONE && c == KeyCode::Char('?') && !(s.mode is Insert) {
                r.action is Continue && f == (AppState { mode: Mode::About, ..s })
            } else {
                match s.mode {
                    Mode::Normal => normal_post(key, s, f, r),
                    Mode::Insert => insert_post(key, s, f, r),
                    Mode::TreeEdit { kind, buffer } => tree_edit_post(key, kind, buffer, s, f, r),
                    Mode::Search => search_post(key, s, f, r),
                    Mode::Replace { replacement } => replace_post(key, replacement, s, f, r),
                    Mode::Confirm { action, .. } => confirm_post(key, action, s, f, r),
                    Mode::FilePicker { selected, scroll, .. } => picker_post(key, selected, scroll, s, f, r),
                    Mode::About => r.action is Continue && r.commands@.len() == 0 && f == (AppState {
                        mode: Mode::Normal,
                        ..s
                    }),
                    Mode::SaveAs { buffer } => save_as_post(key, buffer, s, f, r),
                }
            }
        }))
}

/// A key: Control shortcuts that work in every mode (quit, save, open,
/// paste, undo, redo, jump to the parse error), `?` for the about screen
/// (not while typing in the raw pane), then the current mode's handler.
pub fn handle_key(key: KeyInput, state: &mut AppState) -> (r: Outcome)
    requires
        old(state).wf(),
        old(state).in_bounds(),
    ensures
        final(state).wf(),
        key_post(key, *old(state), *final(state), r),
{
    let c = key.code;
    if key.modifiers == MOD_CONTROL {
        if c == KeyCode::Char('q') || c == KeyCode::Char('Q') {
            let a = maybe_quit(state);
            return plain(a);
        }
        if c == KeyCode::Char('s') || c == KeyCode::Char('S') {
            if state.file_path.is_none() {
                state.mode = Mode::SaveAs { buffer: String::new() };
                return plain(Action::Continue);
            }
            return plain(Action::Save);
        }
        if c == KeyCode::Char('o') || c == KeyCode::Char('O') {
            return Outcome { action: Action::Continue, commands: Vec::new(), followup: Followup::OpenPicker };
        }
        if c == KeyCode::Char('v') || c == KeyCode::Char('V') {
            return Outcome { action: Action::Continue, commands: Vec::new(), followup: Followup::Paste };
        }
        if c == KeyCode::Char('z') || c == KeyCode::Char('Z') {
            return undo_step(state, false);
        }
        if c == KeyCode::Char('y') || c == KeyCode::Char('Y') {
            return undo_step(state, true);
        }
        if c == KeyCode::Char('e') || c == KeyCode::Char('E') {
            return jump_to_error(state);
        }
    }
    if key.modifiers == MOD_NONE && c == KeyCode::Char('?') && !matches!(state.mode, Mode::Insert) {
        state.mode = Mode::About;
        return plain(Action::Continue);
    }
    match &state.mode {
        Mode::Normal => handle_normal(key, state),
        Mode::Insert => handle_insert(key, state),
        Mode::TreeEdit { kind, buffer } => {
            let kind = copy_kind(kind);
            let buffer = copy_string(buffer);
            handle_tree_edit(key, state, kind, buffer)
        },
        Mode::Search => handle_search(key, state),
        Mode::Replace { replacement } => {
            let replacement = copy_string(replacement);
            handle_replace(key, state, replacement)
        },
        Mode::Confirm { action, .. } => {
            let action = copy_action(action);
            handle_confirm(key, state, action)
        },
        Mode::FilePicker { selected, scroll, .. } => {
            let selected = *selected;
            let scroll = *scroll;
            handle_file_picker(key, state, selected, scroll)
        },
        Mode::About => {
            state.mode = Mode::Normal;
            plain(Action::Continue)
        },
        Mode::SaveAs { buffer } => {
            let buffer = copy_string(buffer);
            handle_save_as(key, state, buffer)
        },
    }
}

/// Process one input event at time `now` (milliseconds): keys, mouse
/// events and pasted text change the state; a resize only redraws.
pub fn handle_event(event: &Input, state: &mut AppState, editor: &EditorView, now: u64) -> (r: Outcome)
    requires
        old(state).wf(),
        old(state).in_bounds(),
    ensures
        final(state).wf(),
        match event {
            Input::Key(k) => key_post(*k, *old(state), *final(state), r),
            Input::Mouse(m) => mouse_post(*m, now, *old(state), *final(state), r),
            Input::Paste(t) => paste_post(t@, *editor, now, *old(state), *final(state), r),
            Input::Resize => r.action is Continue && r.commands@.len() == 0 && r.followup is Nothing
                && *final(state) == *old(state),
            Input::Other => r.action is Noop && r.commands@.len() == 0 && r.followup is Nothing
                && *final(state) == *old(state),
        },
{
    match event {
        Input::Key(key) => handle_key(*key, state),
        Input::Mouse(mouse) => handle_mouse(*mouse, state, now),
        Input::Paste(text) => insert_text(text.as_str(), state, editor, now),
        Input::Resize => plain(Action::Continue),
        Input::Other => plain(Action::Noop),
    }
}

// ── parse-error locations ────────────────────────────────────────────────────

/// `str::split_whitespace`: the maximal runs of non-whitespace characters
/// of `s` scanned from its start, with the run `cur` in progress and the
/// runs `acc` already complete.
pub open spec fn words_from(s: Seq<char>, cur: Seq<char>, acc: Seq<Seq<char>>) -> Seq<Seq<char>>
    decreases s.len(),
{
    if s.len() == 0 {
        if cur.len() > 0 {
            acc.push(cur)
        } else {
            acc
        }
    } else if is_ws(s[0]) {
        words_from(s.drop_first(), Seq::empty(), if cur.len() > 0 {
            acc.push(cur)
        } else {
            acc
        })
    } else {
        words_from(s.drop_first(), cur.push(s[0]), acc)
    }
}

/// The whitespace-separated words of `s`.
pub open spec fn words(s: Seq<char>) -> Seq<Seq<char>> {
    words_from(s, Seq::empty(), Seq::empty())
}

/// `s` without its trailing characters that are not ASCII digits.
pub open spec fn trim_nondigit_end(s: Seq<char>) -> Seq<char>
    decreases s.len(),
{
    if s.len() > 0 && !('0' <= s.last() && s.last() <= '9') {
        trim_nondigit_end(s.drop_last())
    } else {
        s
    }
}

/// The number in the first word triple `at line N` from word `i` on
/// (trailing non-digits of `N` ignored) that parses as a `usize`.
pub open spec fn line_in_words(ws: Seq<Seq<char>>, i: nat) -> Option<nat>
    decreases ws.len() - i,
{
    if i + 3 > ws.len() {
        None
    } else if ws[i as int] == "at"@ && ws[i + 1int] == "line"@ && parse_usize_spec(
        trim_nondigit_end(ws[i + 2int]),
    ) is Some {
        parse_usize_spec(trim_nondigit_end(ws[i + 2int]))
    } else {
        line_in_words(ws, i + 1)
    }
}

/// `n - 1`, or 0 for 0.
pub open spec fn line_before(n: nat) -> nat {
    if n > 0 {
        (n - 1) as nat
    } else {
        0
    }
}

/// The one-based line a message of the form `JSON error at L:C ...`
/// names, when `L` parses as a `usize`.
pub open spec fn json_error_line(msg: Seq<char>) -> Option<nat> {
    let prefix = "JSON error at "@;
    if starts_with_seq(msg, prefix) {
        let rest = msg.skip(prefix.len() as int);
        match first_index_of(rest, ':') {
            Some(c) => parse_usize_spec(rest.take(c)),
            None => None,
        }
    } else {
        None
    }
}

/// The 0-based line a parse-error message names: from a JSON message's
/// `L:C`, else from the first `at line N` in it (both one-based).
pub open spec fn error_line_spec(msg: Seq<char>) -> Option<nat> {
    match json_error_line(msg) {
        Some(l) => Some(line_before(l)),
        None => match line_in_words(words(msg), 0) {
            Some(l) => Some(line_before(l)),
            None => None,
        },
    }
}

/// The whitespace-separated words of `s`.
fn split_words(s: &Vec<char>) -> (r: Vec<Vec<char>>)
    ensures
        r@.map_values(|w: Vec<char>| w@) == words(s@),
{
    let mut acc: Vec<Vec<char>> = Vec::new();
    let mut cur: Vec<char> = Vec::new();
    let n = s.len();
    let mut i: usize = 0;
    assert(s@.skip(0) =~= s@);
    assert(acc@.map_values(|w: Vec<char>| w@) =~= Seq::<Seq<char>>::empty());
    assert(cur@ =~= Seq::<char>::empty());
    while i < n
        invariant
            n == s@.len(),
            i <= n,
            words_from(s@.skip(i as int), cur@, acc@.map_values(|w: Vec<char>| w@)) == words(s@),
        decreases n - i,
    {
        let ghost rest = s@.skip(i as int);
        assert(rest.drop_first() =~= s@.skip(i + 1));
        assert(rest[0] == s@[i as int]);
        let c = s[i];
        if is_whitespace(c) {
            if cur.len() > 0 {
                let ghost a = acc@.map_values(|w: Vec<char>| w@);
                let ghost cv = cur@;
                acc.push(cur);
                assert(acc@.map_values(|w: Vec<char>| w@) =~= a.push(cv));
                cur = Vec::new();
            } else {
                cur = Vec::new();
            }
            assert(cur@ =~= Seq::<char>::empty());
        } else {
            cur.push(c);
        }
        i = i + 1;
    }
    assert(s@.skip(n as int) =~= Seq::<char>::empty());
    if cur.len() > 0 {
        let ghost a = acc@.map_values(|w: Vec<char>| w@);
        let ghost cv = cur@;
        acc.push(cur);
        assert(acc@.map_values(|w: Vec<char>| w@) =~= a.push(cv));
    }
    acc
}

/// `s` without its trailing non-digit characters.
fn trim_nondigits(s: &Vec<char>) -> (r: Vec<char>)
    ensures
        r@ == trim_nondigit_end(s@),
{
    let mut k = s.len();
    assert(s@.take(k as int) =~= s@);
    while k > 0 && !('0' <= s[k - 1] && s[k - 1] <= '9')
        invariant
            k <= s@.len(),
            trim_nondigit_end(s@.take(k as int)) == trim_nondigit_end(s@),
        decreases k,
    {
        assert(s@.take(k as int).drop_last() =~= s@.take(k - 1));
        k = k - 1;
    }
    assert(s@.take(s@.len() as int) =~= s@);
    sub_chars(s, 0, k)
}

/// Whether `w` is the word `word`.
fn word_is(w: &Vec<char>, word: &str) -> (r: bool)
    ensures
        r == (w@ == word@),
{
    crate::text::chars_eq(w, &chars_of(word))
}

/// Try to extract a 0-based line number from a parse-error message:
/// `JSON error at L:C — ...` or `... at line L ...` (L one-based).
pub fn extract_error_line(msg: &str) -> (r: Option<usize>)
    ensures
        match r {
            Some(l) => error_line_spec(msg@) == Some(l as nat),
            None => error_line_spec(msg@) is None,
        },
{
    let m = chars_of(msg);
    let prefix = chars_of("JSON error at ");
    if starts_with_chars(&m, &prefix) {
        let rest = sub_chars(&m, prefix.len(), m.len());
        let mut j: usize = 0;
        while j < rest.len() && rest[j] != ':'
            invariant
                j <= rest@.len(),
                forall|k: int| 0 <= k < j ==> rest@[k] != ':',
            decreases rest@.len() - j,
        {
            j = j + 1;
        }
        proof {
            if j < rest@.len() {
                crate::text::lemma_first_index_skip(rest@, ':', 0, j as int);
            } else {
                crate::text::lemma_first_index_skip_none(rest@, ':', 0);
            }
            assert(rest@.skip(0) =~= rest@);
        }
        if j < rest.len() {
            assert(first_index_of(rest@, ':') == Some(j as int));
            let head = sub_chars(&rest, 0, j);
            assert(head@ =~= rest@.take(j as int));
            match parse_usize(&head) {
                Some(line) => {
                    return Some(line.saturating_sub(1));
                },
                None => {},
            }
        }
    }
    let ws = split_words(&m);
    let ghost wv = ws@.map_values(|w: Vec<char>| w@);
    let n = ws.len();
    let mut i: usize = 0;
    while i < n && n - i >= 3
        invariant
            n == ws@.len(),
            wv == ws@.map_values(|w: Vec<char>| w@),
            wv == words(msg@),
            json_error_line(msg@) is None,
            i <= n,
            line_in_words(wv, i as nat) == line_in_words(wv, 0),
        decreases n - i,
    {
        if word_is(&ws[i], "at") && word_is(&ws[i + 1], "line") {
            let t = trim_nondigits(&ws[i + 2]);
            match parse_usize(&t) {
                Some(line) => {
                    return Some(line.saturating_sub(1));
                },
                None => {},
            }
        }
        i = i + 1;
    }
    None
}

} // verus!
