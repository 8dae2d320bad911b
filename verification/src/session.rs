//! The life of a document outside the event handlers: showing what was
//! read at start-up or from the picker, saving, the parse debounce, and the
//! screen geometry the handlers need.
use vstd::prelude::*;
use crate::codec::{parse_spec, serialize_spec};
use crate::events::{lines_synced, refresh_line_numbers};
use crate::format::FileFormat;
use crate::state::{AppState, History, Mode, UndoStack};
use crate::sync::{ParseResult, parsed_as, raw_to_tree};
use crate::text::{chars_of, string_of};
use crate::tree::{PathSet, rebuild_spec, strip_lines};

verus! {

/// What the editor shows after reading `text` in format `f`: on a
/// successful parse, the formatted document in the buffer and a tree of it
/// (nothing collapsed, no query) whose rows carry their lines in that
/// buffer; otherwise `text` itself, no tree, and the message as the parse
/// error.
pub open spec fn document_shown(s: AppState, f: FileFormat, text: Seq<char>) -> bool {
    match parse_spec(f, text) {
        Ok(v) => {
            &&& s.raw_text@ == serialize_spec(f, v)
            &&& s.parse_error is None
            &&& s.tree matches Some(t) && t.wf() && t.doc() == v && t.coll() == Set::<Seq<char>>::empty()
                && t.query() == Seq::<char>::empty()
                && strip_lines(t.rows()) == strip_lines(rebuild_spec(v, Set::empty(), Seq::empty()))
                && lines_synced(t, f, s.raw_text@)
        },
        Err(m) => {
            &&& s.raw_text@ == text
            &&& s.tree is None
            &&& s.parse_error matches Some(e) && e@ == m
        },
    }
}

/// Put the outcome `p` of parsing `text` into the state (see
/// `document_shown`) and return the text the raw pane shows.
fn show_parsed(state: &mut AppState, text: String, p: ParseResult) -> (r: String)
    requires
        old(state).wf(),
        parsed_as(p, old(state).format, text@, Set::empty()),
    ensures
        final(state).wf(),
        r@ == final(state).raw_text@,
        document_shown(*final(state), old(state).format, text@),
        *final(state) == (AppState {
            raw_text: final(state).raw_text,
            tree: final(state).tree,
            parse_error: final(state).parse_error,
            ..*old(state)
        }),
{
    match p {
        ParseResult::Parsed(tree) => {
            let pretty = crate::sync::tree_to_raw(&tree, state.format);
            let shown = string_of(chars_of(pretty.as_str()).as_slice());
            state.raw_text = pretty;
            state.parse_error = None;
            state.tree = Some(tree);
            refresh_line_numbers(state);
            shown
        },
        ParseResult::Failed(msg) => {
            let shown = string_of(chars_of(text.as_str()).as_slice());
            state.raw_text = text;
            state.tree = None;
            state.parse_error = Some(msg);
            shown
        },
    }
}

/// Format what the program was started with.  An empty buffer stays as
/// it is (the result is the empty text); otherwise see `document_shown`.
/// The result is the text the raw pane shows.
pub fn prettify_initial(state: &mut AppState) -> (r: String)
    requires
        old(state).wf(),
    ensures
        final(state).wf(),
        old(state).raw_text@.len() == 0 ==> r@.len() == 0 && *final(state) == *old(state),
        old(state).raw_text@.len() > 0 ==> {
            &&& r@ == final(state).raw_text@
            &&& document_shown(*final(state), old(state).format, old(state).raw_text@)
            &&& *final(state) == (AppState {
                raw_text: final(state).raw_text,
                tree: final(state).tree,
                parse_error: final(state).parse_error,
                ..*old(state)
            })
        },
{
    let raw = chars_of(state.raw_text.as_str());
    if raw.len() == 0 {
        return string_of(raw.as_slice());
    }
    let text = string_of(raw.as_slice());
    let p = raw_to_tree(text.as_str(), PathSet::new(), state.format);
    show_parsed(state, text, p)
}

/// Open `text`, read from `path`: the format comes from the path, the
/// file is unmodified, history, tree, selection, scroll, error, query,
/// edit clock and click are reset and the mode is normal; then see
/// `document_shown` (the text is parsed even when empty).  The result is
/// the text the raw pane shows.
pub fn load_document(state: &mut AppState, path: String, text: String) -> (r: String)
    requires
        old(state).wf(),
    ensures
        final(state).wf(),
        ({
            let f = crate::format::format_of_path(path@);
            &&& r@ == final(state).raw_text@
            &&& document_shown(*final(state), f, text@)
            &&& final(state).file_path == Some(path)
            &&& final(state).format == f
            &&& !final(state).modified
            &&& final(state).undo_stack.history() == (History { past: Seq::empty(), future: Seq::empty() })
            &&& final(state).tree_selected == 0 && final(state).tree_scroll == 0
            &&& final(state).mode is Normal
            &&& final(state).search_query@ == Seq::<char>::empty()
            &&& !final(state).parse_dirty && final(state).last_edit is None && final(state).last_click is None
            &&& final(state).focus == old(state).focus
            &&& final(state).tree_pane_height == old(state).tree_pane_height
            &&& final(state).picker_height == old(state).picker_height
            &&& final(state).picker_x == old(state).picker_x && final(state).picker_y == old(state).picker_y
            &&& final(state).picker_w == old(state).picker_w
            &&& final(state).tree_x_start == old(state).tree_x_start
            &&& final(state).scrollbar_x_start == old(state).scrollbar_x_start
        }),
{
    let fmt = FileFormat::from_path(path.as_str());
    let parsed = raw_to_tree(text.as_str(), PathSet::new(), fmt);
    state.file_path = Some(path);
    state.format = fmt;
    state.modified = false;
    state.undo_stack = UndoStack::default();
    state.tree = None;
    state.tree_selected = 0;
    state.tree_scroll = 0;
    state.parse_error = None;
    state.mode = Mode::Normal;
    state.search_query = String::new();
    state.parse_dirty = false;
    state.last_edit = None;
    state.last_click = None;
    show_parsed(state, text, parsed)
}

/// Where to save and what: the open file, or the format's default file
/// name when none is open (which then becomes the open file); the text
/// is the editor's lines joined with `\n`.  Returns `(path, text)`.
pub fn save_plan(state: &mut AppState, lines: &Vec<String>) -> (r: (String, String))
    ensures
        r.1@ == crate::events::join_lf(crate::events::strings_view(lines@)),
        match old(state).file_path {
            Some(p) => r.0 == p && *final(state) == *old(state),
            None => r.0@ == old(state).format.default_filename_spec() && (final(state).file_path matches Some(q)
                && q@ == r.0@) && *final(state) == (AppState { file_path: final(state).file_path, ..*old(state) }),
        },
{
    let text = string_of(crate::events::join_lines(&crate::events::char_lines(lines)).as_slice());
    let path = match &state.file_path {
        Some(p) => p.clone(),
        None => {
            let name = string_of(chars_of(state.format.default_filename()).as_slice());
            state.file_path = Some(string_of(chars_of(name.as_str()).as_slice()));
            name
        },
    };
    (path, text)
}

/// After `text` was written: the buffer is `text` and unmodified.
pub fn mark_saved(state: &mut AppState, text: String)
    ensures
        *final(state) == (AppState { modified: false, raw_text: text, ..*old(state) }),
{
    state.modified = false;
    state.raw_text = text;
}

/// Milliseconds without a keystroke before the raw text is reparsed.
pub const PARSE_DEBOUNCE_MS: u64 = 250;

/// Whether the pending reparse is due at time `now` (milliseconds): the
/// text changed since the last parse and the last edit is at least
/// `PARSE_DEBOUNCE_MS` old.
pub fn reparse_due(state: &AppState, now: u64) -> (r: bool)
    ensures
        r == (state.parse_dirty && (state.last_edit matches Some(t) && now - t >= PARSE_DEBOUNCE_MS)),
{
    if !state.parse_dirty {
        return false;
    }
    match state.last_edit {
        Some(t) => now >= t && now - t >= PARSE_DEBOUNCE_MS,
        None => false,
    }
}

/// Record the geometry of a `width` by `height` screen: the tree pane's
/// height (less the status bar and borders), where the scrollbar strip
/// and the tree pane start (the raw pane takes half of what the
/// three-column strip leaves), and the file picker's list inside its
/// popup (70% of each dimension, centred, inside its border and under its
/// directory line).
pub fn apply_layout(state: &mut AppState, width: u16, height: u16)
    requires
        width * 70 <= u16::MAX,
        height * 70 <= u16::MAX,
    ensures
        ({
            let pw: int = width * 70 / 100;
            let ph: int = height * 70 / 100;
            let raw_w: int = (if width >= 3 { width - 3 } else { 0 }) / 2;
            *final(state) == (AppState {
                tree_pane_height: (if height >= 3 { height - 3 } else { 0 }) as u16,
                scrollbar_x_start: raw_w as u16,
                tree_x_start: (raw_w + 3) as u16,
                picker_x: ((width - pw) / 2 + 1) as u16,
                picker_y: ((height - ph) / 2 + 2) as u16,
                picker_w: (if pw >= 2 { pw - 2 } else { 0 }) as u16,
                picker_height: (if ph >= 3 { ph - 3 } else { 0 }) as u16,
                ..*old(state)
            })
        }),
{
    state.tree_pane_height = height.saturating_sub(3);
    let raw_width = width.saturating_sub(3) / 2;
    state.scrollbar_x_start = raw_width;
    state.tree_x_start = raw_width + 3;
    let popup_w = width * 70 / 100;
    let popup_h = height * 70 / 100;
    let popup_x = width.saturating_sub(popup_w) / 2;
    let popup_y = height.saturating_sub(popup_h) / 2;
    state.picker_x = popup_x + 1;
    state.picker_y = popup_y + 2;
    state.picker_w = popup_w.saturating_sub(2);
    state.picker_height = popup_h.saturating_sub(3);
}

} // verus!
