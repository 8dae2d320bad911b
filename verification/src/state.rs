//! Application state: the data that drives the editor, the undo/redo
//! history of the raw text, and the interaction modes.
//!
//! Event handling (`events`) borrows `AppState` mutably; rendering
//! (`render`) reads it.
use vstd::prelude::*;
use std::collections::VecDeque;
use crate::format::FileFormat;
use crate::tree::JsonTree;
use crate::text::{chars_of, string_of};

verus! {

// ── undo / redo ──────────────────────────────────────────────────────────────

/// Maximum number of snapshots kept in the undo history.
pub const UNDO_LIMIT: usize = 100;

/// One undo/redo entry: the raw text at that moment.
#[derive(Debug, Clone)]
pub struct Snapshot {
    pub text: String,
    /// Cursor row at the time of the snapshot (reserved).
    pub cursor_row: usize,
    /// Cursor column at the time of the snapshot (reserved).
    pub cursor_col: usize,
}

/// The view of a snapshot.
pub struct SnapV {
    pub text: Seq<char>,
    pub cursor_row: usize,
    pub cursor_col: usize,
}

impl View for Snapshot {
    type V = SnapV;

    open spec fn view(&self) -> SnapV {
        SnapV { text: self.text@, cursor_row: self.cursor_row, cursor_col: self.cursor_col }
    }
}

/// The history as two sequences: past states (the last is the most
/// recent) and future states (filled by undo; the last is the next redo).
pub struct History {
    pub past: Seq<SnapV>,
    pub future: Seq<SnapV>,
}

/// The history after recording `s`: `s` appended to the past (the oldest
/// dropped beyond `UNDO_LIMIT`), the future cleared.
pub open spec fn history_push(h: History, s: SnapV) -> History {
    let p = h.past.push(s);
    History {
        past: if p.len() > UNDO_LIMIT {
            p.drop_first()
        } else {
            p
        },
        future: Seq::empty(),
    }
}

/// Undo with current state `cur`: the most recent past state comes back
/// and `cur` goes to the future; with no past, nothing changes.
pub open spec fn history_undo(h: History, cur: SnapV) -> (History, Option<SnapV>) {
    if h.past.len() == 0 {
        (h, None)
    } else {
        (History { past: h.past.drop_last(), future: h.future.push(cur) }, Some(h.past.last()))
    }
}

/// Redo with current state `cur`: the most recent future state comes back
/// and `cur` goes to the past; with no future, nothing changes.
pub open spec fn history_redo(h: History, cur: SnapV) -> (History, Option<SnapV>) {
    if h.future.len() == 0 {
        (h, None)
    } else {
        (History { past: h.past.push(cur), future: h.future.drop_last() }, Some(h.future.last()))
    }
}

/// The history holds at most `UNDO_LIMIT` snapshots in all.
pub open spec fn history_wf(h: History) -> bool {
    h.past.len() + h.future.len() <= UNDO_LIMIT
}

/// Undo/redo history for the raw text buffer.
#[derive(Debug)]
pub struct UndoStack {
    /// Past states; the back is the most recent.
    past: VecDeque<Snapshot>,
    /// Future states (filled when the user undoes).
    future: VecDeque<Snapshot>,
}

impl Default for UndoStack {
    fn default() -> (r: UndoStack)
        ensures
            r.history() == (History { past: Seq::empty(), future: Seq::empty() }),
    {
        let r = UndoStack { past: VecDeque::new(), future: VecDeque::new() };
        assert(r.history().past =~= Seq::<SnapV>::empty());
        assert(r.history().future =~= Seq::<SnapV>::empty());
        r
    }
}

impl UndoStack {
    /// The history this stack holds.
    pub closed spec fn history(&self) -> History {
        History {
            past: self.past@.map_values(|s: Snapshot| s@),
            future: self.future@.map_values(|s: Snapshot| s@),
        }
    }

    /// At most `UNDO_LIMIT` snapshots are held.
    pub open spec fn wf(&self) -> bool {
        history_wf(self.history())
    }

    /// Record a new state, clearing the redo future.
    pub fn push(&mut self, snap: Snapshot)
        ensures
            final(self).history() == history_push(old(self).history(), snap@),
    {
        let ghost s = snap@;
        let ghost p = old(self).history().past.push(s);
        self.past.push_back(snap);
        assert(self.past@.map_values(|x: Snapshot| x@) =~= p);
        if self.past.len() > UNDO_LIMIT {
            self.past.pop_front();
            assert(self.past@.map_values(|x: Snapshot| x@) =~= p.drop_first());
        }
        self.future.clear();
        assert(self.history().future =~= Seq::<SnapV>::empty());
    }

    /// Take back the most recent past state, pushing `current` onto the
    /// redo future.
    pub fn undo(&mut self, current: Snapshot) -> (r: Option<Snapshot>)
        ensures
            history_undo(old(self).history(), current@) == (
                final(self).history(),
                match r {
                    Some(s) => Some(s@),
                    None => None::<SnapV>,
                },
            ),
    {
        let ghost h = old(self).history();
        let ghost c = current@;
        match self.past.pop_back() {
            Some(prev) => {
                self.future.push_back(current);
                assert(self.history().past =~= h.past.drop_last());
                assert(self.history().future =~= h.future.push(c));
                Some(prev)
            },
            None => None,
        }
    }

    /// Take back the most recent future state, pushing `current` onto the
    /// undo past.
    pub fn redo(&mut self, current: Snapshot) -> (r: Option<Snapshot>)
        ensures
            history_redo(old(self).history(), current@) == (
                final(self).history(),
                match r {
                    Some(s) => Some(s@),
                    None => None::<SnapV>,
                },
            ),
    {
        let ghost h = old(self).history();
        let ghost c = current@;
        match self.future.pop_back() {
            Some(next) => {
                self.past.push_back(current);
                assert(self.history().future =~= h.future.drop_last());
                assert(self.history().past =~= h.past.push(c));
                Some(next)
            },
            None => None,
        }
    }

    /// Whether there is a state to undo to.
    pub fn can_undo(&self) -> (r: bool)
        ensures
            r == (self.history().past.len() > 0),
    {
        self.past.len() > 0
    }

    /// Whether there is a state to redo to.
    pub fn can_redo(&self) -> (r: bool)
        ensures
            r == (self.history().future.len() > 0),
    {
        self.future.len() > 0
    }
}

/// Undo followed by redo (with the state undo gave back as the current
/// one) restores the history and gives back the state undone.
pub proof fn lemma_undo_redo(h: History, cur: SnapV)
    requires
        h.past.len() > 0,
    ensures
        ({
            let (h1, prev) = history_undo(h, cur);
            history_redo(h1, prev->0) == (h, Some(cur))
        }),
{
    let (h1, prev) = history_undo(h, cur);
    assert(h1.past.push(prev->0) =~= h.past);
    assert(h1.future.drop_last() =~= h.future);
}

/// Redo followed by undo (with the state redo gave back as the current
/// one) restores the history and gives back the state redone.
pub proof fn lemma_redo_undo(h: History, cur: SnapV)
    requires
        h.future.len() > 0,
    ensures
        ({
            let (h1, next) = history_redo(h, cur);
            history_undo(h1, next->0) == (h, Some(cur))
        }),
{
    let (h1, next) = history_redo(h, cur);
    assert(h1.future.push(next->0) =~= h.future);
    assert(h1.past.drop_last() =~= h.past);
}

/// Recording a state leaves nothing to redo, and undo then gives that
/// state back.
pub proof fn lemma_push_then_undo(h: History, s: SnapV, cur: SnapV)
    ensures
        history_push(h, s).future.len() == 0,
        history_redo(history_push(h, s), cur).1 is None,
        history_undo(history_push(h, s), cur).1 == Some(s),
{
}

/// Undo and redo with nothing to take back change nothing.
pub proof fn lemma_empty_history_steps(h: History, cur: SnapV)
    ensures
        h.past.len() == 0 ==> history_undo(h, cur) == (h, None::<SnapV>),
        h.future.len() == 0 ==> history_redo(h, cur) == (h, None::<SnapV>),
{
}

/// Every operation keeps the history within `UNDO_LIMIT` snapshots.
pub proof fn lemma_history_bounded(h: History, s: SnapV)
    requires
        history_wf(h),
    ensures
        history_wf(history_push(h, s)),
        history_wf(history_undo(h, s).0),
        history_wf(history_redo(h, s).0),
{
}

// ── modes ────────────────────────────────────────────────────────────────────

/// Which interaction mode the editor is in; it gates which key bindings
/// are active and what the status bar shows.
#[derive(Debug, Clone, PartialEq, Eq)]
pub enum Mode {
    /// Browsing; both panes navigable, nothing being edited.
    Normal,
    /// The raw pane has focus and text is being typed.
    Insert,
    /// A tree-pane inline edit is in progress.
    TreeEdit { kind: TreeEditKind, buffer: String },
    /// The search / filter bar is open.
    Search,
    /// A yes/no prompt is active.
    Confirm { question: String, action: ConfirmAction },
    /// Find and replace; the query is `AppState::search_query`.
    Replace { replacement: String },
    /// The file picker is open on `current_dir`.
    FilePicker { current_dir: String, entries: Vec<FileEntry>, selected: usize, scroll: usize },
    /// The about / help overlay is visible.
    About,
    /// The user is typing a file name for a first save.
    SaveAs { buffer: String },
}

impl Default for Mode {
    fn default() -> (r: Mode)
        ensures
            r is Normal,
    {
        Mode::Normal
    }
}

/// One row of the file picker.
#[derive(Debug, Clone, PartialEq, Eq)]
pub struct FileEntry {
    /// Display name (`data.json`, `subdir`, `..`).
    pub name: String,
    /// Whether the entry is a directory.
    pub is_dir: bool,
    /// Path of the entry.
    pub path: String,
}

/// One entry of a directory listing, as the file system reports it.
#[derive(Debug)]
pub struct DirItem {
    /// File name.
    pub name: String,
    /// Whether it is a directory.
    pub is_dir: bool,
    /// Whether it is a regular file.
    pub is_file: bool,
    /// Full path.
    pub path: String,
}

/// Whether a name is hidden (starts with `.`).
pub open spec fn is_hidden(name: Seq<char>) -> bool {
    name.len() > 0 && name[0] == '.'
}

/// Whether a listing entry is a file the picker offers: a regular file
/// whose path has the extension `json` (in any case).
pub open spec fn offered_file(i: DirItem) -> bool {
    &&& !i.is_dir
    &&& i.is_file
    &&& match crate::format::path_extension_spec(i.path@) {
        Some(e) => crate::text::lowercase_spec(e) == "json"@,
        None => false,
    }
}

/// The picker entry of a listing entry.
pub open spec fn entry_of(i: DirItem) -> FileEntry {
    FileEntry { name: i.name, is_dir: i.is_dir, path: i.path }
}

/// The entries of `items` that are not hidden and are directories (with
/// `dirs`) or offered files (without), in listing order.
pub open spec fn listed(items: Seq<DirItem>, dirs: bool) -> Seq<FileEntry>
    decreases items.len(),
{
    if items.len() == 0 {
        Seq::empty()
    } else {
        let rest = listed(items.drop_last(), dirs);
        let i = items.last();
        if !is_hidden(i.name@) && (if dirs { i.is_dir } else { offered_file(i) }) {
            rest.push(entry_of(i))
        } else {
            rest
        }
    }
}

/// The sort key of an entry: its name in lower case.
pub open spec fn entry_key(e: FileEntry) -> Seq<char> {
    crate::text::lowercase_spec(e.name@)
}

/// `s` with `e` inserted after every entry whose key is not greater than
/// `e`'s.
pub open spec fn insert_by_key(s: Seq<FileEntry>, e: FileEntry) -> Seq<FileEntry>
    decreases s.len(),
{
    if s.len() == 0 {
        seq![e]
    } else if crate::text::key_lt(entry_key(e), entry_key(s.last())) {
        insert_by_key(s.drop_last(), e).push(s.last())
    } else {
        s.push(e)
    }
}

/// The stable sort of `s` by key (entries with equal keys keep their
/// order), as `slice::sort_by` leaves it.
pub open spec fn sort_by_key(s: Seq<FileEntry>) -> Seq<FileEntry>
    decreases s.len(),
{
    if s.len() == 0 {
        Seq::empty()
    } else {
        insert_by_key(sort_by_key(s.drop_last()), s.last())
    }
}

/// Whether the entries are in ascending key order.
pub open spec fn key_sorted(s: Seq<FileEntry>) -> bool {
    forall|i: int, j: int| 0 <= i < j < s.len() ==> !crate::text::key_lt(entry_key(s[j]), entry_key(s[i]))
}

proof fn lemma_insert_by_key(s: Seq<FileEntry>, e: FileEntry)
    requires
        key_sorted(s),
    ensures
        key_sorted(insert_by_key(s, e)),
        insert_by_key(s, e).to_multiset() == s.to_multiset().insert(e),
    decreases s.len(),
{
    broadcast use vstd::seq_lib::group_to_multiset_ensures;
    let r = insert_by_key(s, e);
    if s.len() == 0 {
        assert(r == Seq::<FileEntry>::empty().push(e));
    } else {
        let init = s.drop_last();
        let last = s.last();
        assert(s == init.push(last));
        assert(key_sorted(init)) by {
            assert forall|i: int, j: int| 0 <= i < j < init.len() implies !crate::text::key_lt(
                entry_key(init[j]),
                entry_key(init[i]),
            ) by {
                assert(init[i] == s[i] && init[j] == s[j]);
            }
        }
        if crate::text::key_lt(entry_key(e), entry_key(last)) {
            lemma_insert_by_key(init, e);
            let m = insert_by_key(init, e);
            assert(r == m.push(last));
            assert forall|i: int| 0 <= i < m.len() implies !crate::text::key_lt(
                entry_key(last),
                entry_key(#[trigger] m[i]),
            ) by {
                assert(m.to_multiset().count(m[i]) > 0);
                if m[i] == e {
                    crate::text::lemma_key_lt_irreflexive(entry_key(e));
                    if crate::text::key_lt(entry_key(last), entry_key(e)) {
                        crate::text::lemma_key_lt_transitive(entry_key(e), entry_key(last), entry_key(e));
                    }
                } else {
                    assert(init.to_multiset().count(m[i]) > 0);
                    assert(init.contains(m[i]));
                    let k = choose|k: int| 0 <= k < init.len() && init[k] == m[i];
                    assert(s[k] == init[k]);
                    assert(s[s.len() - 1] == last);
                }
            }
            assert forall|i: int, j: int| 0 <= i < j < r.len() implies !crate::text::key_lt(
                entry_key(r[j]),
                entry_key(r[i]),
            ) by {
                if j < m.len() {
                    assert(r[i] == m[i] && r[j] == m[j]);
                } else {
                    assert(r[j] == last && r[i] == m[i]);
                }
            }
            assert(r.to_multiset() =~= s.to_multiset().insert(e));
        } else {
            assert(r == s.push(e));
            assert forall|i: int, j: int| 0 <= i < j < r.len() implies !crate::text::key_lt(
                entry_key(r[j]),
                entry_key(r[i]),
            ) by {
                if j < s.len() {
                    assert(r[i] == s[i] && r[j] == s[j]);
                } else {
                    assert(r[j] == e && r[i] == s[i]);
                    if i < s.len() - 1 {
                        assert(!crate::text::key_lt(entry_key(s[s.len() - 1]), entry_key(s[i])));
                        crate::text::lemma_key_le_transitive(entry_key(s[i]), entry_key(last), entry_key(e));
                    }
                }
            }
        }
    }
}

/// The listing order: sorting by key gives the same entries, each as
/// often, in ascending order of lower-case name.
pub proof fn lemma_sort_by_key_sorted(s: Seq<FileEntry>)
    ensures
        key_sorted(sort_by_key(s)),
        sort_by_key(s).to_multiset() == s.to_multiset(),
    decreases s.len(),
{
    broadcast use vstd::seq_lib::group_to_multiset_ensures;
    if s.len() > 0 {
        lemma_sort_by_key_sorted(s.drop_last());
        lemma_insert_by_key(sort_by_key(s.drop_last()), s.last());
        assert(s == s.drop_last().push(s.last()));
    } else {
        assert(s.to_multiset() =~= vstd::multiset::Multiset::empty());
        assert(sort_by_key(s).to_multiset() =~= vstd::multiset::Multiset::empty());
    }
}

fn copy_entry(e: &FileEntry) -> (r: FileEntry)
    ensures
        r == *e,
{
    FileEntry { name: e.name.clone(), is_dir: e.is_dir, path: e.path.clone() }
}

/// Put `e`, whose key is `key`, into the key-sorted `out`.
fn insert_entry(out: &mut Vec<FileEntry>, keys: &mut Vec<Vec<char>>, e: FileEntry, key: Vec<char>)
    requires
        key@ == entry_key(e),
        old(keys)@.len() == old(out)@.len(),
        forall|j: int| 0 <= j < old(out)@.len() ==> #[trigger] old(keys)@[j]@ == entry_key(old(out)@[j]),
    ensures
        final(out)@ == insert_by_key(old(out)@, e),
        final(keys)@.len() == final(out)@.len(),
        forall|j: int| 0 <= j < final(out)@.len() ==> #[trigger] final(keys)@[j]@ == entry_key(final(out)@[j]),
{
    let ghost s = out@;
    let mut pos = out.len();
    assert(s.take(pos as int) == s);
    assert(s.skip(pos as int) =~= Seq::<FileEntry>::empty());
    while pos > 0 && crate::text::chars_lt(&key, &keys[pos - 1])
        invariant
            pos <= s.len(),
            out@ == s,
            keys@.len() == s.len(),
            key@ == entry_key(e),
            forall|j: int| 0 <= j < s.len() ==> #[trigger] keys@[j]@ == entry_key(s[j]),
            insert_by_key(s, e) == insert_by_key(s.take(pos as int), e) + s.skip(pos as int),
        decreases pos,
    {
        let ghost t = s.take(pos as int);
        assert(t.drop_last() =~= s.take(pos - 1));
        assert(t.last() == s[pos - 1]);
        assert(s.skip(pos - 1) =~= seq![s[pos - 1]] + s.skip(pos as int));
        assert(insert_by_key(s.take(pos - 1), e).push(s[pos - 1]) + s.skip(pos as int) =~= insert_by_key(
            s.take(pos - 1),
            e,
        ) + s.skip(pos - 1));
        pos = pos - 1;
    }
    let ghost t = s.take(pos as int);
    if pos > 0 {
        assert(t.last() == s[pos - 1]);
    }
    assert(insert_by_key(t, e) =~= t.push(e));
    out.insert(pos, e);
    keys.insert(pos, key);
    assert(out@ =~= t.push(e) + s.skip(pos as int));
    assert forall|j: int| 0 <= j < out@.len() implies #[trigger] keys@[j]@ == entry_key(out@[j]) by {
        if j < pos {
        } else if j == pos {
        } else {
            assert(out@[j] == s[j - 1]);
            assert(keys@[j] == old(keys)@[j - 1]);
        }
    }
}

/// The entries sorted by key, stably (see `sort_by_key`).
pub fn sort_entries(v: &Vec<FileEntry>) -> (r: Vec<FileEntry>)
    ensures
        r@ == sort_by_key(v@),
{
    let mut out: Vec<FileEntry> = Vec::new();
    let mut keys: Vec<Vec<char>> = Vec::new();
    let n = v.len();
    assert(v@.take(0) =~= Seq::<FileEntry>::empty());
    for i in 0..n
        invariant
            n == v@.len(),
            out@ == sort_by_key(v@.take(i as int)),
            keys@.len() == out@.len(),
            forall|j: int| 0 <= j < out@.len() ==> #[trigger] keys@[j]@ == entry_key(out@[j]),
    {
        let e = copy_entry(&v[i]);
        let key = chars_of(crate::text::to_lowercase(e.name.as_str()).as_str());
        assert(v@.take(i + 1).drop_last() =~= v@.take(i as int));
        insert_entry(&mut out, &mut keys, e, key);
    }
    assert(v@.take(n as int) =~= v@);
    out
}

/// Whether a listing entry is an offered file (see `offered_file`).
fn offers_file(i: &DirItem) -> (r: bool)
    ensures
        r == offered_file(*i),
{
    if i.is_dir || !i.is_file {
        return false;
    }
    match crate::format::path_extension(i.path.as_str()) {
        Some(e) => {
            let lower = crate::text::to_lowercase(e.as_str());
            let json = chars_of("json");
            proof {
                reveal_strlit("json");
            }
            crate::text::chars_eq(&chars_of(lower.as_str()), &json)
        },
        None => false,
    }
}

/// The entries of the file picker for a directory whose parent is
/// `parent` (none at the root) and whose listing is `items`: `..` first
/// when there is a parent, then the directories, then the offered files,
/// each group sorted by lower-case name; hidden entries are left out.
pub fn arrange_entries(parent: Option<String>, items: &Vec<DirItem>) -> (r: Vec<FileEntry>)
    ensures
        ({
            let k: int = if parent is Some { 1 } else { 0 };
            &&& r@.len() == k + listed(items@, true).len() + listed(items@, false).len()
            &&& r@.skip(k) == sort_by_key(listed(items@, true)) + sort_by_key(listed(items@, false))
            &&& parent matches Some(p) ==> r@[0].name@ == ".."@ && r@[0].is_dir && r@[0].path == p
        }),
{
    let mut dirs: Vec<FileEntry> = Vec::new();
    let mut files: Vec<FileEntry> = Vec::new();
    let n = items.len();
    assert(items@.take(0) =~= Seq::<DirItem>::empty());
    for i in 0..n
        invariant
            n == items@.len(),
            dirs@ == listed(items@.take(i as int), true),
            files@ == listed(items@.take(i as int), false),
    {
        let item = &items[i];
        assert(items@.take(i + 1).drop_last() =~= items@.take(i as int));
        assert(items@.take(i + 1).last() == *item);
        let name = chars_of(item.name.as_str());
        let hidden = name.len() > 0 && name[0] == '.';
        if !hidden {
            if item.is_dir {
                dirs.push(FileEntry { name: item.name.clone(), is_dir: true, path: item.path.clone() });
            } else if offers_file(item) {
                files.push(FileEntry { name: item.name.clone(), is_dir: false, path: item.path.clone() });
            }
        }
    }
    assert(items@.take(n as int) =~= items@);
    let sorted_dirs = sort_entries(&dirs);
    let sorted_files = sort_entries(&files);
    proof {
        lemma_sort_len(dirs@);
        lemma_sort_len(files@);
    }
    let mut out: Vec<FileEntry> = Vec::new();
    let ghost k: int = if parent is Some { 1 } else { 0 };
    match parent {
        Some(p) => {
            out.push(FileEntry { name: string_of(chars_of("..").as_slice()), is_dir: true, path: p });
        },
        None => {},
    }
    let ghost head = out@;
    let mut a = sorted_dirs;
    let mut b = sorted_files;
    out.append(&mut a);
    out.append(&mut b);
    assert(out@.skip(k) =~= sort_by_key(dirs@) + sort_by_key(files@));
    out
}

proof fn lemma_insert_len(s: Seq<FileEntry>, e: FileEntry)
    ensures
        insert_by_key(s, e).len() == s.len() + 1,
    decreases s.len(),
{
    if s.len() > 0 {
        lemma_insert_len(s.drop_last(), e);
    }
}

proof fn lemma_sort_len(s: Seq<FileEntry>)
    ensures
        sort_by_key(s).len() == s.len(),
    decreases s.len(),
{
    if s.len() > 0 {
        lemma_sort_len(s.drop_last());
        lemma_insert_len(sort_by_key(s.drop_last()), s.last());
    }
}

/// What kind of tree inline edit is in progress.
#[derive(Debug, Clone, PartialEq, Eq)]
pub enum TreeEditKind {
    /// Adding a key to an object: the key name is typed first.
    AddKey,
    /// Adding a value under `key` (empty when adding to an array).
    AddValue { key: String },
    /// Renaming an object key.
    RenameKey,
    /// Editing a leaf value; the type name and the old value are shown.
    EditValue { node_type: String, original: String },
}

/// What to do when a confirmation prompt is answered yes.
#[derive(Debug, Clone, PartialEq, Eq)]
pub enum ConfirmAction {
    /// Delete the selected tree node.
    DeleteNode,
    /// Quit although there are unsaved changes.
    QuitUnsaved,
    /// Save to the given path.
    SaveAs { path: String },
    /// Discard unsaved changes and open the given file.
    DiscardAndOpen { path: String },
}

/// Which pane has keyboard focus.
#[derive(Debug, Clone, Copy, PartialEq, Eq, Structural)]
pub enum Focus {
    RawPane,
    TreePane,
}

impl Default for Focus {
    fn default() -> (r: Focus)
        ensures
            r == Focus::RawPane,
    {
        Focus::RawPane
    }
}

// ── application state ────────────────────────────────────────────────────────

/// Largest row index and row count the viewport arithmetic works with.
/// Sums of a row index, a scroll offset and a pane height (a `u16`) must
/// fit in `usize` on 32-bit targets too; 2^30 - 1 leaves that headroom,
/// and no document the editor can hold in memory comes near it.
pub const ROW_CAP: usize = 0x3fff_ffff;

/// The editor's state.  Times are milliseconds of a monotonic clock that
/// the caller reads.
#[derive(Debug)]
pub struct AppState {
    /// Path of the open file, if any.
    pub file_path: Option<String>,
    /// Whether the buffer differs from the file's content.
    pub modified: bool,
    /// Format of the open file.
    pub format: FileFormat,
    /// Mirror of the raw pane's text.
    pub raw_text: String,
    /// Undo/redo history of the raw text.
    pub undo_stack: UndoStack,
    /// The tree of the last successful parse.
    pub tree: Option<JsonTree>,
    /// Index of the selected tree row.
    pub tree_selected: usize,
    /// First tree row shown.
    pub tree_scroll: usize,
    /// Search / filter query; empty means no filter.
    pub search_query: String,
    /// Most recent parse error (or other status message).
    pub parse_error: Option<String>,
    /// Current interaction mode.
    pub mode: Mode,
    /// Which pane has focus.
    pub focus: Focus,
    /// Height of the tree pane in rows (set by the render pass).
    pub tree_pane_height: u16,
    /// Height of the file picker's list (set by the render pass).
    pub picker_height: u16,
    /// Column where the file picker's list starts.
    pub picker_x: u16,
    /// Row where the file picker's list starts.
    pub picker_y: u16,
    /// Width of the file picker's list.
    pub picker_w: u16,
    /// Column where the tree pane starts.
    pub tree_x_start: u16,
    /// Column where the scrollbar strip starts.
    pub scrollbar_x_start: u16,
    /// The raw text changed and has not been reparsed yet.
    pub parse_dirty: bool,
    /// Time of the most recent raw-text edit.
    pub last_edit: Option<u64>,
    /// Cell and time of the most recent left click.
    pub last_click: Option<(u16, u16, u64)>,
}

impl AppState {
    /// Number of visible tree rows (0 without a tree).
    pub open spec fn row_count(&self) -> nat {
        match self.tree {
            Some(t) => t.rows().len(),
            None => 0,
        }
    }

    /// Index of the last visible row (0 without rows).
    pub open spec fn last_row(&self) -> nat {
        if self.row_count() > 0 {
            (self.row_count() - 1) as nat
        } else {
            0
        }
    }

    /// The state's parts are consistent: the history holds at most
    /// `UNDO_LIMIT` snapshots and the tree's collapse set is a set.
    pub open spec fn wf(&self) -> bool {
        &&& self.undo_stack.wf()
        &&& (self.tree matches Some(t) ==> t.wf())
    }

    /// Cursor, viewport and row count are within `ROW_CAP`.
    pub open spec fn in_bounds(&self) -> bool {
        &&& self.tree_selected <= ROW_CAP
        &&& self.tree_scroll <= ROW_CAP
        &&& self.row_count() <= ROW_CAP
        &&& (self.mode matches Mode::FilePicker { entries, selected, scroll, .. } ==> entries@.len()
            <= ROW_CAP && selected <= ROW_CAP && scroll <= ROW_CAP)
    }

    /// Whether cursor, viewport and row count are within `ROW_CAP`.
    pub fn check_bounds(&self) -> (r: bool)
        ensures
            r == self.in_bounds(),
    {
        let count = match &self.tree {
            Some(t) => t.visible_node_count(),
            None => 0,
        };
        let picker_ok = match &self.mode {
            Mode::FilePicker { entries, selected, scroll, .. } => entries.len() <= ROW_CAP
                && *selected <= ROW_CAP && *scroll <= ROW_CAP,
            _ => true,
        };
        self.tree_selected <= ROW_CAP && self.tree_scroll <= ROW_CAP && count <= ROW_CAP && picker_ok
    }

    /// A fresh state for the file at `file_path` (format from its
    /// extension, JSON without one) holding `initial_text`.
    pub fn new(file_path: Option<String>, initial_text: String) -> (r: AppState)
        ensures
            r.wf(),
            r.in_bounds(),
            r.file_path == file_path,
            r.format == (match file_path {
                Some(p) => crate::format::format_of_path(p@),
                None => FileFormat::Json,
            }),
            r.raw_text == initial_text,
            !r.modified,
            r.undo_stack.history() == (History { past: Seq::empty(), future: Seq::empty() }),
            r.tree is None,
            r.tree_selected == 0,
            r.tree_scroll == 0,
            r.search_query@ == Seq::<char>::empty(),
            r.parse_error is None,
            r.mode is Normal,
            r.focus == Focus::RawPane,
            r.tree_pane_height == 0 && r.picker_height == 0 && r.picker_x == 0 && r.picker_y == 0
                && r.picker_w == 0 && r.tree_x_start == 0 && r.scrollbar_x_start == 0,
            !r.parse_dirty,
            r.last_edit is None,
            r.last_click is None,
    {
        let format = match &file_path {
            Some(p) => FileFormat::from_path(p.as_str()),
            None => FileFormat::default(),
        };
        AppState {
            file_path,
            modified: false,
            format,
            raw_text: initial_text,
            undo_stack: UndoStack::default(),
            tree: None,
            tree_selected: 0,
            tree_scroll: 0,
            search_query: String::new(),
            parse_error: None,
            mode: Mode::default(),
            focus: Focus::default(),
            tree_pane_height: 0,
            picker_height: 0,
            picker_x: 0,
            picker_y: 0,
            picker_w: 0,
            tree_x_start: 0,
            scrollbar_x_start: 0,
            parse_dirty: false,
            last_edit: None,
            last_click: None,
        }
    }

    /// Whether the search bar is open.
    pub fn is_searching(&self) -> (r: bool)
        ensures
            r == (self.mode is Search),
    {
        matches!(self.mode, Mode::Search)
    }

    /// Switch focus between the two panes.
    pub fn toggle_focus(&mut self)
        ensures
            *final(self) == (AppState {
                focus: match old(self).focus {
                    Focus::RawPane => Focus::TreePane,
                    Focus::TreePane => Focus::RawPane,
                },
                ..*old(self)
            }),
    {
        self.focus = match self.focus {
            Focus::RawPane => Focus::TreePane,
            Focus::TreePane => Focus::RawPane,
        };
    }

    /// Index of the last visible row.
    pub fn last_row_index(&self) -> (r: usize)
        ensures
            r == self.last_row(),
    {
        match &self.tree {
            Some(t) => t.visible_node_count().saturating_sub(1),
            None => 0,
        }
    }

    /// Clamp the selection to the last visible row.
    pub fn clamp_tree_selection(&mut self)
        ensures
            *final(self) == (AppState {
                tree_selected: if old(self).tree_selected <= old(self).last_row() {
                    old(self).tree_selected
                } else {
                    old(self).last_row() as usize
                },
                ..*old(self)
            }),
    {
        let max = self.last_row_index();
        self.tree_selected = if self.tree_selected <= max {
            self.tree_selected
        } else {
            max
        };
    }

    /// Move the selection down by `n` rows (not past the last row) and
    /// scroll it into view.
    pub fn tree_down(&mut self, n: usize)
        requires
            old(self).tree_selected + n <= usize::MAX,
            old(self).tree_scroll + old(self).tree_pane_height <= usize::MAX,
        ensures
            ({
                let sel = if old(self).tree_selected + n <= old(self).last_row() {
                    (old(self).tree_selected + n) as usize
                } else {
                    old(self).last_row() as usize
                };
                *final(self) == (AppState {
                    tree_selected: sel,
                    tree_scroll: scroll_for(sel, old(self).tree_scroll, old(self).tree_pane_height as nat),
                    ..*old(self)
                })
            }),
    {
        let max = self.last_row_index();
        let sel = self.tree_selected + n;
        self.tree_selected = if sel <= max {
            sel
        } else {
            max
        };
        self.ensure_visible();
    }

    /// Move the selection up by `n` rows (not past the first row) and
    /// scroll it into view.
    pub fn tree_up(&mut self, n: usize)
        requires
            old(self).tree_scroll + old(self).tree_pane_height <= usize::MAX,
        ensures
            ({
                let sel = if old(self).tree_selected >= n {
                    (old(self).tree_selected - n) as usize
                } else {
                    0
                };
                *final(self) == (AppState {
                    tree_selected: sel,
                    tree_scroll: scroll_for(sel, old(self).tree_scroll, old(self).tree_pane_height as nat),
                    ..*old(self)
                })
            }),
    {
        self.tree_selected = self.tree_selected.saturating_sub(n);
        self.ensure_visible();
    }

    /// Scroll the tree so the selected row is inside the viewport.
    pub fn ensure_visible(&mut self)
        requires
            old(self).tree_scroll + old(self).tree_pane_height <= usize::MAX,
        ensures
            *final(self) == (AppState {
                tree_scroll: scroll_for(
                    old(self).tree_selected,
                    old(self).tree_scroll,
                    old(self).tree_pane_height as nat,
                ),
                ..*old(self)
            }),
    {
        let h = self.tree_pane_height as usize;
        if h == 0 {
            return;
        }
        if self.tree_selected < self.tree_scroll {
            self.tree_scroll = self.tree_selected;
        } else if self.tree_selected >= self.tree_scroll + h {
            self.tree_scroll = self.tree_selected - h + 1;
        }
    }

    /// The snapshot of the current raw text.
    pub open spec fn current_snapshot(&self) -> SnapV {
        SnapV { text: self.raw_text@, cursor_row: 0, cursor_col: 0 }
    }

    /// Record the current raw text as an undo snapshot (call before a
    /// change so the state before it can be restored).
    pub fn push_undo(&mut self)
        ensures
            final(self).undo_stack.history() == history_push(
                old(self).undo_stack.history(),
                old(self).current_snapshot(),
            ),
            *final(self) == (AppState { undo_stack: final(self).undo_stack, ..*old(self) }),
    {
        let snap = Snapshot { text: copy_text(&self.raw_text), cursor_row: 0, cursor_col: 0 };
        self.undo_stack.push(snap);
    }

    /// Undo: the raw text goes back to the most recent past snapshot, which
    /// is returned; the buffer is marked modified.  With no past, nothing
    /// changes.
    pub fn apply_undo(&mut self) -> (r: Option<Snapshot>)
        ensures
            final(self).undo_stack.history() == history_undo(
                old(self).undo_stack.history(),
                old(self).current_snapshot(),
            ).0,
            match history_undo(old(self).undo_stack.history(), old(self).current_snapshot()).1 {
                Some(p) => r matches Some(s) && s@ == p && final(self).raw_text@ == p.text
                    && *final(self) == (AppState {
                    undo_stack: final(self).undo_stack,
                    raw_text: final(self).raw_text,
                    modified: true,
                    ..*old(self)
                }),
                None => r is None && *final(self) == (AppState {
                    undo_stack: final(self).undo_stack,
                    ..*old(self)
                }),
            },
    {
        let current = Snapshot { text: copy_text(&self.raw_text), cursor_row: 0, cursor_col: 0 };
        let prev = self.undo_stack.undo(current);
        match prev {
            Some(p) => {
                self.raw_text = copy_text(&p.text);
                self.modified = true;
                Some(p)
            },
            None => None,
        }
    }

    /// Redo: the raw text goes forward to the most recent future snapshot,
    /// which is returned; the buffer is marked modified.  With no future,
    /// nothing changes.
    pub fn apply_redo(&mut self) -> (r: Option<Snapshot>)
        ensures
            final(self).undo_stack.history() == history_redo(
                old(self).undo_stack.history(),
                old(self).current_snapshot(),
            ).0,
            match history_redo(old(self).undo_stack.history(), old(self).current_snapshot()).1 {
                Some(p) => r matches Some(s) && s@ == p && final(self).raw_text@ == p.text
                    && *final(self) == (AppState {
                    undo_stack: final(self).undo_stack,
                    raw_text: final(self).raw_text,
                    modified: true,
                    ..*old(self)
                }),
                None => r is None && *final(self) == (AppState {
                    undo_stack: final(self).undo_stack,
                    ..*old(self)
                }),
            },
    {
        let current = Snapshot { text: copy_text(&self.raw_text), cursor_row: 0, cursor_col: 0 };
        let next = self.undo_stack.redo(current);
        match next {
            Some(p) => {
                self.raw_text = copy_text(&p.text);
                self.modified = true;
                Some(p)
            },
            None => None,
        }
    }
}

/// The scroll offset that brings row `sel` into a viewport of `h` rows
/// starting at `scroll`: unchanged when `h` is 0 or the row is visible,
/// otherwise the row becomes the first (above) or last (below) one shown.
pub open spec fn scroll_for(sel: usize, scroll: usize, h: nat) -> usize {
    if h == 0 {
        scroll
    } else if sel < scroll {
        sel
    } else if sel >= scroll + h {
        (sel - h + 1) as usize
    } else {
        scroll
    }
}

/// A copy of `s`.
fn copy_text(s: &String) -> (r: String)
    ensures
        r@ == s@,
{
    s.clone()
}

} // verus!
