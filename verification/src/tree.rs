//! The tree pane's model: the document value, the set of collapsed paths,
//! the current search filter, and the flat list of visible rows derived
//! from them.
//!
//! The flat list is always what `rebuild_spec` computes from the root, the
//! collapsed set and the search query (row line numbers aside, which
//! `sync_line_numbers` fills in afterwards).
use vstd::prelude::*;
use crate::text::{lemma_last_index_of, last_index_of, chars_eq, chars_of, contains_chars, contains_seq, decimal, is_index_text, parse_usize, push_all, push_str, string_of, to_lowercase, lowercase_spec, is_ascii_text, usize_to_chars, first_index_of, lemma_first_index_of};
use crate::value::{vv, set_value, delete_value, add_key_value, rename_key, set_value_spec, delete_value_spec, add_key_spec, rename_spec, JVal, JsonValue, lemma_array_view, lemma_decreases_item, lemma_decreases_member, lemma_object_view, path_parts, split_path_chars, split_path_spec};

pub use crate::value::split_path;

verus! {

// ── node kind ────────────────────────────────────────────────────────────────

/// The kind of a JSON value, used for display and editing.
#[derive(Debug, Clone, Copy, PartialEq, Eq, Structural)]
pub enum NodeKind {
    Object { child_count: usize },
    Array { child_count: usize },
    String,
    Number,
    Bool,
    Null,
}

impl NodeKind {
    /// Whether the kind is an object or an array.
    pub open spec fn spec_is_container(&self) -> bool {
        self is Object || self is Array
    }

    /// Whether the kind is an object or an array.
    #[verifier::when_used_as_spec(spec_is_container)]
    pub fn is_container(&self) -> (r: bool)
        ensures
            r == self.spec_is_container(),
    {
        match self {
            NodeKind::Object { .. } | NodeKind::Array { .. } => true,
            _ => false,
        }
    }

    /// The short type label shown for this kind.
    pub open spec fn label_spec(&self) -> Seq<char> {
        match self {
            NodeKind::Object { .. } => "object"@,
            NodeKind::Array { .. } => "array"@,
            NodeKind::String => "string"@,
            NodeKind::Number => "number"@,
            NodeKind::Bool => "bool"@,
            NodeKind::Null => "null"@,
        }
    }

    /// Short type label shown in the tree.
    pub fn label(&self) -> (r: &'static str)
        ensures
            r@ == self.label_spec(),
    {
        match self {
            NodeKind::Object { .. } => "object",
            NodeKind::Array { .. } => "array",
            NodeKind::String => "string",
            NodeKind::Number => "number",
            NodeKind::Bool => "bool",
            NodeKind::Null => "null",
        }
    }
}

/// The kind of a value.
pub open spec fn kind_of(v: JVal) -> NodeKind {
    match v {
        JVal::Object(es) => NodeKind::Object { child_count: es.len() as usize },
        JVal::Array(a) => NodeKind::Array { child_count: a.len() as usize },
        JVal::Str(_) => NodeKind::String,
        JVal::Number(_) => NodeKind::Number,
        JVal::Bool(_) => NodeKind::Bool,
        JVal::Null => NodeKind::Null,
    }
}

/// The kind of `value`.
pub fn value_kind(value: &JsonValue) -> (r: NodeKind)
    ensures
        r == kind_of(value@),
{
    match value {
        JsonValue::Object(m) => {
            proof {
                lemma_object_view(*value);
            }
            NodeKind::Object { child_count: m.len() }
        },
        JsonValue::Array(a) => {
            proof {
                lemma_array_view(*value);
            }
            NodeKind::Array { child_count: a.len() }
        },
        JsonValue::String(_) => NodeKind::String,
        JsonValue::Number(_) => NodeKind::Number,
        JsonValue::Bool(_) => NodeKind::Bool,
        JsonValue::Null => NodeKind::Null,
    }
}

// ── tree rows ────────────────────────────────────────────────────────────────

/// A single flattened node in the tree display list.
#[derive(Debug)]
pub struct FlatNode {
    /// Display depth (root = 0).
    pub depth: usize,
    /// Key string for object children; array index as string for array
    /// children; empty for root.
    pub key: String,
    /// The value at this node for scalars; `Null` for containers.
    pub value: JsonValue,
    /// Pre-computed kind.
    pub kind: NodeKind,
    /// Dot-notation path from root, e.g. `"users[0].name"`.
    pub path: String,
    /// Whether this node is currently collapsed.
    pub collapsed: bool,
    /// Whether this node matches the current search query.
    pub search_match: bool,
    /// Line number in the raw text (0-based) corresponding to this node.
    pub line_number: Option<usize>,
}

/// The view of a row.
pub struct NodeV {
    pub depth: int,
    pub key: Seq<char>,
    pub value: JVal,
    pub kind: NodeKind,
    pub path: Seq<char>,
    pub collapsed: bool,
    pub search_match: bool,
    pub line_number: Option<usize>,
}

impl View for FlatNode {
    type V = NodeV;

    open spec fn view(&self) -> NodeV {
        NodeV {
            depth: self.depth as int,
            key: self.key@,
            value: self.value@,
            kind: self.kind,
            path: self.path@,
            collapsed: self.collapsed,
            search_match: self.search_match,
            line_number: self.line_number,
        }
    }
}

/// The views of a list of rows.
pub open spec fn rows_view(s: Seq<FlatNode>) -> Seq<NodeV> {
    s.map_values(|n: FlatNode| n@)
}

// ── display text ─────────────────────────────────────────────────────────────

/// Number of bytes in the UTF-8 encoding of `c`.
pub open spec fn utf8_width(c: char) -> nat {
    if (c as u32) < 0x80 {
        1
    } else if (c as u32) < 0x800 {
        2
    } else if (c as u32) < 0x10000 {
        3
    } else {
        4
    }
}

/// Number of bytes in the UTF-8 encoding of `s` (`str::len`).
pub open spec fn utf8_len(s: Seq<char>) -> nat
    decreases s.len(),
{
    if s.len() == 0 {
        0
    } else {
        utf8_width(s[0]) + utf8_len(s.drop_first())
    }
}

/// The number of leading characters of `s` whose encoding fits in
/// `budget` bytes (the longest such prefix).
pub open spec fn fit_count(s: Seq<char>, budget: int) -> nat
    decreases s.len(),
{
    if s.len() == 0 || utf8_width(s[0]) > budget {
        0
    } else {
        1 + fit_count(s.drop_first(), budget - utf8_width(s[0]))
    }
}

/// `s` if it is at most `max` bytes long, else its longest prefix of at
/// most `max` bytes that ends at a character boundary.
pub open spec fn truncate_spec(s: Seq<char>, max: int) -> Seq<char> {
    if utf8_len(s) <= max {
        s
    } else {
        s.take(fit_count(s, max) as int)
    }
}

/// Longest prefix of a display string, in bytes.
pub const DISPLAY_MAX: usize = 60;

fn char_width(c: char) -> (r: usize)
    ensures
        r == utf8_width(c),
{
    if (c as u32) < 0x80 {
        1
    } else if (c as u32) < 0x800 {
        2
    } else if (c as u32) < 0x10000 {
        3
    } else {
        4
    }
}

proof fn lemma_utf8_len_take(s: Seq<char>, k: int)
    requires
        0 <= k < s.len(),
    ensures
        utf8_len(s.take(k + 1)) == utf8_len(s.take(k)) + utf8_width(s[k]),
    decreases k,
{
    assert(s.take(k + 1)[0] == s[0]);
    if k > 0 {
        lemma_utf8_len_take(s.drop_first(), k - 1);
        assert(s.take(k + 1).drop_first() == s.drop_first().take(k));
        assert(s.take(k).drop_first() == s.drop_first().take(k - 1));
        assert(s.take(k)[0] == s[0]);
        assert(s.drop_first()[k - 1] == s[k]);
        assert(utf8_len(s.take(k + 1)) == utf8_width(s[0]) + utf8_len(s.drop_first().take(k)));
        assert(utf8_len(s.take(k)) == utf8_width(s[0]) + utf8_len(s.drop_first().take(k - 1)));
    } else {
        let e = s.take(1).drop_first();
        assert(e.len() == 0);
        assert(utf8_len(e) == 0);
        assert(utf8_len(s.take(1)) == utf8_width(s[0]) + utf8_len(e));
        assert(s.take(0).len() == 0);
    }
}

proof fn lemma_fit_count(s: Seq<char>, budget: int, k: int)
    requires
        0 <= k <= s.len(),
        utf8_len(s.take(k)) <= budget,
        k == s.len() || utf8_len(s.take(k)) + utf8_width(s[k]) > budget,
    ensures
        fit_count(s, budget) == k,
    decreases k,
{
    if k == 0 {
        assert(s.take(0).len() == 0);
    } else {
        assert(s.take(k).drop_first() == s.drop_first().take(k - 1));
        assert(s.take(k)[0] == s[0]);
        if k < s.len() {
            assert(s.drop_first()[k - 1] == s[k]);
        }
        assert(utf8_len(s.take(k)) == utf8_width(s[0]) + utf8_len(s.drop_first().take(k - 1)));
        lemma_fit_count(s.drop_first(), budget - utf8_width(s[0]), k - 1);
    }
}

/// `s` if it is at most `max` bytes long, else its longest prefix of at
/// most `max` bytes that ends at a character boundary.
pub fn truncate(s: &str, max: usize) -> (r: String)
    ensures
        r@ == truncate_spec(s@, max as int),
        utf8_len(r@) <= max,
        r@.is_prefix_of(s@),
        r@.len() < s@.len() ==> utf8_len(r@) + utf8_width(s@[r@.len() as int]) > max,
{
    let cs = chars_of(s);
    let t = truncate_chars(&cs, max);
    let r = string_of(t.as_slice());
    assert(r@ == t@);
    r
}

/// `s` cut to at most `max` bytes at a character boundary, as the tree's
/// value display does.
pub fn truncate_chars(s: &Vec<char>, max: usize) -> (r: Vec<char>)
    ensures
        r@ == truncate_spec(s@, max as int),
        utf8_len(r@) <= max,
        r@.is_prefix_of(s@),
        r@.len() < s@.len() ==> utf8_len(r@) + utf8_width(s@[r@.len() as int]) > max,
{
    let n = s.len();
    let mut used: usize = 0;
    let mut k: usize = 0;
    while k < n && char_width(s[k]) <= max - used
        invariant
            k <= n,
            n == s@.len(),
            used == utf8_len(s@.take(k as int)),
            used <= max,
        decreases n - k,
    {
        let w = char_width(s[k]);
        proof {
            lemma_utf8_len_take(s@, k as int);
        }
        used = used + w;
        k = k + 1;
    }
    if k == n {
        assert(s@.take(n as int) == s@);
        let mut out = Vec::new();
        push_all(&mut out, s);
        assert(out@ =~= s@.subrange(0, n as int));
        return out;
    }
    proof {
        lemma_utf8_len_take(s@, k as int);
        lemma_utf8_len_prefix_le(s@, k + 1);
        lemma_fit_count(s@, max as int, k as int);
    }
    let mut out = Vec::new();
    let mut i: usize = 0;
    while i < k
        invariant
            i <= k,
            k < n,
            n == s@.len(),
            out@ == s@.take(i as int),
        decreases k - i,
    {
        out.push(s[i]);
        assert(s@.take(i + 1) == s@.take(i as int).push(s@[i as int]));
        i = i + 1;
    }
    assert(out@ =~= s@.subrange(0, k as int));
    out
}

/// Number of bytes in the UTF-8 encoding of `s`.
pub fn utf8_length(s: &Vec<char>) -> (r: u128)
    ensures
        r == utf8_len(s@),
{
    let n = s.len();
    let mut total: u128 = 0;
    let mut k: usize = 0;
    while k < n
        invariant
            k <= n,
            n == s@.len(),
            total == utf8_len(s@.take(k as int)),
            total <= 4 * k,
        decreases n - k,
    {
        proof {
            lemma_utf8_len_take(s@, k as int);
        }
        total = total + char_width(s[k]) as u128;
        k = k + 1;
    }
    assert(s@.take(n as int) == s@);
    total
}

proof fn lemma_utf8_len_prefix_le(s: Seq<char>, k: int)
    requires
        0 <= k <= s.len(),
    ensures
        utf8_len(s.take(k)) <= utf8_len(s),
    decreases s.len(),
{
    if k == 0 {
        assert(s.take(0).len() == 0);
    } else {
        lemma_utf8_len_prefix_le(s.drop_first(), k - 1);
        assert(s.take(k).drop_first() == s.drop_first().take(k - 1));
    }
}

/// The inline text shown for a row: `{n}` / `[n]` for containers, the
/// quoted (byte-truncated) string, or the scalar's JSON text.
pub open spec fn display_spec(n: NodeV) -> Seq<char> {
    match n.kind {
        NodeKind::Object { child_count } => seq!['{'] + decimal(child_count as nat) + seq!['}'],
        NodeKind::Array { child_count } => seq!['['] + decimal(child_count as nat) + seq![']'],
        _ => match n.value {
            JVal::Str(s) => seq!['"'] + truncate_spec(s, DISPLAY_MAX as int) + seq!['"'],
            JVal::Number(t) => t,
            JVal::Bool(b) => if b {
                "true"@
            } else {
                "false"@
            },
            JVal::Null => "null"@,
            _ => Seq::empty(),
        },
    }
}

impl FlatNode {
    /// A copy of this row.
    pub fn duplicate(&self) -> (r: FlatNode)
        ensures
            r@ == self@,
    {
        copy_row(self, self.search_match)
    }

    /// The display text as characters.
    pub fn display_chars(&self) -> (r: Vec<char>)
        ensures
            r@ == display_spec(self@),
    {
        let mut out: Vec<char> = Vec::new();
        match &self.kind {
            NodeKind::Object { child_count } => {
                out.push('{');
                let d = usize_to_chars(*child_count);
                push_all(&mut out, &d);
                out.push('}');
            },
            NodeKind::Array { child_count } => {
                out.push('[');
                let d = usize_to_chars(*child_count);
                push_all(&mut out, &d);
                out.push(']');
            },
            _ => match &self.value {
                JsonValue::String(s) => {
                    let t = truncate(s.as_str(), DISPLAY_MAX);
                    out.push('"');
                    push_str(&mut out, t.as_str());
                    out.push('"');
                },
                JsonValue::Number(t) => {
                    push_str(&mut out, t.as_str());
                },
                JsonValue::Bool(b) => {
                    if *b {
                        push_str(&mut out, "true");
                    } else {
                        push_str(&mut out, "false");
                    }
                },
                JsonValue::Null => {
                    push_str(&mut out, "null");
                },
                _ => {},
            },
        }
        assert(out@ =~= display_spec(self@));
        out
    }

    /// Short inline value string shown next to the key (`{3}`, `[2]`,
    /// `"text"`, `42`, `true`, `null`).  A string is cut to at most 60
    /// bytes, at a character boundary.
    pub fn value_display(&self) -> (r: String)
        ensures
            r@ == display_spec(self@),
    {
        let cs = self.display_chars();
        string_of(cs.as_slice())
    }
}


// ── sets of paths ────────────────────────────────────────────────────────────

/// A set of node paths (the collapsed nodes).  No path is held twice.
#[derive(Debug)]
pub struct PathSet {
    items: Vec<String>,
}

impl View for PathSet {
    type V = Set<Seq<char>>;

    closed spec fn view(&self) -> Set<Seq<char>> {
        Set::new(|p: Seq<char>| exists|i: int| 0 <= i < self.items@.len() && self.items@[i]@ == p)
    }
}

impl PathSet {
    /// No path occurs twice.
    pub closed spec fn wf(&self) -> bool {
        forall|i: int, j: int|
            0 <= i < self.items@.len() && 0 <= j < self.items@.len() && i != j
                ==> self.items@[i]@ != self.items@[j]@
    }

    /// The empty set.
    pub fn new() -> (r: PathSet)
        ensures
            r.wf(),
            r@ == Set::<Seq<char>>::empty(),
    {
        let r = PathSet { items: Vec::new() };
        assert(r@ =~= Set::<Seq<char>>::empty());
        r
    }

    /// Number of paths held.
    pub fn len(&self) -> (r: usize)
        requires
            self.wf(),
        ensures
            r == self@.len(),
    {
        proof {
            self.lemma_len();
        }
        self.items.len()
    }

    proof fn lemma_len(&self)
        requires
            self.wf(),
        ensures
            self@.finite(),
            self@.len() == self.items@.len(),
        decreases self.items@.len(),
    {
        let s = self.items@.map_values(|x: String| x@);
        assert forall|p: Seq<char>| self@.contains(p) <==> s.contains(p) by {
            if self@.contains(p) {
                let i = choose|i: int| 0 <= i < self.items@.len() && self.items@[i]@ == p;
                assert(s[i] == p);
            }
            if s.contains(p) {
                let i = choose|i: int| 0 <= i < s.len() && s[i] == p;
                assert(self.items@[i]@ == p);
            }
        }
        assert(self@ =~= s.to_set());
        assert forall|i: int, j: int| 0 <= i < s.len() && 0 <= j < s.len() && i != j implies s[i]
            != s[j] by {}
        s.unique_seq_to_set();
    }

    /// Position of `p` in the backing list.
    fn position(&self, p: &Vec<char>) -> (r: Option<usize>)
        ensures
            match r {
                Some(i) => i < self.items@.len() && self.items@[i as int]@ == p@,
                None => !self@.contains(p@),
            },
    {
        let n = self.items.len();
        for i in 0..n
            invariant
                n == self.items@.len(),
                forall|j: int| 0 <= j < i ==> self.items@[j]@ != p@,
        {
            let c = chars_of(self.items[i].as_str());
            if chars_eq(&c, p) {
                return Some(i);
            }
        }
        None
    }

    /// Whether `p` is in the set.
    pub fn contains(&self, p: &Vec<char>) -> (r: bool)
        ensures
            r == self@.contains(p@),
    {
        self.position(p).is_some()
    }

    /// Whether the path `p` is in the set.
    pub fn contains_str(&self, p: &str) -> (r: bool)
        ensures
            r == self@.contains(p@),
    {
        let c = chars_of(p);
        self.contains(&c)
    }

    /// Add `p`.
    pub fn insert(&mut self, p: String)
        requires
            old(self).wf(),
        ensures
            final(self).wf(),
            final(self)@ == old(self)@.insert(p@),
    {
        let c = chars_of(p.as_str());
        if self.position(&c).is_some() {
            assert(self@ =~= old(self)@.insert(p@));
            return;
        }
        let ghost pv = p@;
        self.items.push(p);
        assert(self@ =~= old(self)@.insert(pv)) by {
            assert forall|q: Seq<char>| self@.contains(q) implies old(self)@.insert(pv).contains(q) by {
                let i = choose|i: int| 0 <= i < self.items@.len() && self.items@[i]@ == q;
                if i < old(self).items@.len() {
                    assert(old(self).items@[i] == self.items@[i]);
                }
            }
            assert forall|q: Seq<char>| old(self)@.insert(pv).contains(q) implies self@.contains(q) by {
                if q == pv {
                    assert(self.items@[old(self).items@.len() as int]@ == q);
                } else {
                    let i = choose|i: int| 0 <= i < old(self).items@.len() && old(self).items@[i]@ == q;
                    assert(self.items@[i] == old(self).items@[i]);
                }
            }
        }
    }

    /// Remove `p` (nothing happens when it is absent).
    pub fn remove(&mut self, p: &Vec<char>)
        requires
            old(self).wf(),
        ensures
            final(self).wf(),
            final(self)@ == old(self)@.remove(p@),
    {
        match self.position(p) {
            None => {
                assert(self@ =~= old(self)@.remove(p@));
            },
            Some(i) => {
                self.items.remove(i);
                assert(self@ =~= old(self)@.remove(p@)) by {
                    let o = old(self).items@;
                    assert forall|q: Seq<char>| self@.contains(q) implies old(self)@.remove(p@).contains(q) by {
                        let k = choose|k: int| 0 <= k < self.items@.len() && self.items@[k]@ == q;
                        if k < i {
                            assert(self.items@[k] == o[k]);
                        } else {
                            assert(self.items@[k] == o[k + 1]);
                        }
                    }
                    assert forall|q: Seq<char>| old(self)@.remove(p@).contains(q) implies self@.contains(q) by {
                        let k = choose|k: int| 0 <= k < o.len() && o[k]@ == q;
                        if k < i {
                            assert(self.items@[k] == o[k]);
                        } else {
                            assert(k != i);
                            assert(self.items@[k - 1] == o[k]);
                        }
                    }
                }
            },
        }
    }

    /// Remove the path `p`.
    pub fn remove_str(&mut self, p: &str)
        requires
            old(self).wf(),
        ensures
            final(self).wf(),
            final(self)@ == old(self)@.remove(p@),
    {
        let c = chars_of(p);
        self.remove(&c);
    }

    /// A copy of this set.
    pub fn duplicate(&self) -> (r: PathSet)
        requires
            self.wf(),
        ensures
            r.wf(),
            r@ == self@,
    {
        let r = PathSet { items: self.items.clone() };
        assert forall|i: int| 0 <= i < r.items@.len() implies r.items@[i]@ == self.items@[i]@ by {
            assert(cloned::<String>(self.items@[i], r.items@[i]));
        }
        assert(r@ =~= self@);
        r
    }

    /// The set holding each of `paths` (repeats are held once).
    pub fn from_paths(paths: Vec<String>) -> (r: PathSet)
        ensures
            r.wf(),
            forall|p: Seq<char>|
                r@.contains(p) <==> exists|i: int| 0 <= i < paths@.len() && paths@[i]@ == p,
    {
        let mut set = PathSet::new();
        let mut rest = paths;
        let ghost all = rest@;
        let mut taken: Vec<String> = Vec::new();
        while rest.len() > 0
            invariant
                set.wf(),
                all == taken@ + rest@,
                forall|p: Seq<char>|
                    set@.contains(p) <==> exists|i: int| 0 <= i < taken@.len() && taken@[i]@ == p,
            decreases rest@.len(),
        {
            let p = rest.remove(0);
            let ghost pv = p@;
            let c = p.clone();
            let ghost before = taken@;
            set.insert(p);
            taken.push(c);
            assert forall|q: Seq<char>|
                set@.contains(q) <==> exists|i: int| 0 <= i < taken@.len() && taken@[i]@ == q by {
                if set@.contains(q) && q != pv {
                    let i = choose|i: int| 0 <= i < before.len() && before[i]@ == q;
                    assert(taken@[i] == before[i]);
                }
                if q == pv {
                    assert(taken@[before.len() as int]@ == q);
                }
                if exists|i: int| 0 <= i < taken@.len() && taken@[i]@ == q {
                    let i = choose|i: int| 0 <= i < taken@.len() && taken@[i]@ == q;
                    if i < before.len() {
                        assert(taken@[i] == before[i]);
                    }
                }
            }
            assert(all == taken@ + rest@);
        }
        assert(all == taken@);
        set
    }
}

// ── flattening ───────────────────────────────────────────────────────────────

/// The path of a child `key` under `parent`: the key alone at the top
/// level, `parent[key]` for an index-like key, `parent.key` otherwise.
pub open spec fn build_path_spec(parent: Seq<char>, key: Seq<char>) -> Seq<char> {
    if parent.len() == 0 && key.len() == 0 {
        Seq::empty()
    } else if parent.len() == 0 {
        key
    } else if is_index_text(key) {
        parent + seq!['['] + key + seq![']']
    } else {
        parent + seq!['.'] + key
    }
}

/// A plain key: not empty, and without `.`, `[` or `]`.
pub open spec fn plain_key(k: Seq<char>) -> bool {
    k.len() > 0 && forall|i: int| 0 <= i < k.len() ==> k[i] != '.' && k[i] != '[' && k[i] != ']'
}

/// The path of the node reached from the document through `keys`.
pub open spec fn path_of_keys(keys: Seq<Seq<char>>) -> Seq<char>
    decreases keys.len(),
{
    if keys.len() == 0 {
        Seq::empty()
    } else {
        build_path_spec(path_of_keys(keys.drop_last()), keys.last())
    }
}

/// Whether the last key of `keys` was written in brackets.
pub open spec fn ends_bracketed(keys: Seq<Seq<char>>) -> bool {
    keys.len() >= 2 && is_index_text(keys.last())
}

/// `t` without a leading `.`.
pub open spec fn skip_dot(t: Seq<char>) -> Seq<char> {
    if t.len() > 0 && t[0] == '.' {
        t.drop_first()
    } else {
        t
    }
}

proof fn lemma_parts_plain_run(w: Seq<char>, t: Seq<char>, cur: Seq<char>, parts: Seq<Seq<char>>)
    requires
        forall|i: int| 0 <= i < w.len() ==> w[i] != '.' && w[i] != '[' && w[i] != ']',
    ensures
        crate::value::path_parts_from(w + t, cur, parts) == crate::value::path_parts_from(t, cur + w, parts),
    decreases w.len(),
{
    if w.len() == 0 {
        assert(w + t =~= t);
        assert(cur + w =~= cur);
    } else {
        assert((w + t)[0] == w[0]);
        assert((w + t).drop_first() =~= w.drop_first() + t);
        lemma_parts_plain_run(w.drop_first(), t, cur.push(w[0]), parts);
        assert(cur.push(w[0]) + w.drop_first() =~= cur + w);
    }
}

#[verifier::spinoff_prover]
#[verifier::rlimit(40)]
proof fn lemma_parts_of_keys(keys: Seq<Seq<char>>, t: Seq<char>, parts0: Seq<Seq<char>>)
    requires
        keys.len() > 0,
        forall|i: int| 0 <= i < keys.len() ==> plain_key(#[trigger] keys[i]),
        t.len() == 0 || t[0] == '.' || t[0] == '[',
    ensures
        crate::value::path_parts_from(path_of_keys(keys) + t, seq![], parts0) == if ends_bracketed(keys) {
            crate::value::path_parts_from(skip_dot(t), seq![], parts0 + keys)
        } else {
            crate::value::path_parts_from(t, keys.last(), parts0 + keys.drop_last())
        },
    decreases keys.len(),
{
    let k = keys.last();
    assert(plain_key(keys[keys.len() - 1]));
    if keys.len() == 1 {
        assert(path_of_keys(keys.drop_last()) =~= Seq::<char>::empty());
        assert(path_of_keys(keys) == k);
        lemma_parts_plain_run(k, t, seq![], parts0);
        assert(Seq::<char>::empty() + k =~= k);
        assert(parts0 + keys.drop_last() =~= parts0);
    } else {
        let ks = keys.drop_last();
        assert forall|i: int| 0 <= i < ks.len() implies plain_key(#[trigger] ks[i]) by {
            assert(ks[i] == keys[i]);
        }
        let p = path_of_keys(ks);
        assert(keys =~= ks.push(k));
        assert(p.len() > 0) by {
            assert(plain_key(ks[ks.len() - 1]));
            if ks.len() == 1 {
                assert(path_of_keys(ks.drop_last()) =~= Seq::<char>::empty());
            }
        }
        if is_index_text(k) {
            let t2 = seq!['['] + k + seq![']'] + t;
            assert(path_of_keys(keys) + t =~= p + t2);
            lemma_parts_of_keys(ks, t2, parts0);
            let r = t2.drop_first();
            assert(r =~= k + seq![']'] + t);
            lemma_first_index_of(r, ']');
            assert(r[k.len() as int] == ']');
            assert(first_index_of(r, ']') == Some(k.len() as int)) by {
                match first_index_of(r, ']') {
                    Some(j) => {
                        if j < k.len() {
                            assert(r[j] == k[j]);
                        }
                    },
                    None => {},
                }
            }
            assert(r.take(k.len() as int) =~= k);
            assert(r.skip(k.len() as int + 1) =~= t);
            let flushed = parts0 + ks;
            if ends_bracketed(ks) {
                assert(skip_dot(t2) == t2);
            } else {
                assert(parts0 + ks.drop_last() + seq![ks.last()] =~= flushed);
                assert((parts0 + ks.drop_last()).push(ks.last()) =~= flushed);
            }
            assert(flushed.push(k) =~= parts0 + keys);
        } else {
            let t2 = seq!['.'] + k + t;
            assert(path_of_keys(keys) + t =~= p + t2);
            lemma_parts_of_keys(ks, t2, parts0);
            assert(t2.drop_first() =~= k + t);
            lemma_parts_plain_run(k, t, seq![], parts0 + ks);
            assert(Seq::<char>::empty() + k =~= k);
            if !ends_bracketed(ks) {
                assert((parts0 + ks.drop_last()).push(ks.last()) =~= parts0 + ks);
            }
            assert(parts0 + keys.drop_last() =~= parts0 + ks);
        }
    }
}

/// Building a path from plain keys and splitting it into its parts gives
/// the keys back.
pub proof fn lemma_path_parts_round_trip(keys: Seq<Seq<char>>)
    requires
        forall|i: int| 0 <= i < keys.len() ==> plain_key(#[trigger] keys[i]),
    ensures
        crate::value::path_parts(path_of_keys(keys)) == keys,
{
    let e: Seq<char> = Seq::empty();
    if keys.len() > 0 {
        lemma_parts_of_keys(keys, e, seq![]);
        assert(path_of_keys(keys) + e =~= path_of_keys(keys));
        assert(Seq::<Seq<char>>::empty() + keys =~= keys);
        if !ends_bracketed(keys) {
            assert(keys.last().len() > 0) by {
                assert(plain_key(keys[keys.len() - 1]));
            }
            assert(Seq::<Seq<char>>::empty() + keys.drop_last() =~= keys.drop_last());
            assert(keys.drop_last().push(keys.last()) =~= keys);
        }
    } else {
        assert(path_of_keys(keys) =~= e);
    }
}

/// Splitting the path of a child gives back its parent's path and its
/// key, for a plain key.
pub proof fn lemma_split_child_path(parent: Seq<char>, key: Seq<char>)
    requires
        plain_key(key),
    ensures
        split_path_spec(build_path_spec(parent, key)) == Ok::<(Seq<char>, Seq<char>), Seq<char>>((parent, key)),
{
    let p = build_path_spec(parent, key);
    if parent.len() == 0 {
        assert(p == key);
        lemma_last_index_of(p, '.');
        assert(p.last() == key[key.len() - 1]);
        assert(p.last() != ']');
        if last_index_of(p, '.') is Some {
            let i = last_index_of(p, '.')->0;
            assert(key[i] != '.');
        }
        assert(last_index_of(p, '.') is None);
        assert(split_path_spec(p) == Ok::<(Seq<char>, Seq<char>), Seq<char>>((Seq::<char>::empty(), p)));
        assert(parent =~= Seq::<char>::empty());
    } else if is_index_text(key) {
        let b = parent.len() as int;
        assert(p == parent + seq!['['] + key + seq![']']);
        assert(p[b] == '[');
        assert(p.last() == ']');
        assert forall|j: int| b < j < p.len() implies p[j] != '[' by {
            if j < p.len() - 1 {
                assert(p[j] == key[j - b - 1]);
            }
        }
        lemma_last_index_of(p, '[');
        assert(last_index_of(p, '[') == Some(b));
        assert(p.take(b) =~= parent);
        assert(p.subrange(b + 1, p.len() - 1) =~= key);
        assert(split_path_spec(p) == Ok::<(Seq<char>, Seq<char>), Seq<char>>((p.take(b), p.subrange(b + 1, p.len() - 1))));
    } else {
        let d = parent.len() as int;
        assert(p == parent + seq!['.'] + key);
        assert(p[d] == '.');
        assert(p.last() == key[key.len() - 1]);
        assert(p.last() != ']');
        assert forall|j: int| d < j < p.len() implies p[j] != '.' by {
            assert(p[j] == key[j - d - 1]);
        }
        lemma_last_index_of(p, '.');
        assert(last_index_of(p, '.') == Some(d));
        assert(p.take(d) =~= parent);
        assert(p.skip(d + 1) =~= key);
        assert(split_path_spec(p) == Ok::<(Seq<char>, Seq<char>), Seq<char>>((p.take(d), p.skip(d + 1))));
    }
}

/// The path of child `key` under `parent`.
pub fn build_path(parent: &Vec<char>, key: &Vec<char>) -> (r: Vec<char>)
    ensures
        r@ == build_path_spec(parent@, key@),
{
    let mut out: Vec<char> = Vec::new();
    if parent.len() == 0 && key.len() == 0 {
        assert(out@ =~= Seq::<char>::empty());
    } else if parent.len() == 0 {
        push_all(&mut out, key);
    } else if parse_usize(key).is_some() {
        push_all(&mut out, parent);
        out.push('[');
        push_all(&mut out, key);
        out.push(']');
    } else {
        push_all(&mut out, parent);
        out.push('.');
        push_all(&mut out, key);
    }
    out
}

/// The value a row stores: the scalar itself, or `Null` for a container.
pub open spec fn stored_value(v: JVal) -> JVal {
    match v {
        JVal::Object(_) | JVal::Array(_) => JVal::Null,
        _ => v,
    }
}

/// Number of children of a value.
pub open spec fn num_children(v: JVal) -> nat {
    match v {
        JVal::Object(es) => es.len(),
        JVal::Array(a) => a.len(),
        _ => 0,
    }
}

/// The key of child `i`: the member's key, or the decimal index.
pub open spec fn child_key(v: JVal, i: int) -> Seq<char> {
    match v {
        JVal::Object(es) => es[i].0,
        _ => decimal(i as nat),
    }
}

/// The value of child `i`.
pub open spec fn child_val(v: JVal, i: int) -> JVal {
    match v {
        JVal::Object(es) => es[i].1,
        JVal::Array(a) => a[i],
        _ => JVal::Null,
    }
}

/// A freshly built row.
pub open spec fn make_row(v: JVal, key: Seq<char>, path: Seq<char>, depth: int, collapsed: bool) -> NodeV {
    NodeV {
        depth,
        key,
        value: stored_value(v),
        kind: kind_of(v),
        path,
        collapsed,
        search_match: false,
        line_number: None,
    }
}

/// The rows of `v` (keyed `key` under `parent`) in display order: the node
/// itself, then, unless its path is collapsed, the rows of its children.
pub open spec fn flatten(v: JVal, key: Seq<char>, parent: Seq<char>, depth: int, coll: Set<Seq<char>>) -> Seq<NodeV>
    decreases v, 1nat, 0nat,
{
    let path = build_path_spec(parent, key);
    let c = coll.contains(path);
    seq![make_row(v, key, path, depth, c)] + if c {
        Seq::empty()
    } else {
        flatten_kids(v, path, depth + 1, coll, num_children(v))
    }
}

/// The rows of the first `n` children of `v`.
pub open spec fn flatten_kids(v: JVal, path: Seq<char>, depth: int, coll: Set<Seq<char>>, n: nat) -> Seq<NodeV>
    decreases v, 0nat, n,
{
    if n == 0 || n > num_children(v) {
        Seq::empty()
    } else {
        proof {
            match v {
                JVal::Object(es) => {
                    assert(decreases_to!(v => es[n - 1].1));
                },
                JVal::Array(a) => {
                    assert(decreases_to!(v => a[n - 1]));
                },
                _ => {},
            }
        }
        flatten_kids(v, path, depth, coll, (n - 1) as nat) + flatten(
            child_val(v, n - 1),
            child_key(v, n - 1),
            path,
            depth,
            coll,
        )
    }
}

/// The row for `value`: the stored copy is `Null` for containers.
fn new_row(value: &JsonValue, key: &Vec<char>, path: &Vec<char>, depth: usize, collapsed: bool) -> (r: FlatNode)
    ensures
        r@ == make_row(value@, key@, path@, depth as int, collapsed),
{
    let kind = value_kind(value);
    let stored = match value {
        JsonValue::Object(_) | JsonValue::Array(_) => JsonValue::Null,
        _ => value.deep_copy(),
    };
    FlatNode {
        depth,
        key: string_of(key.as_slice()),
        value: stored,
        kind,
        path: string_of(path.as_slice()),
        collapsed,
        search_match: false,
        line_number: None,
    }
}

/// Append the rows of `value` to `out`.
fn flatten_value(
    value: &JsonValue,
    key: &Vec<char>,
    parent_path: &Vec<char>,
    depth: usize,
    collapsed: &PathSet,
    out: &mut Vec<FlatNode>,
)
    requires
        depth <= old(out)@.len(),
    ensures
        rows_view(final(out)@) == rows_view(old(out)@) + flatten(
            value@,
            key@,
            parent_path@,
            depth as int,
            collapsed@,
        ),
    decreases value,
{
    let path = build_path(parent_path, key);
    let is_collapsed = collapsed.contains(&path);
    let row = new_row(value, key, &path, depth, is_collapsed);
    let ghost start = rows_view(out@);
    let ghost rv = row@;
    out.push(row);
    assert(rows_view(out@) =~= start.push(rv));
    let ghost head = start.push(rv);
    if is_collapsed {
        assert(rows_view(out@) =~= start + flatten(value@, key@, parent_path@, depth as int, collapsed@));
        return;
    }
    let ghost v = value@;
    match value {
        JsonValue::Object(map) => {
            proof {
                lemma_object_view(*value);
            }
            let n = map.len();
            for i in 0..n
                invariant
                    n == map@.len(),
                    *value == JsonValue::Object(*map),
                    v == value@,
                    num_children(v) == n,
                    forall|j: int| 0 <= j < n ==> #[trigger] child_key(v, j) == map@[j].key@ && child_val(v, j) == map@[j].value@,
                    depth < out@.len(),
                    rows_view(out@) == head + flatten_kids(v, path@, depth + 1, collapsed@, i as nat),
            {
                proof {
                    lemma_decreases_member(*value, i as int);
                }
                let k = chars_of(map[i].key.as_str());
                assert(child_key(v, i as int) == k@);
                let cur_len = out.len();
                flatten_value(&map[i].value, &k, &path, depth + 1, collapsed, out);
                assert(rows_view(out@).len() == out@.len());
            }
        },
        JsonValue::Array(arr) => {
            proof {
                lemma_array_view(*value);
            }
            let n = arr.len();
            for i in 0..n
                invariant
                    n == arr@.len(),
                    *value == JsonValue::Array(*arr),
                    v == value@,
                    num_children(v) == n,
                    forall|j: int| 0 <= j < n ==> #[trigger] child_val(v, j) == arr@[j]@,
                    depth < out@.len(),
                    rows_view(out@) == head + flatten_kids(v, path@, depth + 1, collapsed@, i as nat),
            {
                proof {
                    lemma_decreases_item(*value, i as int);
                }
                let k = usize_to_chars(i);
                assert(child_key(v, i as int) == k@);
                let cur_len = out.len();
                flatten_value(&arr[i], &k, &path, depth + 1, collapsed, out);
                assert(rows_view(out@).len() == out@.len());
            }
        },
        _ => {
            assert(num_children(v) == 0);
        },
    }
}


// ── search filter ────────────────────────────────────────────────────────────

/// Whether a row matches the (lower-cased) query: its lower-cased key or
/// lower-cased display text contains it.
pub open spec fn row_matches(n: NodeV, q: Seq<char>) -> bool {
    contains_seq(lowercase_spec(n.key), q) || contains_seq(
        lowercase_spec(display_spec(n)),
        q,
    )
}

/// The parent path that `split_path` finds is shorter than the path.
pub proof fn lemma_split_parent_shorter(p: Seq<char>)
    ensures
        split_path_spec(p) matches Ok((parent, _)) ==> parent.len() < p.len(),
{
    lemma_last_index_of(p, '[');
    lemma_last_index_of(p, '.');
}

/// The ancestor paths of `p`, nearest first, as `split_path` finds them
/// (the empty root path is not included).
pub open spec fn ancestors(p: Seq<char>) -> Seq<Seq<char>>
    decreases p.len(),
{
    match split_path_spec(p) {
        Ok((parent, _)) => if parent.len() == 0 {
            Seq::empty()
        } else {
            proof {
                lemma_split_parent_shorter(p);
            }
            seq![parent] + ancestors(parent)
        },
        Err(_) => Seq::empty(),
    }
}

/// The paths of the matching rows, each followed by its ancestors.
pub open spec fn match_list(rows: Seq<NodeV>, q: Seq<char>) -> Seq<Seq<char>>
    decreases rows.len(),
{
    if rows.len() == 0 {
        Seq::empty()
    } else {
        match_list(rows.drop_last(), q) + if row_matches(rows.last(), q) {
            seq![rows.last().path] + ancestors(rows.last().path)
        } else {
            Seq::empty()
        }
    }
}

/// A row with its match flag set.
pub open spec fn with_match(n: NodeV, m: bool) -> NodeV {
    NodeV {
        depth: n.depth,
        key: n.key,
        value: n.value,
        kind: n.kind,
        path: n.path,
        collapsed: n.collapsed,
        search_match: m,
        line_number: n.line_number,
    }
}

/// The rows whose path is in `keep` (and the root row), each flagged with
/// whether it matches `q` itself.
pub open spec fn filter_rows(rows: Seq<NodeV>, keep: Seq<Seq<char>>, q: Seq<char>) -> Seq<NodeV>
    decreases rows.len(),
{
    if rows.len() == 0 {
        Seq::empty()
    } else {
        filter_rows(rows.drop_last(), keep, q) + if keep.contains(rows.last().path)
            || rows.last().path.len() == 0 {
            seq![with_match(rows.last(), row_matches(rows.last(), q))]
        } else {
            Seq::empty()
        }
    }
}

/// The rows of the whole document before filtering: the flattened tree,
/// or a single row for a scalar document.
pub open spec fn base_rows(root: JVal, coll: Set<Seq<char>>) -> Seq<NodeV> {
    match root {
        JVal::Object(_) | JVal::Array(_) => flatten(root, Seq::empty(), Seq::empty(), 0, coll),
        _ => seq![make_row(root, Seq::empty(), Seq::empty(), 0, false)],
    }
}

/// The visible rows: all rows when the lower-cased query is empty;
/// otherwise the matching rows, their ancestors and the root, in document
/// order.
pub open spec fn rebuild_spec(root: JVal, coll: Set<Seq<char>>, query: Seq<char>) -> Seq<NodeV> {
    let q = lowercase_spec(query);
    let base = base_rows(root, coll);
    if q.len() == 0 {
        base
    } else {
        filter_rows(base, match_list(base, q), q)
    }
}

/// Whether `p` is the path of a row of `rows` that matches `q`, or of an
/// ancestor of such a row.
pub open spec fn on_match_path(rows: Seq<NodeV>, q: Seq<char>, p: Seq<char>) -> bool {
    exists|m: int|
        0 <= m < rows.len() && #[trigger] row_matches(rows[m], q) && (rows[m].path == p || ancestors(
            rows[m].path,
        ).contains(p))
}

proof fn lemma_match_list_contains(rows: Seq<NodeV>, q: Seq<char>, x: Seq<char>)
    ensures
        match_list(rows, q).contains(x) <==> on_match_path(rows, q, x),
    decreases rows.len(),
{
    if rows.len() > 0 {
        let init = rows.drop_last();
        let last = rows.last();
        lemma_match_list_contains(init, q, x);
        let extra = if row_matches(last, q) {
            seq![last.path] + ancestors(last.path)
        } else {
            Seq::empty()
        };
        assert(match_list(rows, q) == match_list(init, q) + extra);
        if match_list(rows, q).contains(x) {
            let k = choose|k: int| 0 <= k < match_list(rows, q).len() && match_list(rows, q)[k] == x;
            if k < match_list(init, q).len() {
                assert(match_list(init, q)[k] == x);
                assert(match_list(init, q).contains(x));
                let m = choose|m: int|
                    0 <= m < init.len() && #[trigger] row_matches(init[m], q) && (init[m].path == x || ancestors(
                        init[m].path,
                    ).contains(x));
                assert(rows[m] == init[m]);
                assert(row_matches(rows[m], q));
            } else {
                let e = k - match_list(init, q).len();
                assert(extra[e] == x);
                assert(row_matches(last, q));
                let m = rows.len() - 1;
                assert(rows[m] == last);
                if e > 0 {
                    assert(ancestors(last.path)[e - 1] == x);
                    assert(ancestors(last.path).contains(x));
                }
                assert(row_matches(rows[m], q));
            }
        }
        if on_match_path(rows, q, x) {
            let m = choose|m: int|
                0 <= m < rows.len() && #[trigger] row_matches(rows[m], q) && (rows[m].path == x || ancestors(
                    rows[m].path,
                ).contains(x));
            if m < rows.len() - 1 {
                assert(init[m] == rows[m]);
                assert(row_matches(init[m], q));
                assert(on_match_path(init, q, x));
                let k = choose|k: int| 0 <= k < match_list(init, q).len() && match_list(init, q)[k] == x;
                assert(match_list(rows, q)[k] == x);
            } else {
                assert(rows[m] == last);
                if last.path == x {
                    assert(extra[0] == x);
                    assert(match_list(rows, q)[match_list(init, q).len() as int] == x);
                } else {
                    let a = choose|a: int| 0 <= a < ancestors(last.path).len() && ancestors(last.path)[a] == x;
                    assert(extra[a + 1] == x);
                    assert(match_list(rows, q)[match_list(init, q).len() + a + 1] == x);
                }
            }
        }
    }
}

proof fn lemma_filter_rows_from(rows: Seq<NodeV>, keep: Seq<Seq<char>>, q: Seq<char>, i: int)
    requires
        0 <= i < filter_rows(rows, keep, q).len(),
    ensures
        exists|j: int|
            0 <= j < rows.len() && (keep.contains(rows[j].path) || rows[j].path.len() == 0) && filter_rows(
                rows,
                keep,
                q,
            )[i] == with_match(#[trigger] rows[j], row_matches(rows[j], q)),
    decreases rows.len(),
{
    let init = rows.drop_last();
    let last = rows.last();
    let head = filter_rows(init, keep, q);
    if i < head.len() {
        lemma_filter_rows_from(init, keep, q, i);
        let j = choose|j: int|
            0 <= j < init.len() && (keep.contains(init[j].path) || init[j].path.len() == 0) && head[i]
                == with_match(#[trigger] init[j], row_matches(init[j], q));
        assert(rows[j] == init[j]);
    } else {
        let j = rows.len() - 1;
        assert(rows[j] == last);
    }
}

proof fn lemma_filter_rows_keeps(rows: Seq<NodeV>, keep: Seq<Seq<char>>, q: Seq<char>, j: int)
    requires
        0 <= j < rows.len(),
        keep.contains(rows[j].path) || rows[j].path.len() == 0,
    ensures
        exists|i: int|
            0 <= i < filter_rows(rows, keep, q).len() && #[trigger] filter_rows(rows, keep, q)[i] == with_match(
                rows[j],
                row_matches(rows[j], q),
            ),
    decreases rows.len(),
{
    let init = rows.drop_last();
    let head = filter_rows(init, keep, q);
    if j < rows.len() - 1 {
        assert(init[j] == rows[j]);
        lemma_filter_rows_keeps(init, keep, q, j);
        let i = choose|i: int| 0 <= i < head.len() && #[trigger] head[i] == with_match(init[j], row_matches(init[j], q));
        assert(filter_rows(rows, keep, q)[i] == head[i]);
    } else {
        assert(filter_rows(rows, keep, q)[head.len() as int] == with_match(rows[j], row_matches(rows[j], q)));
    }
}

/// The number of values in `v`: itself and every value nested in it.
pub open spec fn node_count(v: JVal) -> nat
    decreases v, 1nat, 0nat,
{
    1 + kids_count(v, num_children(v))
}

/// The number of values in the first `n` children of `v`.
pub open spec fn kids_count(v: JVal, n: nat) -> nat
    decreases v, 0nat, n,
{
    if n == 0 || n > num_children(v) {
        0
    } else {
        proof {
            match v {
                JVal::Object(es) => {
                    assert(decreases_to!(v => es[n - 1].1));
                },
                JVal::Array(a) => {
                    assert(decreases_to!(v => a[n - 1]));
                },
                _ => {},
            }
        }
        kids_count(v, (n - 1) as nat) + node_count(child_val(v, n - 1))
    }
}

proof fn lemma_flatten_len(v: JVal, key: Seq<char>, parent: Seq<char>, depth: int)
    ensures
        flatten(v, key, parent, depth, Set::empty()).len() == node_count(v),
    decreases v, 1nat, 0nat,
{
    lemma_kids_len(v, build_path_spec(parent, key), depth + 1, num_children(v));
}

proof fn lemma_kids_len(v: JVal, path: Seq<char>, depth: int, n: nat)
    ensures
        flatten_kids(v, path, depth, Set::empty(), n).len() == kids_count(v, n),
    decreases v, 0nat, n,
{
    if n > 0 && n <= num_children(v) {
        match v {
            JVal::Object(es) => {
                assert(decreases_to!(v => es[n - 1].1));
            },
            JVal::Array(a) => {
                assert(decreases_to!(v => a[n - 1]));
            },
            _ => {},
        }
        lemma_kids_len(v, path, depth, (n - 1) as nat);
        lemma_flatten_len(child_val(v, n - 1), child_key(v, n - 1), path, depth);
    }
}

/// With nothing collapsed and no query the tree shows one row per value
/// of the document, in pre-order: the document's own row first, at depth
/// 0 with the empty path, then the rows of each child in turn.
pub proof fn lemma_one_row_per_value(root: JVal)
    ensures
        rebuild_spec(root, Set::empty(), Seq::empty()).len() == node_count(root),
        rebuild_spec(root, Set::empty(), Seq::empty())[0].depth == 0,
        rebuild_spec(root, Set::empty(), Seq::empty())[0].path.len() == 0,
        root is Object || root is Array ==> rebuild_spec(root, Set::empty(), Seq::empty()) == seq![
            make_row(root, Seq::empty(), Seq::empty(), 0, false),
        ] + flatten_kids(root, Seq::empty(), 1, Set::empty(), num_children(root)),
{
    let e: Seq<char> = Seq::empty();
    assert(lowercase_spec(e) =~= e) by {
        assert(is_ascii_text(e));
    }
    lemma_flatten_len(root, e, e, 0);
    assert(build_path_spec(e, e) =~= e);
    match root {
        JVal::Object(_) | JVal::Array(_) => {},
        _ => {
            assert(kids_count(root, 0) == 0);
        },
    }
}

proof fn lemma_kids_block_prefix(v: JVal, path: Seq<char>, depth: int, coll: Set<Seq<char>>, k: nat, n: nat)
    requires
        k <= n <= num_children(v),
    ensures
        flatten_kids(v, path, depth, coll, k).len() <= flatten_kids(v, path, depth, coll, n).len(),
        flatten_kids(v, path, depth, coll, n).take(flatten_kids(v, path, depth, coll, k).len() as int)
            == flatten_kids(v, path, depth, coll, k),
    decreases n,
{
    if k < n {
        lemma_kids_block_prefix(v, path, depth, coll, k, (n - 1) as nat);
        let a = flatten_kids(v, path, depth, coll, (n - 1) as nat);
        let b = flatten(child_val(v, n - 1), child_key(v, n - 1), path, depth, coll);
        assert(flatten_kids(v, path, depth, coll, n) == a + b);
        assert((a + b).take(flatten_kids(v, path, depth, coll, k).len() as int) =~= a.take(
            flatten_kids(v, path, depth, coll, k).len() as int,
        ));
    } else {
        assert(flatten_kids(v, path, depth, coll, n).take(flatten_kids(v, path, depth, coll, n).len() as int)
            =~= flatten_kids(v, path, depth, coll, n));
    }
}

/// The rows of a value are in pre-order: its own row comes first and,
/// unless it is collapsed, the rows of its children follow in turn, the
/// rows of child `k` forming one contiguous block that starts after the
/// blocks of the children before it, with the child's own row first, one
/// level deeper, at the child's path.
pub proof fn lemma_child_block(
    v: JVal,
    key: Seq<char>,
    parent: Seq<char>,
    depth: int,
    coll: Set<Seq<char>>,
    k: nat,
)
    requires
        k < num_children(v),
        !coll.contains(build_path_spec(parent, key)),
    ensures
        ({
            let rows = flatten(v, key, parent, depth, coll);
            let path = build_path_spec(parent, key);
            let start: int = 1 + flatten_kids(v, path, depth + 1, coll, k).len() as int;
            let block = flatten(child_val(v, k as int), child_key(v, k as int), path, depth + 1, coll);
            &&& rows[0] == make_row(v, key, path, depth, false)
            &&& start + block.len() <= rows.len()
            &&& rows.subrange(start, start + block.len() as int) == block
            &&& block[0].path == build_path_spec(path, child_key(v, k as int))
            &&& block[0].depth == depth + 1
        }),
{
    let path = build_path_spec(parent, key);
    let rows = flatten(v, key, parent, depth, coll);
    let n = num_children(v);
    let kids = flatten_kids(v, path, depth + 1, coll, n);
    let pre = flatten_kids(v, path, depth + 1, coll, k);
    let block = flatten(child_val(v, k as int), child_key(v, k as int), path, depth + 1, coll);
    lemma_kids_block_prefix(v, path, depth + 1, coll, k + 1, n);
    let upto = flatten_kids(v, path, depth + 1, coll, k + 1);
    assert(upto == pre + block);
    assert(rows == seq![make_row(v, key, path, depth, false)] + kids);
    assert forall|t: int| 0 <= t < block.len() implies #[trigger] rows.subrange(
        1 + pre.len() as int,
        1 + pre.len() as int + block.len() as int,
    )[t] == block[t] by {
        assert(kids.take(upto.len() as int)[pre.len() + t] == upto[pre.len() + t]);
    }
    assert(rows.subrange(1 + pre.len() as int, 1 + pre.len() as int + block.len() as int) =~= block);
}

/// No row carries a line number.
pub open spec fn lineless(rows: Seq<NodeV>) -> bool {
    forall|i: int| 0 <= i < rows.len() ==> (#[trigger] rows[i]).line_number is None
}

proof fn lemma_flatten_lineless(v: JVal, key: Seq<char>, parent: Seq<char>, depth: int, coll: Set<Seq<char>>)
    ensures
        lineless(flatten(v, key, parent, depth, coll)),
    decreases v, 1nat, 0nat,
{
    let path = build_path_spec(parent, key);
    let head = seq![make_row(v, key, path, depth, coll.contains(path))];
    let rows = flatten(v, key, parent, depth, coll);
    if !coll.contains(path) {
        let kids = flatten_kids(v, path, depth + 1, coll, num_children(v));
        lemma_kids_lineless(v, path, depth + 1, coll, num_children(v));
        assert(rows == head + kids);
        assert forall|i: int| 0 <= i < rows.len() implies (#[trigger] rows[i]).line_number is None by {
            if i > 0 {
                assert(rows[i] == kids[i - 1]);
            }
        }
    } else {
        assert(rows =~= head);
    }
}

proof fn lemma_kids_lineless(v: JVal, path: Seq<char>, depth: int, coll: Set<Seq<char>>, n: nat)
    ensures
        lineless(flatten_kids(v, path, depth, coll, n)),
    decreases v, 0nat, n,
{
    if n > 0 && n <= num_children(v) {
        match v {
            JVal::Object(es) => {
                assert(decreases_to!(v => es[n - 1].1));
            },
            JVal::Array(a) => {
                assert(decreases_to!(v => a[n - 1]));
            },
            _ => {},
        }
        let a = flatten_kids(v, path, depth, coll, (n - 1) as nat);
        let b = flatten(child_val(v, n - 1), child_key(v, n - 1), path, depth, coll);
        lemma_kids_lineless(v, path, depth, coll, (n - 1) as nat);
        lemma_flatten_lineless(child_val(v, n - 1), child_key(v, n - 1), path, depth, coll);
        let k = flatten_kids(v, path, depth, coll, n);
        assert(k == a + b);
        assert forall|i: int| 0 <= i < k.len() implies (#[trigger] k[i]).line_number is None by {
            if i < a.len() {
                assert(k[i] == a[i]);
            } else {
                assert(k[i] == b[i - a.len()]);
            }
        }
    }
}

/// Rows freshly computed carry no line numbers, so a tree whose rows are
/// the computed ones (as every operation but `set_value_at_path_no_rebuild`
/// leaves them) is `fresh`, and stays so when line numbers are filled in.
pub proof fn lemma_rebuilt_rows_are_fresh(root: JVal, coll: Set<Seq<char>>, query: Seq<char>)
    ensures
        strip_lines(rebuild_spec(root, coll, query)) == rebuild_spec(root, coll, query),
{
    let base = base_rows(root, coll);
    match root {
        JVal::Object(_) | JVal::Array(_) => {
            lemma_flatten_lineless(root, Seq::empty(), Seq::empty(), 0, coll);
        },
        _ => {},
    }
    assert(lineless(base));
    let q = lowercase_spec(query);
    let rows = rebuild_spec(root, coll, query);
    if q.len() > 0 {
        let keep = match_list(base, q);
        assert forall|i: int| 0 <= i < rows.len() implies (#[trigger] rows[i]).line_number is None by {
            lemma_filter_rows_from(base, keep, q, i);
        }
    }
    assert(lineless(rows));
    assert(strip_lines(rows) =~= rows);
}

/// Whether `idx` picks a child at each step down from `v`.
pub open spec fn indices_ok(v: JVal, idx: Seq<int>) -> bool
    decreases idx.len(),
{
    idx.len() == 0 || (0 <= idx[0] < num_children(v) && indices_ok(child_val(v, idx[0]), idx.drop_first()))
}

/// The keys met going down from `v` by the child indices `idx`.
pub open spec fn keys_along(v: JVal, idx: Seq<int>) -> Seq<Seq<char>>
    decreases idx.len(),
{
    if idx.len() == 0 {
        Seq::empty()
    } else {
        seq![child_key(v, idx[0])] + keys_along(child_val(v, idx[0]), idx.drop_first())
    }
}

/// The path reached from path `base` at `v` by the child indices `idx`.
pub open spec fn path_from(base: Seq<char>, v: JVal, idx: Seq<int>) -> Seq<char>
    decreases idx.len(),
{
    if idx.len() == 0 {
        base
    } else {
        path_from(build_path_spec(base, child_key(v, idx[0])), child_val(v, idx[0]), idx.drop_first())
    }
}

proof fn lemma_path_from_keys(bk: Seq<Seq<char>>, v: JVal, idx: Seq<int>)
    ensures
        path_from(path_of_keys(bk), v, idx) == path_of_keys(bk + keys_along(v, idx)),
    decreases idx.len(),
{
    if idx.len() == 0 {
        assert(bk + keys_along(v, idx) =~= bk);
    } else {
        let k0 = child_key(v, idx[0]);
        let bk2 = bk.push(k0);
        assert(bk2.drop_last() =~= bk);
        assert(path_of_keys(bk2) == build_path_spec(path_of_keys(bk), k0));
        lemma_path_from_keys(bk2, child_val(v, idx[0]), idx.drop_first());
        assert(bk2 + keys_along(child_val(v, idx[0]), idx.drop_first()) =~= bk + keys_along(v, idx));
    }
}

proof fn lemma_keys_along_take(v: JVal, idx: Seq<int>, j: int)
    requires
        0 <= j <= idx.len(),
    ensures
        keys_along(v, idx.take(j)) == keys_along(v, idx).take(j),
        keys_along(v, idx).len() == idx.len(),
    decreases idx.len(),
{
    if idx.len() > 0 {
        let rest = idx.drop_first();
        if j > 0 {
            lemma_keys_along_take(child_val(v, idx[0]), rest, j - 1);
            assert(idx.take(j).drop_first() =~= rest.take(j - 1));
            assert(keys_along(v, idx).take(j) =~= seq![child_key(v, idx[0])] + keys_along(
                child_val(v, idx[0]),
                rest,
            ).take(j - 1));
        } else {
            lemma_keys_along_take(child_val(v, idx[0]), rest, 0);
            assert(idx.take(0).len() == 0);
        }
    } else {
        assert(idx.take(j) =~= idx);
    }
}

proof fn lemma_path_from_take(base: Seq<char>, v: JVal, idx: Seq<int>, j: int)
    requires
        0 < j <= idx.len(),
    ensures
        path_from(base, v, idx.take(j)) == path_from(
            build_path_spec(base, child_key(v, idx[0])),
            child_val(v, idx[0]),
            idx.drop_first().take(j - 1),
        ),
{
    assert(idx.take(j)[0] == idx[0]);
    assert(idx.take(j).drop_first() =~= idx.drop_first().take(j - 1));
}

proof fn lemma_flatten_reaches(
    v: JVal,
    key: Seq<char>,
    parent: Seq<char>,
    depth: int,
    coll: Set<Seq<char>>,
    idx: Seq<int>,
)
    requires
        indices_ok(v, idx),
        forall|j: int|
            0 <= j < idx.len() ==> !coll.contains(
                #[trigger] path_from(build_path_spec(parent, key), v, idx.take(j)),
            ),
    ensures
        exists|i: int|
            0 <= i < flatten(v, key, parent, depth, coll).len() && #[trigger] flatten(
                v,
                key,
                parent,
                depth,
                coll,
            )[i].path == path_from(build_path_spec(parent, key), v, idx),
    decreases idx.len(),
{
    let path = build_path_spec(parent, key);
    let rows = flatten(v, key, parent, depth, coll);
    assert(rows[0].path == path);
    if idx.len() > 0 {
        assert(idx.take(0) =~= Seq::<int>::empty());
        assert(path_from(path, v, idx.take(0)) == path);
        let k = idx[0];
        let rest = idx.drop_first();
        let ck = child_key(v, k);
        let cv = child_val(v, k);
        assert forall|j: int| 0 <= j < rest.len() implies !coll.contains(
            #[trigger] path_from(build_path_spec(path, ck), cv, rest.take(j)),
        ) by {
            lemma_path_from_take(path, v, idx, j + 1);
            assert(!coll.contains(path_from(path, v, idx.take(j + 1))));
        }
        lemma_flatten_reaches(cv, ck, path, depth + 1, coll, rest);
        lemma_child_block(v, key, parent, depth, coll, k as nat);
        let block = flatten(cv, ck, path, depth + 1, coll);
        let start: int = 1 + flatten_kids(v, path, depth + 1, coll, k as nat).len() as int;
        let i = choose|i: int| 0 <= i < block.len() && #[trigger] block[i].path == path_from(
            build_path_spec(path, ck),
            cv,
            rest,
        );
        assert(rows.subrange(start, start + block.len() as int)[i] == rows[start + i]);
        assert(rows[start + i].path == path_from(path, v, idx));
    }
}

proof fn lemma_prefix_is_ancestor(keys: Seq<Seq<char>>, j: int)
    requires
        1 <= j < keys.len(),
        forall|i: int| 0 <= i < keys.len() ==> plain_key(#[trigger] keys[i]),
    ensures
        ancestors(path_of_keys(keys)).contains(path_of_keys(keys.take(j))),
    decreases keys.len(),
{
    let ks = keys.drop_last();
    let k = keys.last();
    assert(plain_key(keys[keys.len() - 1]));
    assert(plain_key(ks[ks.len() - 1]) && ks[ks.len() - 1] == keys[ks.len() - 1]);
    let p = path_of_keys(ks);
    assert(p.len() > 0);
    lemma_split_child_path(p, k);
    assert(path_of_keys(keys) == build_path_spec(p, k));
    let anc = ancestors(path_of_keys(keys));
    assert(anc == seq![p] + ancestors(p));
    if j == ks.len() {
        assert(keys.take(j) =~= ks);
        assert(anc[0] == p);
    } else {
        assert forall|i: int| 0 <= i < ks.len() implies plain_key(#[trigger] ks[i]) by {
            assert(ks[i] == keys[i]);
        }
        lemma_prefix_is_ancestor(ks, j);
        assert(keys.take(j) =~= ks.take(j));
        let m = choose|m: int| 0 <= m < ancestors(p).len() && ancestors(p)[m] == path_of_keys(ks.take(j));
        assert(anc[m + 1] == ancestors(p)[m]);
    }
}

/// Expanding to a node makes it visible: for a node of the document
/// reached by the child indices `idx` along plain keys, once its path and
/// every ancestor path are taken out of the collapsed set, and with no
/// search query, one of the rows has that path.  (A collapsed document
/// root hides every other row, so the root must not be collapsed.)
pub proof fn lemma_expanded_node_visible(root: JVal, coll: Set<Seq<char>>, idx: Seq<int>)
    requires
        indices_ok(root, idx),
        forall|i: int| 0 <= i < keys_along(root, idx).len() ==> plain_key(#[trigger] keys_along(root, idx)[i]),
        !coll.contains(Seq::<char>::empty()),
    ensures
        ({
            let p = path_of_keys(keys_along(root, idx));
            let rows = rebuild_spec(root, expanded(coll, p), Seq::empty());
            exists|i: int| 0 <= i < rows.len() && #[trigger] rows[i].path == p
        }),
{
    let e: Seq<char> = Seq::empty();
    let keys = keys_along(root, idx);
    let p = path_of_keys(keys);
    let c2 = expanded(coll, p);
    let rows = rebuild_spec(root, c2, e);
    assert(lowercase_spec(e) =~= e) by {
        assert(is_ascii_text(e));
    }
    assert(rows == base_rows(root, c2));
    assert(path_of_keys(Seq::<Seq<char>>::empty()) == e);
    lemma_path_from_keys(Seq::empty(), root, idx);
    assert(Seq::<Seq<char>>::empty() + keys =~= keys);
    assert(build_path_spec(e, e) =~= e);
    lemma_keys_along_take(root, idx, 0);
    if idx.len() == 0 {
        assert(p == e);
        match root {
            JVal::Object(_) | JVal::Array(_) => {
                assert(rows[0].path == e);
            },
            _ => {
                assert(rows[0].path == e);
            },
        }
    } else {
        assert(num_children(root) > 0);
        assert(root is Object || root is Array);
        assert forall|j: int| 0 <= j < idx.len() implies !c2.contains(
            #[trigger] path_from(build_path_spec(e, e), root, idx.take(j)),
        ) by {
            lemma_keys_along_take(root, idx, j);
            lemma_path_from_keys(Seq::empty(), root, idx.take(j));
            assert(Seq::<Seq<char>>::empty() + keys_along(root, idx.take(j)) =~= keys.take(j));
            if j == 0 {
                assert(keys.take(0) =~= Seq::<Seq<char>>::empty());
            } else {
                lemma_prefix_is_ancestor(keys, j);
            }
        }
        lemma_flatten_reaches(root, e, e, 0, c2, idx);
    }
}

/// Search ignores case on keys and on the text shown: under a non-empty
/// query, every row of the document whose key or display text, lower-cased,
/// contains the lower-cased query is shown and flagged as a match; a
/// flagged row always has such a key or text.
pub proof fn lemma_search_ignores_case(root: JVal, coll: Set<Seq<char>>, query: Seq<char>)
    requires
        lowercase_spec(query).len() > 0,
    ensures
        ({
            let q = lowercase_spec(query);
            let base = base_rows(root, coll);
            let shown = rebuild_spec(root, coll, query);
            &&& forall|j: int|
                0 <= j < base.len() && (contains_seq(lowercase_spec(#[trigger] base[j].key), q) || contains_seq(
                    lowercase_spec(display_spec(base[j])),
                    q,
                )) ==> exists|i: int| 0 <= i < shown.len() && shown[i] == with_match(base[j], true)
            &&& forall|i: int|
                0 <= i < shown.len() && (#[trigger] shown[i]).search_match ==> (contains_seq(
                    lowercase_spec(shown[i].key),
                    q,
                ) || contains_seq(lowercase_spec(display_spec(shown[i])), q))
        }),
{
    let q = lowercase_spec(query);
    let base = base_rows(root, coll);
    let shown = rebuild_spec(root, coll, query);
    assert(shown == filter_rows(base, match_list(base, q), q));
    assert forall|j: int|
        0 <= j < base.len() && (contains_seq(lowercase_spec(#[trigger] base[j].key), q) || contains_seq(
            lowercase_spec(display_spec(base[j])),
            q,
        )) implies exists|i: int| 0 <= i < shown.len() && shown[i] == with_match(base[j], true) by {
        lemma_case_match_shown(base, q, j);
    }
    assert forall|i: int| 0 <= i < shown.len() && (#[trigger] shown[i]).search_match implies (contains_seq(
        lowercase_spec(shown[i].key),
        q,
    ) || contains_seq(lowercase_spec(display_spec(shown[i])), q)) by {
        lemma_shown_flag_matches(base, q, i);
    }
}

#[verifier::spinoff_prover]
proof fn lemma_case_match_shown(base: Seq<NodeV>, q: Seq<char>, j: int)
    requires
        0 <= j < base.len(),
        contains_seq(lowercase_spec(base[j].key), q) || contains_seq(lowercase_spec(display_spec(base[j])), q),
    ensures
        exists|i: int|
            0 <= i < filter_rows(base, match_list(base, q), q).len() && filter_rows(base, match_list(base, q), q)[i]
                == with_match(base[j], true),
{
    let keep = match_list(base, q);
    assert(row_matches(base[j], q));
    assert(on_match_path(base, q, base[j].path));
    lemma_match_list_contains(base, q, base[j].path);
    lemma_filter_rows_keeps(base, keep, q, j);
}

#[verifier::spinoff_prover]
proof fn lemma_shown_flag_matches(base: Seq<NodeV>, q: Seq<char>, i: int)
    requires
        0 <= i < filter_rows(base, match_list(base, q), q).len(),
        filter_rows(base, match_list(base, q), q)[i].search_match,
    ensures
        ({
            let n = filter_rows(base, match_list(base, q), q)[i];
            contains_seq(lowercase_spec(n.key), q) || contains_seq(lowercase_spec(display_spec(n)), q)
        }),
{
    let keep = match_list(base, q);
    let shown = filter_rows(base, keep, q);
    lemma_filter_rows_from(base, keep, q, i);
    let j = choose|j: int|
        0 <= j < base.len() && (keep.contains(base[j].path) || base[j].path.len() == 0) && shown[i]
            == with_match(#[trigger] base[j], row_matches(base[j], q));
    assert(display_spec(shown[i]) == display_spec(base[j]));
}

/// The row shown for `n` under the filter that keeps `keep`, if any.
pub open spec fn kept_row(n: NodeV, keep: spec_fn(Seq<char>) -> bool, q: Seq<char>) -> Option<NodeV> {
    if n.path.len() == 0 || keep(n.path) {
        Some(with_match(n, row_matches(n, q)))
    } else {
        None
    }
}

proof fn lemma_filter_rows_in_order(rows: Seq<NodeV>, keep: Seq<Seq<char>>, q: Seq<char>)
    ensures
        filter_rows(rows, keep, q) == rows.filter_map(|n: NodeV| kept_row(n, |p: Seq<char>| keep.contains(p), q)),
    decreases rows.len(),
{
    if rows.len() > 0 {
        lemma_filter_rows_in_order(rows.drop_last(), keep, q);
    }
}

/// The search filter keeps document order and shows each row at most
/// once: under a non-empty query the rows shown are the rows of the whole
/// document that are the root, match the query, or are an ancestor of a
/// match, taken in document order, each flagged with whether it matches.
pub proof fn lemma_search_keeps_order(root: JVal, coll: Set<Seq<char>>, query: Seq<char>)
    requires
        lowercase_spec(query).len() > 0,
    ensures
        ({
            let q = lowercase_spec(query);
            let base = base_rows(root, coll);
            rebuild_spec(root, coll, query) == base.filter_map(
                |n: NodeV| kept_row(n, |p: Seq<char>| on_match_path(base, q, p), q),
            )
        }),
{
    let q = lowercase_spec(query);
    let base = base_rows(root, coll);
    let keep = match_list(base, q);
    lemma_filter_rows_in_order(base, keep, q);
    let f1 = |n: NodeV| kept_row(n, |p: Seq<char>| keep.contains(p), q);
    let f2 = |n: NodeV| kept_row(n, |p: Seq<char>| on_match_path(base, q, p), q);
    assert forall|n: NodeV| #[trigger] f1(n) == f2(n) by {
        lemma_match_list_contains(base, q, n.path);
    }
    assert(f1 =~= f2);
}

/// The search filter: under a non-empty query the tree shows exactly the
/// root row, the rows that match and the ancestors of the rows that
/// match, in document order, each flagged with whether it matches the
/// query itself.
pub proof fn lemma_search_shows_matches_and_ancestors(root: JVal, coll: Set<Seq<char>>, query: Seq<char>)
    requires
        lowercase_spec(query).len() > 0,
    ensures
        ({
            let q = lowercase_spec(query);
            let base = base_rows(root, coll);
            let shown = rebuild_spec(root, coll, query);
            &&& forall|i: int|
                #![trigger shown[i]]
                0 <= i < shown.len() ==> exists|j: int|
                    0 <= j < base.len() && (base[j].path.len() == 0 || on_match_path(base, q, base[j].path))
                        && shown[i] == with_match(#[trigger] base[j], row_matches(base[j], q))
            &&& forall|j: int|
                #![trigger base[j]]
                0 <= j < base.len() && (base[j].path.len() == 0 || on_match_path(base, q, base[j].path))
                    ==> exists|i: int|
                    0 <= i < shown.len() && #[trigger] shown[i] == with_match(base[j], row_matches(base[j], q))
        }),
{
    let q = lowercase_spec(query);
    let base = base_rows(root, coll);
    let keep = match_list(base, q);
    let shown = rebuild_spec(root, coll, query);
    assert(shown == filter_rows(base, keep, q));
    assert forall|i: int| #![trigger shown[i]] 0 <= i < shown.len() implies exists|j: int|
        0 <= j < base.len() && (base[j].path.len() == 0 || on_match_path(base, q, base[j].path)) && shown[i]
            == with_match(#[trigger] base[j], row_matches(base[j], q)) by {
        lemma_filter_rows_from(base, keep, q, i);
        let j = choose|j: int|
            0 <= j < base.len() && (keep.contains(base[j].path) || base[j].path.len() == 0) && shown[i]
                == with_match(#[trigger] base[j], row_matches(base[j], q));
        lemma_match_list_contains(base, q, base[j].path);
    }
    assert forall|j: int|
        #![trigger base[j]]
        0 <= j < base.len() && (base[j].path.len() == 0 || on_match_path(base, q, base[j].path)) implies exists|
        i: int,
    | 0 <= i < shown.len() && #[trigger] shown[i] == with_match(base[j], row_matches(base[j], q)) by {
        lemma_match_list_contains(base, q, base[j].path);
        lemma_filter_rows_keeps(base, keep, q, j);
    }
}

/// Whether `node` matches the lower-cased query `q`.
fn row_matches_exec(node: &FlatNode, q: &Vec<char>) -> (r: bool)
    ensures
        r == row_matches(node@, q@),
{
    let key_lc = chars_of(to_lowercase(node.key.as_str()).as_str());
    let disp = node.value_display();
    let val_lc = chars_of(to_lowercase(disp.as_str()).as_str());
    contains_chars(&key_lc, q) || contains_chars(&val_lc, q)
}

/// Append `p` and its ancestors to `matched`.
fn push_path_and_ancestors(matched: &mut Vec<Vec<char>>, p: Vec<char>)
    ensures
        vv(final(matched)@) == vv(old(matched)@) + seq![p@] + ancestors(p@),
{
    let ghost pv = p@;
    let ghost target = vv(matched@) + seq![p@] + ancestors(p@);
    let mut cur: Vec<char> = Vec::new();
    push_all(&mut cur, &p);
    let ghost b = vv(matched@);
    matched.push(p);
    assert(vv(matched@) =~= b.push(cur@));
    loop
        invariant
            target == vv(matched@) + ancestors(cur@),
            target == vv(old(matched)@) + seq![pv] + ancestors(pv),
            pv == p@,
        decreases cur@.len(),
    {
        proof {
            lemma_split_parent_shorter(cur@);
        }
        match split_path_chars(&cur) {
            Ok((parent, _)) => {
                if parent.len() == 0 {
                    assert(ancestors(cur@) == Seq::<Seq<char>>::empty());
                    assert(target =~= vv(matched@));
                    return;
                }
                let mut copy: Vec<char> = Vec::new();
                push_all(&mut copy, &parent);
                let ghost b = vv(matched@);
                matched.push(copy);
                assert(vv(matched@) =~= b.push(parent@));
                assert(ancestors(cur@) == seq![parent@] + ancestors(parent@));
                assert(target =~= vv(matched@) + ancestors(parent@));
                cur = parent;
            },
            Err(_) => {
                assert(target =~= vv(matched@));
                return;
            },
        }
    }
}

/// Whether `p` is one of `list`.
fn list_contains(list: &Vec<Vec<char>>, p: &Vec<char>) -> (r: bool)
    ensures
        r == vv(list@).contains(p@),
{
    let n = list.len();
    for i in 0..n
        invariant
            n == list@.len(),
            forall|j: int| 0 <= j < i ==> list@[j]@ != p@,
    {
        if chars_eq(&list[i], p) {
            assert(vv(list@)[i as int] == p@);
            return true;
        }
    }
    assert forall|j: int| 0 <= j < vv(list@).len() implies vv(list@)[j] != p@ by {
        assert(vv(list@)[j] == list@[j]@);
    }
    false
}

/// A copy of `node` with the match flag set to `m`.
fn copy_row(node: &FlatNode, m: bool) -> (r: FlatNode)
    ensures
        r@ == with_match(node@, m),
{
    FlatNode {
        depth: node.depth,
        key: node.key.clone(),
        value: node.value.deep_copy(),
        kind: node.kind,
        path: node.path.clone(),
        collapsed: node.collapsed,
        search_match: m,
        line_number: node.line_number,
    }
}

/// The rows of the whole document.
fn base_rows_exec(root: &JsonValue, collapsed: &PathSet) -> (r: Vec<FlatNode>)
    ensures
        rows_view(r@) == base_rows(root@, collapsed@),
{
    let mut flat: Vec<FlatNode> = Vec::new();
    let empty: Vec<char> = Vec::new();
    match root {
        JsonValue::Object(_) | JsonValue::Array(_) => {
            flatten_value(root, &empty, &empty, 0, collapsed, &mut flat);
            assert(rows_view(flat@) =~= base_rows(root@, collapsed@));
        },
        _ => {
            let row = new_row(root, &empty, &empty, 0, false);
            flat.push(row);
            assert(rows_view(flat@) =~= base_rows(root@, collapsed@));
        },
    }
    flat
}

/// The visible rows for `root`, `collapsed` and `query`.
fn compute_rows(root: &JsonValue, collapsed: &PathSet, query: &String) -> (r: Vec<FlatNode>)
    ensures
        rows_view(r@) == rebuild_spec(root@, collapsed@, query@),
{
    let base = base_rows_exec(root, collapsed);
    let q = chars_of(to_lowercase(query.as_str()).as_str());
    if q.len() == 0 {
        return base;
    }
    let ghost rows = rows_view(base@);
    let n = base.len();
    let mut matched: Vec<Vec<char>> = Vec::new();
    assert(vv(matched@) =~= match_list(rows.take(0), q@));
    for i in 0..n
        invariant
            n == base@.len(),
            rows == rows_view(base@),
            vv(matched@) == match_list(rows.take(i as int), q@),
    {
        assert(rows.take(i + 1).drop_last() =~= rows.take(i as int));
        assert(rows[i as int] == base@[i as int]@);
        let m = row_matches_exec(&base[i], &q);
        if m {
            let pc = chars_of(base[i].path.as_str());
            push_path_and_ancestors(&mut matched, pc);
        }
        assert(vv(matched@) =~= match_list(rows.take(i + 1), q@));
    }
    assert(rows.take(n as int) =~= rows);
    let ghost keep = vv(matched@);
    let mut filtered: Vec<FlatNode> = Vec::new();
    assert(rows_view(filtered@) =~= filter_rows(rows.take(0), keep, q@));
    for i in 0..n
        invariant
            n == base@.len(),
            rows == rows_view(base@),
            keep == vv(matched@),
            rows_view(filtered@) == filter_rows(rows.take(i as int), keep, q@),
    {
        assert(rows.take(i + 1).drop_last() =~= rows.take(i as int));
        assert(rows[i as int] == base@[i as int]@);
        let pc = chars_of(base[i].path.as_str());
        let keep_it = list_contains(&matched, &pc) || pc.len() == 0;
        if keep_it {
            let m = row_matches_exec(&base[i], &q);
            let row = copy_row(&base[i], m);
            let ghost b = rows_view(filtered@);
            filtered.push(row);
            assert(rows_view(filtered@) =~= b.push(with_match(rows[i as int], m)));
        }
        assert(rows_view(filtered@) =~= filter_rows(rows.take(i + 1), keep, q@));
    }
    assert(rows.take(n as int) =~= rows);
    filtered
}


/// Remove `path` and each of its ancestors from `coll`.
fn expand_in(coll: &mut PathSet, path: &str)
    requires
        old(coll).wf(),
    ensures
        final(coll).wf(),
        final(coll)@ == expanded(old(coll)@, path@),
{
    let ghost c0 = coll@;
    let ghost p = path@;
    let pc = chars_of(path);
    coll.remove(&pc);
    let mut current = pc;
    let ghost done: Seq<Seq<char>> = Seq::empty();
    loop
        invariant
            coll.wf(),
            c0 == old(coll)@,
            ancestors(p) == done + ancestors(current@),
            coll@ == Set::new(|x: Seq<char>| c0.contains(x) && x != p && !done.contains(x)),
        ensures
            coll.wf(),
            ancestors(p) == done,
            coll@ == Set::new(|x: Seq<char>| c0.contains(x) && x != p && !done.contains(x)),
        decreases current@.len(),
    {
        proof {
            lemma_split_parent_shorter(current@);
        }
        match split_path_chars(&current) {
            Ok((parent, _)) => {
                if parent.len() == 0 {
                    assert(ancestors(current@) == Seq::<Seq<char>>::empty());
                    assert(done + ancestors(current@) =~= done);
                    break;
                }
                coll.remove(&parent);
                assert(ancestors(current@) == seq![parent@] + ancestors(parent@));
                let ghost done0 = done;
                proof {
                    done = done.push(parent@);
                }
                assert(ancestors(p) =~= done + ancestors(parent@));
                assert forall|x: Seq<char>| done.contains(x) <==> (done0.contains(x) || x == parent@) by {
                    broadcast use vstd::seq_lib::lemma_seq_contains_after_push;
                }
                assert(coll@ =~= Set::new(|x: Seq<char>| c0.contains(x) && x != p && !done.contains(x)));
                current = parent;
            },
            Err(_) => {
                assert(ancestors(current@) == Seq::<Seq<char>>::empty());
                assert(done + ancestors(current@) =~= done);
                break;
            },
        }
    }
    assert(coll@ =~= expanded(c0, p));
}

// ── the tree model ───────────────────────────────────────────────────────────

/// `c` with `p` added if absent, removed if present.
pub open spec fn toggled(c: Set<Seq<char>>, p: Seq<char>) -> Set<Seq<char>> {
    if c.contains(p) {
        c.remove(p)
    } else {
        c.insert(p)
    }
}

/// Collapsing and then expanding a node (or the reverse) restores the
/// collapse state, and so the rows shown.
pub proof fn lemma_toggle_twice(root: JVal, coll: Set<Seq<char>>, query: Seq<char>, p: Seq<char>)
    ensures
        toggled(toggled(coll, p), p) == coll,
        rebuild_spec(root, toggled(toggled(coll, p), p), query) == rebuild_spec(root, coll, query),
{
    assert(toggled(toggled(coll, p), p) =~= coll);
}

/// Two collapse sets that agree on every path but `p`.
pub open spec fn agree_except(c1: Set<Seq<char>>, c2: Set<Seq<char>>, p: Seq<char>) -> bool {
    forall|x: Seq<char>| x != p ==> (c1.contains(x) <==> c2.contains(x))
}

/// No row has path `p`.
pub open spec fn no_path(rows: Seq<NodeV>, p: Seq<char>) -> bool {
    forall|j: int| 0 <= j < rows.len() ==> #[trigger] rows[j].path != p
}

/// A row with its collapsed flag set to `c`.
pub open spec fn with_collapsed(n: NodeV, c: bool) -> NodeV {
    NodeV { collapsed: c, ..n }
}

proof fn lemma_no_path_split(a: Seq<NodeV>, b: Seq<NodeV>, p: Seq<char>)
    requires
        no_path(a + b, p),
    ensures
        no_path(a, p),
        no_path(b, p),
{
    assert forall|j: int| 0 <= j < a.len() implies #[trigger] a[j].path != p by {
        assert((a + b)[j] == a[j]);
    }
    assert forall|j: int| 0 <= j < b.len() implies #[trigger] b[j].path != p by {
        assert((a + b)[a.len() + j] == b[j]);
    }
}

proof fn lemma_flatten_same(
    v: JVal,
    key: Seq<char>,
    parent: Seq<char>,
    depth: int,
    c1: Set<Seq<char>>,
    c2: Set<Seq<char>>,
    p: Seq<char>,
)
    requires
        agree_except(c1, c2, p),
        no_path(flatten(v, key, parent, depth, c1), p),
    ensures
        flatten(v, key, parent, depth, c2) == flatten(v, key, parent, depth, c1),
    decreases v, 1nat, 0nat,
{
    let path = build_path_spec(parent, key);
    let a = flatten(v, key, parent, depth, c1);
    assert(a[0].path == path);
    assert(c1.contains(path) == c2.contains(path));
    if !c1.contains(path) {
        let k1 = flatten_kids(v, path, depth + 1, c1, num_children(v));
        lemma_no_path_split(seq![make_row(v, key, path, depth, false)], k1, p);
        lemma_kids_same(v, path, depth + 1, c1, c2, p, num_children(v));
    }
}

proof fn lemma_kids_same(
    v: JVal,
    path: Seq<char>,
    depth: int,
    c1: Set<Seq<char>>,
    c2: Set<Seq<char>>,
    p: Seq<char>,
    n: nat,
)
    requires
        agree_except(c1, c2, p),
        no_path(flatten_kids(v, path, depth, c1, n), p),
    ensures
        flatten_kids(v, path, depth, c2, n) == flatten_kids(v, path, depth, c1, n),
    decreases v, 0nat, n,
{
    if n > 0 && n <= num_children(v) {
        match v {
            JVal::Object(es) => {
                assert(decreases_to!(v => es[n - 1].1));
            },
            JVal::Array(a) => {
                assert(decreases_to!(v => a[n - 1]));
            },
            _ => {},
        }
        let h1 = flatten_kids(v, path, depth, c1, (n - 1) as nat);
        let f1 = flatten(child_val(v, n - 1), child_key(v, n - 1), path, depth, c1);
        lemma_no_path_split(h1, f1, p);
        lemma_kids_same(v, path, depth, c1, c2, p, (n - 1) as nat);
        lemma_flatten_same(child_val(v, n - 1), child_key(v, n - 1), path, depth, c1, c2, p);
    }
}

proof fn lemma_flatten_prefix(
    v: JVal,
    key: Seq<char>,
    parent: Seq<char>,
    depth: int,
    c1: Set<Seq<char>>,
    c2: Set<Seq<char>>,
    p: Seq<char>,
    i: int,
)
    requires
        agree_except(c1, c2, p),
        0 <= i < flatten(v, key, parent, depth, c1).len(),
        flatten(v, key, parent, depth, c1)[i].path == p,
        no_path(flatten(v, key, parent, depth, c1).take(i), p),
    ensures
        ({
            let a = flatten(v, key, parent, depth, c1);
            let b = flatten(v, key, parent, depth, c2);
            &&& b.len() > i
            &&& b.take(i) == a.take(i)
            &&& a[i].collapsed == c1.contains(p)
            &&& b[i] == with_collapsed(a[i], c2.contains(p))
        }),
    decreases v, 1nat, 0nat,
{
    let path = build_path_spec(parent, key);
    let a = flatten(v, key, parent, depth, c1);
    let b = flatten(v, key, parent, depth, c2);
    if i == 0 {
        assert(a.take(0) =~= b.take(0));
    } else {
        assert(a.take(i)[0] == a[0]);
        assert(a[0].path == path);
        assert(path != p);
        assert(c1.contains(path) == c2.contains(path));
        if c1.contains(path) {
            assert(a.len() == 1);
        }
        let n = num_children(v);
        let k1 = flatten_kids(v, path, depth + 1, c1, n);
        let k2 = flatten_kids(v, path, depth + 1, c2, n);
        let row = make_row(v, key, path, depth, false);
        assert(a == seq![row] + k1);
        assert(b == seq![row] + k2);
        assert(k1[i - 1] == a[i]);
        assert forall|j: int| 0 <= j < k1.take(i - 1).len() implies #[trigger] k1.take(i - 1)[j].path != p by {
            assert(k1.take(i - 1)[j] == a.take(i)[j + 1]);
        }
        lemma_kids_prefix(v, path, depth + 1, c1, c2, p, n, i - 1);
        assert(b.take(i) =~= seq![row] + k2.take(i - 1));
        assert(a.take(i) =~= seq![row] + k1.take(i - 1));
    }
}

proof fn lemma_kids_prefix(
    v: JVal,
    path: Seq<char>,
    depth: int,
    c1: Set<Seq<char>>,
    c2: Set<Seq<char>>,
    p: Seq<char>,
    n: nat,
    i: int,
)
    requires
        agree_except(c1, c2, p),
        0 <= i < flatten_kids(v, path, depth, c1, n).len(),
        flatten_kids(v, path, depth, c1, n)[i].path == p,
        no_path(flatten_kids(v, path, depth, c1, n).take(i), p),
    ensures
        ({
            let a = flatten_kids(v, path, depth, c1, n);
            let b = flatten_kids(v, path, depth, c2, n);
            &&& b.len() > i
            &&& b.take(i) == a.take(i)
            &&& a[i].collapsed == c1.contains(p)
            &&& b[i] == with_collapsed(a[i], c2.contains(p))
        }),
    decreases v, 0nat, n,
{
    match v {
        JVal::Object(es) => {
            if n > 0 && n <= es.len() {
                assert(decreases_to!(v => es[n - 1].1));
            }
        },
        JVal::Array(arr) => {
            if n > 0 && n <= arr.len() {
                assert(decreases_to!(v => arr[n - 1]));
            }
        },
        _ => {},
    }
    let a = flatten_kids(v, path, depth, c1, n);
    let b = flatten_kids(v, path, depth, c2, n);
    let m = (n - 1) as nat;
    let h1 = flatten_kids(v, path, depth, c1, m);
    let h2 = flatten_kids(v, path, depth, c2, m);
    let f1 = flatten(child_val(v, n - 1), child_key(v, n - 1), path, depth, c1);
    let f2 = flatten(child_val(v, n - 1), child_key(v, n - 1), path, depth, c2);
    assert(a == h1 + f1);
    assert(b == h2 + f2);
    if i < h1.len() {
        assert(h1[i] == a[i]);
        assert(h1.take(i) =~= a.take(i));
        lemma_kids_prefix(v, path, depth, c1, c2, p, m, i);
        assert(b.take(i) =~= h2.take(i));
        assert(b[i] == h2[i]);
    } else {
        assert(h1 =~= a.take(i).take(h1.len() as int));
        assert forall|j: int| 0 <= j < h1.len() implies #[trigger] h1[j].path != p by {
            assert(h1[j] == a.take(i)[j]);
        }
        lemma_kids_same(v, path, depth, c1, c2, p, m);
        let i2 = i - h1.len();
        assert(f1[i2] == a[i]);
        assert forall|j: int| 0 <= j < f1.take(i2).len() implies #[trigger] f1.take(i2)[j].path != p by {
            assert(f1.take(i2)[j] == a.take(i)[h1.len() + j]);
        }
        lemma_flatten_prefix(child_val(v, n - 1), child_key(v, n - 1), path, depth, c1, c2, p, i2);
        assert(b.take(i) =~= h2 + f2.take(i2));
        assert(a.take(i) =~= h1 + f1.take(i2));
        assert(b[i] == f2[i2]);
    }
}

/// Toggling a row keeps its place: without a search filter, collapsing or
/// expanding the container at row `i` (the first row with its path)
/// leaves every row before it as it was and the row itself in place,
/// with only its collapsed flag flipped; toggling the row at the same
/// index again then restores the rows (see `lemma_toggle_twice`).  An
/// earlier row with the same path (keys may hold dots) is toggled along
/// with it, and under a filter the rows kept depend on the rows hidden, so
/// in either case the row may move.
pub proof fn lemma_toggle_keeps_place(root: JVal, coll: Set<Seq<char>>, i: int)
    requires
        0 <= i < base_rows(root, coll).len(),
        base_rows(root, coll)[i].kind.spec_is_container(),
        forall|j: int| 0 <= j < i ==> #[trigger] base_rows(root, coll)[j].path != base_rows(root, coll)[i].path,
    ensures
        ({
            let rows = base_rows(root, coll);
            let p = rows[i].path;
            let rows2 = base_rows(root, toggled(coll, p));
            &&& rows2.len() > i
            &&& rows2.take(i) == rows.take(i)
            &&& rows2[i] == with_collapsed(rows[i], !rows[i].collapsed)
            &&& base_rows(root, toggled(toggled(coll, p), p)) == rows
        }),
{
    let rows = base_rows(root, coll);
    let p = rows[i].path;
    let c2 = toggled(coll, p);
    match root {
        JVal::Object(_) | JVal::Array(_) => {
            assert(agree_except(coll, c2, p));
            assert forall|j: int| 0 <= j < rows.take(i).len() implies #[trigger] rows.take(i)[j].path != p by {
                assert(rows.take(i)[j] == rows[j]);
            }
            lemma_flatten_prefix(root, Seq::empty(), Seq::empty(), 0, coll, c2, p, i);
        },
        _ => {
            assert(rows[0].kind == kind_of(root));
        },
    }
    lemma_toggle_twice(root, coll, Seq::empty(), p);
}

/// `c` without `p` and without any ancestor of `p`.
pub open spec fn expanded(c: Set<Seq<char>>, p: Seq<char>) -> Set<Seq<char>> {
    Set::new(|x: Seq<char>| c.contains(x) && x != p && !ancestors(p).contains(x))
}

/// A row with its line number cleared.
pub open spec fn without_line(n: NodeV) -> NodeV {
    NodeV {
        depth: n.depth,
        key: n.key,
        value: n.value,
        kind: n.kind,
        path: n.path,
        collapsed: n.collapsed,
        search_match: n.search_match,
        line_number: None,
    }
}

/// The rows with line numbers cleared.
pub open spec fn strip_lines(rows: Seq<NodeV>) -> Seq<NodeV> {
    rows.map_values(|n: NodeV| without_line(n))
}

/// The row's line number is a result of `f` on (a string holding) its path.
pub open spec fn resolved_by<F: Fn(&str) -> Option<usize>>(f: F, n: NodeV) -> bool {
    exists|p: &str| p@ == n.path && call_ensures(f, (p,), n.line_number)
}

/// Whether a row carries a line number at or before `line`.
pub open spec fn starts_by(n: NodeV, line: usize) -> bool {
    n.line_number matches Some(l) && l <= line
}

/// The top-level tree model.  Wraps the document value and the collapse
/// set, and provides the flat-list view that the UI renders.
#[derive(Debug)]
pub struct JsonTree {
    /// The parsed document.
    pub root: JsonValue,
    /// Paths of nodes that are currently collapsed.
    collapsed: PathSet,
    /// Pre-built flat display list.
    flat: Vec<FlatNode>,
    /// Current search / filter string (empty = no filter).
    search_query: String,
}

impl JsonTree {
    /// The document.
    pub closed spec fn doc(&self) -> JVal {
        self.root@
    }

    /// The collapsed paths.
    pub closed spec fn coll(&self) -> Set<Seq<char>> {
        self.collapsed@
    }

    /// The visible rows.
    pub closed spec fn rows(&self) -> Seq<NodeV> {
        rows_view(self.flat@)
    }

    /// The search query.
    pub closed spec fn query(&self) -> Seq<char> {
        self.search_query@
    }

    /// The collapse set holds each path once.
    pub closed spec fn wf(&self) -> bool {
        self.collapsed.wf()
    }

    /// The rows are those computed from the root, the collapsed set and
    /// the query (line numbers aside).
    pub open spec fn fresh(&self) -> bool {
        strip_lines(self.rows()) == rebuild_spec(self.doc(), self.coll(), self.query())
    }

    /// Construct a tree from a value, importing the collapse state
    /// `previous_collapsed`.
    pub fn from_value(value: JsonValue, previous_collapsed: PathSet) -> (r: JsonTree)
        requires
            previous_collapsed.wf(),
        ensures
            r.wf(),
            r.doc() == value@,
            r.coll() == previous_collapsed@,
            r.query() == Seq::<char>::empty(),
            r.rows() == rebuild_spec(value@, previous_collapsed@, Seq::empty()),
    {
        let query = String::new();
        let flat = compute_rows(&value, &previous_collapsed, &query);
        JsonTree { root: value, collapsed: previous_collapsed, flat, search_query: query }
    }
}


impl JsonTree {
    /// The document value.
    pub fn root(&self) -> (r: &JsonValue)
        ensures
            r@ == self.doc(),
    {
        &self.root
    }

    /// A copy of the set of collapsed paths, to hand to the next tree
    /// built after a text change.
    pub fn take_collapsed(&self) -> (r: PathSet)
        requires
            self.wf(),
        ensures
            r.wf(),
            r@ == self.coll(),
    {
        self.collapsed.duplicate()
    }

    /// Number of visible rows (after filtering and respecting collapse).
    pub fn visible_node_count(&self) -> (r: usize)
        ensures
            r == self.rows().len(),
    {
        self.flat.len()
    }

    /// The visible rows.
    pub fn flat_nodes(&self) -> (r: &[FlatNode])
        ensures
            rows_view(r@) == self.rows(),
    {
        self.flat.as_slice()
    }

    /// The current search query.
    pub fn search_query(&self) -> (r: &str)
        ensures
            r@ == self.query(),
    {
        self.search_query.as_str()
    }

    /// Recompute the rows.
    fn rebuild_flat(&mut self)
        requires
            old(self).wf(),
        ensures
            final(self).wf(),
            final(self).doc() == old(self).doc(),
            final(self).coll() == old(self).coll(),
            final(self).query() == old(self).query(),
            final(self).rows() == rebuild_spec(old(self).doc(), old(self).coll(), old(self).query()),
    {
        let flat = compute_rows(&self.root, &self.collapsed, &self.search_query);
        self.flat = flat;
    }

    /// Toggle collapse/expand of the row at `idx`.  Returns `true` if the
    /// row is a container (the operation was meaningful); otherwise nothing
    /// changes.
    pub fn toggle_collapse(&mut self, idx: usize) -> (r: bool)
        requires
            old(self).wf(),
        ensures
            final(self).wf(),
            final(self).doc() == old(self).doc(),
            final(self).query() == old(self).query(),
            r == (idx < old(self).rows().len() && old(self).rows()[idx as int].kind.spec_is_container()),
            r ==> final(self).coll() == toggled(old(self).coll(), old(self).rows()[idx as int].path),
            r ==> final(self).rows() == rebuild_spec(final(self).doc(), final(self).coll(), final(self).query()),
            !r ==> *final(self) == *old(self),
            r && old(self).fresh() && old(self).query().len() == 0 && (forall|j: int|
                0 <= j < idx ==> #[trigger] old(self).rows()[j].path != old(self).rows()[idx as int].path) ==> {
                &&& idx < final(self).rows().len()
                &&& final(self).rows()[idx as int].path == old(self).rows()[idx as int].path
                &&& final(self).rows()[idx as int].kind == old(self).rows()[idx as int].kind
                &&& forall|j: int|
                    0 <= j < idx ==> #[trigger] final(self).rows()[j].path != final(self).rows()[idx as int].path
            },
    {
        proof {
            let rows = self.rows();
            if idx < rows.len() && self.fresh() && self.query().len() == 0 && rows[idx as int].kind.spec_is_container()
                && (forall|j: int| 0 <= j < idx ==> #[trigger] rows[j].path != rows[idx as int].path) {
                let e: Seq<char> = Seq::empty();
                assert(lowercase_spec(e) =~= e) by {
                    assert(is_ascii_text(e));
                }
                let base = base_rows(self.doc(), self.coll());
                assert(strip_lines(rows) == base);
                assert forall|j: int| 0 <= j < rows.len() implies #[trigger] base[j].path == rows[j].path
                    && base[j].kind == rows[j].kind by {
                    assert(base[j] == without_line(rows[j]));
                }
                assert forall|j: int| 0 <= j < idx implies #[trigger] base[j].path != base[idx as int].path by {
                    assert(base[j].path == rows[j].path);
                }
                lemma_toggle_keeps_place(self.doc(), self.coll(), idx as int);
                let rows2 = base_rows(self.doc(), toggled(self.coll(), rows[idx as int].path));
                assert(rebuild_spec(self.doc(), toggled(self.coll(), rows[idx as int].path), e) == rows2);
                assert forall|j: int| 0 <= j < idx implies #[trigger] rows2[j].path != rows2[idx as int].path by {
                    assert(rows2.take(idx as int)[j] == rows2[j]);
                    assert(base.take(idx as int)[j] == base[j]);
                }
            }
        }
        if idx >= self.flat.len() {
            return false;
        }
        assert(self.rows()[idx as int] == self.flat@[idx as int]@);
        if !self.flat[idx].kind.is_container() {
            return false;
        }
        let path = chars_of(self.flat[idx].path.as_str());
        if self.collapsed.contains(&path) {
            self.collapsed.remove(&path);
        } else {
            self.collapsed.insert(string_of(path.as_slice()));
        }
        self.rebuild_flat();
        true
    }

    /// Set the search query and recompute the rows.
    pub fn set_search(&mut self, query: &str)
        requires
            old(self).wf(),
        ensures
            final(self).wf(),
            final(self).doc() == old(self).doc(),
            final(self).coll() == old(self).coll(),
            final(self).query() == query@,
            final(self).rows() == rebuild_spec(final(self).doc(), final(self).coll(), query@),
            old(self).fresh() && old(self).query().len() == 0 && lowercase_spec(query@).len() > 0 ==> final(self).rows()
                == strip_lines(old(self).rows()).filter_map(
                |n: NodeV|
                    kept_row(
                        n,
                        |p: Seq<char>| on_match_path(strip_lines(old(self).rows()), lowercase_spec(query@), p),
                        lowercase_spec(query@),
                    ),
            ),
    {
        proof {
            if self.fresh() && self.query().len() == 0 && lowercase_spec(query@).len() > 0 {
                let e: Seq<char> = Seq::empty();
                assert(lowercase_spec(e) =~= e) by {
                    assert(is_ascii_text(e));
                }
                assert(strip_lines(self.rows()) == base_rows(self.doc(), self.coll()));
                lemma_search_keeps_order(self.doc(), self.coll(), query@);
            }
        }
        self.search_query = string_of(chars_of(query).as_slice());
        self.rebuild_flat();
    }

    /// Clear the search query and recompute the rows.
    pub fn clear_search(&mut self)
        requires
            old(self).wf(),
        ensures
            final(self).wf(),
            final(self).doc() == old(self).doc(),
            final(self).coll() == old(self).coll(),
            final(self).query() == Seq::<char>::empty(),
            final(self).rows() == rebuild_spec(final(self).doc(), final(self).coll(), Seq::empty()),
    {
        self.search_query = String::new();
        self.rebuild_flat();
    }

    /// Expand every collapsed ancestor of `path` (and `path` itself) so
    /// that the node becomes visible, then recompute the rows.
    pub fn expand_to_path(&mut self, path: &str)
        requires
            old(self).wf(),
        ensures
            final(self).wf(),
            final(self).doc() == old(self).doc(),
            final(self).query() == old(self).query(),
            final(self).coll() == expanded(old(self).coll(), path@),
            final(self).rows() == rebuild_spec(final(self).doc(), final(self).coll(), final(self).query()),
    {
        expand_in(&mut self.collapsed, path);
        self.rebuild_flat();
    }

    /// The index of the first row whose path is `path`, if visible.
    pub fn index_of_path(&self, path: &str) -> (r: Option<usize>)
        ensures
            match r {
                Some(i) => i < self.rows().len() && self.rows()[i as int].path == path@ && forall|j: int|
                    0 <= j < i ==> self.rows()[j].path != path@,
                None => forall|j: int| 0 <= j < self.rows().len() ==> self.rows()[j].path != path@,
            },
    {
        let pc = chars_of(path);
        let n = self.flat.len();
        for i in 0..n
            invariant
                n == self.flat@.len(),
                self.rows() == rows_view(self.flat@),
                pc@ == path@,
                forall|j: int| 0 <= j < i ==> self.rows()[j].path != pc@,
        {
            let c = chars_of(self.flat[i].path.as_str());
            assert(self.rows()[i as int] == self.flat@[i as int]@);
            if chars_eq(&c, &pc) {
                return Some(i);
            }
        }
        None
    }

    /// Set the line number of every row to `resolve` applied to its path.
    pub fn sync_line_numbers<F: Fn(&str) -> Option<usize>>(&mut self, resolve: F)
        requires
            forall|p: &str| call_requires(resolve, (p,)),
        ensures
            final(self).wf() == old(self).wf(),
            final(self).doc() == old(self).doc(),
            final(self).coll() == old(self).coll(),
            final(self).query() == old(self).query(),
            final(self).rows().len() == old(self).rows().len(),
            strip_lines(final(self).rows()) == strip_lines(old(self).rows()),
            forall|i: int|
                0 <= i < final(self).rows().len() ==> resolved_by(resolve, #[trigger] final(self).rows()[i]),
    {
        let n = self.flat.len();
        let mut i: usize = 0;
        while i < n
            invariant
                i <= n,
                n == self.flat@.len(),
                self.collapsed == old(self).collapsed,
                self.root == old(self).root,
                self.search_query == old(self).search_query,
                forall|p: &str| call_requires(resolve, (p,)),
                strip_lines(self.rows()) == strip_lines(old(self).rows()),
                self.rows().len() == old(self).rows().len(),
                forall|j: int| 0 <= j < i ==> resolved_by(resolve, #[trigger] self.rows()[j]),
            decreases n - i,
        {
            let ghost prev = self.flat@;
            let ps = self.flat[i].path.as_str();
            let line = resolve(ps);
            let ghost w: &str = ps;
            let mut row = self.flat.remove(i);
            row.line_number = line;
            let ghost rowv = row;
            self.flat.insert(i, row);
            assert(self.flat@ =~= prev.update(i as int, rowv));
            assert(strip_lines(self.rows()) =~= strip_lines(old(self).rows()));
            assert forall|j: int| 0 <= j < i + 1 implies resolved_by(resolve, #[trigger] self.rows()[j]) by {
                if j == i {
                    assert(self.rows()[j] == rowv@);
                    assert(w@ == self.rows()[j].path);
                    assert(call_ensures(resolve, (w,), self.rows()[j].line_number));
                } else {
                    assert(self.rows()[j] == rows_view(prev)[j]);
                }
            }
            i = i + 1;
        }
        assert(self.rows().len() == n);
        assert forall|k: int| 0 <= k < self.rows().len() implies resolved_by(resolve, #[trigger] self.rows()[k]) by {
            assert(k < i);
        }
    }

    /// The index of the row that "owns" `cursor_line`: the row whose line
    /// number is the largest one at or before the cursor (the last such row
    /// on a tie).  `None` when no row has such a line number.
    pub fn find_node_at_line(&self, cursor_line: usize) -> (r: Option<usize>)
        ensures
            match r {
                Some(i) => i < self.rows().len() && starts_by(self.rows()[i as int], cursor_line)
                    && forall|j: int|
                    0 <= j < self.rows().len() && #[trigger] starts_by(self.rows()[j], cursor_line) ==> (
                    self.rows()[j].line_number->0 < self.rows()[i as int].line_number->0 || (
                    self.rows()[j].line_number->0 == self.rows()[i as int].line_number->0 && j
                    <= i)),
                None => forall|j: int|
                    0 <= j < self.rows().len() ==> !starts_by(#[trigger] self.rows()[j], cursor_line),
            },
    {
        let mut best_idx: Option<usize> = None;
        let mut best_line: usize = 0;
        let n = self.flat.len();
        for i in 0..n
            invariant
                n == self.flat@.len(),
                self.rows() == rows_view(self.flat@),
                match best_idx {
                    Some(b) => b < i && starts_by(self.rows()[b as int], cursor_line)
                        && self.rows()[b as int].line_number == Some(best_line) && forall|j: int|
                        0 <= j < i && #[trigger] starts_by(self.rows()[j], cursor_line) ==> (
                        self.rows()[j].line_number->0 < best_line || (
                        self.rows()[j].line_number->0 == best_line && j <= b)),
                    None => forall|j: int|
                        0 <= j < i ==> !starts_by(#[trigger] self.rows()[j], cursor_line),
                },
        {
            assert(self.rows()[i as int] == self.flat@[i as int]@);
            if let Some(line) = self.flat[i].line_number {
                if line <= cursor_line && (best_idx.is_none() || line >= best_line) {
                    best_line = line;
                    best_idx = Some(i);
                }
            }
        }
        best_idx
    }

    /// Replace the document, keeping the collapsed set, and recompute the
    /// rows.
    pub fn update_value(&mut self, new_value: JsonValue)
        requires
            old(self).wf(),
        ensures
            final(self).wf(),
            final(self).doc() == new_value@,
            final(self).coll() == old(self).coll(),
            final(self).query() == old(self).query(),
            final(self).rows() == rebuild_spec(new_value@, final(self).coll(), final(self).query()),
    {
        self.root = new_value;
        self.rebuild_flat();
    }

    /// Replace the node at `path` (the whole document for `""`) and
    /// recompute the rows; on error nothing changes.
    pub fn set_value_at_path(&mut self, path: &str, new_value: JsonValue) -> (r: Result<(), String>)
        requires
            old(self).wf(),
        ensures
            final(self).wf(),
            final(self).coll() == old(self).coll(),
            final(self).query() == old(self).query(),
            match set_value_spec(old(self).doc(), path@, new_value@) {
                Ok(nr) => r is Ok && final(self).doc() == nr && final(self).rows() == rebuild_spec(
                    nr,
                    final(self).coll(),
                    final(self).query(),
                ),
                Err(e) => r matches Err(m) && m@ == e && *final(self) == *old(self),
            },
    {
        let (nr, res) = set_value(self.root.deep_copy(), path, new_value);
        if res.is_ok() {
            self.root = nr;
            self.rebuild_flat();
        }
        res
    }

    /// Like `set_value_at_path` but leaves the rows as they were; call
    /// `rebuild` after a batch of these.
    pub fn set_value_at_path_no_rebuild(&mut self, path: &str, new_value: JsonValue) -> (r: Result<(), String>)
        requires
            old(self).wf(),
        ensures
            final(self).wf(),
            final(self).coll() == old(self).coll(),
            final(self).query() == old(self).query(),
            final(self).rows() == old(self).rows(),
            match set_value_spec(old(self).doc(), path@, new_value@) {
                Ok(nr) => r is Ok && final(self).doc() == nr,
                Err(e) => r matches Err(m) && m@ == e && final(self).doc() == old(self).doc(),
            },
    {
        let mut root = JsonValue::Null;
        std::mem::swap(&mut root, &mut self.root);
        let (nr, res) = set_value(root, path, new_value);
        self.root = nr;
        res
    }

    /// Recompute the rows (after a batch of `set_value_at_path_no_rebuild`).
    pub fn rebuild(&mut self)
        requires
            old(self).wf(),
        ensures
            final(self).wf(),
            final(self).doc() == old(self).doc(),
            final(self).coll() == old(self).coll(),
            final(self).query() == old(self).query(),
            final(self).rows() == rebuild_spec(final(self).doc(), final(self).coll(), final(self).query()),
    {
        self.rebuild_flat();
    }

    /// Delete the node at `path`, forget its collapse state, and recompute
    /// the rows; on error nothing changes.
    pub fn delete_at_path(&mut self, path: &str) -> (r: Result<(), String>)
        requires
            old(self).wf(),
        ensures
            final(self).wf(),
            final(self).query() == old(self).query(),
            match delete_value_spec(old(self).doc(), path@) {
                Ok(nr) => r is Ok && final(self).doc() == nr && final(self).coll() == old(self).coll().remove(path@)
                    && final(self).rows() == rebuild_spec(nr, final(self).coll(), final(self).query()),
                Err(e) => r matches Err(m) && m@ == e && *final(self) == *old(self),
            },
    {
        let (nr, res) = delete_value(self.root.deep_copy(), path);
        if res.is_err() {
            return res;
        }
        self.root = nr;
        self.collapsed.remove_str(path);
        self.rebuild_flat();
        res
    }

    /// Add a key/value pair to the object at `parent_path` (or push the
    /// value onto the array there) and recompute the rows; on error nothing
    /// changes.
    pub fn add_key(&mut self, parent_path: &str, key: String, value: JsonValue) -> (r: Result<(), String>)
        requires
            old(self).wf(),
        ensures
            final(self).wf(),
            final(self).coll() == old(self).coll(),
            final(self).query() == old(self).query(),
            match add_key_spec(old(self).doc(), parent_path@, key@, value@) {
                Ok(nr) => r is Ok && final(self).doc() == nr && final(self).rows() == rebuild_spec(
                    nr,
                    final(self).coll(),
                    final(self).query(),
                ),
                Err(e) => r matches Err(m) && m@ == e && *final(self) == *old(self),
            },
    {
        let (nr, res) = add_key_value(self.root.deep_copy(), parent_path, key, value);
        if res.is_ok() {
            self.root = nr;
            self.rebuild_flat();
        }
        res
    }

    /// Rename the key of the member at `path` to `new_key` and recompute
    /// the rows; on error nothing changes.
    pub fn rename_key_at_path(&mut self, path: &str, new_key: String) -> (r: Result<(), String>)
        requires
            old(self).wf(),
        ensures
            final(self).wf(),
            final(self).coll() == old(self).coll(),
            final(self).query() == old(self).query(),
            match rename_spec(old(self).doc(), path@, new_key@) {
                Ok(nr) => r is Ok && final(self).doc() == nr && final(self).rows() == rebuild_spec(
                    nr,
                    final(self).coll(),
                    final(self).query(),
                ),
                Err(e) => r matches Err(m) && m@ == e && *final(self) == *old(self),
            },
    {
        let (nr, res) = rename_key(self.root.deep_copy(), path, new_key);
        if res.is_ok() {
            self.root = nr;
            self.rebuild_flat();
        }
        res
    }

    /// The index of the first row that matches the search query.
    pub fn first_search_match(&self) -> (r: Option<usize>)
        ensures
            match r {
                Some(i) => i < self.rows().len() && self.rows()[i as int].search_match && forall|j: int|
                    0 <= j < i ==> !self.rows()[j].search_match,
                None => forall|j: int| 0 <= j < self.rows().len() ==> !self.rows()[j].search_match,
            },
    {
        let n = self.flat.len();
        for i in 0..n
            invariant
                n == self.flat@.len(),
                self.rows() == rows_view(self.flat@),
                forall|j: int| 0 <= j < i ==> !self.rows()[j].search_match,
        {
            assert(self.rows()[i as int] == self.flat@[i as int]@);
            if self.flat[i].search_match {
                return Some(i);
            }
        }
        None
    }
}

} // verus!
