//! What the screen shows, as data: styled text segments for the tree rows,
//! the status bar, the about screen and the file picker, and the token
//! colouring of a line of JSON.  Drawing them is the caller's business.
use vstd::prelude::*;
use crate::text::{chars_of, decimal, is_index_text, push_all, push_str, string_of, trim_start_seq, usize_to_chars};
use crate::format::spaces;
use crate::tree::{FlatNode, NodeKind, NodeV, display_spec};
use crate::state::{AppState, FileEntry, Focus, Mode, TreeEditKind};
use crate::format::{FileFormat, format_for_extension, path_extension_spec};
use crate::text::lowercase_spec;

verus! {

/// A colour of the palette (ANSI-16, so terminal themes apply).
#[derive(Debug, Clone, Copy, PartialEq, Eq, Structural)]
pub enum Tint {
    /// No colour set.
    Default,
    /// The terminal's reset colour.
    Reset,
    Yellow,
    Cyan,
    Green,
    Magenta,
    Red,
    White,
    DarkGray,
}

/// Object keys.
pub const KEY_TINT: Tint = Tint::Yellow;
/// Array indices.
pub const INDEX_TINT: Tint = Tint::Cyan;
/// String values.
pub const STRING_TINT: Tint = Tint::Green;
/// Numbers.
pub const NUMBER_TINT: Tint = Tint::Cyan;
/// Booleans.
pub const BOOL_TINT: Tint = Tint::Magenta;
/// Null.
pub const NULL_TINT: Tint = Tint::Magenta;
/// Errors.
pub const ERROR_TINT: Tint = Tint::Red;
/// Search matches.
pub const MATCH_TINT: Tint = Tint::Yellow;
/// Brackets and punctuation.
pub const BRACKET_TINT: Tint = Tint::White;
/// Type hints.
pub const HINT_TINT: Tint = Tint::DarkGray;

/// A piece of text in one style.
#[derive(Debug)]
pub struct Segment {
    pub text: String,
    pub tint: Tint,
    pub bold: bool,
}

/// The view of a segment.
pub struct SegV {
    pub text: Seq<char>,
    pub tint: Tint,
    pub bold: bool,
}

impl View for Segment {
    type V = SegV;

    open spec fn view(&self) -> SegV {
        SegV { text: self.text@, tint: self.tint, bold: self.bold }
    }
}

/// The views of a list of segments.
pub open spec fn segs_view(s: Seq<Segment>) -> Seq<SegV> {
    s.map_values(|x: Segment| x@)
}

/// A segment view.
pub open spec fn seg(text: Seq<char>, tint: Tint, bold: bool) -> SegV {
    SegV { text, tint, bold }
}

/// Append a segment to `out`.
fn push_seg(out: &mut Vec<Segment>, text: Vec<char>, tint: Tint, bold: bool)
    ensures
        segs_view(final(out)@) == segs_view(old(out)@).push(seg(text@, tint, bold)),
{
    let ghost before = out@;
    out.push(Segment { text: string_of(text.as_slice()), tint, bold });
    assert(segs_view(out@) =~= segs_view(before).push(seg(text@, tint, bold)));
}

// ── JSON line highlighting ───────────────────────────────────────────────────

/// Where a string literal that opened before position `k` ends (just past
/// its closing quote, or at the end of the line), with `escaped` telling
/// whether the previous character was an unescaped backslash.
pub open spec fn string_end(s: Seq<char>, k: nat, escaped: bool) -> nat
    decreases s.len() - k,
{
    if k >= s.len() {
        s.len()
    } else if escaped {
        string_end(s, k + 1, false)
    } else if s[k as int] == '\\' {
        string_end(s, k + 1, true)
    } else if s[k as int] == '"' {
        k + 1
    } else {
        string_end(s, k + 1, false)
    }
}

/// Characters that continue a number.
pub open spec fn number_char(c: char) -> bool {
    ('0' <= c && c <= '9') || c == '.' || c == 'e' || c == 'E' || c == '+' || c == '-'
}

/// Where the run of characters from `k` satisfying `number_char` ends.
pub open spec fn number_end(s: Seq<char>, k: nat) -> nat
    decreases s.len() - k,
{
    if k < s.len() && number_char(s[k as int]) {
        number_end(s, k + 1)
    } else {
        k
    }
}

/// What `char::is_alphabetic` says of `c` (the Unicode `Alphabetic`
/// property).
pub uninterp spec fn unicode_alphabetic(c: char) -> bool;

/// Whether `c` is an ASCII letter.
pub open spec fn ascii_letter(c: char) -> bool {
    ('a' <= c && c <= 'z') || ('A' <= c && c <= 'Z')
}

/// Whether `c` is alphabetic: for an ASCII character, whether it is a
/// letter; otherwise the Unicode `Alphabetic` property.
pub open spec fn alphabetic_spec(c: char) -> bool {
    if (c as u32) < 128 {
        ascii_letter(c)
    } else {
        unicode_alphabetic(c)
    }
}

/// `char::is_alphabetic`.  The contract ties the result to the argument
/// through `unicode_alphabetic`, and states what the property is on ASCII:
/// exactly the letters `a` to `z` and `A` to `Z`.  The Unicode tables
/// beyond ASCII are not restated.
#[verifier::external_body]
fn is_alphabetic(c: char) -> (r: bool)
    ensures
        r == unicode_alphabetic(c),
        (c as u32) < 128 ==> (r <==> ascii_letter(c)),
{
    c.is_alphabetic()
}

/// Where the run of alphabetic characters from `k` ends.
pub open spec fn word_end(s: Seq<char>, k: nat) -> nat
    decreases s.len() - k,
{
    if k < s.len() && alphabetic_spec(s[k as int]) {
        word_end(s, k + 1)
    } else {
        k
    }
}

/// The colour of a keyword.
pub open spec fn keyword_tint(w: Seq<char>) -> Tint {
    if w == "true"@ || w == "false"@ {
        BOOL_TINT
    } else if w == "null"@ {
        NULL_TINT
    } else {
        Tint::Reset
    }
}

/// The segments of line `s` from position `i`: a space or tab becomes one
/// plain space; a string literal is a key (yellow) when the next
/// non-blank character after it is `:`, else a string (green); a number
/// run is cyan; a word starting with `t`, `f` or `n` is coloured as a
/// keyword; `{ } [ ] : ,` are white; anything else is plain.
pub open spec fn tokens_from(s: Seq<char>, i: nat) -> Seq<SegV>
    decreases s.len() - i,
{
    if i >= s.len() {
        Seq::empty()
    } else {
        let c = s[i as int];
        if c == ' ' || c == '\t' {
            seq![seg(seq![' '], Tint::Default, false)] + tokens_from(s, i + 1)
        } else if c == '"' {
            let j = string_end(s, i + 1, false);
            proof {
                lemma_string_end_bounds(s, i + 1, false);
            }
            if j <= i {
                Seq::empty()
            } else {
                let is_key = starts_with_colon(trim_start_seq(s.skip(j as int)));
                seq![seg(s.subrange(i as int, j as int), if is_key {
                    KEY_TINT
                } else {
                    STRING_TINT
                }, false)] + tokens_from(s, j)
            }
        } else if c == '-' || ('0' <= c && c <= '9') {
            let j = number_end(s, i);
            proof {
                lemma_number_end_bounds(s, i);
            }
            if j <= i {
                Seq::empty()
            } else {
                seq![seg(s.subrange(i as int, j as int), NUMBER_TINT, false)] + tokens_from(s, j)
            }
        } else if c == 't' || c == 'f' || c == 'n' {
            let j = word_end(s, i);
            proof {
                lemma_word_end_bounds(s, i);
            }
            if j <= i {
                Seq::empty()
            } else {
                let w = s.subrange(i as int, j as int);
                seq![seg(w, keyword_tint(w), false)] + tokens_from(s, j)
            }
        } else if c == '{' || c == '}' || c == '[' || c == ']' || c == ':' || c == ',' {
            seq![seg(seq![c], BRACKET_TINT, false)] + tokens_from(s, i + 1)
        } else {
            seq![seg(seq![c], Tint::Default, false)] + tokens_from(s, i + 1)
        }
    }
}

/// Whether `s` starts with `:`.
pub open spec fn starts_with_colon(s: Seq<char>) -> bool {
    s.len() > 0 && s[0] == ':'
}

/// `string_end` moves forward and stays within the line.
pub proof fn lemma_string_end_bounds(s: Seq<char>, k: nat, escaped: bool)
    ensures
        k <= s.len() ==> k <= string_end(s, k, escaped) <= s.len(),
        k > s.len() ==> string_end(s, k, escaped) == s.len(),
    decreases s.len() - k,
{
    if k < s.len() {
        lemma_string_end_bounds(s, k + 1, false);
        lemma_string_end_bounds(s, k + 1, true);
    }
}

/// `number_end` moves forward and stays within the line.
pub proof fn lemma_number_end_bounds(s: Seq<char>, k: nat)
    ensures
        k <= s.len() ==> k <= number_end(s, k) <= s.len(),
    decreases s.len() - k,
{
    if k < s.len() {
        lemma_number_end_bounds(s, k + 1);
    }
}

/// `word_end` moves forward and stays within the line.
pub proof fn lemma_word_end_bounds(s: Seq<char>, k: nat)
    ensures
        k <= s.len() ==> k <= word_end(s, k) <= s.len(),
    decreases s.len() - k,
{
    if k < s.len() {
        lemma_word_end_bounds(s, k + 1);
    }
}

/// Whether `w` is `word`.
fn chars_are(w: &Vec<char>, word: &str) -> (r: bool)
    ensures
        r == (w@ == word@),
{
    crate::text::chars_eq(w, &chars_of(word))
}

/// Colour one line of JSON text by token (see `tokens_from`).
pub fn highlight_json_line(raw_line: &str) -> (r: Vec<Segment>)
    ensures
        segs_view(r@) == tokens_from(raw_line@, 0),
{
    let s = chars_of(raw_line);
    let n = s.len();
    let mut out: Vec<Segment> = Vec::new();
    let mut i: usize = 0;
    while i < n
        invariant
            i <= n,
            n == s@.len(),
            s@ == raw_line@,
            segs_view(out@) + tokens_from(s@, i as nat) == tokens_from(s@, 0),
        decreases n - i,
    {
        let c = s[i];
        let ghost rest = tokens_from(s@, i as nat);
        if c == ' ' || c == '\t' {
            let mut t: Vec<char> = Vec::new();
            t.push(' ');
            let ghost o = segs_view(out@);
            push_seg(&mut out, t, Tint::Default, false);
            assert(segs_view(out@) + tokens_from(s@, (i + 1) as nat) =~= o + rest);
            i = i + 1;
        } else if c == '"' {
            let mut j = i + 1;
            let mut escaped = false;
            let mut closed = false;
            proof {
                lemma_string_end_bounds(s@, (i + 1) as nat, false);
            }
            while j < n && !closed
                invariant
                    i < j <= n,
                    n == s@.len(),
                    !closed ==> string_end(s@, j as nat, escaped) == string_end(s@, (i + 1) as nat, false),
                    closed ==> j == string_end(s@, (i + 1) as nat, false),
                decreases n - j,
            {
                let ch = s[j];
                if escaped {
                    escaped = false;
                } else if ch == '\\' {
                    escaped = true;
                } else if ch == '"' {
                    closed = true;
                }
                j = j + 1;
            }
            proof {
                if !closed {
                    lemma_string_end_bounds(s@, j as nat, escaped);
                }
            }
            let lit = crate::text::sub_chars(&s, i, j);
            let after = crate::text::sub_chars(&s, j, n);
            assert(after@ =~= s@.skip(j as int));
            let tr = crate::text::trim_start_chars(&after);
            let is_key = tr.len() > 0 && tr[0] == ':';
            let ghost o = segs_view(out@);
            push_seg(&mut out, lit, if is_key {
                KEY_TINT
            } else {
                STRING_TINT
            }, false);
            assert(segs_view(out@) + tokens_from(s@, j as nat) =~= o + rest);
            i = j;
        } else if c == '-' || ('0' <= c && c <= '9') {
            let mut j = i;
            while j < n && (('0' <= s[j] && s[j] <= '9') || s[j] == '.' || s[j] == 'e' || s[j] == 'E'
                || s[j] == '+' || s[j] == '-')
                invariant
                    i <= j <= n,
                    n == s@.len(),
                    number_end(s@, j as nat) == number_end(s@, i as nat),
                decreases n - j,
            {
                j = j + 1;
            }
            proof {
                lemma_number_end_bounds(s@, i as nat);
            }
            let lit = crate::text::sub_chars(&s, i, j);
            let ghost o = segs_view(out@);
            push_seg(&mut out, lit, NUMBER_TINT, false);
            assert(segs_view(out@) + tokens_from(s@, j as nat) =~= o + rest);
            i = j;
        } else if c == 't' || c == 'f' || c == 'n' {
            let mut j = i;
            while j < n && is_alphabetic(s[j])
                invariant
                    i <= j <= n,
                    n == s@.len(),
                    word_end(s@, j as nat) == word_end(s@, i as nat),
                decreases n - j,
            {
                j = j + 1;
            }
            proof {
                lemma_word_end_bounds(s@, i as nat);
            }
            let w = crate::text::sub_chars(&s, i, j);
            let tint = if chars_are(&w, "true") || chars_are(&w, "false") {
                BOOL_TINT
            } else if chars_are(&w, "null") {
                NULL_TINT
            } else {
                Tint::Reset
            };
            let ghost o = segs_view(out@);
            push_seg(&mut out, w, tint, false);
            assert(segs_view(out@) + tokens_from(s@, j as nat) =~= o + rest);
            i = j;
        } else if c == '{' || c == '}' || c == '[' || c == ']' || c == ':' || c == ',' {
            let mut t: Vec<char> = Vec::new();
            t.push(c);
            let ghost o = segs_view(out@);
            push_seg(&mut out, t, BRACKET_TINT, false);
            assert(segs_view(out@) + tokens_from(s@, (i + 1) as nat) =~= o + rest);
            i = i + 1;
        } else {
            let mut t: Vec<char> = Vec::new();
            t.push(c);
            let ghost o = segs_view(out@);
            push_seg(&mut out, t, Tint::Default, false);
            assert(segs_view(out@) + tokens_from(s@, (i + 1) as nat) =~= o + rest);
            i = i + 1;
        }
    }
    assert(segs_view(out@) =~= tokens_from(s@, 0));
    out
}

// ── tree rows ────────────────────────────────────────────────────────────────

/// `singular` for a count of one, else `plural`.
pub open spec fn noun(n: usize, singular: Seq<char>, plural: Seq<char>) -> Seq<char> {
    if n == 1 {
        singular
    } else {
        plural
    }
}

/// The value part of a tree row: the display text in the value's colour;
/// a collapsed container shows its size (`{ 3 keys }`, `[ 1 item ]`), an
/// expanded one its opening bracket.
pub open spec fn value_seg(n: NodeV) -> SegV {
    match n.kind {
        NodeKind::String => seg(display_spec(n), STRING_TINT, false),
        NodeKind::Number => seg(display_spec(n), NUMBER_TINT, false),
        NodeKind::Bool => seg(display_spec(n), BOOL_TINT, false),
        NodeKind::Null => seg(display_spec(n), NULL_TINT, false),
        NodeKind::Object { child_count } => seg(if n.collapsed {
            "{ "@ + decimal(child_count as nat) + seq![' '] + noun(child_count, "key"@, "keys"@) + " }"@
        } else {
            seq!['{']
        }, BRACKET_TINT, false),
        NodeKind::Array { child_count } => seg(if n.collapsed {
            "[ "@ + decimal(child_count as nat) + seq![' '] + noun(child_count, "item"@, "items"@) + " ]"@
        } else {
            seq!['[']
        }, BRACKET_TINT, false),
    }
}

/// The size hint after an expanded container (`(3 keys)`), dim.
pub open spec fn hint_seg(n: NodeV) -> SegV {
    match n.kind {
        NodeKind::Object { child_count } if !n.collapsed => seg(
            " ("@ + decimal(child_count as nat) + seq![' '] + noun(child_count, "key"@, "keys"@) + seq![')'],
            HINT_TINT,
            false,
        ),
        NodeKind::Array { child_count } if !n.collapsed => seg(
            " ("@ + decimal(child_count as nat) + seq![' '] + noun(child_count, "item"@, "items"@) + seq![')'],
            HINT_TINT,
            false,
        ),
        _ => seg(Seq::empty(), Tint::Default, false),
    }
}

/// The key part of a tree row: `(root)` for the root; an array index as
/// `[i]` in its own colour; a search match highlighted in bold.
pub open spec fn key_seg(n: NodeV) -> SegV {
    let index = n.key.len() > 0 && is_index_text(n.key);
    let shown = if index {
        seq!['['] + n.key + seq![']']
    } else {
        n.key
    };
    if n.key.len() == 0 {
        seg("(root)"@, Tint::Default, false)
    } else if n.search_match {
        seg(shown, MATCH_TINT, true)
    } else {
        seg(shown, if index {
            INDEX_TINT
        } else {
            KEY_TINT
        }, false)
    }
}

/// The segments of a tree row: indentation (two spaces per level), the
/// collapse indicator (`▶ ` collapsed, `▼ ` expanded, blank for a leaf),
/// the key, `: ` (not for the root), the value and the size hint.
pub open spec fn tree_item_spec(n: NodeV) -> Seq<SegV> {
    seq![
        seg(spaces((2 * n.depth) as nat), Tint::Default, false),
        seg(if n.kind.spec_is_container() {
            if n.collapsed {
                "▶ "@
            } else {
                "▼ "@
            }
        } else {
            "  "@
        }, Tint::Default, false),
        key_seg(n),
        seg(if n.key.len() == 0 {
            Seq::empty()
        } else {
            ": "@
        }, Tint::Default, false),
        value_seg(n),
        hint_seg(n),
    ]
}

/// `count` followed by ` ` and the noun for it.
fn count_noun(out: &mut Vec<char>, count: usize, singular: &str, plural: &str)
    ensures
        final(out)@ == old(out)@ + decimal(count as nat) + seq![' '] + noun(count, singular@, plural@),
{
    let d = usize_to_chars(count);
    push_all(out, &d);
    out.push(' ');
    if count == 1 {
        push_str(out, singular);
    } else {
        push_str(out, plural);
    }
}

/// A segment of `text` in `tint`.
fn make_seg(text: Vec<char>, tint: Tint, bold: bool) -> (r: Segment)
    ensures
        r@ == seg(text@, tint, bold),
{
    Segment { text: string_of(text.as_slice()), tint, bold }
}

/// The key segment of a row (see `key_seg`).
fn key_segment(node: &FlatNode) -> (r: Segment)
    ensures
        r@ == key_seg(node@),
{
    let key = chars_of(node.key.as_str());
    let index = key.len() > 0 && crate::text::parse_usize(&key).is_some();
    let mut shown: Vec<char> = Vec::new();
    if index {
        shown.push('[');
        push_all(&mut shown, &key);
        shown.push(']');
        assert(shown@ =~= seq!['['] + key@ + seq![']']);
    } else {
        push_all(&mut shown, &key);
        assert(shown@ =~= key@);
    }
    if key.len() == 0 {
        make_seg(chars_of("(root)"), Tint::Default, false)
    } else if node.search_match {
        make_seg(shown, MATCH_TINT, true)
    } else {
        make_seg(shown, if index {
            INDEX_TINT
        } else {
            KEY_TINT
        }, false)
    }
}

/// The value segment of a row (see `value_seg`).
fn value_segment(node: &FlatNode) -> (r: Segment)
    ensures
        r@ == value_seg(node@),
{
    match node.kind {
        NodeKind::String => make_seg(node.display_chars(), STRING_TINT, false),
        NodeKind::Number => make_seg(node.display_chars(), NUMBER_TINT, false),
        NodeKind::Bool => make_seg(node.display_chars(), BOOL_TINT, false),
        NodeKind::Null => make_seg(node.display_chars(), NULL_TINT, false),
        NodeKind::Object { child_count } => {
            let mut t: Vec<char> = Vec::new();
            if node.collapsed {
                push_str(&mut t, "{ ");
                count_noun(&mut t, child_count, "key", "keys");
                push_str(&mut t, " }");
            } else {
                t.push('{');
            }
            make_seg(t, BRACKET_TINT, false)
        },
        NodeKind::Array { child_count } => {
            let mut t: Vec<char> = Vec::new();
            if node.collapsed {
                push_str(&mut t, "[ ");
                count_noun(&mut t, child_count, "item", "items");
                push_str(&mut t, " ]");
            } else {
                t.push('[');
            }
            make_seg(t, BRACKET_TINT, false)
        },
    }
}

/// The size-hint segment of a row (see `hint_seg`).
fn hint_segment(node: &FlatNode) -> (r: Segment)
    ensures
        r@ == hint_seg(node@),
{
    match node.kind {
        NodeKind::Object { child_count } => if !node.collapsed {
            let mut t: Vec<char> = Vec::new();
            push_str(&mut t, " (");
            count_noun(&mut t, child_count, "key", "keys");
            t.push(')');
            assert(t@ =~= " ("@ + decimal(child_count as nat) + seq![' '] + noun(child_count, "key"@, "keys"@) + seq![')']);
            make_seg(t, HINT_TINT, false)
        } else {
            make_seg(Vec::new(), Tint::Default, false)
        },
        NodeKind::Array { child_count } => if !node.collapsed {
            let mut t: Vec<char> = Vec::new();
            push_str(&mut t, " (");
            count_noun(&mut t, child_count, "item", "items");
            t.push(')');
            assert(t@ =~= " ("@ + decimal(child_count as nat) + seq![' '] + noun(child_count, "item"@, "items"@) + seq![')']);
            make_seg(t, HINT_TINT, false)
        } else {
            make_seg(Vec::new(), Tint::Default, false)
        },
        _ => make_seg(Vec::new(), Tint::Default, false),
    }
}

/// The segments of one tree row (see `tree_item_spec`) and whether the row
/// is shown selected (reversed).
pub fn build_tree_item(node: &FlatNode, selected: bool) -> (r: (Vec<Segment>, bool))
    ensures
        segs_view(r.0@) == tree_item_spec(node@),
        r.1 == selected,
{
    let mut indent: Vec<char> = Vec::new();
    crate::format::push_spaces(&mut indent, node.depth as u128 * 2);
    let s0 = make_seg(indent, Tint::Default, false);
    let prefix = if node.kind.is_container() {
        if node.collapsed {
            chars_of("▶ ")
        } else {
            chars_of("▼ ")
        }
    } else {
        chars_of("  ")
    };
    let s1 = make_seg(prefix, Tint::Default, false);
    let s2 = key_segment(node);
    let sep = if chars_of(node.key.as_str()).len() == 0 {
        Vec::new()
    } else {
        chars_of(": ")
    };
    let s3 = make_seg(sep, Tint::Default, false);
    let s4 = value_segment(node);
    let s5 = hint_segment(node);
    let mut out: Vec<Segment> = Vec::new();
    out.push(s0);
    out.push(s1);
    out.push(s2);
    out.push(s3);
    out.push(s4);
    out.push(s5);
    assert(segs_view(out@) =~= tree_item_spec(node@));
    (out, selected)
}

// ── status bar ───────────────────────────────────────────────────────────────

/// The mode badge.
pub open spec fn mode_label(m: Mode) -> Seq<char> {
    match m {
        Mode::Normal => "[NORMAL]"@,
        Mode::Insert => "[INSERT]"@,
        Mode::TreeEdit { .. } => "[EDIT]"@,
        Mode::Search => "[SEARCH]"@,
        Mode::Replace { .. } => "[REPLACE]"@,
        Mode::Confirm { .. } => "[CONFIRM]"@,
        Mode::FilePicker { .. } => "[OPEN]"@,
        Mode::About => "[ABOUT]"@,
        Mode::SaveAs { .. } => "[SAVE AS]"@,
    }
}

/// The mode badge.
fn mode_label_text(m: &Mode) -> (r: &'static str)
    ensures
        r@ == mode_label(*m),
{
    match m {
        Mode::Normal => "[NORMAL]",
        Mode::Insert => "[INSERT]",
        Mode::TreeEdit { .. } => "[EDIT]",
        Mode::Search => "[SEARCH]",
        Mode::Replace { .. } => "[REPLACE]",
        Mode::Confirm { .. } => "[CONFIRM]",
        Mode::FilePicker { .. } => "[OPEN]",
        Mode::About => "[ABOUT]",
        Mode::SaveAs { .. } => "[SAVE AS]",
    }
}

/// Key hints for the raw pane in normal mode.
pub open spec fn raw_pane_hint() -> Seq<char> {
    "i/Enter:edit  Ctrl+A:select-all  Shift+↑↓←→:select  Ctrl+V:paste  Ctrl+Z:undo  Ctrl+Y:redo  ↑↓:scroll  /:search  Ctrl+O:open  Ctrl+S:save  q:quit  Tab:switch  ?:about"@
}

/// Key hints for the tree pane in normal mode.
pub open spec fn tree_pane_hint() -> Seq<char> {
    "↑↓/jk:move  PgUp/PgDn:page  Home/End:top/bottom  →:expand  ←:collapse  Space:toggle  Enter:edit  a:add  d:del  r:rename  y:copy  g:jump  Ctrl+Z:undo  Ctrl+Y:redo  /:search  Tab:switch  ?:about"@
}

/// The key hints shown on the right of the status bar.
pub open spec fn status_hint(s: AppState) -> Seq<char> {
    match s.mode {
        Mode::Normal => match s.focus {
            Focus::RawPane => if s.parse_error is Some {
                "Ctrl+E:jump-to-error  "@ + raw_pane_hint()
            } else {
                raw_pane_hint()
            },
            Focus::TreePane => tree_pane_hint(),
        },
        Mode::Insert => "Esc:normal  Ctrl+A:select-all  Shift+↑↓←→:select  Ctrl+V:paste  Ctrl+Z:undo  Ctrl+Y:redo  Ctrl+S:save"@,
        Mode::TreeEdit { .. } => "Enter:confirm  Esc:cancel"@,
        Mode::Search => "↑↓/jk:navigate  Enter:jump  Ctrl+R:replace  Esc:cancel"@,
        Mode::Replace { .. } => "↑↓:navigate  Enter:replace  Ctrl+A:all  Esc:back"@,
        Mode::Confirm { .. } => "y:yes  n/Esc:no"@,
        Mode::FilePicker { .. } => "↑↓:navigate  Enter:open  Esc:cancel"@,
        Mode::About => "Press any key to close"@,
        Mode::SaveAs { .. } => "Enter:confirm  Esc:cancel"@,
    }
}

/// The prompt of a tree edit.
pub open spec fn edit_prompt(kind: TreeEditKind, buffer: Seq<char>) -> Seq<char> {
    match kind {
        TreeEditKind::AddKey => "New key: "@ + buffer + seq!['_'],
        TreeEditKind::AddValue { key } => if key@.len() == 0 {
            "New item (JSON): "@ + buffer + seq!['_']
        } else {
            "Value for '"@ + key@ + "': "@ + buffer + seq!['_']
        },
        TreeEditKind::RenameKey => "Rename key: "@ + buffer + seq!['_'],
        TreeEditKind::EditValue { node_type, original } => "Edit ["@ + node_type@ + "]  Current: "@
            + original@ + "  →  New: "@ + buffer + seq!['_'],
    }
}

/// Number of rows that are search matches (leaf matches only, with
/// `leaves_only`).
pub open spec fn count_matches(rows: Seq<NodeV>, leaves_only: bool) -> nat
    decreases rows.len(),
{
    if rows.len() == 0 {
        0
    } else {
        count_matches(rows.drop_last(), leaves_only) + if rows.last().search_match && (!leaves_only
            || !rows.last().kind.spec_is_container()) {
            1nat
        } else {
            0nat
        }
    }
}

/// The state's match count.
pub open spec fn state_matches(s: AppState, leaves_only: bool) -> nat {
    match s.tree {
        Some(t) => count_matches(t.rows(), leaves_only),
        None => 0,
    }
}

/// `n match` / `n matches`.
pub open spec fn matches_text(n: nat) -> Seq<char> {
    "  "@ + decimal(n) + seq![' '] + if n == 1 {
        "match"@
    } else {
        "matches"@
    }
}

/// What the status bar says of a picker entry's kind: `dir`, the lower-case
/// name of the format its extension names, or `file` without one.
pub open spec fn entry_kind(e: FileEntry) -> Seq<char> {
    if e.is_dir {
        "dir"@
    } else {
        match path_extension_spec(e.path@) {
            Some(x) => lowercase_spec(format_for_extension(x).name_spec()),
            None => "file"@,
        }
    }
}

/// The mode-specific segments of the status bar.
pub open spec fn mode_segments(s: AppState) -> Seq<SegV> {
    let gap = seg("  "@, Tint::Default, false);
    match s.mode {
        Mode::TreeEdit { kind, buffer } => seq![gap, seg(edit_prompt(kind, buffer@), Tint::White, false)],
        Mode::Search => seq![gap, seg("Search: "@ + s.search_query@ + seq!['_'], Tint::White, false)] + if s.search_query@.len()
            > 0 {
            seq![seg(matches_text(state_matches(s, false)), Tint::Yellow, false)]
        } else {
            Seq::empty()
        },
        Mode::Replace { replacement } => seq![
            gap,
            seg("Find: "@ + s.search_query@ + "  →  Replace: "@ + replacement@ + seq!['_'], Tint::White, false),
            if state_matches(s, true) > 0 {
                seg(matches_text(state_matches(s, true)), Tint::Yellow, false)
            } else {
                seg("  no matches"@, Tint::DarkGray, false)
            },
        ],
        Mode::Confirm { question, .. } => seq![gap, seg(question@, ERROR_TINT, true)],
        Mode::FilePicker { entries, selected, .. } => if selected < entries@.len() {
            let e = entries@[selected as int];
            seq![gap, seg(e.name@ + " ("@ + entry_kind(e) + seq![')'], Tint::White, false)]
        } else {
            Seq::empty()
        },
        Mode::SaveAs { buffer } => seq![gap, seg("Save as: "@ + buffer@ + seq!['_'], Tint::White, true)],
        _ => Seq::empty(),
    }
}

/// The left part of the status bar: the mode badge (bold), the file (or
/// `[new file]`, with ` *` when modified), the parse error (red, after a
/// warning sign) and what the mode shows.
pub open spec fn status_segments(s: AppState) -> Seq<SegV> {
    let file = match s.file_path {
        Some(p) => p@,
        None => "[new file]"@,
    };
    let marker = if s.modified {
        " *"@
    } else {
        Seq::empty()
    };
    seq![
        seg(mode_label(s.mode), Tint::Default, true),
        seg("  "@, Tint::Default, false),
        seg(file + marker, Tint::Default, false),
    ] + match s.parse_error {
        Some(e) => seq![seg("  "@, Tint::Default, false), seg("⚠ "@ + e@, ERROR_TINT, false)],
        None => Seq::empty(),
    } + mode_segments(s)
}

/// The number of match rows in `nodes` (leaf matches only, with
/// `leaves_only`).
fn count_match_rows(nodes: &[FlatNode], leaves_only: bool) -> (r: usize)
    ensures
        r as nat == count_matches(crate::tree::rows_view(nodes@), leaves_only),
{
    let ghost rows = crate::tree::rows_view(nodes@);
    let mut c: usize = 0;
    let n = nodes.len();
    for i in 0..n
        invariant
            n == nodes@.len(),
            rows == crate::tree::rows_view(nodes@),
            c as nat == count_matches(rows.take(i as int), leaves_only),
            c <= i,
    {
        assert(rows.take(i + 1).drop_last() =~= rows.take(i as int));
        assert(rows[i as int] == nodes@[i as int]@);
        if nodes[i].search_match && (!leaves_only || !nodes[i].kind.is_container()) {
            c = c + 1;
        }
    }
    assert(rows.take(n as int) =~= rows);
    c
}

/// The state's match count.
fn match_count(state: &AppState, leaves_only: bool) -> (r: usize)
    ensures
        r as nat == state_matches(*state, leaves_only),
{
    match &state.tree {
        Some(t) => count_match_rows(t.flat_nodes(), leaves_only),
        None => 0,
    }
}

/// The match count text.
fn matches_chars(n: usize) -> (r: Vec<char>)
    ensures
        r@ == matches_text(n as nat),
{
    let mut t: Vec<char> = Vec::new();
    push_str(&mut t, "  ");
    let d = usize_to_chars(n);
    push_all(&mut t, &d);
    t.push(' ');
    if n == 1 {
        push_str(&mut t, "match");
    } else {
        push_str(&mut t, "matches");
    }
    t
}

/// The prompt of a tree edit.
fn edit_prompt_chars(kind: &TreeEditKind, buffer: &String) -> (r: Vec<char>)
    ensures
        r@ == edit_prompt(*kind, buffer@),
{
    let mut t: Vec<char> = Vec::new();
    match kind {
        TreeEditKind::AddKey => {
            push_str(&mut t, "New key: ");
        },
        TreeEditKind::AddValue { key } => {
            if chars_of(key.as_str()).len() == 0 {
                push_str(&mut t, "New item (JSON): ");
            } else {
                push_str(&mut t, "Value for '");
                push_str(&mut t, key.as_str());
                push_str(&mut t, "': ");
            }
        },
        TreeEditKind::RenameKey => {
            push_str(&mut t, "Rename key: ");
        },
        TreeEditKind::EditValue { node_type, original } => {
            push_str(&mut t, "Edit [");
            push_str(&mut t, node_type.as_str());
            push_str(&mut t, "]  Current: ");
            push_str(&mut t, original.as_str());
            push_str(&mut t, "  →  New: ");
        },
    }
    push_str(&mut t, buffer.as_str());
    t.push('_');
    t
}

/// What the status bar says of a picker entry's kind (see `entry_kind`).
fn entry_kind_text(e: &FileEntry) -> (r: String)
    ensures
        r@ == entry_kind(*e),
{
    if e.is_dir {
        return string_of(chars_of("dir").as_slice());
    }
    match crate::format::path_extension(e.path.as_str()) {
        Some(x) => crate::text::to_lowercase(FileFormat::from_extension(x.as_str()).name()),
        None => string_of(chars_of("file").as_slice()),
    }
}

/// The mode-specific segments of the status bar.
fn mode_segments_exec(state: &AppState) -> (r: Vec<Segment>)
    ensures
        segs_view(r@) == mode_segments(*state),
{
    let mut out: Vec<Segment> = Vec::new();
    let ghost gap = seg("  "@, Tint::Default, false);
    match &state.mode {
        Mode::TreeEdit { kind, buffer } => {
            push_seg(&mut out, chars_of("  "), Tint::Default, false);
            push_seg(&mut out, edit_prompt_chars(kind, buffer), Tint::White, false);
            assert(segs_view(out@) =~= mode_segments(*state));
        },
        Mode::Search => {
            push_seg(&mut out, chars_of("  "), Tint::Default, false);
            let mut t: Vec<char> = Vec::new();
            push_str(&mut t, "Search: ");
            push_str(&mut t, state.search_query.as_str());
            t.push('_');
            assert(t@ =~= "Search: "@ + state.search_query@ + seq!['_']);
            push_seg(&mut out, t, Tint::White, false);
            let ghost base = seq![gap, seg("Search: "@ + state.search_query@ + seq!['_'], Tint::White, false)];
            assert(segs_view(out@) =~= base);
            if chars_of(state.search_query.as_str()).len() > 0 {
                let n = match_count(state, false);
                push_seg(&mut out, matches_chars(n), Tint::Yellow, false);
                assert(segs_view(out@) =~= base + seq![seg(matches_text(state_matches(*state, false)), Tint::Yellow, false)]);
            } else {
                assert(base + Seq::<SegV>::empty() =~= base);
            }
            assert(segs_view(out@) =~= mode_segments(*state));
        },
        Mode::Replace { replacement } => {
            push_seg(&mut out, chars_of("  "), Tint::Default, false);
            let mut t: Vec<char> = Vec::new();
            push_str(&mut t, "Find: ");
            push_str(&mut t, state.search_query.as_str());
            push_str(&mut t, "  →  Replace: ");
            push_str(&mut t, replacement.as_str());
            t.push('_');
            assert(t@ =~= "Find: "@ + state.search_query@ + "  →  Replace: "@ + replacement@ + seq!['_']);
            push_seg(&mut out, t, Tint::White, false);
            let n = match_count(state, true);
            if n > 0 {
                push_seg(&mut out, matches_chars(n), Tint::Yellow, false);
            } else {
                push_seg(&mut out, chars_of("  no matches"), Tint::DarkGray, false);
            }
            assert(segs_view(out@) =~= mode_segments(*state));
        },
        Mode::Confirm { question, .. } => {
            push_seg(&mut out, chars_of("  "), Tint::Default, false);
            push_seg(&mut out, chars_of(question.as_str()), ERROR_TINT, true);
            assert(segs_view(out@) =~= mode_segments(*state));
        },
        Mode::FilePicker { entries, selected, .. } => {
            if *selected < entries.len() {
                let e = &entries[*selected];
                push_seg(&mut out, chars_of("  "), Tint::Default, false);
                let mut t: Vec<char> = Vec::new();
                push_str(&mut t, e.name.as_str());
                push_str(&mut t, " (");
                push_str(&mut t, entry_kind_text(e).as_str());
                t.push(')');
                assert(t@ =~= e.name@ + " ("@ + entry_kind(*e) + seq![')']);
                push_seg(&mut out, t, Tint::White, false);
            }
            assert(segs_view(out@) =~= mode_segments(*state));
        },
        Mode::SaveAs { buffer } => {
            push_seg(&mut out, chars_of("  "), Tint::Default, false);
            let mut t: Vec<char> = Vec::new();
            push_str(&mut t, "Save as: ");
            push_str(&mut t, buffer.as_str());
            t.push('_');
            assert(t@ =~= "Save as: "@ + buffer@ + seq!['_']);
            push_seg(&mut out, t, Tint::White, true);
            assert(segs_view(out@) =~= mode_segments(*state));
        },
        _ => {
            assert(segs_view(out@) =~= mode_segments(*state));
        },
    }
    out
}

/// The status bar: the left segments (mode, file, error, mode prompt) and
/// the key hints shown on the right.
pub fn build_status_parts(state: &AppState) -> (r: (Vec<Segment>, String))
    ensures
        segs_view(r.0@) == status_segments(*state),
        r.1@ == status_hint(*state),
{
    let mut out: Vec<Segment> = Vec::new();
    push_seg(&mut out, chars_of(mode_label_text(&state.mode)), Tint::Default, true);
    push_seg(&mut out, chars_of("  "), Tint::Default, false);
    let mut file: Vec<char> = Vec::new();
    match &state.file_path {
        Some(p) => push_str(&mut file, p.as_str()),
        None => push_str(&mut file, "[new file]"),
    }
    if state.modified {
        push_str(&mut file, " *");
    }
    push_seg(&mut out, file, Tint::Default, false);
    match &state.parse_error {
        Some(e) => {
            push_seg(&mut out, chars_of("  "), Tint::Default, false);
            let mut t: Vec<char> = Vec::new();
            push_str(&mut t, "⚠ ");
            push_str(&mut t, e.as_str());
            push_seg(&mut out, t, ERROR_TINT, false);
        },
        None => {},
    }
    let ghost head = segs_view(out@);
    let tail = mode_segments_exec(state);
    let ghost tv = segs_view(tail@);
    let mut tail = tail;
    out.append(&mut tail);
    assert(segs_view(out@) =~= head + tv);
    proof {
        reveal_strlit("");
    }
    assert(segs_view(out@) =~= status_segments(*state));
    let mut hint: Vec<char> = Vec::new();
    match &state.mode {
        Mode::Normal => match state.focus {
            Focus::RawPane => {
                if state.parse_error.is_some() {
                    push_str(&mut hint, "Ctrl+E:jump-to-error  ");
                }
                push_str(&mut hint, "i/Enter:edit  Ctrl+A:select-all  Shift+↑↓←→:select  Ctrl+V:paste  Ctrl+Z:undo  Ctrl+Y:redo  ↑↓:scroll  /:search  Ctrl+O:open  Ctrl+S:save  q:quit  Tab:switch  ?:about");
            },
            Focus::TreePane => {
                push_str(&mut hint, "↑↓/jk:move  PgUp/PgDn:page  Home/End:top/bottom  →:expand  ←:collapse  Space:toggle  Enter:edit  a:add  d:del  r:rename  y:copy  g:jump  Ctrl+Z:undo  Ctrl+Y:redo  /:search  Tab:switch  ?:about");
            },
        },
        Mode::Insert => push_str(&mut hint, "Esc:normal  Ctrl+A:select-all  Shift+↑↓←→:select  Ctrl+V:paste  Ctrl+Z:undo  Ctrl+Y:redo  Ctrl+S:save"),
        Mode::TreeEdit { .. } => push_str(&mut hint, "Enter:confirm  Esc:cancel"),
        Mode::Search => push_str(&mut hint, "↑↓/jk:navigate  Enter:jump  Ctrl+R:replace  Esc:cancel"),
        Mode::Replace { .. } => push_str(&mut hint, "↑↓:navigate  Enter:replace  Ctrl+A:all  Esc:back"),
        Mode::Confirm { .. } => push_str(&mut hint, "y:yes  n/Esc:no"),
        Mode::FilePicker { .. } => push_str(&mut hint, "↑↓:navigate  Enter:open  Esc:cancel"),
        Mode::About => push_str(&mut hint, "Press any key to close"),
        Mode::SaveAs { .. } => push_str(&mut hint, "Enter:confirm  Esc:cancel"),
    }
    assert(hint@ =~= status_hint(*state));
    (out, string_of(hint.as_slice()))
}


// ── layout arithmetic ────────────────────────────────────────────────────────

/// A rectangle of terminal cells.
#[derive(Debug, Clone, Copy, PartialEq, Eq, Structural)]
pub struct Area {
    pub x: u16,
    pub y: u16,
    pub width: u16,
    pub height: u16,
}

/// A rectangle `percent_x`% wide and `percent_y`% tall (rounded down),
/// centred within `r` (the left and top margins rounded down).
pub fn centered_rect(percent_x: u16, percent_y: u16, r: Area) -> (c: Area)
    requires
        r.width * percent_x <= u16::MAX,
        r.height * percent_y <= u16::MAX,
        r.x + r.width <= u16::MAX,
        r.y + r.height <= u16::MAX,
    ensures
        c.width == r.width * percent_x / 100,
        c.height == r.height * percent_y / 100,
        c.x == r.x + (if c.width <= r.width { r.width - c.width } else { 0 }) / 2,
        c.y == r.y + (if c.height <= r.height { r.height - c.height } else { 0 }) / 2,
{
    let popup_width = r.width * percent_x / 100;
    let popup_height = r.height * percent_y / 100;
    let x = r.x + r.width.saturating_sub(popup_width) / 2;
    let y = r.y + r.height.saturating_sub(popup_height) / 2;
    Area { x, y, width: popup_width, height: popup_height }
}

/// Width of the about screen.
pub const ABOUT_WIDTH: u16 = 66;

/// Height of the about screen.
pub const ABOUT_HEIGHT: u16 = 49;

/// Where the about screen goes: centred in `screen`, at most
/// `ABOUT_WIDTH` by `ABOUT_HEIGHT` cells and never larger than the screen.
pub fn about_area(screen: Area) -> (a: Area)
    requires
        screen.x + screen.width <= u16::MAX,
        screen.y + screen.height <= u16::MAX,
    ensures
        a.x == screen.x + (if screen.width >= ABOUT_WIDTH { screen.width - ABOUT_WIDTH } else { 0 }) / 2,
        a.y == screen.y + (if screen.height >= ABOUT_HEIGHT { screen.height - ABOUT_HEIGHT } else { 0 }) / 2,
        a.width == if screen.width < ABOUT_WIDTH { screen.width } else { ABOUT_WIDTH },
        a.height == if screen.height < ABOUT_HEIGHT { screen.height } else { ABOUT_HEIGHT },
{
    let x = screen.x + screen.width.saturating_sub(ABOUT_WIDTH) / 2;
    let y = screen.y + screen.height.saturating_sub(ABOUT_HEIGHT) / 2;
    let width = if screen.width < ABOUT_WIDTH { screen.width } else { ABOUT_WIDTH };
    let height = if screen.height < ABOUT_HEIGHT { screen.height } else { ABOUT_HEIGHT };
    Area { x, y, width, height }
}

/// How the status bar's width is shared: the hint gets its length in
/// characters (as a `u16`, so modulo 2^16), at most the width less ten
/// columns; the left part gets the rest.  Returns `(left, hint)`.
pub fn status_split(hint_chars: usize, width: u16) -> (r: (u16, u16))
    ensures
        r.1 == if (hint_chars as u16) < (if width >= 10 { width - 10 } else { 0 }) {
            hint_chars as u16
        } else {
            (if width >= 10 { width - 10 } else { 0 }) as u16
        },
        r.0 == width - r.1,
{
    let room = width.saturating_sub(10);
    let count = hint_chars as u16;
    let hint = if count < room { count } else { room };
    (width - hint, hint)
}

/// First row of a placeholder of `lines` lines centred vertically in
/// `height` rows, counted from the top of the area.
pub fn centered_top(height: u16, lines: u16) -> (r: u16)
    ensures
        r == (if height >= lines { height - lines } else { 0 }) / 2,
{
    height.saturating_sub(lines) / 2
}

// ── panes ────────────────────────────────────────────────────────────────────

/// The border of a pane: green and bold when it has focus, dark grey
/// otherwise.  Returns `(tint, bold)`.
pub fn pane_border(focused: bool) -> (r: (Tint, bool))
    ensures
        r == (if focused { (Tint::Green, true) } else { (Tint::DarkGray, false) }),
{
    if focused {
        (Tint::Green, true)
    } else {
        (Tint::DarkGray, false)
    }
}

/// The format badge of the raw pane's border (` JSON ` and so on), shown
/// only when the buffer holds more than whitespace.
pub open spec fn raw_badge_spec(s: AppState) -> Option<Seq<char>> {
    if crate::text::lead_count(s.raw_text@, false) == s.raw_text@.len() {
        None
    } else {
        Some(" "@ + s.format.name_spec() + " "@)
    }
}

/// The format badge of the raw pane (see `raw_badge_spec`).
pub fn raw_badge(state: &AppState) -> (r: Option<String>)
    ensures
        match r {
            Some(t) => raw_badge_spec(*state) == Some(t@),
            None => raw_badge_spec(*state) is None,
        },
{
    let raw = chars_of(state.raw_text.as_str());
    if crate::text::leading_count(&raw, false) == raw.len() {
        None
    } else {
        let mut t: Vec<char> = Vec::new();
        push_str(&mut t, " ");
        push_str(&mut t, state.format.name());
        push_str(&mut t, " ");
        Some(string_of(t.as_slice()))
    }
}

/// What the tree pane shows when it has no rows.
pub struct Placeholder {
    /// The text, lines separated by `\n`.
    pub text: String,
    pub tint: Tint,
    /// How many lines the text has.
    pub lines: u16,
}

/// The onboarding text shown before anything is loaded.
pub open spec fn onboarding_text() -> Seq<char> {
    "No file open.\n\nCtrl+O  open a file\n\nOr paste content into the left pane."@
}

/// The placeholder of the tree pane: none while the tree has rows;
/// otherwise `(no valid content)` in red after a parse error,
/// the onboarding text (five lines) when the buffer is blank, and
/// `(empty document)` for a valid document without children.
pub open spec fn placeholder_spec(s: AppState) -> Option<(Seq<char>, Tint, u16)> {
    if s.row_count() > 0 {
        None
    } else if s.parse_error is Some {
        Some(("(no valid content)"@, ERROR_TINT, 1u16))
    } else if crate::text::lead_count(s.raw_text@, false) == s.raw_text@.len() {
        Some((onboarding_text(), Tint::DarkGray, 5u16))
    } else {
        Some(("(empty document)"@, Tint::DarkGray, 1u16))
    }
}

/// The placeholder of the tree pane (see `placeholder_spec`).
pub fn tree_placeholder(state: &AppState) -> (r: Option<Placeholder>)
    ensures
        match r {
            Some(p) => placeholder_spec(*state) == Some((p.text@, p.tint, p.lines)),
            None => placeholder_spec(*state) is None,
        },
{
    let rows = match &state.tree {
        Some(t) => t.visible_node_count(),
        None => 0,
    };
    if rows > 0 {
        return None;
    }
    if state.parse_error.is_some() {
        return Some(Placeholder { text: string_of(chars_of("(no valid content)").as_slice()), tint: ERROR_TINT, lines: 1 });
    }
    let raw = chars_of(state.raw_text.as_str());
    if crate::text::leading_count(&raw, false) == raw.len() {
        let text = chars_of("No file open.\n\nCtrl+O  open a file\n\nOr paste content into the left pane.");
        Some(Placeholder { text: string_of(text.as_slice()), tint: Tint::DarkGray, lines: 5 })
    } else {
        Some(Placeholder { text: string_of(chars_of("(empty document)").as_slice()), tint: Tint::DarkGray, lines: 1 })
    }
}

// ── file picker ──────────────────────────────────────────────────────────────

/// Title of the file picker.
pub fn picker_title() -> (r: &'static str)
    ensures
        r@ == " Open File — ↑↓:navigate  Enter:open/enter  Esc:cancel "@,
{
    " Open File — ↑↓:navigate  Enter:open/enter  Esc:cancel "
}

/// What the file picker shows when the directory has nothing to offer.
pub fn picker_empty_text() -> (r: &'static str)
    ensures
        r@ == "  (no JSON files or directories found)"@,
{
    "  (no JSON files or directories found)"
}

/// One row of the file picker: a space, the icon (`▶ ` for directories,
/// two spaces for files) in dark grey, then the name, with `/` after a
/// directory other than `..`, cyan for directories and green for files.
pub open spec fn picker_item_spec(e: FileEntry) -> Seq<SegV> {
    seq![
        seg(" "@, Tint::Default, false),
        seg(if e.is_dir { "▶ "@ } else { "  "@ }, Tint::DarkGray, false),
        seg(
            if e.is_dir && e.name@ != ".."@ { e.name@ + "/"@ } else { e.name@ },
            if e.is_dir { Tint::Cyan } else { Tint::Green },
            false,
        ),
    ]
}

/// One row of the file picker (see `picker_item_spec`).
pub fn build_picker_item(entry: &FileEntry) -> (r: Vec<Segment>)
    ensures
        segs_view(r@) == picker_item_spec(*entry),
{
    let mut out: Vec<Segment> = Vec::new();
    push_seg(&mut out, chars_of(" "), Tint::Default, false);
    if entry.is_dir {
        push_seg(&mut out, chars_of("▶ "), Tint::DarkGray, false);
    } else {
        push_seg(&mut out, chars_of("  "), Tint::DarkGray, false);
    }
    let name = chars_of(entry.name.as_str());
    let up = chars_are(&name, "..");
    let mut shown: Vec<char> = Vec::new();
    push_all(&mut shown, &name);
    if entry.is_dir && !up {
        shown.push('/');
        assert(shown@ =~= entry.name@ + "/"@) by {
            reveal_strlit("/");
        }
    }
    let tint = if entry.is_dir { Tint::Cyan } else { Tint::Green };
    push_seg(&mut out, shown, tint, false);
    assert(segs_view(out@) =~= picker_item_spec(*entry));
    out
}

// ── about screen ─────────────────────────────────────────────────────────────

/// The views of a list of lines.
pub open spec fn lines_view(s: Seq<Vec<Segment>>) -> Seq<Seq<SegV>> {
    s.map_values(|l: Vec<Segment>| segs_view(l@))
}

fn push_segment(out: &mut Vec<Segment>, x: Segment)
    ensures
        segs_view(final(out)@) == segs_view(old(out)@).push(x@),
{
    let ghost before = out@;
    let ghost v = x@;
    out.push(x);
    assert(segs_view(out@) =~= segs_view(before).push(v));
}

fn push_line(out: &mut Vec<Vec<Segment>>, line: Vec<Segment>)
    ensures
        lines_view(final(out)@) == lines_view(old(out)@).push(segs_view(line@)),
{
    let ghost before = out@;
    let ghost l = segs_view(line@);
    out.push(line);
    assert(lines_view(out@) =~= lines_view(before).push(l));
}

/// A format badge: the label in bold and in its colour.
pub open spec fn badge_spec(label: Seq<char>, tint: Tint) -> SegV {
    seg(label, tint, true)
}

/// A format badge (see `badge_spec`).
pub fn fmt_badge(label: &str, tint: Tint) -> (r: Segment)
    ensures
        r@ == badge_spec(label@, tint),
{
    make_seg(chars_of(label), tint, true)
}

/// A key-binding row: two spaces and the key, padded with spaces to
/// fourteen characters (yellow), then the description.
pub open spec fn kb_spec(key: Seq<char>, desc: Seq<char>) -> Seq<SegV> {
    seq![
        seg("  "@ + key + spaces(if key.len() < 14 { (14 - key.len()) as nat } else { 0 }), Tint::Yellow, false),
        seg(desc, Tint::Default, false),
    ]
}

/// A key-binding row (see `kb_spec`).
pub fn kb_line(key: &str, desc: &str) -> (r: Vec<Segment>)
    ensures
        segs_view(r@) == kb_spec(key@, desc@),
{
    let k = chars_of(key);
    let mut t: Vec<char> = Vec::new();
    push_str(&mut t, "  ");
    push_all(&mut t, &k);
    if k.len() < 14 {
        crate::format::push_spaces(&mut t, (14 - k.len()) as u128);
    } else {
        assert(spaces(0) =~= Seq::<char>::empty());
    }
    let mut out: Vec<Segment> = Vec::new();
    push_seg(&mut out, t, Tint::Yellow, false);
    push_seg(&mut out, chars_of(desc), Tint::Default, false);
    assert(segs_view(out@) =~= kb_spec(key@, desc@));
    out
}

/// A bold heading line.
pub open spec fn heading_spec(text: Seq<char>) -> Seq<SegV> {
    seq![seg(text, Tint::Default, true)]
}

/// A dim line (rules and side notes).
pub open spec fn dim_spec(text: Seq<char>) -> Seq<SegV> {
    seq![seg(text, Tint::DarkGray, false)]
}

fn empty_line() -> (r: Vec<Segment>)
    ensures
        segs_view(r@) == Seq::<SegV>::empty(),
{
    let r: Vec<Segment> = Vec::new();
    assert(segs_view(r@) =~= Seq::<SegV>::empty());
    r
}

fn single_line(text: &str, tint: Tint, bold: bool) -> (r: Vec<Segment>)
    ensures
        segs_view(r@) == seq![seg(text@, tint, bold)],
{
    let mut out: Vec<Segment> = Vec::new();
    push_seg(&mut out, chars_of(text), tint, bold);
    out
}

/// The title, the blurb and the supported formats.
pub open spec fn about_intro(version: Seq<char>) -> Seq<Seq<SegV>> {
    seq![
        seq![
            seg("OE"@, Tint::Cyan, true),
            seg("  Object Editor"@, Tint::Default, true),
            seg("  v"@ + version, Tint::DarkGray, false),
        ],
        Seq::empty(),
        dim_spec("A dual-pane terminal editor for structured data."@),
        Seq::empty(),
        heading_spec("Supported Formats"@),
        dim_spec("─────────────────"@),
        seq![
            badge_spec("JSON"@, Tint::Green),
            seg("  "@, Tint::Default, false),
            badge_spec("YAML"@, Tint::Yellow),
            seg("  "@, Tint::Default, false),
            badge_spec("TOML"@, Tint::Magenta),
            seg("  "@, Tint::Default, false),
            badge_spec("XML"@, Tint::Cyan),
        ],
        Seq::empty(),
    ]
}

fn push_about_intro(out: &mut Vec<Vec<Segment>>, version: &str)
    ensures
        lines_view(final(out)@) == lines_view(old(out)@) + about_intro(version@),
{
    let ghost start = lines_view(out@);
    let mut title: Vec<Segment> = Vec::new();
    push_seg(&mut title, chars_of("OE"), Tint::Cyan, true);
    push_seg(&mut title, chars_of("  Object Editor"), Tint::Default, true);
    let mut v: Vec<char> = Vec::new();
    push_str(&mut v, "  v");
    push_str(&mut v, version);
    push_seg(&mut title, v, Tint::DarkGray, false);
    assert(segs_view(title@) =~= about_intro(version@)[0]);
    push_line(out, title);
    push_line(out, empty_line());
    push_line(out, single_line("A dual-pane terminal editor for structured data.", Tint::DarkGray, false));
    push_line(out, empty_line());
    push_line(out, single_line("Supported Formats", Tint::Default, true));
    push_line(out, single_line("─────────────────", Tint::DarkGray, false));
    let mut badges: Vec<Segment> = Vec::new();
    push_segment(&mut badges, fmt_badge("JSON", Tint::Green));
    push_seg(&mut badges, chars_of("  "), Tint::Default, false);
    push_segment(&mut badges, fmt_badge("YAML", Tint::Yellow));
    push_seg(&mut badges, chars_of("  "), Tint::Default, false);
    push_segment(&mut badges, fmt_badge("TOML", Tint::Magenta));
    push_seg(&mut badges, chars_of("  "), Tint::Default, false);
    push_segment(&mut badges, fmt_badge("XML", Tint::Cyan));
    assert(segs_view(badges@) =~= about_intro(version@)[6]);
    push_line(out, badges);
    push_line(out, empty_line());
    assert(lines_view(out@) =~= start + about_intro(version@));
}

/// The global key bindings.
pub open spec fn about_global() -> Seq<Seq<SegV>> {
    seq![
        heading_spec("Global"@),
        dim_spec("──────"@),
        kb_spec("Tab"@, "Switch focus between source and tree pane"@),
        kb_spec("/"@, "Search / filter tree (from either pane)"@),
        kb_spec("Ctrl+O"@, "Open file  (JSON / YAML / TOML / XML)"@),
        kb_spec("Ctrl+S"@, "Save file  (prompts for name if new)"@),
        kb_spec("Ctrl+E"@, "Jump to parse error location"@),
        kb_spec("Ctrl+V"@, "Paste from system clipboard"@),
        kb_spec("Ctrl+Z"@, "Undo  (works from any pane / mode)"@),
        kb_spec("Ctrl+Y"@, "Redo"@),
        kb_spec("q"@, "Quit  (prompts if unsaved changes)"@),
        kb_spec("?"@, "Show this screen"@),
        Seq::empty(),
    ]
}

fn push_about_global(out: &mut Vec<Vec<Segment>>)
    ensures
        lines_view(final(out)@) == lines_view(old(out)@) + about_global(),
{
    let ghost start = lines_view(out@);
    push_line(out, single_line("Global", Tint::Default, true));
    push_line(out, single_line("──────", Tint::DarkGray, false));
    push_line(out, kb_line("Tab", "Switch focus between source and tree pane"));
    push_line(out, kb_line("/", "Search / filter tree (from either pane)"));
    push_line(out, kb_line("Ctrl+O", "Open file  (JSON / YAML / TOML / XML)"));
    push_line(out, kb_line("Ctrl+S", "Save file  (prompts for name if new)"));
    push_line(out, kb_line("Ctrl+E", "Jump to parse error location"));
    push_line(out, kb_line("Ctrl+V", "Paste from system clipboard"));
    push_line(out, kb_line("Ctrl+Z", "Undo  (works from any pane / mode)"));
    push_line(out, kb_line("Ctrl+Y", "Redo"));
    push_line(out, kb_line("q", "Quit  (prompts if unsaved changes)"));
    push_line(out, kb_line("?", "Show this screen"));
    push_line(out, empty_line());
    assert(lines_view(out@) =~= start + about_global());
}

/// The key bindings of the source pane.
pub open spec fn about_source() -> Seq<Seq<SegV>> {
    seq![
        heading_spec("Source Pane  (Object Source)"@),
        dim_spec("────────────────────────────"@),
        kb_spec("i / Enter"@, "Enter edit mode"@),
        kb_spec("Esc"@, "Return to Normal mode"@),
        kb_spec("↑↓ PgUp PgDn"@, "Scroll without entering edit mode"@),
        kb_spec("Ctrl+A"@, "Select all text"@),
        kb_spec("Shift+↑↓←→"@, "Extend / create a selection"@),
        Seq::empty(),
    ]
}

fn push_about_source(out: &mut Vec<Vec<Segment>>)
    ensures
        lines_view(final(out)@) == lines_view(old(out)@) + about_source(),
{
    let ghost start = lines_view(out@);
    push_line(out, single_line("Source Pane  (Object Source)", Tint::Default, true));
    push_line(out, single_line("────────────────────────────", Tint::DarkGray, false));
    push_line(out, kb_line("i / Enter", "Enter edit mode"));
    push_line(out, kb_line("Esc", "Return to Normal mode"));
    push_line(out, kb_line("↑↓ PgUp PgDn", "Scroll without entering edit mode"));
    push_line(out, kb_line("Ctrl+A", "Select all text"));
    push_line(out, kb_line("Shift+↑↓←→", "Extend / create a selection"));
    push_line(out, empty_line());
    assert(lines_view(out@) =~= start + about_source());
}

/// The key bindings of the tree pane.
pub open spec fn about_tree() -> Seq<Seq<SegV>> {
    seq![
        heading_spec("Tree Pane  (Tree View)"@),
        dim_spec("──────────────────────"@),
        kb_spec("↑↓  j k"@, "Move selection up / down"@),
        kb_spec("PgUp / PgDn"@, "Move selection by one page"@),
        kb_spec("Home / End"@, "Jump to first / last node"@),
        kb_spec("→  ←"@, "Expand / collapse node"@),
        kb_spec("Space"@, "Toggle collapse on selected node"@),
        kb_spec("Enter"@, "Edit value of selected leaf node"@),
        kb_spec("a"@, "Add key/value to selected container"@),
        kb_spec("d"@, "Delete selected node  (confirm required)"@),
        kb_spec("r"@, "Rename selected key"@),
        kb_spec("y"@, "Copy selected node value to clipboard"@),
        kb_spec("g"@, "Jump source pane to selected node"@),
        Seq::empty(),
    ]
}

fn push_about_tree(out: &mut Vec<Vec<Segment>>)
    ensures
        lines_view(final(out)@) == lines_view(old(out)@) + about_tree(),
{
    let ghost start = lines_view(out@);
    push_line(out, single_line("Tree Pane  (Tree View)", Tint::Default, true));
    push_line(out, single_line("──────────────────────", Tint::DarkGray, false));
    push_line(out, kb_line("↑↓  j k", "Move selection up / down"));
    push_line(out, kb_line("PgUp / PgDn", "Move selection by one page"));
    push_line(out, kb_line("Home / End", "Jump to first / last node"));
    push_line(out, kb_line("→  ←", "Expand / collapse node"));
    push_line(out, kb_line("Space", "Toggle collapse on selected node"));
    push_line(out, kb_line("Enter", "Edit value of selected leaf node"));
    push_line(out, kb_line("a", "Add key/value to selected container"));
    push_line(out, kb_line("d", "Delete selected node  (confirm required)"));
    push_line(out, kb_line("r", "Rename selected key"));
    push_line(out, kb_line("y", "Copy selected node value to clipboard"));
    push_line(out, kb_line("g", "Jump source pane to selected node"));
    push_line(out, empty_line());
    assert(lines_view(out@) =~= start + about_tree());
}

/// The search key bindings and the licence line.
pub open spec fn about_search() -> Seq<Seq<SegV>> {
    seq![
        heading_spec("Search  ( / )"@),
        dim_spec("──────────────"@),
        kb_spec("↑↓  j k"@, "Navigate between matches"@),
        kb_spec("Enter"@, "Jump to selected match"@),
        kb_spec("Ctrl+R"@, "Switch to find & replace"@),
        kb_spec("Esc"@, "Cancel search"@),
        Seq::empty(),
        dim_spec("MIT License — open source, free to use and modify."@),
    ]
}

fn push_about_search(out: &mut Vec<Vec<Segment>>)
    ensures
        lines_view(final(out)@) == lines_view(old(out)@) + about_search(),
{
    let ghost start = lines_view(out@);
    push_line(out, single_line("Search  ( / )", Tint::Default, true));
    push_line(out, single_line("──────────────", Tint::DarkGray, false));
    push_line(out, kb_line("↑↓  j k", "Navigate between matches"));
    push_line(out, kb_line("Enter", "Jump to selected match"));
    push_line(out, kb_line("Ctrl+R", "Switch to find & replace"));
    push_line(out, kb_line("Esc", "Cancel search"));
    push_line(out, empty_line());
    push_line(out, single_line("MIT License — open source, free to use and modify.", Tint::DarkGray, false));
    assert(lines_view(out@) =~= start + about_search());
}

/// Everything the about screen shows, line by line.
pub open spec fn about_spec(version: Seq<char>) -> Seq<Seq<SegV>> {
    about_intro(version) + about_global() + about_source() + about_tree() + about_search()
}

/// The lines of the about screen, for the program's `version`.
pub fn about_lines(version: &str) -> (r: Vec<Vec<Segment>>)
    ensures
        lines_view(r@) == about_spec(version@),
{
    let mut out: Vec<Vec<Segment>> = Vec::new();
    assert(lines_view(out@) =~= Seq::<Seq<SegV>>::empty());
    push_about_intro(&mut out, version);
    push_about_global(&mut out);
    push_about_source(&mut out);
    push_about_tree(&mut out);
    push_about_search(&mut out);
    assert(lines_view(out@) =~= about_spec(version@));
    out
}

} // verus!
