//! File-format detection and the per-format mapping from a tree path to a
//! line of the raw text.
//!
//! Every supported format is a variant of [`FileFormat`]; the codecs that
//! turn text into a document and back are in `codec`.
use vstd::prelude::*;
use crate::codec::{parse_spec, parse_text, serialize_spec, serialize_text};
use crate::value::{JVal, JsonValue};
use crate::text::{chars_of, lead_count, leading_count, lines_of, lines_seq, parse_usize, parse_usize_spec, push_all, starts_with_chars, starts_with_seq, to_lowercase, trim_chars, trim_seq, trim_start_chars, trim_start_seq, lowercase_spec, ascii_lower, ascii_upper, ascii_upper_char, is_ascii_text};

verus! {

/// All file formats the editor can open and save.
#[derive(Debug, Clone, Copy, PartialEq, Eq, Structural)]
pub enum FileFormat {
    Json,
    Yaml,
    Toml,
    Xml,
}

impl Default for FileFormat {
    fn default() -> (r: FileFormat)
        ensures
            r == FileFormat::Json,
    {
        FileFormat::Json
    }
}

/// The extension of a path's file name, as `Path::extension` finds it
/// (the text after the last `.` of the last component, unless that `.` is
/// its first character), when it is valid UTF-8.
pub uninterp spec fn path_extension_spec(path: Seq<char>) -> Option<Seq<char>>;

/// `Path::new(path).extension()` as text.  The contract ties the result to
/// the argument through `path_extension_spec`; the rules of `std::path` for
/// components are not restated.
#[verifier::external_body]
pub(crate) fn path_extension(path: &str) -> (r: Option<String>)
    ensures
        match r {
            Some(e) => path_extension_spec(path@) == Some(e@),
            None => path_extension_spec(path@) is None,
        },
{
    std::path::Path::new(path).extension().and_then(|e| e.to_str()).map(|e| e.to_string())
}

/// The format named by an extension (compared in lower case); JSON for any
/// other extension.
pub open spec fn format_for_extension(ext: Seq<char>) -> FileFormat {
    let l = lowercase_spec(ext);
    if l == "yaml"@ || l == "yml"@ {
        FileFormat::Yaml
    } else if l == "toml"@ {
        FileFormat::Toml
    } else if l == "xml"@ {
        FileFormat::Xml
    } else {
        FileFormat::Json
    }
}

/// Whether `s` is one of the extensions any format handles.
pub open spec fn supported_lower(s: Seq<char>) -> bool {
    s == "json"@ || s == "yaml"@ || s == "yml"@ || s == "toml"@ || s == "xml"@
}

fn str_eq(a: &str, b: &str) -> (r: bool)
    ensures
        r == (a@ == b@),
{
    let x = chars_of(a);
    let y = chars_of(b);
    crate::text::chars_eq(&x, &y)
}

/// The format of a file at `path`: by its extension, JSON without one.
pub open spec fn format_of_path(path: Seq<char>) -> FileFormat {
    match path_extension_spec(path) {
        Some(e) => format_for_extension(e),
        None => FileFormat::Json,
    }
}

/// A name of small ASCII letters is its own lower case, and so is its
/// upper case once lowered again.
proof fn lemma_ascii_name(e: Seq<char>)
    requires
        forall|i: int| 0 <= i < e.len() ==> 97 <= (#[trigger] e[i] as u32) <= 122,
    ensures
        lowercase_spec(e) == e,
        lowercase_spec(ascii_upper(e)) == e,
{
    assert(is_ascii_text(e));
    assert(ascii_lower(e) =~= e);
    let u = ascii_upper(e);
    assert forall|i: int| 0 <= i < u.len() implies (#[trigger] u[i] as u32) < 128 by {
        assert(u[i] == ascii_upper_char(e[i]));
    }
    assert(ascii_lower(u) =~= e) by {
        assert forall|i: int| 0 <= i < e.len() implies #[trigger] ascii_lower(u)[i] == e[i] by {
            assert(u[i] == ascii_upper_char(e[i]));
        }
    }
}

impl FileFormat {
    /// Detect the format from a file path's extension; JSON when there is
    /// none.
    pub fn from_path(path: &str) -> (r: FileFormat)
        ensures
            r == format_of_path(path@),
    {
        match path_extension(path) {
            Some(e) => FileFormat::from_extension(e.as_str()),
            None => FileFormat::Json,
        }
    }

    /// Detect the format from a bare extension (case-insensitive, no dot).
    pub fn from_extension(ext: &str) -> (r: FileFormat)
        ensures
            r == format_for_extension(ext@),
    {
        let l = to_lowercase(ext);
        let l = l.as_str();
        if str_eq(l, "yaml") || str_eq(l, "yml") {
            FileFormat::Yaml
        } else if str_eq(l, "toml") {
            FileFormat::Toml
        } else if str_eq(l, "xml") {
            FileFormat::Xml
        } else {
            FileFormat::Json
        }
    }

    /// The display name of the format.
    pub open spec fn name_spec(&self) -> Seq<char> {
        match self {
            FileFormat::Json => "JSON"@,
            FileFormat::Yaml => "YAML"@,
            FileFormat::Toml => "TOML"@,
            FileFormat::Xml => "XML"@,
        }
    }

    /// Short uppercase label shown in the pane title.
    pub fn name(&self) -> (r: &'static str)
        ensures
            r@ == self.name_spec(),
    {
        match self {
            FileFormat::Json => "JSON",
            FileFormat::Yaml => "YAML",
            FileFormat::Toml => "TOML",
            FileFormat::Xml => "XML",
        }
    }

    /// The file extensions of the format.
    pub open spec fn extensions_spec(&self) -> Seq<Seq<char>> {
        match self {
            FileFormat::Json => seq!["json"@],
            FileFormat::Yaml => seq!["yaml"@, "yml"@],
            FileFormat::Toml => seq!["toml"@],
            FileFormat::Xml => seq!["xml"@],
        }
    }

    /// File extensions associated with this format (lowercase, no dot).
    pub fn extensions(&self) -> (r: Vec<&'static str>)
        ensures
            r@.map_values(|e: &str| e@) == self.extensions_spec(),
    {
        let mut v: Vec<&'static str> = Vec::new();
        match self {
            FileFormat::Json => {
                v.push("json");
            },
            FileFormat::Yaml => {
                v.push("yaml");
                v.push("yml");
            },
            FileFormat::Toml => {
                v.push("toml");
            },
            FileFormat::Xml => {
                v.push("xml");
            },
        }
        assert(v@.map_values(|e: &str| e@) =~= self.extensions_spec());
        v
    }

    /// Every extension across all supported formats.
    pub fn all_extensions() -> (r: Vec<&'static str>)
        ensures
            r@.map_values(|e: &str| e@) == seq!["json"@, "yaml"@, "yml"@, "toml"@, "xml"@],
    {
        let mut v: Vec<&'static str> = Vec::new();
        v.push("json");
        v.push("yaml");
        v.push("yml");
        v.push("toml");
        v.push("xml");
        assert(v@.map_values(|e: &str| e@) =~= seq!["json"@, "yaml"@, "yml"@, "toml"@, "xml"@]);
        v
    }

    /// Whether `ext` (no dot, any case) is handled by any format.
    pub fn is_supported_extension(ext: &str) -> (r: bool)
        ensures
            r == supported_lower(lowercase_spec(ext@)),
    {
        let lower = to_lowercase(ext);
        let all = FileFormat::all_extensions();
        let ghost names = seq!["json"@, "yaml"@, "yml"@, "toml"@, "xml"@];
        let n = all.len();
        assert(all@.map_values(|e: &str| e@).len() == all@.len());
        assert(n == 5);
        for i in 0..n
            invariant
                n == all@.len(),
                n == 5,
                all@.map_values(|e: &str| e@) == names,
                lower@ == lowercase_spec(ext@),
                names == seq!["json"@, "yaml"@, "yml"@, "toml"@, "xml"@],
                forall|j: int| 0 <= j < i ==> names[j] != lower@,
        {
            assert(all@.map_values(|e: &str| e@)[i as int] == all@[i as int]@);
            if str_eq(all[i], lower.as_str()) {
                assert(supported_lower(names[i as int]));
                return true;
            }
        }
        assert(names[0] != lower@ && names[1] != lower@ && names[2] != lower@ && names[3] != lower@
            && names[4] != lower@);
        false
    }

    /// The file a new document of this format is saved to.
    pub open spec fn default_filename_spec(&self) -> Seq<char> {
        match self {
            FileFormat::Json => "output.json"@,
            FileFormat::Yaml => "output.yaml"@,
            FileFormat::Toml => "output.toml"@,
            FileFormat::Xml => "output.xml"@,
        }
    }

    /// Default filename for a first save when no path was given.
    pub fn default_filename(&self) -> (r: &'static str)
        ensures
            r@ == self.default_filename_spec(),
    {
        match self {
            FileFormat::Json => "output.json",
            FileFormat::Yaml => "output.yaml",
            FileFormat::Toml => "output.toml",
            FileFormat::Xml => "output.xml",
        }
    }

    /// The extension added to a name typed without one.
    pub open spec fn default_extension_spec(&self) -> Seq<char> {
        match self {
            FileFormat::Json => "json"@,
            FileFormat::Yaml => "yaml"@,
            FileFormat::Toml => "toml"@,
            FileFormat::Xml => "xml"@,
        }
    }

    /// Canonical file extension for this format (no leading dot).
    pub fn default_extension(&self) -> (r: &'static str)
        ensures
            r@ == self.default_extension_spec(),
    {
        match self {
            FileFormat::Json => "json",
            FileFormat::Yaml => "yaml",
            FileFormat::Toml => "toml",
            FileFormat::Xml => "xml",
        }
    }

    /// Every extension of a format, as written or in upper case, and the
    /// format's default extension all name that format again.
    pub proof fn lemma_extensions_round_trip(self)
        ensures
            forall|i: int|
                0 <= i < self.extensions_spec().len() ==> format_for_extension(
                    #[trigger] self.extensions_spec()[i],
                ) == self && format_for_extension(ascii_upper(self.extensions_spec()[i])) == self,
            format_for_extension(self.default_extension_spec()) == self,
    {
        reveal_strlit("json");
        reveal_strlit("yaml");
        reveal_strlit("yml");
        reveal_strlit("toml");
        reveal_strlit("xml");
        lemma_ascii_name("json"@);
        lemma_ascii_name("yaml"@);
        lemma_ascii_name("yml"@);
        lemma_ascii_name("toml"@);
        lemma_ascii_name("xml"@);
        assert("json"@[0] != "yaml"@[0] && "json"@[0] != "toml"@[0] && "json"@[0] != "xml"@[0]);
        assert("json"@.len() != "yml"@.len());
        assert("yaml"@[0] != "toml"@[0] && "yaml"@[0] != "xml"@[0] && "yml"@[0] != "toml"@[0]);
        assert("yml"@[0] != "xml"@[0] && "toml"@[0] != "xml"@[0]);
        assert("yaml"@.len() != "yml"@.len());
    }

    // ── codec operations ─────────────────────────────────────────────────────

    /// Parse `raw` text into a document.  Returns a human-readable error
    /// message on failure.
    pub fn parse(&self, raw: &str) -> (r: Result<JsonValue, String>)
        ensures
            match r {
                Ok(v) => parse_spec(*self, raw@) == Ok::<JVal, Seq<char>>(v@),
                Err(m) => parse_spec(*self, raw@) == Err::<JVal, Seq<char>>(m@),
            },
    {
        parse_text(*self, raw)
    }

    /// Write a document as this format's canonical text.
    pub fn serialize(&self, value: &JsonValue) -> (r: String)
        ensures
            r@ == serialize_spec(*self, value@),
    {
        serialize_text(*self, value)
    }

    /// The line of `raw` that tree path `path` maps to, per format; XML
    /// maps no path.
    pub open spec fn line_spec(&self, raw: Seq<char>, path: Seq<char>) -> Option<int> {
        match self {
            FileFormat::Json => json_line_spec(raw, path),
            FileFormat::Yaml => yaml_line_spec(raw, path),
            FileFormat::Toml => toml_line_spec(raw, path),
            FileFormat::Xml => None,
        }
    }

    /// Find the 0-based line of `raw` that corresponds to the tree `path`
    /// (dot notation, e.g. `users[0].name`); `None` when the format maps
    /// no path or the path cannot be located.
    pub fn line_for_path(&self, raw: &str, path: &str) -> (r: Option<usize>)
        ensures
            match r {
                Some(x) => self.line_spec(raw@, path@) == Some(x as int),
                None => self.line_spec(raw@, path@) is None,
            },
    {
        match self {
            FileFormat::Json => json_line_for_path(raw, path),
            FileFormat::Yaml => yaml_line_for_path(raw, path),
            FileFormat::Toml => toml_line_for_path(raw, path),
            FileFormat::Xml => None,
        }
    }
}

// ── path segments ────────────────────────────────────────────────────────────

/// The segments of a dot/bracket path: `.`, `[` and `]` each end a
/// segment, empty segments are dropped (`users[0].name` gives `users`, `0`,
/// `name`).
pub open spec fn segments_from(rest: Seq<char>, cur: Seq<char>, parts: Seq<Seq<char>>) -> Seq<Seq<char>>
    decreases rest.len(),
{
    let flushed = if cur.len() > 0 {
        parts.push(cur)
    } else {
        parts
    };
    if rest.len() == 0 {
        flushed
    } else if rest[0] == '.' || rest[0] == '[' || rest[0] == ']' {
        segments_from(rest.drop_first(), Seq::empty(), flushed)
    } else {
        segments_from(rest.drop_first(), cur.push(rest[0]), parts)
    }
}

/// The segments of a path: the runs between `.`, `[` and `]`.
pub open spec fn path_segments_spec(path: Seq<char>) -> Seq<Seq<char>> {
    segments_from(path, Seq::empty(), Seq::empty())
}

/// The views of a list of character vectors.
pub open spec fn vv(s: Seq<Vec<char>>) -> Seq<Seq<char>> {
    s.map_values(|x: Vec<char>| x@)
}

/// Split a dot-notation path into its segments.
pub fn path_segments(path: &Vec<char>) -> (r: Vec<Vec<char>>)
    ensures
        vv(r@) == path_segments_spec(path@),
{
    let n = path.len();
    let mut parts: Vec<Vec<char>> = Vec::new();
    let mut current: Vec<char> = Vec::new();
    assert(path@.skip(0) == path@);
    assert(vv(parts@) =~= Seq::<Seq<char>>::empty());
    assert(current@ =~= Seq::<char>::empty());
    for i in 0..n
        invariant
            n == path@.len(),
            path_segments_spec(path@) == segments_from(path@.skip(i as int), current@, vv(parts@)),
    {
        let c = path[i];
        let ghost rest = path@.skip(i as int);
        assert(rest[0] == c);
        assert(rest.drop_first() == path@.skip(i + 1));
        if c == '.' || c == '[' || c == ']' {
            if current.len() > 0 {
                let ghost b = vv(parts@);
                parts.push(current);
                assert(vv(parts@) =~= b.push(current@));
                current = Vec::new();
            } else {
                assert(current@ =~= Seq::<char>::empty());
            }
        } else {
            current.push(c);
        }
    }
    assert(path@.skip(n as int).len() == 0);
    if current.len() > 0 {
        let ghost b = vv(parts@);
        parts.push(current);
        assert(vv(parts@) =~= b.push(current@));
    }
    parts
}

// ── path to line ─────────────────────────────────────────────────────────────

/// `n` spaces.
pub open spec fn spaces(n: nat) -> Seq<char> {
    Seq::new(n, |i: int| ' ')
}

pub(crate) fn push_spaces(out: &mut Vec<char>, n: u128)
    ensures
        final(out)@ == old(out)@ + spaces(n as nat),
{
    let ghost start = old(out)@;
    let mut k: u128 = 0;
    while k < n
        invariant
            k <= n,
            out@ == start + spaces(k as nat),
        decreases n - k,
    {
        out.push(' ');
        k = k + 1;
        assert(out@ =~= start + spaces(k as nat));
    }
}

/// Whether a line of pretty-printed JSON is an element line at exactly
/// `indent` leading spaces (not a closing bracket).
pub open spec fn json_elem_line(line: Seq<char>, indent: int) -> bool {
    let rest = trim_start_seq(line);
    lead_count(line, true) == indent && rest.len() > 0 && rest[0] != ']' && rest[0] != '}'
}

/// The line (at or after `li`) of the element `remaining` places further
/// among the element lines at `indent`.
pub open spec fn json_elem_scan(lines: Seq<Seq<char>>, li: int, indent: int, remaining: nat) -> Option<int>
    decreases lines.len() - li,
{
    if li < 0 || li >= lines.len() {
        None
    } else if json_elem_line(lines[li], indent) {
        if remaining == 0 {
            Some(li)
        } else {
            json_elem_scan(lines, li + 1, indent, (remaining - 1) as nat)
        }
    } else {
        json_elem_scan(lines, li + 1, indent, remaining)
    }
}

/// The first line at or after `li` that starts with `prefix`.
pub open spec fn first_starting(lines: Seq<Seq<char>>, li: int, prefix: Seq<char>) -> Option<int>
    decreases lines.len() - li,
{
    if li < 0 || li >= lines.len() {
        None
    } else if starts_with_seq(lines[li], prefix) {
        Some(li)
    } else {
        first_starting(lines, li + 1, prefix)
    }
}

/// Follow the path segments `parts[k..]` through pretty-printed JSON lines,
/// starting at line `from`; each segment is searched at two more spaces of
/// indentation than the previous one: a key on a line with exactly that
/// many leading spaces followed by the quoted key, an index among the
/// element lines at that indentation.
pub open spec fn json_walk(lines: Seq<Seq<char>>, parts: Seq<Seq<char>>, k: int, from: int) -> Option<int>
    decreases parts.len() - k,
{
    if k < 0 || k >= parts.len() {
        Some(from)
    } else {
        let indent = (k + 1) * 2;
        let next = match parse_usize_spec(parts[k]) {
            Some(idx) => json_elem_scan(lines, from, indent, idx),
            None => first_starting(
                lines,
                from,
                spaces(indent as nat) + seq!['"'] + parts[k] + seq!['"'],
            ),
        };
        match next {
            Some(f) => json_walk(lines, parts, k + 1, f),
            None => None,
        }
    }
}

/// The 0-based line of `raw` (pretty-printed JSON, two-space indent) where
/// the node at `path` starts.
pub open spec fn json_line_spec(raw: Seq<char>, path: Seq<char>) -> Option<int> {
    let parts = path_segments_spec(path);
    if path.len() == 0 || parts.len() == 0 {
        Some(0)
    } else {
        json_walk(lines_seq(raw), parts, 0, 0)
    }
}

/// The views of the lines.
pub open spec fn lines_view(v: Seq<Vec<char>>) -> Seq<Seq<char>> {
    v.map_values(|l: Vec<char>| l@)
}

proof fn lemma_lines_view(r: Vec<Vec<char>>, s: Seq<char>)
    requires
        r@.len() == lines_seq(s).len(),
        forall|i: int| 0 <= i < r@.len() ==> #[trigger] r@[i]@ == lines_seq(s)[i],
    ensures
        lines_view(r@) == lines_seq(s),
{
    assert(lines_view(r@) =~= lines_seq(s));
}

fn is_json_elem_line(line: &Vec<char>, indent: u128) -> (r: bool)
    ensures
        r == json_elem_line(line@, indent as int),
{
    let leading = leading_count(line, true);
    let rest = trim_start_chars(line);
    leading as u128 == indent && rest.len() > 0 && rest[0] != ']' && rest[0] != '}'
}

fn scan_json_elem(lines: &Vec<Vec<char>>, from: usize, indent: u128, idx: usize) -> (r: Option<usize>)
    requires
        from <= lines@.len(),
    ensures
        match r {
            Some(x) => x < lines@.len() && json_elem_scan(lines_view(lines@), from as int, indent as int, idx as nat)
                == Some(x as int),
            None => json_elem_scan(lines_view(lines@), from as int, indent as int, idx as nat) is None,
        },
{
    let ghost ls = lines_view(lines@);
    let n = lines.len();
    let mut count: usize = 0;
    let mut li = from;
    while li < n
        invariant
            from <= li <= n,
            n == lines@.len(),
            ls == lines_view(lines@),
            count <= idx,
            json_elem_scan(ls, from as int, indent as int, idx as nat) == json_elem_scan(
                ls,
                li as int,
                indent as int,
                (idx - count) as nat,
            ),
        decreases n - li,
    {
        assert(ls[li as int] == lines@[li as int]@);
        if is_json_elem_line(&lines[li], indent) {
            if count == idx {
                return Some(li);
            }
            count = count + 1;
        }
        li = li + 1;
    }
    None
}

fn scan_starting(lines: &Vec<Vec<char>>, from: usize, needle: &Vec<char>) -> (r: Option<usize>)
    requires
        from <= lines@.len(),
    ensures
        match r {
            Some(x) => x < lines@.len() && first_starting(lines_view(lines@), from as int, needle@) == Some(x as int),
            None => first_starting(lines_view(lines@), from as int, needle@) is None,
        },
{
    let ghost ls = lines_view(lines@);
    let n = lines.len();
    let mut li = from;
    while li < n
        invariant
            from <= li <= n,
            n == lines@.len(),
            ls == lines_view(lines@),
            first_starting(ls, from as int, needle@) == first_starting(ls, li as int, needle@),
        decreases n - li,
    {
        assert(ls[li as int] == lines@[li as int]@);
        if starts_with_chars(&lines[li], needle) {
            return Some(li);
        }
        li = li + 1;
    }
    None
}

/// Depth-aware path-to-line mapping for pretty-printed JSON (two-space
/// indent per level), searching forward from the previous segment's line.
pub fn json_line_for_path(raw: &str, path: &str) -> (r: Option<usize>)
    ensures
        match r {
            Some(x) => json_line_spec(raw@, path@) == Some(x as int),
            None => json_line_spec(raw@, path@) is None,
        },
{
    let pc = chars_of(path);
    if pc.len() == 0 {
        return Some(0);
    }
    let parts = path_segments(&pc);
    if parts.len() == 0 {
        return Some(0);
    }
    let rc = chars_of(raw);
    let lines = lines_of(&rc);
    proof {
        lemma_lines_view(lines, rc@);
    }
    let ghost ls = lines_view(lines@);
    let ghost ps = vv(parts@);
    let mut from_line: usize = 0;
    let np = parts.len();
    for k in 0..np
        invariant
            np == parts@.len(),
            ps == vv(parts@),
            ls == lines_view(lines@),
            ls == lines_seq(raw@),
            ps == path_segments_spec(path@),
            from_line <= lines@.len(),
            json_walk(ls, ps, 0, 0) == json_walk(ls, ps, k as int, from_line as int),
    {
        let indent: u128 = (k as u128 + 1) * 2;
        let part = &parts[k];
        assert(ps[k as int] == part@);
        let next = match parse_usize(part) {
            Some(idx) => scan_json_elem(&lines, from_line, indent, idx),
            None => {
                let mut needle: Vec<char> = Vec::new();
                push_spaces(&mut needle, indent);
                needle.push('"');
                push_all(&mut needle, part);
                needle.push('"');
                assert(needle@ =~= spaces(((k + 1) * 2) as nat) + seq!['"'] + ps[k as int] + seq!['"']);
                scan_starting(&lines, from_line, &needle)
            },
        };
        let ghost spec_next = match parse_usize_spec(ps[k as int]) {
            Some(idx) => json_elem_scan(ls, from_line as int, (k + 1) * 2, idx),
            None => first_starting(
                ls,
                from_line as int,
                spaces(((k + 1) * 2) as nat) + seq!['"'] + ps[k as int] + seq!['"'],
            ),
        };
        assert(indent as int == (k + 1) * 2);
        assert(spec_next == match next { Some(f) => Some(f as int), None => None::<int> });
        match next {
            Some(f) => {
                from_line = f;
            },
            None => {
                return None;
            },
        }
    }
    Some(from_line)
}


/// The line (at or after `li`) `remaining` places further among the lines
/// that start with `prefix`.
pub open spec fn prefix_scan(lines: Seq<Seq<char>>, li: int, prefix: Seq<char>, remaining: nat) -> Option<int>
    decreases lines.len() - li,
{
    if li < 0 || li >= lines.len() {
        None
    } else if starts_with_seq(lines[li], prefix) {
        if remaining == 0 {
            Some(li)
        } else {
            prefix_scan(lines, li + 1, prefix, (remaining - 1) as nat)
        }
    } else {
        prefix_scan(lines, li + 1, prefix, remaining)
    }
}

/// The first line at or after `li` with exactly `indent` leading spaces
/// whose text after them starts with `key_colon`.
pub open spec fn yaml_key_scan(lines: Seq<Seq<char>>, li: int, key_colon: Seq<char>, indent: int) -> Option<int>
    decreases lines.len() - li,
{
    if li < 0 || li >= lines.len() {
        None
    } else if starts_with_seq(lines[li].skip(lead_count(lines[li], true) as int), key_colon)
        && lead_count(lines[li], true) == indent {
        Some(li)
    } else {
        yaml_key_scan(lines, li + 1, key_colon, indent)
    }
}

/// Follow `parts[k..]` through block-style YAML lines (two-space indent per
/// level): an index is found by counting `- ` items at the level's indent,
/// a key by its `key:` line at that indent.
pub open spec fn yaml_walk(lines: Seq<Seq<char>>, parts: Seq<Seq<char>>, k: int, from: int) -> Option<int>
    decreases parts.len() - k,
{
    if k < 0 || k >= parts.len() {
        Some(from)
    } else {
        let indent = k * 2;
        let next = match parse_usize_spec(parts[k]) {
            Some(idx) => prefix_scan(lines, from, spaces(indent as nat) + seq!['-', ' '], idx),
            None => yaml_key_scan(lines, from, parts[k] + seq![':'], indent),
        };
        match next {
            Some(f) => yaml_walk(lines, parts, k + 1, f),
            None => None,
        }
    }
}

proof fn lemma_yaml_key_scan(lines: Seq<Seq<char>>, li: int, key_colon: Seq<char>, indent: int)
    ensures
        yaml_key_scan(lines, li, key_colon, indent) matches Some(l) ==> li <= l < lines.len() && 0 <= l
            && lead_count(lines[l], true) == indent && starts_with_seq(
            lines[l].skip(indent),
            key_colon,
        ),
    decreases lines.len() - li,
{
    if 0 <= li < lines.len() {
        lemma_yaml_key_scan(lines, li + 1, key_colon, indent);
    }
}

proof fn lemma_yaml_walk_key(lines: Seq<Seq<char>>, parts: Seq<Seq<char>>, k: int, from: int)
    requires
        0 <= k < parts.len(),
        parse_usize_spec(parts.last()) is None,
    ensures
        yaml_walk(lines, parts, k, from) matches Some(l) ==> 0 <= l < lines.len() && lead_count(lines[l], true)
            == 2 * (parts.len() - 1) && starts_with_seq(
            lines[l].skip(2 * (parts.len() - 1)),
            parts.last() + seq![':'],
        ),
    decreases parts.len() - k,
{
    let next = match parse_usize_spec(parts[k]) {
        Some(idx) => prefix_scan(lines, from, spaces((k * 2) as nat) + seq!['-', ' '], idx),
        None => yaml_key_scan(lines, from, parts[k] + seq![':'], k * 2),
    };
    match next {
        Some(f) => {
            if k + 1 < parts.len() {
                lemma_yaml_walk_key(lines, parts, k + 1, f);
            } else {
                assert(parts[k] == parts.last());
                lemma_yaml_key_scan(lines, from, parts[k] + seq![':'], k * 2);
            }
        },
        None => {},
    }
}

/// A key maps only to a line at its own depth: when the last segment of
/// `path` is a key (not an index) and the path is found, the line found
/// has exactly two spaces of indentation per segment before the last, and
/// the key and a colon after them.  A top-level key is found only on a
/// line without indentation.
pub proof fn lemma_yaml_key_depth(raw: Seq<char>, path: Seq<char>)
    requires
        path_segments_spec(path).len() > 0,
        parse_usize_spec(path_segments_spec(path).last()) is None,
    ensures
        ({
            let parts = path_segments_spec(path);
            let lines = lines_seq(raw);
            yaml_line_spec(raw, path) matches Some(l) ==> 0 <= l < lines.len() && lead_count(lines[l], true)
                == 2 * (parts.len() - 1) && starts_with_seq(
                lines[l].skip(2 * (parts.len() - 1)),
                parts.last() + seq![':'],
            )
        }),
{
    let parts = path_segments_spec(path);
    if path.len() == 0 {
        assert(path_segments_spec(path) == segments_from(path, Seq::empty(), Seq::empty()));
        assert(parts.len() == 0);
    }
    lemma_yaml_walk_key(lines_seq(raw), parts, 0, 0);
}

/// The 0-based line of `raw` (YAML) where the node at `path` starts.
pub open spec fn yaml_line_spec(raw: Seq<char>, path: Seq<char>) -> Option<int> {
    let parts = path_segments_spec(path);
    if path.len() == 0 || parts.len() == 0 {
        Some(0)
    } else {
        yaml_walk(lines_seq(raw), parts, 0, 0)
    }
}

fn scan_prefix(lines: &Vec<Vec<char>>, from: usize, prefix: &Vec<char>, idx: usize) -> (r: Option<usize>)
    requires
        from <= lines@.len(),
    ensures
        match r {
            Some(x) => x < lines@.len() && prefix_scan(lines_view(lines@), from as int, prefix@, idx as nat)
                == Some(x as int),
            None => prefix_scan(lines_view(lines@), from as int, prefix@, idx as nat) is None,
        },
{
    let ghost ls = lines_view(lines@);
    let n = lines.len();
    let mut count: usize = 0;
    let mut li = from;
    while li < n
        invariant
            from <= li <= n,
            n == lines@.len(),
            ls == lines_view(lines@),
            count <= idx,
            prefix_scan(ls, from as int, prefix@, idx as nat) == prefix_scan(
                ls,
                li as int,
                prefix@,
                (idx - count) as nat,
            ),
        decreases n - li,
    {
        assert(ls[li as int] == lines@[li as int]@);
        if starts_with_chars(&lines[li], prefix) {
            if count == idx {
                return Some(li);
            }
            count = count + 1;
        }
        li = li + 1;
    }
    None
}

fn scan_yaml_key(lines: &Vec<Vec<char>>, from: usize, key_colon: &Vec<char>, indent: u128) -> (r: Option<usize>)
    requires
        from <= lines@.len(),
    ensures
        match r {
            Some(x) => x < lines@.len() && yaml_key_scan(lines_view(lines@), from as int, key_colon@, indent as int)
                == Some(x as int),
            None => yaml_key_scan(lines_view(lines@), from as int, key_colon@, indent as int) is None,
        },
{
    let ghost ls = lines_view(lines@);
    let n = lines.len();
    let mut li = from;
    while li < n
        invariant
            from <= li <= n,
            n == lines@.len(),
            ls == lines_view(lines@),
            yaml_key_scan(ls, from as int, key_colon@, indent as int) == yaml_key_scan(
                ls,
                li as int,
                key_colon@,
                indent as int,
            ),
        decreases n - li,
    {
        assert(ls[li as int] == lines@[li as int]@);
        let line = &lines[li];
        let lead = leading_count(line, true);
        let rest = crate::text::sub_chars(line, lead, line.len());
        if starts_with_chars(&rest, key_colon) && lead as u128 == indent {
            return Some(li);
        }
        li = li + 1;
    }
    None
}

/// Simple YAML path-to-line mapping, searching forward from the previous
/// segment's line.
pub fn yaml_line_for_path(raw: &str, path: &str) -> (r: Option<usize>)
    ensures
        match r {
            Some(x) => yaml_line_spec(raw@, path@) == Some(x as int),
            None => yaml_line_spec(raw@, path@) is None,
        },
{
    let pc = chars_of(path);
    if pc.len() == 0 {
        return Some(0);
    }
    let parts = path_segments(&pc);
    if parts.len() == 0 {
        return Some(0);
    }
    let rc = chars_of(raw);
    let lines = lines_of(&rc);
    proof {
        lemma_lines_view(lines, rc@);
    }
    let ghost ls = lines_view(lines@);
    let ghost ps = vv(parts@);
    let mut from_line: usize = 0;
    let np = parts.len();
    for k in 0..np
        invariant
            np == parts@.len(),
            ps == vv(parts@),
            ls == lines_view(lines@),
            ls == lines_seq(raw@),
            ps == path_segments_spec(path@),
            from_line <= lines@.len(),
            yaml_walk(ls, ps, 0, 0) == yaml_walk(ls, ps, k as int, from_line as int),
    {
        let indent: u128 = k as u128 * 2;
        let part = &parts[k];
        assert(ps[k as int] == part@);
        let next = match parse_usize(part) {
            Some(idx) => {
                let mut prefix: Vec<char> = Vec::new();
                push_spaces(&mut prefix, indent);
                prefix.push('-');
                prefix.push(' ');
                assert(prefix@ =~= spaces((k * 2) as nat) + seq!['-', ' ']);
                scan_prefix(&lines, from_line, &prefix, idx)
            },
            None => {
                let mut key_colon: Vec<char> = Vec::new();
                push_all(&mut key_colon, part);
                key_colon.push(':');
                assert(key_colon@ =~= ps[k as int] + seq![':']);
                assert(indent as int == k * 2);
                scan_yaml_key(&lines, from_line, &key_colon, indent)
            },
        };
        match next {
            Some(f) => {
                from_line = f;
            },
            None => {
                return None;
            },
        }
    }
    Some(from_line)
}

/// The parts joined with `.` between them.
pub open spec fn join_dots(s: Seq<Seq<char>>) -> Seq<char>
    decreases s.len(),
{
    if s.len() == 0 {
        Seq::empty()
    } else if s.len() == 1 {
        s[0]
    } else {
        join_dots(s.drop_last()) + seq!['.'] + s.last()
    }
}

/// Whether `line` assigns `key` (`key = …` or `key=…` at column 0).
pub open spec fn toml_assigns(line: Seq<char>, key: Seq<char>) -> bool {
    starts_with_seq(line, key + seq![' ']) || starts_with_seq(line, key + seq!['='])
}

/// The first line at or after `li` that assigns `key`.
pub open spec fn toml_first_assign(lines: Seq<Seq<char>>, li: int, key: Seq<char>) -> Option<int>
    decreases lines.len() - li,
{
    if li < 0 || li >= lines.len() {
        None
    } else if toml_assigns(lines[li], key) {
        Some(li)
    } else {
        toml_first_assign(lines, li + 1, key)
    }
}

/// The first line at or after `li` that assigns `key`, stopping at the
/// next section header after line `start`.
pub open spec fn toml_section_scan(lines: Seq<Seq<char>>, li: int, start: int, key: Seq<char>) -> Option<int>
    decreases lines.len() - li,
{
    if li < 0 || li >= lines.len() {
        None
    } else if toml_assigns(lines[li], key) {
        Some(li)
    } else if li > start && starts_with_seq(lines[li], seq!['[']) {
        None
    } else {
        toml_section_scan(lines, li + 1, start, key)
    }
}

/// The first line at or after `li` that, trimmed, is `a` or `b`.
pub open spec fn first_trimmed_eq(lines: Seq<Seq<char>>, li: int, a: Seq<char>, b: Seq<char>) -> Option<int>
    decreases lines.len() - li,
{
    if li < 0 || li >= lines.len() {
        None
    } else if trim_seq(lines[li]) == a || trim_seq(lines[li]) == b {
        Some(li)
    } else {
        first_trimmed_eq(lines, li + 1, a, b)
    }
}

/// The 0-based line of `raw` (TOML) for the node at `path`: a top-level
/// key's assignment line, or the assignment of the last key inside the
/// `[section]` / `[[section]]` named by the other segments.
pub open spec fn toml_line_spec(raw: Seq<char>, path: Seq<char>) -> Option<int> {
    let parts = path_segments_spec(path);
    let lines = lines_seq(raw);
    if path.len() == 0 || parts.len() == 0 {
        Some(0)
    } else if parts.len() == 1 {
        toml_first_assign(lines, 0, parts[0])
    } else {
        let section = join_dots(parts.drop_last());
        match first_trimmed_eq(
            lines,
            0,
            seq!['['] + section + seq![']'],
            seq!['[', '['] + section + seq![']', ']'],
        ) {
            None => None,
            Some(start) => toml_section_scan(lines, start, start, parts.last()),
        }
    }
}

fn assigns(line: &Vec<char>, key: &Vec<char>) -> (r: bool)
    ensures
        r == toml_assigns(line@, key@),
{
    let mut a: Vec<char> = Vec::new();
    push_all(&mut a, key);
    a.push(' ');
    let mut b: Vec<char> = Vec::new();
    push_all(&mut b, key);
    b.push('=');
    assert(a@ =~= key@ + seq![' ']);
    assert(b@ =~= key@ + seq!['=']);
    starts_with_chars(line, &a) || starts_with_chars(line, &b)
}

/// Simple TOML path-to-line mapping (best effort).
pub fn toml_line_for_path(raw: &str, path: &str) -> (r: Option<usize>)
    ensures
        match r {
            Some(x) => toml_line_spec(raw@, path@) == Some(x as int),
            None => toml_line_spec(raw@, path@) is None,
        },
{
    let pc = chars_of(path);
    if pc.len() == 0 {
        return Some(0);
    }
    let parts = path_segments(&pc);
    if parts.len() == 0 {
        return Some(0);
    }
    let rc = chars_of(raw);
    let lines = lines_of(&rc);
    proof {
        lemma_lines_view(lines, rc@);
    }
    let ghost ls = lines_view(lines@);
    let ghost ps = vv(parts@);
    let n = lines.len();
    let np = parts.len();
    if np == 1 {
        assert(ps[0] == parts@[0]@);
        let mut li: usize = 0;
        while li < n
            invariant
                li <= n,
                n == lines@.len(),
                ls == lines_view(lines@),
                ps == vv(parts@),
                ls == lines_seq(raw@),
                ps == path_segments_spec(path@),
                parts@.len() == 1,
                pc@ == path@,
                pc@.len() > 0,
                toml_first_assign(ls, 0, ps[0]) == toml_first_assign(ls, li as int, ps[0]),
            decreases n - li,
        {
            assert(ls[li as int] == lines@[li as int]@);
            if assigns(&lines[li], &parts[0]) {
                return Some(li);
            }
            li = li + 1;
        }
        return None;
    }
    // Join all but the last segment with dots.
    let mut section: Vec<char> = Vec::new();
    for j in 0..np - 1
        invariant
            np == parts@.len(),
            np >= 2,
            ps == vv(parts@),
            section@ == join_dots(ps.take(j as int)),
    {
        assert(ps[j as int] == parts@[j as int]@);
        if j > 0 {
            section.push('.');
        }
        push_all(&mut section, &parts[j]);
        assert(ps.take(j + 1).drop_last() =~= ps.take(j as int));
        assert(section@ =~= join_dots(ps.take(j + 1)));
    }
    assert(ps.take(np - 1) =~= ps.drop_last());
    let mut table: Vec<char> = Vec::new();
    table.push('[');
    push_all(&mut table, &section);
    table.push(']');
    let mut array: Vec<char> = Vec::new();
    array.push('[');
    array.push('[');
    push_all(&mut array, &section);
    array.push(']');
    array.push(']');
    assert(table@ =~= seq!['['] + join_dots(ps.drop_last()) + seq![']']);
    assert(array@ =~= seq!['[', '['] + join_dots(ps.drop_last()) + seq![']', ']']);
    let mut start: usize = 0;
    let mut found = false;
    while start < n && !found
        invariant
            start <= n,
            n == lines@.len(),
            ls == lines_view(lines@),
            found ==> start < n && (trim_seq(ls[start as int]) == table@ || trim_seq(ls[start as int]) == array@),
            found ==> first_trimmed_eq(ls, 0, table@, array@) == Some(start as int),
            table@ == seq!['['] + join_dots(ps.drop_last()) + seq![']'],
            array@ == seq!['[', '['] + join_dots(ps.drop_last()) + seq![']', ']'],
            ls == lines_seq(raw@),
            ps == path_segments_spec(path@),
            np == parts@.len(),
            np >= 2,
            pc@ == path@,
            pc@.len() > 0,
            !found ==> first_trimmed_eq(ls, 0, table@, array@) == first_trimmed_eq(ls, start as int, table@, array@),
        decreases n - start, if found { 0int } else { 1int },
    {
        assert(ls[start as int] == lines@[start as int]@);
        let t = trim_chars(&lines[start]);
        if crate::text::chars_eq(&t, &table) || crate::text::chars_eq(&t, &array) {
            found = true;
        } else {
            start = start + 1;
        }
    }
    if !found {
        return None;
    }
    let last = &parts[np - 1];
    assert(ps.last() == last@);
    let mut li = start;
    while li < n
        invariant
            start <= li <= n,
            n == lines@.len(),
            ls == lines_view(lines@),
            ls == lines_seq(raw@),
            ps == path_segments_spec(path@),
            np == parts@.len(),
            np >= 2,
            pc@ == path@,
            pc@.len() > 0,
            ps.last() == last@,
            ps.len() == np,
            first_trimmed_eq(ls, 0, seq!['['] + join_dots(ps.drop_last()) + seq![']'], seq!['[', '['] + join_dots(ps.drop_last()) + seq![']', ']']) == Some(start as int),
            toml_section_scan(ls, start as int, start as int, last@) == toml_section_scan(
                ls,
                li as int,
                start as int,
                last@,
            ),
        decreases n - li,
    {
        assert(ls[li as int] == lines@[li as int]@);
        let line = &lines[li];
        if assigns(line, last) {
            return Some(li);
        }
        if li > start && line.len() > 0 && line[0] == '[' {
            assert(line@.take(1) =~= seq!['[']);
            return None;
        }
        assert(starts_with_seq(line@, seq!['[']) == (line@.len() > 0 && line@[0] == '[')) by {
            if line@.len() > 0 {
                assert(line@.take(1)[0] == line@[0]);
                if line@[0] == '[' {
                    assert(line@.take(1) =~= seq!['[']);
                } else {
                    assert(line@.take(1)[0] != seq!['['][0]);
                }
            }
        }
        li = li + 1;
    }
    None
}

} // verus!
