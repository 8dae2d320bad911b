//! Text codecs: raw text of each format to a document value and back.
//!
//! JSON, YAML and TOML text is read and written by `serde_json`,
//! `serde_yaml` and `toml`; XML is read by `roxmltree`.  The `external_body`
//! functions below make those calls; how a YAML or XML tree becomes a document, the
//! error messages, and the XML writer are this module's own, verified code.
use vstd::prelude::*;
use crate::text::{
    chars_of, decimal, lines_of, lines_seq, push_all, push_str, string_of, trim_chars, trim_seq,
    usize_to_chars,
};
use crate::format::FileFormat;
use crate::tree::{truncate_chars, truncate_spec, utf8_length};
use crate::value::{
    JVal, JsonEntry, JsonValue, entries_insert, entries_view, find_entry, lemma_array_of,
    lemma_array_view, lemma_object_of, lemma_object_view, lemma_obj_find, obj_find, obj_insert,
    obj_get, lemma_obj_insert_get, lemma_obj_update_get,
    vals_vw,
};

verus! {

// ── JSON ─────────────────────────────────────────────────────────────────────

/// What `serde_json::from_str::<serde_json::Value>` gives for `text`: the
/// document, or the error's (line, column, message).
pub uninterp spec fn serde_json_parse(text: Seq<char>) -> Result<JVal, (int, int, Seq<char>)>;

/// What `serde_json::to_string_pretty` gives for a document: the text, or
/// the error's message.
pub uninterp spec fn serde_json_pretty(v: JVal) -> Result<Seq<char>, Seq<char>>;

/// `serde_json`'s value tree, carried opaque between the codec's trusted
/// conversions.
#[verifier::external_type_specification]
#[verifier::external_body]
pub struct ExSerdeJsonValue(serde_json::Value);

/// A syntax error reported by `serde_json`.
pub struct JsonSyntaxError {
    /// One-based line of the error.
    pub line: usize,
    /// One-based column of the error.
    pub column: usize,
    /// The error's own message (`Display`).
    pub message: String,
}

/// The document tree of a `serde_json::Value`, one variant for one, numbers
/// by their `Display` text and members in the map's (sorted) order.
#[verifier::external_body]
fn from_serde_json(v: serde_json::Value) -> JsonValue {
    match v {
        serde_json::Value::Null => JsonValue::Null,
        serde_json::Value::Bool(b) => JsonValue::Bool(b),
        serde_json::Value::Number(n) => JsonValue::Number(n.to_string()),
        serde_json::Value::String(s) => JsonValue::String(s),
        serde_json::Value::Array(a) => JsonValue::Array(a.into_iter().map(from_serde_json).collect()),
        serde_json::Value::Object(m) => JsonValue::Object(
            m.into_iter().map(|(key, value)| JsonEntry { key, value: from_serde_json(value) }).collect(),
        ),
    }
}

/// The `serde_json::Value` of a document tree, one variant for one; a
/// number whose text `serde_json` does not read as a number becomes a
/// string.
#[verifier::external_body]
fn to_serde_json(v: &JsonValue) -> serde_json::Value {
    match v {
        JsonValue::Null => serde_json::Value::Null,
        JsonValue::Bool(b) => serde_json::Value::Bool(*b),
        JsonValue::Number(t) => match t.parse::<serde_json::Number>() {
            Ok(n) => serde_json::Value::Number(n),
            Err(_) => serde_json::Value::String(t.clone()),
        },
        JsonValue::String(s) => serde_json::Value::String(s.clone()),
        JsonValue::Array(a) => serde_json::Value::Array(a.iter().map(to_serde_json).collect()),
        JsonValue::Object(m) => serde_json::Value::Object(
            m.iter().map(|e| (e.key.clone(), to_serde_json(&e.value))).collect(),
        ),
    }
}

/// `serde_json::from_str::<serde_json::Value>`: the contract names the
/// outcome `serde_json_parse(raw@)`; the JSON grammar is not restated.
#[verifier::external_body]
pub(crate) fn serde_json_from_str(raw: &str) -> (r: Result<JsonValue, JsonSyntaxError>)
    ensures
        match r {
            Ok(v) => serde_json_parse(raw@) == Ok::<JVal, (int, int, Seq<char>)>(v@),
            Err(e) => serde_json_parse(raw@) == Err::<JVal, (int, int, Seq<char>)>(
                (e.line as int, e.column as int, e.message@),
            ),
        },
{
    match serde_json::from_str::<serde_json::Value>(raw) {
        Ok(v) => Ok(from_serde_json(v)),
        Err(e) => Err(JsonSyntaxError { line: e.line(), column: e.column(), message: e.to_string() }),
    }
}

/// `serde_json::to_string_pretty` (two-space indent): the contract names
/// the outcome `serde_json_pretty(v@)`.
#[verifier::external_body]
fn serde_json_to_string_pretty(v: &JsonValue) -> (r: Result<String, String>)
    ensures
        match r {
            Ok(s) => serde_json_pretty(v@) == Ok::<Seq<char>, Seq<char>>(s@),
            Err(e) => serde_json_pretty(v@) == Err::<Seq<char>, Seq<char>>(e@),
        },
{
    serde_json::to_string_pretty(&to_serde_json(v)).map_err(|e| e.to_string())
}

/// The text of line `line` (one-based) of `raw`, trimmed; empty when there
/// is no such line.
pub open spec fn error_snippet(raw: Seq<char>, line: int) -> Seq<char> {
    let ls = lines_seq(raw);
    let i = if line > 0 {
        line - 1
    } else {
        0
    };
    if i < ls.len() {
        trim_seq(ls[i])
    } else {
        Seq::empty()
    }
}

/// Longest snippet shown in a JSON error, in bytes.
pub const PREVIEW_MAX: usize = 40;

/// The snippet shown in a JSON error: cut to at most 40 bytes (at a
/// character boundary) and marked `…` when longer.
pub open spec fn preview_spec(raw: Seq<char>, line: int) -> Seq<char> {
    let s = error_snippet(raw, line);
    if crate::tree::utf8_len(s) > PREVIEW_MAX {
        truncate_spec(s, PREVIEW_MAX as int) + seq!['…']
    } else {
        s
    }
}

/// The status-bar message for a JSON syntax error.
pub open spec fn json_error_text(raw: Seq<char>, line: int, column: int, message: Seq<char>) -> Seq<char> {
    "JSON error at "@ + decimal(line as nat) + seq![':'] + decimal(column as nat) + " — "@
        + message + " (near: \""@ + preview_spec(raw, line) + "\")"@
}

/// `parse_json`'s outcome.
pub open spec fn json_parse_spec(raw: Seq<char>) -> Result<JVal, Seq<char>> {
    match serde_json_parse(raw) {
        Ok(v) => Ok(v),
        Err((line, column, message)) => Err(json_error_text(raw, line, column, message)),
    }
}

/// The trimmed text of line `line` (one-based) of `raw`.
fn snippet_of(raw: &str, line: usize) -> (r: Vec<char>)
    ensures
        r@ == error_snippet(raw@, line as int),
{
    let rc = chars_of(raw);
    let ls = lines_of(&rc);
    let i: usize = if line > 0 {
        line - 1
    } else {
        0
    };
    if i < ls.len() {
        trim_chars(&ls[i])
    } else {
        Vec::new()
    }
}

/// The status-bar message for a JSON syntax error at `line`:`column`.
pub fn json_error_message(raw: &str, line: usize, column: usize, message: &str) -> (r: String)
    ensures
        r@ == json_error_text(raw@, line as int, column as int, message@),
{
    let snippet = snippet_of(raw, line);
    let cut = truncate_chars(&snippet, PREVIEW_MAX);
    let preview: Vec<char> = if utf8_length(&snippet) > PREVIEW_MAX as u128 {
        let mut p: Vec<char> = Vec::new();
        push_all(&mut p, &cut);
        p.push('…');
        p
    } else {
        cut
    };
    let mut out: Vec<char> = Vec::new();
    push_str(&mut out, "JSON error at ");
    let l = usize_to_chars(line);
    push_all(&mut out, &l);
    out.push(':');
    let c = usize_to_chars(column);
    push_all(&mut out, &c);
    push_str(&mut out, " — ");
    push_str(&mut out, message);
    push_str(&mut out, " (near: \"");
    push_all(&mut out, &preview);
    push_str(&mut out, "\")");
    assert(out@ =~= json_error_text(raw@, line as int, column as int, message@));
    string_of(out.as_slice())
}


/// The document read from JSON text `raw`, given what `serde_json` read:
/// the value, or the status-bar message for the syntax error.
pub fn json_document(raw: &str, read: Result<JsonValue, JsonSyntaxError>) -> (r: Result<JsonValue, String>)
    ensures
        read matches Ok(v) ==> r matches Ok(w) && w@ == v@,
        read matches Err(e) ==> r matches Err(m) && m@ == json_error_text(
            raw@,
            e.line as int,
            e.column as int,
            e.message@,
        ),
{
    match read {
        Ok(v) => Ok(v),
        Err(e) => Err(json_error_message(raw, e.line, e.column, e.message.as_str())),
    }
}

/// Parse JSON text into a document; an error names its line, column and
/// a preview of the offending line.
fn parse_json(raw: &str) -> (r: Result<JsonValue, String>)
    ensures
        match r {
            Ok(v) => json_parse_spec(raw@) == Ok::<JVal, Seq<char>>(v@),
            Err(m) => json_parse_spec(raw@) == Err::<JVal, Seq<char>>(m@),
        },
{
    json_document(raw, serde_json_from_str(raw))
}

// ── YAML ─────────────────────────────────────────────────────────────────────

/// What the document needs of a YAML number: its value as `i64` and as
/// `u64` when it has one, the JSON text of its `f64` value when that is
/// finite, and its own `Display` text.
#[derive(Debug)]
pub struct YamlNumber {
    pub as_i64: Option<i64>,
    pub as_u64: Option<u64>,
    pub float_json: Option<String>,
    pub text: String,
}

/// A YAML value as `serde_yaml` reads it.
#[derive(Debug)]
pub enum YamlValue {
    Null,
    Bool(bool),
    Number(YamlNumber),
    String(String),
    Sequence(Vec<YamlValue>),
    Mapping(Vec<YamlEntry>),
    /// A tagged value: the tag's text (`!Ref`) and the value.
    Tagged(String, Box<YamlValue>),
}

/// One mapping entry; `key_debug` is the key's `Debug` text.
#[derive(Debug)]
pub struct YamlEntry {
    pub key: YamlValue,
    pub key_debug: String,
    pub value: YamlValue,
}

/// The view of a YAML number.
pub struct YNum {
    pub as_i64: Option<i64>,
    pub as_u64: Option<u64>,
    pub float_json: Option<Seq<char>>,
    pub text: Seq<char>,
}

/// The view of a YAML value.
pub enum YVal {
    Null,
    Bool(bool),
    Number(YNum),
    Str(Seq<char>),
    Sequence(Seq<YVal>),
    Mapping(Seq<(YVal, Seq<char>, YVal)>),
    Tagged(Seq<char>, Box<YVal>),
}

impl YamlNumber {
    /// The view of a YAML number.
    pub open spec fn vw(&self) -> YNum {
        YNum {
            as_i64: self.as_i64,
            as_u64: self.as_u64,
            float_json: match self.float_json {
                Some(t) => Some(t@),
                None => None,
            },
            text: self.text@,
        }
    }
}

impl YamlValue {
    /// The view of a YAML value.
    pub open spec fn vw(&self) -> YVal
        decreases self, 1nat, 0nat,
    {
        match self {
            YamlValue::Null => YVal::Null,
            YamlValue::Bool(b) => YVal::Bool(*b),
            YamlValue::Number(n) => YVal::Number(n.vw()),
            YamlValue::String(s) => YVal::Str(s@),
            YamlValue::Sequence(a) => YVal::Sequence(self.items_vw(a@.len())),
            YamlValue::Mapping(m) => YVal::Mapping(self.entries_vw(m@.len())),
            YamlValue::Tagged(t, b) => YVal::Tagged(t@, Box::new(b.vw())),
        }
    }

    /// The views of the first `n` items of a sequence.
    pub open spec fn items_vw(&self, n: nat) -> Seq<YVal>
        decreases self, 0nat, n,
    {
        match self {
            YamlValue::Sequence(a) => if 0 < n <= a@.len() {
                proof {
                    assert(decreases_to!(self => a@[n - 1]));
                }
                self.items_vw((n - 1) as nat).push(a@[n - 1].vw())
            } else {
                Seq::empty()
            },
            _ => Seq::empty(),
        }
    }

    /// The views of the first `n` entries of a mapping.
    pub open spec fn entries_vw(&self, n: nat) -> Seq<(YVal, Seq<char>, YVal)>
        decreases self, 0nat, n,
    {
        match self {
            YamlValue::Mapping(m) => if 0 < n <= m@.len() {
                proof {
                    assert(decreases_to!(self => m@[n - 1].key));
                    assert(decreases_to!(self => m@[n - 1].value));
                }
                self.entries_vw((n - 1) as nat).push(
                    (m@[n - 1].key.vw(), m@[n - 1].key_debug@, m@[n - 1].value.vw()),
                )
            } else {
                Seq::empty()
            },
            _ => Seq::empty(),
        }
    }
}

impl View for YamlValue {
    type V = YVal;

    open spec fn view(&self) -> YVal {
        self.vw()
    }
}

proof fn lemma_yaml_items(v: YamlValue, n: nat)
    requires
        v matches YamlValue::Sequence(a) && n <= a@.len(),
    ensures
        v.items_vw(n).len() == n,
        forall|i: int| 0 <= i < n ==> #[trigger] v.items_vw(n)[i] == v->Sequence_0@[i].vw(),
    decreases n,
{
    if n > 0 {
        lemma_yaml_items(v, (n - 1) as nat);
    }
}

proof fn lemma_yaml_entries(v: YamlValue, n: nat)
    requires
        v matches YamlValue::Mapping(m) && n <= m@.len(),
    ensures
        v.entries_vw(n).len() == n,
        forall|i: int|
            0 <= i < n ==> #[trigger] v.entries_vw(n)[i] == (
                v->Mapping_0@[i].key.vw(),
                v->Mapping_0@[i].key_debug@,
                v->Mapping_0@[i].value.vw(),
            ),
    decreases n,
{
    if n > 0 {
        lemma_yaml_entries(v, (n - 1) as nat);
    }
}

/// The decimal text of a signed integer.
pub open spec fn int_text(i: int) -> Seq<char> {
    if i < 0 {
        seq!['-'] + decimal((-i) as nat)
    } else {
        decimal(i as nat)
    }
}

fn i64_to_chars(i: i64) -> (r: Vec<char>)
    ensures
        r@ == int_text(i as int),
{
    if i < 0 {
        let m: u128 = (0i128 - i as i128) as u128;
        let mut out: Vec<char> = Vec::new();
        out.push('-');
        let d = usize_to_chars_u128(m);
        push_all(&mut out, &d);
        out
    } else {
        usize_to_chars_u128(i as u128)
    }
}

fn digit_of_u128(d: u128) -> (c: char)
    requires
        d < 10,
    ensures
        c == crate::text::digit_char(d as nat),
{
    let b: u8 = d as u8 + 48u8;
    b as char
}

/// The decimal digits of `n`.
fn usize_to_chars_u128(n: u128) -> (r: Vec<char>)
    ensures
        r@ == decimal(n as nat),
    decreases n,
{
    if n < 10 {
        let mut v = Vec::new();
        v.push(digit_of_u128(n));
        v
    } else {
        let mut v = usize_to_chars_u128(n / 10);
        v.push(digit_of_u128(n % 10));
        v
    }
}

/// The document value of a YAML number: an integer that fits `i64`, else
/// one that fits `u64`, else a finite float, else the number's text as a
/// string.
pub open spec fn yaml_number_json(n: YNum) -> JVal {
    match n.as_i64 {
        Some(i) => JVal::Number(int_text(i as int)),
        None => match n.as_u64 {
            Some(u) => JVal::Number(decimal(u as nat)),
            None => match n.float_json {
                Some(t) => JVal::Number(t),
                None => JVal::Str(n.text),
            },
        },
    }
}

/// The document key of a YAML mapping key: a string as is, a number or
/// boolean by its text, null as `null`, anything else by its `Debug` text.
pub open spec fn yaml_key_text(k: YVal, debug: Seq<char>) -> Seq<char> {
    match k {
        YVal::Str(s) => s,
        YVal::Number(n) => n.text,
        YVal::Bool(b) => if b {
            "true"@
        } else {
            "false"@
        },
        YVal::Null => "null"@,
        _ => debug,
    }
}

/// The document of a YAML value.  A tagged value `!Tag v` becomes the
/// one-member object `{"!Tag": v}`; a mapping's entries are inserted in
/// order (a later equal key replaces an earlier one).
pub open spec fn yaml_json(y: YVal) -> JVal
    decreases y, 1nat, 0nat,
{
    match y {
        YVal::Null => JVal::Null,
        YVal::Bool(b) => JVal::Bool(b),
        YVal::Number(n) => yaml_number_json(n),
        YVal::Str(s) => JVal::Str(s),
        YVal::Sequence(items) => JVal::Array(yaml_json_items(y, items.len())),
        YVal::Mapping(es) => JVal::Object(yaml_json_members(y, es.len())),
        YVal::Tagged(tag, inner) => JVal::Object(seq![(tag, yaml_json(*inner))]),
    }
}

/// The documents of the first `n` sequence items.
pub open spec fn yaml_json_items(y: YVal, n: nat) -> Seq<JVal>
    decreases y, 0nat, n,
{
    match y {
        YVal::Sequence(items) => if 0 < n <= items.len() {
            proof {
                assert(decreases_to!(y => items[n - 1]));
            }
            yaml_json_items(y, (n - 1) as nat).push(yaml_json(items[n - 1]))
        } else {
            Seq::empty()
        },
        _ => Seq::empty(),
    }
}

/// The members from the first `n` mapping entries.
pub open spec fn yaml_json_members(y: YVal, n: nat) -> Seq<(Seq<char>, JVal)>
    decreases y, 0nat, n,
{
    match y {
        YVal::Mapping(es) => if 0 < n <= es.len() {
            proof {
                assert(decreases_to!(y => es[n - 1].2));
            }
            obj_insert(
                yaml_json_members(y, (n - 1) as nat),
                yaml_key_text(es[n - 1].0, es[n - 1].1),
                yaml_json(es[n - 1].2),
            )
        } else {
            Seq::empty()
        },
        _ => Seq::empty(),
    }
}

fn copy_string(s: &String) -> (r: String)
    ensures
        r@ == s@,
{
    s.clone()
}

fn yaml_key_string(k: &YamlValue, debug: &String) -> (r: String)
    ensures
        r@ == yaml_key_text(k@, debug@),
{
    match k {
        YamlValue::String(s) => copy_string(s),
        YamlValue::Number(n) => copy_string(&n.text),
        YamlValue::Bool(b) => if *b {
            string_of(chars_of("true").as_slice())
        } else {
            string_of(chars_of("false").as_slice())
        },
        YamlValue::Null => string_of(chars_of("null").as_slice()),
        _ => copy_string(debug),
    }
}

proof fn lemma_yaml_decreases_item(v: YamlValue, i: int)
    requires
        v is Sequence,
        0 <= i < v->Sequence_0@.len(),
    ensures
        decreases_to!(v => v->Sequence_0@[i]),
{
    if let YamlValue::Sequence(a) = v {
        assert(decreases_to!(v => a@[i]));
    }
}

proof fn lemma_yaml_decreases_entry(v: YamlValue, i: int)
    requires
        v is Mapping,
        0 <= i < v->Mapping_0@.len(),
    ensures
        decreases_to!(v => v->Mapping_0@[i].value),
{
    if let YamlValue::Mapping(m) = v {
        assert(decreases_to!(v => m@[i].value));
    }
}

/// Convert a YAML value to a document (tags and non-string keys included).
pub fn yaml_to_json(y: &YamlValue) -> (r: JsonValue)
    ensures
        r@ == yaml_json(y@),
    decreases y,
{
    match y {
        YamlValue::Null => JsonValue::Null,
        YamlValue::Bool(b) => JsonValue::Bool(*b),
        YamlValue::Number(n) => match n.as_i64 {
            Some(i) => JsonValue::Number(string_of(i64_to_chars(i).as_slice())),
            None => match n.as_u64 {
                Some(u) => JsonValue::Number(string_of(usize_to_chars_u128(u as u128).as_slice())),
                None => match &n.float_json {
                    Some(t) => JsonValue::Number(copy_string(t)),
                    None => JsonValue::String(copy_string(&n.text)),
                },
            },
        },
        YamlValue::String(s) => JsonValue::String(copy_string(s)),
        YamlValue::Sequence(items) => {
            proof {
                lemma_yaml_items(*y, items@.len());
            }
            let mut out: Vec<JsonValue> = Vec::new();
            let n = items.len();
            for i in 0..n
                invariant
                    n == items@.len(),
                    *y == YamlValue::Sequence(*items),
                    y@ matches YVal::Sequence(s) && s.len() == n && forall|j: int| 0 <= j < n ==> #[trigger] s[j] == items@[j]@,
                    vals_vw(out@) == yaml_json_items(y@, i as nat),
            {
                proof {
                    lemma_yaml_decreases_item(*y, i as int);
                }
                let c = yaml_to_json(&items[i]);
                let ghost prev = out@;
                out.push(c);
                assert(vals_vw(out@) =~= vals_vw(prev).push(c@));
            }
            proof {
                lemma_array_of(out);
            }
            JsonValue::Array(out)
        },
        YamlValue::Mapping(entries) => {
            proof {
                lemma_yaml_entries(*y, entries@.len());
            }
            let mut out: Vec<JsonEntry> = Vec::new();
            let n = entries.len();
            for i in 0..n
                invariant
                    n == entries@.len(),
                    *y == YamlValue::Mapping(*entries),
                    y@ matches YVal::Mapping(s) && s.len() == n && forall|j: int|
                        0 <= j < n ==> #[trigger] s[j] == (entries@[j].key@, entries@[j].key_debug@, entries@[j].value@),
                    entries_view(out@) == yaml_json_members(y@, i as nat),
            {
                proof {
                    lemma_yaml_decreases_entry(*y, i as int);
                }
                let k = yaml_key_string(&entries[i].key, &entries[i].key_debug);
                let v = yaml_to_json(&entries[i].value);
                out = entries_insert(out, k, v);
            }
            proof {
                lemma_object_of(out);
            }
            JsonValue::Object(out)
        },
        YamlValue::Tagged(tag, inner) => {
            let v = yaml_to_json(inner);
            let mut out: Vec<JsonEntry> = Vec::new();
            out.push(JsonEntry { key: copy_string(tag), value: v });
            proof {
                lemma_object_of(out);
                assert(entries_view(out@) =~= seq![(tag@, v@)]);
            }
            JsonValue::Object(out)
        },
    }
}

/// What `serde_yaml::from_str::<serde_yaml::Value>` gives for `text`: the
/// value, or the error's message.
pub uninterp spec fn serde_yaml_parse(text: Seq<char>) -> Result<YVal, Seq<char>>;

/// What `serde_yaml::to_string` gives for the `serde_json::Value` of a
/// document: the text, or the error's message.
pub uninterp spec fn serde_yaml_emit(v: JVal) -> Result<Seq<char>, Seq<char>>;

/// `serde_yaml`'s value tree, carried opaque into the conversion below.
#[verifier::external_type_specification]
#[verifier::external_body]
pub struct ExSerdeYamlValue(serde_yaml::Value);

/// `serde_yaml`'s number type.
#[verifier::external_type_specification]
#[verifier::external_body]
pub struct ExSerdeYamlNumber(serde_yaml::Number);

/// The fields of a `serde_yaml::Number`, each read by its own accessor.
#[verifier::external_body]
fn from_yaml_number(n: &serde_yaml::Number) -> YamlNumber {
    YamlNumber {
        as_i64: n.as_i64(),
        as_u64: n.as_u64(),
        float_json: n.as_f64().and_then(serde_json::Number::from_f64).map(|x| x.to_string()),
        text: n.to_string(),
    }
}

/// The `YamlValue` of a `serde_yaml::Value`, one variant for one; mapping
/// entries in the mapping's order, each key with its `Debug` text; a tag by
/// its `Display` text.
#[verifier::external_body]
fn from_serde_yaml(v: serde_yaml::Value) -> YamlValue {
    match v {
        serde_yaml::Value::Null => YamlValue::Null,
        serde_yaml::Value::Bool(b) => YamlValue::Bool(b),
        serde_yaml::Value::Number(n) => YamlValue::Number(from_yaml_number(&n)),
        serde_yaml::Value::String(s) => YamlValue::String(s),
        serde_yaml::Value::Sequence(a) => YamlValue::Sequence(a.into_iter().map(from_serde_yaml).collect()),
        serde_yaml::Value::Mapping(m) => YamlValue::Mapping(m.into_iter().map(|(k, v)| YamlEntry {
            key_debug: format!("{:?}", k), key: from_serde_yaml(k), value: from_serde_yaml(v) }).collect()),
        serde_yaml::Value::Tagged(t) => YamlValue::Tagged(t.tag.to_string(), Box::new(from_serde_yaml(t.value))),
    }
}

/// `serde_yaml::from_str::<serde_yaml::Value>`: the contract names the
/// outcome `serde_yaml_parse(raw@)`; the YAML grammar is not restated.
#[verifier::external_body]
fn serde_yaml_from_str(raw: &str) -> (r: Result<YamlValue, String>)
    ensures
        match r {
            Ok(v) => serde_yaml_parse(raw@) == Ok::<YVal, Seq<char>>(v@),
            Err(e) => serde_yaml_parse(raw@) == Err::<YVal, Seq<char>>(e@),
        },
{
    serde_yaml::from_str::<serde_yaml::Value>(raw).map(from_serde_yaml).map_err(|e| e.to_string())
}

/// `serde_yaml::to_string` of the document's `serde_json::Value`: the
/// contract names the outcome `serde_yaml_emit(v@)`.
#[verifier::external_body]
fn serde_yaml_to_string(v: &JsonValue) -> (r: Result<String, String>)
    ensures
        match r {
            Ok(s) => serde_yaml_emit(v@) == Ok::<Seq<char>, Seq<char>>(s@),
            Err(e) => serde_yaml_emit(v@) == Err::<Seq<char>, Seq<char>>(e@),
        },
{
    serde_yaml::to_string(&to_serde_json(v)).map_err(|e| e.to_string())
}

/// A `String` holding `prefix` followed by `body`.
fn prefixed(prefix: &str, body: &String) -> (r: String)
    ensures
        r@ == prefix@ + body@,
{
    let mut out: Vec<char> = Vec::new();
    push_str(&mut out, prefix);
    push_str(&mut out, body.as_str());
    string_of(out.as_slice())
}

/// A `String` holding `prefix` followed by `body` and `suffix`.
fn framed(prefix: &str, body: &String, suffix: &str) -> (r: String)
    ensures
        r@ == prefix@ + body@ + suffix@,
{
    let mut out: Vec<char> = Vec::new();
    push_str(&mut out, prefix);
    push_str(&mut out, body.as_str());
    push_str(&mut out, suffix);
    string_of(out.as_slice())
}

/// The document read from YAML text, given what `serde_yaml` read: the
/// converted value, or `YAML error: <message>`.
pub fn yaml_document(read: Result<YamlValue, String>) -> (r: Result<JsonValue, String>)
    ensures
        read matches Ok(y) ==> r matches Ok(v) && v@ == yaml_json(y@),
        read matches Err(e) ==> r matches Err(m) && m@ == "YAML error: "@ + e@,
{
    match read {
        Ok(y) => Ok(yaml_to_json(&y)),
        Err(e) => Err(prefixed("YAML error: ", &e)),
    }
}

/// The YAML text of a document, given what `serde_yaml` wrote: the text,
/// or a `# serialization error: <message>` comment.
pub fn yaml_text(written: Result<String, String>) -> (r: String)
    ensures
        written matches Ok(s) ==> r@ == s@,
        written matches Err(e) ==> r@ == "# serialization error: "@ + e@,
{
    match written {
        Ok(s) => s,
        Err(e) => prefixed("# serialization error: ", &e),
    }
}

/// The JSON text of a document, given what `serde_json` wrote: the text,
/// or a `/* serialization error: <message> */` comment.
pub fn json_text(written: Result<String, String>) -> (r: String)
    ensures
        match written {
            Ok(s) => r@ == s@,
            Err(e) => r@ == "/* serialization error: "@ + e@ + " */"@,
        },
{
    match written {
        Ok(s) => s,
        Err(e) => framed("/* serialization error: ", &e, " */"),
    }
}

/// `parse_yaml`'s outcome on `raw`.
pub open spec fn yaml_parse_spec(raw: Seq<char>) -> Result<JVal, Seq<char>> {
    match serde_yaml_parse(raw) {
        Ok(y) => Ok(yaml_json(y)),
        Err(e) => Err("YAML error: "@ + e),
    }
}

/// Parse YAML text into a document.
pub fn parse_yaml(raw: &str) -> (r: Result<JsonValue, String>)
    ensures
        match r {
            Ok(v) => yaml_parse_spec(raw@) == Ok::<JVal, Seq<char>>(v@),
            Err(m) => yaml_parse_spec(raw@) == Err::<JVal, Seq<char>>(m@),
        },
{
    yaml_document(serde_yaml_from_str(raw))
}

/// `serialize_yaml`'s outcome on a document.
pub open spec fn yaml_text_spec(v: JVal) -> Seq<char> {
    match serde_yaml_emit(v) {
        Ok(s) => s,
        Err(e) => "# serialization error: "@ + e,
    }
}

/// Write a document as YAML text.
pub fn serialize_yaml(v: &JsonValue) -> (r: String)
    ensures
        r@ == yaml_text_spec(v@),
{
    yaml_text(serde_yaml_to_string(v))
}

/// `serialize_json`'s outcome on a document.
pub open spec fn json_text_spec(v: JVal) -> Seq<char> {
    match serde_json_pretty(v) {
        Ok(s) => s,
        Err(e) => "/* serialization error: "@ + e + " */"@,
    }
}

/// Write a document as pretty JSON text (two-space indent).
pub fn serialize_json(v: &JsonValue) -> (r: String)
    ensures
        r@ == json_text_spec(v@),
{
    json_text(serde_json_to_string_pretty(v))
}

// ── TOML ─────────────────────────────────────────────────────────────────────

/// Why reading or writing TOML text failed, with the outside error's
/// message.
#[derive(Debug)]
pub enum TomlError {
    /// `toml` rejected the text.
    Syntax(String),
    /// `serde_json` could not convert between its value and `toml::Value`.
    Conversion(String),
    /// `toml` could not write the value.
    Serialization(String),
}

/// The view of a `TomlError`.
pub enum TomlFailure {
    Syntax(Seq<char>),
    Conversion(Seq<char>),
    Serialization(Seq<char>),
}

impl View for TomlError {
    type V = TomlFailure;

    open spec fn view(&self) -> TomlFailure {
        match self {
            TomlError::Syntax(m) => TomlFailure::Syntax(m@),
            TomlError::Conversion(m) => TomlFailure::Conversion(m@),
            TomlError::Serialization(m) => TomlFailure::Serialization(m@),
        }
    }
}

/// What reading `text` as a `toml::Value` (its `FromStr`) and converting
/// that with `serde_json::to_value` gives: the document, or the failure.
pub uninterp spec fn toml_read(text: Seq<char>) -> Result<JVal, TomlFailure>;

/// What converting a document with `serde_json::from_value::<toml::Value>`
/// and writing it with `toml::to_string_pretty` gives: the text, or the
/// failure.
pub uninterp spec fn toml_write(v: JVal) -> Result<Seq<char>, TomlFailure>;

/// `toml::Value::from_str`, then `serde_json::to_value` on the result: the
/// contract names the outcome `toml_read(raw@)`; a failure of the first
/// call is `Syntax`, of the second `Conversion`.
#[verifier::external_body]
fn toml_from_str(raw: &str) -> (r: Result<JsonValue, TomlError>)
    ensures
        match r {
            Ok(v) => toml_read(raw@) == Ok::<JVal, TomlFailure>(v@),
            Err(e) => toml_read(raw@) == Err::<JVal, TomlFailure>(e@) && !(e is Serialization),
        },
{
    match raw.parse::<toml::Value>() {
        Err(e) => Err(TomlError::Syntax(e.to_string())),
        Ok(t) => serde_json::to_value(t).map(from_serde_json).map_err(|e| TomlError::Conversion(e.to_string())),
    }
}

/// `serde_json::from_value::<toml::Value>` on the document's value, then
/// `toml::to_string_pretty`: the contract names the outcome `toml_write(v@)`;
/// a failure of the first call is `Conversion`, of the second
/// `Serialization`.
#[verifier::external_body]
fn toml_to_string(v: &JsonValue) -> (r: Result<String, TomlError>)
    ensures
        match r {
            Ok(s) => toml_write(v@) == Ok::<Seq<char>, TomlFailure>(s@),
            Err(e) => toml_write(v@) == Err::<Seq<char>, TomlFailure>(e@) && !(e is Syntax),
        },
{
    match serde_json::from_value::<toml::Value>(to_serde_json(v)) {
        Err(e) => Err(TomlError::Conversion(e.to_string())),
        Ok(t) => toml::to_string_pretty(&t).map_err(|e| TomlError::Serialization(e.to_string())),
    }
}

/// The message for a failed TOML read.
pub open spec fn toml_read_message(e: TomlFailure) -> Seq<char> {
    match e {
        TomlFailure::Syntax(m) => "TOML error: "@ + m,
        TomlFailure::Conversion(m) => "TOML conversion error: "@ + m,
        TomlFailure::Serialization(m) => "TOML serialization error: "@ + m,
    }
}

/// The document read from TOML text, given what `toml` and `serde_json`
/// gave: the value, or `TOML error: ..` / `TOML conversion error: ..`.
pub fn toml_document(read: Result<JsonValue, TomlError>) -> (r: Result<JsonValue, String>)
    ensures
        read matches Ok(v) ==> r matches Ok(w) && w@ == v@,
        read matches Err(e) ==> r matches Err(m) && m@ == toml_read_message(e@),
{
    match read {
        Ok(v) => Ok(v),
        Err(TomlError::Syntax(m)) => Err(prefixed("TOML error: ", &m)),
        Err(TomlError::Conversion(m)) => Err(prefixed("TOML conversion error: ", &m)),
        Err(TomlError::Serialization(m)) => Err(prefixed("TOML serialization error: ", &m)),
    }
}

/// The comment written in place of TOML text that could not be written.
pub open spec fn toml_write_message(e: TomlFailure) -> Seq<char> {
    match e {
        TomlFailure::Conversion(m) => "# TOML conversion error: "@ + m,
        TomlFailure::Serialization(m) => "# serialization error: "@ + m,
        TomlFailure::Syntax(m) => "# TOML error: "@ + m,
    }
}

/// The TOML text of a document, given what was written: the text, or a
/// comment naming the failure.
pub fn toml_text(written: Result<String, TomlError>) -> (r: String)
    ensures
        written matches Ok(s) ==> r@ == s@,
        written matches Err(e) ==> r@ == toml_write_message(e@),
{
    match written {
        Ok(s) => s,
        Err(TomlError::Conversion(m)) => prefixed("# TOML conversion error: ", &m),
        Err(TomlError::Serialization(m)) => prefixed("# serialization error: ", &m),
        Err(TomlError::Syntax(m)) => prefixed("# TOML error: ", &m),
    }
}

/// `parse_toml`'s outcome on `raw`.
pub open spec fn toml_parse_spec(raw: Seq<char>) -> Result<JVal, Seq<char>> {
    match toml_read(raw) {
        Ok(v) => Ok(v),
        Err(e) => Err(toml_read_message(e)),
    }
}

/// Parse TOML text into a document.
pub fn parse_toml(raw: &str) -> (r: Result<JsonValue, String>)
    ensures
        match r {
            Ok(v) => toml_parse_spec(raw@) == Ok::<JVal, Seq<char>>(v@),
            Err(m) => toml_parse_spec(raw@) == Err::<JVal, Seq<char>>(m@),
        },
{
    toml_document(toml_from_str(raw))
}

/// `serialize_toml`'s outcome on a document.
pub open spec fn toml_text_spec(v: JVal) -> Seq<char> {
    match toml_write(v) {
        Ok(s) => s,
        Err(e) => toml_write_message(e),
    }
}

/// Write a document as TOML text.
pub fn serialize_toml(v: &JsonValue) -> (r: String)
    ensures
        r@ == toml_text_spec(v@),
{
    toml_text(toml_to_string(v))
}

// ── XML ──────────────────────────────────────────────────────────────────────

/// An attribute of an element: its local name and its value.
#[derive(Debug)]
pub struct XmlAttribute {
    pub name: String,
    pub value: String,
}

/// A node of an XML document as `roxmltree` reads it.
#[derive(Debug)]
pub enum XmlNode {
    /// An element: its tag's local name, its attributes in document order,
    /// and its children in document order.
    Element { tag: String, attributes: Vec<XmlAttribute>, children: Vec<XmlNode> },
    /// A text node and its text.
    Text(Option<String>),
    /// A comment or a processing instruction.
    Other,
}

/// The view of an `XmlNode`.
pub enum XNode {
    Element { tag: Seq<char>, attrs: Seq<(Seq<char>, Seq<char>)>, children: Seq<XNode> },
    Text(Option<Seq<char>>),
    Other,
}

/// The view of a sequence of attributes.
pub open spec fn attrs_view(a: Seq<XmlAttribute>) -> Seq<(Seq<char>, Seq<char>)> {
    a.map_values(|x: XmlAttribute| (x.name@, x.value@))
}

impl XmlNode {
    /// The view of an XML node.
    pub open spec fn vw(&self) -> XNode
        decreases self, 1nat, 0nat,
    {
        match self {
            XmlNode::Element { tag, attributes, children } => XNode::Element {
                tag: tag@,
                attrs: attrs_view(attributes@),
                children: self.kids_vw(children@.len()),
            },
            XmlNode::Text(t) => XNode::Text(
                match t {
                    Some(x) => Some(x@),
                    None => None,
                },
            ),
            XmlNode::Other => XNode::Other,
        }
    }

    /// The views of the first `n` children of an element.
    pub open spec fn kids_vw(&self, n: nat) -> Seq<XNode>
        decreases self, 0nat, n,
    {
        match self {
            XmlNode::Element { children, .. } => if 0 < n <= children@.len() {
                proof {
                    assert(decreases_to!(self => children@[n - 1]));
                }
                self.kids_vw((n - 1) as nat).push(children@[n - 1].vw())
            } else {
                Seq::empty()
            },
            _ => Seq::empty(),
        }
    }
}

impl View for XmlNode {
    type V = XNode;

    open spec fn view(&self) -> XNode {
        self.vw()
    }
}

proof fn lemma_xml_kids(v: XmlNode, n: nat)
    requires
        v matches XmlNode::Element { children, .. } && n <= children@.len(),
    ensures
        v.kids_vw(n).len() == n,
        forall|i: int| 0 <= i < n ==> #[trigger] v.kids_vw(n)[i] == v->children@[i].vw(),
    decreases n,
{
    if n > 0 {
        lemma_xml_kids(v, (n - 1) as nat);
    }
}

proof fn lemma_xml_decreases_child(v: XmlNode, i: int)
    requires
        v is Element,
        0 <= i < v->children@.len(),
    ensures
        decreases_to!(v => v->children@[i]),
{
    if let XmlNode::Element { children, .. } = v {
        assert(decreases_to!(v => children@[i]));
    }
}

/// What `roxmltree::Document::parse` gives for `text`: the root element,
/// or the error's message.
pub uninterp spec fn roxmltree_parse(text: Seq<char>) -> Result<XNode, Seq<char>>;

/// `roxmltree`'s node handle, carried opaque into the conversion below.
#[verifier::external_type_specification]
#[verifier::external_body]
pub struct ExRoxmltreeNode<'a, 'input: 'a>(roxmltree::Node<'a, 'input>);

/// The `XmlNode` of a `roxmltree` node: an element with its tag's local
/// name, attributes and children, a text node with its text, anything else
/// as `Other`.
#[verifier::external_body]
fn from_roxmltree(n: roxmltree::Node) -> XmlNode {
    if n.is_element() {
        XmlNode::Element {
            tag: n.tag_name().name().to_string(),
            attributes: n.attributes().map(|a| XmlAttribute { name: a.name().to_string(), value: a.value().to_string() }).collect(),
            children: n.children().map(from_roxmltree).collect(),
        }
    } else if n.is_text() {
        XmlNode::Text(n.text().map(|t| t.to_string()))
    } else {
        XmlNode::Other
    }
}

/// `roxmltree::Document::parse`, then the document's root element: the
/// contract names the outcome `roxmltree_parse(raw@)`; the root is an
/// element, as `root_element` documents.
#[verifier::external_body]
fn roxmltree_root(raw: &str) -> (r: Result<XmlNode, String>)
    ensures
        match r {
            Ok(n) => roxmltree_parse(raw@) == Ok::<XNode, Seq<char>>(n@) && n is Element,
            Err(e) => roxmltree_parse(raw@) == Err::<XNode, Seq<char>>(e@),
        },
{
    match roxmltree::Document::parse(raw) {
        Ok(doc) => Ok(from_roxmltree(doc.root_element())),
        Err(e) => Err(e.to_string()),
    }
}

/// Whether a key names an attribute (`@name`).
pub open spec fn is_attr_key(k: Seq<char>) -> bool {
    k.len() > 0 && k[0] == '@'
}

/// The members an element's attributes give: `@name` holding the value,
/// inserted in document order.
pub open spec fn xml_attr_members(attrs: Seq<(Seq<char>, Seq<char>)>) -> Seq<(Seq<char>, JVal)>
    decreases attrs.len(),
{
    if attrs.len() == 0 {
        Seq::empty()
    } else {
        obj_insert(
            xml_attr_members(attrs.drop_last()),
            seq!['@'] + attrs.last().0,
            JVal::Str(attrs.last().1),
        )
    }
}

/// Add a child element's document under its tag: the first child of a tag
/// is the member itself, a second turns the member into a two-element
/// array, later ones are appended to that array.
pub open spec fn merge_child(ms: Seq<(Seq<char>, JVal)>, key: Seq<char>, v: JVal) -> Seq<
    (Seq<char>, JVal),
> {
    match obj_find(ms, key) {
        Some(i) => ms.update(
            i,
            (
                key,
                match ms[i].1 {
                    JVal::Array(a) => JVal::Array(a.push(v)),
                    old => JVal::Array(seq![old, v]),
                },
            ),
        ),
        None => obj_insert(ms, key, v),
    }
}

/// The members and the text gathered from an element's attributes and its
/// first `n` children.
pub open spec fn xml_fold(x: XNode, n: nat) -> (Seq<(Seq<char>, JVal)>, Seq<char>)
    decreases x, 0nat, n,
{
    match x {
        XNode::Element { attrs, children, .. } => if 0 < n <= children.len() {
            proof {
                assert(decreases_to!(x => children[n - 1]));
            }
            let prev = xml_fold(x, (n - 1) as nat);
            match children[n - 1] {
                XNode::Element { tag, .. } => (
                    merge_child(prev.0, tag, xml_json(children[n - 1])),
                    prev.1,
                ),
                XNode::Text(Some(t)) => (prev.0, prev.1 + t),
                _ => prev,
            }
        } else {
            (xml_attr_members(attrs), Seq::empty())
        },
        _ => (Seq::empty(), Seq::empty()),
    }
}

/// The document of an element: with no attribute and no child element,
/// its trimmed text as a string; otherwise an object of `@attribute`
/// members and child-tag members, with the trimmed text, when there is any,
/// under `$text`.
pub open spec fn xml_json(x: XNode) -> JVal
    decreases x, 1nat, 0nat,
{
    match x {
        XNode::Element { children, .. } => {
            let f = xml_fold(x, children.len());
            let t = trim_seq(f.1);
            if f.0.len() == 0 {
                JVal::Str(t)
            } else if t.len() > 0 {
                JVal::Object(obj_insert(f.0, "$text"@, JVal::Str(t)))
            } else {
                JVal::Object(f.0)
            }
        },
        _ => JVal::Null,
    }
}

/// The documents of the child elements among the first `m` of
/// `children` whose tag is `t`, in document order.
pub open spec fn tag_values(children: Seq<XNode>, t: Seq<char>, m: nat) -> Seq<JVal>
    decreases m,
{
    if m == 0 || m > children.len() {
        Seq::empty()
    } else {
        let prev = tag_values(children, t, (m - 1) as nat);
        match children[m - 1] {
            XNode::Element { tag, .. } => if tag == t {
                prev.push(xml_json(children[m - 1]))
            } else {
                prev
            },
            _ => prev,
        }
    }
}

proof fn lemma_xml_json_not_array(x: XNode)
    ensures
        !(xml_json(x) is Array),
{
}

proof fn lemma_attr_members_get(attrs: Seq<(Seq<char>, Seq<char>)>, t: Seq<char>)
    requires
        !is_attr_key(t),
    ensures
        obj_get(xml_attr_members(attrs), t) is None,
    decreases attrs.len(),
{
    if attrs.len() > 0 {
        lemma_attr_members_get(attrs.drop_last(), t);
        let k = seq!['@'] + attrs.last().0;
        assert(k[0] == '@');
        assert(t != k);
        lemma_obj_insert_get(xml_attr_members(attrs.drop_last()), k, JVal::Str(attrs.last().1), t);
    }
}

proof fn lemma_merge_child_get(ms: Seq<(Seq<char>, JVal)>, key: Seq<char>, v: JVal, t: Seq<char>)
    ensures
        obj_get(merge_child(ms, key, v), t) == if t == key {
            Some(
                match obj_get(ms, key) {
                    Some(JVal::Array(a)) => JVal::Array(a.push(v)),
                    Some(old) => JVal::Array(seq![old, v]),
                    None => v,
                },
            )
        } else {
            obj_get(ms, t)
        },
{
    match obj_find(ms, key) {
        Some(i) => {
            lemma_obj_find(ms, key);
            lemma_obj_update_get(
                ms,
                i,
                match ms[i].1 {
                    JVal::Array(a) => JVal::Array(a.push(v)),
                    old => JVal::Array(seq![old, v]),
                },
                t,
            );
        },
        None => {
            lemma_obj_insert_get(ms, key, v, t);
        },
    }
}

proof fn lemma_fold_gathers(x: XNode, t: Seq<char>, m: nat)
    requires
        x is Element,
        m <= x->children.len(),
        !is_attr_key(t),
    ensures
        ({
            let vs = tag_values(x->children, t, m);
            let g = obj_get(xml_fold(x, m).0, t);
            &&& vs.len() == 0 ==> g is None
            &&& vs.len() == 1 ==> g == Some(vs[0])
            &&& vs.len() >= 2 ==> g == Some(JVal::Array(vs))
        }),
    decreases m,
{
    let children = x->children;
    if m == 0 {
        lemma_attr_members_get(x->attrs, t);
    } else {
        lemma_fold_gathers(x, t, (m - 1) as nat);
        let prev = xml_fold(x, (m - 1) as nat);
        let pv = tag_values(children, t, (m - 1) as nat);
        match children[m - 1] {
            XNode::Element { tag, .. } => {
                let v = xml_json(children[m - 1]);
                lemma_merge_child_get(prev.0, tag, v, t);
                if tag == t {
                    if pv.len() == 1 {
                        lemma_xml_json_not_array(children[m - 1]);
                        assert(children[m - 1] == children[(m - 1) as int]);
                        let first = pv[0];
                        assert(!(first is Array)) by {
                            lemma_first_not_array(children, t, (m - 1) as nat);
                        }
                        assert(seq![first, v] =~= pv.push(v));
                    }
                }
            },
            _ => {},
        }
    }
}

proof fn lemma_first_not_array(children: Seq<XNode>, t: Seq<char>, m: nat)
    ensures
        forall|i: int| 0 <= i < tag_values(children, t, m).len() ==> !(#[trigger] tag_values(children, t, m)[i] is Array),
    decreases m,
{
    if 0 < m <= children.len() {
        lemma_first_not_array(children, t, (m - 1) as nat);
        lemma_xml_json_not_array(children[m - 1]);
    }
}

/// Sibling elements with the same tag gather into one flat array: in the
/// document of an element, the member for tag `t` is absent when no child
/// element has that tag, is the child's document when one has, and is the
/// array of the documents of all such children, in document order, when
/// there are several.
pub proof fn lemma_xml_siblings_gather(x: XNode, t: Seq<char>)
    requires
        x is Element,
        !is_attr_key(t),
        t != "$text"@,
    ensures
        ({
            let vs = tag_values(x->children, t, x->children.len());
            &&& vs.len() == 1 ==> (xml_json(x) matches JVal::Object(ms) && obj_get(ms, t) == Some(vs[0]))
            &&& vs.len() >= 2 ==> (xml_json(x) matches JVal::Object(ms) && obj_get(ms, t) == Some(
                JVal::Array(vs),
            ))
            &&& vs.len() == 0 ==> !(xml_json(x) matches JVal::Object(ms) && obj_get(ms, t) is Some)
        }),
{
    let n = x->children.len();
    lemma_fold_gathers(x, t, n);
    let f = xml_fold(x, n);
    let tt = trim_seq(f.1);
    lemma_obj_insert_get(f.0, "$text"@, JVal::Str(tt), t);
    if obj_get(f.0, t) is Some {
        assert(f.0.len() > 0);
    }
}

/// Members of an element's attributes.
fn attr_entries(attributes: &Vec<XmlAttribute>) -> (r: Vec<JsonEntry>)
    ensures
        entries_view(r@) == xml_attr_members(attrs_view(attributes@)),
{
    let mut out: Vec<JsonEntry> = Vec::new();
    let n = attributes.len();
    for i in 0..n
        invariant
            n == attributes@.len(),
            entries_view(out@) == xml_attr_members(attrs_view(attributes@.take(i as int))),
    {
        let mut k: Vec<char> = Vec::new();
        k.push('@');
        push_str(&mut k, attributes[i].name.as_str());
        let v = copy_string(&attributes[i].value);
        let ghost a = attrs_view(attributes@.take(i as int + 1));
        assert(a.drop_last() =~= attrs_view(attributes@.take(i as int)));
        assert(a.last() == (attributes@[i as int].name@, attributes@[i as int].value@));
        out = entries_insert(out, string_of(k.as_slice()), JsonValue::String(v));
    }
    assert(attributes@.take(n as int) =~= attributes@);
    out
}

/// Add a child element's document to an element's members (see
/// `merge_child`).
fn merge_xml_child(members: Vec<JsonEntry>, key: String, v: JsonValue) -> (r: Vec<JsonEntry>)
    ensures
        entries_view(r@) == merge_child(entries_view(members@), key@, v@),
{
    let kc = chars_of(key.as_str());
    match find_entry(&members, &kc) {
        Some(i) => {
            let ghost es = entries_view(members@);
            proof {
                lemma_obj_find(es, key@);
            }
            let mut ms = members;
            let old = ms.remove(i);
            let ghost ov = old.value@;
            let ghost vv = v@;
            assert(es[i as int] == (old.key@, ov));
            let nv = match old.value {
                JsonValue::Array(a) => {
                    proof {
                        lemma_array_of(a);
                    }
                    let mut a = a;
                    a.push(v);
                    proof {
                        lemma_array_of(a);
                        assert(vals_vw(a@) =~= vals_vw(a@.drop_last()).push(vv));
                        assert(ov matches JVal::Array(oa) && vals_vw(a@) == oa.push(vv));
                    }
                    JsonValue::Array(a)
                },
                other => {
                    let mut a: Vec<JsonValue> = Vec::new();
                    a.push(other);
                    a.push(v);
                    proof {
                        lemma_array_of(a);
                        assert(vals_vw(a@) =~= seq![ov, vv]);
                        assert(!(ov is Array));
                    }
                    JsonValue::Array(a)
                },
            };
            let ghost kk = key@;
            ms.insert(i, JsonEntry { key, value: nv });
            assert(entries_view(ms@) =~= es.update(i as int, (kk, nv@)));
            assert(nv@ == (match es[i as int].1 {
                JVal::Array(a) => JVal::Array(a.push(vv)),
                o => JVal::Array(seq![o, vv]),
            }));
            ms
        },
        None => entries_insert(members, key, v),
    }
}

/// The document of an element (see `xml_json`).
fn element_to_value(node: &XmlNode) -> (r: JsonValue)
    requires
        node is Element,
    ensures
        r@ == xml_json(node@),
    decreases node,
{
    match node {
        XmlNode::Element { tag: _, attributes, children } => {
            let n = children.len();
            proof {
                lemma_xml_kids(*node, n as nat);
            }
            let ghost x = node@;
            let mut members = attr_entries(attributes);
            let mut text: Vec<char> = Vec::new();
            for i in 0..n
                invariant
                    n == children@.len(),
                    x == node@,
                    node is Element,
                    node->children == *children,
                    x matches XNode::Element { children: ks, .. } && ks.len() == n && forall|j: int|
                        0 <= j < n ==> #[trigger] ks[j] == children@[j]@,
                    entries_view(members@) == xml_fold(x, i as nat).0,
                    text@ == xml_fold(x, i as nat).1,
            {
                proof {
                    lemma_xml_decreases_child(*node, i as int);
                }
                match &children[i] {
                    XmlNode::Element { tag, .. } => {
                        let v = element_to_value(&children[i]);
                        members = merge_xml_child(members, copy_string(tag), v);
                    },
                    XmlNode::Text(Some(t)) => {
                        push_str(&mut text, t.as_str());
                    },
                    _ => {},
                }
            }
            let trimmed = trim_chars(&text);
            if members.len() == 0 {
                JsonValue::String(string_of(trimmed.as_slice()))
            } else {
                if trimmed.len() > 0 {
                    let k = string_of(chars_of("$text").as_slice());
                    members = entries_insert(members, k, JsonValue::String(string_of(trimmed.as_slice())));
                }
                proof {
                    lemma_object_of(members);
                }
                JsonValue::Object(members)
            }
        },
        _ => JsonValue::Null,
    }
}

/// The document read from XML text, given the root element `roxmltree`
/// read: `{tag: document of the root}`, or `XML error: <message>`.
pub fn xml_document(read: Result<XmlNode, String>) -> (r: Result<JsonValue, String>)
    requires
        read matches Ok(n) ==> n is Element,
    ensures
        read matches Ok(n) ==> r matches Ok(v) && v@ == JVal::Object(seq![(n@->tag, xml_json(n@))]),
        read matches Err(e) ==> r matches Err(m) && m@ == "XML error: "@ + e@,
{
    match read {
        Ok(root) => {
            let tag = match &root {
                XmlNode::Element { tag, .. } => copy_string(tag),
                _ => String::new(),
            };
            let v = element_to_value(&root);
            let mut out: Vec<JsonEntry> = Vec::new();
            out.push(JsonEntry { key: tag, value: v });
            proof {
                lemma_object_of(out);
                assert(entries_view(out@) =~= seq![(root@->tag, xml_json(root@))]);
            }
            Ok(JsonValue::Object(out))
        },
        Err(e) => Err(prefixed("XML error: ", &e)),
    }
}

/// `parse_xml`'s outcome on `raw`.
pub open spec fn xml_parse_spec(raw: Seq<char>) -> Result<JVal, Seq<char>> {
    match roxmltree_parse(raw) {
        Ok(n) => Ok(JVal::Object(seq![(n->tag, xml_json(n))])),
        Err(e) => Err("XML error: "@ + e),
    }
}

/// Parse XML text into a document: `{root tag: root document}`.
pub fn parse_xml(raw: &str) -> (r: Result<JsonValue, String>)
    ensures
        match r {
            Ok(v) => xml_parse_spec(raw@) == Ok::<JVal, Seq<char>>(v@),
            Err(m) => xml_parse_spec(raw@) == Err::<JVal, Seq<char>>(m@),
        },
{
    xml_document(roxmltree_root(raw))
}

/// The escaped text of one character: `&`, `<`, `>` and `"` become
/// entities.
pub open spec fn xml_escape_char(c: char) -> Seq<char> {
    if c == '&' {
        "&amp;"@
    } else if c == '<' {
        "&lt;"@
    } else if c == '>' {
        "&gt;"@
    } else if c == '"' {
        "&quot;"@
    } else {
        seq![c]
    }
}

/// `xml_escape`: every character of `s` escaped.
pub open spec fn xml_escape_spec(s: Seq<char>) -> Seq<char>
    decreases s.len(),
{
    if s.len() == 0 {
        Seq::empty()
    } else {
        xml_escape_spec(s.drop_last()) + xml_escape_char(s.last())
    }
}

/// Append the escaped text of `s` to `out`.
fn push_escaped(out: &mut Vec<char>, s: &Vec<char>)
    ensures
        final(out)@ == old(out)@ + xml_escape_spec(s@),
{
    let n = s.len();
    for i in 0..n
        invariant
            n == s@.len(),
            out@ == old(out)@ + xml_escape_spec(s@.take(i as int)),
    {
        let c = s[i];
        assert(s@.take(i as int + 1).drop_last() =~= s@.take(i as int));
        if c == '&' {
            push_str(out, "&amp;");
        } else if c == '<' {
            push_str(out, "&lt;");
        } else if c == '>' {
            push_str(out, "&gt;");
        } else if c == '"' {
            push_str(out, "&quot;");
        } else {
            out.push(c);
        }
        assert(out@ =~= old(out)@ + xml_escape_spec(s@.take(i as int + 1)));
    }
    assert(s@.take(n as int) =~= s@);
}

/// Escape `&`, `<`, `>` and `"` for XML text and attribute values.
pub fn xml_escape(s: &str) -> (r: String)
    ensures
        r@ == xml_escape_spec(s@),
{
    let cs = chars_of(s);
    let mut out: Vec<char> = Vec::new();
    push_escaped(&mut out, &cs);
    string_of(out.as_slice())
}

/// The attribute text of an element written from members `ms`: for each
/// `@name` member holding a string, ` name="value"`.
pub open spec fn xml_attrs(ms: Seq<(Seq<char>, JVal)>) -> Seq<char>
    decreases ms.len(),
{
    if ms.len() == 0 {
        Seq::empty()
    } else {
        xml_attrs(ms.drop_last()) + (if is_attr_key(ms.last().0) && ms.last().1 is Str {
            seq![' '] + ms.last().0.drop_first() + "=\""@ + xml_escape_spec(ms.last().1->Str_0)
                + seq!['"']
        } else {
            Seq::empty()
        })
    }
}

/// Whether members `ms` hold a child (a key that is not `@name`).
pub open spec fn xml_has_child(ms: Seq<(Seq<char>, JVal)>) -> bool
    decreases ms.len(),
{
    ms.len() > 0 && (!is_attr_key(ms.last().0) || xml_has_child(ms.drop_last()))
}

/// The XML text of `v` as element `tag`, each line indented by `ind`: an
/// object is an element with its `@` members as attributes, its `$text`
/// string as a text line and its other members as child elements (empty
/// when it has none of these); an array repeats the element for each item;
/// a scalar is a one-line element; null is an empty element.
pub open spec fn xml_of(v: JVal, tag: Seq<char>, ind: Seq<char>) -> Seq<char>
    decreases v, 1nat, 0nat,
{
    match v {
        JVal::Object(ms) => if !xml_has_child(ms) {
            ind + seq!['<'] + tag + xml_attrs(ms) + "/>\n"@
        } else {
            ind + seq!['<'] + tag + xml_attrs(ms) + ">\n"@ + xml_members(v, ms.len(), ind) + ind
                + "</"@ + tag + ">\n"@
        },
        JVal::Array(items) => xml_items(v, tag, items.len(), ind),
        JVal::Str(t) => ind + seq!['<'] + tag + seq!['>'] + xml_escape_spec(t) + "</"@ + tag
            + ">\n"@,
        JVal::Number(t) => ind + seq!['<'] + tag + seq!['>'] + t + "</"@ + tag + ">\n"@,
        JVal::Bool(b) => ind + seq!['<'] + tag + seq!['>'] + (if b {
            "true"@
        } else {
            "false"@
        }) + "</"@ + tag + ">\n"@,
        JVal::Null => ind + seq!['<'] + tag + "/>\n"@,
    }
}

/// The lines written for the first `n` members of object `v` (attributes
/// write nothing here).
pub open spec fn xml_members(v: JVal, n: nat, ind: Seq<char>) -> Seq<char>
    decreases v, 0nat, n,
{
    match v {
        JVal::Object(ms) => if 0 < n <= ms.len() {
            proof {
                assert(decreases_to!(v => ms[n - 1].1));
            }
            let k = ms[n - 1].0;
            xml_members(v, (n - 1) as nat, ind) + (if is_attr_key(k) {
                Seq::empty()
            } else if k == "$text"@ {
                match ms[n - 1].1 {
                    JVal::Str(t) => ind + "  "@ + xml_escape_spec(t) + seq!['\n'],
                    _ => Seq::empty(),
                }
            } else {
                xml_of(ms[n - 1].1, k, ind + "  "@)
            })
        } else {
            Seq::empty()
        },
        _ => Seq::empty(),
    }
}

/// The elements written for the first `n` items of array `v`.
pub open spec fn xml_items(v: JVal, tag: Seq<char>, n: nat, ind: Seq<char>) -> Seq<char>
    decreases v, 0nat, n,
{
    match v {
        JVal::Array(items) => if 0 < n <= items.len() {
            proof {
                assert(decreases_to!(v => items[n - 1]));
            }
            xml_items(v, tag, (n - 1) as nat, ind) + xml_of(items[n - 1], tag, ind)
        } else {
            Seq::empty()
        },
        _ => Seq::empty(),
    }
}

/// Whether `k` starts with `@`.
fn attr_key(k: &Vec<char>) -> (r: bool)
    ensures
        r == is_attr_key(k@),
{
    k.len() > 0 && k[0] == '@'
}

/// Append the attribute text of object members `o` (see `xml_attrs`).
fn push_attrs(buf: &mut Vec<char>, o: &Vec<JsonEntry>)
    ensures
        final(buf)@ == old(buf)@ + xml_attrs(entries_view(o@)),
{
    let ghost es = entries_view(o@);
    let n = o.len();
    for i in 0..n
        invariant
            n == o@.len(),
            es == entries_view(o@),
            buf@ == old(buf)@ + xml_attrs(es.take(i as int)),
    {
        let k = chars_of(o[i].key.as_str());
        assert(es.take(i as int + 1).drop_last() =~= es.take(i as int));
        assert(es.take(i as int + 1).last() == es[i as int]);
        if attr_key(&k) {
            match &o[i].value {
                JsonValue::String(t) => {
                    buf.push(' ');
                    let name = crate::text::sub_chars(&k, 1, k.len());
                    assert(name@ =~= k@.drop_first());
                    push_all(buf, &name);
                    push_str(buf, "=\"");
                    let tc = chars_of(t.as_str());
                    push_escaped(buf, &tc);
                    buf.push('"');
                },
                _ => {},
            }
        }
        assert(buf@ =~= old(buf)@ + xml_attrs(es.take(i as int + 1)));
    }
    assert(es.take(n as int) =~= es);
}

/// Whether object members `o` hold a child (see `xml_has_child`).
fn has_child(o: &Vec<JsonEntry>) -> (r: bool)
    ensures
        r == xml_has_child(entries_view(o@)),
{
    let ghost es = entries_view(o@);
    let n = o.len();
    let mut found = false;
    for i in 0..n
        invariant
            n == o@.len(),
            es == entries_view(o@),
            found == xml_has_child(es.take(i as int)),
    {
        let k = chars_of(o[i].key.as_str());
        assert(es.take(i as int + 1).drop_last() =~= es.take(i as int));
        if !attr_key(&k) {
            found = true;
        }
    }
    assert(es.take(n as int) =~= es);
    found
}

/// Append the one-line element of a scalar or null `v` (see `xml_of`).
fn scalar_to_xml(v: &JsonValue, tag: &Vec<char>, ind: &Vec<char>, buf: &mut Vec<char>)
    requires
        !(v is Object || v is Array),
    ensures
        final(buf)@ == old(buf)@ + xml_of(v@, tag@, ind@),
{
    match v {
        JsonValue::String(t) => {
            buf.extend_from_slice(ind.as_slice());
            buf.push('<');
            buf.extend_from_slice(tag.as_slice());
            buf.push('>');
            let tc = chars_of(t.as_str());
            push_escaped(buf, &tc);
            push_str(buf, "</");
            buf.extend_from_slice(tag.as_slice());
            push_str(buf, ">\n");
            assert(buf@ =~= old(buf)@ + xml_of(v@, tag@, ind@));
        },
        JsonValue::Number(t) => {
            buf.extend_from_slice(ind.as_slice());
            buf.push('<');
            buf.extend_from_slice(tag.as_slice());
            buf.push('>');
            push_str(buf, t.as_str());
            push_str(buf, "</");
            buf.extend_from_slice(tag.as_slice());
            push_str(buf, ">\n");
            assert(buf@ =~= old(buf)@ + xml_of(v@, tag@, ind@));
        },
        JsonValue::Bool(b) => {
            buf.extend_from_slice(ind.as_slice());
            buf.push('<');
            buf.extend_from_slice(tag.as_slice());
            buf.push('>');
            if *b {
                push_str(buf, "true");
            } else {
                push_str(buf, "false");
            }
            push_str(buf, "</");
            buf.extend_from_slice(tag.as_slice());
            push_str(buf, ">\n");
            assert(buf@ =~= old(buf)@ + xml_of(v@, tag@, ind@));
        },
        JsonValue::Null => {
            buf.extend_from_slice(ind.as_slice());
            buf.push('<');
            buf.extend_from_slice(tag.as_slice());
            push_str(buf, "/>\n");
            assert(buf@ =~= old(buf)@ + xml_of(v@, tag@, ind@));
        },
        _ => {},
    }
}

/// Append the XML text of `v` as element `tag` indented by `ind` (see
/// `xml_of`).
#[verifier::spinoff_prover]
#[verifier::rlimit(50)]
fn value_to_xml(v: &JsonValue, tag: &Vec<char>, ind: &Vec<char>, buf: &mut Vec<char>)
    ensures
        final(buf)@ == old(buf)@ + xml_of(v@, tag@, ind@),
    decreases v,
{
    match v {
        JsonValue::Object(o) => {
            proof {
                lemma_object_view(*v);
            }
            let ghost es = entries_view(o@);
            proof {
                if let JVal::Object(s) = v@ {
                    assert(s =~= es);
                }
            }
            assert(v@ == JVal::Object(es));
            let child = has_child(o);
            buf.extend_from_slice(ind.as_slice());
            buf.push('<');
            buf.extend_from_slice(tag.as_slice());
            push_attrs(buf, o);
            if !child {
                push_str(buf, "/>\n");
            } else {
                push_str(buf, ">\n");
                let mut inner: Vec<char> = Vec::new();
                inner.extend_from_slice(ind.as_slice());
                push_str(&mut inner, "  ");
                let ghost start = buf@;
                let n = o.len();
                for i in 0..n
                    invariant
                        n == o@.len(),
                        *v == JsonValue::Object(*o),
                        es == entries_view(o@),
                        v@ == JVal::Object(es),
                        inner@ == ind@ + "  "@,
                        buf@ == start + xml_members(v@, i as nat, ind@),
                {
                    proof {
                        crate::value::lemma_decreases_member(*v, i as int);
                    }
                    let k = chars_of(o[i].key.as_str());
                    if attr_key(&k) {
                    } else if crate::text::chars_eq(&k, &chars_of("$text")) {
                        match &o[i].value {
                            JsonValue::String(t) => {
                                buf.extend_from_slice(ind.as_slice());
                                push_str(buf, "  ");
                                let tc = chars_of(t.as_str());
                                push_escaped(buf, &tc);
                                buf.push('\n');
                            },
                            _ => {},
                        }
                    } else {
                        value_to_xml(&o[i].value, &k, &inner, buf);
                    }
                    assert(buf@ =~= start + xml_members(v@, i as nat + 1, ind@));
                }
                buf.extend_from_slice(ind.as_slice());
                push_str(buf, "</");
                buf.extend_from_slice(tag.as_slice());
                push_str(buf, ">\n");
            }
            assert(buf@ =~= old(buf)@ + xml_of(v@, tag@, ind@));
        },
        JsonValue::Array(a) => {
            proof {
                lemma_array_view(*v);
            }
            let ghost start = buf@;
            let n = a.len();
            for i in 0..n
                invariant
                    n == a@.len(),
                    *v == JsonValue::Array(*a),
                    v@ matches JVal::Array(s) && s.len() == n && forall|j: int|
                        0 <= j < n ==> #[trigger] s[j] == a@[j]@,
                    buf@ == start + xml_items(v@, tag@, i as nat, ind@),
            {
                proof {
                    crate::value::lemma_decreases_item(*v, i as int);
                }
                value_to_xml(&a[i], tag, ind, buf);
                assert(buf@ =~= start + xml_items(v@, tag@, i as nat + 1, ind@));
            }
        },
        _ => scalar_to_xml(v, tag, ind, buf),
    }
}

/// The declaration line that starts every XML text written.
pub open spec fn xml_declaration() -> Seq<char> {
    "<?xml version=\"1.0\" encoding=\"UTF-8\"?>\n"@
}

/// `serialize_xml`'s outcome: the declaration, then a one-member object
/// written as the element its key names, anything else as `<root>`.
pub open spec fn xml_text_spec(v: JVal) -> Seq<char> {
    xml_declaration() + match v {
        JVal::Object(ms) => if ms.len() == 1 {
            xml_of(ms[0].1, ms[0].0, Seq::empty())
        } else {
            xml_of(v, "root"@, Seq::empty())
        },
        _ => xml_of(v, "root"@, Seq::empty()),
    }
}

/// Write a document as XML text.
pub fn serialize_xml(v: &JsonValue) -> (r: String)
    ensures
        r@ == xml_text_spec(v@),
{
    let mut buf: Vec<char> = Vec::new();
    push_str(&mut buf, "<?xml version=\"1.0\" encoding=\"UTF-8\"?>\n");
    let empty: Vec<char> = Vec::new();
    match v {
        JsonValue::Object(o) => {
            proof {
                lemma_object_view(*v);
            }
            if o.len() == 1 {
                let k = chars_of(o[0].key.as_str());
                value_to_xml(&o[0].value, &k, &empty, &mut buf);
            } else {
                let root = chars_of("root");
                value_to_xml(v, &root, &empty, &mut buf);
            }
        },
        _ => {
            let root = chars_of("root");
            value_to_xml(v, &root, &empty, &mut buf);
        },
    }
    assert(empty@ =~= Seq::<char>::empty());
    string_of(buf.as_slice())
}

// ── the four formats ─────────────────────────────────────────────────────────

/// What parsing `raw` in format `f` gives.
pub open spec fn parse_spec(f: FileFormat, raw: Seq<char>) -> Result<JVal, Seq<char>> {
    match f {
        FileFormat::Json => json_parse_spec(raw),
        FileFormat::Yaml => yaml_parse_spec(raw),
        FileFormat::Toml => toml_parse_spec(raw),
        FileFormat::Xml => xml_parse_spec(raw),
    }
}

/// What writing document `v` in format `f` gives.
pub open spec fn serialize_spec(f: FileFormat, v: JVal) -> Seq<char> {
    match f {
        FileFormat::Json => json_text_spec(v),
        FileFormat::Yaml => yaml_text_spec(v),
        FileFormat::Toml => toml_text_spec(v),
        FileFormat::Xml => xml_text_spec(v),
    }
}

/// Parse `raw` in format `f`.
pub fn parse_text(f: FileFormat, raw: &str) -> (r: Result<JsonValue, String>)
    ensures
        match r {
            Ok(v) => parse_spec(f, raw@) == Ok::<JVal, Seq<char>>(v@),
            Err(m) => parse_spec(f, raw@) == Err::<JVal, Seq<char>>(m@),
        },
{
    match f {
        FileFormat::Json => parse_json(raw),
        FileFormat::Yaml => parse_yaml(raw),
        FileFormat::Toml => parse_toml(raw),
        FileFormat::Xml => parse_xml(raw),
    }
}

/// Write document `v` in format `f`.
pub fn serialize_text(f: FileFormat, v: &JsonValue) -> (r: String)
    ensures
        r@ == serialize_spec(f, v@),
{
    match f {
        FileFormat::Json => serialize_json(v),
        FileFormat::Yaml => serialize_yaml(v),
        FileFormat::Toml => serialize_toml(v),
        FileFormat::Xml => serialize_xml(v),
    }
}

} // verus!
