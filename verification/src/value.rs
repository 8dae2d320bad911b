//! The document model: a JSON value tree with sorted object keys, and the
//! path-addressed edits the tree pane performs on it (set, delete, add key,
//! rename key).
//!
//! Objects keep their entries ordered by key, as a `BTreeMap` does; every
//! edit goes through `obj_insert` / `obj_remove`, which keep that order.
use vstd::prelude::*;
use crate::text::{
    chars_eq, chars_lt, chars_of, decimal, find_char_from, first_index_of, key_lt, last_index_of,
    lemma_first_index_of, lemma_first_index_skip, lemma_first_index_skip_none, lemma_last_index_of,
    parse_usize, parse_usize_spec, push_all, push_str, rfind_char, string_of, sub_chars,
    usize_to_chars,
};

verus! {

/// A JSON value.  Numbers are held as their canonical JSON text.
#[derive(Debug, PartialEq)]
pub enum JsonValue {
    Null,
    Bool(bool),
    Number(String),
    String(String),
    Array(Vec<JsonValue>),
    Object(Vec<JsonEntry>),
}

/// One `key: value` member of a JSON object.
#[derive(Debug, PartialEq)]
pub struct JsonEntry {
    pub key: String,
    pub value: JsonValue,
}

/// The mathematical view of a `JsonValue`.
pub enum JVal {
    Null,
    Bool(bool),
    Number(Seq<char>),
    Str(Seq<char>),
    Array(Seq<JVal>),
    Object(Seq<(Seq<char>, JVal)>),
}

impl JsonValue {
    /// The view of this value.
    pub open spec fn vw(&self) -> JVal
        decreases self, 1nat, 0nat,
    {
        match self {
            JsonValue::Null => JVal::Null,
            JsonValue::Bool(b) => JVal::Bool(*b),
            JsonValue::Number(n) => JVal::Number(n@),
            JsonValue::String(s) => JVal::Str(s@),
            JsonValue::Array(a) => JVal::Array(self.items_vw(a@.len())),
            JsonValue::Object(o) => JVal::Object(self.entries_vw(o@.len())),
        }
    }

    /// Views of the first `n` array elements.
    pub open spec fn items_vw(&self, n: nat) -> Seq<JVal>
        decreases self, 0nat, n,
    {
        match self {
            JsonValue::Array(a) => if 0 < n <= a@.len() {
                proof {
                    assert(decreases_to!(self => a@[n - 1]));
                }
                self.items_vw((n - 1) as nat).push(a@[n - 1].vw())
            } else {
                Seq::empty()
            },
            _ => Seq::empty(),
        }
    }

    /// Views of the first `n` object members.
    pub open spec fn entries_vw(&self, n: nat) -> Seq<(Seq<char>, JVal)>
        decreases self, 0nat, n,
    {
        match self {
            JsonValue::Object(o) => if 0 < n <= o@.len() {
                proof {
                    assert(decreases_to!(self => o@[n - 1].value));
                }
                self.entries_vw((n - 1) as nat).push((o@[n - 1].key@, o@[n - 1].value.vw()))
            } else {
                Seq::empty()
            },
            _ => Seq::empty(),
        }
    }
}

impl View for JsonValue {
    type V = JVal;

    open spec fn view(&self) -> JVal {
        self.vw()
    }
}

proof fn lemma_items_vw(v: JsonValue, n: nat)
    requires
        v matches JsonValue::Array(a) && n <= a@.len(),
    ensures
        v.items_vw(n).len() == n,
        forall|i: int| 0 <= i < n ==> #[trigger] v.items_vw(n)[i] == v->Array_0@[i].vw(),
    decreases n,
{
    if n > 0 {
        lemma_items_vw(v, (n - 1) as nat);
    }
}

proof fn lemma_entries_vw(v: JsonValue, n: nat)
    requires
        v matches JsonValue::Object(o) && n <= o@.len(),
    ensures
        v.entries_vw(n).len() == n,
        forall|i: int|
            0 <= i < n ==> #[trigger] v.entries_vw(n)[i] == (
                v->Object_0@[i].key@,
                v->Object_0@[i].value.vw(),
            ),
    decreases n,
{
    if n > 0 {
        lemma_entries_vw(v, (n - 1) as nat);
    }
}

/// The view of an array is the sequence of its elements' views.
pub proof fn lemma_array_view(v: JsonValue)
    requires
        v is Array,
    ensures
        v@ matches JVal::Array(s) && s.len() == v->Array_0@.len() && forall|i: int|
            0 <= i < s.len() ==> #[trigger] s[i] == v->Array_0@[i]@,
{
    lemma_items_vw(v, v->Array_0@.len());
}

/// The view of an object is the sequence of its members' views.
pub proof fn lemma_object_view(v: JsonValue)
    requires
        v is Object,
    ensures
        v@ matches JVal::Object(s) && s.len() == v->Object_0@.len() && forall|i: int|
            0 <= i < s.len() ==> #[trigger] s[i] == (v->Object_0@[i].key@, v->Object_0@[i].value@),
{
    lemma_entries_vw(v, v->Object_0@.len());
}

/// The view of a sequence of values.
pub open spec fn vals_vw(s: Seq<JsonValue>) -> Seq<JVal> {
    s.map_values(|x: JsonValue| x@)
}

/// The view of a sequence of members.
pub open spec fn entries_view(s: Seq<JsonEntry>) -> Seq<(Seq<char>, JVal)> {
    s.map_values(|e: JsonEntry| (e.key@, e.value@))
}

/// An array value holding the given elements has these elements' views.
pub proof fn lemma_array_of(a: Vec<JsonValue>)
    ensures
        JsonValue::Array(a)@ == JVal::Array(vals_vw(a@)),
{
    let v = JsonValue::Array(a);
    lemma_array_view(v);
    assert(v->Array_0@ == a@);
    if let JVal::Array(s) = v@ {
        assert(s =~= vals_vw(a@));
    }
}

/// An object value holding the given members has these members' views.
pub proof fn lemma_object_of(o: Vec<JsonEntry>)
    ensures
        JsonValue::Object(o)@ == JVal::Object(entries_view(o@)),
{
    let v = JsonValue::Object(o);
    lemma_object_view(v);
    if let JVal::Object(s) = v@ {
        assert(s =~= entries_view(o@));
    }
}

/// An array decreases to its elements.
pub proof fn lemma_decreases_item(v: JsonValue, i: int)
    requires
        v is Array,
        0 <= i < v->Array_0@.len(),
    ensures
        decreases_to!(v => v->Array_0@[i]),
{
    if let JsonValue::Array(a) = v {
        assert(decreases_to!(v => a@[i]));
    }
}

/// An object decreases to its members' values.
pub proof fn lemma_decreases_member(v: JsonValue, i: int)
    requires
        v is Object,
        0 <= i < v->Object_0@.len(),
    ensures
        decreases_to!(v => v->Object_0@[i].value),
{
    if let JsonValue::Object(o) = v {
        assert(decreases_to!(v => o@[i].value));
    }
}

impl JsonValue {
    /// A copy of this value with the same view.
    pub fn deep_copy(&self) -> (r: JsonValue)
        ensures
            r@ == self@,
        decreases self,
    {
        match self {
            JsonValue::Null => JsonValue::Null,
            JsonValue::Bool(b) => JsonValue::Bool(*b),
            JsonValue::Number(n) => JsonValue::Number(n.clone()),
            JsonValue::String(s) => JsonValue::String(s.clone()),
            JsonValue::Array(a) => {
                let mut out: Vec<JsonValue> = Vec::new();
                let n = a.len();
                for i in 0..n
                    invariant
                        n == a@.len(),
                        *self == JsonValue::Array(*a),
                        vals_vw(out@) == vals_vw(a@).take(i as int),
                {
                    proof {
                        lemma_decreases_item(*self, i as int);
                    }
                    let c = a[i].deep_copy();
                    let ghost prev = out@;
                    out.push(c);
                    assert(vals_vw(out@) =~= vals_vw(prev).push(a@[i as int]@));
                    assert(vals_vw(a@).take(i + 1) =~= vals_vw(a@).take(i as int).push(a@[i as int]@));
                }
                assert(vals_vw(a@).take(n as int) =~= vals_vw(a@));
                proof {
                    lemma_array_of(*a);
                    lemma_array_of(out);
                }
                JsonValue::Array(out)
            },
            JsonValue::Object(o) => {
                let mut out: Vec<JsonEntry> = Vec::new();
                let n = o.len();
                for i in 0..n
                    invariant
                        n == o@.len(),
                        *self == JsonValue::Object(*o),
                        entries_view(out@) == entries_view(o@).take(i as int),
                {
                    proof {
                        lemma_decreases_member(*self, i as int);
                    }
                    let c = o[i].value.deep_copy();
                    let ghost prev = out@;
                    out.push(JsonEntry { key: o[i].key.clone(), value: c });
                    let ghost e = (o@[i as int].key@, o@[i as int].value@);
                    assert(entries_view(out@) =~= entries_view(prev).push(e));
                    assert(entries_view(o@).take(i + 1) =~= entries_view(o@).take(i as int).push(e));
                }
                assert(entries_view(o@).take(n as int) =~= entries_view(o@));
                proof {
                    lemma_object_of(*o);
                    lemma_object_of(out);
                }
                JsonValue::Object(out)
            },
        }
    }
}

// ── object members as an ordered map ─────────────────────────────────────────

/// Index of the member with key `k`.
pub open spec fn obj_find(es: Seq<(Seq<char>, JVal)>, k: Seq<char>) -> Option<int>
    decreases es.len(),
{
    if es.len() == 0 {
        None
    } else if es[0].0 == k {
        Some(0)
    } else {
        match obj_find(es.drop_first(), k) {
            Some(i) => Some(i + 1),
            None => None,
        }
    }
}

/// `BTreeMap::insert`: replaces the value of an existing key, or inserts the
/// member before the first key that is greater.
pub open spec fn obj_insert(es: Seq<(Seq<char>, JVal)>, k: Seq<char>, v: JVal) -> Seq<
    (Seq<char>, JVal),
>
    decreases es.len(),
{
    if es.len() == 0 {
        seq![(k, v)]
    } else if es[0].0 == k {
        seq![(k, v)] + es.drop_first()
    } else if key_lt(k, es[0].0) {
        seq![(k, v)] + es
    } else {
        seq![es[0]] + obj_insert(es.drop_first(), k, v)
    }
}

/// The value of the member with key `k`, if any.
pub open spec fn obj_get(es: Seq<(Seq<char>, JVal)>, k: Seq<char>) -> Option<JVal> {
    match obj_find(es, k) {
        Some(i) => Some(es[i].1),
        None => None,
    }
}

proof fn lemma_obj_get_cons(x: (Seq<char>, JVal), rest: Seq<(Seq<char>, JVal)>, t: Seq<char>)
    ensures
        obj_get(seq![x] + rest, t) == if x.0 == t {
            Some(x.1)
        } else {
            obj_get(rest, t)
        },
{
    let s2 = seq![x] + rest;
    assert(s2[0] == x);
    assert(s2.drop_first() =~= rest);
    if x.0 != t {
        match obj_find(rest, t) {
            Some(i) => {
                lemma_obj_find(rest, t);
                assert(s2[i + 1] == rest[i]);
            },
            None => {},
        }
    }
}

/// Inserting `k: v` makes `v` the value under `k` and leaves every other
/// key's value as it was.
pub proof fn lemma_obj_insert_get(es: Seq<(Seq<char>, JVal)>, k: Seq<char>, v: JVal, t: Seq<char>)
    ensures
        obj_get(obj_insert(es, k, v), t) == if t == k {
            Some(v)
        } else {
            obj_get(es, t)
        },
    decreases es.len(),
{
    if es.len() > 0 {
        let rest = es.drop_first();
        assert(es =~= seq![es[0]] + rest);
        lemma_obj_get_cons(es[0], rest, t);
        if es[0].0 == k {
            assert(obj_insert(es, k, v) == seq![(k, v)] + rest);
            lemma_obj_get_cons((k, v), rest, t);
        } else if key_lt(k, es[0].0) {
            assert(obj_insert(es, k, v) == seq![(k, v)] + es);
            lemma_obj_get_cons((k, v), es, t);
        } else {
            assert(obj_insert(es, k, v) == seq![es[0]] + obj_insert(rest, k, v));
            lemma_obj_insert_get(rest, k, v, t);
            lemma_obj_get_cons(es[0], obj_insert(rest, k, v), t);
        }
    } else {
        let e: Seq<(Seq<char>, JVal)> = Seq::empty();
        assert(obj_insert(es, k, v) =~= seq![(k, v)] + e);
        lemma_obj_get_cons((k, v), e, t);
    }
}

/// Replacing the value of member `i` changes only what its key gives.
pub proof fn lemma_obj_update_get(es: Seq<(Seq<char>, JVal)>, i: int, x: JVal, t: Seq<char>)
    requires
        obj_find(es, es[i].0) == Some(i),
        0 <= i < es.len(),
    ensures
        obj_get(es.update(i, (es[i].0, x)), t) == if t == es[i].0 {
            Some(x)
        } else {
            obj_get(es, t)
        },
{
    lemma_obj_find_update(es, i, x, t);
    lemma_obj_find(es, t);
}

/// `obj_find` finds the first member with the key, or there is none.
pub proof fn lemma_obj_find(es: Seq<(Seq<char>, JVal)>, k: Seq<char>)
    ensures
        match obj_find(es, k) {
            Some(i) => 0 <= i < es.len() && es[i].0 == k && forall|j: int|
                0 <= j < i ==> es[j].0 != k,
            None => forall|j: int| 0 <= j < es.len() ==> es[j].0 != k,
        },
    decreases es.len(),
{
    if es.len() > 0 && es[0].0 != k {
        lemma_obj_find(es.drop_first(), k);
        match obj_find(es.drop_first(), k) {
            Some(i) => {
                assert forall|j: int| 0 <= j < i + 1 implies es[j].0 != k by {
                    if j > 0 {
                        assert(es[j] == es.drop_first()[j - 1]);
                    }
                }
            },
            None => {
                assert forall|j: int| 0 <= j < es.len() implies es[j].0 != k by {
                    if j > 0 {
                        assert(es[j] == es.drop_first()[j - 1]);
                    }
                }
            },
        }
    }
}

proof fn lemma_obj_find_skip(es: Seq<(Seq<char>, JVal)>, k: Seq<char>, i: int)
    requires
        0 <= i <= es.len(),
        forall|j: int| 0 <= j < i ==> es[j].0 != k,
    ensures
        obj_find(es, k) == (match obj_find(es.skip(i), k) {
            Some(x) => Some(x + i),
            None => None,
        }),
    decreases i,
{
    if i > 0 {
        lemma_obj_find_skip(es.drop_first(), k, i - 1);
        assert(es.drop_first().skip(i - 1) == es.skip(i));
    } else {
        assert(es.skip(0) == es);
    }
}

proof fn lemma_obj_insert_skip(es: Seq<(Seq<char>, JVal)>, k: Seq<char>, v: JVal, i: int)
    requires
        0 <= i <= es.len(),
        forall|j: int| 0 <= j < i ==> es[j].0 != k && !key_lt(k, es[j].0),
    ensures
        obj_insert(es, k, v) == es.take(i) + obj_insert(es.skip(i), k, v),
    decreases i,
{
    if i > 0 {
        lemma_obj_insert_skip(es.drop_first(), k, v, i - 1);
        assert(es.drop_first().skip(i - 1) == es.skip(i));
        assert(es.take(i) == seq![es[0]] + es.drop_first().take(i - 1));
    } else {
        assert(es.skip(0) == es);
        assert(es.take(0) == Seq::<(Seq<char>, JVal)>::empty());
    }
}

/// Position of the member with key `k`.
pub fn find_entry(entries: &Vec<JsonEntry>, k: &Vec<char>) -> (r: Option<usize>)
    ensures
        match r {
            Some(i) => obj_find(entries_view(entries@), k@) == Some(i as int),
            None => obj_find(entries_view(entries@), k@) is None,
        },
{
    let ghost es = entries_view(entries@);
    let n = entries.len();
    for i in 0..n
        invariant
            n == entries@.len(),
            es == entries_view(entries@),
            forall|j: int| 0 <= j < i ==> es[j].0 != k@,
    {
        let ek = chars_of(&entries[i].key);
        if chars_eq(&ek, k) {
            proof {
                lemma_obj_find_skip(es, k@, i as int);
                assert(es.skip(i as int)[0].0 == k@);
            }
            return Some(i);
        }
    }
    proof {
        lemma_obj_find(es, k@);
    }
    None
}

/// `BTreeMap::insert` on the members of an object.
pub fn entries_insert(members: Vec<JsonEntry>, key: String, value: JsonValue) -> (r: Vec<JsonEntry>)
    ensures
        entries_view(r@) == obj_insert(entries_view(members@), key@, value@),
{
    let ghost es = entries_view(members@);
    let mut entries = members;
    let kc = chars_of(&key);
    let n = entries.len();
    let mut i: usize = 0;
    while i < n
        invariant
            n == entries@.len(),
            i <= n,
            kc@ == key@,
            es == entries_view(entries@),
            es == entries_view(members@),
            forall|j: int| 0 <= j < i ==> es[j].0 != key@ && !key_lt(key@, es[j].0),
        decreases n - i,
    {
        let ek = chars_of(&entries[i].key);
        let ghost rest = es.skip(i as int);
        proof {
            lemma_obj_insert_skip(es, key@, value@, i as int);
            assert(rest[0] == es[i as int]);
        }
        if chars_eq(&ek, &kc) {
            let ghost vv = value@;
            let ghost kv = key@;
            assert(rest[0].0 == kv);
            assert(obj_insert(rest, kv, vv) == seq![(kv, vv)] + rest.drop_first());
            entries.set(i, JsonEntry { key, value });
            assert(entries_view(entries@) =~= es.take(i as int) + (seq![(kv, vv)] + rest.drop_first()));
            assert(entries_view(entries@) == obj_insert(es, kv, vv));
            return entries;
        }
        if chars_lt(&kc, &ek) {
            let ghost vv = value@;
            let ghost kv = key@;
            assert(key_lt(kv, rest[0].0));
            assert(obj_insert(rest, kv, vv) == seq![(kv, vv)] + rest);
            entries.insert(i, JsonEntry { key, value });
            assert(entries_view(entries@) =~= es.take(i as int) + (seq![(kv, vv)] + rest));
            assert(entries_view(entries@) == obj_insert(es, kv, vv));
            return entries;
        }
        i = i + 1;
    }
    proof {
        lemma_obj_insert_skip(es, key@, value@, n as int);
        assert(es.skip(n as int).len() == 0);
        assert(es.take(n as int) == es);
    }
    let ghost vv = value@;
    entries.push(JsonEntry { key, value });
    assert(entries_view(entries@) =~= es + seq![(key@, vv)]);
    entries
}

// ── paths ────────────────────────────────────────────────────────────────────

/// The parts of a dot/bracket path, scanned left to right as the editor
/// does: `.` ends a part, `[` ends a part and then everything up to the next
/// `]` is one part (an optional `.` after the `]` is skipped), and any other
/// character extends the current part.  Empty parts are dropped, except a
/// bracketed one.
pub open spec fn path_parts_from(rest: Seq<char>, cur: Seq<char>, parts: Seq<Seq<char>>) -> Seq<
    Seq<char>,
>
    decreases rest.len(),
{
    let flushed = if cur.len() > 0 {
        parts.push(cur)
    } else {
        parts
    };
    if rest.len() == 0 {
        flushed
    } else if rest[0] == '.' {
        path_parts_from(rest.drop_first(), seq![], flushed)
    } else if rest[0] == '[' {
        let r = rest.drop_first();
        let j = match first_index_of(r, ']') {
            Some(j) => j,
            None => r.len() as int,
        };
        let after = if j < r.len() {
            r.skip(j + 1)
        } else {
            r.skip(j)
        };
        let after2 = if after.len() > 0 && after[0] == '.' {
            after.drop_first()
        } else {
            after
        };
        proof {
            lemma_first_index_of(r, ']');
        }
        path_parts_from(after2, seq![], flushed.push(r.take(j)))
    } else {
        path_parts_from(rest.drop_first(), cur.push(rest[0]), parts)
    }
}

/// `parse_path_parts`: the parts of `path`.
pub open spec fn path_parts(path: Seq<char>) -> Seq<Seq<char>> {
    path_parts_from(path, seq![], seq![])
}

/// The view of a list of character vectors.
pub open spec fn vv(s: Seq<Vec<char>>) -> Seq<Seq<char>> {
    s.map_values(|x: Vec<char>| x@)
}

/// Split `path` into its parts (`a.b[0].c` gives `a`, `b`, `0`, `c`).
pub fn parse_path_parts(path: &Vec<char>) -> (r: Vec<Vec<char>>)
    ensures
        vv(r@) == path_parts(path@),
{
    let n = path.len();
    let mut parts: Vec<Vec<char>> = Vec::new();
    let mut current: Vec<char> = Vec::new();
    let mut i: usize = 0;
    assert(path@.skip(0) == path@);
    assert(vv(parts@) =~= Seq::<Seq<char>>::empty());
    assert(current@ =~= Seq::<char>::empty());
    while i < n
        invariant
            i <= n,
            n == path@.len(),
            path_parts(path@) == path_parts_from(path@.skip(i as int), current@, vv(parts@)),
        decreases n - i,
    {
        let c = path[i];
        let ghost rest = path@.skip(i as int);
        assert(rest[0] == c);
        assert(rest.drop_first() == path@.skip(i + 1));
        let ghost cur0 = current@;
        let ghost parts0 = vv(parts@);
        if c == '.' {
            if current.len() > 0 {
                let ghost before = vv(parts@);
                parts.push(current);
                assert(vv(parts@) =~= before.push(current@));
                current = Vec::new();
            } else {
                assert(current@ =~= Seq::<char>::empty());
            }
            i = i + 1;
            assert(path_parts_from(rest, cur0, parts0) == path_parts_from(
                path@.skip(i as int),
                current@,
                vv(parts@),
            ));
        } else if c == '[' {
            proof {
                lemma_first_index_of(rest.drop_first(), ']');
            }
            if current.len() > 0 {
                let ghost before = vv(parts@);
                parts.push(current);
                assert(vv(parts@) =~= before.push(current@));
                current = Vec::new();
            }
            let close = find_char_from(path, ']', i + 1);
            let j: usize = match close {
                Some(j) => j,
                None => n,
            };
            proof {
                let r = rest.drop_first();
                if close is Some {
                    lemma_first_index_skip(path@, ']', i + 1, j as int);
                } else {
                    lemma_first_index_skip_none(path@, ']', i + 1);
                }
                assert(r == path@.skip(i + 1));
                assert(r.take(j - i - 1) == path@.subrange(i + 1, j as int));
            }
            let idx = sub_chars(path, i + 1, j);
            let ghost before = vv(parts@);
            parts.push(idx);
            assert(vv(parts@) =~= before.push(idx@));
            let mut k: usize = if j < n {
                j + 1
            } else {
                n
            };
            proof {
                let r = rest.drop_first();
                if j < n {
                    assert(r.skip(j - i) == path@.skip(j + 1));
                } else {
                    assert(r.skip(j - i - 1) == path@.skip(n as int));
                }
            }
            if k < n && path[k] == '.' {
                assert(path@.skip(k as int).drop_first() == path@.skip(k + 1));
                k = k + 1;
            }
            current = Vec::new();
            i = k;
            assert(current@ =~= Seq::<char>::empty());
            assert(path_parts_from(rest, cur0, parts0) == path_parts_from(
                path@.skip(i as int),
                current@,
                vv(parts@),
            ));
        } else {
            current.push(c);
            i = i + 1;
            assert(path_parts_from(rest, cur0, parts0) == path_parts_from(
                path@.skip(i as int),
                current@,
                vv(parts@),
            ));
        }
    }
    assert(path@.skip(n as int).len() == 0);
    if current.len() > 0 {
        let ghost before = vv(parts@);
        parts.push(current);
        assert(vv(parts@) =~= before.push(current@));
    }
    parts
}

/// `split_path`: the parent path and the last key of `path`.  A path ending
/// in `]` with a `[` in it splits at the last `[`; otherwise it splits at the
/// last `.`; a path with neither has the empty parent.
pub open spec fn split_path_spec(path: Seq<char>) -> Result<(Seq<char>, Seq<char>), Seq<char>> {
    if path.len() == 0 {
        Err("Cannot split empty path"@)
    } else if path.last() == ']' && last_index_of(path, '[') is Some {
        let b = last_index_of(path, '[')->0;
        Ok((path.take(b), path.subrange(b + 1, path.len() - 1)))
    } else {
        match last_index_of(path, '.') {
            Some(d) => Ok((path.take(d), path.skip(d + 1))),
            None => Ok((Seq::empty(), path)),
        }
    }
}

/// Split `path` at its last step (characters in, characters out).
pub fn split_path_chars(path: &Vec<char>) -> (r: Result<(Vec<char>, Vec<char>), String>)
    ensures
        match r {
            Ok((p, k)) => split_path_spec(path@) == Ok::<(Seq<char>, Seq<char>), Seq<char>>(
                (p@, k@),
            ),
            Err(e) => split_path_spec(path@) == Err::<(Seq<char>, Seq<char>), Seq<char>>(e@),
        },
{
    let n = path.len();
    if n == 0 {
        return Err(string_of(chars_of("Cannot split empty path").as_slice()));
    }
    if path[n - 1] == ']' {
        if let Some(b) = rfind_char(path, '[') {
            proof {
                lemma_last_index_of(path@, '[');
            }
            let parent = sub_chars(path, 0, b);
            let key = sub_chars(path, b + 1, n - 1);
            return Ok((parent, key));
        }
    }
    match rfind_char(path, '.') {
        Some(d) => {
            proof {
                lemma_last_index_of(path@, '.');
            }
            let parent = sub_chars(path, 0, d);
            let key = sub_chars(path, d + 1, n);
            Ok((parent, key))
        },
        None => {
            let all = sub_chars(path, 0, n);
            assert(all@ =~= path@);
            Ok((Vec::new(), all))
        },
    }
}

/// Split a dot-notation path into its parent path and last key.
/// e.g. `"foo.bar[2].baz"` gives `("foo.bar[2]", "baz")`, `"foo"` gives
/// `("", "foo")`.
pub fn split_path(path: &str) -> (r: Result<(String, String), String>)
    ensures
        match r {
            Ok((p, k)) => split_path_spec(path@) == Ok::<(Seq<char>, Seq<char>), Seq<char>>(
                (p@, k@),
            ),
            Err(e) => split_path_spec(path@) == Err::<(Seq<char>, Seq<char>), Seq<char>>(e@),
        },
{
    let cs = chars_of(path);
    match split_path_chars(&cs) {
        Ok((p, k)) => Ok((string_of(p.as_slice()), string_of(k.as_slice()))),
        Err(e) => Err(e),
    }
}

// ── navigation and edits ─────────────────────────────────────────────────────

/// `"<a><b><c>"` as one character sequence (used for messages).
pub open spec fn msg3(a: Seq<char>, b: Seq<char>, c: Seq<char>) -> Seq<char> {
    a + b + c
}

/// One step down from `v` along `part`, or the error the editor reports.
pub open spec fn step(v: JVal, part: Seq<char>) -> Result<JVal, Seq<char>> {
    match v {
        JVal::Object(es) => match obj_find(es, part) {
            Some(i) => Ok(es[i].1),
            None => Err(msg3("Key '"@, part, "' not found"@)),
        },
        JVal::Array(a) => match parse_usize_spec(part) {
            None => Err(msg3("'"@, part, "' is not a valid index"@)),
            Some(idx) => if idx < a.len() {
                Ok(a[idx as int])
            } else {
                Err(msg3("Index "@, decimal(idx), " out of range"@))
            },
        },
        _ => Err(msg3("Cannot index into scalar at '"@, part, "'"@)),
    }
}

/// The node reached from `v` along `parts`.
pub open spec fn nav(v: JVal, parts: Seq<Seq<char>>) -> Result<JVal, Seq<char>>
    decreases parts.len(),
{
    if parts.len() == 0 {
        Ok(v)
    } else {
        match step(v, parts[0]) {
            Ok(c) => nav(c, parts.drop_first()),
            Err(e) => Err(e),
        }
    }
}

/// `v` with the node at `parts` replaced by `n` (where `nav` reaches one).
pub open spec fn put(v: JVal, parts: Seq<Seq<char>>, n: JVal) -> JVal
    decreases parts.len(),
{
    if parts.len() == 0 {
        n
    } else {
        match v {
            JVal::Object(es) => match obj_find(es, parts[0]) {
                Some(i) => JVal::Object(
                    es.update(i, (es[i].0, put(es[i].1, parts.drop_first(), n))),
                ),
                None => v,
            },
            JVal::Array(a) => match parse_usize_spec(parts[0]) {
                Some(idx) => if idx < a.len() {
                    JVal::Array(a.update(idx as int, put(a[idx as int], parts.drop_first(), n)))
                } else {
                    v
                },
                None => v,
            },
            _ => v,
        }
    }
}

/// What an edit does to the node it targets.
pub enum EditOp {
    /// Set member `key` (object) or element `key` (array) to `value`.
    Assign { key: Vec<char>, value: JsonValue, parent: Vec<char> },
    /// Remove member `key` (object) or element `key` (array).
    Delete { key: Vec<char> },
    /// Insert member `key` (object) or push `value` (array).
    Add { key: String, value: JsonValue, parent: Vec<char> },
    /// Move the value of member `old` to member `new_key`.
    Rename { old: Vec<char>, new_key: String, parent: Vec<char> },
}

/// The view of an `EditOp`.
pub enum EditOpV {
    Assign { key: Seq<char>, value: JVal, parent: Seq<char> },
    Delete { key: Seq<char> },
    Add { key: Seq<char>, value: JVal, parent: Seq<char> },
    Rename { old: Seq<char>, new_key: Seq<char>, parent: Seq<char> },
}

impl EditOp {
    /// The view of an edit.
    pub open spec fn vw(&self) -> EditOpV {
        match self {
            EditOp::Assign { key, value, parent } => EditOpV::Assign {
                key: key@,
                value: value@,
                parent: parent@,
            },
            EditOp::Delete { key } => EditOpV::Delete { key: key@ },
            EditOp::Add { key, value, parent } => EditOpV::Add {
                key: key@,
                value: value@,
                parent: parent@,
            },
            EditOp::Rename { old, new_key, parent } => EditOpV::Rename {
                old: old@,
                new_key: new_key@,
                parent: parent@,
            },
        }
    }
}

/// Index `key` into an array of length `len`, with the editor's messages.
pub open spec fn array_slot(key: Seq<char>, len: nat) -> Result<nat, Seq<char>> {
    match parse_usize_spec(key) {
        None => Err(msg3("'"@, key, "' is not a valid index"@)),
        Some(idx) => if idx < len {
            Ok(idx)
        } else {
            Err(msg3("Index "@, decimal(idx), " out of range"@))
        },
    }
}

/// The effect of `op` on the node `p` it targets.
pub open spec fn apply_op(p: JVal, op: EditOpV) -> Result<JVal, Seq<char>> {
    match op {
        EditOpV::Assign { key, value, parent } => match p {
            JVal::Object(es) => Ok(JVal::Object(obj_insert(es, key, value))),
            JVal::Array(a) => match array_slot(key, a.len()) {
                Ok(idx) => Ok(JVal::Array(a.update(idx as int, value))),
                Err(e) => Err(e),
            },
            _ => Err(msg3("Cannot set value at scalar node '"@, parent, "'"@)),
        },
        EditOpV::Delete { key } => match p {
            JVal::Object(es) => match obj_find(es, key) {
                Some(i) => Ok(JVal::Object(es.remove(i))),
                None => Err(msg3("Key '"@, key, "' not found"@)),
            },
            JVal::Array(a) => match array_slot(key, a.len()) {
                Ok(idx) => Ok(JVal::Array(a.remove(idx as int))),
                Err(e) => Err(e),
            },
            _ => Err("Cannot delete from scalar"@),
        },
        EditOpV::Add { key, value, parent } => match p {
            JVal::Object(es) => Ok(JVal::Object(obj_insert(es, key, value))),
            JVal::Array(a) => Ok(JVal::Array(a.push(value))),
            _ => Err(msg3("Node at '"@, parent, "' is not an object or array"@)),
        },
        EditOpV::Rename { old, new_key, parent } => match p {
            JVal::Object(es) => match obj_find(es, old) {
                Some(i) => Ok(JVal::Object(obj_insert(es.remove(i), new_key, es[i].1))),
                None => Err(msg3("Key '"@, old, "' not found"@)),
            },
            _ => Err(msg3("Parent at '"@, parent, "' is not an object"@)),
        },
    }
}

/// The effect of `op` on the node of `root` at `parts`.
pub open spec fn edit_at(root: JVal, parts: Seq<Seq<char>>, op: EditOpV) -> Result<JVal, Seq<char>> {
    match nav(root, parts) {
        Err(e) => Err(e),
        Ok(p) => match apply_op(p, op) {
            Err(e) => Err(e),
            Ok(np) => Ok(put(root, parts, np)),
        },
    }
}

proof fn lemma_obj_find_update(es: Seq<(Seq<char>, JVal)>, i: int, x: JVal, k: Seq<char>)
    requires
        0 <= i < es.len(),
    ensures
        obj_find(es.update(i, (es[i].0, x)), k) == obj_find(es, k),
    decreases es.len(),
{
    let u = es.update(i, (es[i].0, x));
    if i > 0 {
        assert(u.drop_first() =~= es.drop_first().update(i - 1, (es.drop_first()[i - 1].0, x)));
        lemma_obj_find_update(es.drop_first(), i - 1, x, k);
    } else {
        assert(u.drop_first() =~= es.drop_first());
    }
}

proof fn lemma_obj_insert_find(es: Seq<(Seq<char>, JVal)>, k: Seq<char>, v: JVal)
    ensures
        obj_find(obj_insert(es, k, v), k) matches Some(i) && 0 <= i < obj_insert(es, k, v).len()
            && obj_insert(es, k, v)[i] == (k, v),
    decreases es.len(),
{
    let r = obj_insert(es, k, v);
    if es.len() == 0 {
    } else if es[0].0 == k {
    } else if key_lt(k, es[0].0) {
    } else {
        lemma_obj_insert_find(es.drop_first(), k, v);
        assert(r.drop_first() =~= obj_insert(es.drop_first(), k, v));
    }
}

proof fn lemma_nav_put(v: JVal, parts: Seq<Seq<char>>, n: JVal)
    requires
        nav(v, parts) is Ok,
    ensures
        nav(put(v, parts, n), parts) == Ok::<JVal, Seq<char>>(n),
    decreases parts.len(),
{
    if parts.len() > 0 {
        let k = parts[0];
        let rest = parts.drop_first();
        match v {
            JVal::Object(es) => {
                let i = obj_find(es, k)->0;
                lemma_obj_find(es, k);
                lemma_nav_put(es[i].1, rest, n);
                lemma_obj_find_update(es, i, put(es[i].1, rest, n), k);
            },
            JVal::Array(a) => {
                let idx = parse_usize_spec(k)->0;
                lemma_nav_put(a[idx as int], rest, n);
            },
            _ => {},
        }
    }
}

proof fn lemma_nav_push(v: JVal, parts: Seq<Seq<char>>, k: Seq<char>)
    ensures
        nav(v, parts.push(k)) == (match nav(v, parts) {
            Ok(p) => step(p, k),
            Err(e) => Err(e),
        }),
    decreases parts.len(),
{
    if parts.len() == 0 {
        assert(parts.push(k).drop_first() =~= Seq::<Seq<char>>::empty());
        match step(v, k) {
            Ok(c) => {
                assert(nav(c, parts.push(k).drop_first()) == Ok::<JVal, Seq<char>>(c));
            },
            Err(_) => {},
        }
    } else {
        assert(parts.push(k)[0] == parts[0]);
        assert(parts.push(k).drop_first() =~= parts.drop_first().push(k));
        match step(v, parts[0]) {
            Ok(c) => lemma_nav_push(c, parts.drop_first(), k),
            Err(_) => {},
        }
    }
}

/// Reading back what was set: after setting `nv` at `path`, the node at
/// that path (its parent's path, then its key) is `nv`; setting the empty
/// path replaces the whole document.
pub proof fn lemma_set_then_read(root: JVal, path: Seq<char>, nv: JVal)
    requires
        set_value_spec(root, path, nv) is Ok,
    ensures
        path.len() == 0 ==> set_value_spec(root, path, nv) == Ok::<JVal, Seq<char>>(nv),
        path.len() > 0 ==> (split_path_spec(path) matches Ok((pp, k)) && nav(
            set_value_spec(root, path, nv)->Ok_0,
            path_parts(pp).push(k),
        ) == Ok::<JVal, Seq<char>>(nv)),
{
    if path.len() > 0 {
        let (pp, k) = split_path_spec(path)->Ok_0;
        let parts = path_parts(pp);
        let p = nav(root, parts)->Ok_0;
        let op = EditOpV::Assign { key: k, value: nv, parent: pp };
        let np = apply_op(p, op)->Ok_0;
        let r = put(root, parts, np);
        lemma_nav_put(root, parts, np);
        lemma_nav_push(r, parts, k);
        match p {
            JVal::Object(es) => {
                lemma_obj_insert_find(es, k, nv);
            },
            _ => {},
        }
    }
}

/// Setting an existing array element replaces it in place: when the parent
/// of `path` is an array `a`, the index `path` names is within `a`, and the
/// edited parent is `a` with that one element replaced by `nv`: same
/// length, every other element as it was.
pub proof fn lemma_set_array_element(root: JVal, path: Seq<char>, nv: JVal)
    requires
        set_value_spec(root, path, nv) is Ok,
        path.len() > 0,
    ensures
        split_path_spec(path) is Ok,
        ({
            let (pp, k) = split_path_spec(path)->Ok_0;
            let r = set_value_spec(root, path, nv)->Ok_0;
            nav(root, path_parts(pp)) matches Ok(JVal::Array(a)) ==> {
                &&& parse_usize_spec(k) is Some
                &&& parse_usize_spec(k)->0 < a.len()
                &&& nav(r, path_parts(pp)) == Ok::<JVal, Seq<char>>(
                    JVal::Array(a.update(parse_usize_spec(k)->0 as int, nv)),
                )
            }
        }),
{
    let (pp, k) = split_path_spec(path)->Ok_0;
    let parts = path_parts(pp);
    let p = nav(root, parts)->Ok_0;
    let op = EditOpV::Assign { key: k, value: nv, parent: pp };
    let np = apply_op(p, op)->Ok_0;
    lemma_nav_put(root, parts, np);
}

/// Reading back what was added: after adding `key: value` under the node
/// at `parent_path`, an object parent has `value` under `key` and an array
/// parent ends with `value`.
pub proof fn lemma_add_then_read(root: JVal, parent_path: Seq<char>, key: Seq<char>, value: JVal)
    requires
        add_key_spec(root, parent_path, key, value) is Ok,
    ensures
        nav(add_key_spec(root, parent_path, key, value)->Ok_0, path_parts(parent_path)) matches Ok(p) && (p is Object
            ==> step(p, key) == Ok::<JVal, Seq<char>>(value)) && (p matches JVal::Array(a) ==> a.len() > 0
            && a.last() == value),
{
    let parts = path_parts(parent_path);
    let p = nav(root, parts)->Ok_0;
    let op = EditOpV::Add { key, value, parent: parent_path };
    let np = apply_op(p, op)->Ok_0;
    lemma_nav_put(root, parts, np);
    match p {
        JVal::Object(es) => {
            lemma_obj_insert_find(es, key, value);
        },
        _ => {},
    }
}

/// Renaming keeps the value: after renaming the member at `path` to
/// `new_key`, the parent has under `new_key` the value the member had.
pub proof fn lemma_rename_keeps_value(root: JVal, path: Seq<char>, new_key: Seq<char>)
    requires
        rename_spec(root, path, new_key) is Ok,
    ensures
        split_path_spec(path) matches Ok((pp, old)) && nav(root, path_parts(pp).push(old)) matches Ok(ov) && nav(
            rename_spec(root, path, new_key)->Ok_0,
            path_parts(pp).push(new_key),
        ) == Ok::<JVal, Seq<char>>(ov),
{
    let (pp, old) = split_path_spec(path)->Ok_0;
    let parts = path_parts(pp);
    let p = nav(root, parts)->Ok_0;
    let op = EditOpV::Rename { old, new_key, parent: pp };
    let np = apply_op(p, op)->Ok_0;
    let r = put(root, parts, np);
    lemma_nav_put(root, parts, np);
    lemma_nav_push(r, parts, new_key);
    lemma_nav_push(root, parts, old);
    match p {
        JVal::Object(es) => {
            let i = obj_find(es, old)->0;
            lemma_obj_find(es, old);
            lemma_obj_insert_find(es.remove(i), new_key, es[i].1);
        },
        _ => {},
    }
}

// ── ordered documents ────────────────────────────────────────────────────────

/// The keys of `es` are strictly ascending (so no key occurs twice), as a
/// map keeps them.
pub open spec fn keys_ascending(es: Seq<(Seq<char>, JVal)>) -> bool {
    forall|i: int, j: int| 0 <= i < j < es.len() ==> key_lt(#[trigger] es[i].0, #[trigger] es[j].0)
}

/// Every object of the document has strictly ascending keys.
pub open spec fn doc_ordered(v: JVal) -> bool
    decreases v, 1nat, 0nat,
{
    &&& (v matches JVal::Object(es) ==> keys_ascending(es))
    &&& kids_ordered(v, match v {
        JVal::Object(es) => es.len(),
        JVal::Array(a) => a.len(),
        _ => 0,
    })
}

/// The first `n` children of `v` are ordered documents.
pub open spec fn kids_ordered(v: JVal, n: nat) -> bool
    decreases v, 0nat, n,
{
    if n == 0 {
        true
    } else {
        match v {
            JVal::Object(es) => if n > es.len() {
                true
            } else {
                proof {
                    assert(decreases_to!(v => es[n - 1].1));
                }
                kids_ordered(v, (n - 1) as nat) && doc_ordered(es[n - 1].1)
            },
            JVal::Array(a) => if n > a.len() {
                true
            } else {
                proof {
                    assert(decreases_to!(v => a[n - 1]));
                }
                kids_ordered(v, (n - 1) as nat) && doc_ordered(a[n - 1])
            },
            _ => true,
        }
    }
}

proof fn lemma_members_ordered(v: JVal, es: Seq<(Seq<char>, JVal)>, n: nat)
    requires
        v == JVal::Object(es),
        n <= es.len(),
    ensures
        kids_ordered(v, n) <==> forall|i: int| 0 <= i < n ==> #[trigger] doc_ordered(es[i].1),
    decreases n,
{
    if n > 0 {
        let m = (n - 1) as nat;
        lemma_members_ordered(v, es, m);
        assert(kids_ordered(v, n) == (kids_ordered(v, m) && doc_ordered(es[n - 1].1)));
        if kids_ordered(v, n) {
            assert forall|i: int| 0 <= i < n implies #[trigger] doc_ordered(es[i].1) by {
                if i < m {
                    assert(doc_ordered(es[i].1));
                }
            }
        }
        if forall|i: int| 0 <= i < n ==> #[trigger] doc_ordered(es[i].1) {
            assert(doc_ordered(es[n - 1].1));
            assert(forall|i: int| 0 <= i < m ==> #[trigger] doc_ordered(es[i].1));
        }
    }
}

proof fn lemma_items_ordered(v: JVal, a: Seq<JVal>, n: nat)
    requires
        v == JVal::Array(a),
        n <= a.len(),
    ensures
        kids_ordered(v, n) <==> forall|i: int| 0 <= i < n ==> #[trigger] doc_ordered(a[i]),
    decreases n,
{
    if n > 0 {
        let m = (n - 1) as nat;
        lemma_items_ordered(v, a, m);
        assert(kids_ordered(v, n) == (kids_ordered(v, m) && doc_ordered(a[n - 1])));
        if kids_ordered(v, n) {
            assert forall|i: int| 0 <= i < n implies #[trigger] doc_ordered(a[i]) by {
                if i < m {
                    assert(doc_ordered(a[i]));
                }
            }
        }
        if forall|i: int| 0 <= i < n ==> #[trigger] doc_ordered(a[i]) {
            assert(doc_ordered(a[n - 1]));
            assert(forall|i: int| 0 <= i < m ==> #[trigger] doc_ordered(a[i]));
        }
    }
}

/// What `doc_ordered` says: an object's keys ascend and its members'
/// values are ordered; an array's elements are ordered.
pub proof fn lemma_doc_ordered(v: JVal)
    ensures
        doc_ordered(v) <==> match v {
            JVal::Object(es) => keys_ascending(es) && forall|i: int| 0 <= i < es.len() ==> #[trigger] doc_ordered(es[i].1),
            JVal::Array(a) => forall|i: int| 0 <= i < a.len() ==> #[trigger] doc_ordered(a[i]),
            _ => true,
        },
{
    match v {
        JVal::Object(es) => lemma_members_ordered(v, es, es.len()),
        JVal::Array(a) => lemma_items_ordered(v, a, a.len()),
        _ => {},
    }
}

proof fn lemma_obj_insert_members(es: Seq<(Seq<char>, JVal)>, k: Seq<char>, v: JVal)
    ensures
        forall|j: int|
            0 <= j < obj_insert(es, k, v).len() ==> #[trigger] obj_insert(es, k, v)[j] == (k, v) || exists|m: int|
                0 <= m < es.len() && es[m] == obj_insert(es, k, v)[j],
    decreases es.len(),
{
    let r = obj_insert(es, k, v);
    if es.len() == 0 {
    } else if es[0].0 == k {
        assert forall|j: int| 0 <= j < r.len() implies #[trigger] r[j] == (k, v) || exists|m: int|
            0 <= m < es.len() && es[m] == r[j] by {
            if j > 0 {
                assert(r[j] == es[j]);
            }
        }
    } else if key_lt(k, es[0].0) {
        assert forall|j: int| 0 <= j < r.len() implies #[trigger] r[j] == (k, v) || exists|m: int|
            0 <= m < es.len() && es[m] == r[j] by {
            if j > 0 {
                assert(r[j] == es[j - 1]);
            }
        }
    } else {
        let t = es.drop_first();
        lemma_obj_insert_members(t, k, v);
        assert forall|j: int| 0 <= j < r.len() implies #[trigger] r[j] == (k, v) || exists|m: int|
            0 <= m < es.len() && es[m] == r[j] by {
            if j == 0 {
                assert(es[0] == r[0]);
            } else {
                assert(r[j] == obj_insert(t, k, v)[j - 1]);
                if obj_insert(t, k, v)[j - 1] != (k, v) {
                    let m = choose|m: int| 0 <= m < t.len() && t[m] == obj_insert(t, k, v)[j - 1];
                    assert(es[m + 1] == r[j]);
                }
            }
        }
    }
}

proof fn lemma_obj_insert_ascending(es: Seq<(Seq<char>, JVal)>, k: Seq<char>, v: JVal)
    requires
        keys_ascending(es),
    ensures
        keys_ascending(obj_insert(es, k, v)),
    decreases es.len(),
{
    let r = obj_insert(es, k, v);
    if es.len() == 0 {
    } else if es[0].0 == k {
        assert forall|i: int, j: int| 0 <= i < j < r.len() implies key_lt(#[trigger] r[i].0, #[trigger] r[j].0) by {
            if i == 0 {
                assert(r[j] == es[j]);
                assert(key_lt(es[0].0, es[j].0));
            } else {
                assert(r[i] == es[i] && r[j] == es[j]);
            }
        }
    } else if key_lt(k, es[0].0) {
        assert forall|i: int, j: int| 0 <= i < j < r.len() implies key_lt(#[trigger] r[i].0, #[trigger] r[j].0) by {
            if i == 0 {
                assert(r[j] == es[j - 1]);
                if j - 1 > 0 {
                    assert(key_lt(es[0].0, es[j - 1].0));
                    crate::text::lemma_key_lt_transitive(k, es[0].0, es[j - 1].0);
                }
            } else {
                assert(r[i] == es[i - 1] && r[j] == es[j - 1]);
            }
        }
    } else {
        let t = es.drop_first();
        assert(keys_ascending(t)) by {
            assert forall|i: int, j: int| 0 <= i < j < t.len() implies key_lt(#[trigger] t[i].0, #[trigger] t[j].0) by {
                assert(t[i] == es[i + 1] && t[j] == es[j + 1]);
            }
        }
        lemma_obj_insert_ascending(t, k, v);
        lemma_obj_insert_members(t, k, v);
        let rt = obj_insert(t, k, v);
        crate::text::lemma_key_lt_total(k, es[0].0);
        assert forall|i: int, j: int| 0 <= i < j < r.len() implies key_lt(#[trigger] r[i].0, #[trigger] r[j].0) by {
            if i == 0 {
                assert(r[0] == es[0]);
                assert(r[j] == rt[j - 1]);
                if rt[j - 1] == (k, v) {
                    assert(key_lt(es[0].0, k));
                } else {
                    let m = choose|m: int| 0 <= m < t.len() && t[m] == rt[j - 1];
                    assert(es[m + 1] == t[m]);
                    assert(key_lt(es[0].0, es[m + 1].0));
                }
            } else {
                assert(r[i] == rt[i - 1] && r[j] == rt[j - 1]);
            }
        }
    }
}

proof fn lemma_obj_insert_ordered(es: Seq<(Seq<char>, JVal)>, k: Seq<char>, v: JVal)
    requires
        keys_ascending(es),
        forall|i: int| 0 <= i < es.len() ==> #[trigger] doc_ordered(es[i].1),
        doc_ordered(v),
    ensures
        doc_ordered(JVal::Object(obj_insert(es, k, v))),
{
    lemma_obj_insert_ascending(es, k, v);
    lemma_obj_insert_members(es, k, v);
    let r = obj_insert(es, k, v);
    assert forall|i: int| 0 <= i < r.len() implies #[trigger] doc_ordered(r[i].1) by {
        if r[i] != (k, v) {
            let m = choose|m: int| 0 <= m < es.len() && es[m] == r[i];
            assert(doc_ordered(es[m].1));
        }
    }
    lemma_doc_ordered(JVal::Object(r));
}

proof fn lemma_apply_op_ordered(p: JVal, op: EditOpV)
    requires
        doc_ordered(p),
        apply_op(p, op) is Ok,
        op matches EditOpV::Assign { value, .. } ==> doc_ordered(value),
        op matches EditOpV::Add { value, .. } ==> doc_ordered(value),
    ensures
        doc_ordered(apply_op(p, op)->Ok_0),
{
    let np = apply_op(p, op)->Ok_0;
    lemma_doc_ordered(p);
    match p {
        JVal::Object(es) => {
            assert forall|i: int| 0 <= i < es.len() implies #[trigger] doc_ordered(es[i].1) by {
            }
            match op {
                EditOpV::Assign { key, value, .. } => lemma_obj_insert_ordered(es, key, value),
                EditOpV::Add { key, value, .. } => lemma_obj_insert_ordered(es, key, value),
                EditOpV::Delete { key } => {
                    let i = obj_find(es, key)->0;
                    lemma_obj_find(es, key);
                    let t = es.remove(i);
                    assert forall|a: int, b: int| 0 <= a < b < t.len() implies key_lt(#[trigger] t[a].0, #[trigger] t[b].0) by {
                        let a0 = if a < i { a } else { a + 1 };
                        let b0 = if b < i { b } else { b + 1 };
                        assert(t[a] == es[a0] && t[b] == es[b0]);
                    }
                    assert forall|a: int| 0 <= a < t.len() implies #[trigger] doc_ordered(t[a].1) by {
                        let a0 = if a < i { a } else { a + 1 };
                        assert(t[a] == es[a0]);
                    }
                },
                EditOpV::Rename { old, new_key, .. } => {
                    let i = obj_find(es, old)->0;
                    lemma_obj_find(es, old);
                    let t = es.remove(i);
                    assert forall|a: int, b: int| 0 <= a < b < t.len() implies key_lt(#[trigger] t[a].0, #[trigger] t[b].0) by {
                        let a0 = if a < i { a } else { a + 1 };
                        let b0 = if b < i { b } else { b + 1 };
                        assert(t[a] == es[a0] && t[b] == es[b0]);
                    }
                    assert forall|a: int| 0 <= a < t.len() implies #[trigger] doc_ordered(t[a].1) by {
                        let a0 = if a < i { a } else { a + 1 };
                        assert(t[a] == es[a0]);
                    }
                    assert(doc_ordered(es[i].1));
                    lemma_obj_insert_ordered(t, new_key, es[i].1);
                },
            }
        },
        JVal::Array(a) => {
            match op {
                EditOpV::Assign { key, value, .. } => {
                    let idx = array_slot(key, a.len())->Ok_0;
                    let u = a.update(idx as int, value);
                    assert forall|j: int| 0 <= j < u.len() implies #[trigger] doc_ordered(u[j]) by {
                        if j != idx {
                            assert(u[j] == a[j]);
                        }
                    }
                },
                EditOpV::Add { value, .. } => {
                    let u = a.push(value);
                    assert forall|j: int| 0 <= j < u.len() implies #[trigger] doc_ordered(u[j]) by {
                        if j < a.len() {
                            assert(u[j] == a[j]);
                        }
                    }
                },
                EditOpV::Delete { key } => {
                    let idx = array_slot(key, a.len())->Ok_0;
                    let u = a.remove(idx as int);
                    assert forall|j: int| 0 <= j < u.len() implies #[trigger] doc_ordered(u[j]) by {
                        if j < idx {
                            assert(u[j] == a[j]);
                        } else {
                            assert(u[j] == a[j + 1]);
                        }
                    }
                },
                _ => {},
            }
        },
        _ => {},
    }
    lemma_doc_ordered(np);
}

proof fn lemma_nav_ordered(v: JVal, parts: Seq<Seq<char>>)
    requires
        doc_ordered(v),
        nav(v, parts) is Ok,
    ensures
        doc_ordered(nav(v, parts)->Ok_0),
    decreases parts.len(),
{
    lemma_doc_ordered(v);
    if parts.len() > 0 {
        match v {
            JVal::Object(es) => {
                let i = obj_find(es, parts[0])->0;
                lemma_obj_find(es, parts[0]);
                assert(doc_ordered(es[i].1));
                lemma_nav_ordered(es[i].1, parts.drop_first());
            },
            JVal::Array(a) => {
                let idx = parse_usize_spec(parts[0])->0;
                assert(doc_ordered(a[idx as int]));
                lemma_nav_ordered(a[idx as int], parts.drop_first());
            },
            _ => {},
        }
    }
}

proof fn lemma_put_ordered(v: JVal, parts: Seq<Seq<char>>, n: JVal)
    requires
        doc_ordered(v),
        doc_ordered(n),
        nav(v, parts) is Ok,
    ensures
        doc_ordered(put(v, parts, n)),
    decreases parts.len(),
{
    lemma_doc_ordered(v);
    lemma_doc_ordered(put(v, parts, n));
    if parts.len() > 0 {
        let rest = parts.drop_first();
        match v {
            JVal::Object(es) => {
                let i = obj_find(es, parts[0])->0;
                lemma_obj_find(es, parts[0]);
                assert(doc_ordered(es[i].1));
                lemma_put_ordered(es[i].1, rest, n);
                let u = es.update(i, (es[i].0, put(es[i].1, rest, n)));
                assert forall|a: int, b: int| 0 <= a < b < u.len() implies key_lt(#[trigger] u[a].0, #[trigger] u[b].0) by {
                    assert(u[a].0 == es[a].0 && u[b].0 == es[b].0);
                }
                assert forall|a: int| 0 <= a < u.len() implies #[trigger] doc_ordered(u[a].1) by {
                    if a != i {
                        assert(u[a] == es[a]);
                    }
                }
            },
            JVal::Array(a) => {
                let idx = parse_usize_spec(parts[0])->0;
                assert(doc_ordered(a[idx as int]));
                lemma_put_ordered(a[idx as int], rest, n);
                let u = a.update(idx as int, put(a[idx as int], rest, n));
                assert forall|j: int| 0 <= j < u.len() implies #[trigger] doc_ordered(u[j]) by {
                    if j != idx {
                        assert(u[j] == a[j]);
                    }
                }
            },
            _ => {},
        }
    }
}

proof fn lemma_edit_at_ordered(root: JVal, parts: Seq<Seq<char>>, op: EditOpV)
    requires
        doc_ordered(root),
        edit_at(root, parts, op) is Ok,
        op matches EditOpV::Assign { value, .. } ==> doc_ordered(value),
        op matches EditOpV::Add { value, .. } ==> doc_ordered(value),
    ensures
        doc_ordered(edit_at(root, parts, op)->Ok_0),
{
    let p = nav(root, parts)->Ok_0;
    lemma_nav_ordered(root, parts);
    lemma_apply_op_ordered(p, op);
    lemma_put_ordered(root, parts, apply_op(p, op)->Ok_0);
}

/// Every edit keeps a document ordered: setting, deleting, adding or
/// renaming, applied to a document whose objects have ascending keys (with
/// an ordered value to set or add), gives a document whose objects have
/// ascending keys.
pub proof fn lemma_edits_keep_order(root: JVal, path: Seq<char>, key: Seq<char>, value: JVal)
    requires
        doc_ordered(root),
        doc_ordered(value),
    ensures
        set_value_spec(root, path, value) matches Ok(r) ==> doc_ordered(r),
        delete_value_spec(root, path) matches Ok(r) ==> doc_ordered(r),
        add_key_spec(root, path, key, value) matches Ok(r) ==> doc_ordered(r),
        rename_spec(root, path, key) matches Ok(r) ==> doc_ordered(r),
{
    if path.len() > 0 {
        if let Ok((pp, k)) = split_path_spec(path) {
            let parts = path_parts(pp);
            if edit_at(root, parts, EditOpV::Assign { key: k, value, parent: pp }) is Ok {
                lemma_edit_at_ordered(root, parts, EditOpV::Assign { key: k, value, parent: pp });
            }
            if edit_at(root, parts, EditOpV::Delete { key: k }) is Ok {
                lemma_edit_at_ordered(root, parts, EditOpV::Delete { key: k });
            }
        }
    }
    if let Ok((pp, old)) = split_path_spec(path) {
        let parts = path_parts(pp);
        let op = EditOpV::Rename { old, new_key: key, parent: pp };
        if edit_at(root, parts, op) is Ok {
            lemma_edit_at_ordered(root, parts, op);
        }
    }
    let addop = EditOpV::Add { key, value, parent: path };
    if edit_at(root, path_parts(path), addop) is Ok {
        lemma_edit_at_ordered(root, path_parts(path), addop);
    }
}

/// Deleting a member removes its key: after deleting the member at `path`
/// from an ordered document, where the parent is an object, the key is
/// no longer found there.
pub proof fn lemma_delete_removes_key(root: JVal, path: Seq<char>)
    requires
        doc_ordered(root),
        delete_value_spec(root, path) is Ok,
    ensures
        split_path_spec(path) matches Ok((pp, k)) && (nav(root, path_parts(pp)) matches Ok(JVal::Object(_))
            ==> nav(delete_value_spec(root, path)->Ok_0, path_parts(pp).push(k)) is Err),
{
    let (pp, k) = split_path_spec(path)->Ok_0;
    let parts = path_parts(pp);
    let p = nav(root, parts)->Ok_0;
    let op = EditOpV::Delete { key: k };
    let np = apply_op(p, op)->Ok_0;
    let r = put(root, parts, np);
    lemma_nav_put(root, parts, np);
    lemma_nav_push(r, parts, k);
    if let JVal::Object(es) = p {
        lemma_nav_ordered(root, parts);
        lemma_doc_ordered(p);
        let i = obj_find(es, k)->0;
        lemma_obj_find(es, k);
        let t = es.remove(i);
        lemma_obj_find(t, k);
        if obj_find(t, k) is Some {
            let j = obj_find(t, k)->0;
            let j0 = if j < i { j } else { j + 1 };
            assert(t[j] == es[j0]);
            if j0 < i {
                assert(key_lt(es[j0].0, es[i].0));
            } else {
                assert(key_lt(es[i].0, es[j0].0));
            }
            crate::text::lemma_key_lt_irreflexive(k);
        }
    }
}

fn message3(a: &str, b: &Vec<char>, c: &str) -> (r: String)
    ensures
        r@ == msg3(a@, b@, c@),
{
    let mut out: Vec<char> = Vec::new();
    push_str(&mut out, a);
    push_all(&mut out, b);
    push_str(&mut out, c);
    string_of(out.as_slice())
}

/// Resolve `key` against an array of length `len`.
fn array_slot_exec(key: &Vec<char>, len: usize) -> (r: Result<usize, String>)
    ensures
        match r {
            Ok(i) => array_slot(key@, len as nat) == Ok::<nat, Seq<char>>(i as nat),
            Err(e) => array_slot(key@, len as nat) == Err::<nat, Seq<char>>(e@),
        },
{
    match parse_usize(key) {
        None => Err(message3("'", key, "' is not a valid index")),
        Some(idx) => if idx < len {
            Ok(idx)
        } else {
            let d = usize_to_chars(idx);
            Err(message3("Index ", &d, " out of range"))
        },
    }
}

/// Apply `op` to the node `p` it targets.
fn apply_op_exec(p: JsonValue, op: EditOp) -> (r: (JsonValue, Result<(), String>))
    ensures
        match apply_op(p@, op.vw()) {
            Ok(np) => r.1 is Ok && r.0@ == np,
            Err(e) => r.1 matches Err(m) && m@ == e && r.0@ == p@,
        },
{
    let ghost pv = p@;
    match op {
        EditOp::Assign { key, value, parent } => match p {
            JsonValue::Object(entries) => {
                proof {
                    lemma_object_of(entries);
                }
                let ks = string_of(key.as_slice());
                let ne = entries_insert(entries, ks, value);
                proof {
                    lemma_object_of(ne);
                }
                (JsonValue::Object(ne), Ok(()))
            },
            JsonValue::Array(items) => {
                proof {
                    lemma_array_of(items);
                }
                match array_slot_exec(&key, items.len()) {
                    Ok(idx) => {
                        let mut items = items;
                        let ghost vv = value@;
                        let ghost before = vals_vw(items@);
                        items.set(idx, value);
                        proof {
                            lemma_array_of(items);
                            assert(vals_vw(items@) =~= before.update(idx as int, vv));
                        }
                        (JsonValue::Array(items), Ok(()))
                    },
                    Err(e) => (JsonValue::Array(items), Err(e)),
                }
            },
            other => {
                let e = message3("Cannot set value at scalar node '", &parent, "'");
                (other, Err(e))
            },
        },
        EditOp::Delete { key } => match p {
            JsonValue::Object(entries) => {
                proof {
                    lemma_object_of(entries);
                }
                proof {
                    lemma_obj_find(entries_view(entries@), key@);
                }
                match find_entry(&entries, &key) {
                    Some(i) => {
                        let mut entries = entries;
                        let ghost before = entries_view(entries@);
                        entries.remove(i);
                        proof {
                            lemma_object_of(entries);
                            assert(entries_view(entries@) =~= before.remove(i as int));
                        }
                        (JsonValue::Object(entries), Ok(()))
                    },
                    None => {
                        let e = message3("Key '", &key, "' not found");
                        (JsonValue::Object(entries), Err(e))
                    },
                }
            },
            JsonValue::Array(items) => {
                proof {
                    lemma_array_of(items);
                }
                match array_slot_exec(&key, items.len()) {
                    Ok(idx) => {
                        let mut items = items;
                        let ghost before = vals_vw(items@);
                        items.remove(idx);
                        proof {
                            lemma_array_of(items);
                            assert(vals_vw(items@) =~= before.remove(idx as int));
                        }
                        (JsonValue::Array(items), Ok(()))
                    },
                    Err(e) => (JsonValue::Array(items), Err(e)),
                }
            },
            other => (other, Err(string_of(chars_of("Cannot delete from scalar").as_slice()))),
        },
        EditOp::Add { key, value, parent } => match p {
            JsonValue::Object(entries) => {
                proof {
                    lemma_object_of(entries);
                }
                let ne = entries_insert(entries, key, value);
                proof {
                    lemma_object_of(ne);
                }
                (JsonValue::Object(ne), Ok(()))
            },
            JsonValue::Array(items) => {
                proof {
                    lemma_array_of(items);
                }
                let mut items = items;
                let ghost before = vals_vw(items@);
                let ghost vv = value@;
                items.push(value);
                proof {
                    lemma_array_of(items);
                    assert(vals_vw(items@) =~= before.push(vv));
                }
                (JsonValue::Array(items), Ok(()))
            },
            other => {
                let e = message3("Node at '", &parent, "' is not an object or array");
                (other, Err(e))
            },
        },
        EditOp::Rename { old, new_key, parent } => match p {
            JsonValue::Object(entries) => {
                proof {
                    lemma_object_of(entries);
                }
                proof {
                    lemma_obj_find(entries_view(entries@), old@);
                }
                match find_entry(&entries, &old) {
                    Some(i) => {
                        let mut entries = entries;
                        let ghost before = entries_view(entries@);
                        let moved = entries.remove(i);
                        assert(entries_view(entries@) =~= before.remove(i as int));
                        let ne = entries_insert(entries, new_key, moved.value);
                        proof {
                            lemma_object_of(ne);
                        }
                        (JsonValue::Object(ne), Ok(()))
                    },
                    None => {
                        let e = message3("Key '", &old, "' not found");
                        (JsonValue::Object(entries), Err(e))
                    },
                }
            },
            other => {
                let e = message3("Parent at '", &parent, "' is not an object");
                (other, Err(e))
            },
        },
    }
}

/// Navigate from `node` along `parts[i..]` and apply `op` there.  On error
/// the value is returned unchanged.
fn edit_node(node: JsonValue, parts: &Vec<Vec<char>>, i: usize, op: EditOp) -> (r: (
    JsonValue,
    Result<(), String>,
))
    requires
        i <= parts@.len(),
    ensures
        match edit_at(node@, vv(parts@).skip(i as int), op.vw()) {
            Ok(nv) => r.1 is Ok && r.0@ == nv,
            Err(e) => r.1 matches Err(m) && m@ == e && r.0@ == node@,
        },
    decreases parts@.len() - i,
{
    let ghost ps = vv(parts@).skip(i as int);
    if i == parts.len() {
        assert(ps.len() == 0);
        return apply_op_exec(node, op);
    }
    let part = &parts[i];
    assert(ps[0] == part@);
    assert(ps.drop_first() == vv(parts@).skip(i + 1));
    match node {
        JsonValue::Object(entries) => {
            proof {
                lemma_object_of(entries);
            }
            proof {
                lemma_obj_find(entries_view(entries@), part@);
            }
            match find_entry(&entries, part) {
                Some(j) => {
                    let mut entries = entries;
                    let ghost before = entries_view(entries@);
                    let ghost orig = entries@;
                    let child = entries.remove(j);
                    let (nc, res) = edit_node(child.value, parts, i + 1, op);
                    let ghost ncv = nc@;
                    entries.insert(j, JsonEntry { key: child.key, value: nc });
                    proof {
                        lemma_object_of(entries);
                        lemma_obj_find(before, part@);
                        if res is Ok {
                            assert(entries_view(entries@) =~= before.update(
                                j as int,
                                (before[j as int].0, ncv),
                            ));
                        } else {
                            assert(entries_view(entries@) =~= before);
                        }
                    }
                    (JsonValue::Object(entries), res)
                },
                None => {
                    let e = message3("Key '", part, "' not found");
                    (JsonValue::Object(entries), Err(e))
                },
            }
        },
        JsonValue::Array(items) => {
            proof {
                lemma_array_of(items);
            }
            match parse_usize(part) {
                None => {
                    let e = message3("'", part, "' is not a valid index");
                    (JsonValue::Array(items), Err(e))
                },
                Some(idx) => {
                    if idx < items.len() {
                        let mut items = items;
                        let ghost before = vals_vw(items@);
                        let ghost orig = items@;
                        let child = items.remove(idx);
                        let (nc, res) = edit_node(child, parts, i + 1, op);
                        let ghost ncv = nc@;
                        items.insert(idx, nc);
                        proof {
                            lemma_array_of(items);
                            if res is Ok {
                                assert(vals_vw(items@) =~= before.update(idx as int, ncv));
                            } else {
                                assert(vals_vw(items@) =~= before);
                            }
                        }
                        (JsonValue::Array(items), res)
                    } else {
                        let d = usize_to_chars(idx);
                        let e = message3("Index ", &d, " out of range");
                        (JsonValue::Array(items), Err(e))
                    }
                },
            }
        },
        other => {
            let e = message3("Cannot index into scalar at '", part, "'");
            (other, Err(e))
        },
    }
}

/// Apply `op` to the node of `root` at `path` (parts per `path_parts`).
pub fn edit_value(root: JsonValue, path: &Vec<char>, op: EditOp) -> (r: (JsonValue, Result<(), String>))
    ensures
        match edit_at(root@, path_parts(path@), op.vw()) {
            Ok(nv) => r.1 is Ok && r.0@ == nv,
            Err(e) => r.1 matches Err(m) && m@ == e && r.0@ == root@,
        },
{
    let parts = parse_path_parts(path);
    assert(vv(parts@).skip(0) == vv(parts@));
    edit_node(root, &parts, 0, op)
}


// ── edits addressed by path ──────────────────────────────────────────────────

/// `set_value`: replace the node at `path` (the whole document for the
/// empty path).
pub open spec fn set_value_spec(root: JVal, path: Seq<char>, nv: JVal) -> Result<JVal, Seq<char>> {
    if path.len() == 0 {
        Ok(nv)
    } else {
        match split_path_spec(path) {
            Err(e) => Err(e),
            Ok((pp, k)) => edit_at(root, path_parts(pp), EditOpV::Assign { key: k, value: nv, parent: pp }),
        }
    }
}

/// `delete_value`: remove the node at `path` from its parent.
pub open spec fn delete_value_spec(root: JVal, path: Seq<char>) -> Result<JVal, Seq<char>> {
    if path.len() == 0 {
        Err("Cannot delete root"@)
    } else {
        match split_path_spec(path) {
            Err(e) => Err(e),
            Ok((pp, k)) => edit_at(root, path_parts(pp), EditOpV::Delete { key: k }),
        }
    }
}

/// `add_key`: insert `key: value` into the object at `parent_path`, or push
/// `value` onto the array there.
pub open spec fn add_key_spec(root: JVal, parent_path: Seq<char>, key: Seq<char>, value: JVal) -> Result<JVal, Seq<char>> {
    edit_at(root, path_parts(parent_path), EditOpV::Add { key, value, parent: parent_path })
}

/// `rename_key_at_path`: move the member at `path` to key `new_key` in its
/// parent object.
pub open spec fn rename_spec(root: JVal, path: Seq<char>, new_key: Seq<char>) -> Result<JVal, Seq<char>> {
    match split_path_spec(path) {
        Err(e) => Err(e),
        Ok((pp, old)) => edit_at(root, path_parts(pp), EditOpV::Rename { old, new_key, parent: pp }),
    }
}

/// Set the value at `path` to `new_value`.  On error the document is
/// returned unchanged.
pub fn set_value(root: JsonValue, path: &str, new_value: JsonValue) -> (r: (JsonValue, Result<(), String>))
    ensures
        match set_value_spec(root@, path@, new_value@) {
            Ok(nv) => r.1 is Ok && r.0@ == nv,
            Err(e) => r.1 matches Err(m) && m@ == e && r.0@ == root@,
        },
{
    let pc = chars_of(path);
    if pc.len() == 0 {
        return (new_value, Ok(()));
    }
    match split_path_chars(&pc) {
        Err(e) => (root, Err(e)),
        Ok((parent, key)) => edit_value(root, &parent, EditOp::Assign { key, value: new_value, parent: sub_chars(&parent, 0, parent.len()) }),
    }
}

/// Delete the node at `path` from the tree.  On error the document is
/// returned unchanged.
pub fn delete_value(root: JsonValue, path: &str) -> (r: (JsonValue, Result<(), String>))
    ensures
        match delete_value_spec(root@, path@) {
            Ok(nv) => r.1 is Ok && r.0@ == nv,
            Err(e) => r.1 matches Err(m) && m@ == e && r.0@ == root@,
        },
{
    let pc = chars_of(path);
    if pc.len() == 0 {
        return (root, Err(string_of(chars_of("Cannot delete root").as_slice())));
    }
    match split_path_chars(&pc) {
        Err(e) => (root, Err(e)),
        Ok((parent, key)) => edit_value(root, &parent, EditOp::Delete { key }),
    }
}

/// Insert `key: value` into the object at `parent_path` (or push onto the
/// array there).  On error the document is returned unchanged.
pub fn add_key_value(root: JsonValue, parent_path: &str, key: String, value: JsonValue) -> (r: (JsonValue, Result<(), String>))
    ensures
        match add_key_spec(root@, parent_path@, key@, value@) {
            Ok(nv) => r.1 is Ok && r.0@ == nv,
            Err(e) => r.1 matches Err(m) && m@ == e && r.0@ == root@,
        },
{
    let pc = chars_of(parent_path);
    let parent = sub_chars(&pc, 0, pc.len());
    assert(parent@ =~= pc@);
    edit_value(root, &pc, EditOp::Add { key, value, parent })
}

/// Rename the member at `path` to `new_key`.  On error the document is
/// returned unchanged.
pub fn rename_key(root: JsonValue, path: &str, new_key: String) -> (r: (JsonValue, Result<(), String>))
    ensures
        match rename_spec(root@, path@, new_key@) {
            Ok(nv) => r.1 is Ok && r.0@ == nv,
            Err(e) => r.1 matches Err(m) && m@ == e && r.0@ == root@,
        },
{
    let pc = chars_of(path);
    match split_path_chars(&pc) {
        Err(e) => (root, Err(e)),
        Ok((parent, old)) => edit_value(root, &parent, EditOp::Rename { old, new_key, parent: sub_chars(&parent, 0, parent.len()) }),
    }
}

} // verus!
