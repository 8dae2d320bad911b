//! Character-level text helpers shared by the tree, codec and event modules.
//!
//! Text is handled as `Seq<char>` in specifications.  Executable code keeps
//! strings as `Vec<char>` while it builds or scans them and converts at the
//! edges.
use vstd::prelude::*;

verus! {

// ── conversions between `str` and `Vec<char>` ────────────────────────────────

/// The characters of `s`, in order (`str::chars` collected into a `Vec`).
#[verifier::external_body]
pub(crate) fn chars_of(s: &str) -> (r: Vec<char>)
    ensures
        r@ == s@,
{
    s.chars().collect()
}

/// The string made of the characters of `v` (`Iterator::collect` into a `String`).
#[verifier::external_body]
pub(crate) fn string_of(v: &[char]) -> (r: String)
    ensures
        r@ == v@,
{
    v.iter().collect()
}

/// The characters of a string literal or borrowed string, appended to `out`.
pub fn push_str(out: &mut Vec<char>, s: &str)
    ensures
        final(out)@ == old(out)@ + s@,
{
    let cs = chars_of(s);
    push_all(out, &cs);
}

/// Append every character of `src` to `out`.
pub fn push_all(out: &mut Vec<char>, src: &Vec<char>)
    ensures
        final(out)@ == old(out)@ + src@,
{
    let ghost start = out@;
    let n = src.len();
    for i in 0..n
        invariant
            n == src@.len(),
            out@ == start + src@.take(i as int),
    {
        out.push(src[i]);
        assert(src@.take(i + 1) == src@.take(i as int).push(src@[i as int]));
    }
    assert(src@.take(n as int) == src@);
}

// ── decimal numbers ──────────────────────────────────────────────────────────

/// The ASCII digit character for `d` (`d < 10`).
pub open spec fn digit_char(d: nat) -> char {
    (d + 48) as char
}

/// Decimal representation of `n`, without leading zeros (`usize::to_string`).
pub open spec fn decimal(n: nat) -> Seq<char>
    decreases n,
{
    if n < 10 {
        seq![digit_char(n)]
    } else {
        decimal(n / 10).push(digit_char(n % 10))
    }
}

/// An ASCII digit.
pub open spec fn is_digit(c: char) -> bool {
    '0' <= c && c <= '9'
}

/// The value of an ASCII digit.
pub open spec fn digit_value(c: char) -> nat {
    (c as int - 48) as nat
}

/// Every character is an ASCII digit.
pub open spec fn all_digits(s: Seq<char>) -> bool {
    forall|i: int| 0 <= i < s.len() ==> is_digit(#[trigger] s[i])
}

/// The number written by the digit string `s` (most significant first).
pub open spec fn digits_value(s: Seq<char>) -> nat
    decreases s.len(),
{
    if s.len() == 0 {
        0
    } else {
        digits_value(s.drop_last()) * 10 + digit_value(s.last())
    }
}

/// `usize::from_str`: an optional leading `+`, then one or more ASCII digits
/// whose value fits in a `usize`.
pub open spec fn parse_usize_spec(s: Seq<char>) -> Option<nat> {
    let d = if s.len() > 0 && s[0] == '+' {
        s.drop_first()
    } else {
        s
    };
    if d.len() > 0 && all_digits(d) && digits_value(d) <= usize::MAX {
        Some(digits_value(d))
    } else {
        None
    }
}

/// Whether `s` parses as a `usize` (`s.parse::<usize>().is_ok()`).
pub open spec fn is_index_text(s: Seq<char>) -> bool {
    parse_usize_spec(s) is Some
}

fn digit_of(d: usize) -> (c: char)
    requires
        d < 10,
    ensures
        c == digit_char(d as nat),
{
    let b: u8 = d as u8 + 48u8;
    b as char
}

/// The decimal digits of `n`.
pub fn usize_to_chars(n: usize) -> (r: Vec<char>)
    ensures
        r@ == decimal(n as nat),
    decreases n,
{
    if n < 10 {
        let mut v = Vec::new();
        v.push(digit_of(n));
        v
    } else {
        let mut v = usize_to_chars(n / 10);
        v.push(digit_of(n % 10));
        v
    }
}

/// The decimal text of `n` as a `String` (`usize::to_string`).
pub fn usize_to_string(n: usize) -> (r: String)
    ensures
        r@ == decimal(n as nat),
{
    let v = usize_to_chars(n);
    string_of(v.as_slice())
}

proof fn lemma_digits_value_prefix_le(s: Seq<char>, k: int)
    requires
        0 <= k <= s.len(),
    ensures
        digits_value(s.take(k)) <= digits_value(s),
    decreases s.len(),
{
    if k < s.len() {
        lemma_digits_value_prefix_le(s.drop_last(), k);
        assert(s.drop_last().take(k) == s.take(k));
    } else {
        assert(s.take(k) == s);
    }
}

/// The digit string of a number reads back as that number.
pub proof fn lemma_decimal_digits(n: nat)
    ensures
        all_digits(decimal(n)),
        decimal(n).len() > 0,
        digits_value(decimal(n)) == n,
        decimal(n)[0] != '+',
    decreases n,
{
    assert(digit_value(digit_char(n % 10)) == n % 10);
    if n < 10 {
        assert(decimal(n).drop_last() =~= Seq::<char>::empty());
        assert(digits_value(Seq::<char>::empty()) == 0);
        assert(digit_value(digit_char(n)) == n);
    }
    if n >= 10 {
        lemma_decimal_digits(n / 10);
        let d = decimal(n);
        assert(d.drop_last() == decimal(n / 10));
        assert(d.last() == digit_char(n % 10));
        assert(n == (n / 10) * 10 + n % 10);
        assert forall|i: int| 0 <= i < d.len() implies is_digit(#[trigger] d[i]) by {
            if i < d.len() - 1 {
                assert(d[i] == decimal(n / 10)[i]);
            }
        }
    }
}

/// Law: the decimal text of any `usize` parses back as that number.
pub proof fn lemma_parse_decimal(n: nat)
    requires
        n <= usize::MAX,
    ensures
        parse_usize_spec(decimal(n)) == Some(n),
{
    lemma_decimal_digits(n);
}

/// `s.parse::<usize>()`, as `Option`.
pub fn parse_usize(s: &Vec<char>) -> (r: Option<usize>)
    ensures
        match r {
            Some(v) => parse_usize_spec(s@) == Some(v as nat),
            None => parse_usize_spec(s@) is None,
        },
{
    let n = s.len();
    let mut start: usize = 0;
    if n > 0 && s[0] == '+' {
        start = 1;
    }
    let ghost d = if s@.len() > 0 && s@[0] == '+' {
        s@.drop_first()
    } else {
        s@
    };
    assert(d == s@.skip(start as int));
    if start == n {
        return None;
    }
    let mut acc: usize = 0;
    let mut i: usize = start;
    while i < n
        invariant
            start <= i <= n,
            n == s@.len(),
            start < n,
            d == s@.skip(start as int),
            d == (if s@.len() > 0 && s@[0] == '+' {
                s@.drop_first()
            } else {
                s@
            }),
            all_digits(s@.subrange(start as int, i as int)),
            acc as nat == digits_value(s@.subrange(start as int, i as int)),
        decreases n - i,
    {
        let c = s[i];
        let ghost pre = s@.subrange(start as int, i as int);
        let ghost post = s@.subrange(start as int, i + 1);
        assert(post.drop_last() == pre);
        assert(post.last() == c);
        if !('0' <= c && c <= '9') {
            assert(d[i - start] == c);
            return None;
        }
        let dv: usize = (c as u32 - 48u32) as usize;
        assert(digits_value(post) == digits_value(pre) * 10 + digit_value(c));
        assert(dv as nat == digit_value(c));
        let m = acc.checked_mul(10);
        if m.is_none() {
            proof {
                assert(digits_value(post) > usize::MAX);
                assert(post.take((i - start) as int) == pre);
                assert(d.take((i + 1 - start) as int) == post);
                lemma_digits_value_prefix_le(d, (i + 1 - start) as int);

            }
            return None;
        }
        let m = m.unwrap();
        let a = m.checked_add(dv);
        if a.is_none() {
            proof {
                assert(digits_value(post) > usize::MAX);
                assert(d.take((i + 1 - start) as int) == post);
                lemma_digits_value_prefix_le(d, (i + 1 - start) as int);

            }
            return None;
        }
        acc = a.unwrap();
        assert forall|j: int| 0 <= j < post.len() implies is_digit(#[trigger] post[j]) by {
            if j < pre.len() {
                assert(post[j] == pre[j]);
            }
        }
        i = i + 1;
    }
    assert(s@.subrange(start as int, n as int) == d);
    Some(acc)
}

// ── substring tests ──────────────────────────────────────────────────────────

/// `s.contains(q)` for a string pattern.
pub open spec fn contains_seq(s: Seq<char>, q: Seq<char>) -> bool {
    exists|i: int| 0 <= i && i + q.len() <= s.len() && #[trigger] s.subrange(i, i + q.len()) == q
}

/// `s.starts_with(p)` for a string pattern.
pub open spec fn starts_with_seq(s: Seq<char>, p: Seq<char>) -> bool {
    p.len() <= s.len() && s.take(p.len() as int) == p
}

fn matches_at(s: &Vec<char>, q: &Vec<char>, i: usize) -> (r: bool)
    requires
        i + q@.len() <= s@.len(),
    ensures
        r == (s@.subrange(i as int, i + q@.len()) == q@),
{
    let m = q.len();
    let n = s.len();
    for j in 0..m
        invariant
            m == q@.len(),
            n == s@.len(),
            i + m <= n,
            forall|k: int| 0 <= k < j ==> s@[i + k] == q@[k],
    {
        if s[i + j] != q[j] {
            assert(s@.subrange(i as int, i + q@.len())[j as int] != q@[j as int]);
            return false;
        }
    }
    assert(s@.subrange(i as int, i + q@.len()) =~= q@);
    true
}

/// Whether `q` occurs in `s` as a contiguous substring.
pub fn contains_chars(s: &Vec<char>, q: &Vec<char>) -> (r: bool)
    ensures
        r == contains_seq(s@, q@),
{
    let n = s.len();
    let m = q.len();
    if m > n {
        return false;
    }
    let last = n - m;
    let mut i: usize = 0;
    loop
        invariant
            n == s@.len(),
            m == q@.len(),
            m <= n,
            last == n - m,
            i <= last,
            forall|k: int| 0 <= k < i ==> #[trigger] s@.subrange(k, k + m) != q@,
        decreases last - i,
    {
        if matches_at(s, q, i) {
            return true;
        }
        if i == last {
            return false;
        }
        i = i + 1;
    }
}

/// Whether `s` starts with `p`.
pub fn starts_with_chars(s: &Vec<char>, p: &Vec<char>) -> (r: bool)
    ensures
        r == starts_with_seq(s@, p@),
{
    if p.len() > s.len() {
        return false;
    }
    let r = matches_at(s, p, 0);
    assert(s@.subrange(0, p@.len() as int) == s@.take(p@.len() as int));
    r
}

// ── whitespace and trimming ──────────────────────────────────────────────────

/// `char::is_whitespace`: the Unicode `White_Space` property.
pub open spec fn is_ws(c: char) -> bool {
    ||| ('\u{9}' <= c && c <= '\u{d}')
    ||| c == ' '
    ||| c == '\u{85}'
    ||| c == '\u{a0}'
    ||| c == '\u{1680}'
    ||| ('\u{2000}' <= c && c <= '\u{200a}')
    ||| c == '\u{2028}'
    ||| c == '\u{2029}'
    ||| c == '\u{202f}'
    ||| c == '\u{205f}'
    ||| c == '\u{3000}'
}

/// `char::is_whitespace`.
pub fn is_whitespace(c: char) -> (r: bool)
    ensures
        r == is_ws(c),
{
    ('\u{9}' <= c && c <= '\u{d}') || c == ' ' || c == '\u{85}' || c == '\u{a0}' || c
        == '\u{1680}' || ('\u{2000}' <= c && c <= '\u{200a}') || c == '\u{2028}' || c
        == '\u{2029}' || c == '\u{202f}' || c == '\u{205f}' || c == '\u{3000}'
}

/// Number of leading characters of `s` for which `ws` holds.
pub open spec fn lead_count(s: Seq<char>, spaces_only: bool) -> nat
    decreases s.len(),
{
    if s.len() > 0 && (if spaces_only {
        s[0] == ' '
    } else {
        is_ws(s[0])
    }) {
        1 + lead_count(s.drop_first(), spaces_only)
    } else {
        0
    }
}

/// Number of trailing whitespace characters of `s`.
pub open spec fn trail_count(s: Seq<char>) -> nat
    decreases s.len(),
{
    if s.len() > 0 && is_ws(s.last()) {
        1 + trail_count(s.drop_last())
    } else {
        0
    }
}

/// `str::trim_start` (Unicode whitespace).
pub open spec fn trim_start_seq(s: Seq<char>) -> Seq<char> {
    s.skip(lead_count(s, false) as int)
}

/// `str::trim_start_matches(' ')`.
pub open spec fn trim_spaces_seq(s: Seq<char>) -> Seq<char> {
    s.skip(lead_count(s, true) as int)
}

/// `str::trim_end` (Unicode whitespace).
pub open spec fn trim_end_seq(s: Seq<char>) -> Seq<char> {
    s.take(s.len() - trail_count(s))
}

/// `str::trim` (Unicode whitespace at both ends).
pub open spec fn trim_seq(s: Seq<char>) -> Seq<char> {
    trim_end_seq(trim_start_seq(s))
}

proof fn lemma_lead_count_bound(s: Seq<char>, spaces_only: bool)
    ensures
        lead_count(s, spaces_only) <= s.len(),
    decreases s.len(),
{
    if s.len() > 0 {
        lemma_lead_count_bound(s.drop_first(), spaces_only);
    }
}

proof fn lemma_trail_count_bound(s: Seq<char>)
    ensures
        trail_count(s) <= s.len(),
    decreases s.len(),
{
    if s.len() > 0 {
        lemma_trail_count_bound(s.drop_last());
    }
}

/// Number of leading characters that are whitespace (or, with
/// `spaces_only`, that are the space character).
pub fn leading_count(s: &Vec<char>, spaces_only: bool) -> (r: usize)
    ensures
        r as nat == lead_count(s@, spaces_only),
        r <= s@.len(),
{
    let n = s.len();
    let mut i: usize = 0;
    assert(s@.skip(0) == s@);
    while i < n
        invariant
            i <= n,
            n == s@.len(),
            lead_count(s@, spaces_only) == i + lead_count(s@.skip(i as int), spaces_only),
        decreases n - i,
    {
        let c = s[i];
        let hit = if spaces_only {
            c == ' '
        } else {
            is_whitespace(c)
        };
        assert(s@.skip(i as int)[0] == c);
        if !hit {
            return i;
        }
        assert(s@.skip(i as int).drop_first() == s@.skip(i + 1));
        i = i + 1;
    }
    i
}

fn trailing_ws_count(s: &Vec<char>) -> (r: usize)
    ensures
        r as nat == trail_count(s@),
        r <= s@.len(),
{
    let n = s.len();
    let mut k: usize = 0;
    assert(s@.take(n as int) == s@);
    while k < n
        invariant
            k <= n,
            n == s@.len(),
            trail_count(s@) == k + trail_count(s@.take(n - k)),
        decreases n - k,
    {
        let c = s[n - 1 - k];
        let ghost t = s@.take(n - k);
        assert(t.last() == c);
        if !is_whitespace(c) {
            return k;
        }
        assert(t.drop_last() == s@.take(n - (k + 1)));
        k = k + 1;
    }
    k
}

/// The characters of `s` from index `from` to index `to`.
pub fn sub_chars(s: &Vec<char>, from: usize, to: usize) -> (r: Vec<char>)
    requires
        from <= to <= s@.len(),
    ensures
        r@ == s@.subrange(from as int, to as int),
{
    let mut out = Vec::new();
    let mut i = from;
    while i < to
        invariant
            from <= i <= to,
            to <= s@.len(),
            out@ == s@.subrange(from as int, i as int),
        decreases to - i,
    {
        out.push(s[i]);
        assert(s@.subrange(from as int, i + 1) == s@.subrange(from as int, i as int).push(s@[i as int]));
        i = i + 1;
    }
    out
}

/// `str::trim`.
pub fn trim_chars(s: &Vec<char>) -> (r: Vec<char>)
    ensures
        r@ == trim_seq(s@),
{
    let a = leading_count(s, false);
    let t = sub_chars(s, a, s.len());
    assert(t@ == trim_start_seq(s@));
    let b = trailing_ws_count(&t);
    sub_chars(&t, 0, t.len() - b)
}

/// `str::trim_start`.
pub fn trim_start_chars(s: &Vec<char>) -> (r: Vec<char>)
    ensures
        r@ == trim_start_seq(s@),
{
    let a = leading_count(s, false);
    sub_chars(s, a, s.len())
}

// ── lines ────────────────────────────────────────────────────────────────────

/// Index of the first occurrence of `c` in `s`.
pub open spec fn first_index_of(s: Seq<char>, c: char) -> Option<int>
    decreases s.len(),
{
    if s.len() == 0 {
        None
    } else if s[0] == c {
        Some(0)
    } else {
        match first_index_of(s.drop_first(), c) {
            Some(i) => Some(i + 1),
            None => None,
        }
    }
}

/// Index of the last occurrence of `c` in `s` (`str::rfind` on a `char`).
pub open spec fn last_index_of(s: Seq<char>, c: char) -> Option<int>
    decreases s.len(),
{
    if s.len() == 0 {
        None
    } else if s.last() == c {
        Some(s.len() - 1)
    } else {
        last_index_of(s.drop_last(), c)
    }
}

/// Removes one trailing carriage return.
pub open spec fn strip_cr(s: Seq<char>) -> Seq<char> {
    if s.len() > 0 && s.last() == '\r' {
        s.drop_last()
    } else {
        s
    }
}

/// `str::lines`: pieces separated by `\n`, each with one trailing `\r`
/// removed; a final line terminator does not start another (empty) line.
pub open spec fn lines_seq(s: Seq<char>) -> Seq<Seq<char>>
    decreases s.len(),
{
    if s.len() == 0 {
        seq![]
    } else {
        proof {
            lemma_first_index_of(s, '\n');
        }
        match first_index_of(s, '\n') {
            None => seq![strip_cr(s)],
            Some(i) => seq![strip_cr(s.take(i))] + lines_seq(s.skip(i + 1)),
        }
    }
}

/// `first_index_of` finds the first occurrence, or there is none.
pub proof fn lemma_first_index_of(s: Seq<char>, c: char)
    ensures
        match first_index_of(s, c) {
            Some(i) => 0 <= i < s.len() && s[i] == c && forall|j: int| 0 <= j < i ==> s[j] != c,
            None => forall|j: int| 0 <= j < s.len() ==> s[j] != c,
        },
    decreases s.len(),
{
    if s.len() > 0 {
        lemma_first_index_of(s.drop_first(), c);
        if s[0] != c {
            match first_index_of(s.drop_first(), c) {
                Some(i) => {
                    assert forall|j: int| 0 <= j < i + 1 implies s[j] != c by {
                        if j > 0 {
                            assert(s[j] == s.drop_first()[j - 1]);
                        }
                    }
                },
                None => {
                    assert forall|j: int| 0 <= j < s.len() implies s[j] != c by {
                        if j > 0 {
                            assert(s[j] == s.drop_first()[j - 1]);
                        }
                    }
                },
            }
        }
    }
}

/// `last_index_of` finds the last occurrence, or there is none.
pub proof fn lemma_last_index_of(s: Seq<char>, c: char)
    ensures
        match last_index_of(s, c) {
            Some(i) => 0 <= i < s.len() && s[i] == c && forall|j: int| i < j < s.len() ==> s[j] != c,
            None => forall|j: int| 0 <= j < s.len() ==> s[j] != c,
        },
    decreases s.len(),
{
    if s.len() > 0 && s.last() != c {
        lemma_last_index_of(s.drop_last(), c);
        match last_index_of(s.drop_last(), c) {
            Some(i) => {
                assert forall|j: int| i < j < s.len() implies s[j] != c by {
                    if j < s.len() - 1 {
                        assert(s[j] == s.drop_last()[j]);
                    }
                }
            },
            None => {
                assert forall|j: int| 0 <= j < s.len() implies s[j] != c by {
                    if j < s.len() - 1 {
                        assert(s[j] == s.drop_last()[j]);
                    }
                }
            },
        }
    }
}

/// Position of the first `c` in `s` at or after `from`.
pub fn find_char_from(s: &Vec<char>, c: char, from: usize) -> (r: Option<usize>)
    requires
        from <= s@.len(),
    ensures
        match r {
            Some(i) => from <= i < s@.len() && s@[i as int] == c && forall|j: int|
                from <= j < i ==> s@[j] != c,
            None => forall|j: int| from <= j < s@.len() ==> s@[j] != c,
        },
{
    let n = s.len();
    let mut i = from;
    while i < n
        invariant
            from <= i <= n,
            n == s@.len(),
            forall|j: int| from <= j < i ==> s@[j] != c,
        decreases n - i,
    {
        if s[i] == c {
            return Some(i);
        }
        i = i + 1;
    }
    None
}

/// Position of the last `c` in `s` (`str::rfind`).
pub fn rfind_char(s: &Vec<char>, c: char) -> (r: Option<usize>)
    ensures
        match r {
            Some(i) => last_index_of(s@, c) == Some(i as int),
            None => last_index_of(s@, c) is None,
        },
{
    let n = s.len();
    let mut k: usize = n;
    assert(s@.take(n as int) == s@);
    while k > 0
        invariant
            k <= n,
            n == s@.len(),
            last_index_of(s@, c) == last_index_of(s@.take(k as int), c),
        decreases k,
    {
        let ghost t = s@.take(k as int);
        assert(t.last() == s@[k - 1]);
        if s[k - 1] == c {
            return Some(k - 1);
        }
        assert(t.drop_last() == s@.take(k - 1));
        k = k - 1;
    }
    None
}

/// The first occurrence at or after `from`, found in the suffix.
pub proof fn lemma_first_index_skip(s: Seq<char>, c: char, from: int, i: int)
    requires
        0 <= from <= i < s.len(),
        s[i] == c,
        forall|j: int| from <= j < i ==> s[j] != c,
    ensures
        first_index_of(s.skip(from), c) == Some(i - from),
    decreases i - from,
{
    if from < i {
        lemma_first_index_skip(s, c, from + 1, i);
        assert(s.skip(from).drop_first() == s.skip(from + 1));
    }
}

/// No occurrence in the suffix means none at or after `from`.
pub proof fn lemma_first_index_skip_none(s: Seq<char>, c: char, from: int)
    requires
        0 <= from <= s.len(),
        forall|j: int| from <= j < s.len() ==> s[j] != c,
    ensures
        first_index_of(s.skip(from), c) is None,
    decreases s.len() - from,
{
    if from < s.len() {
        lemma_first_index_skip_none(s, c, from + 1);
        assert(s.skip(from).drop_first() == s.skip(from + 1));
    }
}

fn strip_cr_vec(v: Vec<char>) -> (r: Vec<char>)
    ensures
        r@ == strip_cr(v@),
{
    let mut v = v;
    let n = v.len();
    if n > 0 && v[n - 1] == '\r' {
        v.pop();
    }
    v
}

/// `str::lines`, each line as characters.
pub fn lines_of(s: &Vec<char>) -> (r: Vec<Vec<char>>)
    ensures
        r@.len() == lines_seq(s@).len(),
        forall|i: int| 0 <= i < r@.len() ==> #[trigger] r@[i]@ == lines_seq(s@)[i],
{
    let n = s.len();
    let mut out: Vec<Vec<char>> = Vec::new();
    let mut from: usize = 0;
    assert(s@.skip(0) == s@);
    assert(out@.map_values(|l: Vec<char>| l@) == Seq::<Seq<char>>::empty());
    while from < n
        invariant
            from <= n,
            n == s@.len(),
            lines_seq(s@) == out@.map_values(|l: Vec<char>| l@) + lines_seq(s@.skip(from as int)),
        decreases n - from,
    {
        let ghost rest = s@.skip(from as int);
        match find_char_from(s, '\n', from) {
            Some(i) => {
                proof {
                    lemma_first_index_skip(s@, '\n', from as int, i as int);
                    assert(rest.take(i - from) == s@.subrange(from as int, i as int));
                    assert(rest.skip(i - from + 1) == s@.skip(i + 1));
                }
                let piece = sub_chars(s, from, i);
                let line = strip_cr_vec(piece);
                let ghost before = out@.map_values(|l: Vec<char>| l@);
                out.push(line);
                assert(out@.map_values(|l: Vec<char>| l@) == before.push(line@));
                from = i + 1;
            },
            None => {
                proof {
                    lemma_first_index_skip_none(s@, '\n', from as int);
                    assert(rest == s@.subrange(from as int, n as int));
                }
                let piece = sub_chars(s, from, n);
                let line = strip_cr_vec(piece);
                let ghost before = out@.map_values(|l: Vec<char>| l@);
                out.push(line);
                assert(out@.map_values(|l: Vec<char>| l@) == before.push(line@));
                assert(s@.skip(n as int).len() == 0);
                from = n;
            },
        }
    }
    assert(s@.skip(n as int).len() == 0);
    assert(lines_seq(s@.skip(n as int)) == Seq::<Seq<char>>::empty());
    assert(lines_seq(s@) == out@.map_values(|l: Vec<char>| l@));
    out
}


// ── comparison ───────────────────────────────────────────────────────────────

/// Whether two character vectors are equal.
pub fn chars_eq(a: &Vec<char>, b: &Vec<char>) -> (r: bool)
    ensures
        r == (a@ == b@),
{
    if a.len() != b.len() {
        return false;
    }
    let n = a.len();
    for i in 0..n
        invariant
            n == a@.len(),
            n == b@.len(),
            forall|k: int| 0 <= k < i ==> a@[k] == b@[k],
    {
        if a[i] != b[i] {
            return false;
        }
    }
    assert(a@ =~= b@);
    true
}

/// Lexicographic order on character sequences by code point; for UTF-8
/// strings this is the byte order that `String`'s `Ord` uses.
pub open spec fn key_lt(a: Seq<char>, b: Seq<char>) -> bool
    decreases a.len(),
{
    if a.len() == 0 {
        b.len() > 0
    } else if b.len() == 0 {
        false
    } else if a[0] == b[0] {
        key_lt(a.drop_first(), b.drop_first())
    } else {
        (a[0] as u32) < (b[0] as u32)
    }
}

/// No sequence is below itself.
pub proof fn lemma_key_lt_irreflexive(a: Seq<char>)
    ensures
        !key_lt(a, a),
    decreases a.len(),
{
    if a.len() > 0 {
        lemma_key_lt_irreflexive(a.drop_first());
    }
}

/// `key_lt` is transitive.
pub proof fn lemma_key_lt_transitive(a: Seq<char>, b: Seq<char>, c: Seq<char>)
    requires
        key_lt(a, b),
        key_lt(b, c),
    ensures
        key_lt(a, c),
    decreases a.len(),
{
    if a.len() > 0 && b.len() > 0 && c.len() > 0 && a[0] == b[0] && b[0] == c[0] {
        lemma_key_lt_transitive(a.drop_first(), b.drop_first(), c.drop_first());
    }
}

proof fn lemma_char_code(c: char, d: char)
    ensures
        c != d ==> (c as u32) != (d as u32),
{
    assert((c as u32) as int == c as int);
    assert((d as u32) as int == d as int);
}

/// Any two sequences are equal or one is below the other.
pub proof fn lemma_key_lt_total(a: Seq<char>, b: Seq<char>)
    ensures
        key_lt(a, b) || key_lt(b, a) || a == b,
    decreases a.len(),
{
    if a.len() == 0 && b.len() == 0 {
        assert(a =~= b);
    } else if a.len() > 0 && b.len() > 0 {
        if a[0] == b[0] {
            lemma_key_lt_total(a.drop_first(), b.drop_first());
            if a.drop_first() == b.drop_first() {
                assert(a =~= seq![a[0]] + a.drop_first());
                assert(b =~= seq![b[0]] + b.drop_first());
            }
        } else {
            lemma_char_code(a[0], b[0]);
        }
    }
}

/// "Not above" is transitive.
pub proof fn lemma_key_le_transitive(a: Seq<char>, b: Seq<char>, c: Seq<char>)
    requires
        !key_lt(b, a),
        !key_lt(c, b),
    ensures
        !key_lt(c, a),
{
    lemma_key_lt_total(a, b);
    if key_lt(c, a) && key_lt(a, b) {
        lemma_key_lt_transitive(c, a, b);
    }
}

/// `a < b` in the order of `key_lt`.
pub fn chars_lt(a: &Vec<char>, b: &Vec<char>) -> (r: bool)
    ensures
        r == key_lt(a@, b@),
{
    let n = a.len();
    let m = b.len();
    let mut i: usize = 0;
    assert(a@.skip(0) == a@ && b@.skip(0) == b@);
    while i < n && i < m && a[i] == b[i]
        invariant
            n == a@.len(),
            m == b@.len(),
            i <= n,
            i <= m,
            key_lt(a@, b@) == key_lt(a@.skip(i as int), b@.skip(i as int)),
        decreases n - i,
    {
        assert(a@.skip(i as int).drop_first() == a@.skip(i + 1));
        assert(b@.skip(i as int).drop_first() == b@.skip(i + 1));
        i = i + 1;
    }
    if i == n {
        i < m
    } else if i == m {
        false
    } else {
        (a[i] as u32) < (b[i] as u32)
    }
}

// ── lower case ───────────────────────────────────────────────────────────────

/// Whether every character of `s` is ASCII.
pub open spec fn is_ascii_text(s: Seq<char>) -> bool {
    forall|i: int| 0 <= i < s.len() ==> (#[trigger] s[i] as u32) < 128
}

/// `c` in lower case when it is an ASCII capital (`A` to `Z`).
pub open spec fn ascii_lower_char(c: char) -> char {
    if 65 <= (c as u32) && (c as u32) <= 90 {
        ((c as u32) + 32) as char
    } else {
        c
    }
}

/// `c` in upper case when it is an ASCII small letter (`a` to `z`).
pub open spec fn ascii_upper_char(c: char) -> char {
    if 97 <= (c as u32) && (c as u32) <= 122 {
        ((c as u32) - 32) as char
    } else {
        c
    }
}

/// `s` with its ASCII capitals in lower case.
pub open spec fn ascii_lower(s: Seq<char>) -> Seq<char> {
    s.map_values(|c: char| ascii_lower_char(c))
}

/// `s` with its ASCII small letters in upper case.
pub open spec fn ascii_upper(s: Seq<char>) -> Seq<char> {
    s.map_values(|c: char| ascii_upper_char(c))
}

/// The result of `str::to_lowercase` (Unicode case mapping) on `s`.
pub uninterp spec fn unicode_lowercase(s: Seq<char>) -> Seq<char>;

/// `s` in lower case: for ASCII text, its capitals `A` to `Z` turned into
/// `a` to `z`; otherwise the Unicode mapping.
pub open spec fn lowercase_spec(s: Seq<char>) -> Seq<char> {
    if is_ascii_text(s) {
        ascii_lower(s)
    } else {
        unicode_lowercase(s)
    }
}

/// `str::to_lowercase`.  The contract ties the result to the argument
/// through `unicode_lowercase`, and states what the Unicode mapping does
/// on ASCII text: `A` to `Z` become `a` to `z`, every other character
/// stays.  The Unicode tables beyond ASCII are not restated.
#[verifier::external_body]
pub(crate) fn to_lowercase(s: &str) -> (r: String)
    ensures
        r@ == unicode_lowercase(s@),
        is_ascii_text(s@) ==> r@ == ascii_lower(s@),
{
    s.to_lowercase()
}

} // verus!
