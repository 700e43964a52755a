//! Character-level string helpers shared by the parsers.
//!
//! Strings are handled as sequences of `char`. Every helper states its result
//! over `Seq<char>` so that the parsers built on top of them can give exact
//! contracts.

use vstd::prelude::*;

verus! {

// ---------------------------------------------------------------------------
// Whitespace and character classes.
// ---------------------------------------------------------------------------

/// Unicode `White_Space` property, as used by `char::is_whitespace`,
/// `str::trim` and `str::split_whitespace`.
pub open spec fn is_ws(c: char) -> bool {
    let u = c as u32;
    ||| (0x09 <= u && u <= 0x0d)
    ||| u == 0x20
    ||| u == 0x85
    ||| u == 0xa0
    ||| u == 0x1680
    ||| (0x2000 <= u && u <= 0x200a)
    ||| u == 0x2028
    ||| u == 0x2029
    ||| u == 0x202f
    ||| u == 0x205f
    ||| u == 0x3000
}

pub fn is_whitespace(c: char) -> (r: bool)
    ensures
        r == is_ws(c),
{
    let u = c as u32;
    (0x09 <= u && u <= 0x0d) || u == 0x20 || u == 0x85 || u == 0xa0 || u == 0x1680 || (0x2000
        <= u && u <= 0x200a) || u == 0x2028 || u == 0x2029 || u == 0x202f || u == 0x205f || u
        == 0x3000
}

pub open spec fn is_digit(c: char) -> bool {
    '0' <= c && c <= '9'
}

pub open spec fn digit_value(c: char) -> nat {
    ((c as u32) - ('0' as u32)) as nat
}

pub open spec fn digit_char(d: nat) -> char {
    ((d + ('0' as u32)) as u32) as char
}

/// ASCII lower-casing of one character (`char::to_ascii_lowercase`).
pub open spec fn ascii_lower(c: char) -> char {
    if 'A' <= c && c <= 'Z' {
        (((c as u32) + 32) as u32) as char
    } else {
        c
    }
}

pub open spec fn lower_seq(s: Seq<char>) -> Seq<char> {
    s.map_values(|c: char| ascii_lower(c))
}

// ---------------------------------------------------------------------------
// String <-> character vectors.
// ---------------------------------------------------------------------------

/// The characters of a string slice.
pub fn str_chars(s: &str) -> (v: Vec<char>)
    ensures
        v@ == s@,
{
    let mut v: Vec<char> = Vec::new();
    for c in it: s.chars()
        invariant
            v@ == it.seq().take(it.index() as int),
    {
        v.push(c);
    }
    v
}

/// `String::push` from std: afterwards the string holds its old characters
/// followed by `c`, as std documents.
#[verifier::external_body]
pub(crate) fn push_char(s: &mut String, c: char)
    ensures
        final(s)@ == old(s)@.push(c),
{
    s.push(c);
}

/// Append all characters of `v` to `s`.
pub fn push_chars(s: &mut String, v: &Vec<char>)
    ensures
        final(s)@ == old(s)@ + v@,
{
    let ghost start = s@;
    let mut i: usize = 0;
    while i < v.len()
        invariant
            i <= v.len(),
            s@ == start + v@.take(i as int),
        decreases v.len() - i,
    {
        push_char(s, v[i]);
        i = i + 1;
        assert(v@.take(i as int) == v@.take((i - 1) as int).push(v@[i - 1]));
    }
    assert(v@.take(v.len() as int) == v@);
}

/// A new `String` holding the characters of `v`.
pub fn string_of(v: &Vec<char>) -> (s: String)
    ensures
        s@ == v@,
{
    let mut s = String::new();
    push_chars(&mut s, v);
    s
}

/// Copy of `v[lo..hi]`.
pub fn slice_chars(v: &Vec<char>, lo: usize, hi: usize) -> (r: Vec<char>)
    requires
        lo <= hi <= v.len(),
    ensures
        r@ == v@.subrange(lo as int, hi as int),
{
    let mut r: Vec<char> = Vec::new();
    let mut i = lo;
    while i < hi
        invariant
            lo <= i <= hi <= v.len(),
            r@ == v@.subrange(lo as int, i as int),
        decreases hi - i,
    {
        r.push(v[i]);
        i = i + 1;
    }
    r
}

/// Equality of two character vectors.
pub fn chars_eq(a: &Vec<char>, b: &Vec<char>) -> (r: bool)
    ensures
        r == (a@ == b@),
{
    if a.len() != b.len() {
        return false;
    }
    let mut i: usize = 0;
    while i < a.len()
        invariant
            a.len() == b.len(),
            i <= a.len(),
            forall|j: int| 0 <= j < i ==> a@[j] == b@[j],
        decreases a.len() - i,
    {
        if a[i] != b[i] {
            return false;
        }
        i = i + 1;
    }
    assert(a@ =~= b@);
    true
}

/// Equality of a character vector with a string slice.
pub fn chars_eq_str(a: &Vec<char>, b: &str) -> (r: bool)
    ensures
        r == (a@ == b@),
{
    let bv = str_chars(b);
    chars_eq(a, &bv)
}

/// Equality of two string slices.
pub fn str_eq(a: &str, b: &str) -> (r: bool)
    ensures
        r == (a@ == b@),
{
    let av = str_chars(a);
    chars_eq_str(&av, b)
}

/// Whether `pat` occurs in `v` at position `i`.
pub open spec fn occurs_at(s: Seq<char>, i: int, pat: Seq<char>) -> bool {
    0 <= i && i + pat.len() <= s.len() && s.subrange(i, i + pat.len()) == pat
}

pub fn matches_at(v: &Vec<char>, i: usize, pat: &Vec<char>) -> (r: bool)
    ensures
        r == occurs_at(v@, i as int, pat@),
{
    if i > v.len() || pat.len() > v.len() - i {
        return false;
    }
    let mut k: usize = 0;
    while k < pat.len()
        invariant
            i + pat.len() <= v.len(),
            k <= pat.len(),
            forall|j: int| 0 <= j < k ==> v@[i + j] == pat@[j],
        decreases pat.len() - k,
    {
        if v[i + k] != pat[k] {
            assert(v@.subrange(i as int, i + pat.len())[k as int] != pat@[k as int]);
            return false;
        }
        k = k + 1;
    }
    assert(v@.subrange(i as int, i + pat.len()) =~= pat@);
    true
}

/// `s.starts_with(pat)`.
pub open spec fn starts_with(s: Seq<char>, pat: Seq<char>) -> bool {
    occurs_at(s, 0, pat)
}

/// `s.contains(pat)`.
pub open spec fn contains_seq(s: Seq<char>, pat: Seq<char>) -> bool {
    exists|i: int| occurs_at(s, i, pat)
}

/// `s.contains(pat)` on character vectors.
pub fn contains_chars(v: &Vec<char>, pat: &Vec<char>) -> (r: bool)
    ensures
        r == contains_seq(v@, pat@),
{
    let mut i: usize = 0;
    while i < v.len()
        invariant
            i <= v.len(),
            forall|j: int| 0 <= j < i ==> !occurs_at(v@, j, pat@),
        decreases v.len() - i,
    {
        if matches_at(v, i, pat) {
            return true;
        }
        i = i + 1;
    }
    if matches_at(v, i, pat) {
        return true;
    }
    assert forall|j: int| !occurs_at(v@, j, pat@) by {
        if 0 <= j && j < v@.len() {
        }
    }
    false
}

/// Index of the first occurrence of `c` in `s` at or after `i`, or `s.len()`.
pub open spec fn find_char_from(s: Seq<char>, c: char, i: int) -> int
    decreases s.len() - i,
{
    if i < 0 || i >= s.len() {
        s.len() as int
    } else if s[i] == c {
        i
    } else {
        find_char_from(s, c, i + 1)
    }
}

pub proof fn lemma_find_char_from(s: Seq<char>, c: char, i: int)
    requires
        0 <= i <= s.len(),
    ensures
        i <= find_char_from(s, c, i) <= s.len(),
        forall|j: int| i <= j < find_char_from(s, c, i) ==> s[j] != c,
        find_char_from(s, c, i) < s.len() ==> s[find_char_from(s, c, i)] == c,
    decreases s.len() - i,
{
    if i < s.len() && s[i] != c {
        lemma_find_char_from(s, c, i + 1);
    }
}

pub fn find_char(v: &Vec<char>, c: char, from: usize) -> (r: usize)
    requires
        from <= v.len(),
    ensures
        r as int == find_char_from(v@, c, from as int),
        from <= r <= v.len(),
{
    let mut i = from;
    while i < v.len() && v[i] != c
        invariant
            from <= i <= v.len(),
            find_char_from(v@, c, i as int) == find_char_from(v@, c, from as int),
        decreases v.len() - i,
    {
        i = i + 1;
    }
    i
}

// ---------------------------------------------------------------------------
// Whitespace skipping, trimming and words.
// ---------------------------------------------------------------------------

/// First index at or after `i` that is not whitespace (or `s.len()`).
pub open spec fn skip_ws(s: Seq<char>, i: int) -> int
    decreases s.len() - i,
{
    if 0 <= i < s.len() && is_ws(s[i]) {
        skip_ws(s, i + 1)
    } else {
        i
    }
}

/// First index at or after `i` that is whitespace (or `s.len()`).
pub open spec fn skip_word(s: Seq<char>, i: int) -> int
    decreases s.len() - i,
{
    if 0 <= i < s.len() && !is_ws(s[i]) {
        skip_word(s, i + 1)
    } else {
        i
    }
}

pub proof fn lemma_skip_ws(s: Seq<char>, i: int)
    requires
        0 <= i <= s.len(),
    ensures
        i <= skip_ws(s, i) <= s.len(),
        forall|j: int| i <= j < skip_ws(s, i) ==> is_ws(#[trigger] s[j]),
        skip_ws(s, i) < s.len() ==> !is_ws(s[skip_ws(s, i)]),
    decreases s.len() - i,
{
    if i < s.len() && is_ws(s[i]) {
        lemma_skip_ws(s, i + 1);
    }
}

pub proof fn lemma_skip_word(s: Seq<char>, i: int)
    requires
        0 <= i <= s.len(),
    ensures
        i <= skip_word(s, i) <= s.len(),
        forall|j: int| i <= j < skip_word(s, i) ==> !is_ws(#[trigger] s[j]),
        skip_word(s, i) < s.len() ==> is_ws(s[skip_word(s, i)]),
    decreases s.len() - i,
{
    if i < s.len() && !is_ws(s[i]) {
        lemma_skip_word(s, i + 1);
    }
}

pub fn skip_ws_exec(v: &Vec<char>, from: usize) -> (r: usize)
    requires
        from <= v.len(),
    ensures
        r as int == skip_ws(v@, from as int),
        from <= r <= v.len(),
{
    let mut i = from;
    while i < v.len() && is_whitespace(v[i])
        invariant
            from <= i <= v.len(),
            skip_ws(v@, i as int) == skip_ws(v@, from as int),
        decreases v.len() - i,
    {
        i = i + 1;
    }
    i
}

pub fn skip_word_exec(v: &Vec<char>, from: usize) -> (r: usize)
    requires
        from <= v.len(),
    ensures
        r as int == skip_word(v@, from as int),
        from <= r <= v.len(),
{
    let mut i = from;
    while i < v.len() && !is_whitespace(v[i])
        invariant
            from <= i <= v.len(),
            skip_word(v@, i as int) == skip_word(v@, from as int),
        decreases v.len() - i,
    {
        i = i + 1;
    }
    i
}

/// Index one past the last non-whitespace character before `hi` (at least `lo`).
pub open spec fn trim_end_idx(s: Seq<char>, lo: int, hi: int) -> int
    decreases hi - lo,
{
    if lo < hi && is_ws(s[hi - 1]) {
        trim_end_idx(s, lo, hi - 1)
    } else {
        hi
    }
}

pub proof fn lemma_trim_end_idx(s: Seq<char>, lo: int, hi: int)
    requires
        0 <= lo <= hi <= s.len(),
    ensures
        lo <= trim_end_idx(s, lo, hi) <= hi,
        forall|j: int| trim_end_idx(s, lo, hi) <= j < hi ==> is_ws(#[trigger] s[j]),
        trim_end_idx(s, lo, hi) > lo ==> !is_ws(s[trim_end_idx(s, lo, hi) - 1]),
    decreases hi - lo,
{
    if lo < hi && is_ws(s[hi - 1]) {
        lemma_trim_end_idx(s, lo, hi - 1);
    }
}

/// `str::trim`: leading and trailing whitespace removed.
pub open spec fn trim(s: Seq<char>) -> Seq<char> {
    let lo = skip_ws(s, 0);
    s.subrange(lo, trim_end_idx(s, lo, s.len() as int))
}

/// Bounds `(lo, hi)` such that `v[lo..hi]` is the trimmed text.
pub fn trim_bounds(v: &Vec<char>) -> (r: (usize, usize))
    ensures
        r.0 as int == skip_ws(v@, 0),
        r.1 as int == trim_end_idx(v@, r.0 as int, v@.len() as int),
        r.0 <= r.1 <= v.len(),
        v@.subrange(r.0 as int, r.1 as int) == trim(v@),
{
    let lo = skip_ws_exec(v, 0);
    let mut hi = v.len();
    while hi > lo && is_whitespace(v[hi - 1])
        invariant
            lo <= hi <= v.len(),
            trim_end_idx(v@, lo as int, hi as int) == trim_end_idx(v@, lo as int, v@.len() as int),
        decreases hi - lo,
    {
        hi = hi - 1;
    }
    (lo, hi)
}

/// Trimmed copy of `v`.
pub fn trim_chars(v: &Vec<char>) -> (r: Vec<char>)
    ensures
        r@ == trim(v@),
{
    let (lo, hi) = trim_bounds(v);
    slice_chars(v, lo, hi)
}

// ---------------------------------------------------------------------------
// Removal of every occurrence of a pattern (`str::replace(pat, "")`).
// ---------------------------------------------------------------------------

pub open spec fn remove_all(s: Seq<char>, pat: Seq<char>) -> Seq<char>
    decreases s.len(),
{
    if s.len() == 0 || pat.len() == 0 {
        s
    } else if occurs_at(s, 0, pat) {
        remove_all(s.skip(pat.len() as int), pat)
    } else {
        seq![s[0]] + remove_all(s.skip(1), pat)
    }
}

/// Removing a pattern from a concatenation splits at the seam when no
/// occurrence can start in `s` and reach into `q`: no character of the
/// pattern after its first equals the first character of `q`.
pub proof fn lemma_remove_all_append(s: Seq<char>, q: Seq<char>, p: Seq<char>)
    requires
        p.len() > 0,
        q.len() > 0,
        forall|k: int| 0 < k < p.len() ==> p[k] != q[0],
    ensures
        remove_all(s + q, p) == remove_all(s, p) + remove_all(q, p),
    decreases s.len(),
{
    let sq = s + q;
    if s.len() == 0 {
        assert(sq =~= q);
        assert(remove_all(s, p) + remove_all(q, p) =~= remove_all(q, p));
    } else if occurs_at(sq, 0, p) {
        if p.len() > s.len() {
            let l = s.len() as int;
            assert(sq.subrange(0, p.len() as int)[l] == sq[l]);
            assert(p[l] == q[0]);
        }
        assert(s.subrange(0, p.len() as int) =~= sq.subrange(0, p.len() as int));
        assert(occurs_at(s, 0, p));
        assert(sq.skip(p.len() as int) =~= s.skip(p.len() as int) + q);
        lemma_remove_all_append(s.skip(p.len() as int), q, p);
    } else {
        if p.len() <= s.len() {
            assert(s.subrange(0, p.len() as int) =~= sq.subrange(0, p.len() as int));
        }
        assert(!occurs_at(s, 0, p));
        assert(sq.skip(1) =~= s.skip(1) + q);
        lemma_remove_all_append(s.skip(1), q, p);
        assert(seq![s[0]] + (remove_all(s.skip(1), p) + remove_all(q, p)) =~= (seq![s[0]]
            + remove_all(s.skip(1), p)) + remove_all(q, p));
    }
}

/// A text in which the pattern occurs nowhere is left as it is.
pub proof fn lemma_remove_all_absent(q: Seq<char>, p: Seq<char>)
    requires
        forall|i: int| 0 <= i < q.len() ==> !occurs_at(q, i, p),
    ensures
        remove_all(q, p) == q,
    decreases q.len(),
{
    if q.len() > 0 && p.len() > 0 {
        assert forall|i: int| 0 <= i < q.skip(1).len() implies !occurs_at(q.skip(1), i, p) by {
            if occurs_at(q.skip(1), i, p) {
                assert(q.subrange(i + 1, i + 1 + p.len()) =~= q.skip(1).subrange(i, i + p.len()));
                assert(occurs_at(q, i + 1, p));
            }
        }
        lemma_remove_all_absent(q.skip(1), p);
        assert(seq![q[0]] + q.skip(1) =~= q);
    }
}

/// Removing a pattern from itself leaves nothing.
pub proof fn lemma_remove_all_self(p: Seq<char>)
    requires
        p.len() > 0,
    ensures
        remove_all(p, p).len() == 0,
{
    assert(p.subrange(0, p.len() as int) =~= p);
    assert(occurs_at(p, 0, p));
    let e = p.skip(p.len() as int);
    assert(e.len() == 0);
    assert(remove_all(p, p) == remove_all(e, p));
    assert(remove_all(e, p) == e);
}

pub fn remove_all_chars(v: &Vec<char>, pat: &Vec<char>) -> (r: Vec<char>)
    requires
        pat.len() > 0,
    ensures
        r@ == remove_all(v@, pat@),
{
    let mut out: Vec<char> = Vec::new();
    let mut i: usize = 0;
    assert(v@.skip(0) =~= v@);
    while i < v.len()
        invariant
            pat.len() > 0,
            i <= v.len(),
            remove_all(v@, pat@) == out@ + remove_all(v@.skip(i as int), pat@),
        decreases v.len() - i,
    {
        let ghost rest = v@.skip(i as int);
        if matches_at(v, i, pat) {
            assert(rest.subrange(0, pat@.len() as int) =~= v@.subrange(i as int, i + pat@.len()));
            assert(rest.skip(pat@.len() as int) =~= v@.skip(i + pat@.len()));
            i = i + pat.len();
        } else {
            assert(!occurs_at(rest, 0, pat@)) by {
                if occurs_at(rest, 0, pat@) {
                    assert(rest.subrange(0, pat@.len() as int) =~= v@.subrange(i as int, i + pat@.len()));
                }
            }
            assert(rest.skip(1) =~= v@.skip(i + 1));
            assert(rest[0] == v@[i as int]);
            out.push(v[i]);
            assert(out@ + remove_all(v@.skip(i + 1), pat@) =~= (out@.drop_last() + seq![v@[i as int]]) + remove_all(v@.skip(i + 1), pat@));
            i = i + 1;
        }
    }
    assert(v@.skip(i as int).len() == 0);
    assert(out@ + v@.skip(i as int) =~= out@);
    out
}

// ---------------------------------------------------------------------------
// Decimal numbers.
// ---------------------------------------------------------------------------

/// Value of a string of decimal digits.
pub open spec fn dec_value(s: Seq<char>) -> nat
    decreases s.len(),
{
    if s.len() == 0 {
        0
    } else {
        dec_value(s.drop_last()) * 10 + digit_value(s.last())
    }
}

pub open spec fn all_digits(s: Seq<char>) -> bool {
    forall|i: int| 0 <= i < s.len() ==> is_digit(#[trigger] s[i])
}

/// Digits after an optional leading `+`, as integer `from_str` accepts them.
pub open spec fn unsigned_digits(s: Seq<char>) -> Seq<char> {
    if s.len() > 0 && s[0] == '+' {
        s.skip(1)
    } else {
        s
    }
}

/// `u32::from_str`.
pub open spec fn parse_u32_spec(s: Seq<char>) -> Option<u32> {
    let d = unsigned_digits(s);
    if d.len() == 0 || !all_digits(d) || dec_value(d) > u32::MAX {
        None
    } else {
        Some(dec_value(d) as u32)
    }
}

/// `u64::from_str`.
pub open spec fn parse_u64_spec(s: Seq<char>) -> Option<u64> {
    let d = unsigned_digits(s);
    if d.len() == 0 || !all_digits(d) || dec_value(d) > u64::MAX {
        None
    } else {
        Some(dec_value(d) as u64)
    }
}

pub proof fn lemma_dec_value_mono(s: Seq<char>, k: int)
    requires
        0 <= k <= s.len(),
        all_digits(s),
    ensures
        dec_value(s.take(k)) <= dec_value(s),
    decreases s.len() - k,
{
    if k < s.len() {
        lemma_dec_value_mono(s, k + 1);
        assert(s.take(k + 1).drop_last() =~= s.take(k));
        assert(dec_value(s.take(k + 1)) == dec_value(s.take(k)) * 10 + digit_value(s[k]));
    } else {
        assert(s.take(k) =~= s);
    }
}

/// Value of `v[lo..hi]` as a `u64`, if it is a valid unsigned integer.
pub fn parse_u64_range(v: &Vec<char>, lo: usize, hi: usize) -> (r: Option<u64>)
    requires
        lo <= hi <= v.len(),
    ensures
        r == parse_u64_spec(v@.subrange(lo as int, hi as int)),
{
    let ghost s = v@.subrange(lo as int, hi as int);
    let mut i = lo;
    if i < hi && v[i] == '+' {
        i = i + 1;
    }
    let ghost d = unsigned_digits(s);
    assert(d =~= v@.subrange(i as int, hi as int));
    if i == hi {
        return None;
    }
    let start = i;
    let mut acc: u64 = 0;
    while i < hi
        invariant
            lo <= start <= i <= hi <= v.len(),
            d == v@.subrange(start as int, hi as int),
            d == unsigned_digits(v@.subrange(lo as int, hi as int)),
            d.len() > 0,
            all_digits(d.take(i - start)),
            acc as nat == dec_value(d.take(i - start)),
        decreases hi - i,
    {
        let c = v[i];
        assert(d[i - start] == c);
        if !('0' <= c && c <= '9') {
            assert(!all_digits(d));
            return None;
        }
        let dv = (c as u32 - '0' as u32) as u64;
        assert(d.take(i - start + 1).drop_last() =~= d.take(i - start));
        assert(dec_value(d.take(i - start + 1)) == dec_value(d.take(i - start)) * 10 + digit_value(c));
        if acc > (u64::MAX - dv) / 10 {
            assert(acc * 10 + dv > u64::MAX) by (nonlinear_arith)
                requires acc > (u64::MAX - dv) / 10, dv <= 9;
            proof {
                if all_digits(d) {
                    lemma_dec_value_mono(d, i - start + 1);
                }
            }
            return None;
        }
        assert(acc * 10 + dv <= u64::MAX) by (nonlinear_arith)
            requires acc <= (u64::MAX - dv) / 10, dv <= 9;
        acc = acc * 10 + dv;
        i = i + 1;
        assert(all_digits(d.take(i - start))) by {
            assert forall|j: int| 0 <= j < d.take(i - start).len() implies is_digit(#[trigger] d.take(i - start)[j]) by {
                if j < i - start - 1 {
                    assert(d.take(i - start)[j] == d.take(i - start - 1)[j]);
                }
            }
        }
    }
    assert(d.take(i - start) =~= d);
    Some(acc)
}

/// Value of `v[lo..hi]` as a `u32`, if it is a valid unsigned integer.
pub fn parse_u32_range(v: &Vec<char>, lo: usize, hi: usize) -> (r: Option<u32>)
    requires
        lo <= hi <= v.len(),
    ensures
        r == parse_u32_spec(v@.subrange(lo as int, hi as int)),
{
    match parse_u64_range(v, lo, hi) {
        None => None,
        Some(x) => {
            if x > u32::MAX as u64 {
                None
            } else {
                Some(x as u32)
            }
        },
    }
}

/// Decimal representation of a natural number (`format!("{}", n)`).
pub open spec fn dec_string(n: nat) -> Seq<char>
    decreases n,
{
    if n < 10 {
        seq![digit_char(n)]
    } else {
        dec_string(n / 10) + seq![digit_char(n % 10)]
    }
}

pub fn push_decimal(out: &mut Vec<char>, n: u64)
    ensures
        final(out)@ == old(out)@ + dec_string(n as nat),
    decreases n,
{
    if n >= 10 {
        push_decimal(out, n / 10);
    }
    let d = (n % 10) as u32;
    let c = char_from_digit(d);
    out.push(c);
    proof {
        if n < 10 {
            assert(n % 10 == n);
        }
    }
}

pub fn char_from_digit(d: u32) -> (c: char)
    requires
        d < 10,
    ensures
        c == digit_char(d as nat),
        is_digit(c),
{
    let c = match d {
        0 => '0',
        1 => '1',
        2 => '2',
        3 => '3',
        4 => '4',
        5 => '5',
        6 => '6',
        7 => '7',
        8 => '8',
        _ => '9',
    };
    c
}

/// Copy of `v` with every ASCII capital letter lowered.
pub fn lower_chars(v: &Vec<char>) -> (r: Vec<char>)
    ensures
        r@ == lower_seq(v@),
{
    let mut r: Vec<char> = Vec::new();
    let mut i: usize = 0;
    while i < v.len()
        invariant
            i <= v.len(),
            r@ == lower_seq(v@.take(i as int)),
        decreases v.len() - i,
    {
        let c = v[i];
        let l = if 'A' <= c && c <= 'Z' {
            char_add_32(c)
        } else {
            c
        };
        r.push(l);
        i = i + 1;
        assert(lower_seq(v@.take(i as int)) =~= lower_seq(v@.take(i - 1)).push(ascii_lower(c)));
    }
    assert(v@.take(v.len() as int) =~= v@);
    r
}

fn char_add_32(c: char) -> (r: char)
    requires
        'A' <= c && c <= 'Z',
    ensures
        r == ascii_lower(c),
{
    let u = c as u32 + 32;
    // 'a'..='z' are valid scalar values.
    let r = match u {
        97 => 'a', 98 => 'b', 99 => 'c', 100 => 'd', 101 => 'e', 102 => 'f', 103 => 'g',
        104 => 'h', 105 => 'i', 106 => 'j', 107 => 'k', 108 => 'l', 109 => 'm', 110 => 'n',
        111 => 'o', 112 => 'p', 113 => 'q', 114 => 'r', 115 => 's', 116 => 't', 117 => 'u',
        118 => 'v', 119 => 'w', 120 => 'x', 121 => 'y', _ => 'z',
    };
    r
}

// ---------------------------------------------------------------------------
// Lines and words.
// ---------------------------------------------------------------------------

/// Views of a vector of character vectors.
pub open spec fn views(v: Seq<Vec<char>>) -> Seq<Seq<char>> {
    v.map_values(|l: Vec<char>| l@)
}

/// `str::lines` from index `i`: pieces between `'\n'`, with a `'\r'` before
/// the `'\n'` removed; a final line ending gives no empty last line.
pub open spec fn lines_from(s: Seq<char>, i: int) -> Seq<Seq<char>>
    decreases s.len() - i,
{
    if i < 0 || i >= s.len() {
        Seq::empty()
    } else {
        proof {
            lemma_find_char_from(s, '\n', i);
        }
        let e = find_char_from(s, '\n', i);
        let raw = s.subrange(i, e);
        let line = if e < s.len() && raw.len() > 0 && raw.last() == '\r' {
            raw.drop_last()
        } else {
            raw
        };
        if e >= s.len() {
            seq![line]
        } else {
            seq![line] + lines_from(s, e + 1)
        }
    }
}

/// `str::lines`.
pub open spec fn lines(s: Seq<char>) -> Seq<Seq<char>> {
    lines_from(s, 0)
}

/// The lines of `v` (see `lines`).
pub fn split_lines(v: &Vec<char>) -> (r: Vec<Vec<char>>)
    ensures
        views(r@) == lines(v@),
{
    let mut out: Vec<Vec<char>> = Vec::new();
    let mut i: usize = 0;
    while i < v.len()
        invariant
            i <= v.len(),
            views(out@) + lines_from(v@, i as int) == lines(v@),
        decreases v.len() - i,
    {
        let e = find_char(v, '\n', i);
        proof {
            lemma_find_char_from(v@, '\n', i as int);
        }
        let mut end = e;
        if e < v.len() && e > i && v[e - 1] == '\r' {
            end = e - 1;
        }
        let line = slice_chars(v, i, end);
        let ghost before = out@;
        out.push(line);
        proof {
            let raw = v@.subrange(i as int, e as int);
            if e < v.len() && raw.len() > 0 && raw.last() == '\r' {
                assert(raw.drop_last() =~= v@.subrange(i as int, end as int));
            } else {
                assert(raw =~= v@.subrange(i as int, end as int));
            }
            assert(views(out@) =~= views(before).push(line@));
            assert(lines_from(v@, e + 1) == Seq::<Seq<char>>::empty() ==> seq![line@] + lines_from(v@, e + 1) =~= seq![line@]);
            assert(lines_from(v@, i as int) == seq![line@] + lines_from(v@, e + 1));
            assert(views(before) + (seq![line@] + lines_from(v@, e + 1)) =~= views(before).push(
                line@,
            ) + lines_from(v@, e + 1));
        }
        if e == v.len() {
            i = v.len();
            assert(lines_from(v@, e + 1) == Seq::<Seq<char>>::empty());
            assert(lines_from(v@, i as int) == Seq::<Seq<char>>::empty());
        } else {
            i = e + 1;
        }
    }
    assert(lines_from(v@, i as int) == Seq::<Seq<char>>::empty());
    assert(views(out@) + Seq::<Seq<char>>::empty() =~= views(out@));
    out
}

/// `str::split_whitespace` from index `i`: the maximal runs of
/// non-whitespace characters.
pub open spec fn words_from(s: Seq<char>, i: int) -> Seq<Seq<char>>
    decreases s.len() - i,
{
    if i < 0 || i >= s.len() {
        Seq::empty()
    } else {
        proof {
            lemma_skip_ws(s, i);
        }
        let a = skip_ws(s, i);
        if a >= s.len() {
            Seq::empty()
        } else {
            proof {
                lemma_skip_word(s, a);
            }
            let b = skip_word(s, a);
            seq![s.subrange(a, b)] + words_from(s, b)
        }
    }
}

/// `str::split_whitespace`.
pub open spec fn words(s: Seq<char>) -> Seq<Seq<char>> {
    words_from(s, 0)
}

/// The whitespace-separated words of `v`.
pub fn split_words(v: &Vec<char>) -> (r: Vec<Vec<char>>)
    ensures
        views(r@) == words(v@),
{
    let mut out: Vec<Vec<char>> = Vec::new();
    let mut i: usize = 0;
    while i < v.len()
        invariant
            i <= v.len(),
            views(out@) + words_from(v@, i as int) == words(v@),
        decreases v.len() - i,
    {
        let a = skip_ws_exec(v, i);
        proof {
            lemma_skip_ws(v@, i as int);
        }
        if a >= v.len() {
            assert(words_from(v@, i as int) == Seq::<Seq<char>>::empty());
            i = v.len();
        } else {
            let b = skip_word_exec(v, a);
            proof {
                lemma_skip_word(v@, a as int);
            }
            let w = slice_chars(v, a, b);
            let ghost before = out@;
            out.push(w);
            proof {
                assert(views(out@) =~= views(before).push(w@));
                assert(views(before) + (seq![w@] + words_from(v@, b as int)) =~= views(before).push(
                    w@,
                ) + words_from(v@, b as int));
            }
            i = b;
        }
    }
    assert(words_from(v@, i as int) == Seq::<Seq<char>>::empty());
    assert(views(out@) + Seq::<Seq<char>>::empty() =~= views(out@));
    out
}

/// `s.starts_with(p)` for a character vector and a string slice.
pub fn starts_with_str(v: &Vec<char>, p: &str) -> (r: bool)
    ensures
        r == starts_with(v@, p@),
{
    let pv = str_chars(p);
    matches_at(v, 0, &pv)
}

/// `u64::from_str` on a whole character vector.
pub fn parse_u64_chars(v: &Vec<char>) -> (r: Option<u64>)
    ensures
        r == parse_u64_spec(v@),
{
    let r = parse_u64_range(v, 0, v.len());
    assert(v@.subrange(0, v@.len() as int) =~= v@);
    r
}

} // verus!
