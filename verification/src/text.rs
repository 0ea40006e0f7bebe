use vstd::prelude::*;
use vstd::utf8::*;

verus! {

broadcast use vstd::string::group_string_axioms;

pub open spec fn is_ascii_bytes(s: Seq<u8>) -> bool {
    forall|i: int| 0 <= i < s.len() ==> #[trigger] s[i] < 128
}

/// An ASCII byte sequence is valid UTF-8 and decodes to one character per byte.
pub proof fn lemma_ascii_bytes_utf8(b: Seq<u8>)
    requires
        is_ascii_bytes(b),
    ensures
        valid_utf8(b),
        decode_utf8(b) == Seq::new(b.len(), |i: int| b[i] as char),
{
    let c = Seq::new(b.len(), |i: int| b[i] as char);
    assert(is_ascii_chars(c));
    is_ascii_chars_encode_utf8(c);
    assert forall|i: int| 0 <= i < b.len() implies (c[i] as u8) == b[i] by {
        let x = b[i];
        assert(((x as char) as u8) == x);
    }
    assert(encode_utf8(c) =~= b);
    encode_utf8_valid_utf8(c);
    encode_utf8_decode_utf8(c);
}

/// UTF-8 encoding distributes over concatenation.
pub proof fn lemma_encode_utf8_concat(a: Seq<char>, b: Seq<char>)
    ensures
        encode_utf8(a + b) == encode_utf8(a) + encode_utf8(b),
    decreases a.len(),
{
    if a.len() == 0 {
        assert(a + b =~= b);
    } else {
        assert((a + b).drop_first() =~= a.drop_first() + b);
        lemma_encode_utf8_concat(a.drop_first(), b);
        assert(encode_utf8(a + b) =~= encode_utf8(a) + encode_utf8(b));
    }
}

/// The string whose UTF-8 encoding is `bytes`.
pub fn utf8_bytes_to_string(bytes: Vec<u8>) -> (s: String)
    requires
        valid_utf8(bytes@),
    ensures
        s@ == decode_utf8(bytes@),
{
    match String::from_utf8(bytes) {
        Ok(s) => s,
        Err(_) => String::new(),
    }
}

/// The string whose UTF-8 encoding is `bytes`, or `None` when they are not UTF-8.
pub fn utf8_string(bytes: Vec<u8>) -> (s: Option<String>)
    ensures
        s is Some <==> valid_utf8(bytes@),
        s matches Some(t) ==> t@ == decode_utf8(bytes@),
{
    match String::from_utf8(bytes) {
        Ok(s) => Some(s),
        Err(_) => None,
    }
}

/// The characters of `s`, in order.
pub fn chars_of(s: &str) -> (v: Vec<char>)
    ensures
        v@ == s@,
{
    let mut v: Vec<char> = Vec::new();
    for c in it: s.chars()
        invariant
            v@ == it.seq().take(it.index() as int),
    {
        v.push(c);
    }
    v
}

/// Do `a` and `b` hold the same characters?
pub fn str_equals(a: &str, b: &str) -> (r: bool)
    ensures
        r == (a@ == b@),
{
    let x = chars_of(a);
    let y = chars_of(b);
    if x.len() != y.len() {
        return false;
    }
    let mut i: usize = 0;
    while i < x.len()
        invariant
            x@ == a@,
            y@ == b@,
            x@.len() == y@.len(),
            i <= x@.len(),
            forall|k: int| 0 <= k < i ==> x@[k] == y@[k],
        decreases x.len() - i,
    {
        if x[i] != y[i] {
            return false;
        }
        i += 1;
    }
    assert(x@ =~= y@);
    true
}

// ============================================================
// Whitespace
// ============================================================

/// Unicode `White_Space`, the property that `char::is_whitespace` and `str::trim` use.
pub open spec fn is_white_space(c: char) -> bool {
    let u = c as u32;
    ||| 0x09 <= u <= 0x0D
    ||| u == 0x20
    ||| u == 0x85
    ||| u == 0xA0
    ||| u == 0x1680
    ||| 0x2000 <= u <= 0x200A
    ||| u == 0x2028
    ||| u == 0x2029
    ||| u == 0x202F
    ||| u == 0x205F
    ||| u == 0x3000
}

/// Is `c` Unicode white space?
pub fn is_whitespace(c: char) -> (r: bool)
    ensures
        r == is_white_space(c),
{
    let u = c as u32;
    (0x09 <= u && u <= 0x0D) || u == 0x20 || u == 0x85 || u == 0xA0 || u == 0x1680 || (0x2000 <= u
        && u <= 0x200A) || u == 0x2028 || u == 0x2029 || u == 0x202F || u == 0x205F || u == 0x3000
}

/// The first index at or after `i` that does not hold white space (or the length).
pub open spec fn skip_ws(s: Seq<char>, i: int) -> int
    decreases s.len() - i,
{
    if 0 <= i < s.len() && is_white_space(s[i]) {
        skip_ws(s, i + 1)
    } else {
        i
    }
}

/// The end of `s[lo..e]` once white space at its end is removed.
pub open spec fn trim_end_index(s: Seq<char>, lo: int, e: int) -> int
    decreases e - lo,
{
    if lo < e && 0 < e <= s.len() && is_white_space(s[e - 1]) {
        trim_end_index(s, lo, e - 1)
    } else {
        e
    }
}

/// `s` without white space at either end, as `str::trim` gives it.
pub open spec fn trim(s: Seq<char>) -> Seq<char> {
    let lo = skip_ws(s, 0);
    s.subrange(lo, trim_end_index(s, lo, s.len() as int))
}

pub proof fn lemma_skip_ws_bounds(s: Seq<char>, i: int)
    requires
        0 <= i <= s.len(),
    ensures
        i <= skip_ws(s, i) <= s.len(),
        skip_ws(s, i) < s.len() ==> !is_white_space(s[skip_ws(s, i)]),
        forall|k: int| i <= k < skip_ws(s, i) ==> is_white_space(#[trigger] s[k]),
    decreases s.len() - i,
{
    if i < s.len() && is_white_space(s[i]) {
        lemma_skip_ws_bounds(s, i + 1);
    }
}

pub proof fn lemma_trim_end_bounds(s: Seq<char>, lo: int, e: int)
    requires
        0 <= lo <= e <= s.len(),
    ensures
        lo <= trim_end_index(s, lo, e) <= e,
    decreases e - lo,
{
    if lo < e && 0 < e <= s.len() && is_white_space(s[e - 1]) {
        lemma_trim_end_bounds(s, lo, e - 1);
    }
}

/// `skip_ws` from `i` stops at `k` when white space fills `[i, k)` and none stands at `k`.
proof fn lemma_skip_ws_run(s: Seq<char>, i: int, k: int)
    requires
        0 <= i <= k <= s.len(),
        forall|j: int| i <= j < k ==> is_white_space(#[trigger] s[j]),
        k < s.len() ==> !is_white_space(s[k]),
    ensures
        skip_ws(s, i) == k,
    decreases k - i,
{
    if i < k {
        lemma_skip_ws_run(s, i + 1, k);
    }
}

/// `trim_end_index` down from `e` stops at `k` when white space fills `[k, e)` and none
/// stands just before `k` (above `lo`).
proof fn lemma_trim_end_run(s: Seq<char>, lo: int, k: int, e: int)
    requires
        0 <= lo <= k <= e <= s.len(),
        forall|j: int| k <= j < e ==> is_white_space(#[trigger] s[j]),
        lo < k ==> !is_white_space(s[k - 1]),
    ensures
        trim_end_index(s, lo, e) == k,
    decreases e - k,
{
    if k < e {
        lemma_trim_end_run(s, lo, k, e - 1);
    }
}

/// Text surrounded by white space, and not itself starting or ending with white space,
/// trims to itself.
pub proof fn lemma_trim_padded(before: Seq<char>, mid: Seq<char>, after: Seq<char>)
    requires
        forall|j: int| 0 <= j < before.len() ==> is_white_space(#[trigger] before[j]),
        forall|j: int| 0 <= j < after.len() ==> is_white_space(#[trigger] after[j]),
        mid.len() > 0 ==> !is_white_space(mid[0]) && !is_white_space(mid.last()),
    ensures
        trim(before + mid + after) == mid,
{
    let t = before + mid + after;
    let b = before.len() as int;
    let m = mid.len() as int;
    let n = t.len() as int;
    if m == 0 {
        assert forall|j: int| 0 <= j < n implies is_white_space(#[trigger] t[j]) by {
            if j < b {
                assert(t[j] == before[j]);
            } else {
                assert(t[j] == after[j - b]);
            }
        }
        lemma_skip_ws_run(t, 0, n);
        lemma_trim_end_run(t, n, n, n);
        assert(t.subrange(n, n) =~= mid);
    } else {
        assert forall|j: int| 0 <= j < b implies is_white_space(#[trigger] t[j]) by {
            assert(t[j] == before[j]);
        }
        assert(t[b] == mid[0]);
        lemma_skip_ws_run(t, 0, b);
        assert forall|j: int| b + m <= j < n implies is_white_space(#[trigger] t[j]) by {
            assert(t[j] == after[j - b - m]);
        }
        assert(t[b + m - 1] == mid.last());
        lemma_trim_end_run(t, b, b + m, n);
        assert(t.subrange(b, b + m) =~= mid);
    }
}

/// Index of the first character at or after `i` that is not white space.
pub fn skip_whitespace(v: &Vec<char>, i: usize) -> (r: usize)
    requires
        i <= v@.len(),
    ensures
        r as int == skip_ws(v@, i as int),
{
    let mut j = i;
    while j < v.len() && is_whitespace(v[j])
        invariant
            i <= j <= v@.len(),
            skip_ws(v@, i as int) == skip_ws(v@, j as int),
        decreases v.len() - j,
    {
        j += 1;
    }
    j
}

/// End index of `v[lo..e]` once white space at its end is removed.
pub fn trim_end(v: &Vec<char>, lo: usize, e: usize) -> (r: usize)
    requires
        lo <= e <= v@.len(),
    ensures
        r as int == trim_end_index(v@, lo as int, e as int),
{
    let mut j = e;
    while lo < j && is_whitespace(v[j - 1])
        invariant
            lo <= j <= e,
            e <= v@.len(),
            trim_end_index(v@, lo as int, e as int) == trim_end_index(v@, lo as int, j as int),
        decreases j - lo,
    {
        j -= 1;
    }
    j
}

// ============================================================
// Searching
// ============================================================

/// Does `p` occur in `s` at index `i`?
pub open spec fn matches_at(s: Seq<char>, p: Seq<char>, i: int) -> bool {
    0 <= i && i + p.len() <= s.len() && s.subrange(i, i + p.len()) == p
}

/// The first index at or after `i` at which `p` occurs in `s`, as `str::find` on the
/// rest of the text gives it (offset by `i`).
pub open spec fn find_from(s: Seq<char>, p: Seq<char>, i: int) -> Option<int>
    decreases s.len() + 1 - i,
{
    if i < 0 || i + p.len() > s.len() {
        None
    } else if matches_at(s, p, i) {
        Some(i)
    } else {
        find_from(s, p, i + 1)
    }
}

pub proof fn lemma_find_from_bounds(s: Seq<char>, p: Seq<char>, i: int)
    ensures
        find_from(s, p, i) matches Some(k) ==> i <= k && k + p.len() <= s.len() && matches_at(s, p, k),
    decreases s.len() + 1 - i,
{
    if i < 0 || i + p.len() > s.len() {
    } else if matches_at(s, p, i) {
    } else {
        lemma_find_from_bounds(s, p, i + 1);
    }
}

/// Does `p` occur in `s` at index `i`?
pub fn matches_here(s: &Vec<char>, p: &Vec<char>, i: usize) -> (r: bool)
    requires
        i + p@.len() <= s@.len(),
    ensures
        r == matches_at(s@, p@, i as int),
{
    let slen = s.len();
    let mut k: usize = 0;
    while k < p.len()
        invariant
            k <= p@.len(),
            slen == s@.len(),
            i + p@.len() <= s@.len(),
            forall|m: int| 0 <= m < k ==> s@[i + m] == p@[m],
        decreases p.len() - k,
    {
        if s[i + k] != p[k] {
            assert(s@.subrange(i as int, i + p@.len())[k as int] != p@[k as int]);
            return false;
        }
        k += 1;
    }
    assert(s@.subrange(i as int, i + p@.len()) =~= p@);
    true
}

/// The first index at or after `start` at which `p` occurs in `s`.
pub fn find_at_or_after(s: &Vec<char>, p: &Vec<char>, start: usize) -> (r: Option<usize>)
    ensures
        r matches Some(k) ==> find_from(s@, p@, start as int) == Some(k as int),
        r is None ==> find_from(s@, p@, start as int) is None,
{
    if p.len() > s.len() {
        return None;
    }
    let last = s.len() - p.len();
    let mut i = start;
    while i <= last
        invariant
            last + p@.len() == s@.len(),
            start <= i,
            find_from(s@, p@, start as int) == find_from(s@, p@, i as int),
        decreases last + 1 - i,
    {
        if matches_here(s, p, i) {
            return Some(i);
        }
        if i == last {
            assert(find_from(s@, p@, i + 1) is None);
            return None;
        }
        i += 1;
    }
    None
}

/// The first index at or after `start` holding the character `c`.
pub fn find_char(s: &Vec<char>, c: char, start: usize) -> (r: Option<usize>)
    ensures
        r matches Some(k) ==> find_from(s@, seq![c], start as int) == Some(k as int),
        r is None ==> find_from(s@, seq![c], start as int) is None,
{
    let mut p: Vec<char> = Vec::new();
    p.push(c);
    assert(p@ =~= seq![c]);
    find_at_or_after(s, &p, start)
}

// ============================================================
// ASCII case
// ============================================================

/// The code of the ASCII lower-case form of `c` (other characters keep their code).
pub open spec fn ascii_lower_code(c: char) -> u32 {
    if 'A' <= c <= 'Z' {
        ((c as u32) + 32) as u32
    } else {
        c as u32
    }
}

/// Equal up to ASCII case, as `str::eq_ignore_ascii_case` decides it.
pub open spec fn eq_ignore_ascii_case(a: Seq<char>, b: Seq<char>) -> bool {
    a.len() == b.len() && forall|i: int| 0 <= i < a.len() ==> ascii_lower_code(#[trigger] a[i]) == ascii_lower_code(b[i])
}

fn lower_code(c: char) -> (r: u32)
    ensures
        r == ascii_lower_code(c),
{
    if 'A' <= c && c <= 'Z' {
        (c as u32) + 32
    } else {
        c as u32
    }
}

/// Are `a` and `b` equal up to ASCII case?
pub fn chars_eq_ignore_ascii_case(a: &Vec<char>, b: &Vec<char>) -> (r: bool)
    ensures
        r == eq_ignore_ascii_case(a@, b@),
{
    if a.len() != b.len() {
        return false;
    }
    let mut i: usize = 0;
    while i < a.len()
        invariant
            a@.len() == b@.len(),
            i <= a@.len(),
            forall|k: int| 0 <= k < i ==> ascii_lower_code(#[trigger] a@[k]) == ascii_lower_code(b@[k]),
        decreases a.len() - i,
    {
        if lower_code(a[i]) != lower_code(b[i]) {
            return false;
        }
        i += 1;
    }
    true
}

} // verus!
