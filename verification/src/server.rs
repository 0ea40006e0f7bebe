use vstd::prelude::*;
use vstd::utf8::*;

use crate::config::{
    KEY_LENGTH_MIN, KEY_LENGTH_MULTIPLIER, SALT_SUFFIX,
    DEFAULT_ARGON2_MEMORY_COST_KIB, DEFAULT_ARGON2_PARALLELISM, DEFAULT_ARGON2_TIME_COST,
    DEFAULT_ITERATIONS, DEFAULT_LENGTH, MIN_PASSWORD_LENGTH,
};
use crate::kdf::{
    core_text, default_symbol_set, hex_text, derived_key_for, generate_password, key_length, kdf_from_name, options_supported,
    password_bytes, salt_text, symbol_bytes, GenerateOptions, KdfAlgorithm,
};
use crate::text::{
    chars_eq_ignore_ascii_case, chars_of, eq_ignore_ascii_case, find_at_or_after, lemma_encode_utf8_concat, matches_here, find_char, find_from, is_white_space, lemma_find_from_bounds,
    lemma_skip_ws_bounds, matches_at, skip_whitespace, skip_ws, str_equals,
};
use crate::trusted::{argon2_inputs_ok, argon2id_v13, pbkdf2_hmac_sha256};
use vstd::string::StrSliceExecFns;
use vstd::string::StringExecFns;

verus! {

broadcast use vstd::string::group_string_axioms;

// ============================================================
// A minimal reader for the flat JSON objects the browser UI sends
// ============================================================

/// `"key"`: the key in double quotes.
pub open spec fn key_pattern(key: Seq<char>) -> Seq<char> {
    seq!['"'] + key + seq!['"']
}

/// Where the value of `key` starts: after the first occurrence of `"key"`, the first colon
/// after it, and the white space after that colon.
pub open spec fn json_value_index(json: Seq<char>, key: Seq<char>) -> Option<int> {
    let pat = key_pattern(key);
    match find_from(json, pat, 0) {
        None => None,
        Some(i) => match find_from(json, seq![':'], i + pat.len()) {
            None => None,
            Some(c) => Some(skip_ws(json, c + 1)),
        },
    }
}

/// The string value of `key`: the characters between the opening double quote of the
/// value and the next double quote (no escapes are interpreted).
pub open spec fn json_str(json: Seq<char>, key: Seq<char>) -> Option<Seq<char>> {
    match json_value_index(json, key) {
        None => None,
        Some(v) => if v < json.len() && json[v] == '"' {
            match find_from(json, seq!['"'], v + 1) {
                None => None,
                Some(e) => Some(json.subrange(v + 1, e)),
            }
        } else {
            None
        },
    }
}

/// The boolean value of `key`: `true` or `false` at the start of the value.
pub open spec fn json_bool(json: Seq<char>, key: Seq<char>) -> Option<bool> {
    match json_value_index(json, key) {
        None => None,
        Some(v) => if matches_at(json, "true"@, v) {
            Some(true)
        } else if matches_at(json, "false"@, v) {
            Some(false)
        } else {
            None
        },
    }
}

pub open spec fn is_ascii_digit(c: char) -> bool {
    '0' <= c <= '9'
}

/// End of the run of ASCII digits that starts at `i`.
pub open spec fn digit_end(s: Seq<char>, i: int) -> int
    decreases s.len() - i,
{
    if 0 <= i < s.len() && is_ascii_digit(s[i]) {
        digit_end(s, i + 1)
    } else {
        i
    }
}

/// The value of a string of decimal digits.
pub open spec fn decimal_value(s: Seq<char>) -> nat
    decreases s.len(),
{
    if s.len() == 0 {
        0
    } else {
        decimal_value(s.drop_last()) * 10 + ((s.last() as int - 48) as nat)
    }
}

/// The number value of `key`: the run of digits at the start of the value, when it is not
/// empty and fits in `u64`.
pub open spec fn json_num(json: Seq<char>, key: Seq<char>) -> Option<u64> {
    match json_value_index(json, key) {
        None => None,
        Some(v) => number_at(json, v),
    }
}

/// The number written by the run of ASCII digits at index `v`, when the run is not empty
/// and its value fits in `u64`, as `str::parse::<u64>` reads it.
pub open spec fn number_at(s: Seq<char>, v: int) -> Option<u64> {
    let e = digit_end(s, v);
    if e == v || decimal_value(s.subrange(v, e)) > u64::MAX {
        None
    } else {
        Some(decimal_value(s.subrange(v, e)) as u64)
    }
}

proof fn lemma_json_value_index_bounds(json: Seq<char>, key: Seq<char>)
    ensures
        json_value_index(json, key) matches Some(v) ==> 0 <= v <= json.len(),
{
    let pat = key_pattern(key);
    lemma_find_from_bounds(json, pat, 0);
    if let Some(i) = find_from(json, pat, 0) {
        lemma_find_from_bounds(json, seq![':'], i + pat.len());
        if let Some(c) = find_from(json, seq![':'], i + pat.len()) {
            lemma_skip_ws_bounds(json, c + 1);
        }
    }
}

proof fn lemma_digit_end_bounds(s: Seq<char>, i: int)
    requires
        0 <= i <= s.len(),
    ensures
        i <= digit_end(s, i) <= s.len(),
        forall|k: int| i <= k < digit_end(s, i) ==> is_ascii_digit(#[trigger] s[k]),
    decreases s.len() - i,
{
    if i < s.len() && is_ascii_digit(s[i]) {
        lemma_digit_end_bounds(s, i + 1);
    }
}

/// The value of a digit string is at least the value of any of its prefixes.
proof fn lemma_decimal_prefix(s: Seq<char>, j: int)
    requires
        0 <= j <= s.len(),
    ensures
        decimal_value(s.take(j)) <= decimal_value(s),
    decreases s.len() - j,
{
    if j < s.len() {
        lemma_decimal_prefix(s, j + 1);
        assert(s.take(j + 1).drop_last() =~= s.take(j));
    } else {
        assert(s.take(j) =~= s);
    }
}

/// Index where the value of `key` starts in `json`.
fn locate_value(json: &Vec<char>, key: &str) -> (r: Option<usize>)
    ensures
        r matches Some(v) ==> json_value_index(json@, key@) == Some(v as int),
        r is None ==> json_value_index(json@, key@) is None,
{
    let key_chars = chars_of(key);
    let mut pat: Vec<char> = Vec::new();
    pat.push('"');
    let mut k: usize = 0;
    while k < key_chars.len()
        invariant
            k <= key_chars@.len(),
            pat@ == seq!['"'] + key_chars@.take(k as int),
        decreases key_chars.len() - k,
    {
        pat.push(key_chars[k]);
        k += 1;
        assert(key_chars@.take(k as int) =~= key_chars@.take(k - 1).push(key_chars@[k - 1]));
    }
    pat.push('"');
    assert(key_chars@.take(k as int) =~= key@);
    assert(pat@ =~= key_pattern(key@));
    let jlen = json.len();
    proof {
        lemma_find_from_bounds(json@, pat@, 0);
    }
    match find_at_or_after(json, &pat, 0) {
        None => None,
        Some(i) => {
            let start = i + pat.len();
            proof {
                lemma_find_from_bounds(json@, seq![':'], start as int);
            }
            match find_char(json, ':', start) {
                None => None,
                Some(c) => Some(skip_whitespace(json, c + 1)),
            }
        },
    }
}

/// The string value of `key` in the JSON text `json`.
pub fn extract_json_str(json: &str, key: &str) -> (r: Option<String>)
    ensures
        r matches Some(s) ==> json_str(json@, key@) == Some(s@),
        r is None ==> json_str(json@, key@) is None,
{
    let chars = chars_of(json);
    proof {
        lemma_json_value_index_bounds(json@, key@);
    }
    match locate_value(&chars, key) {
        None => None,
        Some(v) => {
            if v < chars.len() && chars[v] == '"' {
                proof {
                    lemma_find_from_bounds(json@, seq!['"'], v + 1);
                }
                match find_char(&chars, '"', v + 1) {
                    None => None,
                    Some(e) => Some(String::from_str(json.substring_char(v + 1, e))),
                }
            } else {
                None
            }
        },
    }
}

/// The boolean value of `key` in the JSON text `json`.
pub fn extract_json_bool(json: &str, key: &str) -> (r: Option<bool>)
    ensures
        r == json_bool(json@, key@),
{
    let chars = chars_of(json);
    proof {
        lemma_json_value_index_bounds(json@, key@);
    }
    match locate_value(&chars, key) {
        None => None,
        Some(v) => {
            let t = chars_of("true");
            let f = chars_of("false");
            if starts_at(&chars, &t, v) {
                Some(true)
            } else if starts_at(&chars, &f, v) {
                Some(false)
            } else {
                None
            }
        },
    }
}

/// Does `p` occur in `s` at index `i`?
fn starts_at(s: &Vec<char>, p: &Vec<char>, i: usize) -> (r: bool)
    ensures
        r == matches_at(s@, p@, i as int),
{
    if i > s.len() || p.len() > s.len() - i {
        return false;
    }
    matches_here(s, p, i)
}

/// The number value of `key` in the JSON text `json`.
pub fn extract_json_num(json: &str, key: &str) -> (r: Option<u64>)
    ensures
        r == json_num(json@, key@),
{
    let chars = chars_of(json);
    proof {
        lemma_json_value_index_bounds(json@, key@);
    }
    match locate_value(&chars, key) {
        None => None,
        Some(v) => read_number(&chars, v),
    }
}

/// Reads the number written by the run of ASCII digits at index `v` of `chars`.
pub fn read_number(chars: &Vec<char>, v: usize) -> (r: Option<u64>)
    requires
        v <= chars@.len(),
    ensures
        r == number_at(chars@, v as int),
{
    let mut e = v;
    while e < chars.len() && '0' <= chars[e] && chars[e] <= '9'
        invariant
            v <= e <= chars@.len(),
            digit_end(chars@, v as int) == digit_end(chars@, e as int),
        decreases chars.len() - e,
    {
        e += 1;
    }
    if e == v {
        return None;
    }
    let ghost digits = chars@.subrange(v as int, e as int);
    proof {
        lemma_digit_end_bounds(chars@, v as int);
    }
    let mut acc: u64 = 0;
    let mut k = v;
    while k < e
        invariant
            v <= k <= e,
            e <= chars@.len(),
            e == digit_end(chars@, v as int),
            e != v,
            digits == chars@.subrange(v as int, e as int),
            forall|m: int| v <= m < e ==> is_ascii_digit(#[trigger] chars@[m]),
            acc as nat == decimal_value(digits.take(k - v)),
        decreases e - k,
    {
        let d = (chars[k] as u32 - 48) as u64;
        let ghost next = digits.take(k + 1 - v);
        assert(next.drop_last() =~= digits.take(k - v));
        assert(next.last() == chars@[k as int]);
        assert(decimal_value(next) == decimal_value(next.drop_last()) * 10 + d);
        match acc.checked_mul(10) {
            None => {
                proof {
                    lemma_decimal_prefix(digits, k + 1 - v);
                }
                return None;
            },
            Some(m) => match m.checked_add(d) {
                None => {
                    proof {
                        lemma_decimal_prefix(digits, k + 1 - v);
                    }
                    return None;
                },
                Some(n) => {
                    acc = n;
                },
            },
        }
        k += 1;
    }
    assert(digits.take(e - v) =~= digits);
    Some(acc)
}

// ============================================================
// Password requests
// ============================================================

/// Answer to a request without a core password.
pub const EMPTY_CORE_RESPONSE: &'static str = "{\"error\":\"コアパスワードが空です\"}";

/// Answer to a request for a password shorter than `MIN_PASSWORD_LENGTH`.
pub const SHORT_LENGTH_RESPONSE: &'static str = "{\"error\":\"パスワード長は8文字以上にしてください\"}";

pub open spec fn request_site(body: Seq<char>) -> Seq<char> {
    json_str(body, "site"@).unwrap_or(Seq::empty())
}

pub open spec fn request_core(body: Seq<char>) -> Seq<char> {
    json_str(body, "master"@).unwrap_or(Seq::empty())
}

pub open spec fn request_length(body: Seq<char>) -> usize {
    json_num(body, "length"@).unwrap_or(DEFAULT_LENGTH as u64) as usize
}

pub open spec fn request_kdf(body: Seq<char>) -> KdfAlgorithm {
    kdf_from_name(json_str(body, "kdf"@).unwrap_or("argon2id"@)).unwrap_or(KdfAlgorithm::Argon2id)
}

pub open spec fn request_iterations(body: Seq<char>) -> u32 {
    json_num(body, "iterations"@).unwrap_or(DEFAULT_ITERATIONS as u64) as u32
}

pub open spec fn request_time_cost(body: Seq<char>) -> u32 {
    json_num(body, "time_cost"@).unwrap_or(DEFAULT_ARGON2_TIME_COST as u64) as u32
}

pub open spec fn request_memory_cost(body: Seq<char>) -> u32 {
    json_num(body, "memory_cost"@).unwrap_or(DEFAULT_ARGON2_MEMORY_COST_KIB as u64) as u32
}

pub open spec fn request_parallelism(body: Seq<char>) -> u32 {
    json_num(body, "parallelism"@).unwrap_or(DEFAULT_ARGON2_PARALLELISM as u64) as u32
}

pub open spec fn request_use_digits(body: Seq<char>) -> bool {
    json_bool(body, "use_digits"@).unwrap_or(true)
}

pub open spec fn request_use_symbols(body: Seq<char>) -> bool {
    json_bool(body, "use_symbols"@).unwrap_or(true)
}

/// The key a request derives with the device seed.
pub open spec fn request_key(body: Seq<char>, seed: Seq<u8>) -> Seq<u8> {
    derived_key_for(
        request_core(body),
        request_site(body),
        seed,
        request_kdf(body),
        request_iterations(body),
        request_time_cost(body),
        request_memory_cost(body),
        request_parallelism(body),
        request_length(body) as nat,
    )
}

/// The password a request asks for.
pub open spec fn request_password(body: Seq<char>, seed: Seq<u8>) -> Seq<char> {
    decode_utf8(
        password_bytes(
            request_key(body, seed),
            request_length(body) as nat,
            request_use_digits(body),
            request_use_symbols(body),
            default_symbol_set(),
        ),
    )
}

/// The answer to a request body.
pub open spec fn response_text(body: Seq<char>, seed: Seq<u8>) -> Seq<char> {
    if request_core(body).len() == 0 {
        EMPTY_CORE_RESPONSE@
    } else if request_length(body) < MIN_PASSWORD_LENGTH {
        SHORT_LENGTH_RESPONSE@
    } else {
        "{\"password\":\""@ + request_password(body, seed) + "\"}"@
    }
}

/// The requests that can be answered: those refused for an empty core password or a short
/// length, and those whose key length fits in memory and whose Argon2id inputs the
/// algorithm accepts.
pub open spec fn request_supported(body: Seq<char>, seed: Seq<u8>) -> bool {
    let length = request_length(body);
    request_core(body).len() > 0 && length >= MIN_PASSWORD_LENGTH ==> {
        &&& length * 8 <= usize::MAX
        &&& request_kdf(body) == KdfAlgorithm::Argon2id ==> argon2_inputs_ok(
            encode_utf8(core_text(request_core(body), seed)).len(),
            encode_utf8(salt_text(request_site(body))).len(),
            request_time_cost(body),
            request_memory_cost(body),
            request_parallelism(body),
            key_length(length as nat),
        )
    }
}

/// What a request is answered, by the fields of its JSON body: `site`, `master` (the core
/// password), `length` (48 when missing), `kdf` (PBKDF2 for `pbkdf2` in any ASCII case,
/// Argon2id otherwise), `iterations` (600000), `time_cost` (3), `memory_cost` (65536 KiB),
/// `parallelism` (4), `use_digits` and `use_symbols` (both true when missing).
/// An empty core password and a length under 8 are refused with their messages; any other
/// request gets the password made with the default symbols from `max(8 length, 64)` key
/// bytes of the chosen KDF, with exactly these costs, over the seed in lower-case hexadecimal,
/// a colon and the core password, salted with the site followed by `:passgen`.
pub proof fn lemma_request_answer(body: Seq<char>, seed: Seq<u8>)
    ensures
        ({
            let site = json_str(body, "site"@).unwrap_or(Seq::empty());
            let core = json_str(body, "master"@).unwrap_or(Seq::empty());
            let length: usize = match json_num(body, "length"@) {
                Some(n) => n as usize,
                None => 48,
            };
            let iterations: u32 = match json_num(body, "iterations"@) {
                Some(n) => n as u32,
                None => 600000,
            };
            let time_cost: u32 = match json_num(body, "time_cost"@) {
                Some(n) => n as u32,
                None => 3,
            };
            let memory_cost: u32 = match json_num(body, "memory_cost"@) {
                Some(n) => n as u32,
                None => 65536,
            };
            let parallelism: u32 = match json_num(body, "parallelism"@) {
                Some(n) => n as u32,
                None => 4,
            };
            let use_digits = json_bool(body, "use_digits"@).unwrap_or(true);
            let use_symbols = json_bool(body, "use_symbols"@).unwrap_or(true);
            let pbkdf2 = json_str(body, "kdf"@) matches Some(k) && eq_ignore_ascii_case(k, "pbkdf2"@);
            let klen: nat = if 8 * length >= 64 {
                (8 * length) as nat
            } else {
                64
            };
            let password = hex_text(seed) + seq![':'] + core;
            let salt = site + ":passgen"@;
            let key = if pbkdf2 {
                pbkdf2_hmac_sha256(password, salt, iterations, klen)
            } else {
                argon2id_v13(password, salt, time_cost, memory_cost, parallelism, klen)
            };
            &&& core.len() == 0 ==> response_text(body, seed) == EMPTY_CORE_RESPONSE@
            &&& (core.len() > 0 && length < 8) ==> response_text(body, seed) == SHORT_LENGTH_RESPONSE@
            &&& (core.len() > 0 && length >= 8) ==> response_text(body, seed) == "{\"password\":\""@
                + decode_utf8(password_bytes(key, length as nat, use_digits, use_symbols, default_symbol_set()))
                + "\"}"@
        }),
{
    reveal_strlit(":passgen");
    reveal_strlit("pbkdf2");
    reveal_strlit("argon2id");
    assert(SALT_SUFFIX@ == ":passgen"@);
    if !(json_str(body, "kdf"@) matches Some(k2) && eq_ignore_ascii_case(k2, "pbkdf2"@)) {
        if json_str(body, "kdf"@) is None {
            assert(!eq_ignore_ascii_case("argon2id"@, "pbkdf2"@));
            assert(eq_ignore_ascii_case("argon2id"@, "argon2id"@));
        }
        assert(request_kdf(body) == KdfAlgorithm::Argon2id);
    } else {
        assert(request_kdf(body) == KdfAlgorithm::Pbkdf2);
    }
}

/// The fields of a request body, with the defaults for missing fields applied.
pub struct RequestFields {
    pub site: String,
    pub core: String,
    pub length: usize,
    pub kdf: KdfAlgorithm,
    pub pbkdf2_iterations: u32,
    pub argon2_time_cost: u32,
    pub argon2_memory_cost: u32,
    pub argon2_parallelism: u32,
    pub use_digits: bool,
    pub use_symbols: bool,
}

/// Reads the fields of a request body.
pub fn read_request(body: &str) -> (f: RequestFields)
    ensures
        f.site@ == request_site(body@),
        f.core@ == request_core(body@),
        f.length == request_length(body@),
        f.kdf == request_kdf(body@),
        f.pbkdf2_iterations == request_iterations(body@),
        f.argon2_time_cost == request_time_cost(body@),
        f.argon2_memory_cost == request_memory_cost(body@),
        f.argon2_parallelism == request_parallelism(body@),
        f.use_digits == request_use_digits(body@),
        f.use_symbols == request_use_symbols(body@),
{
    let site = extract_json_str(body, "site").unwrap_or(String::new());
    let core = extract_json_str(body, "master").unwrap_or(String::new());
    let length = extract_json_num(body, "length").unwrap_or(DEFAULT_LENGTH as u64) as usize;
    let kdf_str = extract_json_str(body, "kdf").unwrap_or(String::from_str("argon2id"));
    let kdf = KdfAlgorithm::from_name(kdf_str.as_str()).unwrap_or(KdfAlgorithm::Argon2id);
    let pbkdf2_iterations = extract_json_num(body, "iterations").unwrap_or(DEFAULT_ITERATIONS as u64) as u32;
    let argon2_time_cost = extract_json_num(body, "time_cost").unwrap_or(DEFAULT_ARGON2_TIME_COST as u64) as u32;
    let argon2_memory_cost = extract_json_num(body, "memory_cost").unwrap_or(DEFAULT_ARGON2_MEMORY_COST_KIB as u64) as u32;
    let argon2_parallelism = extract_json_num(body, "parallelism").unwrap_or(DEFAULT_ARGON2_PARALLELISM as u64) as u32;
    let use_digits = extract_json_bool(body, "use_digits").unwrap_or(true);
    let use_symbols = extract_json_bool(body, "use_symbols").unwrap_or(true);
    RequestFields {
        site,
        core,
        length,
        kdf,
        pbkdf2_iterations,
        argon2_time_cost,
        argon2_memory_cost,
        argon2_parallelism,
        use_digits,
        use_symbols,
    }
}

/// Answers a password request from the browser UI: reads the site, core password, length,
/// KDF, costs and character-class flags from the JSON body (with defaults for missing
/// fields), refuses an empty core password or a length under the minimum, and otherwise
/// returns the generated password (with the default symbol set) as JSON.
pub fn parse_and_generate(body: &str, seed: &[u8]) -> (res: String)
    requires
        request_supported(body@, seed@),
    ensures
        res@ == response_text(body@, seed@),
{
    let f = read_request(body);
    if f.core.as_str().is_empty() {
        return String::from_str(EMPTY_CORE_RESPONSE);
    }
    if f.length < MIN_PASSWORD_LENGTH {
        return String::from_str(SHORT_LENGTH_RESPONSE);
    }
    let opts = GenerateOptions {
        length: f.length,
        kdf: f.kdf,
        pbkdf2_iterations: f.pbkdf2_iterations,
        argon2_time_cost: f.argon2_time_cost,
        argon2_memory_cost: f.argon2_memory_cost,
        argon2_parallelism: f.argon2_parallelism,
        use_digits: f.use_digits,
        use_symbols: f.use_symbols,
        symbols: symbol_bytes(),
    };
    let password = generate_password(f.core.as_str(), f.site.as_str(), seed, &opts);
    let mut res = String::from_str("{\"password\":\"");
    res.append(password.as_str());
    res.append("\"}");
    res
}

/// Can `parse_and_generate` answer this request body with this seed? The requests it
/// cannot answer are those the server would fail on: a key length that overflows, or
/// Argon2id costs or lengths that the algorithm refuses.
pub fn request_is_supported(body: &str, seed: &[u8]) -> (ok: bool)
    ensures
        ok == request_supported(body@, seed@),
{
    let f = read_request(body);
    if f.core.as_str().is_empty() || f.length < MIN_PASSWORD_LENGTH {
        return true;
    }
    let opts = GenerateOptions {
        length: f.length,
        kdf: f.kdf,
        pbkdf2_iterations: f.pbkdf2_iterations,
        argon2_time_cost: f.argon2_time_cost,
        argon2_memory_cost: f.argon2_memory_cost,
        argon2_parallelism: f.argon2_parallelism,
        use_digits: f.use_digits,
        use_symbols: f.use_symbols,
        symbols: symbol_bytes(),
    };
    options_supported(f.core.as_str(), f.site.as_str(), seed, &opts)
}

// ============================================================
// Browser start-up
// ============================================================

/// Does `text` contain `word` when ASCII letters are compared without case?
pub open spec fn contains_ignore_ascii_case(text: Seq<char>, word: Seq<char>) -> bool {
    exists|i: int| 0 <= i && i + word.len() <= text.len() && eq_ignore_ascii_case(#[trigger] text.subrange(i, i + word.len()), word)
}

/// Does the kernel version text (`/proc/version`) show Windows Subsystem for Linux, i.e.
/// does it contain "microsoft" in any letter case? (Lower-casing by Unicode rules, as the
/// text is lower-cased before the search, can give these ASCII letters only from ASCII
/// letters: the only other characters that lower-case to ASCII are U+0130, which gives
/// "i" followed by a combining dot, and U+212A, which gives "k".)
pub fn is_wsl_version(text: &str) -> (r: bool)
    ensures
        r == contains_ignore_ascii_case(text@, "microsoft"@),
{
    let chars = chars_of(text);
    let word = chars_of("microsoft");
    let n = word.len();
    if chars.len() < n {
        assert forall|i: int| 0 <= i && i + word@.len() <= chars@.len() implies !eq_ignore_ascii_case(
            #[trigger] chars@.subrange(i, i + word@.len()),
            word@,
        ) by {}
        return false;
    }
    let clen = chars.len();
    let last = clen - n;
    let mut i: usize = 0;
    while i <= last
        invariant
            n == word@.len(),
            last + n == chars@.len(),
            clen == chars@.len(),
            chars@ == text@,
            word@ == "microsoft"@,
            forall|k: int| 0 <= k < i ==> !eq_ignore_ascii_case(#[trigger] chars@.subrange(k, k + n), word@),
        decreases last + 1 - i,
    {
        let mut piece: Vec<char> = Vec::new();
        let mut j: usize = 0;
        while j < n
            invariant
                j <= n,
                i <= last,
                last + n == chars@.len(),
                clen == chars@.len(),
                piece@ == chars@.subrange(i as int, i + j),
            decreases n - j,
        {
            piece.push(chars[i + j]);
            j += 1;
            assert(piece@ =~= chars@.subrange(i as int, i + j));
        }
        if chars_eq_ignore_ascii_case(&piece, &word) {
            return true;
        }
        if i == last {
            return false;
        }
        i += 1;
    }
    false
}

// ============================================================
// Request routing
// ============================================================

/// HTTP methods the server tells apart.
#[derive(Clone, Copy, Debug, PartialEq, Eq, Structural)]
pub enum HttpMethod {
    Get,
    Post,
    Options,
    Other,
}

/// What the server does with a request.
#[derive(Clone, Copy, Debug, PartialEq, Eq, Structural)]
pub enum Route {
    /// Serve the UI page.
    Page,
    /// Answer a password request.
    Generate,
    /// Answer, then stop the server.
    Shutdown,
    /// Answer a CORS preflight.
    Preflight,
    /// Answer 404.
    NotFound,
}

pub open spec fn route_of(method: HttpMethod, path: Seq<char>) -> Route {
    if method == HttpMethod::Get && path == "/"@ {
        Route::Page
    } else if method == HttpMethod::Post && path == "/generate"@ {
        Route::Generate
    } else if method == HttpMethod::Post && path == "/shutdown"@ {
        Route::Shutdown
    } else if method == HttpMethod::Options {
        Route::Preflight
    } else {
        Route::NotFound
    }
}

/// Chooses how to answer a request with `method` for `path`.
pub fn route_request(method: HttpMethod, path: &str) -> (r: Route)
    ensures
        r == route_of(method, path@),
{
    if method == HttpMethod::Get && str_equals(path, "/") {
        Route::Page
    } else if method == HttpMethod::Post && str_equals(path, "/generate") {
        Route::Generate
    } else if method == HttpMethod::Post && str_equals(path, "/shutdown") {
        Route::Shutdown
    } else if method == HttpMethod::Options {
        Route::Preflight
    } else {
        Route::NotFound
    }
}

} // verus!
