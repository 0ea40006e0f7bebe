use vstd::prelude::*;
use vstd::utf8::*;

use crate::config::{KEY_LENGTH_MIN, KEY_LENGTH_MULTIPLIER, SALT_SUFFIX};
use crate::text::{
    chars_eq_ignore_ascii_case, chars_of, eq_ignore_ascii_case, is_ascii_bytes, lemma_ascii_bytes_utf8,
    lemma_encode_utf8_concat, utf8_bytes_to_string, utf8_string,
};
use crate::trusted::{argon2_inputs_ok, argon2id_fill, argon2id_v13, pbkdf2_hmac_sha256, pbkdf2_sha256_fill};
use vstd::string::StringExecFns;

verus! {

broadcast use vstd::string::group_string_axioms;

// ============================================================
// Key derivation algorithms
// ============================================================

/// The key derivation function. Argon2id is the default for new passwords; PBKDF2 is kept
/// to reproduce passwords made by earlier versions.
#[derive(Clone, Copy, Debug, PartialEq, Eq, Structural)]
pub enum KdfAlgorithm {
    Pbkdf2,
    Argon2id,
}

pub open spec fn kdf_name(kdf: KdfAlgorithm) -> Seq<char> {
    match kdf {
        KdfAlgorithm::Pbkdf2 => "pbkdf2"@,
        KdfAlgorithm::Argon2id => "argon2id"@,
    }
}

/// The algorithm a name selects, compared without regard to ASCII case (as the `kdf` field
/// of a request is read).
pub open spec fn kdf_from_name(s: Seq<char>) -> Option<KdfAlgorithm> {
    if eq_ignore_ascii_case(s, "pbkdf2"@) {
        Some(KdfAlgorithm::Pbkdf2)
    } else if eq_ignore_ascii_case(s, "argon2id"@) {
        Some(KdfAlgorithm::Argon2id)
    } else {
        None
    }
}

impl KdfAlgorithm {
    /// The algorithm named `s`, ignoring ASCII case; `None` for any other name.
    pub fn from_name(s: &str) -> (r: Option<KdfAlgorithm>)
        ensures
            r == kdf_from_name(s@),
    {
        let chars = chars_of(s);
        if chars_eq_ignore_ascii_case(&chars, &chars_of("pbkdf2")) {
            Some(KdfAlgorithm::Pbkdf2)
        } else if chars_eq_ignore_ascii_case(&chars, &chars_of("argon2id")) {
            Some(KdfAlgorithm::Argon2id)
        } else {
            None
        }
    }

    /// The name under which the algorithm is shown and selected.
    pub fn name(&self) -> (s: &'static str)
        ensures
            s@ == kdf_name(*self),
    {
        match self {
            KdfAlgorithm::Pbkdf2 => "pbkdf2",
            KdfAlgorithm::Argon2id => "argon2id",
        }
    }
}

// ============================================================
// Character sets
// ============================================================

/// Upper-case letters.
pub const UPPERCASE: &'static str = "ABCDEFGHIJKLMNOPQRSTUVWXYZ";

/// Lower-case letters.
pub const LOWERCASE: &'static str = "abcdefghijklmnopqrstuvwxyz";

/// Decimal digits.
pub const DIGITS: &'static str = "0123456789";

/// The default symbol set.
pub const SYMBOLS: &'static str = "!@#$%^&*()-_=+[]{}|;:,.<>?";

/// Offsets into the derived key used when a required digit has to be inserted.
pub const ENSURE_DIGITS_POS_OFFSET: usize = 2;
pub const ENSURE_DIGITS_CHAR_OFFSET: usize = 3;

/// Offsets into the derived key used when a required symbol has to be inserted.
pub const ENSURE_SYMBOLS_POS_OFFSET: usize = 3;
pub const ENSURE_SYMBOLS_CHAR_OFFSET: usize = 4;

pub open spec fn upper_set() -> Seq<u8> {
    Seq::new(26, |i: int| (65 + i) as u8)
}

pub open spec fn lower_set() -> Seq<u8> {
    Seq::new(26, |i: int| (97 + i) as u8)
}

pub open spec fn digit_set() -> Seq<u8> {
    Seq::new(10, |i: int| (48 + i) as u8)
}

/// The bytes of `SYMBOLS`, in order.
pub open spec fn default_symbol_set() -> Seq<u8> {
    seq![
        33u8, 64u8, 35u8, 36u8, 37u8, 94u8, 38u8, 42u8, 40u8, 41u8, 45u8, 95u8, 61u8,
        43u8, 91u8, 93u8, 123u8, 125u8, 124u8, 59u8, 58u8, 44u8, 46u8, 60u8, 62u8, 63u8,
    ]
}

/// The bytes of `UPPERCASE`.
pub fn uppercase_bytes() -> (r: &'static [u8])
    ensures
        r@ == upper_set(),
{
    proof {
        reveal_strlit("ABCDEFGHIJKLMNOPQRSTUVWXYZ");
    }
    let r = UPPERCASE.as_bytes();
    assert(UPPERCASE.is_ascii());
    assert(r@ =~= upper_set());
    r
}

/// The bytes of `LOWERCASE`.
pub fn lowercase_bytes() -> (r: &'static [u8])
    ensures
        r@ == lower_set(),
{
    proof {
        reveal_strlit("abcdefghijklmnopqrstuvwxyz");
    }
    let r = LOWERCASE.as_bytes();
    assert(LOWERCASE.is_ascii());
    assert(r@ =~= lower_set());
    r
}

/// The bytes of `DIGITS`.
pub fn digit_bytes() -> (r: &'static [u8])
    ensures
        r@ == digit_set(),
{
    proof {
        reveal_strlit("0123456789");
    }
    let r = DIGITS.as_bytes();
    assert(DIGITS.is_ascii());
    assert(r@ =~= digit_set());
    r
}

/// The bytes of `SYMBOLS`.
pub fn symbol_bytes() -> (r: &'static [u8])
    ensures
        r@ == default_symbol_set(),
        is_ascii_bytes(r@),
{
    proof {
        reveal_strlit("!@#$%^&*()-_=+[]{}|;:,.<>?");
    }
    let r = SYMBOLS.as_bytes();
    assert(SYMBOLS.is_ascii());
    assert(r@ =~= default_symbol_set());
    r
}

// ============================================================
// The password model
// ============================================================

/// The characters a password draws from: letters, then digits and symbols when enabled.
pub open spec fn alphabet(use_digits: bool, use_symbols: bool, symbols: Seq<u8>) -> Seq<u8> {
    upper_set() + lower_set() + (if use_digits {
        digit_set()
    } else {
        Seq::empty()
    }) + (if use_symbols {
        symbols
    } else {
        Seq::empty()
    })
}

/// Number of 8-byte chunks (the last one possibly short) in a key of `klen` bytes.
pub open spec fn chunk_count(klen: int) -> int {
    (klen + 7) / 8
}

pub open spec fn byte_or_zero(key: Seq<u8>, idx: int) -> u8 {
    if 0 <= idx < key.len() {
        key[idx]
    } else {
        0
    }
}

/// Big-endian value of a byte sequence.
pub open spec fn be_value(s: Seq<u8>) -> nat
    decreases s.len(),
{
    if s.len() == 0 {
        0
    } else {
        be_value(s.drop_last()) * 256 + s.last() as nat
    }
}

/// Chunk `j` of the key, padded on the right with zeros to eight bytes.
pub open spec fn padded_chunk(key: Seq<u8>, j: int) -> Seq<u8> {
    Seq::new(8, |t: int| byte_or_zero(key, 8 * j + t))
}

/// The big-endian `u64` read from chunk `j` of the key.
pub open spec fn chunk_value(key: Seq<u8>, j: int) -> u64 {
    be_value(padded_chunk(key, j)) as u64
}

/// Character `i` of the password before the character-class guarantees are applied:
/// one character per key chunk, then characters picked by single key bytes.
pub open spec fn base_char(key: Seq<u8>, alpha: Seq<u8>, i: int) -> u8 {
    if i < chunk_count(key.len() as int) {
        alpha[(chunk_value(key, i) as usize) as int % alpha.len() as int]
    } else {
        alpha[key[i % key.len() as int] as int % alpha.len() as int]
    }
}

pub open spec fn base_password(key: Seq<u8>, alpha: Seq<u8>, length: nat) -> Seq<u8> {
    Seq::new(length, |i: int| base_char(key, alpha, i))
}

/// Does some byte of `raw` belong to `set`?
pub open spec fn has_any(raw: Seq<u8>, set: Seq<u8>) -> bool {
    exists|i: int| 0 <= i < raw.len() && set.contains(#[trigger] raw[i])
}

/// Position chosen by the key when a character class is missing.
pub open spec fn fixup_position(key: Seq<u8>, pos_off: int, length: int) -> int {
    key[pos_off % key.len() as int] as int % length
}

/// Character chosen by the key when a character class is missing.
pub open spec fn fixup_char(key: Seq<u8>, set: Seq<u8>, char_off: int) -> u8 {
    set[key[char_off % key.len() as int] as int % set.len() as int]
}

/// Leaves `raw` alone when it already holds a byte of `set`; otherwise overwrites one
/// position chosen by the key with a character of `set` chosen by the key.
pub open spec fn ensure_class(raw: Seq<u8>, key: Seq<u8>, set: Seq<u8>, pos_off: int, char_off: int) -> Seq<u8> {
    if has_any(raw, set) {
        raw
    } else {
        raw.update(
            fixup_position(key, pos_off, raw.len() as int),
            fixup_char(key, set, char_off),
        )
    }
}

/// The password after the digit guarantee.
pub open spec fn after_digits(key: Seq<u8>, length: nat, use_digits: bool, use_symbols: bool, symbols: Seq<u8>) -> Seq<u8> {
    let raw = base_password(key, alphabet(use_digits, use_symbols, symbols), length);
    if use_digits {
        ensure_class(raw, key, digit_set(), 2, 3)
    } else {
        raw
    }
}

/// Would the symbol guarantee, writing at the position the key picks, erase the only digit
/// of `r1` (the password after the digit guarantee) with a character that is not a digit?
pub open spec fn symbol_fixup_erases_digit(
    r1: Seq<u8>,
    key: Seq<u8>,
    use_digits: bool,
    symbols: Seq<u8>,
) -> bool {
    let p = fixup_position(key, 3, r1.len() as int);
    &&& use_digits
    &&& digit_set().contains(r1[p])
    &&& !digit_set().contains(fixup_char(key, symbols, 4))
    &&& forall|i: int| 0 <= i < r1.len() && digit_set().contains(#[trigger] r1[i]) ==> i == p
}

/// Where the symbol guarantee writes: the position the key picks, or the next one (cyclically)
/// when writing there would erase the only digit.
pub open spec fn symbol_position(r1: Seq<u8>, key: Seq<u8>, use_digits: bool, symbols: Seq<u8>) -> int {
    let p = fixup_position(key, 3, r1.len() as int);
    if symbol_fixup_erases_digit(r1, key, use_digits, symbols) {
        (p + 1) % r1.len() as int
    } else {
        p
    }
}

/// The bytes of the password that `bytes_to_password` produces.
pub open spec fn password_bytes(key: Seq<u8>, length: nat, use_digits: bool, use_symbols: bool, symbols: Seq<u8>) -> Seq<u8> {
    let r1 = after_digits(key, length, use_digits, use_symbols, symbols);
    if use_symbols && !has_any(r1, symbols) {
        r1.update(symbol_position(r1, key, use_digits, symbols), fixup_char(key, symbols, 4))
    } else {
        r1
    }
}

/// The inputs on which converting key bytes to a password is defined.
pub open spec fn password_inputs_ok(key: Seq<u8>, length: nat, use_digits: bool, use_symbols: bool, symbols: Seq<u8>) -> bool {
    &&& (key.len() > 0 || length == 0)
    &&& (use_digits || use_symbols) ==> (key.len() > 0 && length > 0)
    &&& use_symbols ==> symbols.len() > 0
    &&& use_symbols ==> symbols.len() + 62 <= usize::MAX
}

// ============================================================
// Lemmas
// ============================================================

pub open spec fn pow256(n: nat) -> nat
    decreases n,
{
    if n == 0 {
        1
    } else {
        256 * pow256((n - 1) as nat)
    }
}

proof fn lemma_pow256_mono(a: nat, b: nat)
    requires
        a <= b,
    ensures
        pow256(a) <= pow256(b),
    decreases b,
{
    if a < b {
        lemma_pow256_mono(a, (b - 1) as nat);
    }
}

proof fn lemma_pow256_8()
    ensures
        pow256(8) == 0x1_0000_0000_0000_0000,
{
    reveal_with_fuel(pow256, 9);
}

proof fn lemma_alphabet_members(use_digits: bool, use_symbols: bool, symbols: Seq<u8>)
    ensures
        use_digits ==> forall|b: u8| digit_set().contains(b) ==> alphabet(use_digits, use_symbols, symbols).contains(b),
        use_symbols ==> forall|b: u8| symbols.contains(b) ==> alphabet(use_digits, use_symbols, symbols).contains(b),
        alphabet(use_digits, use_symbols, symbols).len() >= 52,
{
    let a = alphabet(use_digits, use_symbols, symbols);
    let d = if use_digits { digit_set() } else { Seq::<u8>::empty() };
    let front = upper_set() + lower_set() + d;
    if use_digits {
        assert forall|b: u8| digit_set().contains(b) implies a.contains(b) by {
            let k = choose|k: int| 0 <= k < digit_set().len() && digit_set()[k] == b;
            assert(a[52 + k] == b);
        }
    }
    if use_symbols {
        assert forall|b: u8| symbols.contains(b) implies a.contains(b) by {
            let k = choose|k: int| 0 <= k < symbols.len() && symbols[k] == b;
            assert(a[front.len() + k] == b);
        }
    }
}

/// Every byte of a password lies in its alphabet.
proof fn lemma_password_in_alphabet(key: Seq<u8>, length: nat, use_digits: bool, use_symbols: bool, symbols: Seq<u8>)
    requires
        password_inputs_ok(key, length, use_digits, use_symbols, symbols),
    ensures
        forall|i: int| 0 <= i < length ==> alphabet(use_digits, use_symbols, symbols).contains(
            #[trigger] password_bytes(key, length, use_digits, use_symbols, symbols)[i],
        ),
        password_bytes(key, length, use_digits, use_symbols, symbols).len() == length,
{
    let alpha = alphabet(use_digits, use_symbols, symbols);
    lemma_alphabet_members(use_digits, use_symbols, symbols);
    let r0 = base_password(key, alpha, length);
    assert forall|i: int| 0 <= i < length implies alpha.contains(#[trigger] r0[i]) by {
        if i < chunk_count(key.len() as int) {
            let k = (chunk_value(key, i) as usize) as int % alpha.len() as int;
            assert(alpha[k] == r0[i]);
        } else {
            let k = key[i % key.len() as int] as int % alpha.len() as int;
            assert(alpha[k] == r0[i]);
        }
    }
    let r1 = after_digits(key, length, use_digits, use_symbols, symbols);
    if use_digits && !has_any(r0, digit_set()) {
        let c = fixup_char(key, digit_set(), 3);
        assert(digit_set().contains(c));
    }
    assert forall|i: int| 0 <= i < length implies alpha.contains(#[trigger] r1[i]) by {
        if use_digits && !has_any(r0, digit_set()) {
            let c = fixup_char(key, digit_set(), 3);
            assert(digit_set().contains(c));
        }
    }
    if use_symbols && !has_any(r1, symbols) {
        let c = fixup_char(key, symbols, 4);
        let k = key[4int % key.len() as int] as int % symbols.len() as int;
        assert(symbols[k] == c);
        assert(symbols.contains(c));
    }
    let pw = password_bytes(key, length, use_digits, use_symbols, symbols);
    assert forall|i: int| 0 <= i < length implies alpha.contains(#[trigger] pw[i]) by {
        if use_symbols && !has_any(r1, symbols) {
            let c = fixup_char(key, symbols, 4);
            let k = key[4int % key.len() as int] as int % symbols.len() as int;
            assert(symbols[k] == c);
        }
    }
}

/// After `ensure_class`, the class is present (for a non-empty password and set).
proof fn lemma_ensure_class_present(raw: Seq<u8>, key: Seq<u8>, set: Seq<u8>, pos_off: int, char_off: int)
    requires
        raw.len() > 0,
        key.len() > 0,
        set.len() > 0,
        pos_off >= 0,
        char_off >= 0,
    ensures
        has_any(ensure_class(raw, key, set, pos_off, char_off), set),
{
    if !has_any(raw, set) {
        let p = fixup_position(key, pos_off, raw.len() as int);
        let c = fixup_char(key, set, char_off);
        let k = key[char_off % key.len() as int] as int % set.len() as int;
        assert(set[k] == c);
        let r = ensure_class(raw, key, set, pos_off, char_off);
        assert(r[p] == c);
        assert(set.contains(r[p]));
    }
}

// ============================================================
// Conversion of key bytes to a password
// ============================================================

fn extend_bytes(v: &mut Vec<u8>, s: &[u8])
    ensures
        final(v)@ == old(v)@ + s@,
{
    let ghost start = v@;
    let mut i: usize = 0;
    while i < s.len()
        invariant
            i <= s.len(),
            v@ == start + s@.take(i as int),
        decreases s.len() - i,
    {
        v.push(s[i]);
        i += 1;
        assert(s@.take(i as int) =~= s@.take((i - 1) as int).push(s@[i - 1]));
    }
    assert(s@.take(i as int) =~= s@);
}

fn build_alphabet(use_digits: bool, use_symbols: bool, symbols: &[u8]) -> (a: Vec<u8>)
    ensures
        a@ == alphabet(use_digits, use_symbols, symbols@),
{
    let mut a: Vec<u8> = Vec::new();
    extend_bytes(&mut a, uppercase_bytes());
    extend_bytes(&mut a, lowercase_bytes());
    if use_digits {
        extend_bytes(&mut a, digit_bytes());
    }
    if use_symbols {
        extend_bytes(&mut a, symbols);
    }
    assert(a@ =~= alphabet(use_digits, use_symbols, symbols@));
    a
}

/// The big-endian value of chunk `j` of the key, zero-padded to eight bytes.
fn read_chunk(key: &[u8], j: usize) -> (n: u64)
    requires
        j < chunk_count(key@.len() as int),
    ensures
        n == chunk_value(key@, j as int),
{
    let klen = key.len();
    let ghost chunk = padded_chunk(key@, j as int);
    // 8 * j < klen, so 8 * j does not overflow.
    let base: usize = 8 * j;
    let mut n: u64 = 0;
    let mut t: usize = 0;
    proof {
        lemma_pow256_8();
    }
    while t < 8
        invariant
            base == 8 * j,
            base < klen,
            klen == key@.len(),
            t <= 8,
            chunk == padded_chunk(key@, j as int),
            n as nat == be_value(chunk.take(t as int)),
            (n as nat) < pow256(t as nat),
            pow256(8) == 0x1_0000_0000_0000_0000,
        decreases 8 - t,
    {
        let b: u8 = if t < klen - base {
            key[base + t]
        } else {
            0
        };
        assert(b == chunk[t as int]);
        proof {
            lemma_pow256_mono((t + 1) as nat, 8);
            assert(chunk.take(t + 1).drop_last() =~= chunk.take(t as int));
        }
        n = n * 256 + b as u64;
        t += 1;
    }
    assert(chunk.take(8) =~= chunk);
    n
}

/// Is `b` one of the bytes of `set`?
pub fn contains_byte(set: &[u8], b: u8) -> (r: bool)
    ensures
        r == set@.contains(b),
{
    let mut i: usize = 0;
    while i < set.len()
        invariant
            i <= set.len(),
            forall|k: int| 0 <= k < i ==> set@[k] != b,
        decreases set.len() - i,
    {
        if set[i] == b {
            assert(set@[i as int] == b);
            return true;
        }
        i += 1;
    }
    false
}

fn any_in_set(raw: &Vec<u8>, set: &[u8]) -> (r: bool)
    ensures
        r == has_any(raw@, set@),
{
    let mut i: usize = 0;
    while i < raw.len()
        invariant
            i <= raw.len(),
            forall|k: int| 0 <= k < i ==> !set@.contains(#[trigger] raw@[k]),
        decreases raw.len() - i,
    {
        if contains_byte(set, raw[i]) {
            return true;
        }
        i += 1;
    }
    false
}

fn ensure_class_in_place(raw: &mut Vec<u8>, key: &[u8], set: &[u8], pos_off: usize, char_off: usize)
    requires
        old(raw)@.len() > 0,
        key@.len() > 0,
        set@.len() > 0,
    ensures
        final(raw)@ == ensure_class(old(raw)@, key@, set@, pos_off as int, char_off as int),
{
    if !any_in_set(raw, set) {
        let length = raw.len();
        let pos = key[pos_off % key.len()] as usize % length;
        let ch = key[char_off % key.len()] as usize % set.len();
        raw.set(pos, set[ch]);
    }
}

/// Is `p` the only position of `raw` that may hold a digit?
fn only_digit_at(raw: &Vec<u8>, p: usize) -> (r: bool)
    ensures
        r == (forall|i: int| 0 <= i < raw@.len() && digit_set().contains(#[trigger] raw@[i]) ==> i == p),
{
    let digits = digit_bytes();
    let mut i: usize = 0;
    while i < raw.len()
        invariant
            i <= raw.len(),
            digits@ == digit_set(),
            forall|k: int| 0 <= k < i && digit_set().contains(#[trigger] raw@[k]) ==> k == p,
        decreases raw.len() - i,
    {
        if i != p && contains_byte(digits, raw[i]) {
            assert(digit_set().contains(raw@[i as int]));
            return false;
        }
        i += 1;
    }
    true
}

/// The symbol guarantee: when `raw` holds no symbol, writes the symbol the key picks at
/// `symbol_position`.
fn ensure_symbol_in_place(raw: &mut Vec<u8>, key: &[u8], use_digits: bool, symbols: &[u8])
    requires
        old(raw)@.len() > 0,
        key@.len() > 0,
        symbols@.len() > 0,
    ensures
        final(raw)@ == (if has_any(old(raw)@, symbols@) {
            old(raw)@
        } else {
            old(raw)@.update(
                symbol_position(old(raw)@, key@, use_digits, symbols@),
                fixup_char(key@, symbols@, 4),
            )
        }),
{
    if !any_in_set(raw, symbols) {
        let length = raw.len();
        let p = key[ENSURE_SYMBOLS_POS_OFFSET % key.len()] as usize % length;
        let ch = symbols[key[ENSURE_SYMBOLS_CHAR_OFFSET % key.len()] as usize % symbols.len()];
        let digits = digit_bytes();
        let erases = use_digits && contains_byte(digits, raw[p]) && !contains_byte(digits, ch)
            && only_digit_at(raw, p);
        assert(erases == symbol_fixup_erases_digit(raw@, key@, use_digits, symbols@));
        let pos = if erases {
            (p + 1) % length
        } else {
            p
        };
        raw.set(pos, ch);
    }
}

/// The bytes of the password for the key bytes (see `bytes_to_password`).
fn make_password_bytes(
    key_bytes: &[u8],
    length: usize,
    use_digits: bool,
    use_symbols: bool,
    symbols: &[u8],
) -> (raw: Vec<u8>)
    requires
        password_inputs_ok(key_bytes@, length as nat, use_digits, use_symbols, symbols@),
    ensures
        raw@ == password_bytes(key_bytes@, length as nat, use_digits, use_symbols, symbols@),
{
    let ghost key = key_bytes@;
    let ghost pw = password_bytes(key, length as nat, use_digits, use_symbols, symbols@);
    let all_chars = build_alphabet(use_digits, use_symbols, symbols);
    let ghost alpha = all_chars@;
    let total = all_chars.len();
    let klen = key_bytes.len();
    // number of chunks, computed without overflow
    let chunks: usize = klen / 8 + if klen % 8 == 0 {
        0
    } else {
        1
    };
    assert(chunks == chunk_count(klen as int));

    let mut raw: Vec<u8> = Vec::new();
    while raw.len() < length && raw.len() < chunks
        invariant
            raw.len() <= length,
            raw.len() <= chunks,
            chunks == chunk_count(klen as int),
            klen == key.len(),
            key == key_bytes@,
            alpha == all_chars@,
            total == alpha.len(),
            total >= 52,
            raw@ =~= Seq::new(raw.len() as nat, |i: int| base_char(key, alpha, i)),
        decreases length - raw.len(),
    {
        let j = raw.len();
        let n = read_chunk(key_bytes, j);
        raw.push(all_chars[(n as usize) % total]);
    }
    while raw.len() < length
        invariant
            raw.len() <= length,
            raw.len() < length ==> raw.len() >= chunks,
            chunks == chunk_count(klen as int),
            klen == key.len(),
            key == key_bytes@,
            alpha == all_chars@,
            total == alpha.len(),
            total >= 52,
            klen > 0 || length == 0,
            raw@ =~= Seq::new(raw.len() as nat, |i: int| base_char(key, alpha, i)),
        decreases length - raw.len(),
    {
        let idx = raw.len();
        let n = key_bytes[idx % klen] as usize;
        raw.push(all_chars[n % total]);
    }
    assert(raw@ =~= base_password(key, alpha, length as nat));
    if use_digits {
        ensure_class_in_place(&mut raw, key_bytes, digit_bytes(), ENSURE_DIGITS_POS_OFFSET, ENSURE_DIGITS_CHAR_OFFSET);
    }
    assert(raw@ == after_digits(key, length as nat, use_digits, use_symbols, symbols@));
    if use_symbols {
        ensure_symbol_in_place(&mut raw, key_bytes, use_digits, symbols);
    }
    assert(raw@ == pw);
    raw
}

/// Turns derived key bytes into a password of `length` characters.
///
/// Each 8-byte chunk of the key (the last one zero-padded) gives one character; when the
/// key has fewer chunks than `length`, single key bytes pick the remaining characters.
/// When digits (or symbols) are enabled but none was picked, one position chosen by the
/// key is overwritten with a digit (or symbol) chosen by the key; a symbol that would
/// overwrite the only digit goes to the next position instead, so that a password of two or
/// more characters keeps both classes. `symbols` is used only when `use_symbols` is set. The password bytes must form UTF-8 text (always the case
/// with ASCII symbols).
pub fn bytes_to_password(
    key_bytes: &[u8],
    length: usize,
    use_digits: bool,
    use_symbols: bool,
    symbols: &[u8],
) -> (res: String)
    requires
        password_inputs_ok(key_bytes@, length as nat, use_digits, use_symbols, symbols@),
        valid_utf8(password_bytes(key_bytes@, length as nat, use_digits, use_symbols, symbols@)),
    ensures
        ({
            let pw = password_bytes(key_bytes@, length as nat, use_digits, use_symbols, symbols@);
            &&& res@ == decode_utf8(pw)
            &&& pw.len() == length
            &&& forall|i: int| 0 <= i < length ==> alphabet(use_digits, use_symbols, symbols@).contains(#[trigger] pw[i])
            &&& (use_symbols && length > 0) ==> has_any(pw, symbols@)
            &&& (use_digits && length >= 2) ==> has_any(pw, digit_set())
            &&& (!use_symbols || is_ascii_bytes(symbols@)) ==> (res@.len() == length && forall|i: int|
                0 <= i < length ==> #[trigger] res@[i] == pw[i] as char)
        }),
{
    let ghost pw = password_bytes(key_bytes@, length as nat, use_digits, use_symbols, symbols@);
    let raw = make_password_bytes(key_bytes, length, use_digits, use_symbols, symbols);
    proof {
        lemma_password_in_alphabet(key_bytes@, length as nat, use_digits, use_symbols, symbols@);
        lemma_password_laws(key_bytes@, length as nat, use_digits, use_symbols, symbols@);
    }
    let res = utf8_bytes_to_string(raw);
    proof {
        if !use_symbols || is_ascii_bytes(symbols@) {
            lemma_ascii_password(key_bytes@, length as nat, use_digits, use_symbols, symbols@);
            lemma_ascii_bytes_utf8(pw);
        }
    }
    res
}

/// The character-class guarantees of `password_bytes`: a symbol when symbols are enabled,
/// and a digit when digits are enabled and the password has room for both.
proof fn lemma_password_laws(key: Seq<u8>, length: nat, use_digits: bool, use_symbols: bool, symbols: Seq<u8>)
    requires
        password_inputs_ok(key, length, use_digits, use_symbols, symbols),
    ensures
        (use_symbols && length > 0) ==> has_any(password_bytes(key, length, use_digits, use_symbols, symbols), symbols),
        (use_digits && length >= 2) ==> has_any(password_bytes(key, length, use_digits, use_symbols, symbols), digit_set()),
{
    let alpha = alphabet(use_digits, use_symbols, symbols);
    let r0 = base_password(key, alpha, length);
    let r1 = after_digits(key, length, use_digits, use_symbols, symbols);
    let pw = password_bytes(key, length, use_digits, use_symbols, symbols);
    if length > 0 {
        assert(r1.len() == length);
        if use_digits {
            lemma_ensure_class_present(r0, key, digit_set(), 2, 3);
            assert(has_any(r1, digit_set()));
        }
        if use_symbols && !has_any(r1, symbols) {
            let p = fixup_position(key, 3, length as int);
            let q = symbol_position(r1, key, use_digits, symbols);
            let c = fixup_char(key, symbols, 4);
            let k = key[4int % key.len() as int] as int % symbols.len() as int;
            assert(symbols[k] == c);
            assert(0 <= p < length);
            let erases = symbol_fixup_erases_digit(r1, key, use_digits, symbols);
            if erases {
                if p + 1 < length {
                    vstd::arithmetic::div_mod::lemma_small_mod((p + 1) as nat, length);
                } else {
                    vstd::arithmetic::div_mod::lemma_mod_self_0(length as int);
                }
                assert(0 <= q < length);
            }
            assert(pw == r1.update(q, c));
            assert(pw[q] == c);
            assert(symbols.contains(pw[q]));
            if use_digits && length >= 2 {
                if erases {
                    assert(q != p);
                    assert(pw[p] == r1[p]);
                    assert(digit_set().contains(pw[p]));
                } else if digit_set().contains(c) {
                    assert(digit_set().contains(pw[q]));
                } else if !digit_set().contains(r1[p]) {
                    let i = choose|i: int| 0 <= i < r1.len() && digit_set().contains(#[trigger] r1[i]);
                    assert(i != p);
                    assert(pw[i] == r1[i]);
                    assert(digit_set().contains(pw[i]));
                } else {
                    let i = choose|i: int|
                        0 <= i < r1.len() && digit_set().contains(#[trigger] r1[i]) && i != p;
                    assert(pw[i] == r1[i]);
                    assert(digit_set().contains(pw[i]));
                }
            }
        }
    }
}

/// A password made without symbols does not depend on the symbol set passed in.
pub proof fn lemma_symbols_unused_without_symbols(
    key: Seq<u8>,
    length: nat,
    use_digits: bool,
    symbols1: Seq<u8>,
    symbols2: Seq<u8>,
)
    ensures
        password_bytes(key, length, use_digits, false, symbols1) == password_bytes(key, length, use_digits, false, symbols2),
{
    assert(alphabet(use_digits, false, symbols1) =~= alphabet(use_digits, false, symbols2));
}

/// The same core password, site, seed and options always give the same password:
/// nothing but these inputs enters the result.
pub proof fn lemma_generation_deterministic(
    core: Seq<char>,
    site: Seq<char>,
    seed: Seq<u8>,
    a: GenerateOptions,
    b: GenerateOptions,
)
    requires
        a.length == b.length,
        a.kdf == b.kdf,
        a.pbkdf2_iterations == b.pbkdf2_iterations,
        a.argon2_time_cost == b.argon2_time_cost,
        a.argon2_memory_cost == b.argon2_memory_cost,
        a.argon2_parallelism == b.argon2_parallelism,
        a.use_digits == b.use_digits,
        a.use_symbols == b.use_symbols,
        a.symbols@ == b.symbols@,
    ensures
        generated_bytes(core, site, seed, a) == generated_bytes(core, site, seed, b),
{
}

/// When every symbol is ASCII, so is every byte of the password.
pub proof fn lemma_ascii_password(key: Seq<u8>, length: nat, use_digits: bool, use_symbols: bool, symbols: Seq<u8>)
    requires
        password_inputs_ok(key, length, use_digits, use_symbols, symbols),
        !use_symbols || is_ascii_bytes(symbols),
    ensures
        is_ascii_bytes(password_bytes(key, length, use_digits, use_symbols, symbols)),
{
    lemma_password_in_alphabet(key, length, use_digits, use_symbols, symbols);
    let alpha = alphabet(use_digits, use_symbols, symbols);
    let pw = password_bytes(key, length, use_digits, use_symbols, symbols);
    assert(is_ascii_bytes(alpha)) by {
        assert forall|i: int| 0 <= i < alpha.len() implies #[trigger] alpha[i] < 128 by {
            if i >= 52 + (if use_digits { 10int } else { 0int }) {
                let k = i - 52 - (if use_digits { 10int } else { 0int });
                assert(alpha[i] == symbols[k]);
            }
        }
    }
    assert forall|i: int| 0 <= i < pw.len() implies #[trigger] pw[i] < 128 by {
        let k = choose|k: int| 0 <= k < alpha.len() && alpha[k] == pw[i];
    }
}

// ============================================================
// Core text, key derivation and password generation
// ============================================================

/// Lower-case hexadecimal digit for `n` in `0..16`.
pub open spec fn hex_char(n: int) -> char {
    if n < 10 {
        (48 + n) as char
    } else {
        (87 + n) as char
    }
}

/// Two lower-case hexadecimal digits per byte of `seed`.
pub open spec fn hex_text(seed: Seq<u8>) -> Seq<char> {
    Seq::new(
        2 * seed.len(),
        |k: int|
            if k % 2 == 0 {
                hex_char(seed[k / 2] as int / 16)
            } else {
                hex_char(seed[k / 2] as int % 16)
            },
    )
}

/// The KDF password: the seed in hexadecimal, a colon, then the core password.
pub open spec fn core_text(core: Seq<char>, seed: Seq<u8>) -> Seq<char> {
    hex_text(seed) + seq![':'] + core
}

/// Hexadecimal digits are never a colon, and different values have different digits.
proof fn lemma_hex_char(n: int, m: int)
    requires
        0 <= n < 16,
        0 <= m < 16,
    ensures
        hex_char(n) != ':',
        hex_char(n) == hex_char(m) ==> n == m,
{
    assert(hex_char(n) as int == if n < 10 { 48 + n } else { 87 + n });
    assert(hex_char(m) as int == if m < 10 { 48 + m } else { 87 + m });
}

/// The KDF password determines the core password and the seed: different cores or seeds
/// never give the same KDF password.
pub proof fn lemma_core_text_injective(c1: Seq<char>, s1: Seq<u8>, c2: Seq<char>, s2: Seq<u8>)
    requires
        core_text(c1, s1) == core_text(c2, s2),
    ensures
        c1 == c2,
        s1 == s2,
{
    let t1 = core_text(c1, s1);
    let t2 = core_text(c2, s2);
    if s1.len() != s2.len() {
        let (short, long) = if s1.len() < s2.len() { (s1, s2) } else { (s2, s1) };
        let k: int = 2 * short.len() as int;
        let ts = core_text(if s1.len() < s2.len() { c1 } else { c2 }, short);
        let tl = core_text(if s1.len() < s2.len() { c2 } else { c1 }, long);
        assert(ts == tl);
        assert(ts[k] == ':');
        assert(tl[k] == hex_text(long)[k]);
        let b = long[k / 2] as int;
        if k % 2 == 0 {
            lemma_hex_char(b / 16, 0);
        } else {
            lemma_hex_char(b % 16, 0);
        }
        assert(false);
    }
    let n = s1.len() as int;
    assert forall|i: int| 0 <= i < n implies s1[i] == s2[i] by {
        let b1 = s1[i] as int;
        let b2 = s2[i] as int;
        assert(t1[2 * i] == hex_text(s1)[2 * i]);
        assert(t2[2 * i] == hex_text(s2)[2 * i]);
        assert(t1[2 * i + 1] == hex_text(s1)[2 * i + 1]);
        assert(t2[2 * i + 1] == hex_text(s2)[2 * i + 1]);
        assert((2 * i) / 2 == i && (2 * i) % 2 == 0);
        assert((2 * i + 1) / 2 == i && (2 * i + 1) % 2 == 1);
        lemma_hex_char(b1 / 16, b2 / 16);
        lemma_hex_char(b1 % 16, b2 % 16);
    }
    assert(s1 =~= s2);
    assert(c1 =~= t1.subrange(2 * n + 1, t1.len() as int));
    assert(c2 =~= t2.subrange(2 * n + 1, t2.len() as int));
}

fn hex_byte(n: u8) -> (b: u8)
    requires
        n < 16,
    ensures
        b < 128,
        b as char == hex_char(n as int),
{
    if n < 10 {
        48 + n
    } else {
        87 + n
    }
}

/// Joins the seed, written as lower-case hexadecimal, and the core password with a colon.
pub fn build_core(core: &str, seed: &[u8]) -> (res: String)
    ensures
        res@ == core_text(core@, seed@),
{
    let mut bytes: Vec<u8> = Vec::new();
    let mut i: usize = 0;
    while i < seed.len()
        invariant
            i <= seed.len(),
            bytes@.len() == 2 * i,
            is_ascii_bytes(bytes@),
            forall|k: int| 0 <= k < 2 * i ==> #[trigger] (bytes@[k] as char) == hex_text(seed@)[k],
        decreases seed.len() - i,
    {
        let b = seed[i];
        bytes.push(hex_byte(b / 16));
        bytes.push(hex_byte(b % 16));
        i += 1;
    }
    bytes.push(58u8);
    proof {
        lemma_ascii_bytes_utf8(bytes@);
        assert(Seq::new(bytes@.len(), |k: int| bytes@[k] as char) =~= hex_text(seed@) + seq![':']);
    }
    let mut res = utf8_bytes_to_string(bytes);
    res.append(core);
    assert(res@ =~= core_text(core@, seed@));
    res
}

/// PBKDF2-HMAC-SHA256 of `core` with `salt` and `iterations` rounds, `key_len` bytes long.
pub fn derive_key(core: &str, salt: &str, iterations: u32, key_len: usize) -> (key: Vec<u8>)
    ensures
        key@ == pbkdf2_hmac_sha256(core@, salt@, iterations, key_len as nat),
        key@.len() == key_len,
{
    let mut key: Vec<u8> = vec![0u8; key_len];
    let _ok = pbkdf2_sha256_fill(core, salt, iterations, &mut key);
    key
}

/// Argon2id (version 0x13) of `core` with `salt`, `key_len` bytes long. `memory_cost` is
/// in KiB.
pub fn derive_key_argon2id(
    core: &str,
    salt: &str,
    time_cost: u32,
    memory_cost: u32,
    parallelism: u32,
    key_len: usize,
) -> (key: Vec<u8>)
    requires
        argon2_inputs_ok(
            encode_utf8(core@).len(),
            encode_utf8(salt@).len(),
            time_cost,
            memory_cost,
            parallelism,
            key_len as nat,
        ),
    ensures
        key@ == argon2id_v13(core@, salt@, time_cost, memory_cost, parallelism, key_len as nat),
        key@.len() == key_len,
{
    let mut key: Vec<u8> = vec![0u8; key_len];
    let _ok = argon2id_fill(core, salt, time_cost, memory_cost, parallelism, &mut key);
    key
}

/// The options of a password generation, apart from the core password, site and seed.
pub struct GenerateOptions<'a> {
    pub length: usize,
    pub kdf: KdfAlgorithm,
    /// PBKDF2 iterations (used with `KdfAlgorithm::Pbkdf2` only).
    pub pbkdf2_iterations: u32,
    /// Argon2id time cost (used with `KdfAlgorithm::Argon2id` only).
    pub argon2_time_cost: u32,
    /// Argon2id memory cost in KiB (used with `KdfAlgorithm::Argon2id` only).
    pub argon2_memory_cost: u32,
    /// Argon2id parallelism (used with `KdfAlgorithm::Argon2id` only).
    pub argon2_parallelism: u32,
    pub use_digits: bool,
    pub use_symbols: bool,
    pub symbols: &'a [u8],
}

/// Number of key bytes derived for a password of `length` characters.
pub open spec fn key_length(length: nat) -> nat {
    if length * 8 >= 64 {
        length * 8
    } else {
        64
    }
}

/// The salt: the site name followed by `SALT_SUFFIX`.
pub open spec fn salt_text(site: Seq<char>) -> Seq<char> {
    site + SALT_SUFFIX@
}

/// The key derived for `core`, `site` and `seed` with the given KDF and costs, for a
/// password of `length` characters.
pub open spec fn derived_key_for(
    core: Seq<char>,
    site: Seq<char>,
    seed: Seq<u8>,
    kdf: KdfAlgorithm,
    iterations: u32,
    time_cost: u32,
    memory_cost: u32,
    parallelism: u32,
    length: nat,
) -> Seq<u8> {
    match kdf {
        KdfAlgorithm::Pbkdf2 => pbkdf2_hmac_sha256(
            core_text(core, seed),
            salt_text(site),
            iterations,
            key_length(length),
        ),
        KdfAlgorithm::Argon2id => argon2id_v13(
            core_text(core, seed),
            salt_text(site),
            time_cost,
            memory_cost,
            parallelism,
            key_length(length),
        ),
    }
}

/// The key derived for `core`, `site` and `seed` under the options.
pub open spec fn derived_key(core: Seq<char>, site: Seq<char>, seed: Seq<u8>, opts: GenerateOptions) -> Seq<u8> {
    derived_key_for(
        core,
        site,
        seed,
        opts.kdf,
        opts.pbkdf2_iterations,
        opts.argon2_time_cost,
        opts.argon2_memory_cost,
        opts.argon2_parallelism,
        opts.length as nat,
    )
}

/// The password bytes generated for `core`, `site` and `seed` under the options.
pub open spec fn generated_bytes(core: Seq<char>, site: Seq<char>, seed: Seq<u8>, opts: GenerateOptions) -> Seq<u8> {
    password_bytes(
        derived_key(core, site, seed, opts),
        opts.length as nat,
        opts.use_digits,
        opts.use_symbols,
        opts.symbols@,
    )
}

/// The password is made from a key of `max(8 n, 64)` bytes for a password of `n`
/// characters: PBKDF2-HMAC-SHA256 or Argon2id (as the options choose, with their costs) of
/// the seed in lower-case hexadecimal, a colon and the core password, salted with the site
/// name followed by `:passgen`.
pub proof fn lemma_password_key(core: Seq<char>, site: Seq<char>, seed: Seq<u8>, opts: GenerateOptions)
    ensures
        ({
            let n = opts.length as int;
            let klen: nat = if 8 * n >= 64 {
                (8 * n) as nat
            } else {
                64
            };
            let password = hex_text(seed) + seq![':'] + core;
            let salt = site + ":passgen"@;
            let key = match opts.kdf {
                KdfAlgorithm::Pbkdf2 => pbkdf2_hmac_sha256(password, salt, opts.pbkdf2_iterations, klen),
                KdfAlgorithm::Argon2id => argon2id_v13(
                    password,
                    salt,
                    opts.argon2_time_cost,
                    opts.argon2_memory_cost,
                    opts.argon2_parallelism,
                    klen,
                ),
            };
            generated_bytes(core, site, seed, opts) == password_bytes(
                key,
                opts.length as nat,
                opts.use_digits,
                opts.use_symbols,
                opts.symbols@,
            )
        }),
{
    reveal_strlit(":passgen");
    assert(SALT_SUFFIX@ == ":passgen"@);
}

/// The inputs on which the key can be derived and converted: the options describe a
/// password the conversion can make, the key length fits in memory, and for Argon2id the
/// costs and the lengths of password and salt are ones the algorithm accepts.
pub open spec fn generate_inputs_ok(core: Seq<char>, site: Seq<char>, seed: Seq<u8>, opts: GenerateOptions) -> bool {
    &&& opts.length * 8 <= usize::MAX
    &&& (opts.use_digits || opts.use_symbols) ==> opts.length > 0
    &&& opts.use_symbols ==> opts.symbols@.len() > 0
    &&& opts.use_symbols ==> opts.symbols@.len() + 62 <= usize::MAX
    &&& opts.kdf == KdfAlgorithm::Argon2id ==> argon2_inputs_ok(
        encode_utf8(core_text(core, seed)).len(),
        encode_utf8(salt_text(site)).len(),
        opts.argon2_time_cost,
        opts.argon2_memory_cost,
        opts.argon2_parallelism,
        key_length(opts.length as nat),
    )
}

/// Number of UTF-8 bytes of the KDF password for `core` and `seed`.
pub proof fn lemma_core_text_bytes(core: Seq<char>, seed: Seq<u8>)
    ensures
        encode_utf8(core_text(core, seed)).len() == 2 * seed.len() + 1 + encode_utf8(core).len(),
{
    let head = hex_text(seed) + seq![':'];
    assert(is_ascii_chars(head)) by {
        assert forall|i: int| 0 <= i < head.len() implies '\0' <= #[trigger] head[i] <= '\u{7f}' by {
            if i < 2 * seed.len() {
                let b = seed[i / 2];
                assert(b as int / 16 < 16);
                assert(b as int % 16 < 16);
            }
        }
    }
    is_ascii_chars_encode_utf8(head);
    assert(core_text(core, seed) =~= head + core);
    lemma_encode_utf8_concat(head, core);
}

/// Number of UTF-8 bytes of the salt for `site`.
pub proof fn lemma_salt_text_bytes(site: Seq<char>)
    ensures
        encode_utf8(salt_text(site)).len() == encode_utf8(site).len() + 8,
{
    reveal_strlit(":passgen");
    assert(is_ascii_chars(SALT_SUFFIX@));
    is_ascii_chars_encode_utf8(SALT_SUFFIX@);
    lemma_encode_utf8_concat(site, SALT_SUFFIX@);
}

/// Can the key be derived and converted (`generate_inputs_ok`)? The other inputs are those
/// on which generation fails: a key length that overflows, a character class that cannot
/// be guaranteed, or Argon2id costs or lengths that the algorithm refuses.
pub fn options_supported(core: &str, site: &str, seed: &[u8], opts: &GenerateOptions) -> (ok: bool)
    ensures
        ok == generate_inputs_ok(core@, site@, seed@, *opts),
{
    let scaled = match opts.length.checked_mul(KEY_LENGTH_MULTIPLIER) {
        Some(n) => n,
        None => return false,
    };
    if (opts.use_digits || opts.use_symbols) && opts.length == 0 {
        return false;
    }
    if opts.use_symbols && opts.symbols.len() > usize::MAX - 62 {
        return false;
    }
    if opts.use_symbols && opts.symbols.len() == 0 {
        return false;
    }
    if opts.kdf != KdfAlgorithm::Argon2id {
        return true;
    }
    let key_len = if scaled >= KEY_LENGTH_MIN {
        scaled
    } else {
        KEY_LENGTH_MIN
    };
    proof {
        lemma_core_text_bytes(core@, seed@);
        lemma_salt_text_bytes(site@);
    }
    let limit: u64 = 0xFFFF_FFFF;
    let seed_len = seed.len() as u64;
    let core_len = core.as_bytes().len() as u64;
    let site_len = site.as_bytes().len() as u64;
    if seed_len > limit || core_len > limit || site_len > limit {
        return false;
    }
    let password_len = 2 * seed_len + 1 + core_len;
    let salt_len = site_len + 8;
    let m = opts.argon2_memory_cost as u64;
    let p = opts.argon2_parallelism as u64;
    m >= 8 && m >= 8 * p && opts.argon2_time_cost >= 1 && 1 <= p && p <= 0xFF_FFFF && 4 <= key_len
        && key_len as u64 <= limit && password_len <= limit && salt_len <= limit
}

/// The key for `core`, `site` and `seed` under the options.
fn derive_for(core: &str, site: &str, seed: &[u8], opts: &GenerateOptions) -> (key: Vec<u8>)
    requires
        generate_inputs_ok(core@, site@, seed@, *opts),
    ensures
        key@ == derived_key(core@, site@, seed@, *opts),
        key@.len() == key_length(opts.length as nat),
{
    let combined_core = build_core(core, seed);
    let mut salt = String::from_str(site);
    salt.append(SALT_SUFFIX);
    assert(salt@ == salt_text(site@));
    let scaled = opts.length * KEY_LENGTH_MULTIPLIER;
    let key_len = if scaled >= KEY_LENGTH_MIN {
        scaled
    } else {
        KEY_LENGTH_MIN
    };
    assert(key_len == key_length(opts.length as nat));
    match opts.kdf {
        KdfAlgorithm::Pbkdf2 => derive_key(combined_core.as_str(), salt.as_str(), opts.pbkdf2_iterations, key_len),
        KdfAlgorithm::Argon2id => derive_key_argon2id(
            combined_core.as_str(),
            salt.as_str(),
            opts.argon2_time_cost,
            opts.argon2_memory_cost,
            opts.argon2_parallelism,
            key_len,
        ),
    }
}

/// Generates the password for `core` and `site` with the device `seed`: derives
/// `max(length * 8, 64)` key bytes from the seed-prefixed core password and the salted site
/// name with the chosen KDF, then turns them into a password (`bytes_to_password`). The
/// password bytes must form UTF-8 text, which they always do with ASCII symbols.
pub fn generate_password(core: &str, site: &str, seed: &[u8], opts: &GenerateOptions) -> (res: String)
    requires
        generate_inputs_ok(core@, site@, seed@, *opts),
        (opts.use_symbols && !is_ascii_bytes(opts.symbols@)) ==> valid_utf8(generated_bytes(core@, site@, seed@, *opts)),
    ensures
        res@ == decode_utf8(generated_bytes(core@, site@, seed@, *opts)),
        generated_bytes(core@, site@, seed@, *opts).len() == opts.length,
        forall|i: int| 0 <= i < opts.length ==> alphabet(opts.use_digits, opts.use_symbols, opts.symbols@).contains(
            #[trigger] generated_bytes(core@, site@, seed@, *opts)[i],
        ),
        opts.use_symbols ==> has_any(generated_bytes(core@, site@, seed@, *opts), opts.symbols@),
        (opts.use_digits && opts.length >= 2) ==> has_any(generated_bytes(core@, site@, seed@, *opts), digit_set()),
        (!opts.use_symbols || is_ascii_bytes(opts.symbols@)) ==> (res@.len() == opts.length && forall|i: int|
            0 <= i < opts.length ==> #[trigger] res@[i] == generated_bytes(core@, site@, seed@, *opts)[i] as char),
{
    let key = derive_for(core, site, seed, opts);
    proof {
        if !opts.use_symbols || is_ascii_bytes(opts.symbols@) {
            lemma_ascii_password(key@, opts.length as nat, opts.use_digits, opts.use_symbols, opts.symbols@);
            lemma_ascii_bytes_utf8(generated_bytes(core@, site@, seed@, *opts));
        }
    }
    bytes_to_password(&key, opts.length, opts.use_digits, opts.use_symbols, opts.symbols)
}

/// `generate_password` for inputs whose password bytes may not form UTF-8 text (possible
/// only with non-ASCII symbols): `None` exactly when they do not.
pub fn try_generate_password(core: &str, site: &str, seed: &[u8], opts: &GenerateOptions) -> (res: Option<String>)
    requires
        generate_inputs_ok(core@, site@, seed@, *opts),
    ensures
        res is Some <==> valid_utf8(generated_bytes(core@, site@, seed@, *opts)),
        res matches Some(s) ==> s@ == decode_utf8(generated_bytes(core@, site@, seed@, *opts)),
{
    let key = derive_for(core, site, seed, opts);
    let raw = make_password_bytes(&key, opts.length, opts.use_digits, opts.use_symbols, opts.symbols);
    utf8_string(raw)
}

} // verus!
