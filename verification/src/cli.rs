use vstd::prelude::*;

use crate::config::MIN_PASSWORD_LENGTH;
use crate::kdf::{default_symbol_set, symbol_bytes, KdfAlgorithm};
use crate::text::is_ascii_bytes;
use vstd::slice::slice_to_vec;

verus! {

broadcast use vstd::string::group_string_axioms;

// ============================================================
// Command-line options
// ============================================================

/// The command-line options.
pub struct Args {
    /// Site name.
    pub site: String,
    /// Length of the generated password.
    pub length: usize,
    /// Key derivation function.
    pub kdf: KdfAlgorithm,
    /// PBKDF2 iterations (used with `--kdf pbkdf2` only).
    pub iterations: u32,
    /// Argon2id time cost (used with `--kdf argon2id` only).
    pub argon2_time_cost: u32,
    /// Argon2id memory cost in KiB (used with `--kdf argon2id` only).
    pub argon2_memory_cost: u32,
    /// Argon2id parallelism (used with `--kdf argon2id` only).
    pub argon2_parallelism: u32,
    /// Copy the generated password to the clipboard.
    pub copy: bool,
    /// Start the browser UI.
    pub server: bool,
    /// Leave digits out.
    pub no_digits: bool,
    /// Leave symbols out.
    pub no_symbols: bool,
    /// The symbols that may be used.
    pub custom_symbols: Option<String>,
}

/// Is `length` long enough for a password?
pub fn length_allowed(length: usize) -> (ok: bool)
    ensures
        ok == (length >= MIN_PASSWORD_LENGTH),
{
    length >= MIN_PASSWORD_LENGTH
}

// ============================================================
// Symbol set chosen on the command line
// ============================================================

/// Why a custom symbol set (`-C/--char`) is refused.
#[derive(Clone, Copy, Debug, PartialEq, Eq, Structural)]
pub enum SymbolsError {
    /// No character was given.
    Empty,
    /// A character outside ASCII was given.
    NotAscii,
}

/// The symbol set to generate with.
pub struct SymbolChoice {
    pub symbols: Vec<u8>,
    pub use_symbols: bool,
    /// A custom set was given together with `--no-symbols`; the custom set wins.
    pub overrides_no_symbols: bool,
}

/// `s` without repeated bytes, each byte kept where it first occurs.
pub open spec fn dedup_bytes(s: Seq<u8>) -> Seq<u8>
    decreases s.len(),
{
    if s.len() == 0 {
        Seq::empty()
    } else {
        let d = dedup_bytes(s.drop_last());
        if d.contains(s.last()) {
            d
        } else {
            d.push(s.last())
        }
    }
}

/// A sequence with one more element holds that element and what it held before.
pub proof fn lemma_push_contains(s: Seq<u8>, a: u8)
    ensures
        forall|x: u8| #[trigger] s.push(a).contains(x) <==> (s.contains(x) || x == a),
{
    assert forall|x: u8| #[trigger] s.push(a).contains(x) <==> (s.contains(x) || x == a) by {
        if s.push(a).contains(x) {
            let k = choose|k: int| 0 <= k < s.push(a).len() && s.push(a)[k] == x;
            if k < s.len() {
                assert(s[k] == x);
            }
        }
        if s.contains(x) {
            let k = choose|k: int| 0 <= k < s.len() && s[k] == x;
            assert(s.push(a)[k] == x);
        }
        if x == a {
            assert(s.push(a)[s.len() as int] == x);
        }
    }
}

/// `dedup_bytes` keeps exactly the bytes of its input, each once.
pub proof fn lemma_dedup_bytes(s: Seq<u8>)
    ensures
        forall|b: u8| dedup_bytes(s).contains(b) <==> s.contains(b),
        forall|i: int, j: int| 0 <= i < j < dedup_bytes(s).len() ==> dedup_bytes(s)[i] != dedup_bytes(s)[j],
    decreases s.len(),
{
    if s.len() > 0 {
        let p = s.drop_last();
        let last = s.last();
        lemma_dedup_bytes(p);
        assert(s =~= p.push(last));
        lemma_push_contains(p, last);
        let d = dedup_bytes(p);
        if !d.contains(last) {
            lemma_push_contains(d, last);
            assert forall|i: int, j: int| 0 <= i < j < dedup_bytes(s).len() implies dedup_bytes(s)[i] != dedup_bytes(s)[j] by {
                if j == d.len() {
                    assert(dedup_bytes(s)[i] == d[i]);
                    assert(d.contains(d[i]));
                } else {
                    assert(dedup_bytes(s)[i] == d[i]);
                    assert(dedup_bytes(s)[j] == d[j]);
                }
            }
        }
    }
}

/// `s` without repeated bytes, in the order of their first occurrence.
pub fn dedup(s: &[u8]) -> (r: Vec<u8>)
    ensures
        r@ == dedup_bytes(s@),
        forall|b: u8| r@.contains(b) <==> s@.contains(b),
        forall|i: int, j: int| 0 <= i < j < r@.len() ==> r@[i] != r@[j],
{
    let mut seen: Vec<bool> = vec![false; 256];
    let mut out: Vec<u8> = Vec::new();
    let mut i: usize = 0;
    while i < s.len()
        invariant
            i <= s@.len(),
            seen@.len() == 256,
            out@ == dedup_bytes(s@.take(i as int)),
            forall|v: u8| (#[trigger] seen@[v as int] <==> out@.contains(v)),
        decreases s.len() - i,
    {
        let b = s[i];
        assert(s@.take(i + 1).drop_last() =~= s@.take(i as int));
        assert(s@.take(i + 1).last() == b);
        if !seen[b as usize] {
            let ghost before = out@;
            let ghost seen_before = seen@;
            seen.set(b as usize, true);
            out.push(b);
            proof {
                lemma_push_contains(before, b);
                assert forall|v: u8| (#[trigger] seen@[v as int] <==> out@.contains(v)) by {
                    if v != b {
                        assert(seen@[v as int] == seen_before[v as int]);
                    }
                }
            }
        }
        i += 1;
    }
    assert(s@.take(i as int) =~= s@);
    proof {
        lemma_dedup_bytes(s@);
    }
    out
}

/// The symbol set a custom `-C/--char` value (if any) and `--no-symbols` select.
pub open spec fn symbols_selected(custom: Option<Seq<char>>, no_symbols: bool) -> Result<(Seq<u8>, bool, bool), SymbolsError> {
    match custom {
        None => Ok((default_symbol_set(), !no_symbols, false)),
        Some(c) => if c.len() == 0 {
            Err(SymbolsError::Empty)
        } else if !vstd::utf8::is_ascii_chars(c) {
            Err(SymbolsError::NotAscii)
        } else {
            Ok((dedup_bytes(vstd::utf8::encode_utf8(c)), true, no_symbols))
        },
    }
}

/// How the symbol set is chosen:
/// - without a custom set, the default symbols are offered, and used exactly when
///   `--no-symbols` is absent;
/// - a custom set is refused exactly when it is empty or holds a character outside ASCII;
/// - an accepted custom set is always used (also against `--no-symbols`, which is then
///   reported as overridden), and holds each of its characters once, in the order of their
///   first occurrence, and nothing else.
pub proof fn lemma_symbol_choice(custom: Option<Seq<char>>, no_symbols: bool)
    ensures
        custom is None ==> (symbols_selected(custom, no_symbols) matches Ok((syms, used, overridden))
            && syms == default_symbol_set() && used == !no_symbols && !overridden),
        custom matches Some(c) ==> (symbols_selected(custom, no_symbols) is Err <==> (c.len() == 0 || exists|i: int|
            0 <= i < c.len() && (#[trigger] c[i]) > '\u{7f}')),
        custom matches Some(c) ==> (symbols_selected(custom, no_symbols) matches Ok((syms, used, overridden)) ==> {
            &&& used
            &&& overridden == no_symbols
            &&& forall|b: u8| syms.contains(b) <==> exists|i: int| 0 <= i < c.len() && (#[trigger] c[i]) as u8 == b
            &&& forall|i: int, j: int| 0 <= i < j < syms.len() ==> syms[i] != syms[j]
        }),
{
    if let Some(c) = custom {
        if c.len() > 0 && vstd::utf8::is_ascii_chars(c) {
            let e = vstd::utf8::encode_utf8(c);
            vstd::utf8::is_ascii_chars_encode_utf8(c);
            lemma_dedup_bytes(e);
            assert forall|b: u8| e.contains(b) <==> exists|i: int| 0 <= i < c.len() && (#[trigger] c[i]) as u8 == b by {
                if e.contains(b) {
                    let k = choose|k: int| 0 <= k < e.len() && e[k] == b;
                    assert(c[k] as u8 == e[k]);
                }
                if exists|i: int| 0 <= i < c.len() && (#[trigger] c[i]) as u8 == b {
                    let i = choose|i: int| 0 <= i < c.len() && (#[trigger] c[i]) as u8 == b;
                    assert(e[i] == c[i] as u8);
                }
            }
            let d = dedup_bytes(e);
            assert(symbols_selected(custom, no_symbols) == Ok::<(Seq<u8>, bool, bool), SymbolsError>((d, true, no_symbols)));
            assert forall|b: u8| d.contains(b) <==> exists|i: int| 0 <= i < c.len() && (#[trigger] c[i]) as u8 == b by {
                assert(d.contains(b) <==> e.contains(b));
            }
        }
        if c.len() > 0 && !vstd::utf8::is_ascii_chars(c) {
            let i = choose|i: int| 0 <= i < c.len() && !('\0' <= #[trigger] c[i] <= '\u{7f}');
            lemma_char_at_least_nul(c[i]);
        }
    }
}

/// Every character is at least `'\0'`.
proof fn lemma_char_at_least_nul(c: char)
    ensures
        '\0' <= c,
{
}

/// Chooses the symbol set: the default set (used unless `--no-symbols`) when no custom set
/// is given; otherwise the custom set, which must be non-empty ASCII, without repeated
/// characters (first occurrences kept in order), and used even with `--no-symbols`.
pub fn resolve_symbols(custom: Option<&str>, no_symbols: bool) -> (r: Result<SymbolChoice, SymbolsError>)
    ensures
        match (r, symbols_selected(match custom {
            Some(c) => Some(c@),
            None => None,
        }, no_symbols)) {
            (Ok(choice), Ok((symbols, use_symbols, overrides))) => choice.symbols@ == symbols
                && choice.use_symbols == use_symbols && choice.overrides_no_symbols == overrides,
            (Err(e1), Err(e2)) => e1 == e2,
            _ => false,
        },
        r matches Ok(choice) ==> is_ascii_bytes(choice.symbols@),
{
    match custom {
        None => {
            let symbols = slice_to_vec(symbol_bytes());
            Ok(SymbolChoice { symbols, use_symbols: !no_symbols, overrides_no_symbols: false })
        },
        Some(c) => {
            if c.is_empty() {
                return Err(SymbolsError::Empty);
            }
            if !c.is_ascii() {
                return Err(SymbolsError::NotAscii);
            }
            let bytes = c.as_bytes();
            proof {
                vstd::string::is_ascii_spec_bytes(c);
            }
            let symbols = dedup(bytes);
            assert(is_ascii_bytes(symbols@)) by {
                assert forall|i: int| 0 <= i < symbols@.len() implies #[trigger] symbols@[i] < 128 by {
                    assert(symbols@.contains(symbols@[i]));
                    let k = choose|k: int| 0 <= k < bytes@.len() && bytes@[k] == symbols@[i];
                    assert(c@[k] as u8 == bytes@[k]);
                }
            }
            Ok(SymbolChoice { symbols, use_symbols: true, overrides_no_symbols: no_symbols })
        },
    }
}

} // verus!
