//! Specifications that Verus takes on trust: the standard library and outside crates
//! that the library calls.
use vstd::prelude::*;
use vstd::utf8::*;

verus! {

/// `std::string::FromUtf8Error`, the error of `String::from_utf8`.
#[verifier::external_type_specification]
#[verifier::external_body]
pub struct ExFromUtf8Error(std::string::FromUtf8Error);

/// `String::from_utf8` succeeds exactly on valid UTF-8 and then holds the decoded
/// characters (std documentation: "Converts a vector of bytes to a String ... returns Err
/// if the slice is not UTF-8").
pub assume_specification[ String::from_utf8 ](vec: Vec<u8>) -> (res: Result<String, std::string::FromUtf8Error>)
    ensures
        res is Ok <==> valid_utf8(vec@),
        res matches Ok(s) ==> s@ == decode_utf8(vec@),
;

} // verus!

verus! {

// ============================================================
// PBKDF2-HMAC-SHA256 (crates `pbkdf2`, `hmac`, `sha2`)
// ============================================================

/// The `len` bytes of PBKDF2-HMAC-SHA256 for the UTF-8 encodings of `password` and
/// `salt`, with `rounds` iterations.
pub uninterp spec fn pbkdf2_hmac_sha256(password: Seq<char>, salt: Seq<char>, rounds: u32, len: nat) -> Seq<u8>;

/// Calls `pbkdf2::pbkdf2::<Hmac<Sha256>>`, which fills `out` with the derived key.
/// Claimed: the call succeeds (HMAC accepts keys of any length, as the crate's source
/// and documentation say), `out` keeps its length, and its new contents are the named
/// PBKDF2 output for the inputs and that length.
#[verifier::external_body]
pub(crate) fn pbkdf2_sha256_fill(password: &str, salt: &str, rounds: u32, out: &mut Vec<u8>) -> (ok: bool)
    ensures
        ok,
        final(out)@.len() == old(out)@.len(),
        final(out)@ == pbkdf2_hmac_sha256(password@, salt@, rounds, old(out)@.len()),
{
    pbkdf2::pbkdf2::<hmac::Hmac<sha2::Sha256>>(
        password.as_bytes(),
        salt.as_bytes(),
        rounds,
        out.as_mut_slice(),
    ).is_ok()
}

// ============================================================
// Argon2id (crate `argon2`)
// ============================================================

/// The `len` bytes of Argon2id, version 0x13, for the UTF-8 encodings of `password` and
/// `salt`, with the given time cost, memory cost (KiB) and parallelism.
pub uninterp spec fn argon2id_v13(
    password: Seq<char>,
    salt: Seq<char>,
    time_cost: u32,
    memory_cost: u32,
    parallelism: u32,
    len: nat,
) -> Seq<u8>;

/// The inputs that `argon2::Params::new` and `Argon2::hash_password_into` accept
/// (byte lengths of password and salt, costs, output length), as their source checks them.
pub open spec fn argon2_inputs_ok(
    password_len: nat,
    salt_len: nat,
    time_cost: u32,
    memory_cost: u32,
    parallelism: u32,
    out_len: nat,
) -> bool {
    &&& memory_cost >= 8
    &&& memory_cost >= 8 * parallelism
    &&& time_cost >= 1
    &&& 1 <= parallelism <= 0xFF_FFFF
    &&& 4 <= out_len <= 0xFFFF_FFFF
    &&& password_len <= 0xFFFF_FFFF
    &&& 8 <= salt_len <= 0xFFFF_FFFF
}

/// Calls `argon2::Params::new(memory_cost, time_cost, parallelism, Some(out.len()))`,
/// then `Argon2::new(Algorithm::Argon2id, Version::V0x13, params).hash_password_into`
/// on the password and salt bytes and `out`.
/// Claimed: it succeeds exactly when `argon2_inputs_ok` holds (the checks in the crate's
/// source), `out` keeps its length, and on success `out` holds the named Argon2id output.
/// Required: `parallelism * 8` fits in `u32`, since `Params::new` computes it before
/// checking the range of `parallelism`. Not stated: allocating the memory blocks can abort
/// the process when the memory cost is larger than the machine can provide.
#[verifier::external_body]
pub(crate) fn argon2id_fill(
    password: &str,
    salt: &str,
    time_cost: u32,
    memory_cost: u32,
    parallelism: u32,
    out: &mut Vec<u8>,
) -> (ok: bool)
    requires
        parallelism <= 0x1FFF_FFFF,
    ensures
        ok == argon2_inputs_ok(
            encode_utf8(password@).len(),
            encode_utf8(salt@).len(),
            time_cost,
            memory_cost,
            parallelism,
            old(out)@.len(),
        ),
        final(out)@.len() == old(out)@.len(),
        ok ==> final(out)@ == argon2id_v13(password@, salt@, time_cost, memory_cost, parallelism, old(out)@.len()),
{
    match argon2::Params::new(memory_cost, time_cost, parallelism, Some(out.len())) {
        Ok(params) => argon2::Argon2::new(argon2::Algorithm::Argon2id, argon2::Version::V0x13, params)
            .hash_password_into(password.as_bytes(), salt.as_bytes(), out.as_mut_slice())
            .is_ok(),
        Err(_) => false,
    }
}

} // verus!

verus! {

// ============================================================
// Base64 with the standard alphabet and padding (crate `base64`)
// ============================================================

/// The text that `base64::engine::general_purpose::STANDARD` encodes `data` to.
pub uninterp spec fn base64_standard_encode(data: Seq<u8>) -> Seq<char>;

/// What `base64::engine::general_purpose::STANDARD` decodes `text` to, `None` when it
/// rejects the text.
pub uninterp spec fn base64_standard_decode(text: Seq<u8>) -> Option<Seq<u8>>;

/// A character of the standard alphabet, or the padding character.
pub open spec fn is_base64_char(c: char) -> bool {
    ||| 'A' <= c <= 'Z'
    ||| 'a' <= c <= 'z'
    ||| '0' <= c <= '9'
    ||| c == '+'
    ||| c == '/'
    ||| c == '='
}

/// The encoded length (four characters per started group of three bytes) fits in `usize`.
pub open spec fn base64_encoded_len_fits(n: nat) -> bool {
    4 * ((n + 2) / 3) <= usize::MAX
}

/// Calls `Engine::encode` of `base64::engine::general_purpose::STANDARD`.
/// Claimed: the result is the named encoding of `data`; it is made of the alphabet's
/// characters and `=`; and decoding its bytes with the same engine gives `data` back.
/// Required: the encoded length fits in `usize` (the crate panics otherwise).
#[verifier::external_body]
pub(crate) fn base64_encode(data: &[u8]) -> (text: String)
    requires
        base64_encoded_len_fits(data@.len()),
    ensures
        text@ == base64_standard_encode(data@),
        forall|i: int| 0 <= i < text@.len() ==> is_base64_char(#[trigger] text@[i]),
        base64_standard_decode(encode_utf8(text@)) == Some(data@),
{
    base64::Engine::encode(&base64::engine::general_purpose::STANDARD, data)
}

/// Calls `Engine::decode` of `base64::engine::general_purpose::STANDARD` and keeps the
/// decoded bytes, dropping the error.
/// Claimed: the result is the named decoding of `text`.
#[verifier::external_body]
pub(crate) fn base64_decode(text: &[u8]) -> (res: Option<Vec<u8>>)
    ensures
        res is Some <==> base64_standard_decode(text@) is Some,
        res matches Some(v) ==> base64_standard_decode(text@) == Some(v@),
{
    base64::Engine::decode(&base64::engine::general_purpose::STANDARD, text).ok()
}

// ============================================================
// Randomness (crate `getrandom`)
// ============================================================

/// Calls `getrandom::getrandom` on `buf` and reports whether it succeeded.
/// Claimed: `buf` keeps its length. Nothing is said of the bytes it holds, nor of when the
/// call fails: both depend on the operating system's random source.
#[verifier::external_body]
pub(crate) fn fill_random(buf: &mut Vec<u8>) -> (ok: bool)
    ensures
        final(buf)@.len() == old(buf)@.len(),
{
    getrandom::getrandom(buf.as_mut_slice()).is_ok()
}

} // verus!
