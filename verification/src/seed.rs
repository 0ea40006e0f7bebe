use vstd::prelude::*;
use vstd::utf8::*;

use crate::config::{SEED_BYTES, SEED_FILE_MODE};
use crate::text::{
    chars_of, is_white_space, is_whitespace, lemma_skip_ws_bounds, lemma_trim_end_bounds, lemma_trim_padded,
    matches_here, skip_whitespace, skip_ws, trim, trim_end, trim_end_index,
};
use crate::trusted::{
    base64_decode, base64_encode, base64_encoded_len_fits, base64_standard_decode,
    base64_standard_encode, fill_random, is_base64_char,
};
use vstd::slice::slice_to_vec;
use vstd::string::StrSliceExecFns;
use vstd::string::StringExecFns;

verus! {

broadcast use vstd::string::group_string_axioms;

// ============================================================
// Seed file contents
// ============================================================

/// The seed bytes, given the raw file contents and what decoding its trimmed text gave: the decoded bytes when there are any, else the raw contents (files of
/// earlier versions hold the seed as raw bytes).
pub open spec fn seed_choice(raw: Seq<u8>, decoded: Option<Seq<u8>>) -> Seq<u8> {
    match decoded {
        Some(d) => if d.len() > 0 {
            d
        } else {
            raw
        },
        None => raw,
    }
}

/// The first line of a seed file.
pub const SEED_BEGIN: &'static str = "-----BEGIN PASSGEN PRIVATE SEED-----";

/// The last line of a seed file.
pub const SEED_END: &'static str = "-----END PASSGEN PRIVATE SEED-----";

/// The number of base64 characters on each line of a seed file.
pub const SEED_LINE_WIDTH: usize = 64;

/// `s` without its white-space characters.
pub open spec fn strip_ws(s: Seq<char>) -> Seq<char>
    decreases s.len(),
{
    if s.len() == 0 {
        s
    } else if is_white_space(s.last()) {
        strip_ws(s.drop_last())
    } else {
        strip_ws(s.drop_last()).push(s.last())
    }
}

/// `s` broken into lines of `SEED_LINE_WIDTH` characters (the last one may be shorter),
/// each followed by a line break.
pub open spec fn wrapped(s: Seq<char>) -> Seq<char>
    decreases s.len(),
{
    if s.len() == 0 {
        s
    } else if s.len() <= SEED_LINE_WIDTH {
        s + seq!['\n']
    } else {
        s.take(SEED_LINE_WIDTH as int) + seq!['\n'] + wrapped(s.skip(SEED_LINE_WIDTH as int))
    }
}

/// Does `t` start with `SEED_BEGIN` and end with `SEED_END`, the two not overlapping?
pub open spec fn is_framed(t: Seq<char>) -> bool {
    &&& t.len() >= SEED_BEGIN@.len() + SEED_END@.len()
    &&& t.subrange(0, SEED_BEGIN@.len() as int) == SEED_BEGIN@
    &&& t.subrange(t.len() - SEED_END@.len(), t.len() as int) == SEED_END@
}

/// The base64 text of a framed seed: what lies between the two markers, without white
/// space.
pub open spec fn framed_payload(t: Seq<char>) -> Seq<char> {
    strip_ws(t.subrange(SEED_BEGIN@.len() as int, t.len() - SEED_END@.len()))
}

/// What the trimmed text `t` of a seed file decodes to: for a framed text, its payload as
/// base64 (a payload that is not ASCII is refused); for any other text, the whole text as
/// base64.
pub open spec fn text_decoding(t: Seq<char>) -> Option<Seq<u8>> {
    if is_framed(t) {
        let p = framed_payload(t);
        if is_ascii_chars(p) {
            base64_standard_decode(encode_utf8(p))
        } else {
            None
        }
    } else {
        base64_standard_decode(encode_utf8(t))
    }
}

/// The seed a file with contents `raw` holds: a UTF-8 file is read as text (surrounding
/// white space ignored) and decoded by `text_decoding`; a file that is not UTF-8, or whose
/// text does not decode to at least one byte, holds the seed as raw bytes.
pub open spec fn decoded_seed(raw: Seq<u8>) -> Seq<u8> {
    if valid_utf8(raw) {
        seed_choice(raw, text_decoding(trim(decode_utf8(raw))))
    } else {
        raw
    }
}

/// The text saved to the seed file: `SEED_BEGIN`, the base64 encoding of the seed in lines
/// of `SEED_LINE_WIDTH` characters, and `SEED_END`, each line ending with a line break.
pub open spec fn encoded_seed(seed: Seq<u8>) -> Seq<char> {
    SEED_BEGIN@ + seq!['\n'] + wrapped(base64_standard_encode(seed)) + SEED_END@ + seq!['\n']
}

/// Picks the seed from the raw file contents and the result of decoding its text.
pub fn seed_from_decoded(raw: &[u8], decoded: Option<Vec<u8>>) -> (seed: Vec<u8>)
    ensures
        seed@ == seed_choice(raw@, match decoded {
            Some(d) => Some(d@),
            None => None,
        }),
{
    match decoded {
        Some(d) => {
            if d.len() > 0 {
                d
            } else {
                slice_to_vec(raw)
            }
        },
        None => slice_to_vec(raw),
    }
}

/// Removing white space distributes over concatenation.
proof fn lemma_strip_ws_add(a: Seq<char>, b: Seq<char>)
    ensures
        strip_ws(a + b) == strip_ws(a) + strip_ws(b),
    decreases b.len(),
{
    if b.len() == 0 {
        assert(a + b =~= a);
        assert(strip_ws(a) + strip_ws(b) =~= strip_ws(a));
    } else {
        assert((a + b).drop_last() =~= a + b.drop_last());
        assert((a + b).last() == b.last());
        lemma_strip_ws_add(a, b.drop_last());
        if !is_white_space(b.last()) {
            assert(strip_ws(a) + strip_ws(b.drop_last()).push(b.last()) =~= (strip_ws(a) + strip_ws(
                b.drop_last(),
            )).push(b.last()));
        }
    }
}

/// Text without white space is left as it is.
proof fn lemma_strip_ws_none(s: Seq<char>)
    requires
        forall|i: int| 0 <= i < s.len() ==> !is_white_space(#[trigger] s[i]),
    ensures
        strip_ws(s) == s,
    decreases s.len(),
{
    if s.len() > 0 {
        lemma_strip_ws_none(s.drop_last());
        assert(s.drop_last().push(s.last()) =~= s);
    }
}

/// A line break alone strips to nothing.
proof fn lemma_strip_line_break()
    ensures
        strip_ws(seq!['\n']) == Seq::<char>::empty(),
{
    let nl = seq!['\n'];
    assert(strip_ws(Seq::<char>::empty()) == Seq::<char>::empty());
    assert(nl.drop_last() =~= Seq::<char>::empty());
    assert(is_white_space(nl.last()));
    assert(strip_ws(nl) == strip_ws(nl.drop_last()));
}

/// Wrapping text without white space into lines and removing the white space again gives
/// the text back.
proof fn lemma_strip_wrapped(s: Seq<char>)
    requires
        forall|i: int| 0 <= i < s.len() ==> !is_white_space(#[trigger] s[i]),
    ensures
        strip_ws(wrapped(s)) == s,
    decreases s.len(),
{
    let nl = seq!['\n'];
    lemma_strip_line_break();
    if s.len() == 0 {
    } else if s.len() <= SEED_LINE_WIDTH {
        lemma_strip_ws_add(s, nl);
        lemma_strip_ws_none(s);
        assert(s + Seq::<char>::empty() =~= s);
    } else {
        let h = s.take(SEED_LINE_WIDTH as int);
        let r = s.skip(SEED_LINE_WIDTH as int);
        assert forall|i: int| 0 <= i < h.len() implies !is_white_space(#[trigger] h[i]) by {
            assert(h[i] == s[i]);
        }
        assert forall|i: int| 0 <= i < r.len() implies !is_white_space(#[trigger] r[i]) by {
            assert(r[i] == s[i + SEED_LINE_WIDTH]);
        }
        lemma_strip_ws_add(h + nl, wrapped(r));
        lemma_strip_ws_add(h, nl);
        lemma_strip_ws_none(h);
        lemma_strip_wrapped(r);
        assert(h + Seq::<char>::empty() =~= h);
        assert(h + r =~= s);
    }
}

/// Every character is at least `'\0'`.
proof fn lemma_char_lower_bound(c: char)
    ensures
        '\0' <= c,
{
}

/// The characters of `t[lo..hi]` other than white space, as bytes; `None` when one of them
/// is not ASCII.
fn ascii_payload(t: &Vec<char>, lo: usize, hi: usize) -> (r: Option<Vec<u8>>)
    requires
        lo <= hi <= t@.len(),
    ensures
        r is Some <==> is_ascii_chars(strip_ws(t@.subrange(lo as int, hi as int))),
        r matches Some(b) ==> b@ == encode_utf8(strip_ws(t@.subrange(lo as int, hi as int))),
{
    let mut out: Vec<u8> = Vec::new();
    let ghost mut p: Seq<char> = Seq::empty();
    let mut i: usize = lo;
    assert(t@.subrange(lo as int, lo as int) =~= Seq::<char>::empty());
    while i < hi
        invariant
            lo <= i <= hi <= t@.len(),
            p == strip_ws(t@.subrange(lo as int, i as int)),
            is_ascii_chars(p),
            out@.len() == p.len(),
            forall|k: int| 0 <= k < p.len() ==> out@[k] == #[trigger] p[k] as u8,
        decreases hi - i,
    {
        let c = t[i];
        let ghost a = t@.subrange(lo as int, i + 1);
        assert(a.drop_last() =~= t@.subrange(lo as int, i as int));
        assert(a.last() == c);
        if !is_whitespace(c) {
            if c > '\u{7f}' {
                proof {
                    let b = t@.subrange(i + 1, hi as int);
                    assert(a + b =~= t@.subrange(lo as int, hi as int));
                    lemma_strip_ws_add(a, b);
                    let whole = strip_ws(t@.subrange(lo as int, hi as int));
                    assert(whole[p.len() as int] == c);
                }
                return None;
            }
            out.push(c as u8);
            proof {
                p = p.push(c);
                assert(is_ascii_chars(p)) by {
                    assert forall|k: int| 0 <= k < p.len() implies '\0' <= #[trigger] p[k] <= '\u{7f}' by {
                        if k < p.len() - 1 {
                            assert(p[k] == p.drop_last()[k]);
                        } else {
                            assert(p[k] == c);
                            assert(c <= '\u{7f}');
                            lemma_char_lower_bound(c);
                        }
                    }
                }
            }
        }
        i += 1;
    }
    proof {
        is_ascii_chars_encode_utf8(p);
        assert(out@ =~= encode_utf8(p));
    }
    Some(out)
}

/// Decodes the trimmed text `t` of a seed file (`text_decoding`).
fn decode_text(t: &str) -> (r: Option<Vec<u8>>)
    ensures
        r is Some <==> text_decoding(t@) is Some,
        r matches Some(v) ==> text_decoding(t@) == Some(v@),
{
    proof {
        reveal_strlit("-----BEGIN PASSGEN PRIVATE SEED-----");
        reveal_strlit("-----END PASSGEN PRIVATE SEED-----");
    }
    let chars = chars_of(t);
    let begin = chars_of(SEED_BEGIN);
    let end = chars_of(SEED_END);
    let n = chars.len();
    if n >= begin.len() + end.len() && matches_here(&chars, &begin, 0) && matches_here(
        &chars,
        &end,
        n - end.len(),
    ) {
        assert(is_framed(t@));
        match ascii_payload(&chars, begin.len(), n - end.len()) {
            Some(bytes) => base64_decode(bytes.as_slice()),
            None => None,
        }
    } else {
        base64_decode(t.as_bytes())
    }
}

/// Decodes the contents of a seed file: framed base64 text (the current format), or plain
/// base64 text, is preferred, and anything else is taken as the raw seed bytes of earlier
/// versions.
pub fn decode_seed(raw: &[u8]) -> (seed: Vec<u8>)
    ensures
        seed@ == decoded_seed(raw@),
{
    let owned = slice_to_vec(raw);
    match String::from_utf8(owned) {
        Ok(text) => {
            let chars = chars_of(text.as_str());
            let lo = skip_whitespace(&chars, 0);
            proof {
                lemma_skip_ws_bounds(chars@, 0);
                lemma_trim_end_bounds(chars@, lo as int, chars@.len() as int);
            }
            let hi = trim_end(&chars, lo, chars.len());
            let trimmed = text.as_str().substring_char(lo, hi);
            assert(trimmed@ == trim(decode_utf8(raw@)));
            let decoded = decode_text(trimmed);
            seed_from_decoded(raw, decoded)
        },
        Err(_) => slice_to_vec(raw),
    }
}

/// The encoded text of a non-empty seed decodes to the seed.
proof fn lemma_encoded_seed_decodes(seed: Seq<u8>, enc: Seq<char>)
    requires
        enc == base64_standard_encode(seed),
        forall|i: int| 0 <= i < enc.len() ==> is_base64_char(#[trigger] enc[i]),
        base64_standard_decode(encode_utf8(enc)) == Some(seed),
        seed.len() > 0,
    ensures
        decoded_seed(encode_utf8(encoded_seed(seed))) == seed,
{
    reveal_strlit("-----BEGIN PASSGEN PRIVATE SEED-----");
    reveal_strlit("-----END PASSGEN PRIVATE SEED-----");
    let b = SEED_BEGIN@;
    let e = SEED_END@;
    let nl = seq!['\n'];
    let w = wrapped(enc);
    let t = b + nl + w + e;
    let full = t + nl;
    assert(encoded_seed(seed) =~= full);
    encode_utf8_valid_utf8(full);
    encode_utf8_decode_utf8(full);
    assert(full[0] == '-');
    assert(skip_ws(full, 0) == 0);
    let m = full.len() as int;
    assert(full[m - 1] == '\n');
    assert(full[m - 2] == e[e.len() - 1]);
    assert(full[m - 2] == '-');
    assert(trim_end_index(full, 0, m - 1) == m - 1);
    assert(trim_end_index(full, 0, m) == m - 1);
    assert(trim(full) =~= t);
    assert(t.subrange(0, b.len() as int) =~= b);
    assert(t.subrange(t.len() - e.len(), t.len() as int) =~= e);
    assert(is_framed(t));
    assert(t.subrange(b.len() as int, t.len() - e.len()) =~= nl + w);
    assert forall|i: int| 0 <= i < enc.len() implies !is_white_space(#[trigger] enc[i]) by {
        assert(is_base64_char(enc[i]));
    }
    lemma_strip_wrapped(enc);
    lemma_strip_ws_add(nl, w);
    lemma_strip_line_break();
    assert(Seq::<char>::empty() + enc =~= enc);
    assert(framed_payload(t) == enc);
    assert(is_ascii_chars(enc));
}

/// Encodes a seed for the seed file (`encoded_seed`): the base64 text between the
/// `SEED_BEGIN` and `SEED_END` lines, in lines of `SEED_LINE_WIDTH` characters.
/// Reading the file back gives the seed: `decoded_seed` of the UTF-8 bytes of the text is
/// the seed, for every non-empty seed.
pub fn encode_seed(seed: &[u8]) -> (text: String)
    requires
        base64_encoded_len_fits(seed@.len()),
    ensures
        text@ == encoded_seed(seed@),
        seed@.len() > 0 ==> decoded_seed(encode_utf8(text@)) == seed@,
{
    proof {
        reveal_strlit("\n");
    }
    let enc = base64_encode(seed);
    let e = enc.as_str();
    let n = e.unicode_len();
    let mut text = String::from_str(SEED_BEGIN);
    text.append("\n");
    let ghost head = text@;
    let mut i: usize = 0;
    assert(enc@.skip(0) =~= enc@);
    while i < n
        invariant
            n == enc@.len(),
            e@ == enc@,
            i <= n,
            text@ + wrapped(enc@.skip(i as int)) == head + wrapped(enc@),
        decreases n - i,
    {
        let ghost before = text@;
        let ghost r = enc@.skip(i as int);
        if n - i <= SEED_LINE_WIDTH {
            text.append(e.substring_char(i, n));
            text.append("\n");
            proof {
                let nl = seq!['\n'];
                reveal_strlit("\n");
                assert("\n"@ == nl);
                assert(r =~= enc@.subrange(i as int, n as int));
                assert(wrapped(r) == r + nl);
                assert(enc@.skip(n as int) =~= Seq::<char>::empty());
                assert(wrapped(enc@.skip(n as int)) == Seq::<char>::empty());
                assert(text@ == before + r + nl);
                assert(text@ + wrapped(enc@.skip(n as int)) =~= before + wrapped(r));
            }
            i = n;
        } else {
            let j = i + SEED_LINE_WIDTH;
            text.append(e.substring_char(i, j));
            text.append("\n");
            proof {
                let nl = seq!['\n'];
                reveal_strlit("\n");
                assert("\n"@ == nl);
                let h = r.take(SEED_LINE_WIDTH as int);
                let rest = wrapped(enc@.skip(j as int));
                assert(h =~= enc@.subrange(i as int, j as int));
                assert(r.skip(SEED_LINE_WIDTH as int) =~= enc@.skip(j as int));
                assert(wrapped(r) == h + nl + rest);
                assert(text@ == before + h + nl);
                assert(text@ + rest =~= before + (h + nl + rest));
            }
            i = j;
        }
    }
    assert(enc@.skip(n as int) =~= Seq::<char>::empty());
    text.append(SEED_END);
    text.append("\n");
    proof {
        assert(text@ =~= encoded_seed(seed@));
        if seed@.len() > 0 {
            lemma_encoded_seed_decodes(seed@, enc@);
        }
    }
    text
}

/// A seed file of earlier versions holds the base64 text of the seed on one line, of any
/// length, possibly with white space around it (such as the final line break): it is read
/// as that seed, for every text of the standard alphabet that decodes to a non-empty seed.
pub proof fn lemma_plain_base64_seed(before: Seq<char>, enc: Seq<char>, after: Seq<char>, seed: Seq<u8>)
    requires
        forall|i: int| 0 <= i < enc.len() ==> is_base64_char(#[trigger] enc[i]),
        base64_standard_decode(encode_utf8(enc)) == Some(seed),
        seed.len() > 0,
        forall|j: int| 0 <= j < before.len() ==> is_white_space(#[trigger] before[j]),
        forall|j: int| 0 <= j < after.len() ==> is_white_space(#[trigger] after[j]),
    ensures
        decoded_seed(encode_utf8(before + enc + after)) == seed,
{
    let t = before + enc + after;
    encode_utf8_valid_utf8(t);
    encode_utf8_decode_utf8(t);
    if enc.len() > 0 {
        assert(is_base64_char(enc[0]));
        assert(is_base64_char(enc[enc.len() - 1]));
    }
    lemma_trim_padded(before, enc, after);
    reveal_strlit("-----BEGIN PASSGEN PRIVATE SEED-----");
    reveal_strlit("-----END PASSGEN PRIVATE SEED-----");
    if is_framed(enc) {
        assert(enc.subrange(0, SEED_BEGIN@.len() as int)[0] == '-');
        assert(is_base64_char(enc[0]));
        assert(false);
    }
}

/// A new random seed of `SEED_BYTES` bytes, or `None` when the operating system's random
/// source fails.
pub fn generate_seed() -> (seed: Option<Vec<u8>>)
    ensures
        seed matches Some(s) ==> s@.len() == SEED_BYTES,
{
    let mut buf: Vec<u8> = vec![0u8; SEED_BYTES];
    if fill_random(&mut buf) {
        Some(buf)
    } else {
        None
    }
}

/// The seed held by a seed file with contents `raw`; `None` for an empty file, which is
/// refused.
pub fn seed_from_file(raw: &[u8]) -> (seed: Option<Vec<u8>>)
    ensures
        raw@.len() == 0 ==> seed is None,
        raw@.len() > 0 ==> (seed matches Some(s) && s@ == decoded_seed(raw@)),
{
    if raw.len() == 0 {
        None
    } else {
        Some(decode_seed(raw))
    }
}

/// Do the permission bits of a seed file's mode allow its owner alone to read and write it
/// (`0o600`)? Bits above the permission bits are ignored.
pub fn seed_mode_ok(mode: u32) -> (ok: bool)
    ensures
        ok == (mode % 512 == SEED_FILE_MODE),
{
    let bits = mode & 0o777;
    assert(mode & 0o777 == mode % 512) by (bit_vector);
    bits == SEED_FILE_MODE
}

} // verus!
