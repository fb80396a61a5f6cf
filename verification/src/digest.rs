use vstd::prelude::*;
use vstd::utf8::encode_utf8;

use sha2::Digest;

use crate::json::hex_digit;
use crate::json::hex_digit_exec;
use crate::text::string_from_chars;

verus! {

/// The SHA-256 digest of a byte string, as sha2 computes it.
pub uninterp spec fn sha256_of(bytes: Seq<u8>) -> Seq<u8>;

/// `sha2::Sha256::digest`: the 32-byte SHA-256 digest of `bytes`.
/// The contract names the result (`sha256_of`) and states its length; the
/// hash function itself is not restated.
#[verifier::external_body]
fn sha256(bytes: &[u8]) -> (d: Vec<u8>)
    ensures
        d@ == sha256_of(bytes@),
        d@.len() == 32,
{
    sha2::Sha256::digest(bytes).to_vec()
}

/// Two lowercase hexadecimal digits per byte.
pub open spec fn hex_of(bytes: Seq<u8>) -> Seq<char>
    decreases bytes.len(),
{
    if bytes.len() == 0 {
        Seq::empty()
    } else {
        hex_of(bytes.drop_last()) + seq![
            hex_digit((bytes.last() / 16) as int),
            hex_digit((bytes.last() % 16) as int),
        ]
    }
}

/// The lowercase hexadecimal SHA-256 digest of the UTF-8 encoding of `text`.
pub open spec fn hex_sha256_of(text: Seq<char>) -> Seq<char> {
    hex_of(sha256_of(encode_utf8(text)))
}

/// A `sha256:`-prefixed digest of the UTF-8 encoding of `text`.
pub open spec fn digest_of(text: Seq<char>) -> Seq<char> {
    seq!['s', 'h', 'a', '2', '5', '6', ':'] + hex_sha256_of(text)
}

/// Appends the hexadecimal digits of `bytes`.
pub fn push_hex(out: &mut Vec<char>, bytes: &[u8])
    ensures
        final(out)@ == old(out)@ + hex_of(bytes@),
{
    let ghost start = out@;
    let mut i: usize = 0;
    while i < bytes.len()
        invariant
            i <= bytes@.len(),
            out@ == start + hex_of(bytes@.take(i as int)),
        decreases bytes.len() - i,
    {
        let b = bytes[i];
        out.push(hex_digit_exec((b / 16) as u32));
        out.push(hex_digit_exec((b % 16) as u32));
        proof {
            let t = bytes@.take(i + 1);
            assert(t.drop_last() =~= bytes@.take(i as int));
            assert(t.last() == b);
        }
        i += 1;
    }
    proof {
        assert(bytes@.take(bytes@.len() as int) =~= bytes@);
    }
}

/// Appends the lowercase hexadecimal SHA-256 digest of the UTF-8 text `text`.
pub fn push_hex_sha256(out: &mut Vec<char>, text: &[char])
    ensures
        final(out)@ == old(out)@ + hex_sha256_of(text@),
{
    let s = string_from_chars(text);
    let bytes = s.as_str().as_bytes();
    let d = sha256(bytes);
    push_hex(out, d.as_slice());
}

/// The `sha256:`-prefixed digest of `text`.
pub fn digest_text(text: &[char]) -> (s: String)
    ensures
        s@ == digest_of(text@),
{
    let mut out: Vec<char> = Vec::new();
    out.push('s');
    out.push('h');
    out.push('a');
    out.push('2');
    out.push('5');
    out.push('6');
    out.push(':');
    push_hex_sha256(&mut out, text);
    string_from_chars(out.as_slice())
}


/// The `sha256:`-prefixed lowercase hexadecimal SHA-256 digest of raw bytes,
/// as a locked policy source records it.
pub fn source_digest(bytes: &[u8]) -> (s: String)
    ensures
        s@ == seq!['s', 'h', 'a', '2', '5', '6', ':'] + hex_of(sha256_of(bytes@)),
{
    let mut out: Vec<char> = Vec::new();
    out.push('s');
    out.push('h');
    out.push('a');
    out.push('2');
    out.push('5');
    out.push('6');
    out.push(':');
    let d = sha256(bytes);
    push_hex(&mut out, d.as_slice());
    string_from_chars(out.as_slice())
}

} // verus!
