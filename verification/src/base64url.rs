//! URL-safe, unpadded base64 (RFC 4648 §5), as the `base64` crate's
//! `URL_SAFE_NO_PAD` engine writes it.
use base64::engine::general_purpose::URL_SAFE_NO_PAD;
use base64::Engine;
use vstd::prelude::*;

verus! {

/// The character of the 6-bit value `v` in the URL-safe alphabet
/// `A-Z a-z 0-9 - _`.
pub open spec fn url_char(v: nat) -> char {
    if v < 26 {
        (v + 65) as char
    } else if v < 52 {
        (v - 26 + 97) as char
    } else if v < 62 {
        (v - 52 + 48) as char
    } else if v == 62 {
        '-'
    } else {
        '_'
    }
}

/// The URL-safe base64 text of `bytes` without padding: every three bytes
/// become four characters of six bits each, and a final one or two bytes
/// become two or three characters, the last one filled up with zero bits.
pub open spec fn base64_url(bytes: Seq<u8>) -> Seq<char>
    decreases bytes.len(),
{
    if bytes.len() == 0 {
        Seq::empty()
    } else if bytes.len() == 1 {
        let b0 = bytes[0] as nat;
        seq![url_char(b0 / 4), url_char((b0 % 4) * 16)]
    } else if bytes.len() == 2 {
        let b0 = bytes[0] as nat;
        let b1 = bytes[1] as nat;
        seq![url_char(b0 / 4), url_char((b0 % 4) * 16 + b1 / 16), url_char((b1 % 16) * 4)]
    } else {
        let b0 = bytes[0] as nat;
        let b1 = bytes[1] as nat;
        let b2 = bytes[2] as nat;
        seq![
            url_char(b0 / 4),
            url_char((b0 % 4) * 16 + b1 / 16),
            url_char((b1 % 16) * 4 + b2 / 64),
            url_char(b2 % 64),
        ] + base64_url(bytes.skip(3))
    }
}

/// The length of the unpadded base64 text of `n` bytes: four characters per
/// three bytes, and two or three for a final one or two.
pub open spec fn base64_len(n: nat) -> nat {
    (n / 3) * 4 + if n % 3 == 0 {
        0nat
    } else if n % 3 == 1 {
        2nat
    } else {
        3nat
    }
}

/// A character of the URL-safe base64 alphabet.
pub open spec fn is_base64_url_char(c: char) -> bool {
    ||| 'A' <= c <= 'Z'
    ||| 'a' <= c <= 'z'
    ||| '0' <= c <= '9'
    ||| c == '-'
    ||| c == '_'
}

/// Every character of `s` is in the URL-safe base64 alphabet.
pub open spec fn is_base64_url_text(s: Seq<char>) -> bool {
    forall|i: int| 0 <= i < s.len() ==> is_base64_url_char(#[trigger] s[i])
}

/// Every 6-bit value has a character of the alphabet.
pub proof fn lemma_url_char(v: nat)
    ensures
        is_base64_url_char(url_char(v)),
{
    if v < 26 {
        assert((v + 65) as char as int == v + 65);
    } else if v < 52 {
        assert((v - 26 + 97) as char as int == v - 26 + 97);
    } else if v < 62 {
        assert((v - 52 + 48) as char as int == v - 52 + 48);
    }
}

/// The encoded text has the length `base64_len` gives, and only characters
/// of the URL-safe alphabet.
pub proof fn lemma_base64_url_shape(bytes: Seq<u8>)
    ensures
        base64_url(bytes).len() == base64_len(bytes.len()),
        is_base64_url_text(base64_url(bytes)),
    decreases bytes.len(),
{
    let e = base64_url(bytes);
    if bytes.len() == 0 {
    } else if bytes.len() == 1 {
        let b0 = bytes[0] as nat;
        lemma_url_char(b0 / 4);
        lemma_url_char((b0 % 4) * 16);
    } else if bytes.len() == 2 {
        let b0 = bytes[0] as nat;
        let b1 = bytes[1] as nat;
        lemma_url_char(b0 / 4);
        lemma_url_char((b0 % 4) * 16 + b1 / 16);
        lemma_url_char((b1 % 16) * 4);
    } else {
        let b0 = bytes[0] as nat;
        let b1 = bytes[1] as nat;
        let b2 = bytes[2] as nat;
        lemma_url_char(b0 / 4);
        lemma_url_char((b0 % 4) * 16 + b1 / 16);
        lemma_url_char((b1 % 16) * 4 + b2 / 64);
        lemma_url_char(b2 % 64);
        lemma_base64_url_shape(bytes.skip(3));
        let head = seq![
            url_char(b0 / 4),
            url_char((b0 % 4) * 16 + b1 / 16),
            url_char((b1 % 16) * 4 + b2 / 64),
            url_char(b2 % 64),
        ];
        let tail = base64_url(bytes.skip(3));
        assert(e == head + tail);
        assert forall|i: int| 0 <= i < e.len() implies is_base64_url_char(#[trigger] e[i]) by {
            if i < 4 {
                assert(e[i] == head[i]);
            } else {
                assert(e[i] == tail[i - 4]);
            }
        }
        let n = bytes.len();
        assert(base64_len(n) == base64_len((n - 3) as nat) + 4) by {
            assert((n - 3) / 3 == n / 3 - 1);
            assert((n - 3) % 3 == n % 3);
        }
    }
}

/// `URL_SAFE_NO_PAD.encode(bytes)` (`base64::Engine::encode`), which writes
/// the URL-safe alphabet (`alphabet::URL_SAFE`) without padding (`NO_PAD`).
/// The crate panics when the encoded length overflows `usize`
/// (`encoded_len` gives `None`), which `requires` leaves out.
#[verifier::external_body]
pub fn encode_base64_url(bytes: &[u8]) -> (r: String)
    requires
        base64_len(bytes@.len()) <= usize::MAX,
    ensures
        r@ == base64_url(bytes@),
{
    URL_SAFE_NO_PAD.encode(bytes)
}

} // verus!
