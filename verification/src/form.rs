//! Form decoding (`application/x-www-form-urlencoded` values).
use vstd::prelude::*;

verus! {

/// The value of a hexadecimal digit, or -1.
pub open spec fn hex_val(c: char) -> int {
    if '0' <= c <= '9' {
        c as int - 48
    } else if 'A' <= c <= 'F' {
        c as int - 55
    } else if 'a' <= c <= 'f' {
        c as int - 87
    } else {
        -1
    }
}

/// Decodes a form-encoded value: `%XX` stands for the character with code
/// `XX` (hexadecimal), `+` for a space.
pub open spec fn form_decode(s: Seq<char>) -> Option<Seq<char>>
    decreases s.len(),
{
    if s.len() == 0 {
        Some(Seq::empty())
    } else if s[0] == '%' {
        if s.len() < 3 || hex_val(s[1]) < 0 || hex_val(s[2]) < 0 {
            None
        } else {
            match form_decode(s.skip(3)) {
                Some(r) => Some(seq![(hex_val(s[1]) * 16 + hex_val(s[2])) as char] + r),
                None => None,
            }
        }
    } else {
        match form_decode(s.skip(1)) {
            Some(r) => Some(seq![if s[0] == '+' {
                ' '
            } else {
                s[0]
            }] + r),
            None => None,
        }
    }
}

/// The grant type, as the form writes it, decodes to the JWT-bearer grant.
pub proof fn lemma_grant_type_decodes()
    ensures
        form_decode("urn%3Aietf%3Aparams%3Aoauth%3Agrant-type%3Ajwt-bearer"@) == Some(
            "urn:ietf:params:oauth:grant-type:jwt-bearer"@,
        ),
{
    reveal_strlit("urn%3Aietf%3Aparams%3Aoauth%3Agrant-type%3Ajwt-bearer");
    reveal_strlit("urn:ietf:params:oauth:grant-type:jwt-bearer");
    reveal_with_fuel(form_decode, 50);
}

} // verus!
