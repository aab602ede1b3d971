//! The shared-secret gate before every protected route.
use vstd::prelude::*;
use vstd::string::*;

use crate::text;

verus! {

/// What an optional text holds.
pub open spec fn opt_chars(s: Option<&str>) -> Option<Seq<char>> {
    match s {
        Some(s) => Some(s@),
        None => None,
    }
}

/// The token passes: one is configured, and the one provided is the same.
pub open spec fn token_passes(provided: Option<Seq<char>>, expected: Option<Seq<char>>) -> bool {
    expected is Some && provided == expected
}

/// Bits that differ, gathered.
proof fn lemma_gathered(diff: u8, a: u8, b: u8)
    ensures
        (diff | (a ^ b)) == 0 <==> diff == 0 && a == b,
{
    assert((diff | (a ^ b)) == 0 <==> diff == 0 && a == b) by (bit_vector);
}

/// Texts with the same bytes are the same.
proof fn lemma_same_bytes(a: &str, b: &str)
    requires
        a.spec_bytes() == b.spec_bytes(),
    ensures
        a@ == b@,
{
    vstd::utf8::encode_utf8_decode_utf8(a@);
    vstd::utf8::encode_utf8_decode_utf8(b@);
}

/// Whether the provided token is the expected one. Closed where none is
/// configured. Every byte is looked at, wherever the first difference is: the
/// token is a secret.
pub fn bearer_ok(provided: Option<&str>, expected: Option<&str>) -> (b: bool)
    ensures
        b == token_passes(opt_chars(provided), opt_chars(expected)),
{
    match (provided, expected) {
        (Some(provided), Some(expected)) => {
            let p = provided.as_bytes();
            let e = expected.as_bytes();
            if p.len() != e.len() {
                return false;
            }
            let mut diff: u8 = 0;
            let mut i: usize = 0;
            while i < p.len()
                invariant
                    i <= p@.len(),
                    p@.len() == e@.len(),
                    diff == 0 <==> (forall|k: int| 0 <= k < i ==> #[trigger] p@[k] == e@[k]),
                decreases p@.len() - i,
            {
                proof {
                    lemma_gathered(diff, p@[i as int], e@[i as int]);
                }
                let ghost was = diff;
                diff = diff | (p[i] ^ e[i]);
                proof {
                    if diff != 0 && was == 0 {
                        assert(p@[i as int] != e@[i as int]);
                    }
                }
                i = i + 1;
            }
            proof {
                if diff == 0 {
                    assert(p@ =~= e@);
                    lemma_same_bytes(provided, expected);
                }
            }
            diff == 0
        },
        _ => false,
    }
}

/// The token in an authorization header.
pub open spec fn bearer_of(header: Seq<char>) -> Option<Seq<char>> {
    if text::begins(header, "Bearer "@) {
        Some(header.skip("Bearer "@.len() as int))
    } else {
        None
    }
}

/// Whether a request with the authorization header gets in.
pub fn gate_opens(header: Option<&str>, expected: Option<&str>) -> (b: bool)
    ensures
        b == (header is Some && token_passes(bearer_of(header->0@), opt_chars(expected))),
{
    match header {
        Some(h) => if text::starts_with(h, "Bearer ") {
            let skip: usize = "Bearer ".unicode_len();
            let n: usize = h.unicode_len();
            let token = h.substring_char(skip, n);
            assert(token@ =~= h@.skip("Bearer "@.len() as int));
            bearer_ok(Some(token), expected)
        } else {
            false
        },
        None => false,
    }
}

/// With no token configured nothing gets in, whatever it presents.
pub proof fn law_the_gate_is_closed_without_a_token(provided: Option<Seq<char>>)
    ensures
        !token_passes(provided, None),
{
}

/// A header gets in if and only if it is the word, a blank and the exact token.
pub proof fn law_only_the_exact_header_gets_in(header: Seq<char>, expected: Seq<char>)
    ensures
        token_passes(bearer_of(header), Some(expected)) <==> header == "Bearer "@ + expected,
{
    if text::begins(header, "Bearer "@) {
        assert(header =~= "Bearer "@ + header.skip("Bearer "@.len() as int));
    }
    if header == "Bearer "@ + expected {
        assert(header.skip("Bearer "@.len() as int) =~= expected);
        assert(header.take("Bearer "@.len() as int) =~= "Bearer "@);
    }
}

} // verus!
