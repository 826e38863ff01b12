//! Percent-encoding of query parameter values (RFC 3986 unreserved bytes
//! kept, everything else as `%XX`).
use vstd::prelude::*;
use vstd::utf8::encode_utf8;
use crate::text::push;

verus! {

broadcast use vstd::string::group_string_axioms;

/// RFC 3986 unreserved byte.
pub open spec fn unreserved(b: u8) -> bool {
    (65 <= b <= 90) || (97 <= b <= 122) || (48 <= b <= 57) || b == 45 || b == 95 || b == 46 || b == 126
}

/// Upper-case hex digit of a nibble.
pub open spec fn hex_digit(n: u8) -> char {
    if n <= 9 { ((48 + n) as u8) as char } else { ((65 + n - 10) as u8) as char }
}

/// Percent-encoding of bytes: unreserved bytes kept, others as `%XX`.
pub open spec fn percent_encode(b: Seq<u8>) -> Seq<char>
    decreases b.len(),
{
    if b.len() == 0 {
        Seq::<char>::empty()
    } else {
        let x = b.last();
        percent_encode(b.drop_last()) + if unreserved(x) {
            seq![x as char]
        } else {
            seq!['%', hex_digit(x / 16), hex_digit(x % 16)]
        }
    }
}

/// Upper-case hex digit of a nibble.
pub fn hex_nibble(n: u8) -> (c: char)
    requires
        n < 16,
    ensures
        c == hex_digit(n),
{
    if n <= 9 { (48 + n) as char } else { (65 + n - 10) as char }
}

/// Percent-encode a string for use in a URL query parameter value.
pub fn encode(s: &str) -> (r: String)
    ensures
        r@ == percent_encode(encode_utf8(s@)),
{
    let bytes = s.as_bytes();
    let mut out = String::new();
    let mut i: usize = 0;
    while i < bytes.len()
        invariant
            i <= bytes@.len(),
            bytes@ == encode_utf8(s@),
            out@ == percent_encode(bytes@.take(i as int)),
        decreases bytes.len() - i,
    {
        let b = bytes[i];
        proof {
            assert(bytes@.take(i + 1).drop_last() =~= bytes@.take(i as int));
            assert(bytes@.take(i + 1).last() == b);
        }
        if (65 <= b && b <= 90) || (97 <= b && b <= 122) || (48 <= b && b <= 57) || b == 45 || b == 95
            || b == 46 || b == 126 {
            push(&mut out, b as char);
            proof {
                assert(out@ =~= percent_encode(bytes@.take(i + 1)));
            }
        } else {
            let ghost before = out@;
            push(&mut out, '%');
            push(&mut out, hex_nibble(b / 16));
            push(&mut out, hex_nibble(b % 16));
            proof {
                assert(out@ =~= before + seq!['%', hex_digit(b / 16), hex_digit(b % 16)]);
            }
        }
        i = i + 1;
    }
    proof {
        assert(bytes@.take(bytes@.len() as int) =~= bytes@);
    }
    out
}


} // verus!
