use vstd::prelude::*;

use crate::strutil::push_char;

verus! {

/// The base-64 digit character for a value below 64: upper-case letters,
/// lower-case letters, decimal digits, plus and slash.
pub open spec fn b64_char(d: int) -> char {
    if d < 26 {
        ((65 + d) as u8) as char
    } else if d < 52 {
        ((71 + d) as u8) as char
    } else if d < 62 {
        ((d - 4) as u8) as char
    } else if d == 62 {
        '+'
    } else {
        '/'
    }
}

/// The base-64 text of a byte sequence, with padding to a multiple of four
/// characters.
pub open spec fn b64_str(bytes: Seq<u8>) -> Seq<char>
    decreases bytes.len(),
{
    if bytes.len() == 0 {
        Seq::empty()
    } else if bytes.len() == 1 {
        let b0 = bytes[0] as int;
        seq![b64_char(b0 / 4), b64_char(b0 % 4 * 16), '=', '=']
    } else if bytes.len() == 2 {
        let b0 = bytes[0] as int;
        let b1 = bytes[1] as int;
        seq![b64_char(b0 / 4), b64_char(b0 % 4 * 16 + b1 / 16), b64_char(b1 % 16 * 4), '=']
    } else {
        let b0 = bytes[0] as int;
        let b1 = bytes[1] as int;
        let b2 = bytes[2] as int;
        seq![
            b64_char(b0 / 4),
            b64_char(b0 % 4 * 16 + b1 / 16),
            b64_char(b1 % 16 * 4 + b2 / 64),
            b64_char(b2 % 64),
        ] + b64_str(bytes.skip(3))
    }
}

fn b64_digit(d: u8) -> (c: char)
    requires
        d < 64,
    ensures
        c == b64_char(d as int),
{
    if d < 26 {
        (65 + d) as char
    } else if d < 52 {
        (71 + d) as char
    } else if d < 62 {
        (d - 4) as char
    } else if d == 62 {
        '+'
    } else {
        '/'
    }
}

/// Appends the base-64 text of the bytes.
pub fn b64_encode_into(bytes: &Vec<u8>, s: &mut String)
    ensures
        final(s)@ == old(s)@ + b64_str(bytes@),
{
    let n = bytes.len();
    let mut j: usize = 0;
    proof {
        assert(bytes@.skip(0) =~= bytes@);
    }
    while j < n && n - j >= 3
        invariant
            n == bytes@.len(),
            j <= n,
            s@ + b64_str(bytes@.skip(j as int)) == old(s)@ + b64_str(bytes@),
        decreases n - j,
    {
        let b0 = bytes[j];
        let b1 = bytes[j + 1];
        let b2 = bytes[j + 2];
        proof {
            assert(bytes@.skip(j as int)[0] == b0);
            assert(bytes@.skip(j as int)[1] == b1);
            assert(bytes@.skip(j as int)[2] == b2);
            assert(bytes@.skip(j as int).skip(3) =~= bytes@.skip(j as int + 3));
        }
        push_char(s, b64_digit(b0 / 4));
        push_char(s, b64_digit(b0 % 4 * 16 + b1 / 16));
        push_char(s, b64_digit(b1 % 16 * 4 + b2 / 64));
        push_char(s, b64_digit(b2 % 64));
        proof {
            assert(s@ + b64_str(bytes@.skip(j as int + 3)) =~= old(s)@ + b64_str(bytes@));
        }
        j = j + 3;
    }
    if n - j == 1 {
        let b0 = bytes[j];
        proof {
            assert(bytes@.skip(j as int)[0] == b0);
            assert(bytes@.skip(j as int).len() == 1);
        }
        push_char(s, b64_digit(b0 / 4));
        push_char(s, b64_digit(b0 % 4 * 16));
        push_char(s, '=');
        push_char(s, '=');
        proof {
            assert(s@ =~= old(s)@ + b64_str(bytes@));
        }
    } else if n - j == 2 {
        let b0 = bytes[j];
        let b1 = bytes[j + 1];
        proof {
            assert(bytes@.skip(j as int)[0] == b0);
            assert(bytes@.skip(j as int)[1] == b1);
            assert(bytes@.skip(j as int).len() == 2);
        }
        push_char(s, b64_digit(b0 / 4));
        push_char(s, b64_digit(b0 % 4 * 16 + b1 / 16));
        push_char(s, b64_digit(b1 % 16 * 4));
        push_char(s, '=');
        proof {
            assert(s@ =~= old(s)@ + b64_str(bytes@));
        }
    } else {
        proof {
            assert(bytes@.skip(j as int).len() == 0);
            assert(b64_str(bytes@.skip(j as int)) =~= Seq::<char>::empty());
            assert(s@ =~= old(s)@ + b64_str(bytes@));
        }
    }
}

} // verus!
