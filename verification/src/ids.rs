use vstd::prelude::*;

use crate::PyramusError;
use crate::strutil::push_char;

verus! {

/// An identifier for an item within one template. Two templates may reuse the
/// same internal id, but within a single template every item's id is unique.
#[derive(Debug, Clone, Copy, PartialEq, Eq, PartialOrd, Ord, Hash, Structural)]
pub struct InternalId(pub u32);

impl InternalId {
    /// Wraps a raw 32-bit value as an internal id. Fresh ids for a template
    /// come from the template itself, which knows which values are taken.
    pub fn new(value: u32) -> (r: InternalId)
        ensures
            r.0 == value,
    {
        InternalId(value)
    }
}

/// An identifier for a shareable base document. It is addressable across the
/// whole system and has a stable textual form in base 62.
#[derive(Debug, Clone, Copy, PartialEq, Eq, PartialOrd, Ord, Hash, Structural)]
pub struct PyramusId(pub u32);

/// The base-62 digit character for a value below 62: decimal digits, then
/// upper-case letters, then lower-case letters.
pub open spec fn b62_char(d: int) -> char {
    if d < 10 {
        ((48 + d) as u8) as char
    } else if d < 36 {
        ((55 + d) as u8) as char
    } else {
        ((61 + d) as u8) as char
    }
}

/// The base-62 value of a character, or -1 when it is no base-62 digit.
pub open spec fn b62_char_val(c: char) -> int {
    let u = c as u32;
    if 48 <= u <= 57 {
        u - 48
    } else if 65 <= u <= 90 {
        u - 65 + 10
    } else if 97 <= u <= 122 {
        u - 97 + 36
    } else {
        -1
    }
}

pub proof fn lemma_b62_char_val(d: int)
    requires
        0 <= d < 62,
    ensures
        b62_char_val(b62_char(d)) == d,
{
}

/// The base-62 digits of a non-negative integer, most significant first,
/// without leading zeroes.
pub open spec fn b62_digits(n: int) -> Seq<char>
    decreases n,
{
    if n < 62 {
        seq![b62_char(if n < 0 { 0 } else { n })]
    } else {
        b62_digits(n / 62).push(b62_char(n % 62))
    }
}

/// The canonical textual form of a shareable id value.
pub open spec fn shareable_text(n: int) -> Seq<char> {
    b62_digits(n)
}

/// The value of base-62 text read left to right onto an accumulator, or
/// nothing when some character is no base-62 digit.
pub open spec fn b62_val_acc(s: Seq<char>, acc: int) -> Option<int>
    decreases s.len(),
{
    if s.len() == 0 {
        Some(acc)
    } else {
        let d = b62_char_val(s[0]);
        if d < 0 {
            None
        } else {
            b62_val_acc(s.skip(1), acc * 62 + d)
        }
    }
}

/// What parsing a textual shareable id yields: the base-62 value of the
/// text when it is non-empty, made of base-62 digits alone, and in range
/// for 32 bits; nothing otherwise.
pub open spec fn parse_shareable(s: Seq<char>) -> Option<u32> {
    if s.len() == 0 {
        None
    } else {
        match b62_val_acc(s, 0) {
            Some(v) => if v <= u32::MAX { Some(v as u32) } else { None },
            None => None,
        }
    }
}

proof fn lemma_b62_val_acc_mono(s: Seq<char>, acc: int)
    requires
        0 <= acc,
        b62_val_acc(s, acc).is_some(),
    ensures
        b62_val_acc(s, acc).unwrap() >= acc,
    decreases s.len(),
{
    if s.len() > 0 {
        let d = b62_char_val(s[0]);
        assert(acc * 62 + d >= acc) by (nonlinear_arith)
            requires 0 <= acc && 0 <= d;
        lemma_b62_val_acc_mono(s.skip(1), acc * 62 + d);
    }
}

spec fn b62_pow(n: int) -> int
    decreases n,
{
    if n < 62 {
        62
    } else {
        62 * b62_pow(n / 62)
    }
}

proof fn lemma_b62_val_acc_append_digit(s: Seq<char>, acc: int, v: int, d: int)
    requires
        0 <= d < 62,
        b62_val_acc(s, acc) == Some(v),
    ensures
        b62_val_acc(s.push(b62_char(d)), acc) == Some(v * 62 + d),
    decreases s.len(),
{
    lemma_b62_char_val(d);
    if s.len() == 0 {
        assert(s.push(b62_char(d))[0] == b62_char(d));
        assert(s.push(b62_char(d)).skip(1) =~= Seq::<char>::empty());
        assert(b62_val_acc(Seq::<char>::empty(), acc * 62 + d) == Some(acc * 62 + d));
    } else {
        assert(s.push(b62_char(d))[0] == s[0]);
        assert(s.push(b62_char(d)).skip(1) =~= s.skip(1).push(b62_char(d)));
        lemma_b62_val_acc_append_digit(s.skip(1), acc * 62 + b62_char_val(s[0]), v, d);
    }
}

proof fn lemma_b62_val_acc_of_digits(n: int, acc: int)
    requires
        0 <= n,
    ensures
        b62_val_acc(b62_digits(n), acc) == Some(acc * b62_pow(n) + n),
    decreases n,
{
    if n < 62 {
        assert(b62_digits(n) == seq![b62_char(n)]);
        assert(b62_digits(n)[0] == b62_char(n));
        assert(b62_digits(n).skip(1) =~= Seq::<char>::empty());
        lemma_b62_char_val(n);
        assert(b62_val_acc(Seq::<char>::empty(), acc * 62 + n) == Some(acc * 62 + n));
    } else {
        lemma_b62_val_acc_of_digits(n / 62, acc);
        lemma_b62_val_acc_append_digit(b62_digits(n / 62), acc, acc * b62_pow(n / 62) + n / 62, n % 62);
        assert(b62_pow(n) == 62 * b62_pow(n / 62));
        assert((acc * b62_pow(n / 62) + n / 62) * 62 + n % 62 == acc * (62 * b62_pow(n / 62)) + (
        (n / 62) * 62 + n % 62)) by (nonlinear_arith);
        assert((n / 62) * 62 + n % 62 == n) by (nonlinear_arith)
            requires n >= 62;
        assert(acc * (62 * b62_pow(n / 62)) == acc * b62_pow(n));
    }
}

/// Parsing the canonical textual form of a 32-bit shareable id value gives
/// back that value.
pub proof fn lemma_shareable_round_trip(n: u32)
    ensures
        parse_shareable(shareable_text(n as int)) == Some(n),
{
    lemma_b62_val_acc_of_digits(n as int, 0);
}

fn b62_digit(d: u8) -> (c: char)
    requires
        d < 62,
    ensures
        c == b62_char(d as int),
{
    if d < 10 {
        (48 + d) as char
    } else if d < 36 {
        (55 + d) as char
    } else {
        (61 + d) as char
    }
}

fn b62_encode_into(n: u32, s: &mut String)
    ensures
        final(s)@ == old(s)@ + b62_digits(n as int),
    decreases n,
{
    if n < 62 {
        push_char(s, b62_digit(n as u8));
    } else {
        b62_encode_into(n / 62, s);
        push_char(s, b62_digit((n % 62) as u8));
        proof {
            assert(final(s)@ =~= old(s)@ + b62_digits(n as int));
        }
    }
}

fn b62_digit_val(c: char) -> (r: Option<u8>)
    ensures
        match r {
            Some(d) => d < 62 && b62_char_val(c) == d as int,
            None => b62_char_val(c) < 0,
        },
{
    let u = c as u32;
    if 48 <= u && u <= 57 {
        Some((u - 48) as u8)
    } else if 65 <= u && u <= 90 {
        Some((u - 65 + 10) as u8)
    } else if 97 <= u && u <= 122 {
        Some((u - 97 + 36) as u8)
    } else {
        None
    }
}

impl PyramusId {
    /// The stable base-62 textual form of the id.
    pub fn format(&self) -> (s: String)
        ensures
            s@ == shareable_text(self.0 as int),
    {
        let mut s = String::new();
        b62_encode_into(self.0, &mut s);
        proof {
            assert(s@ =~= shareable_text(self.0 as int));
        }
        s
    }

    /// Reads a shareable id back from its base-62 textual form. Text that is
    /// empty, holds a character outside base 62, or encodes a value above 32
    /// bits is rejected as an invalid identifier.
    pub fn parse(s: &str) -> (r: Result<PyramusId, PyramusError>)
        ensures
            match r {
                Ok(id) => parse_shareable(s@) == Some(id.0),
                Err(e) => parse_shareable(s@) is None && e == PyramusError::InvalidIdentifier,
            },
    {
        let len = s.unicode_len();
        if len == 0 {
            return Err(PyramusError::InvalidIdentifier);
        }
        let mut acc: u64 = 0;
        let mut i: usize = 0;
        proof {
            assert(s@.skip(0) =~= s@);
        }
        while i < len
            invariant
                0 < len == s@.len(),
                i <= len,
                acc <= u32::MAX,
                b62_val_acc(s@, 0) == b62_val_acc(s@.skip(i as int), acc as int),
            decreases len - i,
        {
            let c = s.get_char(i);
            proof {
                assert(s@.skip(i as int)[0] == s@[i as int]);
                assert(s@.skip(i as int).skip(1) =~= s@.skip(i as int + 1));
            }
            match b62_digit_val(c) {
                None => {
                    return Err(PyramusError::InvalidIdentifier);
                },
                Some(d) => {
                    acc = acc * 62 + d as u64;
                    if acc > u32::MAX as u64 {
                        proof {
                            if b62_val_acc(s@, 0).is_some() {
                                lemma_b62_val_acc_mono(s@.skip(i as int + 1), acc as int);
                            }
                        }
                        return Err(PyramusError::InvalidIdentifier);
                    }
                },
            }
            i = i + 1;
        }
        proof {
            assert(s@.skip(len as int) =~= Seq::<char>::empty());
        }
        Ok(PyramusId(acc as u32))
    }

    /// Wraps host-supplied entropy as a shareable id. The engine itself draws
    /// no randomness; the host hands the raw value in.
    pub fn debug_new(entropy: u32) -> (r: PyramusId)
        ensures
            r.0 == entropy,
    {
        PyramusId(entropy)
    }
}

} // verus!
