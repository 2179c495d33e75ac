use vstd::prelude::*;

use crate::strutil::push_char;

verus! {

/// The decimal digit character for a value below ten.
pub open spec fn dec_char(d: int) -> char {
    ((48 + d) as u8) as char
}

/// The digit value of a character, or -1 when it is no decimal digit.
pub open spec fn dec_char_val(c: char) -> int {
    if 48 <= c as u32 <= 57 {
        c as u32 - 48
    } else {
        -1
    }
}

pub proof fn lemma_dec_char_val(d: int)
    requires
        0 <= d < 10,
    ensures
        dec_char_val(dec_char(d)) == d,
{
}

/// The decimal text of a non-negative integer, most significant digit first.
pub open spec fn dec_str(n: int) -> Seq<char>
    decreases n,
{
    if n < 10 {
        seq![dec_char(if n < 0 { 0 } else { n })]
    } else {
        dec_str(n / 10).push(dec_char(n % 10))
    }
}

/// The decimal text of an integer, with a leading minus sign when negative.
pub open spec fn dec_str_signed(n: int) -> Seq<char> {
    if n < 0 {
        seq!['-'] + dec_str(-n)
    } else {
        dec_str(n)
    }
}

fn dec_digit(d: u64) -> (c: char)
    requires
        d < 10,
    ensures
        c == dec_char(d as int),
{
    (48 + d as u8) as char
}

/// Appends the decimal text of an unsigned machine integer.
pub fn fmt_u64_into(n: u64, s: &mut String)
    ensures
        final(s)@ == old(s)@ + dec_str(n as int),
    decreases n,
{
    if n < 10 {
        push_char(s, dec_digit(n));
    } else {
        fmt_u64_into(n / 10, s);
        push_char(s, dec_digit(n % 10));
        proof {
            assert(final(s)@ =~= old(s)@ + dec_str(n as int));
        }
    }
}

/// The decimal text of an unsigned machine integer.
pub fn fmt_u64(n: u64) -> (s: String)
    ensures
        s@ == dec_str(n as int),
{
    let mut s = String::new();
    fmt_u64_into(n, &mut s);
    proof {
        assert(s@ =~= dec_str(n as int));
    }
    s
}

/// The decimal text of a signed machine integer.
pub fn fmt_i64(n: i64) -> (s: String)
    ensures
        s@ == dec_str_signed(n as int),
{
    let mut s = String::new();
    fmt_i64_into(n, &mut s);
    proof {
        assert(s@ =~= dec_str_signed(n as int));
    }
    s
}

/// Appends the decimal text of a signed machine integer.
pub fn fmt_i64_into(n: i64, s: &mut String)
    ensures
        final(s)@ == old(s)@ + dec_str_signed(n as int),
{
    if n < 0 {
        push_char(s, '-');
        let m: u64 = (-(n as i128)) as u64;
        fmt_u64_into(m, s);
        proof {
            assert(final(s)@ =~= old(s)@ + dec_str_signed(n as int));
        }
    } else {
        fmt_u64_into(n as u64, s);
    }
}

/// The value of a run of decimal digits read left to right onto an
/// accumulator, or nothing when some character is no digit.
pub open spec fn dec_val_acc(s: Seq<char>, acc: int) -> Option<int>
    decreases s.len(),
{
    if s.len() == 0 {
        Some(acc)
    } else {
        let d = dec_char_val(s[0]);
        if d < 0 {
            None
        } else {
            dec_val_acc(s.skip(1), acc * 10 + d)
        }
    }
}

/// The value of a non-empty, all-digit sequence.
pub open spec fn dec_val(s: Seq<char>) -> Option<int> {
    if s.len() == 0 {
        None
    } else {
        dec_val_acc(s, 0)
    }
}

/// Reading digits never shrinks a non-negative accumulator.
pub proof fn lemma_dec_val_acc_mono(s: Seq<char>, acc: int)
    requires
        0 <= acc,
        dec_val_acc(s, acc).is_some(),
    ensures
        dec_val_acc(s, acc).unwrap() >= acc,
    decreases s.len(),
{
    if s.len() > 0 {
        let d = dec_char_val(s[0]);
        assert(acc * 10 + d >= acc) by (nonlinear_arith)
            requires 0 <= acc && 0 <= d;
        lemma_dec_val_acc_mono(s.skip(1), acc * 10 + d);
    }
}

/// The power of ten matching the width of `dec_str(n)`.
pub open spec fn dec_pow(n: int) -> int
    decreases n,
{
    if n < 10 {
        10
    } else {
        10 * dec_pow(n / 10)
    }
}

proof fn lemma_dec_val_acc_of_str(n: int, acc: int)
    requires
        0 <= n,
    ensures
        dec_val_acc(dec_str(n), acc) == Some(acc * dec_pow(n) + n),
    decreases n,
{
    if n < 10 {
        assert(dec_str(n) == seq![dec_char(n)]);
        assert(dec_str(n)[0] == dec_char(n));
        assert(dec_str(n).skip(1) =~= Seq::<char>::empty());
        lemma_dec_char_val(n);
        assert(dec_val_acc(Seq::<char>::empty(), acc * 10 + n) == Some(acc * 10 + n));
    } else {
        let hd = dec_str(n / 10);
        let full = dec_str(n);
        assert(full == hd.push(dec_char(n % 10)));
        lemma_dec_val_acc_of_str(n / 10, acc);
        lemma_dec_val_acc_append_digit(hd, acc, acc * dec_pow(n / 10) + n / 10, n % 10);
        lemma_dec_char_val(n % 10);
        assert(dec_pow(n) == 10 * dec_pow(n / 10));
        assert((acc * dec_pow(n / 10) + n / 10) * 10 + n % 10 == acc * (10 * dec_pow(n / 10)) + (
        (n / 10) * 10 + n % 10)) by (nonlinear_arith);
        assert((n / 10) * 10 + n % 10 == n) by (nonlinear_arith)
            requires n >= 10;
        assert(acc * (10 * dec_pow(n / 10)) == acc * dec_pow(n));
    }
}

proof fn lemma_dec_val_acc_append_digit(s: Seq<char>, acc: int, v: int, d: int)
    requires
        0 <= d < 10,
        dec_val_acc(s, acc) == Some(v),
    ensures
        dec_val_acc(s.push(dec_char(d)), acc) == Some(v * 10 + d),
    decreases s.len(),
{
    lemma_dec_char_val(d);
    if s.len() == 0 {
        assert(s.push(dec_char(d))[0] == dec_char(d));
        assert(s.push(dec_char(d)).skip(1) =~= Seq::<char>::empty());
        assert(dec_val_acc(Seq::<char>::empty(), acc * 10 + d) == Some(acc * 10 + d));
    } else {
        assert(s.push(dec_char(d))[0] == s[0]);
        assert(s.push(dec_char(d)).skip(1) =~= s.skip(1).push(dec_char(d)));
        lemma_dec_val_acc_append_digit(s.skip(1), acc * 10 + dec_char_val(s[0]), v, d);
    }
}

/// Reading back the decimal text of a non-negative integer yields that
/// integer.
pub proof fn lemma_dec_round_trip(n: int)
    requires
        0 <= n,
    ensures
        dec_val(dec_str(n)) == Some(n),
{
    lemma_dec_val_acc_of_str(n, 0);
    assert(dec_str(n).len() > 0) by {
        if n >= 10 {
        }
    }
}

/// Every character of decimal text is a digit.
pub proof fn lemma_dec_str_digits(n: int)
    requires
        0 <= n,
    ensures
        forall|i: int|
            0 <= i < dec_str(n).len() ==> 0 <= #[trigger] dec_char_val(dec_str(n)[i]) < 10,
    decreases n,
{
    if n < 10 {
        lemma_dec_char_val(n);
        assert(dec_str(n)[0] == dec_char(n));
    } else {
        lemma_dec_str_digits(n / 10);
        lemma_dec_char_val(n % 10);
        let hd = dec_str(n / 10);
        assert forall|i: int| 0 <= i < dec_str(n).len() implies 0 <= #[trigger] dec_char_val(
            dec_str(n)[i],
        ) < 10 by {
            if i < hd.len() {
                assert(dec_str(n)[i] == hd[i]);
            } else {
                assert(dec_str(n)[i] == dec_char(n % 10));
            }
        }
    }
}

/// The text of a non-negative quantity counted in thousandths: the whole
/// part, a point, and exactly three fractional digits.
pub open spec fn milli_str_abs(n: int) -> Seq<char> {
    dec_str(n / 1000) + seq!['.', dec_char(n / 100 % 10), dec_char(n / 10 % 10), dec_char(n % 10)]
}

/// The text of a quantity counted in thousandths, signed.
pub open spec fn milli_str(n: int) -> Seq<char> {
    if n < 0 {
        seq!['-'] + milli_str_abs(-n)
    } else {
        milli_str_abs(n)
    }
}

/// Formats a quantity counted in thousandths, such as a scale factor.
pub fn fmt_milli(n: i64) -> (s: String)
    ensures
        s@ == milli_str(n as int),
{
    let mut s = String::new();
    if n < 0 {
        push_char(&mut s, '-');
        let m: u64 = (-(n as i128)) as u64;
        fmt_u64_into(m / 1000, &mut s);
        push_char(&mut s, '.');
        push_char(&mut s, dec_digit(m / 100 % 10));
        push_char(&mut s, dec_digit(m / 10 % 10));
        push_char(&mut s, dec_digit(m % 10));
        proof {
            assert(s@ =~= milli_str(n as int));
        }
    } else {
        let m = n as u64;
        fmt_u64_into(m / 1000, &mut s);
        push_char(&mut s, '.');
        push_char(&mut s, dec_digit(m / 100 % 10));
        push_char(&mut s, dec_digit(m / 10 % 10));
        push_char(&mut s, dec_digit(m % 10));
        proof {
            assert(s@ =~= milli_str(n as int));
        }
    }
    s
}

} // verus!
