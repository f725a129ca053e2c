//! Decimal rendering of the numeric fields of an instruction: immediates,
//! displacements, direct addresses and label numbers. The spec functions
//! give the digit sequence of a number; the exec functions append that
//! sequence to an output string.

use vstd::prelude::*;

verus! {

/// The character for a single decimal digit.
pub open spec fn digit_char(d: nat) -> char {
    if d == 0 {
        '0'
    } else if d == 1 {
        '1'
    } else if d == 2 {
        '2'
    } else if d == 3 {
        '3'
    } else if d == 4 {
        '4'
    } else if d == 5 {
        '5'
    } else if d == 6 {
        '6'
    } else if d == 7 {
        '7'
    } else if d == 8 {
        '8'
    } else {
        '9'
    }
}

/// The base-10 rendering of a natural number, most significant digit first,
/// with no leading zeros (a single `0` for zero itself).
pub open spec fn dec_nat(n: nat) -> Seq<char>
    decreases n,
{
    if n < 10 {
        seq![digit_char(n)]
    } else {
        dec_nat(n / 10) + seq![digit_char(n % 10)]
    }
}

/// The base-10 rendering of an integer: a leading minus sign for negative
/// values, then the digits of the absolute value.
pub open spec fn dec_int(n: int) -> Seq<char> {
    if n < 0 {
        seq!['-'] + dec_nat((-n) as nat)
    } else {
        dec_nat(n as nat)
    }
}

/// Whether a character is a decimal digit.
pub open spec fn is_digit_char(c: char) -> bool {
    c == '0' || c == '1' || c == '2' || c == '3' || c == '4' || c == '5' || c == '6' || c == '7'
        || c == '8' || c == '9'
}

/// Every character of `dec_nat(n)` is a decimal digit.
pub proof fn lemma_dec_nat_digits(n: nat)
    ensures
        forall|i: int| 0 <= i < dec_nat(n).len() ==> is_digit_char(#[trigger] dec_nat(n)[i]),
    decreases n,
{
    if n < 10 {
    } else {
        lemma_dec_nat_digits(n / 10);
        assert(forall|i: int|
            0 <= i < dec_nat(n / 10).len() ==> dec_nat(n)[i] == dec_nat(n / 10)[i]);
    }
}

/// The decimal rendering of a natural number is never empty.
pub proof fn lemma_dec_nat_len(n: nat)
    ensures
        dec_nat(n).len() >= 1,
    decreases n,
{
}

/// Distinct natural numbers render as distinct digit sequences.
pub proof fn lemma_dec_nat_injective(m: nat, n: nat)
    requires
        dec_nat(m) == dec_nat(n),
    ensures
        m == n,
    decreases m + n,
{
    lemma_dec_nat_len(m);
    lemma_dec_nat_len(n);
    if m < 10 && n < 10 {
        assert(seq![digit_char(m)][0] == digit_char(m));
        assert(seq![digit_char(n)][0] == digit_char(n));
        assert(dec_nat(m)[0] == dec_nat(n)[0]);
        assert(digit_char(m) == digit_char(n));
    } else if m < 10 {
        lemma_dec_nat_len(n / 10);
        assert(dec_nat(n).len() >= 2);
    } else if n < 10 {
        lemma_dec_nat_len(m / 10);
        assert(dec_nat(m).len() >= 2);
    } else {
        let lm = dec_nat(m).len();
        assert(dec_nat(m) == dec_nat(m / 10) + seq![digit_char(m % 10)]);
        assert(dec_nat(n) == dec_nat(n / 10) + seq![digit_char(n % 10)]);
        lemma_dec_nat_len(m / 10);
        lemma_dec_nat_len(n / 10);
        assert(dec_nat(m)[lm - 1] == digit_char(m % 10));
        assert(dec_nat(n)[lm - 1] == digit_char(n % 10));
        assert(digit_char(m % 10) == digit_char(n % 10));
        assert(m % 10 == n % 10);
        assert(dec_nat(m / 10) =~= dec_nat(m).subrange(0, lm - 1));
        assert(dec_nat(n / 10) =~= dec_nat(n).subrange(0, lm - 1));
        lemma_dec_nat_injective(m / 10, n / 10);
        vstd::arithmetic::div_mod::lemma_fundamental_div_mod(m as int, 10);
        vstd::arithmetic::div_mod::lemma_fundamental_div_mod(n as int, 10);
    }
}

/// The string for a single decimal digit.
fn digit_str(d: u8) -> (r: &'static str)
    requires
        d < 10,
    ensures
        r@ == seq![digit_char(d as nat)],
{
    let r: &'static str = match d {
        0 => "0",
        1 => "1",
        2 => "2",
        3 => "3",
        4 => "4",
        5 => "5",
        6 => "6",
        7 => "7",
        8 => "8",
        _ => "9",
    };
    proof {
        reveal_strlit("0");
        reveal_strlit("1");
        reveal_strlit("2");
        reveal_strlit("3");
        reveal_strlit("4");
        reveal_strlit("5");
        reveal_strlit("6");
        reveal_strlit("7");
        reveal_strlit("8");
        reveal_strlit("9");
        assert(r@ =~= seq![digit_char(d as nat)]);
    }
    r
}

/// Appends the decimal rendering of an unsigned number to `out`.
pub fn append_dec(out: &mut String, n: usize)
    ensures
        final(out)@ == old(out)@ + dec_nat(n as nat),
    decreases n,
{
    let ghost start = out@;
    if n >= 10 {
        append_dec(out, n / 10);
        out.append(digit_str((n % 10) as u8));
        proof {
            assert(out@ =~= start + dec_nat(n as nat));
        }
    } else {
        out.append(digit_str(n as u8));
    }
}

/// Appends the decimal rendering of a signed number to `out`, with a
/// leading minus sign when it is negative.
pub fn append_dec_signed(out: &mut String, n: i32)
    ensures
        final(out)@ == old(out)@ + dec_int(n as int),
{
    let ghost start = out@;
    if n < 0 {
        out.append("-");
        let m: i64 = -(n as i64);
        append_dec(out, m as usize);
        proof {
            reveal_strlit("-");
            assert("-"@ =~= seq!['-']);
            assert(out@ =~= start + dec_int(n as int));
        }
    } else {
        append_dec(out, n as usize);
    }
}

} // verus!
