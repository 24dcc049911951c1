//! Decimal text: the canonical spec of a number's decimal digits, executable
//! rendering into a `String`, and reading digits back into a number.

use vstd::prelude::*;

verus! {

/// The character for one decimal digit value.
pub open spec fn digit_char(d: nat) -> char
    recommends
        d < 10,
{
    (48 + d) as char
}

/// Is `c` one of the characters `'0'` through `'9'`?
pub open spec fn is_digit_char(c: char) -> bool {
    48 <= c as int <= 57
}

/// The decimal digits of `n`, most significant first, with no leading zero
/// (a single `'0'` for zero itself).
pub open spec fn dec_digits(n: nat) -> Seq<char>
    decreases n,
{
    if n < 10 {
        seq![digit_char(n)]
    } else {
        dec_digits(n / 10).push(digit_char(n % 10))
    }
}

/// The decimal digits of `n`, zero-padded on the left to width two; numbers
/// of three or more digits keep all their digits.
pub open spec fn dec_digits_pad2(n: nat) -> Seq<char> {
    if n < 10 {
        seq!['0'] + dec_digits(n)
    } else {
        dec_digits(n)
    }
}

/// The value of a digit string read in base ten.
pub open spec fn digits_val(s: Seq<char>) -> nat
    decreases s.len(),
{
    if s.len() == 0 {
        0
    } else {
        (digits_val(s.drop_last()) * 10 + (s.last() as int - 48)) as nat
    }
}

/// Is every character of `s` a decimal digit?
pub open spec fn all_digits(s: Seq<char>) -> bool {
    forall|i: int| 0 <= i < s.len() ==> is_digit_char(#[trigger] s[i])
}

/// `dec_digits` produces only digit characters, at least one of them.
pub proof fn lemma_dec_digits_wf(n: nat)
    ensures
        dec_digits(n).len() >= 1,
        all_digits(dec_digits(n)),
    decreases n,
{
    if n < 10 {
        assert(is_digit_char(digit_char(n))) by {
            assert((48 + n) as char as int == 48 + n);
        }
    } else {
        lemma_dec_digits_wf(n / 10);
        assert(is_digit_char(digit_char(n % 10))) by {
            assert((48 + n % 10) as char as int == 48 + n % 10);
        }
        assert(dec_digits(n) == dec_digits(n / 10).push(digit_char(n % 10)));
        assert forall|i: int| 0 <= i < dec_digits(n).len() implies is_digit_char(
            #[trigger] dec_digits(n)[i],
        ) by {
            if i < dec_digits(n / 10).len() {
                assert(dec_digits(n)[i] == dec_digits(n / 10)[i]);
            }
        }
    }
}

/// Reading back the decimal digits of `n` yields `n`.
pub proof fn lemma_digits_val_dec_digits(n: nat)
    ensures
        digits_val(dec_digits(n)) == n,
    decreases n,
{
    if n < 10 {
        let s = dec_digits(n);
        assert(s == seq![digit_char(n)]);
        assert(s.drop_last() =~= Seq::<char>::empty());
        assert(digits_val(Seq::<char>::empty()) == 0);
        assert(s.last() == digit_char(n));
        assert(digit_char(n) as int == 48 + n);
        assert(digits_val(s) == (digits_val(s.drop_last()) * 10 + (s.last() as int - 48)) as nat);
    } else {
        lemma_digits_val_dec_digits(n / 10);
        let s = dec_digits(n);
        assert(s.drop_last() =~= dec_digits(n / 10));
        assert(s.last() == digit_char(n % 10));
        assert(digit_char(n % 10) as int == 48 + n % 10);
        assert(n / 10 * 10 + n % 10 == n) by {
            vstd::arithmetic::div_mod::lemma_fundamental_div_mod(n as int, 10);
        }
    }
}

/// A number of at most two digits is rendered at width two exactly.
pub proof fn lemma_dec_digits_pad2_len(n: nat)
    requires
        n < 100,
    ensures
        dec_digits_pad2(n).len() == 2,
        all_digits(dec_digits_pad2(n)),
        digits_val(dec_digits_pad2(n)) == n,
{
    lemma_dec_digits_wf(n);
    lemma_digits_val_dec_digits(n);
    if n < 10 {
        let s = dec_digits_pad2(n);
        assert(s.drop_last() =~= seq!['0']);
        assert(s.last() == dec_digits(n).last());
        assert(seq!['0'].drop_last() =~= Seq::<char>::empty());
        assert(digits_val(Seq::<char>::empty()) == 0);
        assert(digits_val(seq!['0']) == (digits_val(seq!['0'].drop_last()) * 10 + (seq!['0'].last() as int
            - 48)) as nat);
        assert(digits_val(s) == (digits_val(s.drop_last()) * 10 + (s.last() as int - 48)) as nat);
        assert(all_digits(s));
    } else {
        assert(dec_digits(n / 10) == seq![digit_char(n / 10)]);
    }
}

/// The character for one decimal digit value, as a one-character string.
fn digit_str(d: u8) -> (r: &'static str)
    requires
        d < 10,
    ensures
        r@ == seq![digit_char(d as nat)],
{
    proof {
        reveal_strlit("0");
        reveal_strlit("1");
        reveal_strlit("2");
        reveal_strlit("3");
        reveal_strlit("4");
        reveal_strlit("5");
        reveal_strlit("6");
        reveal_strlit("7");
        reveal_strlit("8");
        reveal_strlit("9");
    }
    let r = match d {
        0 => "0",
        1 => "1",
        2 => "2",
        3 => "3",
        4 => "4",
        5 => "5",
        6 => "6",
        7 => "7",
        8 => "8",
        _ => "9",
    };
    proof {
        assert(r@ =~= seq![digit_char(d as nat)]);
    }
    r
}

/// Appends the decimal digits of `n` to `out`.
pub fn push_u64_decimal(out: &mut String, n: u64)
    ensures
        final(out)@ == old(out)@ + dec_digits(n as nat),
    decreases n,
{
    if n >= 10 {
        push_u64_decimal(out, n / 10);
    }
    out.append(digit_str((n % 10) as u8));
    proof {
        assert(final(out)@ =~= old(out)@ + dec_digits(n as nat));
    }
}

/// Appends the decimal digits of `n`, zero-padded to width two, to `out`.
pub fn push_u64_decimal_pad2(out: &mut String, n: u64)
    ensures
        final(out)@ == old(out)@ + dec_digits_pad2(n as nat),
{
    if n < 10 {
        out.append("0");
        proof {
            reveal_strlit("0");
        }
    }
    push_u64_decimal(out, n);
    proof {
        if n < 10 {
            assert(final(out)@ =~= old(out)@ + dec_digits_pad2(n as nat));
        }
    }
}

} // verus!
