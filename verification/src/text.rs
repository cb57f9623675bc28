//! Numbers written out for messages.
use vstd::prelude::*;
use vstd::string::*;

verus! {

/// The decimal digits of a natural number, without leading zeros.
pub open spec fn decimal(n: nat) -> Seq<char>
    decreases n,
{
    if n < 10 {
        "0123456789"@.subrange(n as int, n as int + 1)
    } else {
        decimal(n / 10) + "0123456789"@.subrange((n % 10) as int, (n % 10) as int + 1)
    }
}

/// An integer in decimal, with a minus sign if it is negative.
pub open spec fn signed_decimal(n: int) -> Seq<char> {
    if n < 0 {
        "-"@ + decimal((-n) as nat)
    } else {
        decimal(n as nat)
    }
}

/// Writes a natural number in decimal behind the text.
pub fn append_decimal(text: &mut String, n: u32)
    ensures
        final(text)@ == old(text)@ + decimal(n as nat),
    decreases n,
{
    proof {
        reveal_strlit("0123456789");
    }
    if n >= 10 {
        append_decimal(text, n / 10);
    }
    let d: usize = (n % 10) as usize;
    text.append("0123456789".substring_char(d, d + 1));
    assert(text@ =~= old(text)@ + decimal(n as nat));
}

/// Writes an integer in decimal behind the text.
pub fn append_signed(text: &mut String, n: i32)
    ensures
        final(text)@ == old(text)@ + signed_decimal(n as int),
{
    if n < 0 {
        text.append("-");
        let magnitude: i64 = 0 - (n as i64);
        append_decimal(text, magnitude as u32);
        assert(text@ =~= old(text)@ + signed_decimal(n as int));
    } else {
        append_decimal(text, n as u32);
    }
}

/// The number that a sequence of decimal digits denotes.
pub open spec fn number(digits: Seq<char>) -> int
    decreases digits.len(),
{
    if digits.len() == 0 {
        0
    } else {
        number(digits.drop_last()) * 10 + (digits.last() as int - '0' as int)
    }
}

/// A natural number in decimal is read back as that number, from digits alone, of which the first
/// is zero only for zero itself.
pub proof fn law_decimal_is_read_back(n: nat)
    ensures
        number(decimal(n)) == n,
        decimal(n).len() > 0,
        forall|k: int| 0 <= k < decimal(n).len() ==> '0' <= #[trigger] decimal(n)[k] <= '9',
        n == 0 ==> decimal(n).len() == 1,
        n > 0 ==> decimal(n)[0] != '0',
    decreases n,
{
    reveal_strlit("0123456789");
    let d = (n % 10) as int;
    let digit = "0123456789"@.subrange(d, d + 1);
    assert(digit.len() == 1);
    assert(digit[0] as int == '0' as int + d) by {
        assert(digit[0] == "0123456789"@[d]);
        assert(d == 0 || d == 1 || d == 2 || d == 3 || d == 4 || d == 5 || d == 6 || d == 7 || d
            == 8 || d == 9);
    }
    if n < 10 {
        assert(decimal(n) == digit);
        assert(number(digit.drop_last()) == 0);
    } else {
        law_decimal_is_read_back(n / 10);
        let s = decimal(n);
        assert(s == decimal(n / 10) + digit);
        assert(s.drop_last() =~= decimal(n / 10));
        assert(s[0] == decimal(n / 10)[0]);
    }
}

/// An integer in decimal is read back as that integer: a negative one as the number behind a minus
/// sign, another one as a number without a sign.
pub proof fn law_signed_decimal_is_read_back(n: int)
    ensures
        n < 0 ==> signed_decimal(n)[0] == '-' && number(signed_decimal(n).skip(1)) == -n,
        n >= 0 ==> '0' <= signed_decimal(n)[0] <= '9' && number(signed_decimal(n)) == n,
{
    if n < 0 {
        reveal_strlit("-");
        law_decimal_is_read_back((-n) as nat);
        assert(signed_decimal(n).skip(1) =~= decimal((-n) as nat));
    } else {
        law_decimal_is_read_back(n as nat);
    }
}

} // verus!
