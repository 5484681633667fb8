//! Numbers written in decimal and in hexadecimal digits.
use vstd::prelude::*;

verus! {

/// The decimal digit of `d`.
pub open spec fn decimal_digit(d: nat) -> char {
    ('0' as u8 + d) as char
}

/// `n` in decimal digits, without leading zeros.
pub open spec fn decimal(n: nat) -> Seq<char>
    decreases n,
{
    if n < 10 {
        seq![decimal_digit(n)]
    } else {
        decimal(n / 10).push(decimal_digit(n % 10))
    }
}

/// `n` in decimal digits, without leading zeros.
pub fn decimal_text(n: u64) -> (r: String)
    ensures
        r@ == decimal(n as nat),
    decreases n,
{
    let digit: char = ((n % 10) as u8 + 48) as char;
    if n < 10 {
        let mut r: String = String::new();
        r.push(digit);
        assert(r@ =~= decimal(n as nat));
        r
    } else {
        let mut r: String = decimal_text(n / 10);
        r.push(digit);
        r
    }
}

/// The lower-case hexadecimal digit of `d`.
pub open spec fn hex_digit(d: nat) -> char {
    if d < 10 {
        ('0' as u8 + d) as char
    } else {
        ('a' as u8 + (d - 10)) as char
    }
}

/// `n` in `width` lower-case hexadecimal digits, padded with zeros on the left.
pub open spec fn hex(n: nat, width: nat) -> Seq<char>
    decreases width,
{
    if width == 0 {
        Seq::empty()
    } else {
        hex(n / 16, (width - 1) as nat).push(hex_digit(n % 16))
    }
}

/// `n` in `width` lower-case hexadecimal digits, padded with zeros on the left.
pub fn hex_text(n: u64, width: usize) -> (r: String)
    ensures
        r@ == hex(n as nat, width as nat),
    decreases width,
{
    if width == 0 {
        String::new()
    } else {
        let d: u8 = (n % 16) as u8;
        let digit: char = if d < 10 {
            (d + 48) as char
        } else {
            (d - 10 + 97) as char
        };
        let mut r: String = hex_text(n / 16, width - 1);
        r.push(digit);
        r
    }
}

// What the digits stand for.

/// The number of a digit, in decimal or in lower-case hexadecimal.
pub open spec fn digit_value(c: char) -> int {
    if '0' <= c <= '9' {
        c as int - 48
    } else {
        c as int - 87
    }
}

/// The number that digits stand for in a base.
pub open spec fn value_of(digits: Seq<char>, base: int) -> int
    decreases digits.len(),
{
    if digits.len() == 0 {
        0
    } else {
        base * value_of(digits.drop_last(), base) + digit_value(digits.last())
    }
}

/// A number in decimal digits stands for that number, and has no zero in front unless it is zero.
pub proof fn law_decimal_digits_stand_for_the_number(n: u64, r: String)
    requires
        call_ensures(decimal_text, (n,), r),
    ensures
        value_of(r@, 10) == n,
        r@.len() > 0,
        n > 0 ==> r@[0] != '0',
        n == 0 ==> r@.len() == 1,
        forall|i: int| 0 <= i < r@.len() ==> '0' <= #[trigger] r@[i] <= '9',
{
    lemma_decimal_value(n as nat);
}

/// The decimal digits of a number stand for it.
pub proof fn lemma_decimal_value(n: nat)
    ensures
        value_of(decimal(n), 10) == n,
        decimal(n).len() > 0,
        n > 0 ==> decimal(n)[0] != '0',
        n < 10 ==> decimal(n).len() == 1,
        forall|i: int| 0 <= i < decimal(n).len() ==> '0' <= #[trigger] decimal(n)[i] <= '9',
    decreases n,
{
    let d = decimal(n);
    let digit = n % 10;
    assert(digit_value(decimal_digit(digit)) == digit);
    if n < 10 {
        assert(digit_value(decimal_digit(n)) == n);
        assert(d.drop_last() =~= Seq::empty());
        assert(value_of(d.drop_last(), 10) == 0);
    } else {
        lemma_decimal_value(n / 10);
        assert(d.drop_last() =~= decimal(n / 10));
        assert(d.last() == decimal_digit(digit));
        assert(d[0] == decimal(n / 10)[0]);
        assert forall|i: int| 0 <= i < d.len() implies '0' <= #[trigger] d[i] <= '9' by {
            if i < d.len() - 1 {
                assert(d[i] == decimal(n / 10)[i]);
            }
        }
    }
}

/// A number in hexadecimal digits has as many of them as were asked for, in lower case, and they stand for the number
/// wherever it fits.
pub proof fn law_hex_digits_stand_for_the_number(n: u64, r: String)
    requires
        call_ensures(hex_text, (n, 16usize), r),
    ensures
        r@.len() == 16,
        value_of(r@, 16) == n,
        forall|i: int| 0 <= i < r@.len() ==> ('0' <= #[trigger] r@[i] <= '9' || 'a' <= r@[i] <= 'f'),
{
    lemma_hex_value(n as nat, 16);
    assert(vstd::arithmetic::power::pow(16, 16) == 0x1_0000_0000_0000_0000) by {
        reveal_with_fuel(vstd::arithmetic::power::pow, 17);
    }
}

/// The last `width` hexadecimal digits of a number stand for what is left of it there.
pub proof fn lemma_hex_value(n: nat, width: nat)
    ensures
        hex(n, width).len() == width,
        n < vstd::arithmetic::power::pow(16, width) ==> value_of(hex(n, width), 16) == n,
        forall|i: int|
            0 <= i < width ==> ('0' <= #[trigger] hex(n, width)[i] <= '9' || 'a' <= hex(n, width)[i] <= 'f'),
    decreases width,
{
    vstd::arithmetic::power::lemma_pow_positive(16, width);
    let d = hex(n, width);
    if width == 0 {
        assert(vstd::arithmetic::power::pow(16, 0) == 1) by {
            reveal(vstd::arithmetic::power::pow);
        }
    } else {
        let less = (width - 1) as nat;
        lemma_hex_value(n / 16, less);
        assert(d.drop_last() =~= hex(n / 16, less));
        assert(d.last() == hex_digit(n % 16));
        assert(digit_value(hex_digit(n % 16)) == n % 16);
        assert(vstd::arithmetic::power::pow(16, width) == 16 * vstd::arithmetic::power::pow(16, less)) by {
            reveal(vstd::arithmetic::power::pow);
        }
        assert forall|i: int| 0 <= i < width implies ('0' <= #[trigger] d[i] <= '9' || 'a' <= d[i] <= 'f') by {
            if i < width - 1 {
                assert(d[i] == hex(n / 16, less)[i]);
            }
        }
    }
}

} // verus!
