//! What the texts of numbers and bytes stand for.
use vstd::prelude::*;

use crate::text::{decimal, digit, hex2, hex_digit, hex_of};

verus! {

/// The number that a text of decimal digits stands for.
pub open spec fn number_of(s: Seq<char>) -> nat
    decreases s.len(),
{
    if s.len() == 0 {
        0
    } else {
        number_of(s.drop_last()) * 10 + (s.last() as u32 - '0' as u32) as nat
    }
}

/// A number in decimal is digits, without a leading zero, and stands for that number.
pub proof fn decimal_is_digits(n: nat)
    ensures
        decimal(n).len() > 0,
        forall|i: int| 0 <= i < decimal(n).len() ==> '0' <= #[trigger] decimal(n)[i] <= '9',
        decimal(n)[0] == '0' ==> n == 0,
        number_of(decimal(n)) == n,
    decreases n,
{
    let last = (n % 10) as nat;
    assert(48 + last < 58);
    assert(((48 + last) as u8) as char as u32 == 48 + last);
    assert('0' <= digit(last) <= '9');
    if n < 10 {
        assert(last == n);
        assert(decimal(n).drop_last() =~= Seq::empty());
        assert(number_of(Seq::<char>::empty()) == 0);
    } else {
        decimal_is_digits(n / 10);
        let rest = decimal(n / 10);
        assert(decimal(n).drop_last() =~= rest);
        assert forall|i: int| 0 <= i < decimal(n).len() implies '0' <= #[trigger] decimal(n)[i]
            <= '9' by {
            if i < rest.len() {
                assert(decimal(n)[i] == rest[i]);
            }
        }
        assert(decimal(n)[0] == rest[0]);
    }
}

/// Different numbers are written differently.
pub proof fn lemma_decimal_differs(a: nat, b: nat)
    requires
        a != b,
    ensures
        decimal(a) != decimal(b),
{
    decimal_is_digits(a);
    decimal_is_digits(b);
}

/// The number that a lower-case or upper-case hexadecimal digit stands for.
pub open spec fn nibble(c: char) -> int {
    if '0' <= c <= '9' {
        c as u32 - '0' as u32
    } else if 'a' <= c <= 'f' {
        c as u32 - 'a' as u32 + 10
    } else {
        c as u32 - 'A' as u32 + 10
    }
}

proof fn lemma_hex_digit(n: nat, upper: bool)
    requires
        n < 16,
    ensures
        nibble(hex_digit(n, upper)) == n,
        '0' <= hex_digit(n, upper) <= '9' || 'a' <= hex_digit(n, upper) <= 'f' || 'A' <= hex_digit(
            n,
            upper,
        ) <= 'F',
        !upper ==> !('A' <= hex_digit(n, upper) <= 'F'),
        upper ==> !('a' <= hex_digit(n, upper) <= 'f'),
{
    if n < 10 {
        assert(((48 + n) as u8) as char as u32 == 48 + n);
    } else if upper {
        assert(((55 + n) as u8) as char as u32 == 55 + n);
    } else {
        assert(((87 + n) as u8) as char as u32 == 87 + n);
    }
}

/// Two hexadecimal digits stand for their byte.
pub proof fn hex_digits_stand_for_their_byte(b: u8, upper: bool)
    ensures
        hex2(b, upper).len() == 2,
        16 * nibble(hex2(b, upper)[0]) + nibble(hex2(b, upper)[1]) == b,
{
    lemma_hex_digit((b / 16) as nat, upper);
    lemma_hex_digit((b % 16) as nat, upper);
}

/// Bytes in hexadecimal are two digits for each, from which it is read back.
pub proof fn bytes_read_back_from_hexadecimal(b: Seq<u8>, i: int)
    requires
        0 <= i < b.len(),
    ensures
        hex_of(b).len() == 2 * b.len(),
        16 * nibble(hex_of(b)[2 * i]) + nibble(hex_of(b)[2 * i + 1]) == b[i],
    decreases b.len(),
{
    let rest = b.drop_last();
    hex_digits_stand_for_their_byte(b.last(), false);
    if rest.len() > 0 {
        if i < rest.len() {
            bytes_read_back_from_hexadecimal(rest, i);
            assert(hex_of(b)[2 * i] == hex_of(rest)[2 * i]);
            assert(hex_of(b)[2 * i + 1] == hex_of(rest)[2 * i + 1]);
        } else {
            bytes_read_back_from_hexadecimal(rest, 0);
        }
    } else {
        assert(hex_of(rest) =~= Seq::empty());
    }
}

} // verus!
