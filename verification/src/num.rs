//! Decimal rendering of integers.

use vstd::prelude::*;

use crate::text::push_char;

verus! {

/// The decimal digit character for `d` (`0 <= d < 10`).
pub open spec fn digit_char(d: nat) -> char {
    ((d + 48) as u32) as char
}

/// The decimal digits of `n`, most significant first, without leading zeros
/// (`"0"` for zero).
pub open spec fn decimal(n: nat) -> Seq<char>
    decreases n,
{
    if n < 10 {
        seq![digit_char(n)]
    } else {
        decimal(n / 10).push(digit_char(n % 10))
    }
}

/// The decimal digits of `n` left-padded with zeros to at least `width`.
pub open spec fn decimal_padded(n: nat, width: nat) -> Seq<char> {
    let d = decimal(n);
    if d.len() >= width {
        d
    } else {
        Seq::new((width - d.len()) as nat, |i: int| '0') + d
    }
}

/// The value of a decimal digit character (0 for any other character).
pub open spec fn digit_value(c: char) -> nat {
    if c == '0' { 0 } else if c == '1' { 1 } else if c == '2' { 2 } else if c == '3' { 3 }
    else if c == '4' { 4 } else if c == '5' { 5 } else if c == '6' { 6 } else if c == '7' { 7 }
    else if c == '8' { 8 } else if c == '9' { 9 } else { 0 }
}

/// Whether `c` is one of the characters `0` to `9`.
pub open spec fn is_digit(c: char) -> bool {
    '0' <= c <= '9'
}

/// The number that the decimal digits `s` spell, most significant first.
pub open spec fn digits_value(s: Seq<char>) -> nat
    decreases s.len(),
{
    if s.len() == 0 {
        0
    } else {
        digits_value(s.drop_last()) * 10 + digit_value(s.last())
    }
}

proof fn lemma_digit_char(d: nat)
    requires
        d < 10,
    ensures
        digit_value(digit_char(d)) == d,
        is_digit(digit_char(d)),
{
    assert(digit_char(0) == '0');
    assert(digit_char(1) == '1');
    assert(digit_char(2) == '2');
    assert(digit_char(3) == '3');
    assert(digit_char(4) == '4');
    assert(digit_char(5) == '5');
    assert(digit_char(6) == '6');
    assert(digit_char(7) == '7');
    assert(digit_char(8) == '8');
    assert(digit_char(9) == '9');
}

/// The decimal form of `n` is made of digits and spells `n`, with no
/// leading zero (unless it is `"0"`).
pub proof fn law_decimal_spells_its_number(n: nat)
    ensures
        digits_value(decimal(n)) == n,
        decimal(n).len() > 0,
        forall|i: int| 0 <= i < decimal(n).len() ==> is_digit(#[trigger] decimal(n)[i]),
        decimal(n).len() > 1 ==> decimal(n)[0] != '0',
    decreases n,
{
    if n < 10 {
        lemma_digit_char(n);
        assert(decimal(n).drop_last() =~= seq![]);
        assert(digits_value(decimal(n).drop_last()) == 0);
        assert(decimal(n).last() == digit_char(n));
    } else {
        law_decimal_spells_its_number(n / 10);
        lemma_digit_char(n % 10);
        let d = decimal(n);
        assert(d.drop_last() =~= decimal(n / 10));
        assert(n == (n / 10) * 10 + n % 10) by (nonlinear_arith);
        assert(d.last() == digit_char(n % 10));
        assert(digits_value(d) == digits_value(decimal(n / 10)) * 10 + digit_value(digit_char(n % 10)));
        assert forall|i: int| 0 <= i < d.len() implies is_digit(#[trigger] d[i]) by {
            if i < d.len() - 1 {
                assert(d[i] == decimal(n / 10)[i]);
            }
        }
        if decimal(n / 10).len() == 1 {
            assert(n / 10 < 10) by {
                if n / 10 >= 10 {
                    assert(decimal(n / 10).len() > 1) by {
                        assert(decimal(n / 10) =~= decimal(n / 100).push(digit_char((n / 10) % 10)));
                    }
                }
            }
            assert(n / 10 != 0);
            lemma_digit_char(n / 10);
            assert(decimal(n / 10)[0] == digit_char(n / 10));
        }
        assert(d[0] == decimal(n / 10)[0]);
    }
}

fn digit(d: u64) -> (c: char)
    requires
        d < 10,
    ensures
        c == digit_char(d as nat),
{
    let c = char_from_digit(d as u8);
    c
}

fn char_from_digit(d: u8) -> (c: char)
    requires
        d < 10,
    ensures
        c == digit_char(d as nat),
{
    if d == 0 {
        '0'
    } else if d == 1 {
        '1'
    } else if d == 2 {
        '2'
    } else if d == 3 {
        '3'
    } else if d == 4 {
        '4'
    } else if d == 5 {
        '5'
    } else if d == 6 {
        '6'
    } else if d == 7 {
        '7'
    } else if d == 8 {
        '8'
    } else {
        '9'
    }
}

/// The decimal rendering of `n` (`n.to_string()`).
pub fn u64_to_decimal(n: u64) -> (s: String)
    ensures
        s@ == decimal(n as nat),
    decreases n,
{
    if n < 10 {
        let mut s = String::new();
        push_char(&mut s, digit(n));
        assert(s@ =~= decimal(n as nat));
        s
    } else {
        let mut s = u64_to_decimal(n / 10);
        push_char(&mut s, digit(n % 10));
        s
    }
}

/// The decimal rendering of `n` left-padded with zeros to `width`
/// (`format!("{:0width$}", n)`).
pub fn u64_to_decimal_padded(n: u64, width: usize) -> (s: String)
    ensures
        s@ == decimal_padded(n as nat, width as nat),
{
    let d = u64_to_decimal(n);
    let dv = crate::text::chars_of(d.as_str());
    if dv.len() >= width {
        return d;
    }
    let mut s = String::new();
    let mut i: usize = 0;
    let pad = width - dv.len();
    while i < pad
        invariant
            i <= pad,
            s@ == Seq::new(i as nat, |k: int| '0'),
        decreases pad - i,
    {
        push_char(&mut s, '0');
        assert(s@ =~= Seq::new((i + 1) as nat, |k: int| '0'));
        i = i + 1;
    }
    crate::text::push_str(&mut s, d.as_str());
    s
}

/// The decimal rendering of a signed `n` (`n.to_string()`).
pub fn i64_to_decimal(n: i64) -> (s: String)
    ensures
        s@ == (if n < 0 {
            seq!['-'] + decimal((-n) as nat)
        } else {
            decimal(n as nat)
        }),
{
    if n < 0 {
        let m: u64 = if n == i64::MIN {
            9223372036854775808u64
        } else {
            (-n) as u64
        };
        let mut s = String::new();
        push_char(&mut s, '-');
        let d = u64_to_decimal(m);
        crate::text::push_str(&mut s, d.as_str());
        assert(s@ =~= seq!['-'] + decimal((-n) as nat));
        s
    } else {
        u64_to_decimal(n as u64)
    }
}

} // verus!
