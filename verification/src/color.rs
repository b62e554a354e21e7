//! The text of one pixel: `R G B`, each channel a byte in decimal notation.

use vstd::prelude::*;

verus! {

/// The character that writes the digit `d`.
pub open spec fn digit_char(d: nat) -> char
    recommends
        d < 10,
{
    if d == 0 {
        '0'
    } else if d == 1 {
        '1'
    } else if d == 2 {
        '2'
    } else if d == 3 {
        '3'
    } else if d == 4 {
        '4'
    } else if d == 5 {
        '5'
    } else if d == 6 {
        '6'
    } else if d == 7 {
        '7'
    } else if d == 8 {
        '8'
    } else {
        '9'
    }
}

/// Decimal notation of `n`: most significant digit first, no sign, no
/// padding, and a single `0` for zero.
pub open spec fn decimal(n: nat) -> Seq<char>
    decreases n,
{
    if n < 10 {
        seq![digit_char(n)]
    } else {
        decimal(n / 10).push(digit_char(n % 10))
    }
}

/// The record of a pixel with channels `r`, `g` and `b`: the three numbers in
/// decimal notation with one space between neighbours and nothing around them.
pub open spec fn record_text(r: u8, g: u8, b: u8) -> Seq<char> {
    decimal(r as nat) + seq![' '] + decimal(g as nat) + seq![' '] + decimal(b as nat)
}

/// The one-character text of a digit.
fn digit_text(d: u8) -> (s: &'static str)
    requires
        d < 10,
    ensures
        s@ == seq![digit_char(d as nat)],
{
    proof {
        reveal_strlit("0");
        reveal_strlit("1");
        reveal_strlit("2");
        reveal_strlit("3");
        reveal_strlit("4");
        reveal_strlit("5");
        reveal_strlit("6");
        reveal_strlit("7");
        reveal_strlit("8");
        reveal_strlit("9");
    }
    let s = match d {
        0 => "0",
        1 => "1",
        2 => "2",
        3 => "3",
        4 => "4",
        5 => "5",
        6 => "6",
        7 => "7",
        8 => "8",
        _ => "9",
    };
    assert(s@ =~= seq![digit_char(d as nat)]);
    s
}

/// Appends the decimal notation of `n` to `out`.
fn push_decimal(out: &mut String, n: u8)
    ensures
        final(out)@ == old(out)@ + decimal(n as nat),
{
    if n >= 100 {
        out.append(digit_text(n / 100));
    }
    if n >= 10 {
        out.append(digit_text((n / 10) % 10));
    }
    out.append(digit_text(n % 10));
    proof {
        reveal_with_fuel(decimal, 3);
        assert(out@ =~= old(out)@ + decimal(n as nat));
    }
}

/// Writes the record of one pixel whose channels are already quantized.
pub fn pixel_record(r: u8, g: u8, b: u8) -> (line: String)
    ensures
        line@ == record_text(r, g, b),
{
    let mut line = String::new();
    push_decimal(&mut line, r);
    line.append(" ");
    push_decimal(&mut line, g);
    line.append(" ");
    push_decimal(&mut line, b);
    proof {
        reveal_strlit(" ");
        assert(line@ =~= record_text(r, g, b));
    }
    line
}

/// Whether `c` is one of the ten decimal digits.
pub open spec fn is_digit(c: char) -> bool {
    exists|d: nat| d < 10 && c == #[trigger] digit_char(d)
}

/// The number that the digit `c` stands for.
pub open spec fn digit_value(c: char) -> nat
    recommends
        is_digit(c),
{
    choose|d: nat| d < 10 && c == #[trigger] digit_char(d)
}

/// The number that a run of digits denotes when it is read as decimal
/// notation, most significant digit first.
pub open spec fn decimal_value(s: Seq<char>) -> nat
    decreases s.len(),
{
    if s.len() == 0 {
        0
    } else {
        10 * decimal_value(s.drop_last()) + digit_value(s.last())
    }
}

/// Reading a digit's character gives the digit back.
pub proof fn digit_value_of_digit_char(d: nat)
    requires
        d < 10,
    ensures
        is_digit(digit_char(d)),
        digit_value(digit_char(d)) == d,
{
    let v = digit_value(digit_char(d));
    assert(v < 10 && digit_char(d) == digit_char(v));
}

/// Decimal notation uses digits only, at least one of them, and starts with
/// `0` for no number but zero.
pub proof fn decimal_is_digits(n: nat)
    ensures
        decimal(n).len() >= 1,
        forall|i: int| 0 <= i < decimal(n).len() ==> is_digit(#[trigger] decimal(n)[i]),
        n != 0 ==> decimal(n)[0] != '0',
    decreases n,
{
    if n < 10 {
        digit_value_of_digit_char(n);
    } else {
        decimal_is_digits(n / 10);
        digit_value_of_digit_char(n % 10);
    }
}

/// A byte takes one digit below ten, two below a hundred and three from there.
pub proof fn decimal_len_of_byte(n: u8)
    ensures
        decimal(n as nat).len() == if n < 10 {
            1nat
        } else if n < 100 {
            2nat
        } else {
            3nat
        },
{
    reveal_with_fuel(decimal, 3);
}

/// Reading the decimal notation of a number gives the number back, so two
/// numbers with the same notation are the same number.
pub proof fn decimal_value_of_decimal(n: nat)
    ensures
        decimal_value(decimal(n)) == n,
    decreases n,
{
    if n < 10 {
        digit_value_of_digit_char(n);
        assert(decimal(n).drop_last() =~= Seq::<char>::empty());
        assert(decimal_value(decimal(n).drop_last()) == 0);
    } else {
        decimal_value_of_decimal(n / 10);
        digit_value_of_digit_char(n % 10);
        assert(decimal(n).drop_last() =~= decimal(n / 10));
    }
}

/// Two texts that each consist of a run of digits, a space and a rest are
/// equal only if the runs are equal and the rests are equal.
proof fn split_at_first_space(a: Seq<char>, x: Seq<char>, b: Seq<char>, y: Seq<char>)
    requires
        forall|i: int| 0 <= i < a.len() ==> is_digit(#[trigger] a[i]),
        forall|i: int| 0 <= i < b.len() ==> is_digit(#[trigger] b[i]),
        a + seq![' '] + x == b + seq![' '] + y,
    ensures
        a == b,
        x == y,
{
    let left = a + seq![' '] + x;
    let right = b + seq![' '] + y;
    assert(!is_digit(' '));
    if a.len() < b.len() {
        assert(left[a.len() as int] == ' ');
        assert(right[a.len() as int] == b[a.len() as int]);
        assert(false);
    }
    if b.len() < a.len() {
        assert(right[b.len() as int] == ' ');
        assert(left[b.len() as int] == a[b.len() as int]);
        assert(false);
    }
    assert(a =~= b) by {
        assert forall|i: int| 0 <= i < a.len() implies a[i] == b[i] by {
            assert(left[i] == a[i]);
            assert(right[i] == b[i]);
        }
    }
    assert(left.len() == right.len());
    assert(x =~= y) by {
        assert forall|i: int| 0 <= i < x.len() implies x[i] == y[i] by {
            assert(left[a.len() + 1 + i] == x[i]);
            assert(right[b.len() + 1 + i] == y[i]);
        }
    }
}

/// A record consists of digits and spaces, five to eleven characters in all.
pub proof fn record_text_shape(r: u8, g: u8, b: u8)
    ensures
        5 <= record_text(r, g, b).len() <= 11,
        forall|i: int|
            0 <= i < record_text(r, g, b).len() ==> {
                let c = #[trigger] record_text(r, g, b)[i];
                is_digit(c) || c == ' '
            },
{
    decimal_len_of_byte(r);
    decimal_len_of_byte(g);
    decimal_len_of_byte(b);
    decimal_is_digits(r as nat);
    decimal_is_digits(g as nat);
    decimal_is_digits(b as nat);
}

/// A record can be read back in one way only: pixels with the same record
/// have the same three channels.
pub proof fn record_text_is_unambiguous(r1: u8, g1: u8, b1: u8, r2: u8, g2: u8, b2: u8)
    requires
        record_text(r1, g1, b1) == record_text(r2, g2, b2),
    ensures
        r1 == r2,
        g1 == g2,
        b1 == b2,
{
    let space = seq![' '];
    let rest1 = decimal(g1 as nat) + space + decimal(b1 as nat);
    let rest2 = decimal(g2 as nat) + space + decimal(b2 as nat);
    assert(record_text(r1, g1, b1) =~= decimal(r1 as nat) + space + rest1);
    assert(record_text(r2, g2, b2) =~= decimal(r2 as nat) + space + rest2);
    decimal_is_digits(r1 as nat);
    decimal_is_digits(r2 as nat);
    decimal_is_digits(g1 as nat);
    decimal_is_digits(g2 as nat);
    split_at_first_space(decimal(r1 as nat), rest1, decimal(r2 as nat), rest2);
    split_at_first_space(
        decimal(g1 as nat),
        decimal(b1 as nat),
        decimal(g2 as nat),
        decimal(b2 as nat),
    );
    decimal_value_of_decimal(r1 as nat);
    decimal_value_of_decimal(r2 as nat);
    decimal_value_of_decimal(g1 as nat);
    decimal_value_of_decimal(g2 as nat);
    decimal_value_of_decimal(b1 as nat);
    decimal_value_of_decimal(b2 as nat);
}

} // verus!
