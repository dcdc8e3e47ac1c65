//! Numbers written out in digits.

use vstd::prelude::*;
use vstd::string::*;

verus! {

/// The digit for a value below sixteen; letters are upper case.
pub open spec fn digit(value: int) -> char {
    if value == 0 {
        '0'
    } else if value == 1 {
        '1'
    } else if value == 2 {
        '2'
    } else if value == 3 {
        '3'
    } else if value == 4 {
        '4'
    } else if value == 5 {
        '5'
    } else if value == 6 {
        '6'
    } else if value == 7 {
        '7'
    } else if value == 8 {
        '8'
    } else if value == 9 {
        '9'
    } else if value == 10 {
        'A'
    } else if value == 11 {
        'B'
    } else if value == 12 {
        'C'
    } else if value == 13 {
        'D'
    } else if value == 14 {
        'E'
    } else {
        'F'
    }
}

/// A byte in two hexadecimal digits.
pub open spec fn hex_byte(byte: u8) -> Seq<char> {
    seq![digit(byte as int / 16), digit(byte as int % 16)]
}

/// A number in decimal digits, without leading zeros.
pub open spec fn decimal(n: nat) -> Seq<char>
    decreases n,
{
    if n < 10 {
        seq![digit(n as int)]
    } else {
        decimal(n / 10).push(digit(n as int % 10))
    }
}

/// The digit for `value`, as text.
fn digit_text(value: u8) -> (text: &'static str)
    requires
        value < 16,
    ensures
        text@ == seq![digit(value as int)],
{
    proof {
        reveal_strlit("0");
        reveal_strlit("1");
        reveal_strlit("2");
        reveal_strlit("3");
        reveal_strlit("4");
        reveal_strlit("5");
        reveal_strlit("6");
        reveal_strlit("7");
        reveal_strlit("8");
        reveal_strlit("9");
        reveal_strlit("A");
        reveal_strlit("B");
        reveal_strlit("C");
        reveal_strlit("D");
        reveal_strlit("E");
        reveal_strlit("F");
    }
    let text: &'static str = match value {
        0 => "0",
        1 => "1",
        2 => "2",
        3 => "3",
        4 => "4",
        5 => "5",
        6 => "6",
        7 => "7",
        8 => "8",
        9 => "9",
        10 => "A",
        11 => "B",
        12 => "C",
        13 => "D",
        14 => "E",
        _ => "F",
    };
    assert(text@ =~= seq![digit(value as int)]);
    text
}

/// Appends `byte` to `text` in two hexadecimal digits.
pub fn push_hex_byte(text: &mut String, byte: u8)
    ensures
        final(text)@ == old(text)@ + hex_byte(byte),
{
    text.append(digit_text(byte / 16));
    text.append(digit_text(byte % 16));
    assert(text@ =~= old(text)@ + hex_byte(byte));
}

/// `n` in decimal digits.
pub fn decimal_text(n: u128) -> (text: String)
    ensures
        text@ == decimal(n as nat),
    decreases n,
{
    if n < 10 {
        let d: u8 = n as u8;
        digit_text(d).to_string()
    } else {
        let d: u8 = (n % 10) as u8;
        let mut text = decimal_text(n / 10);
        text.append(digit_text(d));
        assert(text@ =~= decimal((n / 10) as nat).push(digit(n as int % 10)));
        text
    }
}

/// The number that decimal digits stand for.
pub open spec fn read_decimal(digits: Seq<char>) -> int
    decreases digits.len(),
{
    if digits.len() == 0 {
        0
    } else {
        10 * read_decimal(digits.drop_last()) + (digits.last() as u32 - '0' as u32)
    }
}

/// The value of a hexadecimal digit with upper-case letters.
pub open spec fn read_hex_digit(c: char) -> int {
    if '0' <= c <= '9' {
        c as u32 - '0' as u32
    } else {
        c as u32 - 'A' as u32 + 10
    }
}

/// A number is read back from its decimal digits, of which the first is no zero
/// unless it is the only one.
pub proof fn law_decimal_is_read_back(n: nat)
    ensures
        read_decimal(decimal(n)) == n,
        decimal(n).len() > 0,
        decimal(n).len() > 1 ==> decimal(n)[0] != '0',
        forall|i: int| 0 <= i < decimal(n).len() ==> '0' <= #[trigger] decimal(n)[i] <= '9',
    decreases n,
{
    if n < 10 {
        assert(decimal(n).drop_last() =~= Seq::empty());
        assert(read_decimal(decimal(n).drop_last()) == 0);
    } else {
        law_decimal_is_read_back(n / 10);
        assert(decimal(n).drop_last() =~= decimal(n / 10));
        assert(decimal(n)[0] == decimal(n / 10)[0]);
        if n / 10 >= 10 {
            lemma_decimal_nonempty(n / 10 / 10);
            assert(decimal(n / 10).len() > 1);
        } else {
            assert(decimal(n / 10)[0] != '0');
        }
        assert forall|i: int| 0 <= i < decimal(n).len() implies '0' <= #[trigger] decimal(n)[i]
            <= '9' by {
            if i < decimal(n).len() - 1 {
                assert(decimal(n)[i] == decimal(n / 10)[i]);
            }
        }
    }
}

/// A byte is read back from its two hexadecimal digits.
pub proof fn law_hex_byte_is_read_back(byte: u8)
    ensures
        hex_byte(byte).len() == 2,
        16 * read_hex_digit(hex_byte(byte)[0]) + read_hex_digit(hex_byte(byte)[1]) == byte,
        forall|i: int|
            0 <= i < 2 ==> '0' <= #[trigger] hex_byte(byte)[i] <= '9' || 'A' <= hex_byte(byte)[i]
                <= 'F',
{
}

/// Two numbers that are written alike are the same number.
pub proof fn law_decimal_is_injective(a: nat, b: nat)
    ensures
        decimal(a) == decimal(b) ==> a == b,
    decreases a,
{
    if decimal(a) == decimal(b) {
        if a >= 10 && b >= 10 {
            assert(decimal(a).drop_last() =~= decimal(a / 10));
            assert(decimal(b).drop_last() =~= decimal(b / 10));
            assert(decimal(a).last() == decimal(b).last());
            law_decimal_is_injective(a / 10, b / 10);
        } else if a < 10 && b < 10 {
            assert(decimal(a)[0] == decimal(b)[0]);
        } else if a < 10 {
            assert(decimal(b).len() == decimal(b / 10).len() + 1);
            lemma_decimal_nonempty(b / 10);
        } else {
            assert(decimal(a).len() == decimal(a / 10).len() + 1);
            lemma_decimal_nonempty(a / 10);
        }
    }
}

proof fn lemma_decimal_nonempty(n: nat)
    ensures
        decimal(n).len() > 0,
{
}

} // verus!
