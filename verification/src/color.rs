//! Colours as the platform writes them.

use crate::digits;
use vstd::prelude::*;
use vstd::string::*;

verus! {

/// A colour as red, green, blue and alpha.
pub type RGBA = (u8, u8, u8, u8);

/// A colour as `#AARRGGBB`: alpha first, two upper-case hexadecimal digits for
/// each component.
pub open spec fn argb_hex(color: RGBA) -> Seq<char> {
    seq!['#'] + digits::hex_byte(color.3) + digits::hex_byte(color.0) + digits::hex_byte(color.1) + digits::hex_byte(color.2)
}

/// Formats a colour as the `#AARRGGBB` string (alpha first).
pub fn rgba_to_argb_hex(color: RGBA) -> (text: String)
    ensures
        text@ == argb_hex(color),
{
    let mut text = "#".to_string();
    proof {
        reveal_strlit("#");
        assert(text@ =~= seq!['#']);
    }
    digits::push_hex_byte(&mut text, color.3);
    digits::push_hex_byte(&mut text, color.0);
    digits::push_hex_byte(&mut text, color.1);
    digits::push_hex_byte(&mut text, color.2);
    text
}

/// The components of a colour are read back from its text, alpha first.
pub proof fn law_argb_hex_is_read_back(color: RGBA)
    ensures
        ({
            let text = argb_hex(color);
            let read = |at: int|
                16 * digits::read_hex_digit(text[at]) + digits::read_hex_digit(text[at + 1]);
            &&& text.len() == 9
            &&& text[0] == '#'
            &&& read(1) == color.3
            &&& read(3) == color.0
            &&& read(5) == color.1
            &&& read(7) == color.2
            &&& forall|i: int| 1 <= i < 9 ==> '0' <= #[trigger] text[i] <= '9' || 'A' <= text[i]
                <= 'F'
        }),
{
    digits::law_hex_byte_is_read_back(color.0);
    digits::law_hex_byte_is_read_back(color.1);
    digits::law_hex_byte_is_read_back(color.2);
    digits::law_hex_byte_is_read_back(color.3);
    let text = argb_hex(color);
    assert(text[1] == digits::hex_byte(color.3)[0] && text[2] == digits::hex_byte(color.3)[1]);
    assert(text[3] == digits::hex_byte(color.0)[0] && text[4] == digits::hex_byte(color.0)[1]);
    assert(text[5] == digits::hex_byte(color.1)[0] && text[6] == digits::hex_byte(color.1)[1]);
    assert(text[7] == digits::hex_byte(color.2)[0] && text[8] == digits::hex_byte(color.2)[1]);
}

/// Two colours that are written alike are the same colour.
pub proof fn law_argb_hex_is_injective(a: RGBA, b: RGBA)
    ensures
        argb_hex(a).len() == 9,
        argb_hex(a) == argb_hex(b) ==> a == b,
{
    if argb_hex(a) == argb_hex(b) {
        let x = argb_hex(a);
        let y = argb_hex(b);
        assert(x[1] == y[1] && x[2] == y[2] && x[3] == y[3] && x[4] == y[4]);
        assert(x[5] == y[5] && x[6] == y[6] && x[7] == y[7] && x[8] == y[8]);
    }
}

} // verus!
