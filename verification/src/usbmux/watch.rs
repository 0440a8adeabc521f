//! How devices that come and go are shown.

use vstd::prelude::*;
use crate::text::{
    dec_u64, decimal, hex_char, hex_digit_value, hex_digits_value, join2, join3, string_of,
};
use super::types::Device;

verus! {

/// A number as `0x` and four digits.
pub open spec fn hex_word(n: u16) -> Seq<char> {
    seq![
        '0',
        'x',
        hex_char((n / 4096) as nat),
        hex_char((n / 256 % 16) as nat),
        hex_char((n / 16 % 16) as nat),
        hex_char((n % 16) as nat),
    ]
}

fn hex_digit(d: u16) -> (c: char)
    requires
        d < 16,
    ensures
        c == hex_char(d as nat),
{
    if d < 10 {
        (48u8 + d as u8) as char
    } else {
        (97u8 + (d as u8 - 10)) as char
    }
}

fn word_text(n: u16) -> (s: String)
    ensures
        s@ == hex_word(n),
{
    let mut chars: Vec<char> = Vec::new();
    chars.push('0');
    chars.push('x');
    chars.push(hex_digit(n / 4096));
    chars.push(hex_digit(n / 256 % 16));
    chars.push(hex_digit(n / 16 % 16));
    chars.push(hex_digit(n % 16));
    assert(chars@ =~= hex_word(n));
    string_of(chars.as_slice())
}

/// Shows a device that comes.
pub fn attached_line(d: &Device) -> (s: String)
    ensures
        s@ == "+ "@ + d.serial@ + " ["@ + d.connection_type.name() + "] product="@ + hex_word(
            d.product_id,
        ),
{
    let head: String = join3("+ ", d.serial.as_str(), " [");
    let named: String = join3(head.as_str(), d.connection_type.text().as_str(), "] product=");
    join2(named.as_str(), word_text(d.product_id).as_str())
}

/// Shows a device that goes.
pub fn detached_line(device_id: u32) -> (s: String)
    ensures
        s@ == "- device_id="@ + decimal(device_id as nat),
{
    join2("- device_id=", dec_u64(device_id as u64).as_str())
}

/// A number is shown as `0x` and four hexadecimal digits that count it.
pub proof fn lemma_hex_word(n: u16)
    ensures
        hex_word(n).len() == 6,
        hex_word(n)[0] == '0',
        hex_word(n)[1] == 'x',
        hex_digits_value(hex_word(n).skip(2)) == n,
        forall|i: int|
            2 <= i < 6 ==> {
                let c = #[trigger] hex_word(n)[i];
                ('0' <= c && c <= '9') || ('a' <= c && c <= 'f')
            },
{
    let s = hex_word(n).skip(2);
    assert(s.drop_last().drop_last().drop_last().drop_last() =~= Seq::<char>::empty());
    assert(hex_digit_value(s[0]) == n / 4096);
    assert(hex_digit_value(s[1]) == n / 256 % 16);
    assert(hex_digit_value(s[2]) == n / 16 % 16);
    assert(hex_digit_value(s[3]) == n % 16);
    reveal_with_fuel(hex_digits_value, 5);
    assert(hex_digits_value(s) == 16 * (16 * (16 * hex_digit_value(s[0]) + hex_digit_value(s[1]))
        + hex_digit_value(s[2])) + hex_digit_value(s[3]));
}

} // verus!
