//! The integer side of colors: parsing CSS hex colors (`#rrggbb` or `#rgb`)
//! into 8-bit channels, and writing 8-bit channels back as `#rrggbb`.

use vstd::prelude::*;

use crate::text::chars_of;

verus! {

/// The value of a hexadecimal digit.
pub open spec fn hex_digit_value(c: char) -> Option<u8> {
    if '0' <= c && c <= '9' {
        Some((c as u32 - '0' as u32) as u8)
    } else if 'a' <= c && c <= 'f' {
        Some((c as u32 - 'a' as u32 + 10) as u8)
    } else if 'A' <= c && c <= 'F' {
        Some((c as u32 - 'A' as u32 + 10) as u8)
    } else {
        None
    }
}

/// `u8::from_str_radix` on the two-character string `ab` in base 16: two hex
/// digits, or `+` followed by one.
pub open spec fn radix16_pair(a: char, b: char) -> Option<u8> {
    if a == '+' {
        hex_digit_value(b)
    } else {
        match (hex_digit_value(a), hex_digit_value(b)) {
            (Some(x), Some(y)) => Some((x * 16 + y) as u8),
            _ => None,
        }
    }
}

/// Every character is ASCII.
pub open spec fn all_ascii(s: Seq<char>) -> bool {
    forall|i: int| 0 <= i < s.len() ==> (#[trigger] s[i]) as u32 <= 0x7f
}

/// The text after one optional leading `#`.
pub open spec fn strip_hash(s: Seq<char>) -> Seq<char> {
    if s.len() > 0 && s[0] == '#' {
        s.drop_first()
    } else {
        s
    }
}

/// The 8-bit channels of a CSS hex color: after an optional `#`, six
/// characters read as three pairs, or three read as doubled digits
/// (`#fff` is `#ffffff`). Anything else has no value.
pub open spec fn hex_rgb(s: Seq<char>) -> Option<(u8, u8, u8)> {
    let r = strip_hash(s);
    if !all_ascii(r) {
        None
    } else if r.len() == 6 {
        match (radix16_pair(r[0], r[1]), radix16_pair(r[2], r[3]), radix16_pair(r[4], r[5])) {
            (Some(x), Some(y), Some(z)) => Some((x, y, z)),
            _ => None,
        }
    } else if r.len() == 3 {
        match (radix16_pair(r[0], r[0]), radix16_pair(r[1], r[1]), radix16_pair(r[2], r[2])) {
            (Some(x), Some(y), Some(z)) => Some((x, y, z)),
            _ => None,
        }
    } else {
        None
    }
}

fn digit_value(c: char) -> (r: Option<u8>)
    ensures
        r == hex_digit_value(c),
{
    if '0' <= c && c <= '9' {
        Some((c as u32 - '0' as u32) as u8)
    } else if 'a' <= c && c <= 'f' {
        Some((c as u32 - 'a' as u32 + 10) as u8)
    } else if 'A' <= c && c <= 'F' {
        Some((c as u32 - 'A' as u32 + 10) as u8)
    } else {
        None
    }
}

fn pair_value(a: char, b: char) -> (r: Option<u8>)
    ensures
        r == radix16_pair(a, b),
{
    if a == '+' {
        digit_value(b)
    } else {
        match (digit_value(a), digit_value(b)) {
            (Some(x), Some(y)) => Some(x * 16 + y),
            _ => None,
        }
    }
}

/// Parse a CSS hex color string (`#rrggbb` or `#rgb`) into its 8-bit
/// channels. Text that is not ASCII after the `#` has no value (the float
/// color built from these channels is `channel / 255`).
pub fn parse_hex_rgb(s: &str) -> (r: Option<(u8, u8, u8)>)
    ensures
        r == hex_rgb(s@),
{
    let cs = chars_of(s);
    let start: usize = if cs.len() > 0 && cs[0] == '#' { 1 } else { 0 };
    let ghost rest = strip_hash(cs@);
    assert(rest =~= cs@.skip(start as int));
    let n = cs.len() - start;
    let mut i = start;
    while i < cs.len()
        invariant
            start <= i <= cs@.len(),
            cs@ == s@,
            rest == cs@.skip(start as int),
            rest == strip_hash(s@),
            forall|j: int| start <= j < i ==> (#[trigger] cs@[j]) as u32 <= 0x7f,
        decreases cs.len() - i,
    {
        if cs[i] as u32 > 0x7f {
            assert(rest[i - start] == cs@[i as int]);
            return None;
        }
        i = i + 1;
    }
    assert(all_ascii(rest)) by {
        assert forall|j: int| 0 <= j < rest.len() implies (#[trigger] rest[j]) as u32 <= 0x7f by {
            assert(rest[j] == cs@[j + start]);
        }
    }
    if n == 6 {
        let x = pair_value(cs[start], cs[start + 1]);
        let y = pair_value(cs[start + 2], cs[start + 3]);
        let z = pair_value(cs[start + 4], cs[start + 5]);
        match (x, y, z) {
            (Some(x), Some(y), Some(z)) => Some((x, y, z)),
            _ => None,
        }
    } else if n == 3 {
        let x = pair_value(cs[start], cs[start]);
        let y = pair_value(cs[start + 1], cs[start + 1]);
        let z = pair_value(cs[start + 2], cs[start + 2]);
        match (x, y, z) {
            (Some(x), Some(y), Some(z)) => Some((x, y, z)),
            _ => None,
        }
    } else {
        None
    }
}

/// The lower-case hexadecimal digit for `v < 16`.
pub open spec fn hex_char(v: int) -> char {
    if v < 10 {
        ('0' as u32 + v) as char
    } else {
        ('a' as u32 + v - 10) as char
    }
}

/// `#rrggbb` in lower-case hexadecimal.
pub open spec fn rgb_hex_text(r: u8, g: u8, b: u8) -> Seq<char> {
    seq![
        '#',
        hex_char((r / 16) as int),
        hex_char((r % 16) as int),
        hex_char((g / 16) as int),
        hex_char((g % 16) as int),
        hex_char((b / 16) as int),
        hex_char((b % 16) as int),
    ]
}

/// The digits as one-character strings, in value order.
pub const HEX_DIGITS: [&'static str; 16] = [
    "0", "1", "2", "3", "4", "5", "6", "7", "8", "9", "a", "b", "c", "d", "e", "f",
];

pub proof fn lemma_hex_digits()
    ensures
        forall|i: int| 0 <= i < 16 ==> (#[trigger] HEX_DIGITS[i])@ == seq![hex_char(i)],
{
    reveal_strlit("0");
    reveal_strlit("1");
    reveal_strlit("2");
    reveal_strlit("3");
    reveal_strlit("4");
    reveal_strlit("5");
    reveal_strlit("6");
    reveal_strlit("7");
    reveal_strlit("8");
    reveal_strlit("9");
    reveal_strlit("a");
    reveal_strlit("b");
    reveal_strlit("c");
    reveal_strlit("d");
    reveal_strlit("e");
    reveal_strlit("f");
    assert forall|i: int| 0 <= i < 16 implies (#[trigger] HEX_DIGITS[i])@ == seq![hex_char(i)] by {
        if i == 0 { assert(HEX_DIGITS[i]@ =~= seq![hex_char(i)]); }
        else if i == 1 { assert(HEX_DIGITS[i]@ =~= seq![hex_char(i)]); }
        else if i == 2 { assert(HEX_DIGITS[i]@ =~= seq![hex_char(i)]); }
        else if i == 3 { assert(HEX_DIGITS[i]@ =~= seq![hex_char(i)]); }
        else if i == 4 { assert(HEX_DIGITS[i]@ =~= seq![hex_char(i)]); }
        else if i == 5 { assert(HEX_DIGITS[i]@ =~= seq![hex_char(i)]); }
        else if i == 6 { assert(HEX_DIGITS[i]@ =~= seq![hex_char(i)]); }
        else if i == 7 { assert(HEX_DIGITS[i]@ =~= seq![hex_char(i)]); }
        else if i == 8 { assert(HEX_DIGITS[i]@ =~= seq![hex_char(i)]); }
        else if i == 9 { assert(HEX_DIGITS[i]@ =~= seq![hex_char(i)]); }
        else if i == 10 { assert(HEX_DIGITS[i]@ =~= seq![hex_char(i)]); }
        else if i == 11 { assert(HEX_DIGITS[i]@ =~= seq![hex_char(i)]); }
        else if i == 12 { assert(HEX_DIGITS[i]@ =~= seq![hex_char(i)]); }
        else if i == 13 { assert(HEX_DIGITS[i]@ =~= seq![hex_char(i)]); }
        else if i == 14 { assert(HEX_DIGITS[i]@ =~= seq![hex_char(i)]); }
        else { assert(HEX_DIGITS[i]@ =~= seq![hex_char(i)]); }
    }
}

fn push_hex_byte(out: &mut String, v: u8)
    ensures
        final(out)@ == old(out)@ + seq![hex_char((v / 16) as int), hex_char((v % 16) as int)],
{
    proof {
        lemma_hex_digits();
    }
    let digits = HEX_DIGITS;
    out.append(digits[(v / 16) as usize]);
    out.append(digits[(v % 16) as usize]);
    assert(final(out)@ =~= old(out)@ + seq![hex_char((v / 16) as int), hex_char((v % 16) as int)]);
}

/// The 8-bit channels as `#rrggbb` (lower-case).
pub fn rgb_hex(r: u8, g: u8, b: u8) -> (s: String)
    ensures
        s@ == rgb_hex_text(r, g, b),
{
    let mut s = String::from_str("#");
    proof {
        reveal_strlit("#");
    }
    push_hex_byte(&mut s, r);
    push_hex_byte(&mut s, g);
    push_hex_byte(&mut s, b);
    assert(s@ =~= rgb_hex_text(r, g, b));
    s
}

/// Writing channels as `#rrggbb` and parsing the text gives the channels back.
pub proof fn lemma_hex_round_trip(r: u8, g: u8, b: u8)
    ensures
        hex_rgb(rgb_hex_text(r, g, b)) == Some((r, g, b)),
{
    let t = rgb_hex_text(r, g, b);
    assert(strip_hash(t) =~= t.drop_first());
    assert forall|v: u8| #[trigger] radix16_pair(hex_char((v / 16) as int), hex_char((v % 16) as int)) == Some(v) by {
        assert(hex_char((v / 16) as int) != '+');
    }
    assert(radix16_pair(t[1], t[2]) == Some(r));
    assert(radix16_pair(t[3], t[4]) == Some(g));
    assert(radix16_pair(t[5], t[6]) == Some(b));
}

} // verus!
