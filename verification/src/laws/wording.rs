//! Laws of texts: numbers written and read, blanks, and the parts of lines.

use vstd::prelude::*;

use crate::random::le16;
use crate::room::participant::{kind_name, TrackKind};
use crate::text::{
    decimal, digit, digits_value, hex_byte, hex_digit, hex_text, is_blank, is_white, trim_end,
    trim_start, trimmed, uint_value,
};

verus! {

/// The digits in their order.
pub proof fn law_digit(d: int)
    requires
        0 <= d < 10,
    ensures
        digit(d) as u32 == 48 + d,
{
}

/// The hexadecimal digits in their order, in upper case.
pub proof fn law_hex_digit(d: int)
    requires
        0 <= d < 16,
    ensures
        hex_digit(d) as u32 == (if d < 10 {
            48 + d
        } else {
            55 + d
        }),
{
}

/// A number that is written in decimal reads back as itself, and begins with 0 only
/// where it is 0.
pub proof fn law_decimal_reads_back(n: nat)
    ensures
        decimal(n).len() > 0,
        digits_value(decimal(n)) == Some(n),
        forall|max: nat| n <= max ==> #[trigger] uint_value(decimal(n), max) == Some(n),
        forall|max: nat| n > max ==> #[trigger] uint_value(decimal(n), max) is None,
        decimal(n)[0] == '0' ==> n == 0 && decimal(n).len() == 1,
        decimal(n)[0] != '+',
    decreases n,
{
    let s = decimal(n);
    law_digit((n % 10) as int);
    assert(digits_value(Seq::empty()) == Some(0nat));
    if n < 10 {
        assert(s.drop_last() =~= Seq::empty());
    } else {
        law_decimal_reads_back(n / 10);
        assert(s.drop_last() =~= decimal(n / 10));
        assert(s[0] == decimal(n / 10)[0]);
    }
}

/// The value of a text of digits grows by the last digit, ten times what was before.
/// Nothing but digits has a value, and an empty text is no number.
pub proof fn law_digits(s: Seq<char>, c: char, max: nat)
    ensures
        digits_value(Seq::empty()) == Some(0nat),
        48 <= c as u32 <= 57 && digits_value(s) is Some ==> digits_value(s.push(c)) == Some(
            (digits_value(s)->0 * 10 + (c as u32 - 48)) as nat,
        ),
        !(48 <= c as u32 <= 57) || digits_value(s) is None ==> digits_value(s.push(c)) is None,
        uint_value(Seq::empty(), max) is None,
        uint_value(seq!['+'], max) is None,
        s.len() > 0 && s[0] != '+' ==> uint_value(s, max) == (if digits_value(s) is Some
            && digits_value(s)->0 <= max {
            digits_value(s)
        } else {
            None
        }),
        s.len() > 0 && s[0] != '+' ==> uint_value(seq!['+'] + s, max) == uint_value(s, max),
{
    assert(s.push(c).drop_last() =~= s);
    assert(s.push(c).last() == c);
    assert((seq!['+'] + s).drop_first() =~= s);
    assert(seq!['+'].drop_first() =~= Seq::empty());
}

/// The value of a hexadecimal digit in upper case.
pub open spec fn hex_value(c: char) -> int {
    if c as u32 <= 57 {
        c as u32 - 48
    } else {
        c as u32 - 55
    }
}

/// A byte in hexadecimal: two digits, the higher one first.
pub proof fn law_hex_byte(b: u8)
    ensures
        hex_byte(b).len() == 2,
        hex_value(hex_byte(b)[0]) * 16 + hex_value(hex_byte(b)[1]) == b,
        0 <= hex_value(hex_byte(b)[0]) < 16,
        0 <= hex_value(hex_byte(b)[1]) < 16,
{
    law_hex_digit((b / 16) as int);
    law_hex_digit((b % 16) as int);
}

/// The value of two hexadecimal digits of a text.
pub open spec fn hex_pair(s: Seq<char>, i: int) -> int {
    hex_value(s[i]) * 16 + hex_value(s[i + 1])
}

/// A number of 32 bits in hexadecimal: eight digits behind a prefix, the highest
/// first.
pub proof fn law_hex_text(x: u32)
    ensures
        hex_text(x).len() == 10,
        hex_text(x)[0] == '0' && hex_text(x)[1] == 'x',
        hex_pair(hex_text(x), 2) * 0x100_0000 + hex_pair(hex_text(x), 4) * 0x1_0000 + hex_pair(
            hex_text(x),
            6,
        ) * 0x100 + hex_pair(hex_text(x), 8) == x,
{
    lemma_hex_bytes(x);
    let b3 = (x / 0x100_0000) as int;
    let b2 = (x / 0x1_0000 % 0x100) as int;
    let b1 = (x / 0x100 % 0x100) as int;
    let b0 = (x % 0x100) as int;
    lemma_four_bytes(x, b3, b2, b1, b0);
}

proof fn lemma_four_bytes(x: u32, b3: int, b2: int, b1: int, b0: int)
    requires
        b3 == x / 0x100_0000,
        b2 == x / 0x1_0000 % 0x100,
        b1 == x / 0x100 % 0x100,
        b0 == x % 0x100,
    ensures
        b3 * 0x100_0000 + b2 * 0x1_0000 + b1 * 0x100 + b0 == x,
{
}

proof fn lemma_hex_bytes(x: u32)
    ensures
        hex_text(x).len() == 10,
        hex_text(x)[0] == '0' && hex_text(x)[1] == 'x',
        hex_pair(hex_text(x), 2) == x / 0x100_0000,
        hex_pair(hex_text(x), 4) == x / 0x1_0000 % 0x100,
        hex_pair(hex_text(x), 6) == x / 0x100 % 0x100,
        hex_pair(hex_text(x), 8) == x % 0x100,
{
    let b3 = (x / 0x100_0000) as u8;
    let b2 = (x / 0x1_0000 % 0x100) as u8;
    let b1 = (x / 0x100 % 0x100) as u8;
    let b0 = (x % 0x100) as u8;
    law_hex_byte(b3);
    law_hex_byte(b2);
    law_hex_byte(b1);
    law_hex_byte(b0);
    lemma_pairs(hex_text(x), hex_byte(b3), hex_byte(b2), hex_byte(b1), hex_byte(b0));
}

proof fn lemma_pairs(s: Seq<char>, a: Seq<char>, b: Seq<char>, c: Seq<char>, d: Seq<char>)
    requires
        a.len() == 2 && b.len() == 2 && c.len() == 2 && d.len() == 2,
        s == seq!['0', 'x'] + a + b + c + d,
    ensures
        s.len() == 10,
        s[0] == '0' && s[1] == 'x',
        hex_pair(s, 2) == hex_pair(a, 0),
        hex_pair(s, 4) == hex_pair(b, 0),
        hex_pair(s, 6) == hex_pair(c, 0),
        hex_pair(s, 8) == hex_pair(d, 0),
{
}

/// Trimming takes the blanks off both ends and nothing else: what is left is a part
/// of the text, it has no blank at either end, and all that was taken off is blank.
pub proof fn law_trimming(s: Seq<char>)
    ensures
        trimmed(s).len() > 0 ==> !is_white(trimmed(s)[0]) && !is_white(trimmed(s).last()),
        exists|a: int, b: int| #[trigger] cut_at(s, a, b) && trimmed(s) == s.subrange(a, b),
        trimmed(s).len() == 0 <==> is_blank(s),
{
    let t = trim_start(s);
    let a = lemma_trim_start(s);
    let b = lemma_trim_end(t);
    assert(t.subrange(0, b) =~= s.subrange(a, a + b));
    assert forall|i: int| a + b <= i < s.len() implies is_white(#[trigger] s[i]) by {
        assert(t[i - a] == s[i]);
    }
    assert(cut_at(s, a, a + b));
    if b > 0 {
        assert(t[b - 1] == s[a + b - 1]);
        assert(t[0] == s[a]);
        assert(!is_white(s[a]));
    }
}

/// Whether all before and behind a part of a text is blank.
pub open spec fn cut_at(s: Seq<char>, a: int, b: int) -> bool {
    &&& 0 <= a <= b <= s.len()
    &&& forall|i: int| 0 <= i < a ==> is_white(#[trigger] s[i])
    &&& forall|i: int| b <= i < s.len() ==> is_white(#[trigger] s[i])
}

proof fn lemma_trim_start(s: Seq<char>) -> (a: int)
    ensures
        0 <= a <= s.len(),
        trim_start(s) == s.subrange(a, s.len() as int),
        forall|i: int| 0 <= i < a ==> is_white(#[trigger] s[i]),
        a < s.len() ==> !is_white(s[a]),
    decreases s.len(),
{
    if s.len() > 0 && is_white(s[0]) {
        let rest = s.drop_first();
        let b = lemma_trim_start(rest);
        assert(rest.subrange(b, rest.len() as int) =~= s.subrange(b + 1, s.len() as int));
        assert forall|i: int| 0 <= i < b + 1 implies is_white(#[trigger] s[i]) by {
            if i > 0 {
                assert(rest[i - 1] == s[i]);
            }
        }
        b + 1
    } else {
        assert(s.subrange(0, s.len() as int) =~= s);
        0
    }
}

proof fn lemma_trim_end(s: Seq<char>) -> (b: int)
    ensures
        0 <= b <= s.len(),
        trim_end(s) == s.subrange(0, b),
        forall|i: int| b <= i < s.len() ==> is_white(#[trigger] s[i]),
        b > 0 ==> !is_white(s[b - 1]),
    decreases s.len(),
{
    if s.len() > 0 && is_white(s.last()) {
        let rest = s.drop_last();
        let b = lemma_trim_end(rest);
        assert(rest.subrange(0, b) =~= s.subrange(0, b));
        assert forall|i: int| b <= i < s.len() implies is_white(#[trigger] s[i]) by {
            if i < rest.len() {
                assert(rest[i] == s[i]);
            }
        }
        b
    } else {
        assert(s.subrange(0, s.len() as int) =~= s);
        s.len() as int
    }
}

/// Spaces, tabs and line breaks are blank; letters, digits and signs of ASCII are not.
pub proof fn law_blanks(c: char)
    ensures
        (c as u32) < 128 ==> (is_white(c) <==> c == ' ' || 9 <= c as u32 <= 13),
{
}

/// The blanks of Unicode beyond ASCII.
pub proof fn law_wide_blanks(c: char)
    ensures
        c as u32 >= 128 ==> (is_white(c) <==> c as u32 == 0x85 || c as u32 == 0xA0 || c as u32
            == 0x1680 || (0x2000 <= c as u32 && c as u32 <= 0x200A) || c as u32 == 0x2028
            || c as u32 == 0x2029 || c as u32 == 0x202F || c as u32 == 0x205F || c as u32
            == 0x3000),
{
}

/// The names of the kinds of tracks.
pub proof fn law_kind_names()
    ensures
        kind_name(TrackKind::Audio) == "audio"@,
        kind_name(TrackKind::Video) == "video"@,
{
}

/// A random number of 16 bits is made of two bytes, the first one the lower.
pub proof fn law_little_endian(bytes: Seq<u8>)
    requires
        bytes.len() == 2,
    ensures
        le16(bytes) == bytes[0] + 256 * bytes[1],
{
}

} // verus!
