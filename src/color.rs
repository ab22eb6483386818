//! Border colours: parsed from and printed as `#RRGGBB`, sent to X as opaque ARGB.

use vstd::prelude::*;
use vstd::string::is_ascii;

verus! {

/// An opaque RGB colour.
#[derive(Debug, Clone, Copy, PartialEq, Eq, Structural)]
pub struct Color {
    pub red: u8,
    pub green: u8,
    pub blue: u8,
}

/// The error for text that is no `#RRGGBB` colour.
#[derive(Debug)]
pub struct ParseColorError {
    pub color: String,
}

impl ParseColorError {
    /// `Invalid color: <text>`.
    pub fn message(&self) -> (r: String)
        ensures
            r@ == "Invalid color: "@ + self.color@,
    {
        let mut r = String::from_str("Invalid color: ");
        proof {
            reveal_strlit("Invalid color: ");
        }
        r.append(self.color.as_str());
        r
    }
}

/// Unicode's White_Space property, which `char::is_whitespace` tests.
pub open spec fn is_space(c: char) -> bool {
    ||| '\t' <= c <= '\r'
    ||| c == ' '
    ||| c == '\u{85}'
    ||| c == '\u{A0}'
    ||| c == '\u{1680}'
    ||| '\u{2000}' <= c <= '\u{200A}'
    ||| c == '\u{2028}'
    ||| c == '\u{2029}'
    ||| c == '\u{202F}'
    ||| c == '\u{205F}'
    ||| c == '\u{3000}'
}

pub fn is_space_char(c: char) -> (r: bool)
    ensures
        r == is_space(c),
{
    ('\t' <= c && c <= '\r') || c == ' ' || c == '\u{85}' || c == '\u{A0}' || c == '\u{1680}' || ('\u{2000}'
        <= c && c <= '\u{200A}') || c == '\u{2028}' || c == '\u{2029}' || c == '\u{202F}' || c
        == '\u{205F}' || c == '\u{3000}'
}

pub open spec fn is_hex_digit(c: char) -> bool {
    ('0' <= c <= '9') || ('a' <= c <= 'f') || ('A' <= c <= 'F')
}

pub open spec fn hex_value(c: char) -> int {
    if '0' <= c <= '9' {
        c as int - '0' as int
    } else if 'a' <= c <= 'f' {
        c as int - 'a' as int + 10
    } else {
        c as int - 'A' as int + 10
    }
}

/// The upper-case hex digit for `d` in 0..16.
pub open spec fn hex_char(d: int) -> char {
    seq!['0', '1', '2', '3', '4', '5', '6', '7', '8', '9', 'A', 'B', 'C', 'D', 'E', 'F'][d]
}

/// The number of leading characters that are no hex digit.
pub open spec fn leading_non_hex(s: Seq<char>) -> int
    decreases s.len(),
{
    if s.len() == 0 || is_hex_digit(s[0]) {
        0
    } else {
        1 + leading_non_hex(s.drop_first())
    }
}

/// `s` without its trailing white space.
pub open spec fn trim_end(s: Seq<char>) -> Seq<char>
    decreases s.len(),
{
    if s.len() > 0 && is_space(s.last()) {
        trim_end(s.drop_last())
    } else {
        s
    }
}

/// The text a colour is read from: leading non-hex characters and trailing white
/// space taken off.
pub open spec fn color_text(s: Seq<char>) -> Seq<char> {
    trim_end(s.skip(leading_non_hex(s)))
}

pub open spec fn byte_at(t: Seq<char>, i: int) -> u8 {
    (hex_value(t[i]) * 16 + hex_value(t[i + 1])) as u8
}

/// The colour that the text gives, if it is exactly six hex digits once trimmed.
pub open spec fn spec_parse_color(s: Seq<char>) -> Option<Color> {
    let t = color_text(s);
    if t.len() == 6 && forall|i: int| 0 <= i < 6 ==> is_hex_digit(#[trigger] t[i]) {
        Some(Color { red: byte_at(t, 0), green: byte_at(t, 2), blue: byte_at(t, 4) })
    } else {
        None
    }
}

/// The message of a failed parse: the trimmed text when its length is wrong, else
/// the message of an invalid digit.
pub open spec fn color_error_text(s: Seq<char>) -> Seq<char> {
    let t = color_text(s);
    if t.len() != 6 {
        t
    } else {
        "invalid digit found in string"@
    }
}

/// `#RRGGBB` in upper-case hex.
pub open spec fn spec_color_hex(c: Color) -> Seq<char> {
    seq![
        '#',
        hex_char(c.red as int / 16),
        hex_char(c.red as int % 16),
        hex_char(c.green as int / 16),
        hex_char(c.green as int % 16),
        hex_char(c.blue as int / 16),
        hex_char(c.blue as int % 16),
    ]
}

fn hex_digit_value(c: char) -> (r: Option<u8>)
    ensures
        is_hex_digit(c) ==> r == Some(hex_value(c) as u8),
        !is_hex_digit(c) ==> r is None,
{
    if '0' <= c && c <= '9' {
        Some((c as u32 - '0' as u32) as u8)
    } else if 'a' <= c && c <= 'f' {
        Some((c as u32 - 'a' as u32 + 10) as u8)
    } else if 'A' <= c && c <= 'F' {
        Some((c as u32 - 'A' as u32 + 10) as u8)
    } else {
        None
    }
}

pub(crate) fn hex_digit_str(d: u8) -> (r: &'static str)
    requires
        d < 16,
    ensures
        r@ == seq![hex_char(d as int)],
{
    let digits: &'static str = "0123456789ABCDEF";
    proof {
        reveal_strlit("0123456789ABCDEF");
    }
    assert(is_ascii(digits));
    let r = digits.substring_ascii(d as usize, d as usize + 1);
    assert(r@ =~= seq![hex_char(d as int)]);
    r
}

/// The decimal digits of `n`, without leading zeros.
pub open spec fn u8_text(n: u8) -> Seq<char> {
    if n >= 100 {
        seq![hex_char(n as int / 100), hex_char((n as int / 10) % 10), hex_char(n as int % 10)]
    } else if n >= 10 {
        seq![hex_char(n as int / 10), hex_char(n as int % 10)]
    } else {
        seq![hex_char(n as int)]
    }
}

/// Appends the decimal digits of `n`.
pub fn push_u8_text(s: &mut String, n: u8)
    ensures
        final(s)@ == old(s)@ + u8_text(n),
{
    if n >= 100 {
        s.append(hex_digit_str(n / 100));
        s.append(hex_digit_str((n / 10) % 10));
        s.append(hex_digit_str(n % 10));
    } else if n >= 10 {
        s.append(hex_digit_str(n / 10));
        s.append(hex_digit_str(n % 10));
    } else {
        s.append(hex_digit_str(n));
    }
    assert(s@ =~= old(s)@ + u8_text(n));
}

/// `leading_non_hex(s) == k` when `s[..k]` has no hex digit and `s[k]` is one (or `k` is the end).
proof fn lemma_leading_non_hex_at(s: Seq<char>, k: int)
    requires
        0 <= k <= s.len(),
        forall|j: int| 0 <= j < k ==> !is_hex_digit(#[trigger] s[j]),
        k < s.len() ==> is_hex_digit(s[k]),
    ensures
        leading_non_hex(s) == k,
    decreases s.len(),
{
    if k > 0 {
        assert(!is_hex_digit(s[0]));
        assert forall|j: int| 0 <= j < k - 1 implies !is_hex_digit(#[trigger] s.drop_first()[j]) by {
            assert(s.drop_first()[j] == s[j + 1]);
        }
        lemma_leading_non_hex_at(s.drop_first(), k - 1);
    }
}

/// `trim_end(s) == s[..e]` when `s[e..]` is all white space and `s[e - 1]` is not.
proof fn lemma_trim_end_at(s: Seq<char>, e: int)
    requires
        0 <= e <= s.len(),
        forall|j: int| e <= j < s.len() ==> is_space(#[trigger] s[j]),
        e > 0 ==> !is_space(s[e - 1]),
    ensures
        trim_end(s) == s.subrange(0, e),
    decreases s.len(),
{
    if s.len() > e {
        assert(s.drop_last().subrange(0, e) =~= s.subrange(0, e));
        lemma_trim_end_at(s.drop_last(), e);
    } else {
        assert(s.subrange(0, e) =~= s);
    }
}

impl Color {
    pub fn new(r: u8, g: u8, b: u8) -> (c: Color)
        ensures
            c == (Color { red: r, green: g, blue: b }),
    {
        Color { red: r, green: g, blue: b }
    }

    pub fn blue() -> (c: Color)
        ensures
            c == (Color { red: 0, green: 0, blue: 255 }),
    {
        Color { red: 0, green: 0, blue: 255 }
    }

    pub open spec fn spec_argb(self) -> u32 {
        (0xff000000u32 + self.red as u32 * 0x10000 + self.green as u32 * 0x100 + self.blue as u32) as u32
    }

    /// The pixel value X takes: full alpha, then red, green and blue.
    pub fn argb(&self) -> (r: u32)
        ensures
            r == self.spec_argb(),
    {
        0xff000000u32 + self.red as u32 * 0x10000 + self.green as u32 * 0x100 + self.blue as u32
    }

    /// `#RRGGBB`, upper case.
    pub fn to_hex(&self) -> (r: String)
        ensures
            r@ == spec_color_hex(*self),
    {
        let mut r = String::from_str("#");
        proof {
            reveal_strlit("#");
        }
        r.append(hex_digit_str(self.red / 16));
        r.append(hex_digit_str(self.red % 16));
        r.append(hex_digit_str(self.green / 16));
        r.append(hex_digit_str(self.green % 16));
        r.append(hex_digit_str(self.blue / 16));
        r.append(hex_digit_str(self.blue % 16));
        assert(r@ =~= spec_color_hex(*self));
        r
    }

    /// Reads a colour written as six hex digits, after dropping any leading
    /// characters that are no hex digit (such as `#`) and trailing white space.
    pub fn parse(s: &str) -> (r: Result<Color, ParseColorError>)
        ensures
            match r {
                Ok(c) => spec_parse_color(s@) == Some(c),
                Err(e) => spec_parse_color(s@) is None && e.color@ == color_error_text(s@),
            },
    {
        let n = s.unicode_len();
        let mut i: usize = 0;
        while i < n && hex_digit_value(s.get_char(i)).is_none()
            invariant
                i <= n,
                n == s@.len(),
                forall|j: int| 0 <= j < i ==> !is_hex_digit(#[trigger] s@[j]),
            decreases n - i,
        {
            i = i + 1;
        }
        proof {
            lemma_leading_non_hex_at(s@, i as int);
        }
        let mut e: usize = n;
        while e > i && is_space_char(s.get_char(e - 1))
            invariant
                i <= e <= n,
                n == s@.len(),
                forall|j: int| e <= j < n ==> is_space(#[trigger] s@[j]),
            decreases e,
        {
            e = e - 1;
        }
        let ghost u = s@.skip(i as int);
        proof {
            assert forall|j: int| e - i <= j < u.len() implies is_space(#[trigger] u[j]) by {
                assert(u[j] == s@[j + i]);
            }
            if e > i {
                assert(u[e - i - 1] == s@[e - 1]);
            }
            lemma_trim_end_at(u, e - i);
            assert(u.subrange(0, e - i) =~= s@.subrange(i as int, e as int));
        }
        let ghost t = s@.subrange(i as int, e as int);
        assert(color_text(s@) == t);
        if e - i != 6 {
            return Err(ParseColorError { color: s.substring_char(i, e).to_owned() });
        }
        let d0 = hex_digit_value(s.get_char(i));
        let d1 = hex_digit_value(s.get_char(i + 1));
        let d2 = hex_digit_value(s.get_char(i + 2));
        let d3 = hex_digit_value(s.get_char(i + 3));
        let d4 = hex_digit_value(s.get_char(i + 4));
        let d5 = hex_digit_value(s.get_char(i + 5));
        assert(t[0] == s@[i as int] && t[1] == s@[i + 1] && t[2] == s@[i + 2]);
        assert(t[3] == s@[i + 3] && t[4] == s@[i + 4] && t[5] == s@[i + 5]);
        match (d0, d1, d2, d3, d4, d5) {
            (Some(a), Some(b), Some(c), Some(d), Some(f), Some(g)) => {
                assert(forall|k: int| 0 <= k < 6 ==> is_hex_digit(#[trigger] t[k]));
                Ok(Color { red: a * 16 + b, green: c * 16 + d, blue: f * 16 + g })
            },
            _ => {
                let msg = String::from_str("invalid digit found in string");
                proof {
                    reveal_strlit("invalid digit found in string");
                }
                Err(ParseColorError { color: msg })
            },
        }
    }
}

} // verus!
