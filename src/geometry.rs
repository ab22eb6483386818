//! Value types: rectangles, directions, tag ids and layout kinds.

use vstd::prelude::*;
use crate::color::{push_u8_text, u8_text};

verus! {

/// A rectangle in root-window coordinates.
#[derive(Debug, Clone, Copy, PartialEq, Eq, Structural)]
pub struct Rect {
    pub x: i16,
    pub y: i16,
    pub width: u16,
    pub height: u16,
}

impl Rect {
    pub fn new(x: i16, y: i16, width: u16, height: u16) -> (r: Rect)
        ensures
            r == (Rect { x, y, width, height }),
    {
        Rect { x, y, width, height }
    }

    /// Inclusive containment: the right and bottom edges belong to the rectangle.
    pub open spec fn spec_contains(self, x: int, y: int) -> bool {
        &&& self.x <= x <= self.x + self.width
        &&& self.y <= y <= self.y + self.height
    }

    pub fn contains_point(&self, x: i16, y: i16) -> (r: bool)
        ensures
            r == self.spec_contains(x as int, y as int),
    {
        x >= self.x && x as i32 <= self.x as i32 + self.width as i32 && y >= self.y && y as i32
            <= self.y as i32 + self.height as i32
    }
}

/// A direction in an ordered ring (of windows, monitors or layouts).
#[derive(Debug, Clone, Copy, PartialEq, Eq, Structural)]
pub enum Direction {
    Up,
    Down,
}

impl Direction {
    pub open spec fn spec_opposite(self) -> Direction {
        match self {
            Direction::Up => Direction::Down,
            Direction::Down => Direction::Up,
        }
    }

    pub fn opposite(self) -> (r: Direction)
        ensures
            r == self.spec_opposite(),
    {
        match self {
            Direction::Up => Direction::Down,
            Direction::Down => Direction::Up,
        }
    }
}

/// The error for a tag number outside 1..=9; `tag_num` is 0 when the text was no number.
#[derive(Debug, Clone, Copy, PartialEq, Eq, Structural)]
pub struct TagValueError {
    pub tag_num: u8,
}

impl TagValueError {
    /// `Tags can be from 1 to 9: <n>`.
    pub fn message(&self) -> (r: String)
        ensures
            r@ == "Tags can be from 1 to 9: "@ + u8_text(self.tag_num),
    {
        let mut r = String::from_str("Tags can be from 1 to 9: ");
        proof {
            reveal_strlit("Tags can be from 1 to 9: ");
        }
        push_u8_text(&mut r, self.tag_num);
        r
    }
}

/// A tag (workspace) number. Valid values are 1 to 9.
#[derive(Debug, Clone, Copy, PartialEq, Eq, Hash, Structural)]
pub struct TagId(pub u8);

impl TagId {
    pub open spec fn valid(self) -> bool {
        is_tag_number(self.0 as int)
    }

    /// Wraps the number with no bound check.
    pub fn from_int_unchecked(n: u8) -> (r: TagId)
        ensures
            r.0 == n,
    {
        TagId(n)
    }

    /// The tag numbered `n`, or an error carrying `n` when it is outside 1..=9.
    pub fn new(n: u8) -> (r: Result<TagId, TagValueError>)
        ensures
            r == spec_tag_from_u8(n),
    {
        if 1 <= n && n <= 9 {
            Ok(TagId(n))
        } else {
            Err(TagValueError { tag_num: n })
        }
    }

    /// Parses a tag number written in decimal; text that is no `u8` gives the
    /// error with `tag_num` 0.
    pub fn parse(s: &str) -> (r: Result<TagId, TagValueError>)
        ensures
            r == spec_tag_from_str(s@),
    {
        match parse_u8(s) {
            Some(n) => TagId::new(n),
            None => Err(TagValueError { tag_num: 0 }),
        }
    }

    pub fn get(self) -> (r: u8)
        ensures
            r == self.0,
    {
        self.0
    }
}

pub open spec fn spec_tag_from_u8(n: u8) -> Result<TagId, TagValueError> {
    if is_tag_number(n as int) {
        Ok(TagId(n))
    } else {
        Err(TagValueError { tag_num: n })
    }
}

pub open spec fn spec_tag_from_str(s: Seq<char>) -> Result<TagId, TagValueError> {
    match spec_parse_u8(s) {
        Some(n) => spec_tag_from_u8(n),
        None => Err(TagValueError { tag_num: 0 }),
    }
}

/// How the windows of a monitor are arranged.
#[derive(Debug, Clone, Copy, PartialEq, Eq, Structural)]
pub enum LayoutType {
    MonadTall,
    Grid,
    Floating,
}

/// `k` is the first position of `x` in `s`.
pub open spec fn is_first_position(s: Seq<LayoutType>, x: LayoutType, k: int) -> bool {
    &&& 0 <= k < s.len()
    &&& s[k] == x
    &&& forall|j: int| 0 <= j < k ==> s[j] != x
}

impl LayoutType {
    fn first_position(&self, layouts: &[LayoutType]) -> (k: usize)
        requires
            layouts@.contains(*self),
        ensures
            is_first_position(layouts@, *self, k as int),
    {
        let mut k: usize = 0;
        while k < layouts.len()
            invariant
                layouts@.contains(*self),
                forall|j: int| 0 <= j < k ==> layouts@[j] != *self,
            decreases layouts.len() - k,
        {
            if layouts[k] == *self {
                return k;
            }
            k = k + 1;
        }
        k
    }

    /// The layout after this one in the ring `layouts`, wrapping to the first.
    pub fn next(&self, layouts: &[LayoutType]) -> (r: LayoutType)
        requires
            layouts@.contains(*self),
        ensures
            exists|k: int|
                is_first_position(layouts@, *self, k) && r == layouts@[(k + 1) % (
                layouts@.len() as int)],
    {
        let k = self.first_position(layouts);
        if k < layouts.len() - 1 {
            assert((k + 1) % (layouts@.len() as int) == k + 1) by (nonlinear_arith)
                requires
                    k + 1 < layouts@.len(),
            ;
            layouts[k + 1]
        } else {
            assert((k + 1) % (layouts@.len() as int) == 0) by (nonlinear_arith)
                requires
                    k + 1 == layouts@.len(),
            ;
            layouts[0]
        }
    }

    /// The layout before this one in the ring `layouts`, wrapping to the last.
    pub fn prev(&self, layouts: &[LayoutType]) -> (r: LayoutType)
        requires
            layouts@.contains(*self),
        ensures
            exists|k: int|
                is_first_position(layouts@, *self, k) && r == layouts@[if k == 0 {
                    layouts@.len() - 1
                } else {
                    k - 1
                }],
    {
        let k = self.first_position(layouts);
        if k == 0 {
            layouts[layouts.len() - 1]
        } else {
            layouts[k - 1]
        }
    }
}

pub open spec fn is_tag_number(n: int) -> bool {
    1 <= n <= 9
}

/// The value of a decimal number written with an optional leading `+` and at
/// least one digit, as `u8`'s parser reads it; `None` when the text is no such
/// number or the value exceeds 255.
pub open spec fn spec_parse_u8(s: Seq<char>) -> Option<u8> {
    let digits = unsigned_part(s);
    if digits.len() == 0 || !(forall|i: int| 0 <= i < digits.len() ==> is_decimal_digit(digits[i])) {
        None
    } else if decimal_value(digits) > 255 {
        None
    } else {
        Some(decimal_value(digits) as u8)
    }
}

/// The text after an optional leading `+`.
pub open spec fn unsigned_part(s: Seq<char>) -> Seq<char> {
    if s.len() > 0 && s[0] == '+' {
        s.drop_first()
    } else {
        s
    }
}

pub open spec fn is_decimal_digit(c: char) -> bool {
    '0' <= c <= '9'
}

pub open spec fn digit_value(c: char) -> int {
    c as int - '0' as int
}

/// The value of a string of decimal digits, most significant first.
pub open spec fn decimal_value(s: Seq<char>) -> int
    decreases s.len(),
{
    if s.len() == 0 {
        0
    } else {
        decimal_value(s.drop_last()) * 10 + digit_value(s.last())
    }
}

proof fn lemma_decimal_value_nonneg(s: Seq<char>)
    requires
        forall|i: int| 0 <= i < s.len() ==> is_decimal_digit(s[i]),
    ensures
        decimal_value(s) >= 0,
    decreases s.len(),
{
    if s.len() > 0 {
        lemma_decimal_value_nonneg(s.drop_last());
    }
}

proof fn lemma_decimal_value_prefix(s: Seq<char>, k: int)
    requires
        0 <= k <= s.len(),
        forall|i: int| 0 <= i < s.len() ==> is_decimal_digit(s[i]),
    ensures
        decimal_value(s) >= decimal_value(s.subrange(0, k)),
    decreases s.len(),
{
    if k < s.len() {
        assert(s.drop_last().subrange(0, k) =~= s.subrange(0, k));
        lemma_decimal_value_prefix(s.drop_last(), k);
        lemma_decimal_value_nonneg(s.drop_last());
    } else {
        assert(s.subrange(0, k) =~= s);
    }
}

/// Reads a decimal `u8` as `str::parse::<u8>` does.
pub fn parse_u8(s: &str) -> (r: Option<u8>)
    ensures
        r == spec_parse_u8(s@),
{
    let n = s.unicode_len();
    let mut start: usize = 0;
    if n > 0 && s.get_char(0) == '+' {
        start = 1;
    }
    let ghost digits = s@.subrange(start as int, n as int);
    assert(digits =~= unsigned_part(s@));
    if start >= n {
        return None;
    }
    let mut i: usize = start;
    while i < n
        invariant
            start <= i <= n,
            n == s@.len(),
            digits == s@.subrange(start as int, n as int),
            digits == unsigned_part(s@),
            forall|j: int| start <= j < i ==> is_decimal_digit(#[trigger] s@[j]),
        decreases n - i,
    {
        let c = s.get_char(i);
        if !('0' <= c && c <= '9') {
            assert(digits[i - start] == s@[i as int]);
            assert(!is_decimal_digit(digits[i - start]));
            assert(!(forall|j: int| 0 <= j < digits.len() ==> is_decimal_digit(digits[j])));
            return None;
        }
        i = i + 1;
    }
    assert forall|j: int| 0 <= j < digits.len() implies is_decimal_digit(#[trigger] digits[j]) by {
        assert(digits[j] == s@[j + start]);
    }
    let mut value: u32 = 0;
    i = start;
    while i < n
        invariant
            start <= i <= n,
            n == s@.len(),
            digits == s@.subrange(start as int, n as int),
            digits == unsigned_part(s@),
            forall|j: int| 0 <= j < digits.len() ==> is_decimal_digit(#[trigger] digits[j]),
            value as int == decimal_value(digits.subrange(0, i - start)),
            value <= 255,
        decreases n - i,
    {
        let c = s.get_char(i);
        assert(c == digits[i - start]);
        let d = (c as u32) - ('0' as u32);
        let ghost prefix = digits.subrange(0, i - start + 1);
        assert(prefix.drop_last() =~= digits.subrange(0, i - start));
        assert(prefix.last() == c);
        value = value * 10 + d;
        assert(value as int == decimal_value(prefix));
        if value > 255 {
            proof {
                lemma_decimal_value_prefix(digits, i - start + 1);
            }
            return None;
        }
        i = i + 1;
    }
    assert(digits.subrange(0, n - start) =~= digits);
    Some(value as u8)
}

} // verus!
