//! The modifier key that, held with a mouse button, moves or resizes windows;
//! and the X modifier masks the engine reads and grabs with.

use vstd::prelude::*;
use crate::color::{is_space, is_space_char};

verus! {

/// X's modifier bits.
pub const SHIFT_MASK: u16 = 1;
pub const LOCK_MASK: u16 = 2;
pub const CONTROL_MASK: u16 = 4;
pub const MOD1_MASK: u16 = 8;
pub const MOD2_MASK: u16 = 16;
pub const MOD3_MASK: u16 = 32;
pub const MOD4_MASK: u16 = 64;
pub const MOD5_MASK: u16 = 128;
/// X's "any modifier" value for button grabs.
pub const ANY_MODIFIER: u16 = 32768;

#[derive(Debug, Clone, Copy, PartialEq, Eq, Structural)]
pub enum ModKey {
    Shift,
    Lock,
    Control,
    Mod1,
    Mod2,
    Mod3,
    Mod4,
    Mod5,
}

/// The error for an unknown modifier name.
#[derive(Debug)]
pub struct ParseModMaskError {
    pub mask: String,
}

impl ParseModMaskError {
    /// `Invalid mod mask: <text>`.
    pub fn message(&self) -> (r: String)
        ensures
            r@ == "Invalid mod mask: "@ + self.mask@,
    {
        let mut r = String::from_str("Invalid mod mask: ");
        proof {
            reveal_strlit("Invalid mod mask: ");
        }
        r.append(self.mask.as_str());
        r
    }
}

pub open spec fn ascii_lower(c: char) -> char {
    if 'A' <= c <= 'Z' {
        (((c as u8) + 32) as u8) as char
    } else {
        c
    }
}

/// `s` without its leading and trailing white space.
pub open spec fn trim(s: Seq<char>) -> Seq<char>
    decreases s.len(),
{
    if s.len() > 0 && is_space(s.last()) {
        trim(s.drop_last())
    } else if s.len() > 0 && is_space(s[0]) {
        trim(s.drop_first())
    } else {
        s
    }
}

/// The modifier a lower-case name stands for.
pub open spec fn mod_from_name(t: Seq<char>) -> Option<ModKey> {
    if t == "shift"@ {
        Some(ModKey::Shift)
    } else if t == "lock"@ {
        Some(ModKey::Lock)
    } else if t == "control"@ || t == "ctrl"@ {
        Some(ModKey::Control)
    } else if t == "mod1"@ || t == "mod 1"@ {
        Some(ModKey::Mod1)
    } else if t == "mod2"@ || t == "mod 2"@ {
        Some(ModKey::Mod2)
    } else if t == "mod3"@ || t == "mod 3"@ {
        Some(ModKey::Mod3)
    } else if t == "mod4"@ || t == "mod 4"@ {
        Some(ModKey::Mod4)
    } else if t == "mod5"@ || t == "mod 5"@ {
        Some(ModKey::Mod5)
    } else {
        None
    }
}

/// What a name of a modifier parses to: trimmed and compared without regard to ASCII case.
pub open spec fn spec_parse_mod(s: Seq<char>) -> Option<ModKey> {
    mod_from_name(trim(s).map_values(|c: char| ascii_lower(c)))
}

proof fn lemma_trim_at(s: Seq<char>, b: int, e: int)
    requires
        0 <= b <= e <= s.len(),
        forall|j: int| 0 <= j < b ==> is_space(#[trigger] s[j]),
        forall|j: int| e <= j < s.len() ==> is_space(#[trigger] s[j]),
        b < e ==> !is_space(s[b]) && !is_space(s[e - 1]),
        b == e ==> forall|j: int| 0 <= j < s.len() ==> is_space(#[trigger] s[j]),
    ensures
        trim(s) == s.subrange(b, e),
    decreases s.len(),
{
    if s.len() > 0 && is_space(s.last()) {
        if e == s.len() {
            assert(b == e);
            if b > 0 {
                assert(s.drop_last().subrange(b - 1, e - 1) =~= s.subrange(b, e));
                lemma_trim_at(s.drop_last(), b - 1, e - 1);
            } else {
                lemma_trim_at(s.drop_last(), 0, 0);
                assert(s.subrange(b, e) =~= Seq::<char>::empty());
                assert(s.drop_last().subrange(0, 0) =~= Seq::<char>::empty());
            }
        } else {
            assert(s.drop_last().subrange(b, e) =~= s.subrange(b, e));
            lemma_trim_at(s.drop_last(), b, e);
        }
    } else if s.len() > 0 && is_space(s[0]) {
        if b == 0 {
            assert(b == e);
            assert(false);
        }
        assert(s.drop_first().subrange(b - 1, e - 1) =~= s.subrange(b, e));
        lemma_trim_at(s.drop_first(), b - 1, e - 1);
    } else {
        if s.len() > 0 {
            assert(b == 0 && e == s.len()) by {
                if b > 0 {
                    assert(is_space(s[0]));
                }
                if e < s.len() {
                    assert(is_space(s[s.len() - 1]));
                }
            }
        }
        assert(s.subrange(b, e) =~= s);
    }
}

/// The lower-cased characters `s[b..e]` equal `word`.
pub(crate) fn lower_equals(s: &str, b: usize, e: usize, word: &str) -> (r: bool)
    requires
        b <= e <= s@.len(),
    ensures
        r == (s@.subrange(b as int, e as int).map_values(|c: char| ascii_lower(c)) == word@),
{
    let ghost t = s@.subrange(b as int, e as int).map_values(|c: char| ascii_lower(c));
    let n = word.unicode_len();
    if e - b != n {
        assert(t.len() != word@.len());
        return false;
    }
    let mut i: usize = 0;
    while i < n
        invariant
            i <= n,
            n == word@.len(),
            e - b == n,
            b <= e <= s@.len(),
            t == s@.subrange(b as int, e as int).map_values(|c: char| ascii_lower(c)),
            forall|j: int| 0 <= j < i ==> t[j] == #[trigger] word@[j],
        decreases n - i,
    {
        let c = s.get_char(b + i);
        let l = if 'A' <= c && c <= 'Z' { ((c as u8) + 32) as char } else { c };
        assert(t[i as int] == ascii_lower(s@[b + i]));
        if l != word.get_char(i) {
            assert(t[i as int] != word@[i as int]);
            return false;
        }
        i = i + 1;
    }
    assert(t =~= word@);
    true
}

impl ModKey {
    /// The X modifier bit.
    pub open spec fn spec_bits(self) -> u16 {
        match self {
            ModKey::Shift => SHIFT_MASK,
            ModKey::Lock => LOCK_MASK,
            ModKey::Control => CONTROL_MASK,
            ModKey::Mod1 => MOD1_MASK,
            ModKey::Mod2 => MOD2_MASK,
            ModKey::Mod3 => MOD3_MASK,
            ModKey::Mod4 => MOD4_MASK,
            ModKey::Mod5 => MOD5_MASK,
        }
    }

    pub fn bits(&self) -> (r: u16)
        ensures
            r == self.spec_bits(),
    {
        match self {
            ModKey::Shift => SHIFT_MASK,
            ModKey::Lock => LOCK_MASK,
            ModKey::Control => CONTROL_MASK,
            ModKey::Mod1 => MOD1_MASK,
            ModKey::Mod2 => MOD2_MASK,
            ModKey::Mod3 => MOD3_MASK,
            ModKey::Mod4 => MOD4_MASK,
            ModKey::Mod5 => MOD5_MASK,
        }
    }

    pub open spec fn spec_name(self) -> Seq<char> {
        match self {
            ModKey::Shift => "Shift"@,
            ModKey::Lock => "Lock"@,
            ModKey::Control => "Control"@,
            ModKey::Mod1 => "Mod 1"@,
            ModKey::Mod2 => "Mod 2"@,
            ModKey::Mod3 => "Mod 3"@,
            ModKey::Mod4 => "Mod 4"@,
            ModKey::Mod5 => "Mod 5"@,
        }
    }

    /// The name the configuration prints.
    pub fn name(&self) -> (r: &'static str)
        ensures
            r@ == self.spec_name(),
    {
        match self {
            ModKey::Shift => "Shift",
            ModKey::Lock => "Lock",
            ModKey::Control => "Control",
            ModKey::Mod1 => "Mod 1",
            ModKey::Mod2 => "Mod 2",
            ModKey::Mod3 => "Mod 3",
            ModKey::Mod4 => "Mod 4",
            ModKey::Mod5 => "Mod 5",
        }
    }

    /// Reads a modifier name: `shift`, `lock`, `control` or `ctrl`, `mod1` to `mod5`
    /// (also with a space before the digit), in any ASCII case, with white space around.
    pub fn parse(s: &str) -> (r: Result<ModKey, ParseModMaskError>)
        ensures
            match r {
                Ok(m) => spec_parse_mod(s@) == Some(m),
                Err(e) => spec_parse_mod(s@) is None && e.mask@ == s@,
            },
    {
        let n = s.unicode_len();
        let mut b: usize = 0;
        while b < n && is_space_char(s.get_char(b))
            invariant
                b <= n,
                n == s@.len(),
                forall|j: int| 0 <= j < b ==> is_space(#[trigger] s@[j]),
            decreases n - b,
        {
            b = b + 1;
        }
        let mut e: usize = n;
        while e > b && is_space_char(s.get_char(e - 1))
            invariant
                b <= e <= n,
                n == s@.len(),
                forall|j: int| e <= j < n ==> is_space(#[trigger] s@[j]),
            decreases e,
        {
            e = e - 1;
        }
        proof {
            lemma_trim_at(s@, b as int, e as int);
        }
        proof {
            reveal_strlit("shift");
            reveal_strlit("lock");
            reveal_strlit("control");
            reveal_strlit("ctrl");
            reveal_strlit("mod1");
            reveal_strlit("mod 1");
            reveal_strlit("mod2");
            reveal_strlit("mod 2");
            reveal_strlit("mod3");
            reveal_strlit("mod 3");
            reveal_strlit("mod4");
            reveal_strlit("mod 4");
            reveal_strlit("mod5");
            reveal_strlit("mod 5");
        }
        if lower_equals(s, b, e, "shift") {
            Ok(ModKey::Shift)
        } else if lower_equals(s, b, e, "lock") {
            Ok(ModKey::Lock)
        } else if lower_equals(s, b, e, "control") || lower_equals(s, b, e, "ctrl") {
            Ok(ModKey::Control)
        } else if lower_equals(s, b, e, "mod1") || lower_equals(s, b, e, "mod 1") {
            Ok(ModKey::Mod1)
        } else if lower_equals(s, b, e, "mod2") || lower_equals(s, b, e, "mod 2") {
            Ok(ModKey::Mod2)
        } else if lower_equals(s, b, e, "mod3") || lower_equals(s, b, e, "mod 3") {
            Ok(ModKey::Mod3)
        } else if lower_equals(s, b, e, "mod4") || lower_equals(s, b, e, "mod 4") {
            Ok(ModKey::Mod4)
        } else if lower_equals(s, b, e, "mod5") || lower_equals(s, b, e, "mod 5") {
            Ok(ModKey::Mod5)
        } else {
            Err(ParseModMaskError { mask: s.to_owned() })
        }
    }
}

/// The modifier state without Lock and NumLock (taken to be Mod2), and without
/// the button bits.
pub open spec fn spec_clean_mask(mask: u16) -> u16 {
    (mask & !(MOD2_MASK | LOCK_MASK)) & (SHIFT_MASK | CONTROL_MASK | MOD1_MASK | MOD2_MASK | MOD3_MASK
        | MOD4_MASK | MOD5_MASK)
}

pub fn clean_mask(mask: u16) -> (r: u16)
    ensures
        r == spec_clean_mask(mask),
        r == mask & 0xed,
{
    let r = (mask & !(MOD2_MASK | LOCK_MASK)) & (SHIFT_MASK | CONTROL_MASK | MOD1_MASK | MOD2_MASK
        | MOD3_MASK | MOD4_MASK | MOD5_MASK);
    assert((mask & !(16u16 | 2u16)) & (1u16 | 4u16 | 8u16 | 16u16 | 32u16 | 64u16 | 128u16) == mask & 0xed) by (bit_vector);
    r
}

/// One passive button grab: any button, with these modifiers, in these grab modes.
#[derive(Debug, Clone, Copy, PartialEq, Eq, Structural)]
pub struct ButtonGrab {
    pub modifiers: u16,
    pub pointer_sync: bool,
    pub keyboard_sync: bool,
}

/// The grabs a window gets. A focused window: the mod key alone and with Lock,
/// NumLock and both, asynchronous pointer. Another window: every button with any
/// modifier, so that a click can focus it.
pub open spec fn spec_button_grabs(mod_bits: u16, focused: bool) -> Seq<ButtonGrab> {
    if focused {
        seq![
            ButtonGrab { modifiers: mod_bits, pointer_sync: false, keyboard_sync: true },
            ButtonGrab { modifiers: mod_bits | LOCK_MASK, pointer_sync: false, keyboard_sync: true },
            ButtonGrab { modifiers: mod_bits | MOD2_MASK, pointer_sync: false, keyboard_sync: true },
            ButtonGrab { modifiers: mod_bits | (LOCK_MASK | MOD2_MASK), pointer_sync: false, keyboard_sync: true },
        ]
    } else {
        seq![ButtonGrab { modifiers: ANY_MODIFIER, pointer_sync: false, keyboard_sync: false }]
    }
}

pub fn button_grabs(mod_key: ModKey, focused: bool) -> (r: Vec<ButtonGrab>)
    ensures
        r@ == spec_button_grabs(mod_key.spec_bits(), focused),
{
    let m = mod_key.bits();
    let r = if focused {
        vec![
            ButtonGrab { modifiers: m, pointer_sync: false, keyboard_sync: true },
            ButtonGrab { modifiers: m | LOCK_MASK, pointer_sync: false, keyboard_sync: true },
            ButtonGrab { modifiers: m | MOD2_MASK, pointer_sync: false, keyboard_sync: true },
            ButtonGrab { modifiers: m | (LOCK_MASK | MOD2_MASK), pointer_sync: false, keyboard_sync: true },
        ]
    } else {
        vec![ButtonGrab { modifiers: ANY_MODIFIER, pointer_sync: false, keyboard_sync: false }]
    };
    assert(r@ =~= spec_button_grabs(m, focused));
    r
}

} // verus!
