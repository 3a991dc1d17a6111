//! Physical keys and the fixed tables that turn authored names into them.
//!
//! An authored shortcut speaks of a primary key by name ("1", "tab") and of
//! modifiers by role ("shift"). A modifier role is satisfied by either of up
//! to two physical keys; the table here fixes that choice.

use vstd::prelude::*;

verus! {

/// A physical key the input device can report as pressed.
#[derive(Clone, Copy, PartialEq, Eq, Structural, Debug)]
pub enum Key {
    /// A printable key named by its lower-case character ('a'..'z', '0'..'9').
    Char(char),
    Tab,
    Space,
    Enter,
    Escape,
    Backspace,
    Up,
    Down,
    Left,
    Right,
    LShift,
    RShift,
    LControl,
    RControl,
    LAlt,
    RAlt,
    LMeta,
}

/// A modifier role as authored in a shortcut.
#[derive(Clone, Copy, PartialEq, Eq, Structural, Debug)]
pub enum Modifier {
    Shift,
    Control,
    Alt,
    Meta,
}

/// The physical keys that satisfy a modifier role: a first choice and,
/// for roles present twice on a keyboard, a second.
pub open spec fn map_modifier_spec(m: Modifier) -> (Key, Option<Key>) {
    match m {
        Modifier::Shift => (Key::LShift, Some(Key::RShift)),
        Modifier::Control => (Key::LControl, Some(Key::RControl)),
        Modifier::Alt => (Key::LAlt, Some(Key::RAlt)),
        Modifier::Meta => (Key::LMeta, None),
    }
}

/// How many physical keys satisfy the modifier role.
pub open spec fn modifier_cardinality(m: Modifier) -> nat {
    if map_modifier_spec(m).1 is Some {
        2
    } else {
        1
    }
}

/// Resolve a modifier role to its one or two physical keys.
pub fn map_modifier(m: Modifier) -> (r: (Key, Option<Key>))
    ensures
        r == map_modifier_spec(m),
{
    match m {
        Modifier::Shift => (Key::LShift, Some(Key::RShift)),
        Modifier::Control => (Key::LControl, Some(Key::RControl)),
        Modifier::Alt => (Key::LAlt, Some(Key::RAlt)),
        Modifier::Meta => (Key::LMeta, None),
    }
}

/// Whether `c` is a character the mapper accepts as a one-character key name.
pub open spec fn is_mappable_char(c: char) -> bool {
    ('a' as u32) <= (c as u32) <= ('z' as u32) || ('0' as u32) <= (c as u32) <= ('9' as u32)
}

/// The physical key an authored key name stands for, or `None` where the
/// name has no known physical equivalent.
pub open spec fn map_key_spec(s: Seq<char>) -> Option<Key> {
    if s.len() == 1 && is_mappable_char(s[0]) {
        Some(Key::Char(s[0]))
    } else if s == "tab"@ {
        Some(Key::Tab)
    } else if s == "space"@ {
        Some(Key::Space)
    } else if s == "enter"@ {
        Some(Key::Enter)
    } else if s == "escape"@ {
        Some(Key::Escape)
    } else if s == "backspace"@ {
        Some(Key::Backspace)
    } else if s == "up"@ {
        Some(Key::Up)
    } else if s == "down"@ {
        Some(Key::Down)
    } else if s == "left"@ {
        Some(Key::Left)
    } else if s == "right"@ {
        Some(Key::Right)
    } else {
        None
    }
}

/// Character-wise equality of two string slices.
pub fn str_eq(a: &str, b: &str) -> (r: bool)
    ensures
        r == (a@ == b@),
{
    let a_len = a.unicode_len();
    let b_len = b.unicode_len();
    if a_len != b_len {
        return false;
    }
    let mut i: usize = 0;
    while i < a_len
        invariant
            a_len == a@.len(),
            b_len == b@.len(),
            a_len == b_len,
            i <= a_len,
            forall|j: int| 0 <= j < i ==> a@[j] == b@[j],
        decreases a_len - i,
    {
        if a.get_char(i) != b.get_char(i) {
            return false;
        }
        i += 1;
    }
    proof {
        assert(a@ =~= b@);
    }
    true
}

/// Resolve an authored key name to a physical key; an unknown name maps to
/// nothing, and the shortcut that used it is later dropped.
pub fn map_key(name: &str) -> (r: Option<Key>)
    ensures
        r == map_key_spec(name@),
{
    let len = name.unicode_len();
    if len == 1 {
        let c = name.get_char(0);
        let u = c as u32;
        if (97 <= u && u <= 122) || (48 <= u && u <= 57) {
            return Some(Key::Char(c));
        }
        proof {
            assert(name@ != "tab"@ && name@ != "space"@ && name@ != "enter"@ && name@
                != "escape"@ && name@ != "backspace"@ && name@ != "up"@ && name@ != "down"@
                && name@ != "left"@ && name@ != "right"@) by {
                reveal_strlit("tab");
                reveal_strlit("space");
                reveal_strlit("enter");
                reveal_strlit("escape");
                reveal_strlit("backspace");
                reveal_strlit("up");
                reveal_strlit("down");
                reveal_strlit("left");
                reveal_strlit("right");
            }
        }
        return None;
    }
    if str_eq(name, "tab") {
        Some(Key::Tab)
    } else if str_eq(name, "space") {
        Some(Key::Space)
    } else if str_eq(name, "enter") {
        Some(Key::Enter)
    } else if str_eq(name, "escape") {
        Some(Key::Escape)
    } else if str_eq(name, "backspace") {
        Some(Key::Backspace)
    } else if str_eq(name, "up") {
        Some(Key::Up)
    } else if str_eq(name, "down") {
        Some(Key::Down)
    } else if str_eq(name, "left") {
        Some(Key::Left)
    } else if str_eq(name, "right") {
        Some(Key::Right)
    } else {
        None
    }
}

} // verus!
