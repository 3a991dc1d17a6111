//! Interpreting configuration entries: the fixed vocabulary of key names
//! that select an action, and the optional debounce setting.
//!
//! A key name starting with `memory_slot_` followed by a 1-based slot
//! number selects that slot; a name containing `cycle_back` or
//! `cycle_forward` selects cycling; anything else is ignored. A malformed
//! entry never fails the whole configuration: it becomes a no-op and is
//! dropped before the binding table is built.

use vstd::prelude::*;

use crate::shortcut::Action;

verus! {

/// The debounce window for cycle actions when the configuration does not
/// supply one, in milliseconds.
pub const DEFAULT_DEBOUNCE_MS: u64 = 200;

/// Is `c` a decimal digit?
pub open spec fn is_digit(c: char) -> bool {
    48 <= (c as u32) <= 57
}

/// The numeric value of a digit character.
pub open spec fn digit_of(c: char) -> int {
    (c as u32) - 48
}

/// The value of a digit string, most significant digit first.
pub open spec fn digits_val(s: Seq<char>) -> int
    decreases s.len(),
{
    if s.len() == 0 {
        0
    } else {
        digits_val(s.drop_last()) * 10 + digit_of(s.last())
    }
}

/// Ten to the `n`.
pub open spec fn pow10(n: nat) -> int
    decreases n,
{
    if n == 0 {
        1
    } else {
        10 * pow10((n - 1) as nat)
    }
}

/// A digit string's value is bounded by ten to its length.
pub proof fn lemma_digits_val_bound(s: Seq<char>)
    requires
        forall|i: int| 0 <= i < s.len() ==> is_digit(#[trigger] s[i]),
    ensures
        0 <= digits_val(s) < pow10(s.len()),
    decreases s.len(),
{
    if s.len() > 0 {
        lemma_digits_val_bound(s.drop_last());
        assert(is_digit(s.last()));
        assert(digits_val(s.drop_last()) <= pow10((s.len() - 1) as nat) - 1);
        assert((pow10((s.len() - 1) as nat) - 1) * 10 + 9 < pow10((s.len() - 1) as nat) * 10) by (
        nonlinear_arith);
        assert(digits_val(s.drop_last()) * 10 <= (pow10((s.len() - 1) as nat) - 1) * 10) by (
        nonlinear_arith)
            requires
                digits_val(s.drop_last()) <= pow10((s.len() - 1) as nat) - 1,
                digits_val(s.drop_last()) >= 0,
        ;
    }
}

proof fn lemma_pow10_19()
    ensures
        pow10(19) == 10000000000000000000,
{
    reveal_with_fuel(pow10, 21);
}

/// A numeric configuration value this crate accepts: one to nineteen
/// decimal digits (every such value fits in 64 bits).
pub open spec fn is_decimal(s: Seq<char>) -> bool {
    1 <= s.len() <= 19 && forall|i: int| 0 <= i < s.len() ==> is_digit(#[trigger] s[i])
}

/// What parsing a numeric configuration value yields.
pub open spec fn parse_u64_spec(s: Seq<char>) -> Option<u64> {
    if is_decimal(s) {
        Some(digits_val(s) as u64)
    } else {
        None
    }
}

/// Parse a decimal configuration value; anything but one to nineteen
/// digits is rejected.
pub fn parse_u64(s: &str) -> (r: Option<u64>)
    ensures
        r == parse_u64_spec(s@),
{
    let len = s.unicode_len();
    if len == 0 || len > 19 {
        return None;
    }
    let mut v: u64 = 0;
    let mut i: usize = 0;
    while i < len
        invariant
            len == s@.len(),
            1 <= len <= 19,
            i <= len,
            forall|j: int| 0 <= j < i ==> is_digit(#[trigger] s@[j]),
            v == digits_val(s@.subrange(0, i as int)),
        decreases len - i,
    {
        let c = s.get_char(i);
        let u = c as u32;
        if u < 48 || u > 57 {
            return None;
        }
        proof {
            let pre = s@.subrange(0, i as int);
            let pre1 = s@.subrange(0, i as int + 1);
            assert(pre1.drop_last() =~= pre);
            assert(pre1.last() == s@[i as int]);
            lemma_digits_val_bound(pre);
            lemma_pow10_19();
            assert(pow10(pre.len()) <= pow10(18)) by {
                lemma_pow10_monotonic(pre.len(), 18);
            }
            assert(digits_val(pre) * 10 + 9 < pow10(19)) by (nonlinear_arith)
                requires
                    digits_val(pre) <= pow10(18) - 1,
                    digits_val(pre) >= 0,
                    pow10(19) == 10 * pow10(18),
            ;
        }
        v = v * 10 + ((u - 48) as u64);
        i += 1;
    }
    proof {
        assert(s@.subrange(0, len as int) =~= s@);
    }
    Some(v)
}

/// `pow10` does not decrease.
proof fn lemma_pow10_monotonic(a: nat, b: nat)
    requires
        a <= b,
    ensures
        pow10(a) <= pow10(b),
    decreases b,
{
    if a < b {
        lemma_pow10_monotonic(a, (b - 1) as nat);
        assert(pow10((b - 1) as nat) >= 1) by {
            lemma_pow10_positive((b - 1) as nat);
        }
    }
}

/// `pow10` is positive.
proof fn lemma_pow10_positive(n: nat)
    ensures
        pow10(n) >= 1,
    decreases n,
{
    if n > 0 {
        lemma_pow10_positive((n - 1) as nat);
    }
}

/// Does `s` contain `p` as a contiguous substring?
pub open spec fn contains_substring(s: Seq<char>, p: Seq<char>) -> bool {
    exists|i: int| 0 <= i && i + p.len() <= s.len() && #[trigger] s.subrange(i, i + p.len()) == p
}

/// Substring search by direct comparison at every offset.
pub fn str_contains(s: &str, p: &str) -> (r: bool)
    ensures
        r == contains_substring(s@, p@),
{
    let n = s.unicode_len();
    let m = p.unicode_len();
    if m > n {
        return false;
    }
    if m == 0 {
        proof {
            let w: int = 0;
            assert(s@.subrange(w, w + p@.len()) =~= p@);
        }
        return true;
    }
    let mut i: usize = 0;
    while i <= n - m
        invariant
            n == s@.len(),
            m == p@.len(),
            1 <= m <= n,
            i <= n - m + 1,
            forall|w: int| 0 <= w < i ==> #[trigger] s@.subrange(w, w + p@.len()) != p@,
        decreases n - m + 1 - i,
    {
        let mut j: usize = 0;
        let mut hit = true;
        while j < m
            invariant
                n == s@.len(),
                m == p@.len(),
                i + m <= n,
                j <= m,
                hit ==> forall|w: int| 0 <= w < j ==> s@[i + w] == p@[w],
                !hit ==> s@.subrange(i as int, i + p@.len()) != p@,
            decreases m - j,
        {
            if s.get_char(i + j) != p.get_char(j) {
                proof {
                    assert(s@.subrange(i as int, i + p@.len())[j as int] == s@[i + j]);
                }
                hit = false;
                j = m;
            } else {
                j += 1;
            }
        }
        if hit {
            proof {
                assert(s@.subrange(i as int, i + p@.len()) =~= p@);
            }
            return true;
        }
        i += 1;
    }
    proof {
        assert forall|w: int| 0 <= w && w + p@.len() <= s@.len() implies #[trigger] s@.subrange(
            w,
            w + p@.len(),
        ) != p@ by {
            assert(w < i);
        }
    }
    false
}

/// Does `s` start with `p`?
pub fn str_starts_with(s: &str, p: &str) -> (r: bool)
    ensures
        r == p@.is_prefix_of(s@),
{
    let n = s.unicode_len();
    let m = p.unicode_len();
    if m > n {
        return false;
    }
    let mut j: usize = 0;
    while j < m
        invariant
            n == s@.len(),
            m == p@.len(),
            m <= n,
            j <= m,
            forall|w: int| 0 <= w < j ==> s@[w] == p@[w],
        decreases m - j,
    {
        if s.get_char(j) != p.get_char(j) {
            proof {
                assert(s@.subrange(0, p@.len() as int)[j as int] == s@[j as int]);
            }
            return false;
        }
        j += 1;
    }
    proof {
        assert(s@.subrange(0, p@.len() as int) =~= p@);
    }
    true
}

/// The action a configuration key name selects. A `memory_slot_` name
/// carries the slot as authored, 1-based; the stored action is 0-based.
/// A name whose slot number is missing, malformed, zero or over 255 is
/// ignored, as is any name that matches nothing in the vocabulary.
pub open spec fn config_action_spec(key: Seq<char>) -> Action {
    if "memory_slot_"@.is_prefix_of(key) {
        let rest = key.skip("memory_slot_"@.len() as int);
        match parse_u64_spec(rest) {
            Some(n) => {
                if 1 <= n <= 255 {
                    Action::SetMemorySlot((n - 1) as u8)
                } else {
                    Action::NoOp
                }
            },
            None => Action::NoOp,
        }
    } else if contains_substring(key, "cycle_back"@) {
        Action::CycleBack
    } else if contains_substring(key, "cycle_forward"@) {
        Action::CycleForward
    } else {
        Action::NoOp
    }
}

/// Map a configuration key name to the action it selects.
pub fn config_key_to_action(key: &str) -> (r: Action)
    ensures
        r == config_action_spec(key@),
{
    if str_starts_with(key, "memory_slot_") {
        let plen = "memory_slot_".unicode_len();
        let rest = key.substring_char(plen, key.unicode_len());
        proof {
            assert(rest@ =~= key@.skip("memory_slot_"@.len() as int));
        }
        match parse_u64(rest) {
            Some(n) => {
                if 1 <= n && n <= 255 {
                    Action::SetMemorySlot((n - 1) as u8)
                } else {
                    Action::NoOp
                }
            },
            None => Action::NoOp,
        }
    } else if str_contains(key, "cycle_back") {
        Action::CycleBack
    } else if str_contains(key, "cycle_forward") {
        Action::CycleForward
    } else {
        Action::NoOp
    }
}

/// The debounce window the configuration selects: the `settings` value in
/// milliseconds where present and parsable, the default otherwise.
pub open spec fn debounce_spec(v: Option<Seq<char>>) -> u64 {
    match v {
        Some(s) => match parse_u64_spec(s) {
            Some(ms) => ms,
            None => DEFAULT_DEBOUNCE_MS,
        },
        None => DEFAULT_DEBOUNCE_MS,
    }
}

/// Read the configured cycle-debounce duration, falling back to the
/// default when the setting is absent or unparsable.
pub fn parse_debounce_ms(v: &Option<String>) -> (r: u64)
    ensures
        r == debounce_spec(match v {
            Some(s) => Some(s@),
            None => None,
        }),
{
    match v {
        Some(s) => match parse_u64(s.as_str()) {
            Some(ms) => ms,
            None => DEFAULT_DEBOUNCE_MS,
        },
        None => DEFAULT_DEBOUNCE_MS,
    }
}

} // verus!
