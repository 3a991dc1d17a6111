//! Byte signatures with wildcards, their textual form, and scanning.
//!
//! A signature is written as space-separated tokens: two hex digits for a
//! byte that must match exactly, `?` or `??` for a position any byte
//! satisfies. Scanning a byte range yields every offset at which all
//! non-wildcard positions agree with the buffer.

use vstd::prelude::*;

verus! {

/// One position of a signature: the byte to match and whether the
/// position is a wildcard (in which case the byte is ignored).
pub type SigAtom = (u8, bool);

/// A parsed signature: an ordered, non-empty list of atoms.
pub struct ByteSignature {
    pub atoms: Vec<SigAtom>,
}

/// The value of a hex digit, or nothing.
pub open spec fn hex_val(c: char) -> Option<int> {
    let u = c as u32;
    if 48 <= u <= 57 {
        Some((u - 48) as int)
    } else if 97 <= u <= 102 {
        Some((u - 87) as int)
    } else if 65 <= u <= 70 {
        Some((u - 55) as int)
    } else {
        None
    }
}

/// Parse the signature text from position `i` on: one token — two hex
/// digits or one or two `?` — then either the end or a space and more.
pub open spec fn parse_sig_from(s: Seq<char>, i: int) -> Option<Seq<SigAtom>>
    decreases s.len() - i,
{
    if i < 0 || i >= s.len() {
        None
    } else if s[i] == '?' {
        let after = if i + 1 < s.len() && s[i + 1] == '?' {
            i + 2
        } else {
            i + 1
        };
        parse_sig_rest(s, after, (0u8, true))
    } else {
        if i + 1 < s.len() {
            match (hex_val(s[i]), hex_val(s[i + 1])) {
                (Some(hi), Some(lo)) => parse_sig_rest(s, i + 2, ((hi * 16 + lo) as u8, false)),
                _ => None,
            }
        } else {
            None
        }
    }
}

/// After one parsed atom: the end of the text, or a space and the rest.
pub open spec fn parse_sig_rest(s: Seq<char>, after: int, atom: SigAtom) -> Option<Seq<SigAtom>>
    decreases s.len() - after, 1int,
{
    if after == s.len() {
        Some(seq![atom])
    } else if 0 <= after < s.len() && s[after] == ' ' {
        match parse_sig_from(s, after + 1) {
            Some(rest) => Some(seq![atom] + rest),
            None => None,
        }
    } else {
        None
    }
}

/// What parsing a whole signature text yields.
pub open spec fn parse_signature_spec(s: Seq<char>) -> Option<Seq<SigAtom>> {
    parse_sig_from(s, 0)
}

/// Every non-wildcard atom of the signature equals the buffer byte at its
/// offset from `off`, and the signature lies inside the buffer.
pub open spec fn sig_matches_at(buf: Seq<u8>, sig: Seq<SigAtom>, off: int) -> bool {
    &&& 0 <= off
    &&& off + sig.len() <= buf.len()
    &&& forall|k: int| 0 <= k < sig.len() ==> ((#[trigger] sig[k]).1 || buf[off + k] == sig[k].0)
}

/// An offset reported for the window `[start, end)`: the match starts at
/// or after `start` and the whole signature lies before `end`, clamped to
/// the buffer.
pub open spec fn match_in_window(
    buf: Seq<u8>,
    sig: Seq<SigAtom>,
    start: int,
    end: int,
    off: int,
) -> bool {
    &&& start <= off
    &&& off + sig.len() <= end
    &&& sig_matches_at(buf, sig, off)
}

/// Exact-copy scanning, wildcard-free: a buffer holding the signature's
/// bytes verbatim at offset `k` matches there; and wherever a match is
/// reported, every non-wildcard byte of the buffer equals the signature's.
pub proof fn lemma_exact_copy_matches(buf: Seq<u8>, sig: Seq<SigAtom>, k: int)
    requires
        forall|i: int| 0 <= i < sig.len() ==> !(#[trigger] sig[i]).1,
        0 <= k,
        k + sig.len() <= buf.len(),
        forall|i: int| 0 <= i < sig.len() ==> buf[k + i] == (#[trigger] sig[i]).0,
    ensures
        sig_matches_at(buf, sig, k),
{
}

/// A reported match pins every non-wildcard byte of the buffer.
pub proof fn lemma_match_pins_bytes(buf: Seq<u8>, sig: Seq<SigAtom>, off: int, i: int)
    requires
        sig_matches_at(buf, sig, off),
        0 <= i < sig.len(),
        !sig[i].1,
    ensures
        buf[off + i] == sig[i].0,
{
}

/// Parse a signature text into its atoms; `None` for anything that is not
/// space-separated tokens of two hex digits, `?` or `??`.
pub fn parse_signature(s: &str) -> (r: Option<ByteSignature>)
    ensures
        match r {
            Some(sig) => parse_signature_spec(s@) == Some(sig.atoms@) && sig.atoms@.len() >= 1,
            None => parse_signature_spec(s@) is None,
        },
{
    let len = s.unicode_len();
    let mut atoms: Vec<SigAtom> = Vec::new();
    let mut i: usize = 0;
    if len == 0 {
        return None;
    }
    proof {
        if let Some(rest) = parse_sig_from(s@, 0) {
            assert(atoms@ + rest =~= rest);
        }
    }
    loop
        invariant
            len == s@.len(),
            i < len,
            parse_sig_from(s@, 0) == (match parse_sig_from(s@, i as int) {
                Some(rest) => Some(atoms@ + rest),
                None => None,
            }),
        decreases len - i,
    {
        let c = s.get_char(i);
        let atom: SigAtom;
        let after: usize;
        if c == '?' {
            if i + 1 < len && s.get_char(i + 1) == '?' {
                after = i + 2;
            } else {
                after = i + 1;
            }
            atom = (0u8, true);
        } else {
            if i + 1 >= len {
                return None;
            }
            let hi = hex_digit(c);
            let lo = hex_digit(s.get_char(i + 1));
            match (hi, lo) {
                (Some(h), Some(l)) => {
                    atom = (h * 16 + l, false);
                    after = i + 2;
                },
                _ => {
                    return None;
                },
            }
        }
        proof {
            assert(parse_sig_from(s@, i as int) == parse_sig_rest(s@, after as int, atom));
        }
        if after == len {
            let ghost atoms_pre = atoms@;
            atoms.push(atom);
            proof {
                assert(parse_sig_from(s@, i as int) == Some(seq![atom]));
                assert(atoms_pre + seq![atom] =~= atoms@);
            }
            return Some(ByteSignature { atoms });
        }
        if s.get_char(after) != ' ' {
            return None;
        }
        let ghost atoms_pre = atoms@;
        atoms.push(atom);
        proof {
            if let Some(rest) = parse_sig_from(s@, after as int + 1) {
                assert(parse_sig_from(s@, i as int) == Some(seq![atom] + rest));
                assert(atoms_pre + (seq![atom] + rest) =~= atoms@ + rest);
            }
        }
        if after + 1 >= len {
            // a trailing space: the next token would start past the end
            return None;
        }
        i = after + 1;
    }
}

/// The value of a hex digit character.
fn hex_digit(c: char) -> (r: Option<u8>)
    ensures
        match r {
            Some(v) => hex_val(c) == Some(v as int) && v < 16,
            None => hex_val(c) is None,
        },
{
    let u = c as u32;
    if 48 <= u && u <= 57 {
        Some((u - 48) as u8)
    } else if 97 <= u && u <= 102 {
        Some((u - 87) as u8)
    } else if 65 <= u && u <= 70 {
        Some((u - 55) as u8)
    } else {
        None
    }
}

/// Scan `buf` over the window `[start, end)` (clamped to the buffer) and
/// report, in increasing order, every offset where the signature matches.
pub fn scan(buf: &Vec<u8>, signature: &ByteSignature, start: usize, end: usize) -> (r: Vec<usize>)
    requires
        signature.atoms@.len() >= 1,
    ensures
        forall|idx: int|
            0 <= idx < r@.len() ==> match_in_window(
                buf@,
                signature.atoms@,
                start as int,
                if end <= buf@.len() {
                    end as int
                } else {
                    buf@.len() as int
                },
                #[trigger] r@[idx] as int,
            ),
        forall|o: usize|
            match_in_window(
                buf@,
                signature.atoms@,
                start as int,
                if end <= buf@.len() {
                    end as int
                } else {
                    buf@.len() as int
                },
                o as int,
            ) ==> r@.contains(o),
        forall|a: int, b: int| 0 <= a < b < r@.len() ==> r@[a] < r@[b],
{
    let m = signature.atoms.len();
    let hi = if end <= buf.len() {
        end
    } else {
        buf.len()
    };
    let mut r: Vec<usize> = Vec::new();
    if m > hi || start > hi - m {
        proof {
            assert forall|o: usize|
                match_in_window(buf@, signature.atoms@, start as int, hi as int, o as int)
                    implies r@.contains(o) by {}
        }
        return r;
    }
    let mut o: usize = start;
    while o <= hi - m
        invariant
            m == signature.atoms@.len(),
            1 <= m <= hi <= buf@.len(),
            start <= o <= hi - m + 1,
            end <= buf@.len() ==> hi == end,
            end > buf@.len() ==> hi == buf@.len(),
            forall|idx: int|
                0 <= idx < r@.len() ==> match_in_window(
                    buf@,
                    signature.atoms@,
                    start as int,
                    hi as int,
                    #[trigger] r@[idx] as int,
                ),
            forall|w: usize|
                start <= w < o && match_in_window(
                    buf@,
                    signature.atoms@,
                    start as int,
                    hi as int,
                    w as int,
                ) ==> r@.contains(w),
            forall|idx: int| 0 <= idx < r@.len() ==> start <= #[trigger] r@[idx] < o,
            forall|a: int, b: int| 0 <= a < b < r@.len() ==> r@[a] < r@[b],
        decreases hi - m + 1 - o,
    {
        let mut k: usize = 0;
        let mut ok = true;
        while k < m
            invariant
                m == signature.atoms@.len(),
                m <= hi <= buf@.len(),
                o + m <= hi,
                k <= m,
                ok ==> forall|w: int|
                    0 <= w < k ==> ((#[trigger] signature.atoms@[w]).1 || buf@[o + w]
                        == signature.atoms@[w].0),
                !ok ==> !sig_matches_at(buf@, signature.atoms@, o as int),
            decreases m - k,
        {
            let (byte, wild) = signature.atoms[k];
            if !wild && buf[o + k] != byte {
                ok = false;
                k = m;
            } else {
                k += 1;
            }
        }
        let ghost r_pre = r@;
        if ok {
            r.push(o);
        }
        proof {
            if ok {
                assert(sig_matches_at(buf@, signature.atoms@, o as int));
                assert(forall|idx: int| 0 <= idx < r_pre.len() ==> r@[idx] == r_pre[idx]);
                assert(r@[r@.len() - 1] == o);
            }
            assert forall|w: usize|
                start <= w < o + 1 && match_in_window(
                    buf@,
                    signature.atoms@,
                    start as int,
                    hi as int,
                    w as int,
                ) implies r@.contains(w) by {
                if w < o {
                    assert(r_pre.contains(w));
                    let idx = choose|idx: int| 0 <= idx < r_pre.len() && r_pre[idx] == w;
                    assert(r@[idx] == w);
                } else {
                    assert(w == o);
                    assert(r@[r@.len() - 1] == o);
                }
            }
        }
        o += 1;
    }
    proof {
        assert forall|w: usize|
            match_in_window(buf@, signature.atoms@, start as int, hi as int, w as int)
                implies r@.contains(w) by {
            assert(start <= w < o);
        }
    }
    r
}

} // verus!
