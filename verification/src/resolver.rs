//! Resolving the address of the process-global target structure.
//!
//! The host binary relocates between launches and patches, so the
//! structure's address is found anew on every access: locate the
//! executable section of the image, scan it for a fixed signature, decode
//! the 32-bit displacement the matched instruction carries, and compute
//! the address the instruction refers to. The final double dereference of
//! that address into live memory is the caller's, outside this crate.

use vstd::prelude::*;

use pelite::pe64::Pe;

use crate::pattern::ByteSignature;
use crate::pattern::SigAtom;
use crate::pattern::parse_signature;
use crate::pattern::parse_signature_spec;
use crate::pattern::sig_matches_at;

verus! {

/// The signature of the instruction sequence that loads the target
/// structure's global pointer, with the displacement bytes wildcarded.
pub open spec fn game_data_man_pattern() -> Seq<char> {
    "48 8B 05 ? ? ? ? 48 85 C0 74 05 48 8B 40 58 C3 C3"@
}

/// Why resolution failed; each failure is fatal to the feature.
#[derive(Clone, Copy, PartialEq, Eq, Structural, Debug)]
pub enum ResolveError {
    /// The image bytes do not parse as a PE32+ image.
    InvalidImage,
    /// No section of the image is named `.text`.
    NoTextSection,
    /// The signature text does not parse, or is too short to cover the
    /// displacement it must contain.
    InvalidPattern,
    /// The executable section holds no match for the signature.
    NoMatch,
}

/// The section table pelite reads from a PE32+ image: for each section
/// its trimmed name bytes and its file range, or nothing when the bytes
/// are not a valid image. A function of the image bytes alone.
pub uninterp spec fn pe_sections_of(image: Seq<u8>) -> Option<Seq<(Seq<u8>, u32, u32)>>;

/// Relies on pelite's PE32+ view: `PeView::from_bytes` validates the
/// headers, and `section_headers` hands out the section table, both
/// computed from the image bytes alone once the bytes sit at the 4-byte
/// alignment pelite insists on — hence the copy into a `u32` buffer,
/// viewed as bytes through dataview. Each section is converted to its
/// trimmed name bytes and the bounds of its file range.
#[verifier::external_body]
fn pe_section_table(image: &Vec<u8>) -> (r: Option<Vec<(Vec<u8>, u32, u32)>>)
    ensures
        r.deep_view() == pe_sections_of(image@),
{
    let mut words: Vec<u32> = vec![0u32; (image.len() + 3) / 4];
    dataview::bytes_mut(&mut words[..])[..image.len()].copy_from_slice(image);
    let aligned = &dataview::bytes(&words[..])[..image.len()];
    let pe = match pelite::pe64::PeView::from_bytes(aligned) {
        Ok(pe) => pe,
        Err(_) => return None,
    };
    Some(
        pe.section_headers().iter().map(
            |h| (h.name_bytes().to_vec(), h.file_range().start, h.file_range().end),
        ).collect(),
    )
}

/// The name of the conventional executable-code section, `.text`.
pub open spec fn text_section_name() -> Seq<u8> {
    seq![0x2eu8, 0x74u8, 0x65u8, 0x78u8, 0x74u8]
}

/// The index of the first section named `.text`, if any.
pub open spec fn text_section_index(sections: Seq<(Seq<u8>, u32, u32)>) -> Option<int>
    decreases sections.len(),
{
    if sections.len() == 0 {
        None
    } else if sections[0].0 == text_section_name() {
        Some(0)
    } else {
        match text_section_index(sections.drop_first()) {
            Some(i) => Some(i + 1),
            None => None,
        }
    }
}

/// The position of the first `.text` section: it is named `.text` and no
/// earlier section is; or no section is at all.
pub proof fn lemma_text_section_index(sections: Seq<(Seq<u8>, u32, u32)>)
    ensures
        match text_section_index(sections) {
            Some(i) => 0 <= i < sections.len() && sections[i].0 == text_section_name() && forall|
                j: int,
            | 0 <= j < i ==> sections[j].0 != text_section_name(),
            None => forall|j: int|
                0 <= j < sections.len() ==> sections[j].0 != text_section_name(),
        },
    decreases sections.len(),
{
    if sections.len() > 0 && sections[0].0 != text_section_name() {
        lemma_text_section_index(sections.drop_first());
        let rest = sections.drop_first();
        assert(forall|j: int| 0 <= j < rest.len() ==> rest[j] == sections[j + 1]);
        match text_section_index(rest) {
            Some(i) => {
                assert forall|j: int| 0 <= j < i + 1 implies sections[j].0
                    != text_section_name() by {
                    if j > 0 {
                        assert(sections[j] == rest[j - 1]);
                    }
                }
            },
            None => {
                assert forall|j: int| 0 <= j < sections.len() implies sections[j].0
                    != text_section_name() by {
                    if j > 0 {
                        assert(sections[j] == rest[j - 1]);
                    }
                }
            },
        }
    }
}

/// Is this name `.text`?
fn is_text_name(name: &Vec<u8>) -> (r: bool)
    ensures
        r == (name@ == text_section_name()),
{
    if name.len() != 5 {
        return false;
    }
    let r = name[0] == 0x2e && name[1] == 0x74 && name[2] == 0x65 && name[3] == 0x78 && name[4]
        == 0x74;
    proof {
        if r {
            assert(name@ =~= text_section_name());
        }
    }
    r
}

/// Find the first section named `.text` in the table.
pub fn get_text_header(sections: &Vec<(Vec<u8>, u32, u32)>) -> (r: Option<usize>)
    ensures
        match r {
            Some(i) => i < sections@.len() && text_section_index(sections.deep_view()) == Some(
                i as int,
            ),
            None => text_section_index(sections.deep_view()) is None,
        },
{
    let ghost secs = sections.deep_view();
    let mut i: usize = 0;
    while i < sections.len()
        invariant
            secs == sections.deep_view(),
            secs.len() == sections@.len(),
            i <= sections@.len(),
            forall|j: int| 0 <= j < i ==> (#[trigger] secs[j]).0 != text_section_name(),
        decreases sections@.len() - i,
    {
        proof {
            assert(secs[i as int] == sections@[i as int].deep_view());
            assert(sections@[i as int].0.deep_view() =~= sections@[i as int].0@);
        }
        if is_text_name(&sections[i].0) {
            proof {
                lemma_text_section_index(secs);
                match text_section_index(secs) {
                    Some(w) => {
                        if w < i {
                            assert(secs[w].0 != text_section_name());
                        } else if w > i {
                            assert(secs[i as int].0 != text_section_name());
                        }
                    },
                    None => {
                        assert(secs[i as int].0 != text_section_name());
                    },
                }
            }
            return Some(i);
        }
        i += 1;
    }
    proof {
        lemma_text_section_index(secs);
        if let Some(w) = text_section_index(secs) {
            assert(secs[w].0 != text_section_name());
        }
    }
    None
}

/// The first offset in `[start, hi - sig.len()]` where the signature
/// matches the buffer, if any.
pub open spec fn first_window_match(buf: Seq<u8>, sig: Seq<SigAtom>, o: int, hi: int) -> Option<
    int,
>
    decreases hi - o,
{
    if o < 0 || o + sig.len() > hi || hi > buf.len() {
        None
    } else if sig_matches_at(buf, sig, o) {
        Some(o)
    } else {
        first_window_match(buf, sig, o + 1, hi)
    }
}

/// A 32-bit little-endian read at `off`.
pub open spec fn le_u32_at(b: Seq<u8>, off: int) -> u32 {
    (b[off] as u32) | ((b[off + 1] as u32) << 8) | ((b[off + 2] as u32) << 16) | ((b[off + 3]
        as u32) << 24)
}

/// The displacement as the instruction means it: sign-extended to 64 bits.
pub open spec fn sign_extend_u64(d: u32) -> u64 {
    if d >= 0x80000000 {
        (d + 0xFFFFFFFF00000000) as u64
    } else {
        d as u64
    }
}

/// The address a relative-addressing instruction at `rva` refers to: the
/// address just past the 7-byte instruction, plus the signed displacement,
/// in wrapping 64-bit arithmetic.
pub open spec fn resolved_address_spec(base: u64, rva: u64, disp: u32) -> u64 {
    vstd::wrapping::u64_specs::wrapping_add(
        vstd::wrapping::u64_specs::wrapping_add(base, vstd::wrapping::u64_specs::wrapping_add(rva, 7)),
        sign_extend_u64(disp),
    )
}

/// Everything pointer resolution does, as a function of the image bytes
/// and the image base address: parse the fixed signature, select the
/// `.text` section, take the first match in its file range (clamped to
/// the image), read the displacement at byte 3 of the match, and compute
/// the referred address.
pub open spec fn resolve_spec(image: Seq<u8>, base: u64) -> Result<u64, ResolveError> {
    match pe_sections_of(image) {
        None => Err(ResolveError::InvalidImage),
        Some(secs) => match text_section_index(secs) {
            None => Err(ResolveError::NoTextSection),
            Some(t) => match parse_signature_spec(game_data_man_pattern()) {
                None => Err(ResolveError::InvalidPattern),
                Some(sig) => {
                    if sig.len() < 7 {
                        Err(ResolveError::InvalidPattern)
                    } else {
                        let lo = secs[t].1 as int;
                        let hi = if secs[t].2 <= image.len() {
                            secs[t].2 as int
                        } else {
                            image.len() as int
                        };
                        match first_window_match(image, sig, lo, hi) {
                            None => Err(ResolveError::NoMatch),
                            Some(rva) => Ok(
                                resolved_address_spec(base, rva as u64, le_u32_at(image, rva + 3)),
                            ),
                        }
                    }
                },
            },
        },
    }
}

/// Pointer resolution is deterministic on a fixed image: any two results
/// computed from the same image bytes and base address are the same
/// address (or the same failure).
pub proof fn lemma_resolution_deterministic(
    image: Seq<u8>,
    base: u64,
    r1: Result<u64, ResolveError>,
    r2: Result<u64, ResolveError>,
)
    requires
        r1 == resolve_spec(image, base),
        r2 == resolve_spec(image, base),
    ensures
        r1 == r2,
{
}

/// Does the signature match the buffer at `off`?
fn matches_at(buf: &Vec<u8>, signature: &ByteSignature, off: usize) -> (r: bool)
    requires
        off + signature.atoms@.len() <= buf@.len(),
    ensures
        r == sig_matches_at(buf@, signature.atoms@, off as int),
{
    let n = buf.len();
    let m = signature.atoms.len();
    let mut k: usize = 0;
    while k < m
        invariant
            m == signature.atoms@.len(),
            n == buf@.len(),
            off + m <= n,
            k <= m,
            forall|w: int|
                0 <= w < k ==> ((#[trigger] signature.atoms@[w]).1 || buf@[off + w]
                    == signature.atoms@[w].0),
        decreases m - k,
    {
        let (byte, wild) = signature.atoms[k];
        if !wild && buf[off + k] != byte {
            return false;
        }
        k += 1;
    }
    true
}

/// Compute the address of the target structure's global pointer from the
/// image bytes and the image base address. The caller reads a pointer
/// from the returned address and dereferences it once more; nothing here
/// or there is cached, so a moved structure is found anew next frame.
pub fn resolve_game_data_man_address(image: &Vec<u8>, base: u64) -> (r: Result<u64, ResolveError>)
    ensures
        r == resolve_spec(image@, base),
{
    let sections = match pe_section_table(image) {
        Some(s) => s,
        None => {
            return Err(ResolveError::InvalidImage);
        },
    };
    let ghost secs = sections.deep_view();
    let t = match get_text_header(&sections) {
        Some(t) => t,
        None => {
            return Err(ResolveError::NoTextSection);
        },
    };
    let signature = match parse_signature("48 8B 05 ? ? ? ? 48 85 C0 74 05 48 8B 40 58 C3 C3") {
        Some(sig) => sig,
        None => {
            return Err(ResolveError::InvalidPattern);
        },
    };
    let m = signature.atoms.len();
    if m < 7 {
        return Err(ResolveError::InvalidPattern);
    }
    proof {
        assert(secs[t as int] == sections@[t as int].deep_view());
    }
    let lo = sections[t].1;
    let sec_end = sections[t].2;
    let hi = if sec_end as usize <= image.len() {
        sec_end as usize
    } else {
        image.len()
    };
    if m > hi || lo as usize > hi - m {
        return Err(ResolveError::NoMatch);
    }
    let mut o: usize = lo as usize;
    while o <= hi - m
        invariant
            m == signature.atoms@.len(),
            7 <= m <= hi <= image@.len(),
            lo as usize <= o <= hi - m + 1,
            pe_sections_of(image@) == Some(secs),
            text_section_index(secs) == Some(t as int),
            0 <= t < secs.len(),
            lo == secs[t as int].1,
            sec_end == secs[t as int].2,
            hi == (if sec_end as int <= image@.len() {
                sec_end as int
            } else {
                image@.len() as int
            }),
            parse_signature_spec(game_data_man_pattern()) == Some(signature.atoms@),
            first_window_match(image@, signature.atoms@, lo as int, hi as int)
                == first_window_match(image@, signature.atoms@, o as int, hi as int),
        decreases hi - m + 1 - o,
    {
        if matches_at(image, &signature, o) {
            let rva = o;
            let d0 = image[rva + 3] as u32;
            let d1 = image[rva + 4] as u32;
            let d2 = image[rva + 5] as u32;
            let d3 = image[rva + 6] as u32;
            let disp: u32 = d0 | (d1 << 8) | (d2 << 16) | (d3 << 24);
            let ext: u64 = if disp >= 0x80000000 {
                (disp as u64) + 0xFFFFFFFF00000000u64
            } else {
                disp as u64
            };
            let addr = base.wrapping_add((rva as u64).wrapping_add(7)).wrapping_add(ext);
            proof {
                assert(first_window_match(image@, signature.atoms@, lo as int, hi as int) == Some(
                    rva as int,
                ));
                assert(disp == le_u32_at(image@, rva + 3));
                assert(ext == sign_extend_u64(disp));
                assert(addr == resolved_address_spec(base, rva as u64, disp));
            }
            return Ok(addr);
        }
        o += 1;
    }
    proof {
        assert(first_window_match(image@, signature.atoms@, o as int, hi as int) is None);
    }
    Err(ResolveError::NoMatch)
}

} // verus!
