use eldenring_remapper::{parse_signature, scan};

#[test]
fn parses_the_game_data_man_signature() {
    let sig = parse_signature("48 8B 05 ? ? ? ? 48 85 C0 74 05 48 8B 40 58 C3 C3").unwrap();
    assert_eq!(sig.atoms.len(), 18);
    assert_eq!(sig.atoms[0], (0x48, false));
    assert_eq!(sig.atoms[1], (0x8B, false));
    assert_eq!(sig.atoms[2], (0x05, false));
    for k in 3..7 {
        assert!(sig.atoms[k].1, "byte {} should be a wildcard", k);
    }
    assert_eq!(sig.atoms[7], (0x48, false));
    assert_eq!(sig.atoms[17], (0xC3, false));
}

#[test]
fn parses_double_question_mark_wildcards() {
    let sig = parse_signature("FF ?? 00").unwrap();
    assert_eq!(sig.atoms.len(), 3);
    assert_eq!(sig.atoms[0], (0xFF, false));
    assert_eq!(sig.atoms[1], (0, true));
    assert_eq!(sig.atoms[2], (0x00, false));
}

#[test]
fn parses_mixed_case_hex() {
    let sig = parse_signature("aB Cd 09").unwrap();
    assert_eq!(sig.atoms[0], (0xAB, false));
    assert_eq!(sig.atoms[1], (0xCD, false));
    assert_eq!(sig.atoms[2], (0x09, false));
}

#[test]
fn rejects_malformed_signature_text() {
    assert!(parse_signature("").is_none());
    assert!(parse_signature("4").is_none());
    assert!(parse_signature("4G").is_none());
    assert!(parse_signature("48 ").is_none());
    assert!(parse_signature("48  8B").is_none());
    assert!(parse_signature("???").is_none());
    assert!(parse_signature("48,8B").is_none());
}

#[test]
fn scan_finds_exact_copy_at_its_offset() {
    // a wildcard-free signature embedded verbatim at offset 5
    let sig = parse_signature("DE AD BE EF").unwrap();
    let mut buf = vec![0u8; 32];
    buf[5] = 0xDE;
    buf[6] = 0xAD;
    buf[7] = 0xBE;
    buf[8] = 0xEF;
    let hits = scan(&buf, &sig, 0, buf.len());
    assert_eq!(hits, vec![5]);
}

#[test]
fn scan_never_reports_an_offset_with_a_differing_byte() {
    let sig = parse_signature("DE AD").unwrap();
    let buf = vec![0xDE, 0xAC, 0xDE, 0xAD, 0xDE];
    let hits = scan(&buf, &sig, 0, buf.len());
    // offset 0 differs in its second byte; only offset 2 matches
    assert_eq!(hits, vec![2]);
}

#[test]
fn scan_honours_wildcards() {
    let sig = parse_signature("10 ? 30").unwrap();
    let buf = vec![0x10, 0x99, 0x30, 0x10, 0x00, 0x30, 0x10, 0x00, 0x31];
    let hits = scan(&buf, &sig, 0, buf.len());
    assert_eq!(hits, vec![0, 3]);
}

#[test]
fn scan_reports_overlapping_matches_in_order() {
    let sig = parse_signature("AA AA").unwrap();
    let buf = vec![0xAA, 0xAA, 0xAA, 0xAA];
    let hits = scan(&buf, &sig, 0, buf.len());
    assert_eq!(hits, vec![0, 1, 2]);
}

#[test]
fn scan_respects_the_window() {
    let sig = parse_signature("AA").unwrap();
    let buf = vec![0xAA, 0xAA, 0xAA, 0xAA];
    assert_eq!(scan(&buf, &sig, 1, 3), vec![1, 2]);
    // a window end past the buffer is clamped to it
    assert_eq!(scan(&buf, &sig, 2, 100), vec![2, 3]);
    // an empty window holds no match
    assert_eq!(scan(&buf, &sig, 4, 4), Vec::<usize>::new());
}
