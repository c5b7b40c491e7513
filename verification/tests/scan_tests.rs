use to_uni::conversion::{convert, reconstruct, scan_all, Scanner, Segment};
use to_uni::table::PatternTable;

const MARKER: u8 = b'\\';

fn table(entries: &[(&str, &str)]) -> PatternTable {
    let owned: Vec<(Vec<u8>, Vec<u8>)> = entries
        .iter()
        .map(|(k, v)| (k.as_bytes().to_vec(), v.as_bytes().to_vec()))
        .collect();
    PatternTable::new(&owned, MARKER).expect("entries must not collide")
}

#[test]
fn greek_letters_are_substituted() {
    let t = table(&[("alpha", "α"), ("beta", "β")]);
    let input = "x \\alpha y \\beta z".as_bytes().to_vec();
    let out = convert(&t, &input, 512);
    assert_eq!(out, "x α y β z".as_bytes().to_vec());
}

#[test]
fn overlapping_patterns_prefer_the_shortest_at_a_position() {
    // With tokens `a` and `ab` both configured, the scan of `\ab` picks the
    // shortest completed pattern at the earliest position: `\a` matches, the
    // trailing `b` stays literal.
    let t = table(&[("a", "1"), ("ab", "2")]);
    let input = b"\\ab".to_vec();
    let out = convert(&t, &input, 512);
    assert_eq!(out, b"1b".to_vec());
}

#[test]
fn overlapping_patterns_order_of_declaration_is_irrelevant() {
    let t = table(&[("ab", "2"), ("a", "1")]);
    let input = b"\\ab".to_vec();
    let out = convert(&t, &input, 512);
    assert_eq!(out, b"1b".to_vec());
}

#[test]
fn incomplete_pattern_at_end_of_input_stays_literal() {
    let t = table(&[("alpha", "α")]);
    let input = b"ends in \\al".to_vec();
    let out = convert(&t, &input, 512);
    assert_eq!(out, b"ends in \\al".to_vec());
}

#[test]
fn empty_input_gives_empty_output_and_no_segments() {
    let t = table(&[("alpha", "α")]);
    let input: Vec<u8> = Vec::new();
    let segs = scan_all(&t, &input, 512);
    assert_eq!(segs.len(), 0);
    let out = convert(&t, &input, 512);
    assert!(out.is_empty());
}

#[test]
fn input_that_is_exactly_one_pattern_is_one_match_segment() {
    let t = table(&[("alpha", "α")]);
    let input = b"\\alpha".to_vec();
    let segs = scan_all(&t, &input, 512);
    assert_eq!(segs.len(), 1);
    assert!(matches!(segs[0], Segment::Match(_)));
}

#[test]
fn output_does_not_depend_on_the_block_size() {
    let t = table(&[("alpha", "α"), ("beta", "β"), ("a", "A")]);
    let input = "pre \\alpha mid \\beta post \\a end \\alp".as_bytes().to_vec();
    let reference = convert(&t, &input, 512);
    for block_size in 1..20 {
        assert_eq!(convert(&t, &input, block_size), reference);
    }
}

#[test]
fn repeated_runs_give_byte_identical_output() {
    let t = table(&[("alpha", "α")]);
    let input = b"a \\alpha b \\alpha".to_vec();
    let first = convert(&t, &input, 7);
    let second = convert(&t, &input, 7);
    assert_eq!(first, second);
}

#[test]
fn reconstruction_recovers_the_original_input() {
    let t = table(&[("alpha", "α"), ("a", "A")]);
    for input in [
        &b""[..],
        &b"plain text"[..],
        &b"\\alpha"[..],
        &b"x \\a y \\alpha z \\al"[..],
        &b"\\\\alpha"[..],
    ] {
        let input = input.to_vec();
        for block_size in [1, 3, 512] {
            let segs = scan_all(&t, &input, block_size);
            assert_eq!(reconstruct(&t, &segs), input);
        }
    }
}

#[test]
fn configured_pattern_absent_from_input_changes_nothing() {
    let t = table(&[("alpha", "α")]);
    let input = b"hello world, no escapes here".to_vec();
    let out = convert(&t, &input, 512);
    assert_eq!(out, input);
}

#[test]
fn match_straddling_a_block_boundary_is_still_found() {
    let t = table(&[("alpha", "α")]);
    // Block size 4 cuts the input inside the escape sequence.
    let input = b"xy\\alpha z".to_vec();
    let out = convert(&t, &input, 4);
    assert_eq!(out, "xyα z".as_bytes().to_vec());
}

#[test]
fn scanner_fed_in_pieces_agrees_with_a_single_read() {
    let t = table(&[("alpha", "α"), ("beta", "β")]);
    let whole = "A \\alpha B \\beta C".as_bytes().to_vec();
    for cut in 0..whole.len() {
        let mut sc = Scanner::new(&t);
        let mut segs = sc.feed(&t, &whole[..cut].to_vec());
        segs.extend(sc.feed(&t, &whole[cut..].to_vec()));
        segs.extend(sc.finish(&t));
        let rebuilt = reconstruct(&t, &segs);
        assert_eq!(rebuilt, whole);
        let mut one = Scanner::new(&t);
        let mut segs_one = one.feed(&t, &whole);
        segs_one.extend(one.finish(&t));
        // Byte-level outputs agree however the input was cut.
        assert_eq!(
            to_uni::conversion::substitute(&t, &segs),
            to_uni::conversion::substitute(&t, &segs_one)
        );
    }
}

#[test]
fn duplicate_tokens_are_rejected_as_a_usage_error() {
    let entries = vec![
        (b"a".to_vec(), b"1".to_vec()),
        (b"a".to_vec(), b"2".to_vec()),
    ];
    let err = PatternTable::new(&entries, MARKER).err().expect("collision must be rejected");
    // Usage error, invalid-configuration minor code.
    assert_eq!(err.error_code(), 8);
}

#[test]
fn empty_token_is_matched_by_the_bare_marker() {
    // Prefixing makes even an empty token a one-byte pattern.
    let t = table(&[("", "X")]);
    let input = b"a\\b".to_vec();
    let out = convert(&t, &input, 512);
    assert_eq!(out, b"aXb".to_vec());
}

#[test]
fn replacement_may_be_empty() {
    let t = table(&[("gone", "")]);
    let input = b"a\\goneb".to_vec();
    let out = convert(&t, &input, 512);
    assert_eq!(out, b"ab".to_vec());
}

#[test]
fn adjacent_matches_are_each_replaced() {
    let t = table(&[("a", "1"), ("b", "2")]);
    let input = b"\\a\\b\\a".to_vec();
    let out = convert(&t, &input, 512);
    assert_eq!(out, b"121".to_vec());
}

#[test]
fn the_escape_marker_is_the_backslash() {
    assert_eq!(to_uni::ESCAPE_MARKER, b'\\');
}

#[test]
fn byte_vectors_compare_by_content() {
    assert!(to_uni::table::bytes_eq(&b"abc".to_vec(), &b"abc".to_vec()));
    assert!(!to_uni::table::bytes_eq(&b"abc".to_vec(), &b"abd".to_vec()));
    assert!(!to_uni::table::bytes_eq(&b"abc".to_vec(), &b"ab".to_vec()));
}
