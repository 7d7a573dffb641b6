//! End-to-end scenarios: unfolding, envelope validation, parameter
//! order, value splitting, and one input for every error kind.

use vcard::model::ParseErrorKind;
use vcard::parser::{parse, parse_property, parse_vcf_begin, parse_vcf_end, parse_version_3};
use vcard::unfold::unfold;

fn unfolded(input: &[u8]) -> Vec<u8> {
    let mut buf = input.to_vec();
    unfold(&mut buf);
    buf
}

#[test]
fn folding_one_leading_space() {
    assert_eq!(unfolded(b"NOTE:abc\r\n def"), b"NOTE:abcdef".to_vec());
}

#[test]
fn folding_two_leading_spaces() {
    // Only exactly one leading space is consumed with the terminator.
    assert_eq!(unfolded(b"NOTE:abc\r\n  def"), b"NOTE:abc def".to_vec());
}

#[test]
fn folding_leaves_plain_breaks_alone() {
    assert_eq!(unfolded(b"A:1\r\nB:2"), b"A:1\r\nB:2".to_vec());
    // A terminator at the end of the input, with nothing after it, stays.
    assert_eq!(unfolded(b"A:1\r\n"), b"A:1\r\n".to_vec());
    assert_eq!(unfolded(b""), b"".to_vec());
}

#[test]
fn folding_consecutive_markers() {
    // Consecutive folds are resolved independently, left to right.
    assert_eq!(unfolded(b"A\r\n \r\n B"), b"AB".to_vec());
}

#[test]
fn unfold_is_idempotent_on_samples() {
    let samples: Vec<&[u8]> = vec![
        b"NOTE:abc\r\n def",
        b"NOTE:abc\r\n  def",
        b"A\r\n \r\n B",
        b"\r\n\r\n  ",
        b"A:1\r\n",
        b"\r\n ",
    ];
    for s in samples {
        let once = unfolded(s);
        let twice = unfolded(&once);
        assert_eq!(once, twice);
    }
}

#[test]
fn parameter_order_is_preserved() {
    let input = b"NAME;A=1;B=2:value\r\n";
    let (_, p) = parse_property(input, 0).unwrap();
    assert_eq!(
        p.params,
        vec![(b"A".to_vec(), b"1".to_vec()), (b"B".to_vec(), b"2".to_vec())]
    );
    assert_eq!(p.value, vec![b"value".to_vec()]);
}

#[test]
fn value_splitting_on_commas() {
    let input = b"NAME:a,b,c\r\n";
    let (_, p) = parse_property(input, 0).unwrap();
    assert_eq!(p.value, vec![b"a".to_vec(), b"b".to_vec(), b"c".to_vec()]);
    // The parser always reports the split form; a caller that knows the
    // field is free text can rejoin the fragments with commas verbatim.
    let rejoined = p.value.join(&b","[..]);
    assert_eq!(rejoined, b"a,b,c".to_vec());
}

#[test]
fn empty_value_region_is_one_empty_fragment() {
    let input = b"N:\r\n";
    let (_, p) = parse_property(input, 0).unwrap();
    assert_eq!(p.value, vec![b"".to_vec()]);
}

#[test]
fn end_to_end_two_records() {
    let input = b"BEGIN:VCARD\r\nVERSION:3.0\r\nFN:Hello Betty\r\nEMAIL;TYPE=INTERNET:hello.betty@gmail.com\r\nEND:VCARD\r\n";
    let props = parse(input).unwrap();
    assert_eq!(props.len(), 2);
    assert_eq!(props[0].name, b"FN".to_vec());
    assert_eq!(props[0].params, vec![]);
    assert_eq!(props[0].value, vec![b"Hello Betty".to_vec()]);
    assert_eq!(props[1].name, b"EMAIL".to_vec());
    assert_eq!(
        props[1].params,
        vec![(b"TYPE".to_vec(), b"INTERNET".to_vec())]
    );
    assert_eq!(props[1].value, vec![b"hello.betty@gmail.com".to_vec()]);
}

#[test]
fn end_to_end_unfolds_then_parses() {
    let input =
        b"BEGIN:VCARD\r\nVERSION:3.0\r\nNOTE:abc\r\n def\r\nTEL;TYPE=CELL:+1 555 0100\r\nEND:VCARD\r\n";
    let buf = unfolded(input);
    let props = parse(&buf).unwrap();
    assert_eq!(props.len(), 2);
    assert_eq!(props[0].name, b"NOTE".to_vec());
    assert_eq!(props[0].value, vec![b"abcdef".to_vec()]);
    assert_eq!(props[1].name, b"TEL".to_vec());
    assert_eq!(props[1].params, vec![(b"TYPE".to_vec(), b"CELL".to_vec())]);
}

#[test]
fn envelope_is_case_insensitive() {
    let input = b"begin:vcard\r\nVersion:3.0\r\nfn:x\r\nend:vcard\r\n";
    let props = parse(input).unwrap();
    assert_eq!(props.len(), 1);
    // The name is returned verbatim, not case-folded.
    assert_eq!(props[0].name, b"fn".to_vec());
}

#[test]
fn missing_begin_yields_no_records() {
    let err = parse(b"VERSION:3.0\r\nFN:x\r\nEND:VCARD\r\n").unwrap_err();
    assert_eq!(err.kind, ParseErrorKind::MissingBegin);
    assert_eq!(err.offset, 0);

    let err = parse(b"").unwrap_err();
    assert_eq!(err.kind, ParseErrorKind::MissingBegin);
    assert_eq!(err.offset, 0);

    // The opener must be followed by one line terminator.
    let err = parse(b"BEGIN:VCARDVERSION:3.0\r\n").unwrap_err();
    assert_eq!(err.kind, ParseErrorKind::MissingBegin);
}

#[test]
fn unsupported_version_is_rejected() {
    let err = parse(b"BEGIN:VCARD\r\nVERSION:2.1\r\nFN:x\r\nEND:VCARD\r\n").unwrap_err();
    assert_eq!(err.kind, ParseErrorKind::UnsupportedOrMissingVersion);
    assert_eq!(err.offset, 13);

    let err = parse(b"BEGIN:VCARD\r\nFN:x\r\nEND:VCARD\r\n").unwrap_err();
    assert_eq!(err.kind, ParseErrorKind::UnsupportedOrMissingVersion);
    assert_eq!(err.offset, 13);
}

#[test]
fn reserved_name_is_rejected() {
    let err = parse_property(b"END;x=1:v\r\n", 0).unwrap_err();
    assert_eq!(err.kind, ParseErrorKind::ReservedName);
    assert_eq!(err.offset, 0);

    // Case-insensitively, and whatever follows the token.
    let err = parse_property(b"end:vcard\r\n", 0).unwrap_err();
    assert_eq!(err.kind, ParseErrorKind::ReservedName);

    let err = parse_property(b"eNd:anything\r\n", 0).unwrap_err();
    assert_eq!(err.kind, ParseErrorKind::ReservedName);
}

#[test]
fn unterminated_header_is_rejected() {
    // No `:` before the end of the logical line.
    let err = parse_property(b"NAME\r\n", 0).unwrap_err();
    assert_eq!(err.kind, ParseErrorKind::UnterminatedPropertyHeader);
    assert_eq!(err.offset, 4);

    // A parameter without `=` before the terminating `:`.
    let err = parse_property(b"NAME;FOO:v\r\n", 0).unwrap_err();
    assert_eq!(err.kind, ParseErrorKind::UnterminatedPropertyHeader);

    // An empty name token.
    let err = parse_property(b":v\r\n", 0).unwrap_err();
    assert_eq!(err.kind, ParseErrorKind::UnterminatedPropertyHeader);

    // Inside a document the property failure aborts the whole parse.
    let err = parse(b"BEGIN:VCARD\r\nVERSION:3.0\r\nNOHEADER\r\nEND:VCARD\r\n").unwrap_err();
    assert_eq!(err.kind, ParseErrorKind::UnterminatedPropertyHeader);
    assert_eq!(err.offset, 34);
}

#[test]
fn empty_body_is_rejected() {
    let err = parse(b"BEGIN:VCARD\r\nVERSION:3.0\r\nEND:VCARD\r\n").unwrap_err();
    assert_eq!(err.kind, ParseErrorKind::EmptyPropertyList);
    assert_eq!(err.offset, 26);
}

#[test]
fn missing_end_is_rejected() {
    // The last property line ends with the input: no closing marker.
    let input = b"BEGIN:VCARD\r\nVERSION:3.0\r\nFN:x";
    let err = parse(input).unwrap_err();
    assert_eq!(err.kind, ParseErrorKind::MissingEnd);
    assert_eq!(err.offset, input.len());

    // The closing marker lacks its trailing terminator.
    let err = parse(b"BEGIN:VCARD\r\nVERSION:3.0\r\nFN:x\r\nEND:VCARD").unwrap_err();
    assert_eq!(err.kind, ParseErrorKind::MissingEnd);
    assert_eq!(err.offset, 30);
}

#[test]
fn trailing_bytes_after_envelope_are_ignored() {
    let input = b"BEGIN:VCARD\r\nVERSION:3.0\r\nFN:x\r\nEND:VCARD\r\nleftover";
    let props = parse(input).unwrap();
    assert_eq!(props.len(), 1);
}

#[test]
fn record_count_matches_body_lines() {
    let input = b"BEGIN:VCARD\r\nVERSION:3.0\r\nA:1\r\nB:2\r\nC:3,4\r\nD;K=V:5\r\nEND:VCARD\r\n";
    let props = parse(input).unwrap();
    assert_eq!(props.len(), 4);
    assert_eq!(props[0].name, b"A".to_vec());
    assert_eq!(props[1].name, b"B".to_vec());
    assert_eq!(props[2].name, b"C".to_vec());
    assert_eq!(props[3].name, b"D".to_vec());
}

#[test]
fn envelope_stage_functions() {
    assert_eq!(parse_vcf_begin(b"BEGIN:VCARD\r\nrest", 0).unwrap(), 13);
    let err = parse_vcf_begin(b"BEGIN:VCARD", 0).unwrap_err();
    assert_eq!(err.kind, ParseErrorKind::MissingBegin);

    assert_eq!(parse_version_3(b"version:3.0\r\n", 0).unwrap(), 13);
    let err = parse_version_3(b"VERSION:3.1\r\n", 0).unwrap_err();
    assert_eq!(err.kind, ParseErrorKind::UnsupportedOrMissingVersion);

    assert_eq!(parse_vcf_end(b"END:VCARD\r\n", 0).unwrap(), 11);
    let err = parse_vcf_end(b"END:VCARD", 0).unwrap_err();
    assert_eq!(err.kind, ParseErrorKind::MissingEnd);
}
