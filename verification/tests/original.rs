//! Tests of the individual parsing stages.

use vcard::model::ParseErrorKind;
use vcard::parser::{
    parse_parameters, parse_properties, parse_property, parse_property_name,
    parse_property_parameter, parse_property_value,
};

#[test]
fn property_parameter() {
    let input = b"hello=test;";
    let (q, (key, value)) = parse_property_parameter(input, 0).unwrap();
    assert_eq!(input[q..].to_vec(), b";".to_vec());
    assert_eq!(key, b"hello".to_vec());
    assert_eq!(value, b"test".to_vec());

    let input = b";hello=test:";
    let (q, params) = parse_parameters(input, 0).unwrap();
    assert_eq!(q, input.len());
    assert_eq!(params, vec![(b"hello".to_vec(), b"test".to_vec())]);
}

#[test]
fn property_name() {
    let input = b"check;test";
    let (d, name) = parse_property_name(input, 0).unwrap();
    assert_eq!(input[d..].to_vec(), b";test".to_vec());
    assert_eq!(name, b"check".to_vec());

    let input = b"check:test";
    let (d, name) = parse_property_name(input, 0).unwrap();
    assert_eq!(input[d..].to_vec(), b":test".to_vec());
    assert_eq!(name, b"check".to_vec());
}

#[test]
fn property_value() {
    let input = b"test\r\n";
    let (p, values) = parse_property_value(input, 0);
    assert_eq!(input[p..].to_vec(), b"\r\n".to_vec());
    assert_eq!(values, vec![b"test".to_vec()]);

    // Value regions are always split on commas.
    let input = b"hello,test\r\n";
    let (p, values) = parse_property_value(input, 0);
    assert_eq!(input[p..].to_vec(), b"\r\n".to_vec());
    assert_eq!(values, vec![b"hello".to_vec(), b"test".to_vec()]);

    let input = b"al  hello,test\r\n";
    let (p, values) = parse_property_value(input, 0);
    assert_eq!(input[p..].to_vec(), b"\r\n".to_vec());
    assert_eq!(values, vec![b"al  hello".to_vec(), b"test".to_vec()]);
}

#[test]
fn property() {
    // The list parses both lines; the trailing terminator then announces
    // one more property where the buffer ends, and the parse fails fast
    // with no `:` found on that empty line.
    let test = b"FN:Hello Betty\r\nN:Hello;Betty\r\n";
    let err = parse_properties(test, 0).unwrap_err();
    assert_eq!(err.kind, ParseErrorKind::UnterminatedPropertyHeader);
    assert_eq!(err.offset, test.len());

    let input = b"fn:test\r\n";
    let (q, p) = parse_property(input, 0).unwrap();
    assert_eq!(input[q..].to_vec(), b"\r\n".to_vec());
    assert_eq!(p.group, None);
    assert_eq!(p.name, b"fn".to_vec());
    assert_eq!(p.params, vec![]);
    assert_eq!(p.value, vec![b"test".to_vec()]);

    let input = b"fn;type=internet:test,time\r\n";
    let (q, p) = parse_property(input, 0).unwrap();
    assert_eq!(input[q..].to_vec(), b"\r\n".to_vec());
    assert_eq!(p.group, None);
    assert_eq!(p.name, b"fn".to_vec());
    assert_eq!(p.params, vec![(b"type".to_vec(), b"internet".to_vec())]);
    assert_eq!(p.value, vec![b"test".to_vec(), b"time".to_vec()]);

    // A line whose name token is the reserved keyword ends the list; the
    // terminator before it stays unconsumed.
    let input = b"fn:test\r\nEND:VCARD\r\n";
    let (q, props) = parse_properties(input, 0).unwrap();
    assert_eq!(input[q..].to_vec(), b"\r\nEND:VCARD\r\n".to_vec());
    assert_eq!(props.len(), 1);
    assert_eq!(props[0].group, None);
    assert_eq!(props[0].name, b"fn".to_vec());
    assert_eq!(props[0].params, vec![]);
    assert_eq!(props[0].value, vec![b"test".to_vec()]);
}
