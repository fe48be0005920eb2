//! Labels, classes, types, raw name parsing and the label store.

use rdns::shared::{Class, Label, ParseError, Type};

#[test]
fn parse_type() {
    let test_data = [
        ([0, 0], Type::Invalid),
        ([0, 1], Type::A),
        ([0, 2], Type::NS),
        ([0, 3], Type::MD),
        ([0, 4], Type::MF),
        ([0, 5], Type::CNAME),
        ([0, 6], Type::SOA),
        ([0, 7], Type::MB),
        ([0, 8], Type::MG),
        ([0, 9], Type::MR),
        ([0, 10], Type::NULL),
        ([0, 11], Type::WKS),
        ([0, 12], Type::PTR),
        ([0, 13], Type::HINFO),
        ([0, 14], Type::MINFO),
        ([0, 15], Type::MX),
        ([0, 16], Type::TXT),
        ([0, 17], Type::Invalid),
    ];

    for td in &test_data {
        let result = rdns::shared::parse_type(td.0);
        assert_eq!(td.1, result);
    }
}

#[test]
fn parse_name_label_with_zero_length() {
    if let Ok(_) = rdns::shared::parse_name(0, &[]) {
        assert!(false);
    }
}

#[test]
fn parse_name_with_count_zero() {
    let result = rdns::shared::parse_name(0, &[0]);
    assert_eq!(Ok(vec![Label::Value(0, None)]), result);
}

#[test]
fn parse_name_with_overflowing_label_count() {
    match rdns::shared::parse_name(0, &[1]) {
        Err(ParseError::Truncated { .. }) => {}
        _ => {
            assert!(false);
        }
    }
}

#[test]
fn parse_name_with_label_higher_than_63_count() {
    match rdns::shared::parse_name(0, &[64]) {
        Err(ParseError::ReservedLabelType { .. }) => {}
        _ => {
            assert!(false);
        }
    }
}

#[test]
fn parse_name_with_premature_zero_in_label() {
    match rdns::shared::parse_name(0, &[4, 97, 98, 0, 99]) {
        Err(ParseError::EmbeddedZero { .. }) => {}
        _ => {
            assert!(false);
        }
    }
}

#[test]
fn parse_name_with_label_text_abc() {
    let result = rdns::shared::parse_name(0, &[3, 97, 98, 99, 0]);
    assert_eq!(
        Ok(vec![
            Label::Value(0, Some(vec![97, 98, 99])),
            Label::Value(4, None)
        ]),
        result
    );
}

#[test]
fn parse_class() {
    let test_data = [
        ([0, 0], Class::Invalid),
        ([0, 1], Class::IN),
        ([0, 2], Class::CS),
        ([0, 3], Class::CH),
        ([0, 4], Class::HS),
        ([0, 5], Class::Invalid),
    ];

    for td in &test_data {
        let result = rdns::shared::parse_class(td.0);
        assert_eq!(td.1, result);
    }
}

#[test]
fn parse_label_pointer() {
    let data = [193, 10];
    let result = rdns::shared::parse_label_pointer(0, &data);
    assert_eq!(Ok(Label::Pointer(0, 266)), result);
}

#[test]
fn parse_label_pointer_and_fail() {
    let data = [193];
    let result = rdns::shared::parse_label_pointer(0, &data);
    match result {
        Err(ParseError::Truncated { .. }) => {}
        _ => {
            assert!(false);
        }
    }
}

#[test]
fn parse_label_value() {
    let data = [8, 97, 98, 99, 100, 101, 102, 103, 104];
    let result = rdns::shared::parse_label_value(0, &data);
    assert_eq!(
        Ok(Label::Value(
            0,
            Some(vec![97, 98, 99, 100, 101, 102, 103, 104])
        )),
        result
    );
}

#[test]
fn parse_label_value_empty() {
    let data = [0, 97, 98, 99, 100, 101, 102, 103, 104];
    let result = rdns::shared::parse_label_value(0, &data);
    assert_eq!(Ok(Label::Value(0, None)), result);
}

#[test]
fn label_size_value() {
    let data = [8, 97, 98, 99, 100, 101, 102, 103, 104];
    let result = rdns::shared::parse_label_value(0, &data);
    assert_eq!(Ok(9), result.map(|r| r.size()));
}

#[test]
fn label_size_pointer() {
    let data = [192, 10];
    let result = rdns::shared::parse_label_pointer(0, &data);
    assert_eq!(Ok(2), result.map(|r| r.size()));
}

#[test]
fn parse_name() {
    let data = &[3, 97, 98, 99, 2, 97, 98, 0, 4, 97, 98, 99, 100, 1, 97, 0];
    let result = rdns::shared::parse_name(0, data);
    assert_eq!(
        Ok(vec![
            Label::Value(0, Some(vec![97, 98, 99])),
            Label::Value(4, Some(vec![97, 98])),
            Label::Value(7, None)
        ]),
        result
    );
}

#[test]
fn resolve_pointer() {
    let labels = vec![
        Label::Value(0, Some(vec![1, 2, 3])),
        Label::Value(4, None),
        Label::Value(5, Some(vec![4, 5, 6])),
        Label::Value(9, Some(vec![7, 8])),
        Label::Value(12, None),
        Label::Value(13, Some(vec![9])),
        Label::Value(15, Some(vec![10])),
        Label::Value(17, None),
    ];

    let result = rdns::shared::resolve_pointer(&labels, 5);
    assert_eq!(
        vec![
            Label::Value(5, Some(vec![4, 5, 6])),
            Label::Value(9, Some(vec![7, 8])),
            Label::Value(12, None)
        ],
        result
    );
}

#[test]
fn extract_domain_name() {
    let all_labels = vec![
        Label::Value(0, Some(vec![120, 121])),
        Label::Value(3, None),
        Label::Value(4, Some(vec![97, 98, 99])),
        Label::Value(8, Some(vec![100, 101, 102])),
        Label::Value(12, Some(vec![103, 104, 105])),
        Label::Value(16, None),
        Label::Value(17, Some(vec![97, 98])),
        Label::Value(20, Some(vec![99, 100, 101])),
        Label::Value(24, Some(vec![102, 103, 104])),
        Label::Pointer(28, 4),
    ];

    let domain_name = rdns::shared::extract_domain_name(&all_labels, &all_labels[6..]);
    assert_eq!("ab.cde.fgh.abc.def.ghi".to_owned(), domain_name);
}

#[test]
fn resolve_name_follows_backward_pointer() {
    // "abc" at offset 2, then a name at offset 7 that continues there.
    let data = [0u8, 0, 3, 97, 98, 99, 0, 1, 120, 192, 2];
    let (labels, wire) = rdns::shared::resolve_name(7, &data).unwrap();
    assert_eq!(vec![vec![120u8], vec![97, 98, 99]], labels);
    assert_eq!(4, wire);
}

#[test]
fn resolve_name_rejects_forward_pointer() {
    let data = [1u8, 97, 192, 5, 0, 0];
    match rdns::shared::resolve_name(2, &data) {
        Err(ParseError::BadPointer { from: 2, to: 5 }) => {}
        other => panic!("unexpected: {:?}", other),
    }
}

#[test]
fn resolve_name_rejects_over_255_octets() {
    // Five labels of 63 octets exceed the 255-octet cap on resolved names.
    let mut data: Vec<u8> = Vec::new();
    for _ in 0..5 {
        data.push(63);
        for _ in 0..63 {
            data.push(120);
        }
    }
    data.push(0);
    match rdns::shared::resolve_name(0, &data) {
        Err(ParseError::NameTooLong { .. }) => {}
        other => panic!("unexpected: {:?}", other),
    }
}

#[test]
fn name_to_string_escapes_unprintable_bytes() {
    let labels = vec![vec![97u8, 98], vec![1u8, 46, 92]];
    let rendered = rdns::shared::name_to_string(&labels);
    assert_eq!("ab.\\001\\046\\092.", rendered);
}

#[test]
fn label_value_over_63_is_label_too_long() {
    // Reading a single label whose count byte exceeds 63.
    match rdns::shared::parse_label_value(0, &[200, 1, 2]) {
        Err(ParseError::LabelTooLong { offset: 0, length: 200 }) => {}
        other => panic!("unexpected: {:?}", other),
    }
}
