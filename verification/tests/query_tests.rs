//! QTYPE, QCLASS and the QU/QM bit.

use rdns::query::{QClass, QType, QuestionResponseType};
use rdns::shared::{Class, Type};

#[test]
fn parse_q_type() {
    let test_data = [
        ([0, 254], QType::MAILA),
        ([0, 253], QType::MAILB),
        ([0, 252], QType::AXFR),
        ([0, 255], QType::Any),
        ([0, 1], QType::Type(Type::A)),
        ([0, 0], QType::Type(Type::Invalid)),
    ];

    for td in &test_data {
        let result = rdns::query::parse_q_type(td.0);
        assert_eq!((QuestionResponseType::QM, td.1), result);
    }
}

#[test]
fn parse_q_class() {
    let test_data = [
        ([0, 255], QClass::Any),
        ([0, 1], QClass::Class(Class::IN)),
        ([0, 5], QClass::Class(Class::Invalid)),
    ];

    for td in &test_data {
        let result = rdns::query::parse_q_class(td.0);
        assert_eq!(td.1, result);
    }
}

#[test]
fn parse_q_response_type_for_unicast() {
    let data = 0b10000000;
    let result = rdns::query::parse_q_response_type(data);
    assert_eq!(QuestionResponseType::QU, result);
}

#[test]
fn parse_q_response_type_for_multicast() {
    let data = 0b00000000;
    let result = rdns::query::parse_q_response_type(data);
    assert_eq!(QuestionResponseType::QM, result);
}

#[test]
fn parse_query_reads_qu_bit_from_class_field() {
    // One question, QCLASS field 0x8001: QU requested, class IN.
    let data = [1u8, 97, 0, 0, 12, 128, 1];
    let mut store = Vec::new();
    let q = rdns::query::parse_query(&mut store, 0, &data).unwrap();
    assert_eq!(QuestionResponseType::QU, q.q_response_type);
    assert_eq!(QClass::Class(Class::IN), q.q_class);
    assert_eq!(QType::Type(Type::PTR), q.q_type);
    assert_eq!("a.", q.name);
    assert_eq!(7, q.size());
}
