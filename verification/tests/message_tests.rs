//! Whole-datagram scenarios: real captures, boundary cases, and every error
//! the wire format demands.

use rdns::header::{AuthoritativeAnswer, OperationCode, QueryOrResponse, ResponseCode};
use rdns::message::parse;
use rdns::query::{QClass, QType, QuestionResponseType};
use rdns::resource_record::{ResourceRecordData, ResourceRecordType};
use rdns::shared::{Class, ParseError, Section, Type};

#[test]
fn test_esp_packet() {
    let data = &[
        0, 0, 0, 0, 0, 1, 0, 0, 0, 2, 0, 2, 10, 69, 83, 80, 95, 56, 48, 57, 57, 57, 50, 8, 95,
        102, 97, 98, 114, 108, 121, 110, 4, 95, 117, 100, 112, 5, 108, 111, 99, 97, 108, 0, 0,
        255, 128, 1, 192, 48, 0, 12, 0, 1, 0, 0, 17, 148, 0, 2, 192, 79, 192, 79, 0, 33, 0, 1, 0,
        0, 17, 148, 0, 8, 0, 0, 0, 0, 19, 136, 192, 129, 192, 79, 0, 16, 0, 1, 0, 0, 17, 148, 0,
        0, 192, 129, 0, 1, 0, 1, 0, 0, 0, 120, 0, 4, 192, 168, 1, 43,
    ];

    let _result = parse(data);
}

#[test]
fn spotify_connect_query() {
    let data: Vec<u8> = vec![
        0x00, 0x00, 0x00, 0x00, 0x00, 0x01, 0x00, 0x00, 0x00, 0x00, 0x00, 0x00, 0x10, 0x5F, 0x73,
        0x70, 0x6F, 0x74, 0x69, 0x66, 0x79, 0x2D, 0x63, 0x6F, 0x6E, 0x6E, 0x65, 0x63, 0x74, 0x04,
        0x5F, 0x74, 0x63, 0x70, 0x05, 0x6C, 0x6F, 0x63, 0x61, 0x6C, 0x00, 0x00, 0x0C, 0x00, 0x01,
    ];
    let message = parse(&data).unwrap();
    assert_eq!(0, message.header.id);
    assert_eq!(QueryOrResponse::Query, message.header.query_or_response);
    assert_eq!(OperationCode::Query, message.header.operation_code);
    assert_eq!(ResponseCode::NoError, message.header.response_code);
    assert_eq!(1, message.header.question_count);
    assert_eq!(1, message.queries.len());
    let q = &message.queries[0];
    assert_eq!("_spotify-connect._tcp.local.", q.name);
    assert_eq!(QType::Type(Type::PTR), q.q_type);
    assert_eq!(QClass::Class(Class::IN), q.q_class);
    assert_eq!(QuestionResponseType::QM, q.q_response_type);
    assert_eq!(0, message.answers.len());
    assert_eq!(0, message.name_servers.len());
    assert_eq!(0, message.additional_records.len());
    // The one question accounts for every byte after the header.
    assert_eq!(data.len(), 12 + q.size());
}

#[test]
fn googlecast_unicast_query() {
    let data: Vec<u8> = vec![
        0, 0, 0, 0, 0, 1, 0, 0, 0, 0, 0, 0, 11, 95, 103, 111, 111, 103, 108, 101, 99, 97, 115,
        116, 4, 95, 116, 99, 112, 5, 108, 111, 99, 97, 108, 0, 0, 12, 128, 1,
    ];
    let message = parse(&data).unwrap();
    assert_eq!(1, message.queries.len());
    let q = &message.queries[0];
    assert_eq!("_googlecast._tcp.local.", q.name);
    assert_eq!(QType::Type(Type::PTR), q.q_type);
    assert_eq!(QClass::Class(Class::IN), q.q_class);
    assert_eq!(QuestionResponseType::QU, q.q_response_type);
}

#[test]
fn companion_link_response_cache_flush() {
    let data: Vec<u8> = vec![
        0, 0, 132, 0, 0, 0, 0, 1, 0, 0, 0, 1, 8, 77, 97, 99, 98, 111, 111, 107, 49, 15, 95, 99,
        111, 109, 112, 97, 110, 105, 111, 110, 45, 108, 105, 110, 107, 4, 95, 116, 99, 112, 5,
        108, 111, 99, 97, 108, 0, 0, 16, 128, 1, 0, 0, 17, 148, 0, 119, 17, 114, 112, 72, 78, 61,
        55, 102, 56, 55, 49, 52, 101, 98, 56, 57, 52, 55, 12, 114, 112, 70, 108, 61, 48, 120, 50,
        48, 48, 48, 48, 10, 114, 112, 86, 114, 61, 49, 57, 53, 46, 50, 17, 114, 112, 72, 65, 61,
        52, 52, 97, 102, 48, 101, 101, 102, 53, 98, 101, 54, 17, 114, 112, 65, 68, 61, 101, 101,
        55, 99, 52, 97, 101, 54, 56, 48, 54, 54, 17, 114, 112, 72, 73, 61, 52, 54, 53, 97, 55, 51,
        101, 99, 53, 53, 54, 51, 22, 114, 112, 66, 65, 61, 66, 55, 58, 48, 70, 58, 65, 65, 58, 57,
        67, 58, 55, 57, 58, 68, 54, 192, 12, 0, 47, 128, 1, 0, 0, 17, 148, 0, 9, 192, 12, 0, 5, 0,
        0, 128, 0, 64,
    ];
    let message = parse(&data).unwrap();
    assert_eq!(QueryOrResponse::Response, message.header.query_or_response);
    assert_eq!(
        AuthoritativeAnswer::Authoritative,
        message.header.authoritative_answer
    );
    assert_eq!(1, message.answers.len());
    assert_eq!(1, message.additional_records.len());

    let answer = &message.answers[0];
    assert_eq!("Macbook1._companion-link._tcp.local.", answer.name);
    assert_eq!(ResourceRecordType::TXT, answer.resource_record_type);
    assert!(answer.cache_flush);
    assert_eq!(Class::IN, answer.class);
    assert_eq!(4500, answer.ttl);
    assert_eq!(119, answer.resource_record_data_length);
    match &answer.resource_record_data {
        ResourceRecordData::TXT(strings) => {
            assert_eq!(7, strings.len());
            assert_eq!(b"rpHN=7f8714eb8947".to_vec(), strings[0]);
            assert_eq!(b"rpFl=0x20000".to_vec(), strings[1]);
            assert_eq!(b"rpVr=195.2".to_vec(), strings[2]);
            assert_eq!(b"rpBA=B7:0F:AA:9C:79:D6".to_vec(), strings[6]);
        }
        other => panic!("not TXT: {:?}", other),
    }

    let additional = &message.additional_records[0];
    assert_eq!("Macbook1._companion-link._tcp.local.", additional.name);
    assert_eq!(ResourceRecordType::NSEC, additional.resource_record_type);
    assert!(additional.cache_flush);
    match &additional.resource_record_data {
        ResourceRecordData::NSEC(nsec) => {
            assert_eq!("Macbook1._companion-link._tcp.local.", nsec.next.name);
            assert_eq!(vec![0u8, 5, 0, 0, 128, 0, 64], nsec.bitmap);
        }
        other => panic!("not NSEC: {:?}", other),
    }
}

#[test]
fn pointer_loop_rejected() {
    // A question name that is a pointer to its own offset.
    let data: Vec<u8> = vec![
        0, 0, 0, 0, 0, 1, 0, 0, 0, 0, 0, 0, 0xC0, 0x0C, 0x00, 0x01, 0x00, 0x01,
    ];
    match parse(&data) {
        Err(ParseError::BadPointer { from: 12, to: 12 }) => {}
        other => panic!("unexpected: {:?}", other),
    }
}

#[test]
fn pointer_revisit_rejected() {
    // A name whose trailing pointer leads back to its own start, so that the
    // second pass revisits offset 12.
    let data: Vec<u8> = vec![
        0, 0, 0, 0, 0, 1, 0, 0, 0, 0, 0, 0, 1, 97, 0xC0, 0x0C, 0, 1, 0, 1,
    ];
    match parse(&data) {
        Err(ParseError::PointerLoop { offset: 12 }) => {}
        other => panic!("unexpected: {:?}", other),
    }
}

#[test]
fn short_header_eight_zero_bytes() {
    let data = [0u8; 8];
    assert_eq!(Err(ParseError::ShortHeader), parse(&data));
}

#[test]
fn short_header_any_length_under_twelve() {
    let data = [0u8; 12];
    for n in 0..12 {
        assert_eq!(Err(ParseError::ShortHeader), parse(&data[..n]));
    }
    assert!(parse(&data[..12]).is_ok());
}

#[test]
fn header_only_datagram_parses_empty() {
    let data = [0u8; 12];
    let message = parse(&data).unwrap();
    assert_eq!(0, message.queries.len());
    assert_eq!(0, message.answers.len());
    assert_eq!(0, message.name_servers.len());
    assert_eq!(0, message.additional_records.len());
}

#[test]
fn largest_datagram_parses() {
    // The largest accepted datagram: header-only, padded with trailing bytes,
    // which the assembler must tolerate.
    let data = vec![0u8; 65535];
    assert!(parse(&data).is_ok());
}

#[test]
fn qdcount_without_question_bytes_truncated() {
    let data: Vec<u8> = vec![0, 0, 0, 0, 0, 1, 0, 0, 0, 0, 0, 0];
    match parse(&data) {
        Err(ParseError::Truncated { section: Section::Questions, need: 13, have: 12 }) => {}
        other => panic!("unexpected: {:?}", other),
    }
}

#[test]
fn overflowing_rdlength_truncated() {
    // AN=1; a root-named A record declares ten RDATA bytes but only four
    // remain.
    let data: Vec<u8> = vec![
        0, 0, 0, 0, 0, 0, 0, 1, 0, 0, 0, 0, 0, 0, 1, 0, 1, 0, 0, 0, 120, 0, 10, 192, 168, 1, 1,
    ];
    match parse(&data) {
        Err(ParseError::Truncated { section: Section::Answers, need: 33, have: 27 }) => {}
        other => panic!("unexpected: {:?}", other),
    }
}

#[test]
fn a_record_wrong_size_bad_fixed_rdata() {
    let data: Vec<u8> = vec![
        0, 0, 0, 0, 0, 0, 0, 1, 0, 0, 0, 0, 0, 0, 1, 0, 1, 0, 0, 0, 120, 0, 5, 192, 168, 1, 1, 9,
    ];
    match parse(&data) {
        Err(ParseError::BadFixedRData { rr_type: 1, need: 4, have: 5 }) => {}
        other => panic!("unexpected: {:?}", other),
    }
}

#[test]
fn ptr_rdata_wrong_wire_size_mismatch() {
    // A PTR body whose name occupies three bytes under an RDLENGTH of four.
    let data: Vec<u8> = vec![
        0, 0, 0, 0, 0, 0, 0, 1, 0, 0, 0, 0, 0, 0, 12, 0, 1, 0, 0, 0, 120, 0, 4, 1, 97, 0, 0,
    ];
    match parse(&data) {
        Err(ParseError::RDataLengthMismatch { rr_type: 12, declared: 4, actual: 3 }) => {}
        other => panic!("unexpected: {:?}", other),
    }
}

#[test]
fn reserved_label_bits_rejected() {
    let data: Vec<u8> = vec![0, 0, 0, 0, 0, 1, 0, 0, 0, 0, 0, 0, 0b01000001, 97, 0, 0, 1, 0, 1];
    match parse(&data) {
        Err(ParseError::ReservedLabelType { offset: 12, tag: 1 }) => {}
        other => panic!("unexpected: {:?}", other),
    }
}

#[test]
fn embedded_zero_in_label_rejected() {
    let data: Vec<u8> = vec![0, 0, 0, 0, 0, 1, 0, 0, 0, 0, 0, 0, 3, 97, 0, 99, 0, 0, 1, 0, 1];
    match parse(&data) {
        Err(ParseError::EmbeddedZero { offset: 12 }) => {}
        other => panic!("unexpected: {:?}", other),
    }
}

#[test]
fn name_too_long_rejected() {
    // Five 63-octet labels resolve past the 255-octet cap.
    let mut data: Vec<u8> = vec![0, 0, 0, 0, 0, 1, 0, 0, 0, 0, 0, 0];
    for _ in 0..5 {
        data.push(63);
        for _ in 0..63 {
            data.push(120);
        }
    }
    data.push(0);
    data.extend_from_slice(&[0, 1, 0, 1]);
    match parse(&data) {
        Err(ParseError::NameTooLong { .. }) => {}
        other => panic!("unexpected: {:?}", other),
    }
}

#[test]
fn ptr_rdata_compressed_into_question() {
    // AN=1 answer whose PTR body is a single pointer into the question name.
    let data: Vec<u8> = vec![
        0, 0, 0, 0, 0, 1, 0, 1, 0, 0, 0, 0, // header
        1, 97, 0, 0, 12, 0, 1, // question "a." PTR IN
        0xC0, 0x0C, 0, 12, 128, 1, 0, 0, 0, 120, 0, 2, 0xC0, 0x0C,
    ];
    let message = parse(&data).unwrap();
    assert_eq!("a.", message.queries[0].name);
    let answer = &message.answers[0];
    assert_eq!("a.", answer.name);
    assert!(answer.cache_flush);
    match &answer.resource_record_data {
        ResourceRecordData::PTR(name) => {
            assert_eq!("a.", name.name);
            assert_eq!(vec![vec![97u8]], name.labels);
        }
        other => panic!("not PTR: {:?}", other),
    }
}

#[test]
fn name_terminated_by_pointer_to_offset_12() {
    // QD=2: the second question's name ends with a pointer to offset 12,
    // where the first question's name begins.
    let data: Vec<u8> = vec![
        0, 0, 0, 0, 0, 2, 0, 0, 0, 0, 0, 0, // header
        1, 97, 0, 0, 12, 0, 1, // "a." PTR IN
        1, 98, 0xC0, 0x0C, 0, 12, 0, 1, // "b." + pointer to 12
    ];
    let message = parse(&data).unwrap();
    assert_eq!(2, message.queries.len());
    assert_eq!("a.", message.queries[0].name);
    assert_eq!("b.a.", message.queries[1].name);
}

#[test]
fn txt_rdlength_zero_and_max_string() {
    // One TXT answer with no character-strings, one with a single 255-byte
    // character-string.
    let mut data: Vec<u8> = vec![
        0, 0, 0, 0, 0, 0, 0, 2, 0, 0, 0, 0, // header, AN=2
        0, 0, 16, 0, 1, 0, 0, 0, 120, 0, 0, // root TXT, RDLENGTH 0
        0, 0, 16, 0, 1, 0, 0, 0, 120, 1, 0, // root TXT, RDLENGTH 256
    ];
    data.push(255);
    for _ in 0..255 {
        data.push(120);
    }
    let message = parse(&data).unwrap();
    match &message.answers[0].resource_record_data {
        ResourceRecordData::TXT(strings) => assert_eq!(0, strings.len()),
        other => panic!("not TXT: {:?}", other),
    }
    match &message.answers[1].resource_record_data {
        ResourceRecordData::TXT(strings) => {
            assert_eq!(1, strings.len());
            assert_eq!(255, strings[0].len());
        }
        other => panic!("not TXT: {:?}", other),
    }
}

#[test]
fn opt_record_in_additional() {
    let data: Vec<u8> = vec![
        0, 0, 0, 0, 0, 0, 0, 0, 0, 0, 0, 1, // header, AR=1
        0, 0, 41, 5, 160, 0, 0, 17, 148, 0, 18, // root, OPT, payload 1440
        0, 4, 0, 14, 0, 105, 118, 66, 139, 236, 153, 136, 116, 66, 139, 236, 153, 136,
    ];
    let message = parse(&data).unwrap();
    let record = &message.additional_records[0];
    assert_eq!(ResourceRecordType::OPT, record.resource_record_type);
    assert_eq!(1440, record.class_value);
    match &record.resource_record_data {
        ResourceRecordData::OPT(options) => {
            assert_eq!(1, options.len());
            assert_eq!(4, options[0].code);
            assert_eq!(14, options[0].data.len());
        }
        other => panic!("not OPT: {:?}", other),
    }
}

#[test]
fn srv_record_with_target_name() {
    // "a." SRV with RDLENGTH 10: priority 0, weight 0, port 5000, then the
    // target name "b" closed by a pointer to offset 12.
    let data: Vec<u8> = vec![
        0, 0, 0, 0, 0, 0, 0, 1, 0, 0, 0, 0, 1, 97, 0, 0, 33, 0, 1, 0, 0, 0, 120, 0, 10, 0, 0, 0,
        0, 19, 136, 1, 98, 0xC0, 0x0C,
    ];
    let message = parse(&data).unwrap();
    match &message.answers[0].resource_record_data {
        ResourceRecordData::SRV(srv) => {
            assert_eq!(0, srv.priority);
            assert_eq!(0, srv.weight);
            assert_eq!(5000, srv.port);
            assert_eq!("b.a.", srv.target.name);
        }
        other => panic!("not SRV: {:?}", other),
    }
}

#[test]
fn aaaa_record_groups() {
    let data: Vec<u8> = vec![
        0, 0, 0, 0, 0, 0, 0, 1, 0, 0, 0, 0, 0, 0, 28, 0, 1, 0, 0, 0, 120, 0, 16, 0xFE, 0x80, 0,
        0, 0, 0, 0, 0, 0, 0, 0, 0, 0, 0, 0, 1,
    ];
    let message = parse(&data).unwrap();
    match &message.answers[0].resource_record_data {
        ResourceRecordData::AAAA(groups) => {
            assert_eq!([0xFE80u16, 0, 0, 0, 0, 0, 0, 1], *groups);
        }
        other => panic!("not AAAA: {:?}", other),
    }
}

#[test]
fn parse_is_deterministic() {
    let data: Vec<u8> = vec![
        0, 0, 0, 0, 0, 1, 0, 0, 0, 0, 0, 0, 1, 97, 0, 0, 12, 0, 1,
    ];
    let first = parse(&data);
    let second = parse(&data);
    assert_eq!(first, second);
}

#[test]
fn summarize_collects_queries_and_a_records() {
    let data: Vec<u8> = vec![
        0, 0, 0, 0, 0, 1, 0, 1, 0, 0, 0, 0, // header QD=1 AN=1
        1, 97, 0, 0, 1, 0, 1, // question "a." A IN
        0xC0, 0x0C, 0, 1, 128, 1, 0, 0, 0, 120, 0, 4, 192, 168, 1, 137,
    ];
    let message = parse(&data).unwrap();
    let summary = rdns::publisher::summarize(&message);
    assert_eq!(vec!["a.".to_owned()], summary.queries);
    assert_eq!(vec!["192.168.1.137".to_owned()], summary.answer.ip_v4);
    assert_eq!(Vec::<String>::new(), summary.additional.ip_v4);
    assert_eq!(message.header, summary.header);
}

#[test]
fn google_home_response_parses() {
    // A real 383-byte response: one PTR answer and three additional records
    // (TXT, SRV and A), all names compressed.
    let data: Vec<u8> = vec![
        0, 2, 132, 0, 0, 0, 0, 1, 0, 0, 0, 3, 11, 95, 103, 111, 111, 103, 108, 101, 99, 97, 115, 116, 4, 95, 116, 99, 112, 5, 108, 111, 99, 97, 108, 0, 0, 12, 0, 1, 0, 0, 0, 120, 0, 52, 49, 71, 111, 111, 103, 108, 101, 45, 72, 111, 109, 101, 45, 77, 105, 110, 105, 45, 101, 48, 55, 49, 57, 101, 101, 53, 100, 55, 102, 56, 57, 98, 102, 100, 57, 101, 97, 55, 52, 52, 53, 97, 55, 49, 48, 48, 53, 55, 53, 50, 192, 12, 192, 46, 0, 16, 128, 1, 0, 0, 17, 148, 0, 200, 35, 105, 100, 61, 101, 48, 55, 49, 57, 101, 101, 53, 100, 55, 102, 56, 57, 98, 102, 100, 57, 101, 97, 55, 52, 52, 53, 97, 55, 49, 48, 48, 53, 55, 53, 50, 35, 99, 100, 61, 69, 48, 48, 53, 52, 69, 50, 53, 48, 68, 54, 67, 68, 49, 52, 56, 55, 56, 67, 57, 51, 67, 67, 49, 70, 55, 65, 67, 54, 52, 55, 68, 19, 114, 109, 61, 52, 49, 55, 55, 50, 65, 55, 66, 56, 56, 54, 51, 70, 66, 48, 69, 5, 118, 101, 61, 48, 53, 19, 109, 100, 61, 71, 111, 111, 103, 108, 101, 32, 72, 111, 109, 101, 32, 77, 105, 110, 105, 18, 105, 99, 61, 47, 115, 101, 116, 117, 112, 47, 105, 99, 111, 110, 46, 112, 110, 103, 22, 102, 110, 61, 76, 105, 118, 105, 110, 103, 32, 82, 111, 111, 109, 32, 115, 112, 101, 97, 107, 101, 114, 9, 99, 97, 61, 49, 57, 56, 54, 54, 48, 4, 115, 116, 61, 48, 15, 98, 115, 61, 70, 65, 56, 70, 67, 65, 57, 68, 66, 67, 69, 70, 4, 110, 102, 61, 49, 3, 114, 115, 61, 192, 46, 0, 33, 128, 1, 0, 0, 0, 120, 0, 45, 0, 0, 0, 0, 31, 73, 36, 101, 48, 55, 49, 57, 101, 101, 53, 45, 100, 55, 102, 56, 45, 57, 98, 102, 100, 45, 57, 101, 97, 55, 45, 52, 52, 53, 97, 55, 49, 48, 48, 53, 55, 53, 50, 192, 29, 193, 72, 0, 1, 128, 1, 0, 0, 0, 120, 0, 4, 192, 168, 1, 137,
    ];
    let message = parse(&data).unwrap();
    assert_eq!(1, message.answers.len());
    assert_eq!(3, message.additional_records.len());
    assert_eq!("_googlecast._tcp.local.", message.answers[0].name);
    assert_eq!(
        ResourceRecordType::PTR,
        message.answers[0].resource_record_type
    );
    match &message.additional_records[2].resource_record_data {
        ResourceRecordData::A(octets) => assert_eq!([192, 168, 1, 137], *octets),
        other => panic!("not A: {:?}", other),
    }
    let summary = rdns::publisher::summarize(&message);
    assert_eq!(vec!["192.168.1.137".to_owned()], summary.additional.ip_v4);
}
