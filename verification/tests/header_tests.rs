//! The header decoder, bit by bit.

use rdns::header::{
    parse_header_authoritative_answer, parse_header_op_code, parse_header_r_code,
    parse_header_recursion_desired, parse_header_truncated, AuthoritativeAnswer, OperationCode,
    RecursionDesired, ResponseCode, Truncation, RA,
};

#[test]
fn parse_header_op_code_query() {
    let data = [0, 0, 0b00000000, 0, 0, 0, 0, 0, 0, 0, 0, 0];
    let op_code = parse_header_op_code(data);
    assert_eq!(OperationCode::Query, op_code);
}

#[test]
fn parse_header_op_code_inverse_query() {
    let data = [0, 0, 0b00001000, 0, 0, 0, 0, 0, 0, 0, 0, 0];
    let op_code = parse_header_op_code(data);
    assert_eq!(OperationCode::InverseQuery, op_code);
}

#[test]
fn parse_header_op_code_status() {
    let data = [0, 0, 0b00010000, 0, 0, 0, 0, 0, 0, 0, 0, 0];
    let op_code = parse_header_op_code(data);
    assert_eq!(OperationCode::Status, op_code);
}

#[test]
fn parse_header_op_code_other() {
    let data = [0, 0, 0b00101000, 0, 0, 0, 0, 0, 0, 0, 0, 0];
    let op_code = parse_header_op_code(data);
    assert_eq!(OperationCode::Other, op_code);
}

#[test]
fn parse_header_authoritative_answer_is_authoritative() {
    let data = [0, 0, 0b00000000, 0, 0, 0, 0, 0, 0, 0, 0, 0];
    let authoritative_answer = parse_header_authoritative_answer(data);
    assert_eq!(AuthoritativeAnswer::NotAuthoritative, authoritative_answer);
}

#[test]
fn parse_header_authoritative_answer_is_not_authoritative() {
    let data = [0, 0, 0b00000100, 0, 0, 0, 0, 0, 0, 0, 0, 0];
    let authoritative_answer = parse_header_authoritative_answer(data);
    assert_eq!(AuthoritativeAnswer::Authoritative, authoritative_answer);
}

#[test]
fn parse_header_truncation_not_truncated() {
    let data = [0, 0, 0b00000000, 0, 0, 0, 0, 0, 0, 0, 0, 0];
    let truncated = parse_header_truncated(data);
    assert_eq!(Truncation::NotTruncated, truncated);
}

#[test]
fn parse_header_truncation_is_truncated() {
    let data = [0, 0, 0b00000010, 0, 0, 0, 0, 0, 0, 0, 0, 0];
    let truncated = parse_header_truncated(data);
    assert_eq!(Truncation::Truncated, truncated);
}

#[test]
fn parse_header_recursion_is_desired() {
    let data = [0, 0, 0b00000001, 0, 0, 0, 0, 0, 0, 0, 0, 0];
    let recursion_desired = parse_header_recursion_desired(data);
    assert_eq!(RecursionDesired::RecursionDesired, recursion_desired);
}

#[test]
fn parse_header_recursion_is_not_desired() {
    let data = [0, 0, 0b00000000, 0, 0, 0, 0, 0, 0, 0, 0, 0];
    let recursion_desired = parse_header_recursion_desired(data);
    assert_eq!(RecursionDesired::RecursionNotDesired, recursion_desired);
}

#[test]
fn parse_header_recursion_available() {
    let data = [0, 0, 0, 0b10000000, 0, 0, 0, 0, 0, 0, 0, 0];
    let recursion_available = rdns::header::parse_header_recursion_available(data);
    assert_eq!(RA::RecursionAvailable, recursion_available);
}

#[test]
fn parse_header_recursion_not_available() {
    let data = [0, 0, 0, 0b00000000, 0, 0, 0, 0, 0, 0, 0, 0];
    let recursion_available = rdns::header::parse_header_recursion_available(data);
    assert_eq!(RA::RecursionNotAvailable, recursion_available);
}

#[test]
fn parse_header_z() {
    let data = [0, 0, 0, 0b01010000, 0, 0, 0, 0, 0, 0, 0, 0];
    let z = rdns::header::parse_header_z(data);
    assert_eq!(5, z);
}

#[test]
fn parse_header_r_code_t_no_error() {
    let data = [0, 0, 0, 0b00000000, 0, 0, 0, 0, 0, 0, 0, 0];
    let r_code = parse_header_r_code(data);
    assert_eq!(ResponseCode::NoError, r_code);
}

#[test]
fn parse_header_r_code_t_format_error() {
    let data = [0, 0, 0, 0b00000001, 0, 0, 0, 0, 0, 0, 0, 0];
    let r_code = parse_header_r_code(data);
    assert_eq!(ResponseCode::FormatError, r_code);
}

#[test]
fn parse_header_r_code_t_server_failure() {
    let data = [0, 0, 0, 0b00000010, 0, 0, 0, 0, 0, 0, 0, 0];
    let r_code = parse_header_r_code(data);
    assert_eq!(ResponseCode::ServerFailure, r_code);
}

#[test]
fn parse_header_r_code_t_name_error() {
    let data = [0, 0, 0, 0b00000011, 0, 0, 0, 0, 0, 0, 0, 0];
    let r_code = parse_header_r_code(data);
    assert_eq!(ResponseCode::NameError, r_code);
}

#[test]
fn parse_header_r_code_t_not_implemented() {
    let data = [0, 0, 0, 0b00000100, 0, 0, 0, 0, 0, 0, 0, 0];
    let r_code = parse_header_r_code(data);
    assert_eq!(ResponseCode::NotImplemented, r_code);
}

#[test]
fn parse_header_r_code_t_refused() {
    let data = [0, 0, 0, 0b00000101, 0, 0, 0, 0, 0, 0, 0, 0];
    let r_code = parse_header_r_code(data);
    assert_eq!(ResponseCode::Refused, r_code);
}

#[test]
fn parse_header_r_code_t_other() {
    let data = [0, 0, 0, 0b00001010, 0, 0, 0, 0, 0, 0, 0, 0];
    let r_code = parse_header_r_code(data);
    assert_eq!(ResponseCode::Other, r_code);
}

#[test]
fn parse_header_qd_count() {
    let data = [0, 0, 0, 0, 1, 1, 0, 0, 0, 0, 0, 0];
    let qd_count = rdns::header::parse_header_qd_count(data);
    assert_eq!(257, qd_count);
}

#[test]
fn parse_header_an_count() {
    let data = [0, 0, 0, 0, 0, 0, 1, 1, 0, 0, 0, 0];
    let an_count = rdns::header::parse_header_an_count(data);
    assert_eq!(257, an_count);
}

#[test]
fn parse_header_ns_count() {
    let data = [0, 0, 0, 0, 0, 0, 0, 0, 1, 1, 0, 0];
    let an_count = rdns::header::parse_header_ns_count(data);
    assert_eq!(257, an_count);
}

#[test]
fn parse_header_ar_count() {
    let data = [0, 0, 0, 0, 0, 0, 0, 0, 0, 0, 1, 1];
    let an_count = rdns::header::parse_header_ar_count(data);
    assert_eq!(257, an_count);
}
