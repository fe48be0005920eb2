//! The fixed 12-byte message header: identifier, flag word and the four
//! section counts.

use vstd::prelude::*;
use crate::shared::ParseError;

verus! {

/// The header occupies the first 12 bytes of every datagram.
pub const HEADER_SIZE: usize = 12;

/// The raw bytes of a header.
pub type RawHeader = [u8; 12];

/// The 16-bit message identifier.
pub type MessageId = u16;

/// The RCODE field: the low four bits of the fourth header byte.
#[derive(Clone, Copy, Debug, PartialEq, Eq, Structural)]
pub enum ResponseCode {
    NoError,
    FormatError,
    ServerFailure,
    NameError,
    NotImplemented,
    Refused,
    Other,
}

/// The RD bit.
#[derive(Clone, Copy, Debug, PartialEq, Eq, Structural)]
pub enum RecursionDesired {
    RecursionDesired,
    RecursionNotDesired,
}

/// The QR bit.
#[derive(Clone, Copy, Debug, PartialEq, Eq, Structural)]
pub enum QueryOrResponse {
    Query,
    Response,
}

/// The RA bit.
#[derive(Clone, Copy, Debug, PartialEq, Eq, Structural)]
pub enum RA {
    RecursionAvailable,
    RecursionNotAvailable,
}

/// The TC bit.
#[derive(Clone, Copy, Debug, PartialEq, Eq, Structural)]
pub enum Truncation {
    NotTruncated,
    Truncated,
}

/// The AA bit.
#[derive(Clone, Copy, Debug, PartialEq, Eq, Structural)]
pub enum AuthoritativeAnswer {
    NotAuthoritative,
    Authoritative,
}

/// The four-bit opcode; values above 2 are kept as `Other` beside their
/// numeric value in the header.
#[derive(Clone, Copy, Debug, PartialEq, Eq, Structural)]
pub enum OperationCode {
    Query,
    InverseQuery,
    Status,
    Other,
}

/// A decoded header: every flag split out, the reserved Z bits and the raw
/// opcode and RCODE values preserved, and the four section counts.
#[derive(Clone, Copy, Debug, PartialEq, Eq, Structural)]
pub struct Header {
    pub id: MessageId,
    pub query_or_response: QueryOrResponse,
    pub operation_code: OperationCode,
    pub operation_code_value: u8,
    pub authoritative_answer: AuthoritativeAnswer,
    pub truncation: Truncation,
    pub recursion_desired: RecursionDesired,
    pub recursion_available: RA,
    pub z: u8,
    pub response_code: ResponseCode,
    pub response_code_value: u8,
    pub question_count: u16,
    pub answer_count: u16,
    pub name_server_count: u16,
    pub additional_count: u16,
}

/// The opcode named by its four-bit value.
pub open spec fn spec_operation_code(n: u8) -> OperationCode {
    if n == 0 {
        OperationCode::Query
    } else if n == 1 {
        OperationCode::InverseQuery
    } else if n == 2 {
        OperationCode::Status
    } else {
        OperationCode::Other
    }
}

/// The RCODE named by its four-bit value.
pub open spec fn spec_response_code(n: u8) -> ResponseCode {
    if n == 0 {
        ResponseCode::NoError
    } else if n == 1 {
        ResponseCode::FormatError
    } else if n == 2 {
        ResponseCode::ServerFailure
    } else if n == 3 {
        ResponseCode::NameError
    } else if n == 4 {
        ResponseCode::NotImplemented
    } else if n == 5 {
        ResponseCode::Refused
    } else {
        ResponseCode::Other
    }
}

/// The header denoted by the first 12 bytes of `d`. The flag word lives in
/// bytes 2 and 3: QR is bit 7 of byte 2, the opcode bits 3 to 6, AA bit 2,
/// TC bit 1, RD bit 0; RA is bit 7 of byte 3, Z bits 4 to 6 and RCODE the
/// low four bits. All counts are big-endian.
pub open spec fn spec_header(d: Seq<u8>) -> Header {
    Header {
        id: (d[0] * 256 + d[1]) as u16,
        query_or_response: if d[2] / 128 == 1 {
            QueryOrResponse::Response
        } else {
            QueryOrResponse::Query
        },
        operation_code: spec_operation_code((d[2] / 8) % 16),
        operation_code_value: ((d[2] / 8) % 16) as u8,
        authoritative_answer: if (d[2] / 4) % 2 == 1 {
            AuthoritativeAnswer::Authoritative
        } else {
            AuthoritativeAnswer::NotAuthoritative
        },
        truncation: if (d[2] / 2) % 2 == 1 {
            Truncation::Truncated
        } else {
            Truncation::NotTruncated
        },
        recursion_desired: if d[2] % 2 == 1 {
            RecursionDesired::RecursionDesired
        } else {
            RecursionDesired::RecursionNotDesired
        },
        recursion_available: if d[3] / 128 == 1 {
            RA::RecursionAvailable
        } else {
            RA::RecursionNotAvailable
        },
        z: ((d[3] / 16) % 8) as u8,
        response_code: spec_response_code(d[3] % 16),
        response_code_value: (d[3] % 16) as u8,
        question_count: (d[4] * 256 + d[5]) as u16,
        answer_count: (d[6] * 256 + d[7]) as u16,
        name_server_count: (d[8] * 256 + d[9]) as u16,
        additional_count: (d[10] * 256 + d[11]) as u16,
    }
}

/// The result of decoding a datagram's header: the header for 12 or more
/// bytes, `ShortHeader` otherwise.
pub open spec fn spec_parse_header(d: Seq<u8>) -> Result<Header, ParseError> {
    if d.len() < 12 {
        Err(ParseError::ShortHeader)
    } else {
        Ok(spec_header(d))
    }
}

/// The message identifier: bytes 0 and 1, big-endian.
pub fn parse_header_message_id(header: RawHeader) -> (r: MessageId)
    ensures
        r == spec_header(header@).id,
{
    header[0] as u16 * 256 + header[1] as u16
}

/// The QR bit: the high bit of byte 2.
pub fn parse_header_query_or_response(header: RawHeader) -> (r: QueryOrResponse)
    ensures
        r == spec_header(header@).query_or_response,
{
    if header[2] / 128 == 1 {
        QueryOrResponse::Response
    } else {
        QueryOrResponse::Query
    }
}

/// The opcode: bits 3 to 6 of byte 2, values 0 to 2 named.
pub fn parse_header_op_code(header: RawHeader) -> (r: OperationCode)
    ensures
        r == spec_header(header@).operation_code,
{
    let op_code = (header[2] / 8) % 16;
    match op_code {
        0 => OperationCode::Query,
        1 => OperationCode::InverseQuery,
        2 => OperationCode::Status,
        _ => OperationCode::Other,
    }
}

/// The opcode's raw four-bit value.
pub fn parse_header_op_code_value(header: RawHeader) -> (r: u8)
    ensures
        r == spec_header(header@).operation_code_value,
{
    (header[2] / 8) % 16
}

/// The AA bit: bit 2 of byte 2.
pub fn parse_header_authoritative_answer(header: RawHeader) -> (r: AuthoritativeAnswer)
    ensures
        r == spec_header(header@).authoritative_answer,
{
    if (header[2] / 4) % 2 == 1 {
        AuthoritativeAnswer::Authoritative
    } else {
        AuthoritativeAnswer::NotAuthoritative
    }
}

/// The TC bit: bit 1 of byte 2.
pub fn parse_header_truncated(header: RawHeader) -> (r: Truncation)
    ensures
        r == spec_header(header@).truncation,
{
    if (header[2] / 2) % 2 == 1 {
        Truncation::Truncated
    } else {
        Truncation::NotTruncated
    }
}

/// The RD bit: bit 0 of byte 2.
pub fn parse_header_recursion_desired(header: RawHeader) -> (r: RecursionDesired)
    ensures
        r == spec_header(header@).recursion_desired,
{
    if header[2] % 2 == 1 {
        RecursionDesired::RecursionDesired
    } else {
        RecursionDesired::RecursionNotDesired
    }
}

/// The RA bit: the high bit of byte 3.
pub fn parse_header_recursion_available(header: RawHeader) -> (r: RA)
    ensures
        r == spec_header(header@).recursion_available,
{
    if header[3] / 128 == 1 {
        RA::RecursionAvailable
    } else {
        RA::RecursionNotAvailable
    }
}

/// The three reserved Z bits: bits 4 to 6 of byte 3.
pub fn parse_header_z(header: RawHeader) -> (r: u8)
    ensures
        r == spec_header(header@).z,
{
    (header[3] / 16) % 8
}

/// The RCODE: the low four bits of byte 3, values 0 to 5 named.
pub fn parse_header_r_code(header: RawHeader) -> (r: ResponseCode)
    ensures
        r == spec_header(header@).response_code,
{
    let r_code = header[3] % 16;
    match r_code {
        0 => ResponseCode::NoError,
        1 => ResponseCode::FormatError,
        2 => ResponseCode::ServerFailure,
        3 => ResponseCode::NameError,
        4 => ResponseCode::NotImplemented,
        5 => ResponseCode::Refused,
        _ => ResponseCode::Other,
    }
}

/// The RCODE's raw four-bit value.
pub fn parse_header_response_code_value(header: RawHeader) -> (r: u8)
    ensures
        r == spec_header(header@).response_code_value,
{
    header[3] % 16
}

/// QDCOUNT: bytes 4 and 5, big-endian.
pub fn parse_header_qd_count(header: RawHeader) -> (r: u16)
    ensures
        r == spec_header(header@).question_count,
{
    header[4] as u16 * 256 + header[5] as u16
}

/// ANCOUNT: bytes 6 and 7, big-endian.
pub fn parse_header_an_count(header: RawHeader) -> (r: u16)
    ensures
        r == spec_header(header@).answer_count,
{
    header[6] as u16 * 256 + header[7] as u16
}

/// NSCOUNT: bytes 8 and 9, big-endian.
pub fn parse_header_ns_count(header: RawHeader) -> (r: u16)
    ensures
        r == spec_header(header@).name_server_count,
{
    header[8] as u16 * 256 + header[9] as u16
}

/// ARCOUNT: bytes 10 and 11, big-endian.
pub fn parse_header_ar_count(header: RawHeader) -> (r: u16)
    ensures
        r == spec_header(header@).additional_count,
{
    header[10] as u16 * 256 + header[11] as u16
}

/// Decodes the fixed header from the front of a datagram. Exactly the
/// datagrams shorter than 12 bytes are rejected, with `ShortHeader`.
pub fn parse_header(data: &[u8]) -> (r: Result<Header, ParseError>)
    ensures
        r == spec_parse_header(data@),
{
    if data.len() < HEADER_SIZE {
        return Err(ParseError::ShortHeader);
    }
    let header: RawHeader = [
        data[0],
        data[1],
        data[2],
        data[3],
        data[4],
        data[5],
        data[6],
        data[7],
        data[8],
        data[9],
        data[10],
        data[11],
    ];
    proof {
        assert forall|k: int| 0 <= k < 12 implies header@[k] == data@[k] by {}
        assert(spec_header(header@) == spec_header(data@));
    }
    Ok(
        Header {
            id: parse_header_message_id(header),
            query_or_response: parse_header_query_or_response(header),
            operation_code: parse_header_op_code(header),
            operation_code_value: parse_header_op_code_value(header),
            authoritative_answer: parse_header_authoritative_answer(header),
            truncation: parse_header_truncated(header),
            recursion_desired: parse_header_recursion_desired(header),
            recursion_available: parse_header_recursion_available(header),
            z: parse_header_z(header),
            response_code: parse_header_r_code(header),
            response_code_value: parse_header_response_code_value(header),
            question_count: parse_header_qd_count(header),
            answer_count: parse_header_an_count(header),
            name_server_count: parse_header_ns_count(header),
            additional_count: parse_header_ar_count(header),
        },
    )
}

} // verus!
