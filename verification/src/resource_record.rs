//! Resource records: the TYPE tags, the per-type RDATA decoders, and the
//! record decoder that drives them.

use vstd::prelude::*;
use vstd::slice::slice_to_vec;
use crate::shared::{
    lemma_parse_name_size, name_to_string, parse_name, resolve_name, spec_be16, spec_class,
    spec_labels_size, spec_name_chars, spec_no_embedded_zero, spec_parse_name, spec_resolve_name,
    spec_wf_labels, Class, Label, LabelV, ParseError, Section,
};

verus! {

/// The TYPE of a resource record; every tag this parser does not model by
/// name is kept numerically.
#[derive(Clone, Copy, Debug, PartialEq, Eq, Structural)]
pub enum ResourceRecordType {
    A,
    AAAA,
    CNAME,
    TXT,
    MX,
    NS,
    PTR,
    SOA,
    OPT,
    SRV,
    NSEC,
    Other(u16),
}

/// A domain name inside a record's RDATA: its resolved label octet runs and
/// their dotted rendering.
#[derive(Debug, PartialEq, Eq)]
pub struct Name {
    pub labels: Vec<Vec<u8>>,
    pub name: String,
}

/// The mathematical shadow of `Name`.
pub struct NameV {
    pub labels: Seq<Seq<u8>>,
    pub name: Seq<char>,
}

impl View for Name {
    type V = NameV;

    open spec fn view(&self) -> NameV {
        NameV { labels: self.labels.deep_view(), name: self.name@ }
    }
}

impl DeepView for Name {
    type V = NameV;

    open spec fn deep_view(&self) -> NameV {
        self.view()
    }
}

/// The body of an SRV record: three counters and the target name.
#[derive(Debug, PartialEq, Eq)]
pub struct SRV {
    pub priority: u16,
    pub weight: u16,
    pub port: u16,
    pub target: Name,
}

/// The mathematical shadow of `SRV`.
pub struct SRVV {
    pub priority: u16,
    pub weight: u16,
    pub port: u16,
    pub target: NameV,
}

/// The body of an SOA record.
#[derive(Debug, PartialEq, Eq)]
pub struct SOA {
    pub mname: Name,
    pub rname: Name,
    pub serial: u32,
    pub refresh: u32,
    pub retry: u32,
    pub expire: u32,
    pub minimum: u32,
}

/// The mathematical shadow of `SOA`.
pub struct SOAV {
    pub mname: NameV,
    pub rname: NameV,
    pub serial: u32,
    pub refresh: u32,
    pub retry: u32,
    pub expire: u32,
    pub minimum: u32,
}

/// The body of an MX record.
#[derive(Debug, PartialEq, Eq)]
pub struct MX {
    pub preference: u16,
    pub exchange: Name,
}

/// The mathematical shadow of `MX`.
pub struct MXV {
    pub preference: u16,
    pub exchange: NameV,
}

/// One EDNS option of an OPT record, kept opaque.
#[derive(Debug, PartialEq, Eq)]
pub struct OptOption {
    pub code: u16,
    pub data: Vec<u8>,
}

/// The mathematical shadow of `OptOption`.
pub struct OptOptionV {
    pub code: u16,
    pub data: Seq<u8>,
}

impl View for OptOption {
    type V = OptOptionV;

    open spec fn view(&self) -> OptOptionV {
        OptOptionV { code: self.code, data: self.data@ }
    }
}

impl DeepView for OptOption {
    type V = OptOptionV;

    open spec fn deep_view(&self) -> OptOptionV {
        self.view()
    }
}

/// The body of an NSEC record: the next domain name and its type bit-map.
#[derive(Debug, PartialEq, Eq)]
pub struct NSEC {
    pub next: Name,
    pub bitmap: Vec<u8>,
}

/// The mathematical shadow of `NSEC`.
pub struct NSECV {
    pub next: NameV,
    pub bitmap: Seq<u8>,
}

/// A record's TYPE-discriminated payload. Addresses are plain octets and
/// groups; names are resolved; TXT keeps its character-strings; OPT keeps
/// its options; every unmodelled TYPE keeps its bytes verbatim.
#[derive(Debug, PartialEq, Eq)]
pub enum ResourceRecordData {
    A([u8; 4]),
    AAAA([u16; 8]),
    CNAME(Name),
    NS(Name),
    PTR(Name),
    TXT(Vec<Vec<u8>>),
    SRV(SRV),
    SOA(SOA),
    MX(MX),
    OPT(Vec<OptOption>),
    NSEC(NSEC),
    Other(Vec<u8>),
}

/// The mathematical shadow of `ResourceRecordData`.
pub enum ResourceRecordDataV {
    A(Seq<u8>),
    AAAA(Seq<u16>),
    CNAME(NameV),
    NS(NameV),
    PTR(NameV),
    TXT(Seq<Seq<u8>>),
    SRV(SRVV),
    SOA(SOAV),
    MX(MXV),
    OPT(Seq<OptOptionV>),
    NSEC(NSECV),
    Other(Seq<u8>),
}

impl View for ResourceRecordData {
    type V = ResourceRecordDataV;

    open spec fn view(&self) -> ResourceRecordDataV {
        match self {
            ResourceRecordData::A(octets) => ResourceRecordDataV::A(octets@),
            ResourceRecordData::AAAA(groups) => ResourceRecordDataV::AAAA(groups@),
            ResourceRecordData::CNAME(n) => ResourceRecordDataV::CNAME(n@),
            ResourceRecordData::NS(n) => ResourceRecordDataV::NS(n@),
            ResourceRecordData::PTR(n) => ResourceRecordDataV::PTR(n@),
            ResourceRecordData::TXT(strings) => ResourceRecordDataV::TXT(strings.deep_view()),
            ResourceRecordData::SRV(srv) => ResourceRecordDataV::SRV(
                SRVV {
                    priority: srv.priority,
                    weight: srv.weight,
                    port: srv.port,
                    target: srv.target@,
                },
            ),
            ResourceRecordData::SOA(soa) => ResourceRecordDataV::SOA(
                SOAV {
                    mname: soa.mname@,
                    rname: soa.rname@,
                    serial: soa.serial,
                    refresh: soa.refresh,
                    retry: soa.retry,
                    expire: soa.expire,
                    minimum: soa.minimum,
                },
            ),
            ResourceRecordData::MX(mx) => ResourceRecordDataV::MX(
                MXV { preference: mx.preference, exchange: mx.exchange@ },
            ),
            ResourceRecordData::OPT(options) => ResourceRecordDataV::OPT(options.deep_view()),
            ResourceRecordData::NSEC(nsec) => ResourceRecordDataV::NSEC(
                NSECV { next: nsec.next@, bitmap: nsec.bitmap@ },
            ),
            ResourceRecordData::Other(bytes) => ResourceRecordDataV::Other(bytes@),
        }
    }
}

/// A decoded resource record: the raw labels of its name with their offsets,
/// the resolved name, the tag fields with the mDNS cache-flush bit split off
/// the class (whose raw value is kept whole for OPT records), and the typed
/// RDATA.
#[derive(Debug, PartialEq, Eq)]
pub struct ResourceRecord {
    pub values: Vec<Label>,
    pub name: String,
    pub resource_record_type: ResourceRecordType,
    pub class: Class,
    pub cache_flush: bool,
    pub class_value: u16,
    pub ttl: u32,
    pub resource_record_data_length: u16,
    pub resource_record_data: ResourceRecordData,
}

/// The mathematical shadow of `ResourceRecord`.
pub struct ResourceRecordV {
    pub values: Seq<LabelV>,
    pub name: Seq<char>,
    pub resource_record_type: ResourceRecordType,
    pub class: Class,
    pub cache_flush: bool,
    pub class_value: u16,
    pub ttl: u32,
    pub resource_record_data_length: u16,
    pub resource_record_data: ResourceRecordDataV,
}

impl View for ResourceRecord {
    type V = ResourceRecordV;

    open spec fn view(&self) -> ResourceRecordV {
        ResourceRecordV {
            values: self.values.deep_view(),
            name: self.name@,
            resource_record_type: self.resource_record_type,
            class: self.class,
            cache_flush: self.cache_flush,
            class_value: self.class_value,
            ttl: self.ttl,
            resource_record_data_length: self.resource_record_data_length,
            resource_record_data: self.resource_record_data@,
        }
    }
}

impl DeepView for ResourceRecord {
    type V = ResourceRecordV;

    open spec fn deep_view(&self) -> ResourceRecordV {
        self.view()
    }
}

/// The 32-bit big-endian value of four bytes.
pub open spec fn spec_be32(b0: u8, b1: u8, b2: u8, b3: u8) -> int {
    b0 * 0x1000000 + b1 * 0x10000 + b2 * 0x100 + b3
}

/// The record TYPE denoted by a 16-bit big-endian value.
pub open spec fn spec_rr_type(n: int) -> ResourceRecordType {
    if n == 1 {
        ResourceRecordType::A
    } else if n == 2 {
        ResourceRecordType::NS
    } else if n == 5 {
        ResourceRecordType::CNAME
    } else if n == 6 {
        ResourceRecordType::SOA
    } else if n == 12 {
        ResourceRecordType::PTR
    } else if n == 15 {
        ResourceRecordType::MX
    } else if n == 16 {
        ResourceRecordType::TXT
    } else if n == 28 {
        ResourceRecordType::AAAA
    } else if n == 33 {
        ResourceRecordType::SRV
    } else if n == 41 {
        ResourceRecordType::OPT
    } else if n == 47 {
        ResourceRecordType::NSEC
    } else {
        ResourceRecordType::Other(n as u16)
    }
}

/// `e` with the `Truncated` section replaced by `s`; every other error is
/// kept as it stands.
pub open spec fn spec_with_section(e: ParseError, s: Section) -> ParseError {
    match e {
        ParseError::Truncated { section: _, need, have } => ParseError::Truncated {
            section: s,
            need,
            have,
        },
        other => other,
    }
}

/// Replaces the `Truncated` section of an error.
pub fn with_section(e: ParseError, s: Section) -> (r: ParseError)
    ensures
        r == spec_with_section(e, s),
{
    match e {
        ParseError::Truncated { section: _, need, have } => ParseError::Truncated {
            section: s,
            need,
            have,
        },
        other => other,
    }
}

/// The character-strings of a TXT body between `pos` and `end`: repeated
/// length-prefixed runs that must tile the region exactly. `start` is where
/// the body began, for error accounting.
pub open spec fn spec_parse_char_strings(d: Seq<u8>, start: int, pos: int, end: int) -> Result<
    Seq<Seq<u8>>,
    ParseError,
>
    decreases end - pos,
{
    if pos >= end {
        Ok(Seq::empty())
    } else {
        let len = d[pos];
        if pos + 1 + len > end {
            Err(ParseError::RDataLengthMismatch {
                rr_type: 16,
                declared: (end - start) as u16,
                actual: (pos + 1 + len - start) as usize,
            })
        } else {
            match spec_parse_char_strings(d, start, pos + 1 + len, end) {
                Ok(rest) => Ok(seq![d.subrange(pos + 1, pos + 1 + len)] + rest),
                Err(e) => Err(e),
            }
        }
    }
}

/// The options of an OPT body between `pos` and `end`: repeated
/// code/length/bytes triples that must tile the region exactly.
pub open spec fn spec_parse_opt_options(d: Seq<u8>, start: int, pos: int, end: int) -> Result<
    Seq<OptOptionV>,
    ParseError,
>
    decreases end - pos,
{
    if pos >= end {
        Ok(Seq::empty())
    } else if pos + 4 > end {
        Err(ParseError::RDataLengthMismatch {
            rr_type: 41,
            declared: (end - start) as u16,
            actual: (pos + 4 - start) as usize,
        })
    } else {
        let olen = spec_be16(d[pos + 2], d[pos + 3]);
        if pos + 4 + olen > end {
            Err(ParseError::RDataLengthMismatch {
                rr_type: 41,
                declared: (end - start) as u16,
                actual: (pos + 4 + olen - start) as usize,
            })
        } else {
            match spec_parse_opt_options(d, start, pos + 4 + olen, end) {
                Ok(rest) => Ok(
                    seq![
                        OptOptionV {
                            code: spec_be16(d[pos], d[pos + 1]) as u16,
                            data: d.subrange(pos + 4, pos + 4 + olen),
                        },
                    ] + rest,
                ),
                Err(e) => Err(e),
            }
        }
    }
}

/// The RDATA of a record whose TYPE value is `tn`, read from the `rdlen`
/// bytes at `start`. A and AAAA demand their exact fixed sizes; name-typed
/// bodies must occupy exactly `rdlen` wire bytes (an NSEC next-name at most
/// that many); TXT and OPT bodies must tile the region exactly; every other
/// TYPE keeps its bytes verbatim.
pub open spec fn spec_parse_rdata(d: Seq<u8>, start: int, rdlen: int, tn: int) -> Result<
    ResourceRecordDataV,
    ParseError,
> {
    match spec_rr_type(tn) {
        ResourceRecordType::A => {
            if rdlen != 4 {
                Err(ParseError::BadFixedRData { rr_type: 1, need: 4, have: rdlen as usize })
            } else {
                Ok(ResourceRecordDataV::A(d.subrange(start, start + 4)))
            }
        },
        ResourceRecordType::AAAA => {
            if rdlen != 16 {
                Err(ParseError::BadFixedRData { rr_type: 28, need: 16, have: rdlen as usize })
            } else {
                Ok(
                    ResourceRecordDataV::AAAA(
                        seq![
                            spec_be16(d[start], d[start + 1]) as u16,
                            spec_be16(d[start + 2], d[start + 3]) as u16,
                            spec_be16(d[start + 4], d[start + 5]) as u16,
                            spec_be16(d[start + 6], d[start + 7]) as u16,
                            spec_be16(d[start + 8], d[start + 9]) as u16,
                            spec_be16(d[start + 10], d[start + 11]) as u16,
                            spec_be16(d[start + 12], d[start + 13]) as u16,
                            spec_be16(d[start + 14], d[start + 15]) as u16,
                        ],
                    ),
                )
            }
        },
        ResourceRecordType::CNAME => match spec_resolve_name(d, start) {
            Err(e) => Err(e),
            Ok((labels, wire)) => {
                if wire != rdlen {
                    Err(ParseError::RDataLengthMismatch {
                        rr_type: 5,
                        declared: rdlen as u16,
                        actual: wire as usize,
                    })
                } else {
                    Ok(
                        ResourceRecordDataV::CNAME(
                            NameV { labels, name: spec_name_chars(labels) },
                        ),
                    )
                }
            },
        },
        ResourceRecordType::NS => match spec_resolve_name(d, start) {
            Err(e) => Err(e),
            Ok((labels, wire)) => {
                if wire != rdlen {
                    Err(ParseError::RDataLengthMismatch {
                        rr_type: 2,
                        declared: rdlen as u16,
                        actual: wire as usize,
                    })
                } else {
                    Ok(ResourceRecordDataV::NS(NameV { labels, name: spec_name_chars(labels) }))
                }
            },
        },
        ResourceRecordType::PTR => match spec_resolve_name(d, start) {
            Err(e) => Err(e),
            Ok((labels, wire)) => {
                if wire != rdlen {
                    Err(ParseError::RDataLengthMismatch {
                        rr_type: 12,
                        declared: rdlen as u16,
                        actual: wire as usize,
                    })
                } else {
                    Ok(ResourceRecordDataV::PTR(NameV { labels, name: spec_name_chars(labels) }))
                }
            },
        },
        ResourceRecordType::TXT => match spec_parse_char_strings(d, start, start, start + rdlen) {
            Err(e) => Err(e),
            Ok(strings) => Ok(ResourceRecordDataV::TXT(strings)),
        },
        ResourceRecordType::SRV => {
            if rdlen < 6 {
                Err(ParseError::BadFixedRData { rr_type: 33, need: 6, have: rdlen as usize })
            } else {
                match spec_resolve_name(d, start + 6) {
                    Err(e) => Err(e),
                    Ok((labels, wire)) => {
                        if wire + 6 != rdlen {
                            Err(ParseError::RDataLengthMismatch {
                                rr_type: 33,
                                declared: rdlen as u16,
                                actual: (wire + 6) as usize,
                            })
                        } else {
                            Ok(
                                ResourceRecordDataV::SRV(
                                    SRVV {
                                        priority: spec_be16(d[start], d[start + 1]) as u16,
                                        weight: spec_be16(d[start + 2], d[start + 3]) as u16,
                                        port: spec_be16(d[start + 4], d[start + 5]) as u16,
                                        target: NameV { labels, name: spec_name_chars(labels) },
                                    },
                                ),
                            )
                        }
                    },
                }
            }
        },
        ResourceRecordType::SOA => match spec_resolve_name(d, start) {
            Err(e) => Err(e),
            Ok((ml, w1)) => {
                if w1 > rdlen {
                    Err(ParseError::RDataLengthMismatch {
                        rr_type: 6,
                        declared: rdlen as u16,
                        actual: w1 as usize,
                    })
                } else {
                    match spec_resolve_name(d, start + w1) {
                        Err(e) => Err(e),
                        Ok((rl, w2)) => {
                            if w1 + w2 + 20 != rdlen {
                                Err(ParseError::RDataLengthMismatch {
                                    rr_type: 6,
                                    declared: rdlen as u16,
                                    actual: (w1 + w2 + 20) as usize,
                                })
                            } else {
                                let f = start + w1 + w2;
                                Ok(
                                    ResourceRecordDataV::SOA(
                                        SOAV {
                                            mname: NameV { labels: ml, name: spec_name_chars(ml) },
                                            rname: NameV { labels: rl, name: spec_name_chars(rl) },
                                            serial: spec_be32(
                                                d[f],
                                                d[f + 1],
                                                d[f + 2],
                                                d[f + 3],
                                            ) as u32,
                                            refresh: spec_be32(
                                                d[f + 4],
                                                d[f + 5],
                                                d[f + 6],
                                                d[f + 7],
                                            ) as u32,
                                            retry: spec_be32(
                                                d[f + 8],
                                                d[f + 9],
                                                d[f + 10],
                                                d[f + 11],
                                            ) as u32,
                                            expire: spec_be32(
                                                d[f + 12],
                                                d[f + 13],
                                                d[f + 14],
                                                d[f + 15],
                                            ) as u32,
                                            minimum: spec_be32(
                                                d[f + 16],
                                                d[f + 17],
                                                d[f + 18],
                                                d[f + 19],
                                            ) as u32,
                                        },
                                    ),
                                )
                            }
                        },
                    }
                }
            },
        },
        ResourceRecordType::MX => {
            if rdlen < 2 {
                Err(ParseError::BadFixedRData { rr_type: 15, need: 2, have: rdlen as usize })
            } else {
                match spec_resolve_name(d, start + 2) {
                    Err(e) => Err(e),
                    Ok((labels, wire)) => {
                        if wire + 2 != rdlen {
                            Err(ParseError::RDataLengthMismatch {
                                rr_type: 15,
                                declared: rdlen as u16,
                                actual: (wire + 2) as usize,
                            })
                        } else {
                            Ok(
                                ResourceRecordDataV::MX(
                                    MXV {
                                        preference: spec_be16(d[start], d[start + 1]) as u16,
                                        exchange: NameV { labels, name: spec_name_chars(labels) },
                                    },
                                ),
                            )
                        }
                    },
                }
            }
        },
        ResourceRecordType::OPT => match spec_parse_opt_options(d, start, start, start + rdlen) {
            Err(e) => Err(e),
            Ok(options) => Ok(ResourceRecordDataV::OPT(options)),
        },
        ResourceRecordType::NSEC => match spec_resolve_name(d, start) {
            Err(e) => Err(e),
            Ok((labels, wire)) => {
                if wire > rdlen {
                    Err(ParseError::RDataLengthMismatch {
                        rr_type: 47,
                        declared: rdlen as u16,
                        actual: wire as usize,
                    })
                } else {
                    Ok(
                        ResourceRecordDataV::NSEC(
                            NSECV {
                                next: NameV { labels, name: spec_name_chars(labels) },
                                bitmap: d.subrange(start + wire, start + rdlen),
                            },
                        ),
                    )
                }
            },
        },
        ResourceRecordType::Other(_) => Ok(
            ResourceRecordDataV::Other(d.subrange(start, start + rdlen)),
        ),
    }
}

/// An RDATA-result seen through the mathematical shadow.
pub open spec fn rdata_res_view(r: Result<ResourceRecordData, ParseError>) -> Result<
    ResourceRecordDataV,
    ParseError,
> {
    match r {
        Ok(x) => Ok(x@),
        Err(e) => Err(e),
    }
}

/// Decodes a two-byte big-endian record TYPE.
pub fn parse_resource_record_type(data: [u8; 2]) -> (r: ResourceRecordType)
    ensures
        r == spec_rr_type(spec_be16(data@[0], data@[1])),
{
    let n: u16 = data[0] as u16 * 256 + data[1] as u16;
    match n {
        1 => ResourceRecordType::A,
        2 => ResourceRecordType::NS,
        5 => ResourceRecordType::CNAME,
        6 => ResourceRecordType::SOA,
        12 => ResourceRecordType::PTR,
        15 => ResourceRecordType::MX,
        16 => ResourceRecordType::TXT,
        28 => ResourceRecordType::AAAA,
        33 => ResourceRecordType::SRV,
        41 => ResourceRecordType::OPT,
        47 => ResourceRecordType::NSEC,
        _ => ResourceRecordType::Other(n),
    }
}

/// Decodes a four-byte big-endian TTL.
pub fn parse_ttl(data: [u8; 4]) -> (r: u32)
    ensures
        r == spec_be32(data@[0], data@[1], data@[2], data@[3]),
{
    data[0] as u32 * 0x1000000 + data[1] as u32 * 0x10000 + data[2] as u32 * 0x100 + data[3] as u32
}

/// Decodes a two-byte big-endian RDLENGTH.
pub fn parse_resource_data_length(data: [u8; 2]) -> (r: u16)
    ensures
        r == spec_be16(data@[0], data@[1]),
{
    data[0] as u16 * 256 + data[1] as u16
}

/// Decodes an A body: exactly four address octets.
fn parse_resource_record_data_ip_a(offset: usize, resource_data_length: u16, data: &[u8]) -> (r:
    Result<ResourceRecordData, ParseError>)
    requires
        data@.len() <= 0xffff,
        offset + resource_data_length <= data@.len(),
    ensures
        rdata_res_view(r) == spec_parse_rdata(
            data@,
            offset as int,
            resource_data_length as int,
            1,
        ),
{
    if resource_data_length != 4 {
        return Err(
            ParseError::BadFixedRData {
                rr_type: 1,
                need: 4,
                have: resource_data_length as usize,
            },
        );
    }
    let octets: [u8; 4] = [data[offset], data[offset + 1], data[offset + 2], data[offset + 3]];
    proof {
        assert(octets@ =~= data@.subrange(offset as int, offset + 4));
    }
    Ok(ResourceRecordData::A(octets))
}

/// Decodes an AAAA body: exactly sixteen octets, as eight big-endian groups.
fn parse_resource_record_data_ip_aaaa(offset: usize, resource_data_length: u16, data: &[u8]) -> (r:
    Result<ResourceRecordData, ParseError>)
    requires
        data@.len() <= 0xffff,
        offset + resource_data_length <= data@.len(),
    ensures
        rdata_res_view(r) == spec_parse_rdata(
            data@,
            offset as int,
            resource_data_length as int,
            28,
        ),
{
    if resource_data_length != 16 {
        return Err(
            ParseError::BadFixedRData {
                rr_type: 28,
                need: 16,
                have: resource_data_length as usize,
            },
        );
    }
    let groups: [u16; 8] = [
        data[offset] as u16 * 256 + data[offset + 1] as u16,
        data[offset + 2] as u16 * 256 + data[offset + 3] as u16,
        data[offset + 4] as u16 * 256 + data[offset + 5] as u16,
        data[offset + 6] as u16 * 256 + data[offset + 7] as u16,
        data[offset + 8] as u16 * 256 + data[offset + 9] as u16,
        data[offset + 10] as u16 * 256 + data[offset + 11] as u16,
        data[offset + 12] as u16 * 256 + data[offset + 13] as u16,
        data[offset + 14] as u16 * 256 + data[offset + 15] as u16,
    ];
    proof {
        assert(groups@ =~= spec_parse_rdata(
            data@,
            offset as int,
            resource_data_length as int,
            28,
        )->Ok_0->AAAA_0);
    }
    Ok(ResourceRecordData::AAAA(groups))
}

/// Decodes a name-typed body (NS, CNAME or PTR, by `type_value`): one
/// compressed name that must occupy exactly the declared length on the wire.
fn parse_resource_record_data_name(
    type_value: u16,
    offset: usize,
    resource_data_length: u16,
    data: &[u8],
) -> (r: Result<ResourceRecordData, ParseError>)
    requires
        data@.len() <= 0xffff,
        offset + resource_data_length <= data@.len(),
        type_value == 2 || type_value == 5 || type_value == 12,
    ensures
        rdata_res_view(r) == spec_parse_rdata(
            data@,
            offset as int,
            resource_data_length as int,
            type_value as int,
        ),
{
    match resolve_name(offset, data) {
        Err(e) => Err(e),
        Ok((labels, wire)) => {
            if wire != resource_data_length as usize {
                return Err(
                    ParseError::RDataLengthMismatch {
                        rr_type: type_value,
                        declared: resource_data_length,
                        actual: wire,
                    },
                );
            }
            let name = name_to_string(&labels);
            let nm = Name { labels, name };
            if type_value == 2 {
                Ok(ResourceRecordData::NS(nm))
            } else if type_value == 5 {
                Ok(ResourceRecordData::CNAME(nm))
            } else {
                Ok(ResourceRecordData::PTR(nm))
            }
        },
    }
}

/// `r` with the character-strings of `pre` put back in front of a successful
/// tail.
pub open spec fn prepend_strings(pre: Seq<Seq<u8>>, r: Result<Seq<Seq<u8>>, ParseError>) -> Result<
    Seq<Seq<u8>>,
    ParseError,
> {
    match r {
        Ok(rest) => Ok(pre + rest),
        Err(e) => Err(e),
    }
}

/// Decodes a TXT body: character-strings tiling the region exactly.
#[verifier::loop_isolation(false)]
fn parse_resource_record_data_txt(offset: usize, resource_data_length: u16, data: &[u8]) -> (r:
    Result<ResourceRecordData, ParseError>)
    requires
        data@.len() <= 0xffff,
        offset + resource_data_length <= data@.len(),
    ensures
        rdata_res_view(r) == spec_parse_rdata(
            data@,
            offset as int,
            resource_data_length as int,
            16,
        ),
{
    let ghost d = data@;
    let end: usize = offset + resource_data_length as usize;
    let mut strings: Vec<Vec<u8>> = Vec::new();
    let mut pos: usize = offset;
    proof {
        assert(strings.deep_view() =~= Seq::<Seq<u8>>::empty());
        assert(Seq::<Seq<u8>>::empty() + spec_parse_char_strings(
            d,
            offset as int,
            offset as int,
            end as int,
        )->Ok_0 =~= spec_parse_char_strings(d, offset as int, offset as int, end as int)->Ok_0);
    }
    loop
        invariant
            offset <= pos <= end,
            spec_parse_char_strings(d, offset as int, offset as int, end as int)
                == prepend_strings(
                strings.deep_view(),
                spec_parse_char_strings(d, offset as int, pos as int, end as int),
            ),
        decreases end - pos,
    {
        if pos >= end {
            proof {
                assert(strings.deep_view() + Seq::<Seq<u8>>::empty() =~= strings.deep_view());
            }
            return Ok(ResourceRecordData::TXT(strings));
        }
        let len = data[pos];
        if pos + 1 + len as usize > end {
            return Err(
                ParseError::RDataLengthMismatch {
                    rr_type: 16,
                    declared: resource_data_length,
                    actual: pos + 1 + len as usize - offset,
                },
            );
        }
        let piece = slice_to_vec(&data[pos + 1..pos + 1 + len as usize]);
        let ghost prev = strings.deep_view();
        strings.push(piece);
        proof {
            let chunk = d.subrange(pos + 1, pos + 1 + len);
            assert(strings.deep_view() =~~= prev + seq![chunk]);
            let rest_r = spec_parse_char_strings(d, offset as int, pos + 1 + len, end as int);
            match rest_r {
                Ok(rest) => {
                    assert(prev + (seq![chunk] + rest) =~= (prev + seq![chunk]) + rest);
                },
                Err(_) => {},
            }
        }
        pos = pos + 1 + len as usize;
    }
}

/// `r` with the options of `pre` put back in front of a successful tail.
pub open spec fn prepend_options(
    pre: Seq<OptOptionV>,
    r: Result<Seq<OptOptionV>, ParseError>,
) -> Result<Seq<OptOptionV>, ParseError> {
    match r {
        Ok(rest) => Ok(pre + rest),
        Err(e) => Err(e),
    }
}

/// Decodes an OPT body: code/length/bytes options tiling the region exactly.
#[verifier::loop_isolation(false)]
fn parse_resource_record_data_opt(offset: usize, resource_data_length: u16, data: &[u8]) -> (r:
    Result<ResourceRecordData, ParseError>)
    requires
        data@.len() <= 0xffff,
        offset + resource_data_length <= data@.len(),
    ensures
        rdata_res_view(r) == spec_parse_rdata(
            data@,
            offset as int,
            resource_data_length as int,
            41,
        ),
{
    let ghost d = data@;
    let end: usize = offset + resource_data_length as usize;
    let mut options: Vec<OptOption> = Vec::new();
    let mut pos: usize = offset;
    proof {
        assert(options.deep_view() =~= Seq::<OptOptionV>::empty());
        assert(Seq::<OptOptionV>::empty() + spec_parse_opt_options(
            d,
            offset as int,
            offset as int,
            end as int,
        )->Ok_0 =~= spec_parse_opt_options(d, offset as int, offset as int, end as int)->Ok_0);
    }
    loop
        invariant
            offset <= pos <= end,
            spec_parse_opt_options(d, offset as int, offset as int, end as int) == prepend_options(
                options.deep_view(),
                spec_parse_opt_options(d, offset as int, pos as int, end as int),
            ),
        decreases end - pos,
    {
        if pos >= end {
            proof {
                assert(options.deep_view() + Seq::<OptOptionV>::empty() =~= options.deep_view());
            }
            return Ok(ResourceRecordData::OPT(options));
        }
        if pos + 4 > end {
            return Err(
                ParseError::RDataLengthMismatch {
                    rr_type: 41,
                    declared: resource_data_length,
                    actual: pos + 4 - offset,
                },
            );
        }
        let code: u16 = data[pos] as u16 * 256 + data[pos + 1] as u16;
        let olen: u16 = data[pos + 2] as u16 * 256 + data[pos + 3] as u16;
        if pos + 4 + olen as usize > end {
            return Err(
                ParseError::RDataLengthMismatch {
                    rr_type: 41,
                    declared: resource_data_length,
                    actual: pos + 4 + olen as usize - offset,
                },
            );
        }
        let bytes = slice_to_vec(&data[pos + 4..pos + 4 + olen as usize]);
        let option = OptOption { code, data: bytes };
        let ghost ov = option@;
        let ghost prev = options.deep_view();
        options.push(option);
        proof {
            assert(options.deep_view() =~~= prev + seq![ov]);
            let rest_r = spec_parse_opt_options(d, offset as int, pos + 4 + olen, end as int);
            match rest_r {
                Ok(rest) => {
                    assert(prev + (seq![ov] + rest) =~= (prev + seq![ov]) + rest);
                },
                Err(_) => {},
            }
        }
        pos = pos + 4 + olen as usize;
    }
}

/// Decodes an SRV body: priority, weight and port, then the target name,
/// which together must occupy exactly the declared length.
fn parse_resource_record_data_srv(offset: usize, resource_data_length: u16, data: &[u8]) -> (r:
    Result<ResourceRecordData, ParseError>)
    requires
        data@.len() <= 0xffff,
        offset + resource_data_length <= data@.len(),
    ensures
        rdata_res_view(r) == spec_parse_rdata(
            data@,
            offset as int,
            resource_data_length as int,
            33,
        ),
{
    if resource_data_length < 6 {
        return Err(
            ParseError::BadFixedRData {
                rr_type: 33,
                need: 6,
                have: resource_data_length as usize,
            },
        );
    }
    match resolve_name(offset + 6, data) {
        Err(e) => Err(e),
        Ok((labels, wire)) => {
            if wire + 6 != resource_data_length as usize {
                return Err(
                    ParseError::RDataLengthMismatch {
                        rr_type: 33,
                        declared: resource_data_length,
                        actual: wire + 6,
                    },
                );
            }
            let name = name_to_string(&labels);
            Ok(
                ResourceRecordData::SRV(
                    SRV {
                        priority: data[offset] as u16 * 256 + data[offset + 1] as u16,
                        weight: data[offset + 2] as u16 * 256 + data[offset + 3] as u16,
                        port: data[offset + 4] as u16 * 256 + data[offset + 5] as u16,
                        target: Name { labels, name },
                    },
                ),
            )
        },
    }
}

/// Decodes an SOA body: two names then five 32-bit counters, which together
/// must occupy exactly the declared length.
fn parse_resource_record_data_soa(offset: usize, resource_data_length: u16, data: &[u8]) -> (r:
    Result<ResourceRecordData, ParseError>)
    requires
        data@.len() <= 0xffff,
        offset + resource_data_length <= data@.len(),
    ensures
        rdata_res_view(r) == spec_parse_rdata(
            data@,
            offset as int,
            resource_data_length as int,
            6,
        ),
{
    let rdlen = resource_data_length as usize;
    match resolve_name(offset, data) {
        Err(e) => Err(e),
        Ok((mlabels, w1)) => {
            if w1 > rdlen {
                return Err(
                    ParseError::RDataLengthMismatch {
                        rr_type: 6,
                        declared: resource_data_length,
                        actual: w1,
                    },
                );
            }
            match resolve_name(offset + w1, data) {
                Err(e) => Err(e),
                Ok((rlabels, w2)) => {
                    if w1 + w2 + 20 != rdlen {
                        return Err(
                            ParseError::RDataLengthMismatch {
                                rr_type: 6,
                                declared: resource_data_length,
                                actual: w1 + w2 + 20,
                            },
                        );
                    }
                    let f = offset + w1 + w2;
                    let mname = name_to_string(&mlabels);
                    let rname = name_to_string(&rlabels);
                    Ok(
                        ResourceRecordData::SOA(
                            SOA {
                                mname: Name { labels: mlabels, name: mname },
                                rname: Name { labels: rlabels, name: rname },
                                serial: parse_ttl([data[f], data[f + 1], data[f + 2], data[f + 3]]),
                                refresh: parse_ttl(
                                    [data[f + 4], data[f + 5], data[f + 6], data[f + 7]],
                                ),
                                retry: parse_ttl(
                                    [data[f + 8], data[f + 9], data[f + 10], data[f + 11]],
                                ),
                                expire: parse_ttl(
                                    [data[f + 12], data[f + 13], data[f + 14], data[f + 15]],
                                ),
                                minimum: parse_ttl(
                                    [data[f + 16], data[f + 17], data[f + 18], data[f + 19]],
                                ),
                            },
                        ),
                    )
                },
            }
        },
    }
}

/// Decodes an MX body: a 16-bit preference then the exchange name, which
/// together must occupy exactly the declared length.
fn parse_resource_record_data_mx(offset: usize, resource_data_length: u16, data: &[u8]) -> (r:
    Result<ResourceRecordData, ParseError>)
    requires
        data@.len() <= 0xffff,
        offset + resource_data_length <= data@.len(),
    ensures
        rdata_res_view(r) == spec_parse_rdata(
            data@,
            offset as int,
            resource_data_length as int,
            15,
        ),
{
    if resource_data_length < 2 {
        return Err(
            ParseError::BadFixedRData {
                rr_type: 15,
                need: 2,
                have: resource_data_length as usize,
            },
        );
    }
    match resolve_name(offset + 2, data) {
        Err(e) => Err(e),
        Ok((labels, wire)) => {
            if wire + 2 != resource_data_length as usize {
                return Err(
                    ParseError::RDataLengthMismatch {
                        rr_type: 15,
                        declared: resource_data_length,
                        actual: wire + 2,
                    },
                );
            }
            let name = name_to_string(&labels);
            Ok(
                ResourceRecordData::MX(
                    MX {
                        preference: data[offset] as u16 * 256 + data[offset + 1] as u16,
                        exchange: Name { labels, name },
                    },
                ),
            )
        },
    }
}

/// Decodes an NSEC body: the next domain name, then the type bit-map that
/// fills the rest of the region.
fn parse_resource_record_data_nsec(offset: usize, resource_data_length: u16, data: &[u8]) -> (r:
    Result<ResourceRecordData, ParseError>)
    requires
        data@.len() <= 0xffff,
        offset + resource_data_length <= data@.len(),
    ensures
        rdata_res_view(r) == spec_parse_rdata(
            data@,
            offset as int,
            resource_data_length as int,
            47,
        ),
{
    let rdlen = resource_data_length as usize;
    match resolve_name(offset, data) {
        Err(e) => Err(e),
        Ok((labels, wire)) => {
            if wire > rdlen {
                return Err(
                    ParseError::RDataLengthMismatch {
                        rr_type: 47,
                        declared: resource_data_length,
                        actual: wire,
                    },
                );
            }
            let bitmap = slice_to_vec(&data[offset + wire..offset + rdlen]);
            let name = name_to_string(&labels);
            Ok(ResourceRecordData::NSEC(NSEC { next: Name { labels, name }, bitmap }))
        },
    }
}

/// Decodes an unmodelled body: its bytes, verbatim.
fn parse_resource_record_data_other(
    type_value: u16,
    offset: usize,
    resource_data_length: u16,
    data: &[u8],
) -> (r: Result<ResourceRecordData, ParseError>)
    requires
        data@.len() <= 0xffff,
        offset + resource_data_length <= data@.len(),
        spec_rr_type(type_value as int) is Other,
    ensures
        rdata_res_view(r) == spec_parse_rdata(
            data@,
            offset as int,
            resource_data_length as int,
            type_value as int,
        ),
{
    Ok(ResourceRecordData::Other(slice_to_vec(&data[offset..offset + resource_data_length as usize])))
}

/// The size of a record on the wire: its name's labels, ten fixed bytes of
/// TYPE, CLASS, TTL and RDLENGTH, and its RDATA.
pub open spec fn spec_rr_size(rr: ResourceRecordV) -> int {
    spec_labels_size(rr.values) + 10 + rr.resource_record_data_length
}

/// The record starting at `off`, its truncation errors labelled with the
/// answers section; the message assembler relabels the later sections.
pub open spec fn spec_parse_rr(d: Seq<u8>, off: int) -> Result<ResourceRecordV, ParseError> {
    match spec_parse_name(d, off) {
        Err(e) => Err(spec_with_section(e, Section::Answers)),
        Ok(values) => match spec_resolve_name(d, off) {
            Err(e) => Err(spec_with_section(e, Section::Answers)),
            Ok((labels, _)) => {
                let fixed = off + spec_labels_size(values);
                if fixed + 10 > d.len() {
                    Err(ParseError::Truncated {
                        section: Section::Answers,
                        need: (fixed + 10) as usize,
                        have: d.len() as usize,
                    })
                } else {
                    let tn = spec_be16(d[fixed], d[fixed + 1]);
                    let rdlength = spec_be16(d[fixed + 8], d[fixed + 9]);
                    let start = fixed + 10;
                    if start + rdlength > d.len() {
                        Err(ParseError::Truncated {
                            section: Section::Answers,
                            need: (start + rdlength) as usize,
                            have: d.len() as usize,
                        })
                    } else {
                        match spec_parse_rdata(d, start, rdlength, tn) {
                            Err(e) => Err(spec_with_section(e, Section::Answers)),
                            Ok(rdata) => Ok(
                                ResourceRecordV {
                                    values,
                                    name: spec_name_chars(labels),
                                    resource_record_type: spec_rr_type(tn),
                                    class: spec_class(
                                        (d[fixed + 2] % 128) * 256 + d[fixed + 3],
                                    ),
                                    cache_flush: d[fixed + 2] >= 128,
                                    class_value: spec_be16(d[fixed + 2], d[fixed + 3]) as u16,
                                    ttl: spec_be32(
                                        d[fixed + 4],
                                        d[fixed + 5],
                                        d[fixed + 6],
                                        d[fixed + 7],
                                    ) as u32,
                                    resource_record_data_length: rdlength as u16,
                                    resource_record_data: rdata,
                                },
                            ),
                        }
                    }
                }
            },
        },
    }
}

/// The labels a successful record decode adds to the label store; a failed
/// one adds none.
pub open spec fn spec_rr_store_delta(d: Seq<u8>, off: int) -> Seq<LabelV> {
    match spec_parse_rr(d, off) {
        Ok(rr) => rr.values,
        Err(_) => Seq::empty(),
    }
}

/// A record-result seen through the mathematical shadow.
pub open spec fn rr_res_view(r: Result<ResourceRecord, ParseError>) -> Result<
    ResourceRecordV,
    ParseError,
> {
    match r {
        Ok(rr) => Ok(rr@),
        Err(e) => Err(e),
    }
}

/// A successfully decoded record has well-formed labels, takes at least
/// eleven bytes, and fits between its offset and the end of the datagram.
pub proof fn lemma_parse_rr_size(d: Seq<u8>, off: int)
    requires
        0 <= off,
        spec_parse_rr(d, off) is Ok,
    ensures
        spec_wf_labels(spec_parse_rr(d, off)->Ok_0.values),
        spec_no_embedded_zero(spec_parse_rr(d, off)->Ok_0.values),
        11 <= spec_rr_size(spec_parse_rr(d, off)->Ok_0),
        off + spec_rr_size(spec_parse_rr(d, off)->Ok_0) <= d.len(),
{
    lemma_parse_name_size(d, off);
}

impl ResourceRecord {
    /// The size of this record on the wire.
    pub fn size(&self) -> (r: usize)
        requires
            spec_wf_labels(self@.values),
            spec_labels_size(self@.values) <= 0xffff,
        ensures
            r == spec_rr_size(self@),
    {
        crate::shared::labels_wire_size(&self.values) + 10
            + self.resource_record_data_length as usize
    }
}

/// Decodes the RDATA of a record whose TYPE value is `type_value`, reading
/// exactly the declared region.
fn parse_resource_record_data(
    offset: usize,
    type_value: u16,
    resource_data_length: u16,
    data: &[u8],
) -> (r: Result<ResourceRecordData, ParseError>)
    requires
        data@.len() <= 0xffff,
        offset + resource_data_length <= data@.len(),
    ensures
        rdata_res_view(r) == spec_parse_rdata(
            data@,
            offset as int,
            resource_data_length as int,
            type_value as int,
        ),
{
    match type_value {
        1 => parse_resource_record_data_ip_a(offset, resource_data_length, data),
        28 => parse_resource_record_data_ip_aaaa(offset, resource_data_length, data),
        2 | 5 | 12 => parse_resource_record_data_name(
            type_value,
            offset,
            resource_data_length,
            data,
        ),
        16 => parse_resource_record_data_txt(offset, resource_data_length, data),
        33 => parse_resource_record_data_srv(offset, resource_data_length, data),
        6 => parse_resource_record_data_soa(offset, resource_data_length, data),
        15 => parse_resource_record_data_mx(offset, resource_data_length, data),
        41 => parse_resource_record_data_opt(offset, resource_data_length, data),
        47 => parse_resource_record_data_nsec(offset, resource_data_length, data),
        _ => parse_resource_record_data_other(type_value, offset, resource_data_length, data),
    }
}

/// Decodes the record at the absolute offset `offset`, pushing the raw
/// labels of its name onto the label store when it succeeds and leaving the
/// store unchanged when it fails.
#[verifier::loop_isolation(false)]
fn parse_resource_record(label_store: &mut Vec<Label>, offset: usize, data: &[u8]) -> (r: Result<
    ResourceRecord,
    ParseError,
>)
    requires
        data@.len() <= 0xffff,
        offset <= 0xffff,
    ensures
        rr_res_view(r) == spec_parse_rr(data@, offset as int),
        final(label_store).deep_view() == old(label_store).deep_view() + spec_rr_store_delta(
            data@,
            offset as int,
        ),
{
    let values = match parse_name(offset, data) {
        Ok(v) => v,
        Err(e) => {
            proof {
                assert(label_store.deep_view() + Seq::<LabelV>::empty() =~= label_store.deep_view());
            }
            return Err(with_section(e, Section::Answers));
        },
    };
    let resolved = match resolve_name(offset, data) {
        Ok(p) => p.0,
        Err(e) => {
            proof {
                assert(label_store.deep_view() + Seq::<LabelV>::empty() =~= label_store.deep_view());
            }
            return Err(with_section(e, Section::Answers));
        },
    };
    proof {
        lemma_parse_name_size(data@, offset as int);
    }
    let nsize = crate::shared::labels_wire_size(&values);
    let fixed = offset + nsize;
    if data.len() < fixed + 10 {
        proof {
            assert(label_store.deep_view() + Seq::<LabelV>::empty() =~= label_store.deep_view());
        }
        return Err(ParseError::Truncated {
            section: Section::Answers,
            need: fixed + 10,
            have: data.len(),
        });
    }
    let type_value: u16 = data[fixed] as u16 * 256 + data[fixed + 1] as u16;
    let resource_record_type = parse_resource_record_type([data[fixed], data[fixed + 1]]);
    let class_value: u16 = data[fixed + 2] as u16 * 256 + data[fixed + 3] as u16;
    let cache_flush = data[fixed + 2] >= 128;
    let class = crate::shared::parse_class([data[fixed + 2] % 128, data[fixed + 3]]);
    let ttl = parse_ttl([data[fixed + 4], data[fixed + 5], data[fixed + 6], data[fixed + 7]]);
    let resource_record_data_length = parse_resource_data_length(
        [data[fixed + 8], data[fixed + 9]],
    );
    let start = fixed + 10;
    if data.len() < start + resource_record_data_length as usize {
        proof {
            assert(label_store.deep_view() + Seq::<LabelV>::empty() =~= label_store.deep_view());
        }
        return Err(ParseError::Truncated {
            section: Section::Answers,
            need: start + resource_record_data_length as usize,
            have: data.len(),
        });
    }
    let resource_record_data = match parse_resource_record_data(
        start,
        type_value,
        resource_record_data_length,
        data,
    ) {
        Ok(x) => x,
        Err(e) => {
            proof {
                assert(label_store.deep_view() + Seq::<LabelV>::empty() =~= label_store.deep_view());
            }
            return Err(with_section(e, Section::Answers));
        },
    };
    let name = name_to_string(&resolved);
    let ghost store_before = label_store.deep_view();
    let mut i: usize = 0;
    while i < values.len()
        invariant
            i <= values@.len(),
            label_store.deep_view() == store_before + values.deep_view().take(i as int),
        decreases values@.len() - i,
    {
        let ghost prev = label_store.deep_view();
        label_store.push(values[i].duplicate());
        proof {
            assert(label_store.deep_view() =~= prev + seq![values.deep_view()[i as int]]);
            assert(store_before + values.deep_view().take(i + 1) =~= (store_before
                + values.deep_view().take(i as int)) + seq![values.deep_view()[i as int]]);
        }
        i += 1;
    }
    proof {
        assert(values.deep_view().take(values@.len() as int) =~= values.deep_view());
    }
    Ok(
        ResourceRecord {
            values,
            name,
            resource_record_type,
            class,
            cache_flush,
            class_value,
            ttl,
            resource_record_data_length,
            resource_record_data,
        },
    )
}

/// The `count` records that begin at `off`, in order, their truncation
/// errors labelled with the answers section.
pub open spec fn spec_parse_rrs(d: Seq<u8>, off: int, count: int) -> Result<
    Seq<ResourceRecordV>,
    ParseError,
>
    decreases count,
{
    if count <= 0 {
        Ok(Seq::empty())
    } else {
        match spec_parse_rr(d, off) {
            Err(e) => Err(e),
            Ok(rr) => match spec_parse_rrs(d, off + spec_rr_size(rr), count - 1) {
                Ok(rest) => Ok(seq![rr] + rest),
                Err(e) => Err(e),
            },
        }
    }
}

/// The labels that decoding `count` records at `off` adds to the label
/// store: those of every record decoded before the first failure.
pub open spec fn spec_rrs_store_delta(d: Seq<u8>, off: int, count: int) -> Seq<LabelV>
    decreases count,
{
    if count <= 0 {
        Seq::empty()
    } else {
        match spec_parse_rr(d, off) {
            Err(_) => Seq::empty(),
            Ok(rr) => rr.values + spec_rrs_store_delta(d, off + spec_rr_size(rr), count - 1),
        }
    }
}

/// A records-result seen through the mathematical shadow.
pub open spec fn rrs_res_view(r: Result<Vec<ResourceRecord>, ParseError>) -> Result<
    Seq<ResourceRecordV>,
    ParseError,
> {
    match r {
        Ok(v) => Ok(v.deep_view()),
        Err(e) => Err(e),
    }
}

/// `r` with the records of `pre` put back in front of a successful tail.
pub open spec fn prepend_rrs(
    pre: Seq<ResourceRecordV>,
    r: Result<Seq<ResourceRecordV>, ParseError>,
) -> Result<Seq<ResourceRecordV>, ParseError> {
    match r {
        Ok(rest) => Ok(pre + rest),
        Err(e) => Err(e),
    }
}

/// The summed on-wire size of a run of records.
pub open spec fn spec_rrs_wire(rs: Seq<ResourceRecordV>) -> int
    decreases rs.len(),
{
    if rs.len() == 0 {
        0
    } else {
        spec_rr_size(rs[0]) + spec_rrs_wire(rs.drop_first())
    }
}

/// The summed size of a run of records splits at any point.
pub proof fn lemma_rrs_wire_split(rs: Seq<ResourceRecordV>, i: int)
    requires
        0 <= i <= rs.len(),
    ensures
        spec_rrs_wire(rs) == spec_rrs_wire(rs.take(i)) + spec_rrs_wire(rs.skip(i)),
    decreases i,
{
    if i == 0 {
        assert(rs.take(0) =~= Seq::<ResourceRecordV>::empty());
        assert(rs.skip(0) =~= rs);
    } else {
        lemma_rrs_wire_split(rs.drop_first(), i - 1);
        assert(rs.take(i)[0] == rs[0]);
        assert(rs.take(i).drop_first() =~= rs.drop_first().take(i - 1));
        assert(rs.skip(i) =~= rs.drop_first().skip(i - 1));
    }
}

/// Extending a prefix of records by one extends its summed size by that
/// record's size.
pub proof fn lemma_rrs_wire_take_succ(rs: Seq<ResourceRecordV>, i: int)
    requires
        0 <= i < rs.len(),
    ensures
        spec_rrs_wire(rs.take(i + 1)) == spec_rrs_wire(rs.take(i)) + spec_rr_size(rs[i]),
    decreases i,
{
    if i == 0 {
        assert(rs.take(0) =~= Seq::<ResourceRecordV>::empty());
        assert(rs.take(1)[0] == rs[0]);
        assert(rs.take(1).drop_first() =~= Seq::<ResourceRecordV>::empty());
        assert(spec_rrs_wire(Seq::<ResourceRecordV>::empty()) == 0);
    } else {
        lemma_rrs_wire_take_succ(rs.drop_first(), i - 1);
        assert(rs.take(i + 1)[0] == rs[0]);
        assert(rs.take(i)[0] == rs[0]);
        assert(rs.take(i + 1).drop_first() =~= rs.drop_first().take(i));
        assert(rs.take(i).drop_first() =~= rs.drop_first().take(i - 1));
    }
}

/// A successfully decoded run of records fits between its offset and the end
/// of the datagram, and each record in it is well formed and no larger than
/// the whole run.
pub proof fn lemma_parse_rrs_props(d: Seq<u8>, off: int, n: int)
    requires
        0 <= off,
        spec_parse_rrs(d, off, n) is Ok,
    ensures
        0 <= spec_rrs_wire(spec_parse_rrs(d, off, n)->Ok_0),
        n > 0 ==> off + spec_rrs_wire(spec_parse_rrs(d, off, n)->Ok_0) <= d.len(),
        forall|i: int|
            0 <= i < spec_parse_rrs(d, off, n)->Ok_0.len() ==> {
                let rr = #[trigger] spec_parse_rrs(d, off, n)->Ok_0[i];
                &&& spec_wf_labels(rr.values)
                &&& spec_no_embedded_zero(rr.values)
                &&& 11 <= spec_rr_size(rr)
                &&& spec_rr_size(rr) <= spec_rrs_wire(spec_parse_rrs(d, off, n)->Ok_0)
            },
    decreases n,
{
    let rs = spec_parse_rrs(d, off, n)->Ok_0;
    if n <= 0 {
        assert(rs =~= Seq::<ResourceRecordV>::empty());
    } else {
        let r0 = spec_parse_rr(d, off)->Ok_0;
        lemma_parse_rr_size(d, off);
        let rest = spec_parse_rrs(d, off + spec_rr_size(r0), n - 1)->Ok_0;
        lemma_parse_rrs_props(d, off + spec_rr_size(r0), n - 1);
        assert(rs == seq![r0] + rest);
        assert(rs[0] == r0);
        assert(rs.drop_first() =~= rest);
        assert(spec_rrs_wire(rs) == spec_rr_size(r0) + spec_rrs_wire(rest));
        assert forall|i: int| 0 <= i < rs.len() implies {
            let rr = #[trigger] rs[i];
            &&& spec_wf_labels(rr.values)
            &&& spec_no_embedded_zero(rr.values)
            &&& 11 <= spec_rr_size(rr)
            &&& spec_rr_size(rr) <= spec_rrs_wire(rs)
        } by {
            if i == 0 {
                assert(rs[i] == r0);
            } else {
                assert(rs[i] == rest[i - 1]);
            }
        }
    }
}

/// The offset just past a run of decoded records that begins at `start`.
#[verifier::loop_isolation(false)]
pub fn records_end(start: usize, records: &Vec<ResourceRecord>) -> (r: usize)
    requires
        start + spec_rrs_wire(records.deep_view()) <= 0xffff,
        forall|i: int|
            0 <= i < records.deep_view().len() ==> {
                let rr = #[trigger] records.deep_view()[i];
                &&& spec_wf_labels(rr.values)
                &&& 0 <= spec_rr_size(rr)
                &&& spec_rr_size(rr) <= spec_rrs_wire(records.deep_view())
            },
    ensures
        r == start + spec_rrs_wire(records.deep_view()),
{
    let ghost rv = records.deep_view();
    let mut end: usize = start;
    let mut i: usize = 0;
    proof {
        assert(rv.take(0) =~= Seq::<ResourceRecordV>::empty());
        assert(spec_rrs_wire(Seq::<ResourceRecordV>::empty()) == 0);
    }
    while i < records.len()
        invariant
            i <= rv.len(),
            end == start + spec_rrs_wire(rv.take(i as int)),
            end <= start + spec_rrs_wire(rv),
        decreases rv.len() - i,
    {
        proof {
            assert(records@[i as int]@ == rv[i as int]);
            lemma_rrs_wire_take_succ(rv, i as int);
            lemma_rrs_wire_split(rv, i as int);
            lemma_rrs_wire_split(rv, i + 1);
            lemma_parse_rrs_nonneg_skip(rv, i + 1);
        }
        let sz = records[i].size();
        end += sz;
        i += 1;
    }
    proof {
        assert(rv.take(rv.len() as int) =~= rv);
    }
    end
}

/// The summed size of any suffix of well-formed records is not negative.
proof fn lemma_parse_rrs_nonneg_skip(rs: Seq<ResourceRecordV>, i: int)
    requires
        0 <= i <= rs.len(),
        forall|k: int| 0 <= k < rs.len() ==> 0 <= spec_rr_size(#[trigger] rs[k]),
    ensures
        0 <= spec_rrs_wire(rs.skip(i)),
    decreases rs.len() - i,
{
    if i < rs.len() {
        lemma_parse_rrs_nonneg_skip(rs, i + 1);
        assert(rs.skip(i)[0] == rs[i]);
        assert(rs.skip(i).drop_first() =~= rs.skip(i + 1));
    } else {
        assert(rs.skip(i) =~= Seq::<ResourceRecordV>::empty());
    }
}

/// Decodes `count` records starting at the absolute offset `start_offset`;
/// the raw labels of each decoded record's name are pushed onto the label
/// store. Truncation errors are labelled with the answers section; callers
/// decoding the authority or additional section relabel them.
#[verifier::loop_isolation(false)]
pub fn parse_resource_records(
    label_store: &mut Vec<Label>,
    start_offset: usize,
    count: u16,
    data: &[u8],
) -> (r: Result<Vec<ResourceRecord>, ParseError>)
    requires
        data@.len() <= 0xffff,
        start_offset <= 0xffff,
    ensures
        rrs_res_view(r) == spec_parse_rrs(data@, start_offset as int, count as int),
        final(label_store).deep_view() == old(label_store).deep_view() + spec_rrs_store_delta(
            data@,
            start_offset as int,
            count as int,
        ),
{
    let ghost d = data@;
    let ghost n = count as int;
    let ghost store0 = old(label_store).deep_view();
    let mut answers: Vec<ResourceRecord> = Vec::new();
    let mut current_offset: usize = start_offset;
    let mut k: u16 = 0;
    proof {
        assert(answers.deep_view() =~= Seq::<ResourceRecordV>::empty());
        assert(Seq::<ResourceRecordV>::empty() + spec_parse_rrs(d, start_offset as int, n)->Ok_0
            =~= spec_parse_rrs(d, start_offset as int, n)->Ok_0);
        assert(store0 + Seq::<LabelV>::empty() =~= store0);
    }
    while k < count
        invariant
            k <= count,
            current_offset <= 0xffff,
            spec_parse_rrs(d, start_offset as int, n) == prepend_rrs(
                answers.deep_view(),
                spec_parse_rrs(d, current_offset as int, n - k),
            ),
            store0 + spec_rrs_store_delta(d, start_offset as int, n) == label_store.deep_view()
                + spec_rrs_store_delta(d, current_offset as int, n - k),
        decreases n - k,
    {
        match parse_resource_record(label_store, current_offset, data) {
            Err(e) => {
                proof {
                    assert(label_store.deep_view() + Seq::<LabelV>::empty()
                        =~= label_store.deep_view());
                }
                return Err(e);
            },
            Ok(answer) => {
                proof {
                    lemma_parse_rr_size(d, current_offset as int);
                }
                let sz = answer.size();
                let ghost av = answer@;
                let ghost prev = answers.deep_view();
                current_offset += sz;
                answers.push(answer);
                proof {
                    assert(answers.deep_view() =~= prev + seq![av]);
                    let rest_r = spec_parse_rrs(d, current_offset as int, n - k - 1);
                    match rest_r {
                        Ok(rest) => {
                            assert(prev + (seq![av] + rest) =~= (prev + seq![av]) + rest);
                        },
                        Err(_) => {},
                    }
                }
                k += 1;
            },
        }
    }
    proof {
        assert(answers.deep_view() + Seq::<ResourceRecordV>::empty() =~= answers.deep_view());
        assert(label_store.deep_view() + Seq::<LabelV>::empty() =~= label_store.deep_view());
    }
    Ok(answers)
}

} // verus!
