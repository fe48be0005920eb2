//! The message assembler: header first, then the four sections in order,
//! each advancing the cursor by the sizes of the items it decoded.

use vstd::prelude::*;
use crate::header::{parse_header, spec_header, Header};
use crate::query::{
    lemma_parse_queries_props, parse_queries, queries_end, spec_parse_queries, spec_queries_wire,
    Query, QueryV,
};
use crate::resource_record::{
    lemma_parse_rrs_props, parse_resource_records, records_end, spec_parse_rrs, spec_rrs_wire,
    spec_with_section, with_section, ResourceRecord, ResourceRecordV,
};
use crate::shared::{spec_parse_name, Label, ParseError, Section};

verus! {

/// A fully decoded message: the header and the four sections, whose lengths
/// equal the counts the header declares.
#[derive(Debug, PartialEq, Eq)]
pub struct Message {
    pub header: Header,
    pub queries: Vec<Query>,
    pub answers: Vec<ResourceRecord>,
    pub name_servers: Vec<ResourceRecord>,
    pub additional_records: Vec<ResourceRecord>,
}

/// The mathematical shadow of `Message`.
pub struct MessageV {
    pub header: Header,
    pub queries: Seq<QueryV>,
    pub answers: Seq<ResourceRecordV>,
    pub name_servers: Seq<ResourceRecordV>,
    pub additional_records: Seq<ResourceRecordV>,
}

impl View for Message {
    type V = MessageV;

    open spec fn view(&self) -> MessageV {
        MessageV {
            header: self.header,
            queries: self.queries.deep_view(),
            answers: self.answers.deep_view(),
            name_servers: self.name_servers.deep_view(),
            additional_records: self.additional_records.deep_view(),
        }
    }
}

/// `r` with the `Truncated` section of its error replaced by `s`.
pub open spec fn spec_err_section<T>(r: Result<T, ParseError>, s: Section) -> Result<
    T,
    ParseError,
> {
    match r {
        Ok(x) => Ok(x),
        Err(e) => Err(spec_with_section(e, s)),
    }
}

/// The message a whole datagram denotes: fewer than 12 bytes fail with
/// `ShortHeader`; then the declared numbers of questions, answers, authority
/// records and additional records follow in order, each section starting
/// where the previous one ended. Trailing bytes after the last section are
/// permitted. Truncation errors carry the section in which they arose.
pub open spec fn spec_parse_message(d: Seq<u8>) -> Result<MessageV, ParseError> {
    if d.len() < 12 {
        Err(ParseError::ShortHeader)
    } else {
        let header = spec_header(d);
        match spec_parse_queries(d, 12, header.question_count as int) {
            Err(e) => Err(e),
            Ok(queries) => {
                let qend = 12 + spec_queries_wire(queries);
                match spec_parse_rrs(d, qend, header.answer_count as int) {
                    Err(e) => Err(e),
                    Ok(answers) => {
                        let aend = qend + spec_rrs_wire(answers);
                        match spec_err_section(
                            spec_parse_rrs(d, aend, header.name_server_count as int),
                            Section::Authority,
                        ) {
                            Err(e) => Err(e),
                            Ok(name_servers) => {
                                let nend = aend + spec_rrs_wire(name_servers);
                                match spec_err_section(
                                    spec_parse_rrs(d, nend, header.additional_count as int),
                                    Section::Additional,
                                ) {
                                    Err(e) => Err(e),
                                    Ok(additional_records) => Ok(
                                        MessageV {
                                            header,
                                            queries,
                                            answers,
                                            name_servers,
                                            additional_records,
                                        },
                                    ),
                                }
                            },
                        }
                    },
                }
            },
        }
    }
}

/// A message-result seen through the mathematical shadow.
pub open spec fn message_res_view(r: Result<Message, ParseError>) -> Result<
    MessageV,
    ParseError,
> {
    match r {
        Ok(m) => Ok(m@),
        Err(e) => Err(e),
    }
}

/// Law: every datagram of fewer than 12 bytes fails with `ShortHeader`, and
/// every datagram of 12 or more bytes fails some other way or not at all.
pub proof fn lemma_short_datagram_short_header(d: Seq<u8>)
    ensures
        d.len() < 12 <==> spec_parse_message(d) == Err::<MessageV, ParseError>(
            ParseError::ShortHeader,
        ),
{
    if d.len() >= 12 {
        lemma_message_errors_not_short(d);
    }
}

/// For a datagram of 12 or more bytes, no failure is `ShortHeader`.
proof fn lemma_message_errors_not_short(d: Seq<u8>)
    ensures
        spec_parse_message(d) is Err && d.len() >= 12 ==> spec_parse_message(d)->Err_0
            != ParseError::ShortHeader,
{
    if d.len() >= 12 && spec_parse_message(d) is Err {
        let e = spec_parse_message(d)->Err_0;
        lemma_queries_not_short(d, 12, spec_header(d).question_count as int);
        let qr = spec_parse_queries(d, 12, spec_header(d).question_count as int);
        if qr is Ok {
            let qend = 12 + spec_queries_wire(qr->Ok_0);
            lemma_rrs_not_short(d, qend, spec_header(d).answer_count as int);
            let ar = spec_parse_rrs(d, qend, spec_header(d).answer_count as int);
            if ar is Ok {
                let aend = qend + spec_rrs_wire(ar->Ok_0);
                lemma_rrs_not_short(d, aend, spec_header(d).name_server_count as int);
                let nr = spec_parse_rrs(d, aend, spec_header(d).name_server_count as int);
                if nr is Ok {
                    let nend = aend + spec_rrs_wire(nr->Ok_0);
                    lemma_rrs_not_short(d, nend, spec_header(d).additional_count as int);
                }
            }
        }
    }
}

/// No name decode fails with `ShortHeader`.
proof fn lemma_name_not_short(d: Seq<u8>, off: int)
    ensures
        spec_parse_name(d, off) is Err ==> spec_parse_name(d, off)->Err_0
            != ParseError::ShortHeader,
    decreases d.len() - off,
{
    if off < d.len() {
        let b = d[off];
        if b < 64 && b != 0 && off + 1 + b <= d.len() && !crate::shared::spec_has_zero(
            d,
            off + 1,
            off + 1 + b,
        ) {
            lemma_name_not_short(d, off + 1 + b);
        }
    }
}

/// No name resolution fails with `ShortHeader`.
proof fn lemma_resolve_not_short(d: Seq<u8>, off: int, visited: Seq<u16>, fuel: nat, nl: int)
    ensures
        crate::shared::spec_resolve_labels(d, off, visited, fuel, nl) is Err
            ==> crate::shared::spec_resolve_labels(d, off, visited, fuel, nl)->Err_0
            != ParseError::ShortHeader,
    decreases fuel, d.len() - off,
{
    if off < d.len() {
        let b = d[off];
        if b >= 192 {
            if off + 2 <= d.len() {
                let target = (d[off] % 64) * 256 + d[off + 1];
                if target < off && !visited.contains(target as u16) && fuel > 0 {
                    lemma_resolve_not_short(
                        d,
                        target as int,
                        visited.push(target as u16),
                        (fuel - 1) as nat,
                        nl,
                    );
                }
            }
        } else if b < 64 && b != 0 {
            if off + 1 + b <= d.len() && !crate::shared::spec_has_zero(d, off + 1, off + 1 + b)
                && nl + 1 + b + 1 <= 255 {
                lemma_resolve_not_short(d, off + 1 + b, visited, fuel, nl + 1 + b);
            }
        }
    }
}

/// No RDATA decode fails with `ShortHeader`.
proof fn lemma_rdata_not_short(d: Seq<u8>, start: int, rdlen: int, tn: int)
    ensures
        crate::resource_record::spec_parse_rdata(d, start, rdlen, tn) is Err
            ==> crate::resource_record::spec_parse_rdata(d, start, rdlen, tn)->Err_0
            != ParseError::ShortHeader,
{
    lemma_resolve_not_short(
        d,
        start,
        Seq::empty(),
        crate::shared::MAX_POINTER_HOPS as nat,
        0,
    );
    lemma_resolve_not_short(
        d,
        start + 2,
        Seq::empty(),
        crate::shared::MAX_POINTER_HOPS as nat,
        0,
    );
    lemma_resolve_not_short(
        d,
        start + 6,
        Seq::empty(),
        crate::shared::MAX_POINTER_HOPS as nat,
        0,
    );
    if crate::shared::spec_resolve_name(d, start) is Ok {
        let w1 = crate::shared::spec_resolve_name(d, start)->Ok_0.1;
        lemma_resolve_not_short(
            d,
            start + w1,
            Seq::empty(),
            crate::shared::MAX_POINTER_HOPS as nat,
            0,
        );
    }
    lemma_strings_not_short(d, start, start, start + rdlen);
    lemma_options_not_short(d, start, start, start + rdlen);
}

/// No TXT character-string decode fails with `ShortHeader`.
proof fn lemma_strings_not_short(d: Seq<u8>, start: int, pos: int, end: int)
    ensures
        crate::resource_record::spec_parse_char_strings(d, start, pos, end) is Err
            ==> crate::resource_record::spec_parse_char_strings(d, start, pos, end)->Err_0
            != ParseError::ShortHeader,
    decreases end - pos,
{
    if pos < end {
        let len = d[pos];
        if pos + 1 + len <= end {
            lemma_strings_not_short(d, start, pos + 1 + len, end);
        }
    }
}

/// No OPT option decode fails with `ShortHeader`.
proof fn lemma_options_not_short(d: Seq<u8>, start: int, pos: int, end: int)
    ensures
        crate::resource_record::spec_parse_opt_options(d, start, pos, end) is Err
            ==> crate::resource_record::spec_parse_opt_options(d, start, pos, end)->Err_0
            != ParseError::ShortHeader,
    decreases end - pos,
{
    if pos < end && pos + 4 <= end {
        let olen = crate::shared::spec_be16(d[pos + 2], d[pos + 3]);
        if pos + 4 + olen <= end {
            lemma_options_not_short(d, start, pos + 4 + olen, end);
        }
    }
}

/// No record decode fails with `ShortHeader`.
proof fn lemma_rr_not_short(d: Seq<u8>, off: int)
    ensures
        crate::resource_record::spec_parse_rr(d, off) is Err
            ==> crate::resource_record::spec_parse_rr(d, off)->Err_0 != ParseError::ShortHeader,
{
    lemma_name_not_short(d, off);
    lemma_resolve_not_short(
        d,
        off,
        Seq::empty(),
        crate::shared::MAX_POINTER_HOPS as nat,
        0,
    );
    if spec_parse_name(d, off) is Ok {
        let fixed = off + crate::shared::spec_labels_size(spec_parse_name(d, off)->Ok_0);
        if fixed + 10 <= d.len() {
            let tn = crate::shared::spec_be16(d[fixed], d[fixed + 1]);
            let rdlen = crate::shared::spec_be16(d[fixed + 8], d[fixed + 9]);
            lemma_rdata_not_short(d, fixed + 10, rdlen, tn);
        }
    }
}

/// No run of record decodes fails with `ShortHeader`.
proof fn lemma_rrs_not_short(d: Seq<u8>, off: int, n: int)
    ensures
        spec_parse_rrs(d, off, n) is Err ==> spec_parse_rrs(d, off, n)->Err_0
            != ParseError::ShortHeader,
    decreases n,
{
    if n > 0 {
        lemma_rr_not_short(d, off);
        if crate::resource_record::spec_parse_rr(d, off) is Ok {
            let rr = crate::resource_record::spec_parse_rr(d, off)->Ok_0;
            lemma_rrs_not_short(d, off + crate::resource_record::spec_rr_size(rr), n - 1);
        }
    }
}

/// No run of question decodes fails with `ShortHeader`.
proof fn lemma_queries_not_short(d: Seq<u8>, off: int, n: int)
    ensures
        spec_parse_queries(d, off, n) is Err ==> spec_parse_queries(d, off, n)->Err_0
            != ParseError::ShortHeader,
    decreases n,
{
    if n > 0 {
        lemma_name_not_short(d, off);
        lemma_resolve_not_short(
            d,
            off,
            Seq::empty(),
            crate::shared::MAX_POINTER_HOPS as nat,
            0,
        );
        if crate::query::spec_parse_query(d, off) is Ok {
            let q = crate::query::spec_parse_query(d, off)->Ok_0;
            lemma_queries_not_short(d, off + crate::query::spec_query_size(q), n - 1);
        }
    }
}

/// Law: a successfully parsed message accounts for its bytes exactly. The
/// four sections lie end to end from offset 12, each item's on-wire size as
/// the message records it sums to the cursor's travel, and the cumulative
/// offset never exceeds the datagram's length; trailing bytes may follow.
pub proof fn lemma_parse_message_consumed(d: Seq<u8>)
    requires
        spec_parse_message(d) is Ok,
    ensures
        ({
            let m = spec_parse_message(d)->Ok_0;
            &&& 0 <= spec_queries_wire(m.queries)
            &&& 0 <= spec_rrs_wire(m.answers)
            &&& 0 <= spec_rrs_wire(m.name_servers)
            &&& 0 <= spec_rrs_wire(m.additional_records)
            &&& 12 + spec_queries_wire(m.queries) + spec_rrs_wire(m.answers) + spec_rrs_wire(
                m.name_servers,
            ) + spec_rrs_wire(m.additional_records) <= d.len()
        }),
{
    let m = spec_parse_message(d)->Ok_0;
    let header = spec_header(d);
    lemma_parse_queries_props(d, 12, header.question_count as int);
    let qend = 12 + spec_queries_wire(m.queries);
    lemma_parse_rrs_props(d, qend, header.answer_count as int);
    let aend = qend + spec_rrs_wire(m.answers);
    lemma_parse_rrs_props(d, aend, header.name_server_count as int);
    let nend = aend + spec_rrs_wire(m.name_servers);
    lemma_parse_rrs_props(d, nend, header.additional_count as int);
}

/// Law: no name in a successfully parsed message carries a zero byte inside
/// a label: in every section, every raw label of every item is one to 63
/// octets of nonzero bytes, zeros standing only as terminators.
pub proof fn lemma_parse_message_no_embedded_zeros(d: Seq<u8>)
    requires
        spec_parse_message(d) is Ok,
    ensures
        ({
            let m = spec_parse_message(d)->Ok_0;
            &&& forall|i: int|
                0 <= i < m.queries.len() ==> crate::shared::spec_no_embedded_zero(
                    (#[trigger] m.queries[i]).values,
                ) && crate::shared::spec_wf_labels(m.queries[i].values)
            &&& forall|i: int|
                0 <= i < m.answers.len() ==> crate::shared::spec_no_embedded_zero(
                    (#[trigger] m.answers[i]).values,
                ) && crate::shared::spec_wf_labels(m.answers[i].values)
            &&& forall|i: int|
                0 <= i < m.name_servers.len() ==> crate::shared::spec_no_embedded_zero(
                    (#[trigger] m.name_servers[i]).values,
                ) && crate::shared::spec_wf_labels(m.name_servers[i].values)
            &&& forall|i: int|
                0 <= i < m.additional_records.len() ==> crate::shared::spec_no_embedded_zero(
                    (#[trigger] m.additional_records[i]).values,
                ) && crate::shared::spec_wf_labels(m.additional_records[i].values)
        }),
{
    let m = spec_parse_message(d)->Ok_0;
    let header = spec_header(d);
    lemma_parse_queries_props(d, 12, header.question_count as int);
    let qend = 12 + spec_queries_wire(m.queries);
    lemma_parse_rrs_props(d, qend, header.answer_count as int);
    let aend = qend + spec_rrs_wire(m.answers);
    lemma_parse_rrs_props(d, aend, header.name_server_count as int);
    let nend = aend + spec_rrs_wire(m.name_servers);
    lemma_parse_rrs_props(d, nend, header.additional_count as int);
}

/// Decodes the answer section.
fn parse_answers(
    label_store: &mut Vec<Label>,
    offset: usize,
    header: &Header,
    data: &[u8],
) -> (r: Result<Vec<ResourceRecord>, ParseError>)
    requires
        data@.len() <= 0xffff,
        offset <= 0xffff,
    ensures
        crate::resource_record::rrs_res_view(r) == spec_parse_rrs(
            data@,
            offset as int,
            header.answer_count as int,
        ),
        final(label_store).deep_view() == old(label_store).deep_view()
            + crate::resource_record::spec_rrs_store_delta(
            data@,
            offset as int,
            header.answer_count as int,
        ),
{
    parse_resource_records(label_store, offset, header.answer_count, data)
}

/// Decodes the authority section, relabelling its truncation errors.
fn parse_name_servers(
    label_store: &mut Vec<Label>,
    offset: usize,
    header: &Header,
    data: &[u8],
) -> (r: Result<Vec<ResourceRecord>, ParseError>)
    requires
        data@.len() <= 0xffff,
        offset <= 0xffff,
    ensures
        crate::resource_record::rrs_res_view(r) == spec_err_section(
            spec_parse_rrs(data@, offset as int, header.name_server_count as int),
            Section::Authority,
        ),
        final(label_store).deep_view() == old(label_store).deep_view()
            + crate::resource_record::spec_rrs_store_delta(
            data@,
            offset as int,
            header.name_server_count as int,
        ),
{
    match parse_resource_records(label_store, offset, header.name_server_count, data) {
        Ok(v) => Ok(v),
        Err(e) => Err(with_section(e, Section::Authority)),
    }
}

/// Decodes the additional section, relabelling its truncation errors.
fn parse_additional_resource_records(
    label_store: &mut Vec<Label>,
    offset: usize,
    header: &Header,
    data: &[u8],
) -> (r: Result<Vec<ResourceRecord>, ParseError>)
    requires
        data@.len() <= 0xffff,
        offset <= 0xffff,
    ensures
        crate::resource_record::rrs_res_view(r) == spec_err_section(
            spec_parse_rrs(data@, offset as int, header.additional_count as int),
            Section::Additional,
        ),
        final(label_store).deep_view() == old(label_store).deep_view()
            + crate::resource_record::spec_rrs_store_delta(
            data@,
            offset as int,
            header.additional_count as int,
        ),
{
    match parse_resource_records(label_store, offset, header.additional_count, data) {
        Ok(v) => Ok(v),
        Err(e) => Err(with_section(e, Section::Additional)),
    }
}

/// Decodes one whole datagram into a message, or the first error the wire
/// format demands. The parser is a pure function of the datagram bytes: it
/// performs no input or output, retains no state, and never panics.
pub fn parse(data: &[u8]) -> (r: Result<Message, ParseError>)
    requires
        data@.len() <= 0xffff,
    ensures
        message_res_view(r) == spec_parse_message(data@),
{
    let ghost d = data@;
    let header = match parse_header(data) {
        Ok(h) => h,
        Err(e) => {
            return Err(e);
        },
    };
    let offset: usize = 12;
    let mut label_store: Vec<Label> = Vec::new();

    let queries = match parse_queries(&mut label_store, offset, &header, data) {
        Ok(q) => q,
        Err(e) => {
            return Err(e);
        },
    };
    proof {
        lemma_parse_queries_props(d, 12, header.question_count as int);
    }
    let queries_length = queries_end(offset, &queries);

    let answers = match parse_answers(&mut label_store, queries_length, &header, data) {
        Ok(a) => a,
        Err(e) => {
            return Err(e);
        },
    };
    proof {
        lemma_parse_rrs_props(d, queries_length as int, header.answer_count as int);
    }
    let answers_length = records_end(queries_length, &answers);

    let name_servers = match parse_name_servers(&mut label_store, answers_length, &header, data) {
        Ok(ns) => ns,
        Err(e) => {
            return Err(e);
        },
    };
    proof {
        lemma_parse_rrs_props(d, answers_length as int, header.name_server_count as int);
    }
    let name_server_resources_length = records_end(answers_length, &name_servers);

    let additional_records = match parse_additional_resource_records(
        &mut label_store,
        name_server_resources_length,
        &header,
        data,
    ) {
        Ok(ar) => ar,
        Err(e) => {
            return Err(e);
        },
    };
    Ok(Message { header, queries, answers, name_servers, additional_records })
}

} // verus!
