//! The structured summary that is republished for each decoded datagram,
//! and the sink it is handed to.

use vstd::prelude::*;
use std::io::Write;
use crate::header::Header;
use crate::message;
use crate::resource_record::{ResourceRecord, ResourceRecordDataV, ResourceRecordV};
use crate::shared::{ascii_to_string, spec_ascii};

verus! {

/// Relies on `std::io::Error` being an opaque error carrier; the library
/// never inspects one.
#[verifier::external_type_specification]
#[verifier::external_body]
pub struct ExIoError(std::io::Error);

/// The IPv4 addresses found in the answer section, rendered in dotted form.
#[derive(Debug, PartialEq, Eq)]
pub struct Answer {
    pub ip_v4: Vec<String>,
}

/// The IPv4 addresses found in the additional section, rendered in dotted
/// form.
#[derive(Debug, PartialEq, Eq)]
pub struct Additional {
    pub ip_v4: Vec<String>,
}

/// The summary published for one decoded datagram: its header, its question
/// names, and the IPv4 addresses its answer and additional sections carry.
#[derive(Debug, PartialEq, Eq)]
pub struct Message {
    pub header: Header,
    pub queries: Vec<String>,
    pub answer: Answer,
    pub additional: Additional,
}

/// A sink that the summaries are handed to, implemented by the callers that
/// own a transport.
pub trait Publisher {
    /// Sends `data` under `subject`.
    fn publish(&self, subject: &str, data: &str) -> Result<(), std::io::Error>;
}

/// A sink that prints each summary to standard output.
pub struct TerminalPublisher {}

/// Relies on `writeln!` to standard output; what the terminal does with the
/// text is outside the library.
#[verifier::external_body]
fn write_terminal_line(subject: &str, data: &str) -> Result<(), std::io::Error> {
    writeln!(std::io::stdout(), "{:?} => {:?}", subject, data)
}

impl Publisher for TerminalPublisher {
    fn publish(&self, subject: &str, data: &str) -> Result<(), std::io::Error> {
        write_terminal_line(subject, data)
    }
}

/// The decimal digits of one octet, without leading zeros.
pub open spec fn spec_decimal(n: u8) -> Seq<u8> {
    if n < 10 {
        seq![(48 + n) as u8]
    } else if n < 100 {
        seq![(48 + n / 10) as u8, (48 + n % 10) as u8]
    } else {
        seq![(48 + n / 100) as u8, (48 + (n / 10) % 10) as u8, (48 + n % 10) as u8]
    }
}

/// The dotted decimal bytes of an IPv4 address.
pub open spec fn spec_ipv4_bytes(octets: Seq<u8>) -> Seq<u8> {
    spec_decimal(octets[0]) + seq![46u8] + spec_decimal(octets[1]) + seq![46u8] + spec_decimal(
        octets[2],
    ) + seq![46u8] + spec_decimal(octets[3])
}

/// The dotted decimal rendering of an IPv4 address.
pub open spec fn spec_ipv4_chars(octets: Seq<u8>) -> Seq<char> {
    spec_ipv4_bytes(octets).map_values(|b: u8| b as char)
}

/// Appends one octet's decimal digits.
fn push_decimal(out: &mut Vec<u8>, n: u8)
    ensures
        final(out)@ == old(out)@ + spec_decimal(n),
        spec_ascii(old(out)@) ==> spec_ascii(final(out)@),
{
    if n < 10 {
        out.push(48 + n);
        proof {
            assert(out@ =~= old(out)@ + spec_decimal(n));
        }
    } else if n < 100 {
        out.push(48 + n / 10);
        out.push(48 + n % 10);
        proof {
            assert(out@ =~= old(out)@ + spec_decimal(n));
        }
    } else {
        out.push(48 + n / 100);
        out.push(48 + (n / 10) % 10);
        out.push(48 + n % 10);
        proof {
            assert(out@ =~= old(out)@ + spec_decimal(n));
        }
    }
}

/// Renders an IPv4 address in the usual dotted decimal form.
pub fn ipv4_to_string(octets: &[u8; 4]) -> (r: String)
    ensures
        r@ == spec_ipv4_chars(octets@),
{
    let mut out: Vec<u8> = Vec::new();
    push_decimal(&mut out, octets[0]);
    out.push(46);
    push_decimal(&mut out, octets[1]);
    out.push(46);
    push_decimal(&mut out, octets[2]);
    out.push(46);
    push_decimal(&mut out, octets[3]);
    proof {
        assert(out@ =~= spec_ipv4_bytes(octets@));
    }
    ascii_to_string(out)
}

/// The dotted renderings of the IPv4 addresses that the A records of a run
/// carry, in order; records of every other type contribute nothing.
pub open spec fn spec_a_strings(rs: Seq<ResourceRecordV>) -> Seq<Seq<char>>
    decreases rs.len(),
{
    if rs.len() == 0 {
        Seq::empty()
    } else {
        let rest = spec_a_strings(rs.drop_first());
        match rs[0].resource_record_data {
            ResourceRecordDataV::A(octets) => seq![spec_ipv4_chars(octets)] + rest,
            _ => rest,
        }
    }
}

/// Collects the dotted renderings of every A record's address in a section.
#[verifier::loop_isolation(false)]
fn a_record_strings(records: &Vec<ResourceRecord>) -> (r: Vec<String>)
    ensures
        r.deep_view() == spec_a_strings(records.deep_view()),
{
    let ghost rv = records.deep_view();
    let mut out: Vec<String> = Vec::new();
    let mut i: usize = 0;
    proof {
        assert(rv.skip(0) =~= rv);
        assert(out.deep_view() =~= Seq::<Seq<char>>::empty());
        assert(out.deep_view() + spec_a_strings(rv) =~= spec_a_strings(rv));
    }
    while i < records.len()
        invariant
            i <= rv.len(),
            spec_a_strings(rv) == out.deep_view() + spec_a_strings(rv.skip(i as int)),
        decreases rv.len() - i,
    {
        proof {
            assert(rv.skip(i as int)[0] == rv[i as int]);
            assert(rv.skip(i as int).drop_first() =~= rv.skip(i + 1));
            assert(records@[i as int]@ == rv[i as int]);
        }
        match &records[i].resource_record_data {
            crate::resource_record::ResourceRecordData::A(octets) => {
                let rendered = ipv4_to_string(octets);
                let ghost prev = out.deep_view();
                let ghost rc = rendered@;
                out.push(rendered);
                proof {
                    assert(out.deep_view() =~~= prev + seq![rc]);
                    let rest = spec_a_strings(rv.skip(i + 1));
                    assert(prev + (seq![rc] + rest) =~= (prev + seq![rc]) + rest);
                }
            },
            _ => {},
        }
        i += 1;
    }
    proof {
        assert(rv.skip(rv.len() as int) =~= Seq::<ResourceRecordV>::empty());
        assert(out.deep_view() + spec_a_strings(rv.skip(rv.len() as int)) =~= out.deep_view());
    }
    out
}

/// The names of a run of questions, in order.
pub open spec fn spec_query_names(qs: Seq<crate::query::QueryV>) -> Seq<Seq<char>> {
    qs.map_values(|q: crate::query::QueryV| q.name)
}

/// Collects the resolved names of every question of a message.
#[verifier::loop_isolation(false)]
fn query_names(queries: &Vec<crate::query::Query>) -> (r: Vec<String>)
    ensures
        r.deep_view() == spec_query_names(queries.deep_view()),
{
    let ghost qv = queries.deep_view();
    let mut out: Vec<String> = Vec::new();
    let mut i: usize = 0;
    while i < queries.len()
        invariant
            i <= qv.len(),
            out.deep_view() =~= spec_query_names(qv).take(i as int),
        decreases qv.len() - i,
    {
        proof {
            assert(queries@[i as int]@ == qv[i as int]);
        }
        let name = queries[i].name.clone();
        let ghost prev = out.deep_view();
        out.push(name);
        proof {
            assert(out.deep_view() =~~= spec_query_names(qv).take(i + 1));
        }
        i += 1;
    }
    proof {
        assert(spec_query_names(qv).take(qv.len() as int) =~= spec_query_names(qv));
    }
    out
}

/// Builds the summary of one decoded message: the header as decoded, the
/// question names, and the dotted IPv4 address of every A record in the
/// answer and additional sections.
pub fn summarize(m: &message::Message) -> (r: Message)
    ensures
        r.header == m.header,
        r.queries.deep_view() == spec_query_names(m@.queries),
        r.answer.ip_v4.deep_view() == spec_a_strings(m@.answers),
        r.additional.ip_v4.deep_view() == spec_a_strings(m@.additional_records),
{
    Message {
        header: m.header,
        queries: query_names(&m.queries),
        answer: Answer { ip_v4: a_record_strings(&m.answers) },
        additional: Additional { ip_v4: a_record_strings(&m.additional_records) },
    }
}

} // verus!
