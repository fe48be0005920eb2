//! The question section: QTYPE with its pseudo-types, QCLASS with the mDNS
//! QU bit, and the question decoder.

use vstd::prelude::*;
use crate::header::Header;
use crate::shared::{
    lemma_parse_name_size, name_to_string, parse_class, parse_name, parse_type, resolve_name,
    spec_be16, spec_class, spec_labels_size, spec_name_chars, spec_no_embedded_zero,
    spec_parse_name, spec_resolve_name, spec_type, spec_wf_labels, Class, Label, LabelV,
    ParseError, Section, Type,
};

verus! {

/// A question's QTYPE: a plain type tag or one of the four pseudo-types only
/// questions may carry.
#[derive(Clone, Copy, Debug, PartialEq, Eq, Structural)]
pub enum QType {
    Type(Type),
    AXFR,
    MAILB,
    MAILA,
    Any,
}

/// A question's QCLASS: a plain class or the ANY pseudo-class.
#[derive(Clone, Copy, Debug, PartialEq, Eq, Structural)]
pub enum QClass {
    Any,
    Class(Class),
}

/// The mDNS QU/QM bit of a question: whether a unicast response is requested.
#[derive(Clone, Copy, Debug, PartialEq, Eq, Structural)]
pub enum QuestionResponseType {
    QU,
    QM,
}

/// One decoded question: its raw labels with their offsets, its resolved
/// dotted name, and the three tag fields.
#[derive(Debug, PartialEq, Eq)]
pub struct Query {
    pub values: Vec<Label>,
    pub name: String,
    pub q_response_type: QuestionResponseType,
    pub q_type: QType,
    pub q_class: QClass,
}

/// The mathematical shadow of `Query`.
pub struct QueryV {
    pub values: Seq<LabelV>,
    pub name: Seq<char>,
    pub q_response_type: QuestionResponseType,
    pub q_type: QType,
    pub q_class: QClass,
}

impl View for Query {
    type V = QueryV;

    open spec fn view(&self) -> QueryV {
        QueryV {
            values: self.values.deep_view(),
            name: self.name@,
            q_response_type: self.q_response_type,
            q_type: self.q_type,
            q_class: self.q_class,
        }
    }
}

impl DeepView for Query {
    type V = QueryV;

    open spec fn deep_view(&self) -> QueryV {
        self.view()
    }
}

/// The QTYPE denoted by a 16-bit value.
pub open spec fn spec_q_type_value(n: int) -> QType {
    if n == 252 {
        QType::AXFR
    } else if n == 253 {
        QType::MAILB
    } else if n == 254 {
        QType::MAILA
    } else if n == 255 {
        QType::Any
    } else {
        QType::Type(spec_type(n))
    }
}

/// The QU/QM bit denoted by the high bit of a class field's first byte.
pub open spec fn spec_q_response_type(b: u8) -> QuestionResponseType {
    if b >= 128 {
        QuestionResponseType::QU
    } else {
        QuestionResponseType::QM
    }
}

/// The QCLASS denoted by a class field, after the mDNS QU bit is split off:
/// the remaining 15 bits name ANY or a plain class.
pub open spec fn spec_q_class_field(hi: u8, lo: u8) -> QClass {
    let v = (hi % 128) * 256 + lo;
    if v == 255 {
        QClass::Any
    } else {
        QClass::Class(spec_class(v))
    }
}

/// The size of a question on the wire: its name's labels and four bytes of
/// QTYPE and QCLASS.
pub open spec fn spec_query_size(q: QueryV) -> int {
    spec_labels_size(q.values) + 4
}

/// Decodes the QU/QM bit from the first byte of a question's class field.
pub fn parse_q_response_type(data: u8) -> (r: QuestionResponseType)
    ensures
        r == spec_q_response_type(data),
{
    if data / 128 == 1 {
        return QuestionResponseType::QU;
    }
    QuestionResponseType::QM
}

/// Decodes a two-byte QTYPE field, and reads the QU/QM bit a legacy caller
/// may expect from this field's position; the question decoder itself takes
/// the bit from the class field, where mDNS places it.
pub fn parse_q_type(data: [u8; 2]) -> (r: (QuestionResponseType, QType))
    ensures
        r.0 == spec_q_response_type(data@[0]),
        r.1 == spec_q_type_value(spec_be16(data@[0], data@[1])),
{
    let q_type: u16 = data[0] as u16 * 256 + data[1] as u16;
    let response_type = parse_q_response_type(data[0]);
    (
        response_type,
        match q_type {
            252 => QType::AXFR,
            253 => QType::MAILB,
            254 => QType::MAILA,
            255 => QType::Any,
            _ => QType::Type(parse_type(data)),
        },
    )
}

/// Decodes a two-byte QCLASS field, masking off the mDNS QU bit.
pub fn parse_q_class(data: [u8; 2]) -> (r: QClass)
    ensures
        r == spec_q_class_field(data@[0], data@[1]),
{
    let v: u16 = (data[0] % 128) as u16 * 256 + data[1] as u16;
    match v {
        255 => QClass::Any,
        _ => QClass::Class(parse_class([data[0] % 128, data[1]])),
    }
}

/// The question starting at `off`: its raw labels, its resolved name, and
/// the four tag bytes that follow the name.
pub open spec fn spec_parse_query(d: Seq<u8>, off: int) -> Result<QueryV, ParseError> {
    match spec_parse_name(d, off) {
        Err(e) => Err(e),
        Ok(values) => match spec_resolve_name(d, off) {
            Err(e) => Err(e),
            Ok((labels, _)) => {
                let end = off + spec_labels_size(values);
                if end + 4 > d.len() {
                    Err(ParseError::Truncated {
                        section: Section::Questions,
                        need: (end + 4) as usize,
                        have: d.len() as usize,
                    })
                } else {
                    Ok(
                        QueryV {
                            values,
                            name: spec_name_chars(labels),
                            q_response_type: spec_q_response_type(d[end + 2]),
                            q_type: spec_q_type_value(spec_be16(d[end], d[end + 1])),
                            q_class: spec_q_class_field(d[end + 2], d[end + 3]),
                        },
                    )
                }
            },
        },
    }
}

/// The labels a successful question decode adds to the label store; a failed
/// one adds none.
pub open spec fn spec_query_store_delta(d: Seq<u8>, off: int) -> Seq<LabelV> {
    match spec_parse_query(d, off) {
        Ok(q) => q.values,
        Err(_) => Seq::empty(),
    }
}

/// A query-result seen through the mathematical shadow.
pub open spec fn query_res_view(r: Result<Query, ParseError>) -> Result<QueryV, ParseError> {
    match r {
        Ok(q) => Ok(q@),
        Err(e) => Err(e),
    }
}

/// A successfully decoded question has well-formed labels, takes at least
/// five bytes, and fits between its offset and the end of the datagram.
pub proof fn lemma_parse_query_size(d: Seq<u8>, off: int)
    requires
        0 <= off,
        spec_parse_query(d, off) is Ok,
    ensures
        spec_wf_labels(spec_parse_query(d, off)->Ok_0.values),
        spec_no_embedded_zero(spec_parse_query(d, off)->Ok_0.values),
        5 <= spec_query_size(spec_parse_query(d, off)->Ok_0),
        off + spec_query_size(spec_parse_query(d, off)->Ok_0) <= d.len(),
{
    lemma_parse_name_size(d, off);
}

impl Query {
    /// The size of this question on the wire.
    pub fn size(&self) -> (r: usize)
        requires
            spec_wf_labels(self@.values),
            spec_labels_size(self@.values) <= 0xffff,
        ensures
            r == spec_query_size(self@),
    {
        crate::shared::labels_wire_size(&self.values) + 4
    }
}

/// Decodes the question at the absolute offset `offset`, pushing its raw
/// labels onto the label store when it succeeds and leaving the store
/// unchanged when it fails.
#[verifier::loop_isolation(false)]
pub fn parse_query(label_store: &mut Vec<Label>, offset: usize, data: &[u8]) -> (r: Result<
    Query,
    ParseError,
>)
    requires
        data@.len() <= 0xffff,
        offset <= 0xffff,
    ensures
        query_res_view(r) == spec_parse_query(data@, offset as int),
        final(label_store).deep_view() == old(label_store).deep_view() + spec_query_store_delta(
            data@,
            offset as int,
        ),
{
    let values = match parse_name(offset, data) {
        Ok(v) => v,
        Err(e) => {
            proof {
                assert(label_store.deep_view() + Seq::<LabelV>::empty() =~= label_store.deep_view());
            }
            return Err(e);
        },
    };
    let resolved = match resolve_name(offset, data) {
        Ok(p) => p.0,
        Err(e) => {
            proof {
                assert(label_store.deep_view() + Seq::<LabelV>::empty() =~= label_store.deep_view());
            }
            return Err(e);
        },
    };
    proof {
        lemma_parse_name_size(data@, offset as int);
    }
    let nsize = crate::shared::labels_wire_size(&values);
    let end = offset + nsize;
    if data.len() < end + 4 {
        proof {
            assert(label_store.deep_view() + Seq::<LabelV>::empty() =~= label_store.deep_view());
        }
        return Err(ParseError::Truncated {
            section: Section::Questions,
            need: end + 4,
            have: data.len(),
        });
    }
    let name = name_to_string(&resolved);
    let q_response_type = parse_q_response_type(data[end + 2]);
    let (_, q_type) = parse_q_type([data[end], data[end + 1]]);
    let q_class = parse_q_class([data[end + 2], data[end + 3]]);
    let ghost store_before = label_store.deep_view();
    let mut i: usize = 0;
    while i < values.len()
        invariant
            i <= values@.len(),
            label_store.deep_view() == store_before + values.deep_view().take(i as int),
        decreases values@.len() - i,
    {
        let ghost prev = label_store.deep_view();
        label_store.push(values[i].duplicate());
        proof {
            assert(label_store.deep_view() =~= prev + seq![values.deep_view()[i as int]]);
            assert(store_before + values.deep_view().take(i + 1) =~= (store_before
                + values.deep_view().take(i as int)) + seq![values.deep_view()[i as int]]);
        }
        i += 1;
    }
    proof {
        assert(values.deep_view().take(values@.len() as int) =~= values.deep_view());
    }
    Ok(Query { values, name, q_response_type, q_type, q_class })
}

/// The `count` questions that begin at `off`, in order.
pub open spec fn spec_parse_queries(d: Seq<u8>, off: int, count: int) -> Result<
    Seq<QueryV>,
    ParseError,
>
    decreases count,
{
    if count <= 0 {
        Ok(Seq::empty())
    } else {
        match spec_parse_query(d, off) {
            Err(e) => Err(e),
            Ok(q) => match spec_parse_queries(d, off + spec_query_size(q), count - 1) {
                Ok(rest) => Ok(seq![q] + rest),
                Err(e) => Err(e),
            },
        }
    }
}

/// The labels that decoding `count` questions at `off` adds to the label
/// store: those of every question decoded before the first failure.
pub open spec fn spec_queries_store_delta(d: Seq<u8>, off: int, count: int) -> Seq<LabelV>
    decreases count,
{
    if count <= 0 {
        Seq::empty()
    } else {
        match spec_parse_query(d, off) {
            Err(_) => Seq::empty(),
            Ok(q) => q.values + spec_queries_store_delta(d, off + spec_query_size(q), count - 1),
        }
    }
}

/// A queries-result seen through the mathematical shadow.
pub open spec fn queries_res_view(r: Result<Vec<Query>, ParseError>) -> Result<
    Seq<QueryV>,
    ParseError,
> {
    match r {
        Ok(v) => Ok(v.deep_view()),
        Err(e) => Err(e),
    }
}

/// `r` with the queries of `pre` put back in front of a successful tail.
pub open spec fn prepend_queries(pre: Seq<QueryV>, r: Result<Seq<QueryV>, ParseError>) -> Result<
    Seq<QueryV>,
    ParseError,
> {
    match r {
        Ok(rest) => Ok(pre + rest),
        Err(e) => Err(e),
    }
}

/// The summed on-wire size of a run of questions.
pub open spec fn spec_queries_wire(qs: Seq<QueryV>) -> int
    decreases qs.len(),
{
    if qs.len() == 0 {
        0
    } else {
        spec_query_size(qs[0]) + spec_queries_wire(qs.drop_first())
    }
}

/// The summed size of a run of questions splits at any point.
pub proof fn lemma_queries_wire_split(qs: Seq<QueryV>, i: int)
    requires
        0 <= i <= qs.len(),
    ensures
        spec_queries_wire(qs) == spec_queries_wire(qs.take(i)) + spec_queries_wire(qs.skip(i)),
    decreases i,
{
    if i == 0 {
        assert(qs.take(0) =~= Seq::<QueryV>::empty());
        assert(qs.skip(0) =~= qs);
    } else {
        lemma_queries_wire_split(qs.drop_first(), i - 1);
        assert(qs.take(i)[0] == qs[0]);
        assert(qs.take(i).drop_first() =~= qs.drop_first().take(i - 1));
        assert(qs.skip(i) =~= qs.drop_first().skip(i - 1));
    }
}

/// Extending a prefix of questions by one extends its summed size by that
/// question's size.
pub proof fn lemma_queries_wire_take_succ(qs: Seq<QueryV>, i: int)
    requires
        0 <= i < qs.len(),
    ensures
        spec_queries_wire(qs.take(i + 1)) == spec_queries_wire(qs.take(i)) + spec_query_size(
            qs[i],
        ),
    decreases i,
{
    if i == 0 {
        assert(qs.take(0) =~= Seq::<QueryV>::empty());
        assert(qs.take(1)[0] == qs[0]);
        assert(qs.take(1).drop_first() =~= Seq::<QueryV>::empty());
        assert(spec_queries_wire(Seq::<QueryV>::empty()) == 0);
    } else {
        lemma_queries_wire_take_succ(qs.drop_first(), i - 1);
        assert(qs.take(i + 1)[0] == qs[0]);
        assert(qs.take(i)[0] == qs[0]);
        assert(qs.take(i + 1).drop_first() =~= qs.drop_first().take(i));
        assert(qs.take(i).drop_first() =~= qs.drop_first().take(i - 1));
    }
}

/// A successfully decoded run of questions fits between its offset and the
/// end of the datagram, and each question in it is well formed and no larger
/// than the whole run.
pub proof fn lemma_parse_queries_props(d: Seq<u8>, off: int, n: int)
    requires
        0 <= off,
        spec_parse_queries(d, off, n) is Ok,
    ensures
        0 <= spec_queries_wire(spec_parse_queries(d, off, n)->Ok_0),
        n > 0 ==> off + spec_queries_wire(spec_parse_queries(d, off, n)->Ok_0) <= d.len(),
        forall|i: int|
            0 <= i < spec_parse_queries(d, off, n)->Ok_0.len() ==> {
                let q = #[trigger] spec_parse_queries(d, off, n)->Ok_0[i];
                &&& spec_wf_labels(q.values)
                &&& spec_no_embedded_zero(q.values)
                &&& 5 <= spec_query_size(q)
                &&& spec_query_size(q) <= spec_queries_wire(spec_parse_queries(d, off, n)->Ok_0)
            },
    decreases n,
{
    let qs = spec_parse_queries(d, off, n)->Ok_0;
    if n <= 0 {
        assert(qs =~= Seq::<QueryV>::empty());
    } else {
        let q0 = spec_parse_query(d, off)->Ok_0;
        lemma_parse_query_size(d, off);
        let rest = spec_parse_queries(d, off + spec_query_size(q0), n - 1)->Ok_0;
        lemma_parse_queries_props(d, off + spec_query_size(q0), n - 1);
        assert(qs == seq![q0] + rest);
        assert(qs[0] == q0);
        assert(qs.drop_first() =~= rest);
        assert(spec_queries_wire(qs) == spec_query_size(q0) + spec_queries_wire(rest));
        assert forall|i: int| 0 <= i < qs.len() implies {
            let q = #[trigger] qs[i];
            &&& spec_wf_labels(q.values)
            &&& spec_no_embedded_zero(q.values)
            &&& 5 <= spec_query_size(q)
            &&& spec_query_size(q) <= spec_queries_wire(qs)
        } by {
            if i == 0 {
                assert(qs[i] == q0);
            } else {
                assert(qs[i] == rest[i - 1]);
            }
        }
    }
}

/// The summed size of any suffix of well-formed questions is not negative.
proof fn lemma_queries_wire_nonneg_skip(qs: Seq<QueryV>, i: int)
    requires
        0 <= i <= qs.len(),
        forall|k: int| 0 <= k < qs.len() ==> 0 <= spec_query_size(#[trigger] qs[k]),
    ensures
        0 <= spec_queries_wire(qs.skip(i)),
    decreases qs.len() - i,
{
    if i < qs.len() {
        lemma_queries_wire_nonneg_skip(qs, i + 1);
        assert(qs.skip(i)[0] == qs[i]);
        assert(qs.skip(i).drop_first() =~= qs.skip(i + 1));
    } else {
        assert(qs.skip(i) =~= Seq::<QueryV>::empty());
    }
}

/// The offset just past a run of decoded questions that begins at `start`.
#[verifier::loop_isolation(false)]
pub fn queries_end(start: usize, queries: &Vec<Query>) -> (r: usize)
    requires
        start + spec_queries_wire(queries.deep_view()) <= 0xffff,
        forall|i: int|
            0 <= i < queries.deep_view().len() ==> {
                let q = #[trigger] queries.deep_view()[i];
                &&& spec_wf_labels(q.values)
                &&& 0 <= spec_query_size(q)
                &&& spec_query_size(q) <= spec_queries_wire(queries.deep_view())
            },
    ensures
        r == start + spec_queries_wire(queries.deep_view()),
{
    let ghost qv = queries.deep_view();
    let mut end: usize = start;
    let mut i: usize = 0;
    proof {
        assert(qv.take(0) =~= Seq::<QueryV>::empty());
        assert(spec_queries_wire(Seq::<QueryV>::empty()) == 0);
    }
    while i < queries.len()
        invariant
            i <= qv.len(),
            end == start + spec_queries_wire(qv.take(i as int)),
            end <= start + spec_queries_wire(qv),
        decreases qv.len() - i,
    {
        proof {
            assert(queries@[i as int]@ == qv[i as int]);
            lemma_queries_wire_take_succ(qv, i as int);
            lemma_queries_wire_split(qv, i + 1);
            lemma_queries_wire_nonneg_skip(qv, i + 1);
        }
        let sz = queries[i].size();
        end += sz;
        i += 1;
    }
    proof {
        assert(qv.take(qv.len() as int) =~= qv);
    }
    end
}

/// Decodes as many questions as the header declares, starting at the
/// absolute offset `offset`; the raw labels of each decoded question are
/// pushed onto the label store.
#[verifier::loop_isolation(false)]
pub fn parse_queries(
    label_store: &mut Vec<Label>,
    offset: usize,
    header: &Header,
    data: &[u8],
) -> (r: Result<Vec<Query>, ParseError>)
    requires
        data@.len() <= 0xffff,
        offset <= 0xffff,
    ensures
        queries_res_view(r) == spec_parse_queries(
            data@,
            offset as int,
            header.question_count as int,
        ),
        final(label_store).deep_view() == old(label_store).deep_view()
            + spec_queries_store_delta(data@, offset as int, header.question_count as int),
{
    let ghost d = data@;
    let ghost n = header.question_count as int;
    let ghost store0 = old(label_store).deep_view();
    let mut queries: Vec<Query> = Vec::new();
    let mut current_offset: usize = offset;
    let mut k: u16 = 0;
    proof {
        assert(queries.deep_view() =~= Seq::<QueryV>::empty());
        assert(Seq::<QueryV>::empty() + spec_parse_queries(d, offset as int, n)->Ok_0
            =~= spec_parse_queries(d, offset as int, n)->Ok_0);
        assert(store0 + Seq::<LabelV>::empty() =~= store0);
    }
    while k < header.question_count
        invariant
            k <= header.question_count,
            current_offset <= 0xffff,
            spec_parse_queries(d, offset as int, n) == prepend_queries(
                queries.deep_view(),
                spec_parse_queries(d, current_offset as int, n - k),
            ),
            store0 + spec_queries_store_delta(d, offset as int, n) == label_store.deep_view()
                + spec_queries_store_delta(d, current_offset as int, n - k),
        decreases n - k,
    {
        match parse_query(label_store, current_offset, data) {
            Err(e) => {
                proof {
                    assert(label_store.deep_view() + Seq::<LabelV>::empty()
                        =~= label_store.deep_view());
                }
                return Err(e);
            },
            Ok(query) => {
                proof {
                    lemma_parse_query_size(d, current_offset as int);
                }
                let qs = query.size();
                let ghost qv = query@;
                let ghost prev = queries.deep_view();
                current_offset += qs;
                queries.push(query);
                proof {
                    assert(queries.deep_view() =~= prev + seq![qv]);
                    let rest_r = spec_parse_queries(d, current_offset as int, n - k - 1);
                    match rest_r {
                        Ok(rest) => {
                            assert(prev + (seq![qv] + rest) =~= (prev + seq![qv]) + rest);
                        },
                        Err(_) => {},
                    }
                }
                k += 1;
            },
        }
    }
    proof {
        assert(queries.deep_view() + Seq::<QueryV>::empty() =~= queries.deep_view());
        assert(label_store.deep_view() + Seq::<LabelV>::empty() =~= label_store.deep_view());
    }
    Ok(queries)
}

} // verus!
