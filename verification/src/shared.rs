//! Labels, classes, types and the error taxonomy shared by every section
//! of a DNS message.

use vstd::prelude::*;
use vstd::slice::slice_to_vec;

verus! {

/// The section of a message in which a failure was detected.
#[derive(Clone, Copy, Debug, PartialEq, Eq, Structural)]
pub enum Section {
    Questions,
    Answers,
    Authority,
    Additional,
}

/// Every way a datagram can fail to parse. Each variant carries the offsets
/// and sizes needed to pin the defect precisely; nothing is stringly typed.
#[derive(Clone, Copy, Debug, PartialEq, Eq, Structural)]
pub enum ParseError {
    /// Fewer than 12 bytes were available for the fixed header.
    ShortHeader,
    /// The datagram ended in the middle of a section: `need` bytes were
    /// demanded but only `have` exist.
    Truncated { section: Section, need: usize, have: usize },
    /// A label byte had the reserved high bits `01` or `10`.
    ReservedLabelType { offset: usize, tag: u8 },
    /// A label declared more than 63 octets.
    LabelTooLong { offset: usize, length: usize },
    /// A resolved name exceeded 255 octets.
    NameTooLong { length: usize },
    /// A compression pointer did not target a strictly earlier offset.
    BadPointer { from: usize, to: usize },
    /// A compression pointer targeted an offset already visited while
    /// resolving the same name.
    PointerLoop { offset: usize },
    /// A zero byte stood inside a label, before its declared end.
    EmbeddedZero { offset: usize },
    /// A typed RDATA body consumed a number of bytes different from the
    /// declared RDLENGTH.
    RDataLengthMismatch { rr_type: u16, declared: u16, actual: usize },
    /// A fixed-size RDATA body (A, AAAA, SRV, MX) had the wrong size.
    BadFixedRData { rr_type: u16, need: usize, have: usize },
}

/// One component of a name as it stands on the wire: either a run of octets
/// or a compression pointer, each remembering its own offset in the datagram.
#[derive(Clone, Debug, PartialEq, Eq)]
pub enum Label {
    /// A length-prefixed run of octets; `None` is the zero-length root label.
    Value(u16, Option<Vec<u8>>),
    /// A 14-bit pointer to an earlier offset of the same datagram.
    Pointer(u16, u16),
}

/// The mathematical shadow of `Label`, with a `Seq` for the octets.
pub enum LabelV {
    Value(u16, Option<Seq<u8>>),
    Pointer(u16, u16),
}

impl View for Label {
    type V = LabelV;

    open spec fn view(&self) -> LabelV {
        match self {
            Label::Value(off, Some(bytes)) => LabelV::Value(*off, Some(bytes@)),
            Label::Value(off, None) => LabelV::Value(*off, None),
            Label::Pointer(off, target) => LabelV::Pointer(*off, *target),
        }
    }
}

impl DeepView for Label {
    type V = LabelV;

    open spec fn deep_view(&self) -> LabelV {
        self.view()
    }
}

/// The number of datagram bytes a label occupies: its length byte plus its
/// octets for a value, two bytes for a pointer.
pub open spec fn spec_label_size(l: LabelV) -> int {
    match l {
        LabelV::Value(_, Some(bytes)) => bytes.len() as int + 1,
        LabelV::Value(_, None) => 1,
        LabelV::Pointer(_, _) => 2,
    }
}

/// A label is well formed when its octet run is nonempty and at most 63
/// bytes, as the wire format requires.
pub open spec fn spec_wf_label(l: LabelV) -> bool {
    match l {
        LabelV::Value(_, Some(bytes)) => 1 <= bytes.len() <= 63,
        LabelV::Value(_, None) => true,
        LabelV::Pointer(_, _) => true,
    }
}

impl Label {
    /// A copy of this label that verified code can reason about.
    pub fn duplicate(&self) -> (r: Label)
        ensures
            r@ == self@,
    {
        match self {
            Label::Value(off, Some(bytes)) => Label::Value(
                *off,
                Some(slice_to_vec(bytes.as_slice())),
            ),
            Label::Value(off, None) => Label::Value(*off, None),
            Label::Pointer(off, target) => Label::Pointer(*off, *target),
        }
    }

    /// The on-wire size of this label.
    pub fn size(&self) -> (r: usize)
        requires
            spec_wf_label(self@),
        ensures
            r == spec_label_size(self@),
    {
        match self {
            Label::Value(_, Some(bytes)) => bytes.len() + 1,
            Label::Value(_, None) => 1,
            Label::Pointer(_, _) => 2,
        }
    }
}

/// Whether some byte in `d[lo..hi]` is zero.
pub open spec fn spec_has_zero(d: Seq<u8>, lo: int, hi: int) -> bool {
    exists|i: int| lo <= i < hi && d[i] == 0
}

/// The result of reading one length-prefixed label at `off`: the root label
/// for a zero count, the octets for a count of 1 to 63, and otherwise the
/// error the wire format demands.
pub open spec fn spec_parse_label_value(d: Seq<u8>, off: int) -> Result<LabelV, ParseError> {
    if off >= d.len() {
        Err(ParseError::Truncated {
            section: Section::Questions,
            need: (off + 1) as usize,
            have: d.len() as usize,
        })
    } else {
        let count = d[off];
        if count == 0 {
            Ok(LabelV::Value(off as u16, None))
        } else if count > 63 {
            Err(ParseError::LabelTooLong { offset: off as usize, length: count as usize })
        } else if off + 1 + count > d.len() {
            Err(ParseError::Truncated {
                section: Section::Questions,
                need: (off + 1 + count) as usize,
                have: d.len() as usize,
            })
        } else if spec_has_zero(d, off + 1, off + 1 + count) {
            Err(ParseError::EmbeddedZero { offset: off as usize })
        } else {
            Ok(LabelV::Value(off as u16, Some(d.subrange(off + 1, off + 1 + count))))
        }
    }
}

/// The result of reading one two-byte compression pointer at `off`: its
/// target is the low 14 bits, big-endian.
pub open spec fn spec_parse_label_pointer(d: Seq<u8>, off: int) -> Result<LabelV, ParseError> {
    if off + 2 > d.len() {
        Err(ParseError::Truncated {
            section: Section::Questions,
            need: (off + 2) as usize,
            have: d.len() as usize,
        })
    } else {
        Ok(LabelV::Pointer(off as u16, ((d[off] % 64) * 256 + d[off + 1]) as u16))
    }
}

/// A label-result seen through the labels' mathematical shadow.
pub open spec fn label_res_view(r: Result<Label, ParseError>) -> Result<LabelV, ParseError> {
    match r {
        Ok(l) => Ok(l@),
        Err(e) => Err(e),
    }
}

/// A name-result seen through the labels' mathematical shadow.
pub open spec fn labels_res_view(r: Result<Vec<Label>, ParseError>) -> Result<
    Seq<LabelV>,
    ParseError,
> {
    match r {
        Ok(v) => Ok(v.deep_view()),
        Err(e) => Err(e),
    }
}

/// Reads one length-prefixed label starting at the absolute offset `offset`.
#[verifier::loop_isolation(false)]
pub fn parse_label_value(offset: usize, data: &[u8]) -> (r: Result<Label, ParseError>)
    requires
        data@.len() <= 0xffff,
        offset <= 0xffff,
    ensures
        label_res_view(r) == spec_parse_label_value(data@, offset as int),
{
    if offset >= data.len() {
        return Err(ParseError::Truncated {
            section: Section::Questions,
            need: offset + 1,
            have: data.len(),
        });
    }
    let count = data[offset];
    if count == 0 {
        return Ok(Label::Value(offset as u16, None));
    }
    if count > 63 {
        return Err(ParseError::LabelTooLong { offset, length: count as usize });
    }
    if offset + 1 + count as usize > data.len() {
        return Err(ParseError::Truncated {
            section: Section::Questions,
            need: offset + 1 + count as usize,
            have: data.len(),
        });
    }
    let end: usize = offset + 1 + count as usize;
    let mut i: usize = offset + 1;
    while i < end
        invariant
            offset + 1 <= i <= end == offset + 1 + data@[offset as int] <= data@.len(),
            count == data@[offset as int],
            forall|k: int| offset + 1 <= k < i ==> data@[k] != 0,
        decreases end - i,
    {
        if data[i] == 0 {
            proof {
                assert(spec_has_zero(data@, offset + 1, offset + 1 + count)) by {
                    assert(offset + 1 <= i < offset + 1 + count && data@[i as int] == 0);
                }
            }
            return Err(ParseError::EmbeddedZero { offset });
        }
        i += 1;
    }
    let bytes = slice_to_vec(&data[offset + 1..end]);
    Ok(Label::Value(offset as u16, Some(bytes)))
}

/// Reads one two-byte compression pointer starting at the absolute offset
/// `offset`.
pub fn parse_label_pointer(offset: usize, data: &[u8]) -> (r: Result<Label, ParseError>)
    requires
        data@.len() <= 0xffff,
        offset <= 0xffff,
    ensures
        label_res_view(r) == spec_parse_label_pointer(data@, offset as int),
{
    if offset + 2 > data.len() {
        return Err(ParseError::Truncated {
            section: Section::Questions,
            need: offset + 2,
            have: data.len(),
        });
    }
    let target: u16 = (data[offset] % 64) as u16 * 256 + data[offset + 1] as u16;
    Ok(Label::Pointer(offset as u16, target))
}

/// The raw labels of the name starting at `off`: every length-prefixed label
/// up to and including its terminator, which is either the root label or the
/// first compression pointer. Pointers are not followed here.
pub open spec fn spec_parse_name(d: Seq<u8>, off: int) -> Result<Seq<LabelV>, ParseError>
    decreases d.len() - off,
{
    if off >= d.len() {
        Err(ParseError::Truncated {
            section: Section::Questions,
            need: (off + 1) as usize,
            have: d.len() as usize,
        })
    } else {
        let b = d[off];
        if b >= 192 {
            match spec_parse_label_pointer(d, off) {
                Ok(l) => Ok(seq![l]),
                Err(e) => Err(e),
            }
        } else if b >= 64 {
            Err(ParseError::ReservedLabelType { offset: off as usize, tag: (b / 64) as u8 })
        } else if b == 0 {
            Ok(seq![LabelV::Value(off as u16, None)])
        } else if off + 1 + b > d.len() {
            Err(ParseError::Truncated {
                section: Section::Questions,
                need: (off + 1 + b) as usize,
                have: d.len() as usize,
            })
        } else if spec_has_zero(d, off + 1, off + 1 + b) {
            Err(ParseError::EmbeddedZero { offset: off as usize })
        } else {
            match spec_parse_name(d, off + 1 + b) {
                Ok(rest) => Ok(
                    seq![LabelV::Value(off as u16, Some(d.subrange(off + 1, off + 1 + b)))] + rest,
                ),
                Err(e) => Err(e),
            }
        }
    }
}

/// `r` with the labels of `pre` put back in front of a successful tail.
pub open spec fn prepend_labels(pre: Seq<LabelV>, r: Result<Seq<LabelV>, ParseError>) -> Result<
    Seq<LabelV>,
    ParseError,
> {
    match r {
        Ok(rest) => Ok(pre + rest),
        Err(e) => Err(e),
    }
}

/// Collects the raw labels of the name starting at the absolute offset
/// `offset`: labels in order, ending with the root label or with the first
/// compression pointer, whichever comes first. Pointers are not followed.
pub fn parse_name(offset: usize, data: &[u8]) -> (r: Result<Vec<Label>, ParseError>)
    requires
        data@.len() <= 0xffff,
        offset <= 0xffff,
    ensures
        labels_res_view(r) == spec_parse_name(data@, offset as int),
{
    let mut values: Vec<Label> = Vec::new();
    let mut cur: usize = offset;
    loop
        invariant
            data@.len() <= 0xffff,
            cur <= 0xffff,
            spec_parse_name(data@, offset as int) == prepend_labels(
                values.deep_view(),
                spec_parse_name(data@, cur as int),
            ),
        decreases 65536 - cur,
    {
        if cur >= data.len() {
            return Err(ParseError::Truncated {
                section: Section::Questions,
                need: cur + 1,
                have: data.len(),
            });
        }
        let b = data[cur];
        if b >= 192 {
            match parse_label_pointer(cur, data) {
                Ok(l) => {
                    let ghost prev = values.deep_view();
                    values.push(l);
                    proof {
                        assert(values.deep_view() =~= prev + seq![l@]);
                    }
                    return Ok(values);
                },
                Err(e) => {
                    return Err(e);
                },
            }
        } else if b >= 64 {
            return Err(ParseError::ReservedLabelType { offset: cur, tag: b / 64 });
        } else {
            match parse_label_value(cur, data) {
                Ok(l) => {
                    let sz = l.size();
                    let done = matches!(l, Label::Value(_, None));
                    let ghost lab = l@;
                    let ghost prev = values.deep_view();
                    values.push(l);
                    proof {
                        assert(values.deep_view() =~= prev + seq![lab]);
                    }
                    if done {
                        return Ok(values);
                    }
                    proof {
                        let rest_r = spec_parse_name(data@, cur + sz);
                        match rest_r {
                            Ok(rest) => {
                                assert(prev + (seq![lab] + rest) =~= (prev + seq![lab]) + rest);
                            },
                            Err(_) => {},
                        }
                    }
                    cur += sz;
                },
                Err(e) => {
                    return Err(e);
                },
            }
        }
    }
}

/// The largest number of compression pointers one name may follow: enough to
/// exceed any name a 65,535-byte datagram can hold backward-pointer chains
/// for in practice, and a hard bound that keeps resolution finite.
pub const MAX_POINTER_HOPS: u8 = 128;

/// Resolution of the name starting at `off`, after the labels already
/// gathered sum to `name_len` octets (counting one length byte each) and the
/// pointer targets in `visited` have been followed, with `fuel` hops left.
///
/// On success the result carries the resolved label octet runs, in order and
/// without the root, and the number of wire bytes the name occupies at `off`:
/// through its root label, or through its first pointer, whichever comes
/// first. A pointer must target a strictly earlier offset, must not target an
/// offset already followed for this name, and the resolved name must stay
/// within 255 octets.
pub open spec fn spec_resolve_labels(
    d: Seq<u8>,
    off: int,
    visited: Seq<u16>,
    fuel: nat,
    name_len: int,
) -> Result<(Seq<Seq<u8>>, int), ParseError>
    decreases fuel, d.len() - off,
{
    if off >= d.len() {
        Err(ParseError::Truncated {
            section: Section::Questions,
            need: (off + 1) as usize,
            have: d.len() as usize,
        })
    } else {
        let b = d[off];
        if b >= 192 {
            if off + 2 > d.len() {
                Err(ParseError::Truncated {
                    section: Section::Questions,
                    need: (off + 2) as usize,
                    have: d.len() as usize,
                })
            } else {
                let target = (d[off] % 64) * 256 + d[off + 1];
                if target >= off {
                    Err(ParseError::BadPointer { from: off as usize, to: target as usize })
                } else if visited.contains(target as u16) {
                    Err(ParseError::PointerLoop { offset: target as usize })
                } else if fuel == 0 {
                    Err(ParseError::PointerLoop { offset: target as usize })
                } else {
                    match spec_resolve_labels(
                        d,
                        target as int,
                        visited.push(target as u16),
                        (fuel - 1) as nat,
                        name_len,
                    ) {
                        Ok((labels, _)) => Ok((labels, 2)),
                        Err(e) => Err(e),
                    }
                }
            }
        } else if b >= 64 {
            Err(ParseError::ReservedLabelType { offset: off as usize, tag: (b / 64) as u8 })
        } else if b == 0 {
            Ok((Seq::empty(), 1))
        } else if off + 1 + b > d.len() {
            Err(ParseError::Truncated {
                section: Section::Questions,
                need: (off + 1 + b) as usize,
                have: d.len() as usize,
            })
        } else if spec_has_zero(d, off + 1, off + 1 + b) {
            Err(ParseError::EmbeddedZero { offset: off as usize })
        } else if name_len + 1 + b + 1 > 255 {
            Err(ParseError::NameTooLong { length: (name_len + 1 + b + 1) as usize })
        } else {
            match spec_resolve_labels(d, off + 1 + b, visited, fuel, name_len + 1 + b) {
                Ok((labels, w)) => Ok(
                    (seq![d.subrange(off + 1, off + 1 + b)] + labels, 1 + b + w),
                ),
                Err(e) => Err(e),
            }
        }
    }
}

/// Resolution of the whole name starting at `off`: label octet runs and the
/// on-wire size of the name at `off`.
pub open spec fn spec_resolve_name(d: Seq<u8>, off: int) -> Result<(Seq<Seq<u8>>, int), ParseError> {
    spec_resolve_labels(d, off, Seq::empty(), MAX_POINTER_HOPS as nat, 0)
}

/// A resolution result seen through the mathematical shadow.
pub open spec fn resolved_res_view(r: Result<(Vec<Vec<u8>>, usize), ParseError>) -> Result<
    (Seq<Seq<u8>>, int),
    ParseError,
> {
    match r {
        Ok((labels, wire)) => Ok((labels.deep_view(), wire as int)),
        Err(e) => Err(e),
    }
}

/// `r` with the already-resolved labels of `pre` put back in front, and the
/// wire size settled: `done` bytes if the first pointer was already passed,
/// otherwise `base` bytes plus whatever the tail still occupies.
pub open spec fn compose_resolved(
    pre: Seq<Seq<u8>>,
    base: int,
    done: Option<usize>,
    r: Result<(Seq<Seq<u8>>, int), ParseError>,
) -> Result<(Seq<Seq<u8>>, int), ParseError> {
    match r {
        Ok((labels, w)) => Ok(
            (
                pre + labels,
                match done {
                    Some(t) => t as int,
                    None => base + w,
                },
            ),
        ),
        Err(e) => Err(e),
    }
}

/// Whether `values` holds `x`.
fn contains_u16(values: &Vec<u16>, x: u16) -> (r: bool)
    ensures
        r == values@.contains(x),
{
    let mut i: usize = 0;
    while i < values.len()
        invariant
            i <= values@.len(),
            forall|k: int| 0 <= k < i ==> values@[k] != x,
        decreases values@.len() - i,
    {
        if values[i] == x {
            return true;
        }
        i += 1;
    }
    false
}

/// Resolves the name starting at the absolute offset `offset`: follows
/// compression pointers with a visited set, and returns the label octet runs
/// (without the root) together with the on-wire size the name occupies at
/// `offset`. Fails exactly as the wire format demands: on truncation, on a
/// reserved label type, on a zero byte inside a label, on a pointer that does
/// not lead strictly backward, on a pointer offset followed twice, and on a
/// resolved name longer than 255 octets.
#[verifier::loop_isolation(false)]
pub fn resolve_name(offset: usize, data: &[u8]) -> (r: Result<(Vec<Vec<u8>>, usize), ParseError>)
    requires
        data@.len() <= 0xffff,
        offset <= 0xffff,
    ensures
        resolved_res_view(r) == spec_resolve_name(data@, offset as int),
        r is Ok ==> r->Ok_0.1 <= data@.len(),
{
    let mut labels: Vec<Vec<u8>> = Vec::new();
    let mut visited: Vec<u16> = Vec::new();
    let mut cur: usize = offset;
    let mut fuel: u8 = MAX_POINTER_HOPS;
    let mut name_len: u16 = 0;
    let mut jumped = false;
    let mut wire: usize = 0;
    loop
        invariant
            cur <= 0xffff,
            name_len <= 254,
            jumped ==> wire <= data@.len(),
            !jumped ==> offset <= cur,
            spec_resolve_name(data@, offset as int) == compose_resolved(
                labels.deep_view(),
                cur - offset,
                if jumped {
                    Some(wire)
                } else {
                    None
                },
                spec_resolve_labels(
                    data@,
                    cur as int,
                    visited@,
                    fuel as nat,
                    name_len as int,
                ),
            ),
        decreases fuel, 65536 - cur,
    {
        if cur >= data.len() {
            return Err(ParseError::Truncated {
                section: Section::Questions,
                need: cur + 1,
                have: data.len(),
            });
        }
        let b = data[cur];
        if b >= 192 {
            if cur + 2 > data.len() {
                return Err(ParseError::Truncated {
                    section: Section::Questions,
                    need: cur + 2,
                    have: data.len(),
                });
            }
            let target: u16 = (data[cur] % 64) as u16 * 256 + data[cur + 1] as u16;
            if target as usize >= cur {
                return Err(ParseError::BadPointer { from: cur, to: target as usize });
            }
            if contains_u16(&visited, target) {
                return Err(ParseError::PointerLoop { offset: target as usize });
            }
            if fuel == 0 {
                return Err(ParseError::PointerLoop { offset: target as usize });
            }
            if !jumped {
                jumped = true;
                wire = cur + 2 - offset;
            }
            visited.push(target);
            fuel -= 1;
            cur = target as usize;
        } else if b >= 64 {
            return Err(ParseError::ReservedLabelType { offset: cur, tag: b / 64 });
        } else if b == 0 {
            let total_wire = if jumped {
                wire
            } else {
                cur + 1 - offset
            };
            proof {
                assert(labels.deep_view() + Seq::<Seq<u8>>::empty() =~= labels.deep_view());
            }
            return Ok((labels, total_wire));
        } else {
            match parse_label_value(cur, data) {
                Err(e) => {
                    return Err(e);
                },
                Ok(Label::Value(_, Some(bytes))) => {
                    if name_len + 2 + (b as u16) > 255 {
                        return Err(ParseError::NameTooLong {
                            length: name_len as usize + 2 + b as usize,
                        });
                    }
                    let ghost prev = labels.deep_view();
                    name_len = name_len + 1 + b as u16;
                    labels.push(bytes);
                    proof {
                        assert(labels.deep_view() =~~= prev + seq![data@.subrange(
                            cur + 1,
                            cur + 1 + b,
                        )]);
                        let rest_r = spec_resolve_labels(
                            data@,
                            cur + 1 + b,
                            visited@,
                            fuel as nat,
                            name_len as int,
                        );
                        match rest_r {
                            Ok(p) => {
                                assert(prev + (seq![data@.subrange(cur + 1, cur + 1 + b)] + p.0)
                                    =~= (prev + seq![data@.subrange(cur + 1, cur + 1 + b)]) + p.0);
                            },
                            Err(_) => {},
                        }
                    }
                    cur = cur + 1 + b as usize;
                },
                Ok(_) => {
                    // A byte in 1..=63 always reads as an octet-run label.
                    return vstd::pervasive::unreached();
                },
            }
        }
    }
}

/// Every byte of `s` is ASCII.
pub open spec fn spec_ascii(s: Seq<u8>) -> bool {
    forall|i: int| 0 <= i < s.len() ==> s[i] < 128
}

/// One label octet rendered for display: printable ASCII other than the dot
/// and the backslash passes through; everything else becomes a backslash
/// followed by three decimal digits, in the style of RFC 1035 master files.
pub open spec fn spec_escape_byte(b: u8) -> Seq<u8> {
    if 33 <= b <= 126 && b != 46 && b != 92 {
        seq![b]
    } else {
        seq![92u8, (48 + b / 100) as u8, (48 + (b / 10) % 10) as u8, (48 + b % 10) as u8]
    }
}

/// A label's octets rendered for display.
pub open spec fn spec_escape_label(bytes: Seq<u8>) -> Seq<u8> {
    bytes.flat_map(|b: u8| spec_escape_byte(b))
}

/// A resolved name rendered for display: each label escaped and closed with
/// a dot, so that a full name ends in the dot that stands for the root. The
/// root-only name renders as the empty string.
pub open spec fn spec_render_name(labels: Seq<Seq<u8>>) -> Seq<u8> {
    labels.flat_map(|l: Seq<u8>| spec_escape_label(l) + seq![46u8])
}

/// The characters of a rendered name.
pub open spec fn spec_name_chars(labels: Seq<Seq<u8>>) -> Seq<char> {
    spec_render_name(labels).map_values(|b: u8| b as char)
}

/// Every byte the escaping of one label emits is printable ASCII: code 33
/// to 126.
pub proof fn lemma_escape_label_printable(bytes: Seq<u8>)
    ensures
        forall|k: int|
            0 <= k < spec_escape_label(bytes).len() ==> 33 <= #[trigger] spec_escape_label(
                bytes,
            )[k] <= 126,
    decreases bytes.len(),
{
    let f = |b: u8| spec_escape_byte(b);
    if bytes.len() == 0 {
        assert(bytes.map_values(f) =~= Seq::<Seq<u8>>::empty());
        assert(bytes.flat_map(f) =~= Seq::<u8>::empty());
    } else {
        let pre = bytes.drop_last();
        lemma_escape_label_printable(pre);
        pre.lemma_flat_map_push(f, bytes.last());
        assert(pre.push(bytes.last()) =~= bytes);
        assert(spec_escape_label(bytes) =~= spec_escape_label(pre) + f(bytes.last()));
        assert forall|k: int|
            0 <= k < spec_escape_label(bytes).len() implies 33 <= #[trigger] spec_escape_label(
            bytes,
        )[k] <= 126 by {
            if k < spec_escape_label(pre).len() {
                assert(spec_escape_label(bytes)[k] == spec_escape_label(pre)[k]);
            } else {
                assert(spec_escape_label(bytes)[k] == f(bytes.last())[k - spec_escape_label(
                    pre,
                ).len()]);
            }
        }
    }
}

/// Law: a rendered name holds only printable ASCII characters, codes 33 to
/// 126; in particular no zero character ever stands in a name string that
/// the decoders produce, whatever the labels hold.
pub proof fn lemma_name_chars_printable(labels: Seq<Seq<u8>>)
    ensures
        forall|k: int|
            0 <= k < spec_name_chars(labels).len() ==> 33 <= (#[trigger] spec_name_chars(
                labels,
            )[k] as u32) <= 126,
{
    assert forall|k: int|
        0 <= k < spec_render_name(labels).len() implies 33 <= #[trigger] spec_render_name(
        labels,
    )[k] <= 126 by {
        lemma_render_name_printable(labels);
    }
}

/// Every byte of a rendered name is printable ASCII.
proof fn lemma_render_name_printable(labels: Seq<Seq<u8>>)
    ensures
        forall|k: int|
            0 <= k < spec_render_name(labels).len() ==> 33 <= #[trigger] spec_render_name(
                labels,
            )[k] <= 126,
    decreases labels.len(),
{
    let f = |l: Seq<u8>| spec_escape_label(l) + seq![46u8];
    if labels.len() == 0 {
        assert(labels.map_values(f) =~= Seq::<Seq<u8>>::empty());
        assert(labels.flat_map(f) =~= Seq::<u8>::empty());
    } else {
        let pre = labels.drop_last();
        lemma_render_name_printable(pre);
        lemma_escape_label_printable(labels.last());
        pre.lemma_flat_map_push(f, labels.last());
        assert(pre.push(labels.last()) =~= labels);
        assert(spec_render_name(labels) =~= spec_render_name(pre) + f(labels.last()));
        assert forall|k: int|
            0 <= k < spec_render_name(labels).len() implies 33 <= #[trigger] spec_render_name(
            labels,
        )[k] <= 126 by {
            if k < spec_render_name(pre).len() {
                assert(spec_render_name(labels)[k] == spec_render_name(pre)[k]);
            } else {
                let j = k - spec_render_name(pre).len();
                assert(spec_render_name(labels)[k] == f(labels.last())[j]);
                if j < spec_escape_label(labels.last()).len() {
                    assert(f(labels.last())[j] == spec_escape_label(labels.last())[j]);
                } else {
                    assert(f(labels.last())[j] == 46);
                }
            }
        }
    }
}

/// Relies on `String::from_utf8`: ASCII bytes are valid UTF-8 and decode to
/// the characters with the same code points.
#[verifier::external_body]
pub(crate) fn ascii_to_string(bytes: Vec<u8>) -> (r: String)
    requires
        spec_ascii(bytes@),
    ensures
        r@ == bytes@.map_values(|b: u8| b as char),
{
    String::from_utf8(bytes).unwrap_or_default()
}

/// Appends the escaped rendering of `bytes` to `out`.
#[verifier::loop_isolation(false)]
fn push_escaped(out: &mut Vec<u8>, bytes: &Vec<u8>)
    ensures
        final(out)@ == old(out)@ + spec_escape_label(bytes@),
        spec_ascii(old(out)@) ==> spec_ascii(final(out)@),
{
    let ghost base = out@;
    let mut j: usize = 0;
    while j < bytes.len()
        invariant
            j <= bytes@.len(),
            out@ == base + spec_escape_label(bytes@.take(j as int)),
            spec_ascii(base) ==> spec_ascii(out@),
        decreases bytes@.len() - j,
    {
        let b = bytes[j];
        if 33 <= b && b <= 126 && b != 46 && b != 92 {
            out.push(b);
        } else {
            out.push(92);
            out.push(48 + b / 100);
            out.push(48 + (b / 10) % 10);
            out.push(48 + b % 10);
        }
        proof {
            bytes@.lemma_flat_map_take_append(|x: u8| spec_escape_byte(x), j as int);
            assert(out@ =~= base + spec_escape_label(bytes@.take(j + 1)));
        }
        j += 1;
    }
    proof {
        assert(bytes@.take(bytes@.len() as int) =~= bytes@);
    }
}

/// Renders a resolved name as escaped ASCII bytes, one closing dot per label.
#[verifier::loop_isolation(false)]
fn render_name_bytes(labels: &Vec<Vec<u8>>) -> (r: Vec<u8>)
    ensures
        r@ == spec_render_name(labels.deep_view()),
        spec_ascii(r@),
{
    let mut out: Vec<u8> = Vec::new();
    let mut i: usize = 0;
    while i < labels.len()
        invariant
            i <= labels@.len(),
            out@ == spec_render_name(labels.deep_view().take(i as int)),
            spec_ascii(out@),
        decreases labels@.len() - i,
    {
        push_escaped(&mut out, &labels[i]);
        out.push(46);
        proof {
            labels.deep_view().lemma_flat_map_take_append(
                |l: Seq<u8>| spec_escape_label(l) + seq![46u8],
                i as int,
            );
            assert(labels.deep_view()[i as int] == labels@[i as int].deep_view());
            assert(labels@[i as int].deep_view() =~= labels@[i as int]@);
            assert(out@ =~= spec_render_name(labels.deep_view().take(i + 1)));
        }
        i += 1;
    }
    proof {
        assert(labels.deep_view().take(labels@.len() as int) =~= labels.deep_view());
    }
    out
}

/// Renders a resolved name as a `String`: each label escaped and closed with
/// a dot; the root-only name renders empty.
pub fn name_to_string(labels: &Vec<Vec<u8>>) -> (r: String)
    ensures
        r@ == spec_name_chars(labels.deep_view()),
{
    let bytes = render_name_bytes(labels);
    ascii_to_string(bytes)
}

/// Every label of `s` is well formed.
pub open spec fn spec_wf_labels(s: Seq<LabelV>) -> bool {
    forall|i: int| 0 <= i < s.len() ==> spec_wf_label(#[trigger] s[i])
}

/// The number of datagram bytes a run of labels occupies.
pub open spec fn spec_labels_size(s: Seq<LabelV>) -> int
    decreases s.len(),
{
    if s.len() == 0 {
        0
    } else {
        spec_label_size(s[0]) + spec_labels_size(s.drop_first())
    }
}

/// A run of labels never occupies a negative number of bytes.
pub proof fn lemma_labels_size_nonneg(s: Seq<LabelV>)
    ensures
        spec_labels_size(s) >= 0,
    decreases s.len(),
{
    if s.len() > 0 {
        lemma_labels_size_nonneg(s.drop_first());
    }
}

/// The size of a run of labels splits at any point.
pub proof fn lemma_labels_size_split(s: Seq<LabelV>, i: int)
    requires
        0 <= i <= s.len(),
    ensures
        spec_labels_size(s) == spec_labels_size(s.take(i)) + spec_labels_size(s.skip(i)),
    decreases i,
{
    if i == 0 {
        assert(s.take(0) =~= Seq::<LabelV>::empty());
        assert(s.skip(0) =~= s);
    } else {
        lemma_labels_size_split(s.drop_first(), i - 1);
        assert(s.take(i)[0] == s[0]);
        assert(s.take(i).drop_first() =~= s.drop_first().take(i - 1));
        assert(s.skip(i) =~= s.drop_first().skip(i - 1));
    }
}

/// Extending a prefix of labels by one extends its size by that label's size.
pub proof fn lemma_labels_size_take_succ(s: Seq<LabelV>, i: int)
    requires
        0 <= i < s.len(),
    ensures
        spec_labels_size(s.take(i + 1)) == spec_labels_size(s.take(i)) + spec_label_size(s[i]),
    decreases i,
{
    if i == 0 {
        assert(s.take(0) =~= Seq::<LabelV>::empty());
        assert(s.take(1)[0] == s[0]);
        assert(s.take(1).drop_first() =~= Seq::<LabelV>::empty());
    } else {
        lemma_labels_size_take_succ(s.drop_first(), i - 1);
        assert(s.take(i + 1)[0] == s[0]);
        assert(s.take(i)[0] == s[0]);
        assert(s.take(i + 1).drop_first() =~= s.drop_first().take(i));
        assert(s.take(i).drop_first() =~= s.drop_first().take(i - 1));
    }
}

/// The summed on-wire size of a run of labels.
#[verifier::loop_isolation(false)]
pub fn labels_wire_size(values: &Vec<Label>) -> (r: usize)
    requires
        spec_wf_labels(values.deep_view()),
        spec_labels_size(values.deep_view()) <= 0xffff,
    ensures
        r == spec_labels_size(values.deep_view()),
{
    let ghost vv = values.deep_view();
    let mut sum: usize = 0;
    let mut i: usize = 0;
    proof {
        assert(vv.take(0) =~= Seq::<LabelV>::empty());
        assert(spec_labels_size(Seq::<LabelV>::empty()) == 0);
    }
    while i < values.len()
        invariant
            i <= vv.len(),
            sum == spec_labels_size(vv.take(i as int)),
            sum <= 0xffff,
        decreases vv.len() - i,
    {
        proof {
            assert(values@[i as int]@ == vv[i as int]);
            lemma_labels_size_take_succ(vv, i as int);
            lemma_labels_size_split(vv, i + 1);
            lemma_labels_size_nonneg(vv.skip(i + 1));
        }
        let sz = values[i].size();
        sum += sz;
        i += 1;
    }
    proof {
        assert(vv.take(vv.len() as int) =~= vv);
    }
    sum
}

/// No label of `s` carries a zero byte: zeros occur only as terminators,
/// never inside a label's octets.
pub open spec fn spec_no_embedded_zero(s: Seq<LabelV>) -> bool {
    forall|i: int|
        0 <= i < s.len() ==> match #[trigger] s[i] {
            LabelV::Value(_, Some(bytes)) => forall|j: int| 0 <= j < bytes.len() ==> bytes[j] != 0,
            _ => true,
        }
}

/// The raw labels of a successfully parsed name are well formed and free of
/// embedded zero bytes, occupy at least one byte, and fit between their
/// offset and the end of the datagram.
pub proof fn lemma_parse_name_size(d: Seq<u8>, off: int)
    requires
        0 <= off,
        spec_parse_name(d, off) is Ok,
    ensures
        spec_wf_labels(spec_parse_name(d, off)->Ok_0),
        spec_no_embedded_zero(spec_parse_name(d, off)->Ok_0),
        1 <= spec_labels_size(spec_parse_name(d, off)->Ok_0),
        off + spec_labels_size(spec_parse_name(d, off)->Ok_0) <= d.len(),
    decreases d.len() - off,
{
    let labels = spec_parse_name(d, off)->Ok_0;
    assert(off < d.len());
    let b = d[off];
    if b >= 192 {
        let l = spec_parse_label_pointer(d, off)->Ok_0;
        assert(labels == seq![l]);
        assert(labels[0] == l);
        assert(labels.drop_first() =~= Seq::<LabelV>::empty());
        assert(spec_labels_size(Seq::<LabelV>::empty()) == 0);
        assert(spec_labels_size(labels) == 2);
    } else if b >= 64 {
        assert(false);
    } else if b == 0 {
        let l = LabelV::Value(off as u16, None);
        assert(labels == seq![l]);
        assert(labels[0] == l);
        assert(labels.drop_first() =~= Seq::<LabelV>::empty());
        assert(spec_labels_size(Seq::<LabelV>::empty()) == 0);
        assert(spec_labels_size(labels) == 1);
    } else {
        let v = LabelV::Value(off as u16, Some(d.subrange(off + 1, off + 1 + b)));
        let rest = spec_parse_name(d, off + 1 + b)->Ok_0;
        lemma_parse_name_size(d, off + 1 + b);
        assert(labels == seq![v] + rest);
        assert(labels[0] == v);
        assert(labels.drop_first() =~= rest);
        assert(spec_label_size(v) == 1 + b);
        assert forall|i: int| 0 <= i < labels.len() implies spec_wf_label(#[trigger] labels[i]) by {
            if i == 0 {
                assert(labels[i] == v);
            } else {
                assert(labels[i] == rest[i - 1]);
            }
        }
        assert forall|i: int| 0 <= i < labels.len() implies match #[trigger] labels[i] {
            LabelV::Value(_, Some(bytes)) => forall|j: int| 0 <= j < bytes.len() ==> bytes[j] != 0,
            _ => true,
        } by {
            if i == 0 {
                assert(labels[i] == v);
                assert forall|j: int| 0 <= j < b implies #[trigger] d.subrange(
                    off + 1,
                    off + 1 + b,
                )[j] != 0 by {
                    assert(!spec_has_zero(d, off + 1, off + 1 + b));
                    assert(d.subrange(off + 1, off + 1 + b)[j] == d[off + 1 + j]);
                }
            } else {
                assert(labels[i] == rest[i - 1]);
            }
        }
    }
}

/// When a name both reads as raw labels and resolves, the two accounts of
/// its on-wire size agree: the resolver's consumed-byte count equals the
/// summed sizes of the raw labels.
pub proof fn lemma_resolve_wire_is_raw_size(
    d: Seq<u8>,
    off: int,
    visited: Seq<u16>,
    fuel: nat,
    name_len: int,
)
    requires
        0 <= off,
        spec_parse_name(d, off) is Ok,
        spec_resolve_labels(d, off, visited, fuel, name_len) is Ok,
    ensures
        spec_resolve_labels(d, off, visited, fuel, name_len)->Ok_0.1 == spec_labels_size(
            spec_parse_name(d, off)->Ok_0,
        ),
    decreases d.len() - off,
{
    let labels = spec_parse_name(d, off)->Ok_0;
    let b = d[off];
    if b >= 192 {
        assert(labels.drop_first() =~= Seq::<LabelV>::empty());
        assert(spec_labels_size(Seq::<LabelV>::empty()) == 0);
    } else if b == 0 {
        assert(labels.drop_first() =~= Seq::<LabelV>::empty());
        assert(spec_labels_size(Seq::<LabelV>::empty()) == 0);
    } else if b < 64 {
        let v = LabelV::Value(off as u16, Some(d.subrange(off + 1, off + 1 + b)));
        let rest = spec_parse_name(d, off + 1 + b)->Ok_0;
        lemma_resolve_wire_is_raw_size(d, off + 1 + b, visited, fuel, name_len + 1 + b);
        assert(labels == seq![v] + rest);
        assert(labels[0] == v);
        assert(labels.drop_first() =~= rest);
        assert(spec_label_size(v) == 1 + b);
    }
}

/// The two accounts of a whole name's on-wire size agree whenever the name
/// both reads as raw labels and resolves.
pub proof fn lemma_name_sizes_agree(d: Seq<u8>, off: int)
    requires
        0 <= off,
        spec_parse_name(d, off) is Ok,
        spec_resolve_name(d, off) is Ok,
    ensures
        spec_resolve_name(d, off)->Ok_0.1 == spec_labels_size(spec_parse_name(d, off)->Ok_0),
{
    lemma_resolve_wire_is_raw_size(d, off, Seq::empty(), MAX_POINTER_HOPS as nat, 0);
}

/// Whether a stored label halts the scan for a pointer target: the scan
/// passes over value labels at other offsets and stops at a value label whose
/// offset is the target, or at any stored pointer.
pub open spec fn spec_pointer_stop(l: LabelV, pv: u16) -> bool {
    match l {
        LabelV::Value(off, _) => off == pv,
        LabelV::Pointer(_, _) => true,
    }
}

/// How many stored labels the scan for `pv` passes over.
pub open spec fn spec_skip_count(s: Seq<LabelV>, pv: u16) -> int
    decreases s.len(),
{
    if s.len() == 0 {
        0
    } else if spec_pointer_stop(s[0], pv) {
        0
    } else {
        1 + spec_skip_count(s.drop_first(), pv)
    }
}

/// The prefix of `s` up to and including its first root label, or all of `s`
/// when it has no root label.
pub open spec fn spec_take_name(s: Seq<LabelV>) -> Seq<LabelV>
    decreases s.len(),
{
    if s.len() == 0 {
        Seq::empty()
    } else if s[0] is Value && s[0]->Value_1 is None {
        seq![s[0]]
    } else {
        seq![s[0]] + spec_take_name(s.drop_first())
    }
}

/// The stored labels a pointer with target `pv` denotes: the run that starts
/// at the first stored label that stops the scan and ends at the first root
/// label after it.
pub open spec fn spec_resolve_pointer(s: Seq<LabelV>, pv: u16) -> Seq<LabelV> {
    spec_take_name(s.skip(spec_skip_count(s, pv)))
}

proof fn lemma_skip_count_is(s: Seq<LabelV>, pv: u16, i: int)
    requires
        0 <= i <= s.len(),
        forall|k: int| 0 <= k < i ==> !spec_pointer_stop(s[k], pv),
        i < s.len() ==> spec_pointer_stop(s[i], pv),
    ensures
        spec_skip_count(s, pv) == i,
    decreases i,
{
    if i == 0 {
    } else {
        assert(!spec_pointer_stop(s[0], pv));
        lemma_skip_count_is(s.drop_first(), pv, i - 1);
    }
}

/// Looks up, in the running list of every label parsed so far, the run of
/// labels that a compression pointer with target `pointer_value` denotes.
#[verifier::loop_isolation(false)]
pub fn resolve_pointer(all_labels: &Vec<Label>, pointer_value: u16) -> (r: Vec<Label>)
    ensures
        r.deep_view() == spec_resolve_pointer(all_labels.deep_view(), pointer_value),
{
    let ghost s = all_labels.deep_view();
    let mut start: usize = 0;
    loop
        invariant
            start <= s.len(),
            forall|k: int| 0 <= k < start ==> !spec_pointer_stop(s[k], pointer_value),
        decreases s.len() - start,
    {
        if start >= all_labels.len() {
            break ;
        }
        let stop = match &all_labels[start] {
            Label::Value(off, _) => *off == pointer_value,
            Label::Pointer(_, _) => true,
        };
        if stop {
            break ;
        }
        start += 1;
    }
    proof {
        lemma_skip_count_is(s, pointer_value, start as int);
    }
    let mut out: Vec<Label> = Vec::new();
    let mut cur: usize = start;
    loop
        invariant
            start <= cur <= s.len(),
            spec_take_name(s.skip(start as int)) == out.deep_view() + spec_take_name(
                s.skip(cur as int),
            ),
        decreases s.len() - cur,
    {
        if cur >= all_labels.len() {
            proof {
                assert(out.deep_view() + spec_take_name(s.skip(cur as int)) =~= out.deep_view());
            }
            return out;
        }
        let l = all_labels[cur].duplicate();
        let root = matches!(l, Label::Value(_, None));
        let ghost prev = out.deep_view();
        out.push(l);
        proof {
            assert(all_labels@[cur as int]@ == s[cur as int]);
            assert(out.deep_view() =~= prev + seq![s[cur as int]]);
            assert(s.skip(cur as int)[0] == s[cur as int]);
            assert(s.skip(cur as int).drop_first() =~= s.skip(cur + 1));
            if !root {
                let rest = spec_take_name(s.skip(cur + 1));
                assert(prev + (seq![s[cur as int]] + rest) =~= (prev + seq![s[cur as int]])
                    + rest);
            } else {
                assert(prev + seq![s[cur as int]] =~= out.deep_view());
            }
        }
        if root {
            return out;
        }
        cur += 1;
    }
}

/// Every resolved label is 1 to 63 octets long and free of zero bytes.
pub open spec fn spec_clean_resolved(labels: Seq<Seq<u8>>) -> bool {
    forall|i: int|
        0 <= i < labels.len() ==> {
            &&& 1 <= (#[trigger] labels[i]).len() <= 63
            &&& forall|j: int| 0 <= j < labels[i].len() ==> labels[i][j] != 0
        }
}

/// Every name the resolver accepts is made of labels of 1 to 63 octets, none
/// of which carries a zero byte: resolved names hold zero bytes only at the
/// terminator, never inside a label.
pub proof fn lemma_resolve_labels_clean(
    d: Seq<u8>,
    off: int,
    visited: Seq<u16>,
    fuel: nat,
    name_len: int,
)
    requires
        0 <= off,
        spec_resolve_labels(d, off, visited, fuel, name_len) is Ok,
    ensures
        spec_clean_resolved(spec_resolve_labels(d, off, visited, fuel, name_len)->Ok_0.0),
    decreases fuel, d.len() - off,
{
    let labels = spec_resolve_labels(d, off, visited, fuel, name_len)->Ok_0.0;
    let b = d[off];
    if b >= 192 {
        let target = (d[off] % 64) * 256 + d[off + 1];
        lemma_resolve_labels_clean(d, target as int, visited.push(target as u16), (fuel - 1) as nat, name_len);
    } else if b == 0 {
        assert(labels =~= Seq::<Seq<u8>>::empty());
    } else if b < 64 {
        let chunk = d.subrange(off + 1, off + 1 + b);
        lemma_resolve_labels_clean(d, off + 1 + b, visited, fuel, name_len + 1 + b);
        let rest = spec_resolve_labels(d, off + 1 + b, visited, fuel, name_len + 1 + b)->Ok_0.0;
        assert(labels == seq![chunk] + rest);
        assert(labels.drop_first() =~= rest);
        assert forall|i: int| 0 <= i < labels.len() implies {
            &&& 1 <= (#[trigger] labels[i]).len() <= 63
            &&& forall|j: int| 0 <= j < labels[i].len() ==> labels[i][j] != 0
        } by {
            if i == 0 {
                assert(labels[i] == chunk);
                assert(!spec_has_zero(d, off + 1, off + 1 + b));
                assert forall|j: int| 0 <= j < chunk.len() implies chunk[j] != 0 by {
                    assert(chunk[j] == d[off + 1 + j]);
                }
            } else {
                assert(labels[i] == rest[i - 1]);
            }
        }
    }
}

/// The whole resolved name of a successful resolution is clean: every label
/// holds 1 to 63 octets and no zero byte stands inside any of them.
pub proof fn lemma_resolve_name_clean(d: Seq<u8>, off: int)
    requires
        0 <= off,
        spec_resolve_name(d, off) is Ok,
    ensures
        spec_clean_resolved(spec_resolve_name(d, off)->Ok_0.0),
{
    lemma_resolve_labels_clean(d, off, Seq::empty(), MAX_POINTER_HOPS as nat, 0);
}

/// A label byte that declares more than 63 octets necessarily has one of the
/// reserved high-bit patterns, since clear high bits leave only six length
/// bits. Read as a single label it fails as `LabelTooLong`; during name
/// resolution, which dispatches on the high bits first, it fails as
/// `ReservedLabelType` unless the bits name a compression pointer.
pub proof fn lemma_label_over_63(
    d: Seq<u8>,
    off: int,
    visited: Seq<u16>,
    fuel: nat,
    name_len: int,
)
    requires
        0 <= off < d.len(),
        63 < d[off] < 192,
    ensures
        spec_parse_label_value(d, off) == Err::<LabelV, ParseError>(
            ParseError::LabelTooLong { offset: off as usize, length: d[off] as usize },
        ),
        spec_resolve_labels(d, off, visited, fuel, name_len) == Err::<
            (Seq<Seq<u8>>, int),
            ParseError,
        >(ParseError::ReservedLabelType { offset: off as usize, tag: (d[off] / 64) as u8 }),
        spec_parse_name(d, off) == Err::<Seq<LabelV>, ParseError>(
            ParseError::ReservedLabelType { offset: off as usize, tag: (d[off] / 64) as u8 },
        ),
{
}

/// A compression pointer whose target is not strictly less than its own
/// offset fails resolution as `BadPointer`, carrying both offsets.
pub proof fn lemma_forward_pointer(
    d: Seq<u8>,
    off: int,
    visited: Seq<u16>,
    fuel: nat,
    name_len: int,
)
    requires
        0 <= off,
        off + 2 <= d.len(),
        d[off] >= 192,
        (d[off] % 64) * 256 + d[off + 1] >= off,
    ensures
        spec_resolve_labels(d, off, visited, fuel, name_len) == Err::<
            (Seq<Seq<u8>>, int),
            ParseError,
        >(
            ParseError::BadPointer {
                from: off as usize,
                to: ((d[off] % 64) * 256 + d[off + 1]) as usize,
            },
        ),
{
}

/// A compression pointer whose target was already followed while resolving
/// the same name fails resolution as `PointerLoop`, carrying the revisited
/// offset.
pub proof fn lemma_pointer_revisited(
    d: Seq<u8>,
    off: int,
    visited: Seq<u16>,
    fuel: nat,
    name_len: int,
)
    requires
        0 <= off,
        off + 2 <= d.len(),
        d[off] >= 192,
        (d[off] % 64) * 256 + d[off + 1] < off,
        visited.contains((((d[off] % 64) * 256 + d[off + 1]) as u16)),
    ensures
        spec_resolve_labels(d, off, visited, fuel, name_len) == Err::<
            (Seq<Seq<u8>>, int),
            ParseError,
        >(
            ParseError::PointerLoop { offset: ((d[off] % 64) * 256 + d[off + 1]) as usize },
        ),
{
}

/// Every piece of `s` is ASCII.
pub open spec fn spec_all_ascii(s: Seq<Seq<u8>>) -> bool {
    forall|i: int| 0 <= i < s.len() ==> spec_ascii(#[trigger] s[i])
}

/// The pieces of `items` joined with single dots between them, none at the
/// ends.
pub open spec fn spec_join(items: Seq<Seq<u8>>) -> Seq<u8> {
    if items.len() == 0 {
        Seq::empty()
    } else {
        items[0] + items.drop_first().flat_map(|p: Seq<u8>| seq![46u8] + p)
    }
}

/// The display pieces of a stored name: escaped label text for each leading
/// value label, stopping before a root label; a trailing pointer contributes
/// the joined rendering of the stored run it denotes and ends the name.
/// `fuel` bounds how many pointers may be chased through the store.
pub open spec fn spec_extract_items(store: Seq<LabelV>, names: Seq<LabelV>, fuel: nat) -> Seq<
    Seq<u8>,
>
    decreases fuel, names.len(),
{
    if names.len() == 0 {
        Seq::empty()
    } else {
        match names[0] {
            LabelV::Value(_, None) => Seq::empty(),
            LabelV::Value(_, Some(bytes)) => seq![spec_escape_label(bytes)] + spec_extract_items(
                store,
                names.drop_first(),
                fuel,
            ),
            LabelV::Pointer(_, pv) => seq![
                if fuel == 0 {
                    Seq::empty()
                } else {
                    spec_join(
                        spec_extract_items(
                            store,
                            spec_resolve_pointer(store, pv),
                            (fuel - 1) as nat,
                        ),
                    )
                },
            ],
        }
    }
}

/// The dotted rendering of a stored name: its pieces joined with dots. A
/// pointer may be chased through the store once per stored label and once
/// more, which every acyclic store stays within.
pub open spec fn spec_extract_name(store: Seq<LabelV>, names: Seq<LabelV>) -> Seq<u8> {
    spec_join(spec_extract_items(store, names, (store.len() + 1) as nat))
}

/// Joins pieces with single dots between them.
#[verifier::loop_isolation(false)]
fn join_bytes(items: &Vec<Vec<u8>>) -> (r: Vec<u8>)
    ensures
        r@ == spec_join(items.deep_view()),
        spec_all_ascii(items.deep_view()) ==> spec_ascii(r@),
{
    let ghost s = items.deep_view();
    if items.len() == 0 {
        let out: Vec<u8> = Vec::new();
        return out;
    }
    let mut out: Vec<u8> = vstd::slice::slice_to_vec(items[0].as_slice());
    proof {
        assert(out@ =~= s[0]);
        assert(out@ =~= s[0] + s.drop_first().take(0).flat_map(|p: Seq<u8>| seq![46u8] + p));
    }
    let mut i: usize = 1;
    while i < items.len()
        invariant
            1 <= i <= s.len(),
            out@ == s[0] + s.drop_first().take(i - 1).flat_map(|p: Seq<u8>| seq![46u8] + p),
            spec_all_ascii(s) ==> spec_ascii(out@),
        decreases s.len() - i,
    {
        out.push(46);
        let mut j: usize = 0;
        let piece = &items[i];
        while j < piece.len()
            invariant
                j <= piece@.len(),
                out@ == s[0] + s.drop_first().take(i - 1).flat_map(|p: Seq<u8>| seq![46u8] + p)
                    + seq![46u8] + piece@.take(j as int),
                spec_all_ascii(s) ==> spec_ascii(out@),
            decreases piece@.len() - j,
        {
            let b = piece[j];
            out.push(b);
            proof {
                assert(piece@.take(j + 1) =~= piece@.take(j as int).push(b));
                assert(out@ =~= s[0] + s.drop_first().take(i - 1).flat_map(
                    |p: Seq<u8>| seq![46u8] + p,
                ) + seq![46u8] + piece@.take(j + 1));
                if spec_all_ascii(s) {
                    assert(piece@ =~~= s[i as int]);
                    assert(b == s[i as int][j as int]);
                }
            }
            j += 1;
        }
        proof {
            let f = |p: Seq<u8>| seq![46u8] + p;
            s.drop_first().lemma_flat_map_take_append(f, i - 1);
            assert(piece@.take(piece@.len() as int) =~= piece@);
            assert(piece@ =~~= s.drop_first()[i - 1]);
            assert(out@ =~= s[0] + s.drop_first().take(i as int).flat_map(f));
        }
        i += 1;
    }
    proof {
        assert(s.drop_first().take(s.len() - 1) =~= s.drop_first());
    }
    out
}

/// Collects the display pieces of a stored name; `fuel` bounds the pointer
/// chase through the store.
#[verifier::loop_isolation(false)]
fn extract_items(store: &Vec<Label>, names: &[Label], fuel: usize) -> (r: Vec<Vec<u8>>)
    ensures
        r.deep_view() == spec_extract_items(store.deep_view(), names.deep_view(), fuel as nat),
        spec_all_ascii(r.deep_view()),
    decreases fuel, names@.len(),
{
    let ghost st = store.deep_view();
    let ghost nm = names.deep_view();
    let mut items: Vec<Vec<u8>> = Vec::new();
    proof {
        assert(nm.skip(0) =~= nm);
        assert(items.deep_view() =~= Seq::<Seq<u8>>::empty());
        assert(items.deep_view() + spec_extract_items(st, nm, fuel as nat) =~= spec_extract_items(
            st,
            nm,
            fuel as nat,
        ));
    }
    let mut i: usize = 0;
    loop
        invariant
            i <= nm.len(),
            spec_extract_items(st, nm, fuel as nat) == items.deep_view() + spec_extract_items(
                st,
                nm.skip(i as int),
                fuel as nat,
            ),
            spec_all_ascii(items.deep_view()),
        decreases nm.len() - i,
    {
        proof {
            if i < nm.len() {
                assert(nm.skip(i as int)[0] == nm[i as int]);
                assert(nm.skip(i as int).drop_first() =~= nm.skip(i + 1));
                assert(nm[i as int] == names@[i as int]@);
            }
        }
        if i >= names.len() {
            proof {
                assert(items.deep_view() + spec_extract_items(st, nm.skip(i as int), fuel as nat)
                    =~= items.deep_view());
            }
            return items;
        }
        match &names[i] {
            Label::Value(_, None) => {
                proof {
                    assert(items.deep_view() + spec_extract_items(
                        st,
                        nm.skip(i as int),
                        fuel as nat,
                    ) =~= items.deep_view());
                }
                return items;
            },
            Label::Value(_, Some(bytes)) => {
                let mut piece: Vec<u8> = Vec::new();
                push_escaped(&mut piece, bytes);
                let ghost prev = items.deep_view();
                let ghost pv = piece@;
                items.push(piece);
                proof {
                    assert(items.deep_view() =~~= prev + seq![spec_escape_label(bytes@)]);
                    let rest = spec_extract_items(st, nm.skip(i + 1), fuel as nat);
                    assert(prev + (seq![spec_escape_label(bytes@)] + rest) =~= (prev + seq![
                        spec_escape_label(bytes@),
                    ]) + rest);
                }
                i += 1;
            },
            Label::Pointer(_, pv) => {
                let piece: Vec<u8> = if fuel == 0 {
                    let empty_piece: Vec<u8> = Vec::new();
                    proof {
                        assert(empty_piece@ =~= Seq::<u8>::empty());
                    }
                    empty_piece
                } else {
                    let resolved = resolve_pointer(store, *pv);
                    let sub = extract_items(store, resolved.as_slice(), fuel - 1);
                    join_bytes(&sub)
                };
                let ghost prev = items.deep_view();
                let ghost piece_spec = piece@;
                items.push(piece);
                proof {
                    assert(items.deep_view() =~~= prev + seq![piece_spec]);
                    assert(spec_extract_items(st, nm.skip(i as int), fuel as nat) =~= seq![
                        piece_spec,
                    ]);
                }
                return items;
            },
        }
    }
}

/// Renders a name from the running label list as its raw labels spell it: leading value labels as dot-separated escaped text, a trailing
/// compression pointer as the rendering of the stored run it denotes.
pub fn extract_domain_name(label_store: &Vec<Label>, name_labels: &[Label]) -> (r: String)
    requires
        label_store@.len() < usize::MAX,
    ensures
        r@ == spec_extract_name(label_store.deep_view(), name_labels.deep_view()).map_values(
            |b: u8| b as char,
        ),
{
    let items = extract_items(label_store, name_labels, label_store.len() + 1);
    let bytes = join_bytes(&items);
    ascii_to_string(bytes)
}

/// The CLASS of a question or record; `Invalid` stands for every value
/// outside the four assigned ones.
#[derive(Clone, Copy, Debug, PartialEq, Eq, Structural)]
pub enum Class {
    Invalid,
    IN,
    CS,
    CH,
    HS,
}

/// The TYPE of a question or record, restricted to the tags a question may
/// carry; record types outside this set are kept numerically.
#[derive(Clone, Copy, Debug, PartialEq, Eq, Structural)]
pub enum Type {
    Invalid,
    A,
    NS,
    MD,
    MF,
    CNAME,
    SOA,
    MB,
    MG,
    MR,
    NULL,
    WKS,
    PTR,
    HINFO,
    MINFO,
    MX,
    TXT,
}

/// The class denoted by a 16-bit big-endian value.
pub open spec fn spec_class(n: int) -> Class {
    if n == 1 {
        Class::IN
    } else if n == 2 {
        Class::CS
    } else if n == 3 {
        Class::CH
    } else if n == 4 {
        Class::HS
    } else {
        Class::Invalid
    }
}

/// The type denoted by a 16-bit big-endian value.
pub open spec fn spec_type(n: int) -> Type {
    if n == 1 {
        Type::A
    } else if n == 2 {
        Type::NS
    } else if n == 3 {
        Type::MD
    } else if n == 4 {
        Type::MF
    } else if n == 5 {
        Type::CNAME
    } else if n == 6 {
        Type::SOA
    } else if n == 7 {
        Type::MB
    } else if n == 8 {
        Type::MG
    } else if n == 9 {
        Type::MR
    } else if n == 10 {
        Type::NULL
    } else if n == 11 {
        Type::WKS
    } else if n == 12 {
        Type::PTR
    } else if n == 13 {
        Type::HINFO
    } else if n == 14 {
        Type::MINFO
    } else if n == 15 {
        Type::MX
    } else if n == 16 {
        Type::TXT
    } else {
        Type::Invalid
    }
}

/// The 16-bit big-endian value of two bytes.
pub open spec fn spec_be16(hi: u8, lo: u8) -> int {
    hi * 256 + lo
}

/// Decodes a two-byte big-endian CLASS field.
pub fn parse_class(data: [u8; 2]) -> (r: Class)
    ensures
        r == spec_class(spec_be16(data@[0], data@[1])),
{
    let n: u16 = data[0] as u16 * 256 + data[1] as u16;
    match n {
        1 => Class::IN,
        2 => Class::CS,
        3 => Class::CH,
        4 => Class::HS,
        _ => Class::Invalid,
    }
}

/// Decodes a two-byte big-endian TYPE field.
pub fn parse_type(data: [u8; 2]) -> (r: Type)
    ensures
        r == spec_type(spec_be16(data@[0], data@[1])),
{
    let n: u16 = data[0] as u16 * 256 + data[1] as u16;
    match n {
        1 => Type::A,
        2 => Type::NS,
        3 => Type::MD,
        4 => Type::MF,
        5 => Type::CNAME,
        6 => Type::SOA,
        7 => Type::MB,
        8 => Type::MG,
        9 => Type::MR,
        10 => Type::NULL,
        11 => Type::WKS,
        12 => Type::PTR,
        13 => Type::HINFO,
        14 => Type::MINFO,
        15 => Type::MX,
        16 => Type::TXT,
        _ => Type::Invalid,
    }
}

} // verus!
