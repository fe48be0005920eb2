//! Reading datagram bytes out of the hex-dump text that packet-capture
//! tools print: lines of an offset column followed by space-separated hex
//! byte pairs.

use vstd::prelude::*;

verus! {

/// The position of the first `x` in `b` at or after `pos`, or the length of
/// `b` when none follows.
pub open spec fn spec_find_byte(b: Seq<u8>, pos: int, x: u8) -> int
    decreases b.len() - pos,
{
    if pos < 0 || pos >= b.len() {
        b.len() as int
    } else if b[pos] == x {
        pos
    } else {
        spec_find_byte(b, pos + 1, x)
    }
}

/// Whether `c` is an ASCII hexadecimal digit.
pub open spec fn spec_is_hex_digit(c: u8) -> bool {
    (48 <= c <= 57) || (97 <= c <= 102) || (65 <= c <= 70)
}

/// The value of an ASCII hexadecimal digit.
pub open spec fn spec_hex_value(c: u8) -> int {
    if 48 <= c <= 57 {
        c - 48
    } else if 97 <= c <= 102 {
        c - 87
    } else if 65 <= c <= 70 {
        c - 55
    } else {
        0
    }
}

/// The position of the first byte `x` at or after `pos` is never before
/// `pos` while `pos` is in range.
pub proof fn lemma_find_byte_ge(b: Seq<u8>, pos: int, x: u8)
    requires
        0 <= pos <= b.len(),
    ensures
        pos <= spec_find_byte(b, pos, x) <= b.len(),
    decreases b.len() - pos,
{
    if pos < b.len() && b[pos] != x {
        lemma_find_byte_ge(b, pos + 1, x);
    }
}

/// The position of the first space at or after `pos` is never before `pos`
/// while `pos` is at most `end`.
pub proof fn lemma_find_sep_ge(b: Seq<u8>, pos: int, end: int)
    requires
        pos <= end,
    ensures
        pos <= spec_find_sep(b, pos, end) <= end,
    decreases end - pos,
{
    if pos < end && b[pos] != 32 {
        lemma_find_sep_ge(b, pos + 1, end);
    }
}

/// The bytes of the space-separated tokens in `b[pos..end]`: each token's
/// first two characters, read as one hexadecimal byte.
pub open spec fn spec_dump_tokens(b: Seq<u8>, pos: int, end: int) -> Seq<u8>
    decreases end - pos,
    via spec_dump_tokens_decreases
{
    if pos >= end {
        Seq::empty()
    } else {
        let t = spec_find_sep(b, pos, end);
        let byte = (spec_hex_value(b[pos]) * 16 + spec_hex_value(b[pos + 1])) as u8;
        if t >= end {
            seq![byte]
        } else {
            seq![byte] + spec_dump_tokens(b, t + 1, end)
        }
    }
}

#[via_fn]
proof fn spec_dump_tokens_decreases(b: Seq<u8>, pos: int, end: int) {
    if pos < end {
        lemma_find_sep_ge(b, pos, end);
    }
}

/// The position of the first space in `b[pos..end]`, or `end`.
pub open spec fn spec_find_sep(b: Seq<u8>, pos: int, end: int) -> int
    decreases end - pos,
{
    if pos >= end {
        end
    } else if b[pos] == 32 {
        pos
    } else {
        spec_find_sep(b, pos + 1, end)
    }
}

/// The tokens in `b[pos..end]` are well formed: each is at least two
/// characters long and starts with two hexadecimal digits.
pub open spec fn spec_wf_dump_tokens(b: Seq<u8>, pos: int, end: int) -> bool
    decreases end - pos,
    via spec_wf_dump_tokens_decreases
{
    if pos >= end {
        true
    } else {
        let t = spec_find_sep(b, pos, end);
        &&& t - pos >= 2
        &&& spec_is_hex_digit(b[pos])
        &&& spec_is_hex_digit(b[pos + 1])
        &&& (t >= end || spec_wf_dump_tokens(b, t + 1, end))
    }
}

#[via_fn]
proof fn spec_wf_dump_tokens_decreases(b: Seq<u8>, pos: int, end: int) {
    if pos < end {
        lemma_find_sep_ge(b, pos, end);
    }
}

/// The bytes of a whole dump from `pos` on: every nonempty line drops its
/// seven-character offset column and contributes its tokens' bytes.
pub open spec fn spec_dump_bytes(b: Seq<u8>, pos: int) -> Seq<u8>
    decreases b.len() - pos,
    via spec_dump_bytes_decreases
{
    if pos < 0 || pos >= b.len() {
        Seq::empty()
    } else {
        let e = spec_find_byte(b, pos, 10);
        let rest = if e < b.len() {
            spec_dump_bytes(b, e + 1)
        } else {
            Seq::empty()
        };
        if e == pos {
            rest
        } else {
            spec_dump_tokens(b, pos + 7, e) + rest
        }
    }
}

#[via_fn]
proof fn spec_dump_bytes_decreases(b: Seq<u8>, pos: int) {
    if 0 <= pos < b.len() {
        lemma_find_byte_ge(b, pos, 10);
    }
}

/// A whole dump is well formed: every nonempty line is at least nine
/// characters, and past its offset column holds well-formed tokens.
pub open spec fn spec_wf_dump(b: Seq<u8>, pos: int) -> bool
    decreases b.len() - pos,
    via spec_wf_dump_decreases
{
    if pos < 0 || pos >= b.len() {
        true
    } else {
        let e = spec_find_byte(b, pos, 10);
        &&& (e == pos || (e - pos >= 9 && spec_wf_dump_tokens(b, pos + 7, e)))
        &&& (e >= b.len() || spec_wf_dump(b, e + 1))
    }
}

#[via_fn]
proof fn spec_wf_dump_decreases(b: Seq<u8>, pos: int) {
    if 0 <= pos < b.len() {
        lemma_find_byte_ge(b, pos, 10);
    }
}

/// The characters of an ASCII string, as bytes.
pub open spec fn spec_chars_bytes(cs: Seq<char>) -> Seq<u8> {
    cs.map_values(|c: char| c as u8)
}

/// The position of the first `x` in `data` at or after `pos`, or the length
/// of `data`.
fn find_byte(data: &[u8], pos: usize, x: u8) -> (r: usize)
    ensures
        r == spec_find_byte(data@, pos as int, x),
        pos <= r <= data@.len() || (pos > data@.len() && r == data@.len()),
    decreases data@.len() - pos,
{
    if pos >= data.len() {
        return data.len();
    }
    if data[pos] == x {
        return pos;
    }
    find_byte(data, pos + 1, x)
}

/// The position of the first space in `data[pos..end]`, or `end`.
fn find_sep(data: &[u8], pos: usize, end: usize) -> (r: usize)
    requires
        end <= data@.len(),
    ensures
        r == spec_find_sep(data@, pos as int, end as int),
        pos <= r <= end || (pos > end && r == end),
    decreases end - pos,
{
    if pos >= end {
        return end;
    }
    if data[pos] == 32 {
        return pos;
    }
    find_sep(data, pos + 1, end)
}

/// The value of an ASCII hexadecimal digit.
fn hex_value(c: u8) -> (r: u8)
    ensures
        r == spec_hex_value(c),
{
    if 48 <= c && c <= 57 {
        c - 48
    } else if 97 <= c && c <= 102 {
        c - 87
    } else if 65 <= c && c <= 70 {
        c - 55
    } else {
        0
    }
}

/// Appends the bytes of the tokens in `data[pos..end]` to `out`.
fn dump_tokens(data: &[u8], pos: usize, end: usize, out: &mut Vec<u8>)
    requires
        end <= data@.len(),
        spec_wf_dump_tokens(data@, pos as int, end as int),
    ensures
        final(out)@ == old(out)@ + spec_dump_tokens(data@, pos as int, end as int),
    decreases end - pos,
{
    if pos >= end {
        proof {
            assert(old(out)@ + spec_dump_tokens(data@, pos as int, end as int) =~= old(out)@);
        }
        return ;
    }
    let t = find_sep(data, pos, end);
    let byte = hex_value(data[pos]) * 16 + hex_value(data[pos + 1]);
    out.push(byte);
    if t >= end {
        proof {
            assert(final(out)@ =~= old(out)@ + seq![byte]);
        }
        return ;
    }
    dump_tokens(data, t + 1, end, out);
    proof {
        assert(out@ =~= old(out)@ + (seq![byte] + spec_dump_tokens(
            data@,
            t + 1,
            end as int,
        )));
    }
}

/// Appends the bytes of the dump from `pos` on to `out`.
fn dump_lines(data: &[u8], pos: usize, out: &mut Vec<u8>)
    requires
        spec_wf_dump(data@, pos as int),
    ensures
        final(out)@ == old(out)@ + spec_dump_bytes(data@, pos as int),
    decreases data@.len() - pos,
{
    if pos >= data.len() {
        proof {
            assert(old(out)@ + spec_dump_bytes(data@, pos as int) =~= old(out)@);
        }
        return ;
    }
    let e = find_byte(data, pos, 10);
    if e != pos {
        dump_tokens(data, pos + 7, e, out);
    }
    if e < data.len() {
        dump_lines(data, e + 1, out);
    }
    proof {
        let rest = if e < data@.len() {
            spec_dump_bytes(data@, e + 1)
        } else {
            Seq::<u8>::empty()
        };
        if e == pos {
            assert(out@ =~= old(out)@ + rest);
        } else {
            assert(out@ =~= old(out)@ + (spec_dump_tokens(data@, pos + 7, e as int) + rest));
        }
    }
}

/// Reads the datagram bytes out of an ASCII hex dump: each nonempty line
/// drops its seven-character offset column, and each remaining
/// space-separated token contributes the byte its first two hexadecimal
/// digits spell.
pub fn from_wire_shark(s: String) -> (r: Vec<u8>)
    requires
        vstd::utf8::is_ascii_chars(s@),
        spec_wf_dump(spec_chars_bytes(s@), 0),
    ensures
        r@ == spec_dump_bytes(spec_chars_bytes(s@), 0),
{
    let st = s.as_str();
    let bytes = st.as_bytes();
    proof {
        vstd::string::is_ascii_spec_bytes(st);
        assert(bytes@ =~= spec_chars_bytes(s@));
    }
    let mut out: Vec<u8> = Vec::new();
    proof {
        assert(out@ =~= Seq::<u8>::empty());
    }
    dump_lines(bytes, 0, &mut out);
    proof {
        assert(Seq::<u8>::empty() + spec_dump_bytes(spec_chars_bytes(s@), 0) =~= spec_dump_bytes(
            spec_chars_bytes(s@),
            0,
        ));
    }
    out
}

} // verus!
