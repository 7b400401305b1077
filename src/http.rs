//! HTTP/1.1 on the wire: the GET request, and framing of a response read
//! from a byte stream (status line, header block and one of three body
//! framings).
use vstd::prelude::*;

use crate::bytes::{
    append_bytes, copy_range, eq_bytes, index_from, index_of, is_space, lower, parse_bounded,
    parse_number, skip_space, split_once, to_lower, trim, trimmed,
};
use crate::error::FetchError;

verus! {

pub open spec fn transfer_encoding_word() -> Seq<u8> {
    seq![116u8, 114, 97, 110, 115, 102, 101, 114, 45, 101, 110, 99, 111, 100, 105, 110, 103]
}

pub(crate) fn transfer_encoding_bytes() -> (r: Vec<u8>)
    ensures
        r@ == transfer_encoding_word(),
{
    let v: Vec<u8> = vec![116u8, 114, 97, 110, 115, 102, 101, 114, 45, 101, 110, 99, 111, 100, 105, 110, 103];
    proof {
        assert(v@ =~= transfer_encoding_word());
    }
    v
}

pub open spec fn content_length_word() -> Seq<u8> {
    seq![99u8, 111, 110, 116, 101, 110, 116, 45, 108, 101, 110, 103, 116, 104]
}

pub(crate) fn content_length_bytes() -> (r: Vec<u8>)
    ensures
        r@ == content_length_word(),
{
    let v: Vec<u8> = vec![99u8, 111, 110, 116, 101, 110, 116, 45, 108, 101, 110, 103, 116, 104];
    proof {
        assert(v@ =~= content_length_word());
    }
    v
}

pub open spec fn location_word() -> Seq<u8> {
    seq![108u8, 111, 99, 97, 116, 105, 111, 110]
}

pub(crate) fn location_bytes() -> (r: Vec<u8>)
    ensures
        r@ == location_word(),
{
    let v: Vec<u8> = vec![108u8, 111, 99, 97, 116, 105, 111, 110];
    proof {
        assert(v@ =~= location_word());
    }
    v
}

pub open spec fn content_encoding_word() -> Seq<u8> {
    seq![99u8, 111, 110, 116, 101, 110, 116, 45, 101, 110, 99, 111, 100, 105, 110, 103]
}

pub(crate) fn content_encoding_bytes() -> (r: Vec<u8>)
    ensures
        r@ == content_encoding_word(),
{
    let v: Vec<u8> = vec![99u8, 111, 110, 116, 101, 110, 116, 45, 101, 110, 99, 111, 100, 105, 110, 103];
    proof {
        assert(v@ =~= content_encoding_word());
    }
    v
}

pub open spec fn gzip_word() -> Seq<u8> {
    seq![103u8, 122, 105, 112]
}

pub(crate) fn gzip_bytes() -> (r: Vec<u8>)
    ensures
        r@ == gzip_word(),
{
    let v: Vec<u8> = vec![103u8, 122, 105, 112];
    proof {
        assert(v@ =~= gzip_word());
    }
    v
}

pub open spec fn cache_control_word() -> Seq<u8> {
    seq![99u8, 97, 99, 104, 101, 45, 99, 111, 110, 116, 114, 111, 108]
}

pub(crate) fn cache_control_bytes() -> (r: Vec<u8>)
    ensures
        r@ == cache_control_word(),
{
    let v: Vec<u8> = vec![99u8, 97, 99, 104, 101, 45, 99, 111, 110, 116, 114, 111, 108];
    proof {
        assert(v@ =~= cache_control_word());
    }
    v
}

pub open spec fn request_tail_word() -> Seq<u8> {
    seq![67u8, 111, 110, 110, 101, 99, 116, 105, 111, 110, 58, 32, 107, 101, 101, 112, 45, 97, 108, 105, 118, 101, 13, 10, 85, 115, 101, 114, 45, 65, 103, 101, 110, 116, 58, 32, 80, 114, 111, 106, 101, 99, 116, 32, 80, 13, 10, 65, 99, 99, 101, 112, 116, 45, 69, 110, 99, 111, 100, 105, 110, 103, 58, 32, 103, 122, 105, 112, 13, 10, 13, 10]
}

pub(crate) fn request_tail_bytes() -> (r: Vec<u8>)
    ensures
        r@ == request_tail_word(),
{
    let v: Vec<u8> = vec![67u8, 111, 110, 110, 101, 99, 116, 105, 111, 110, 58, 32, 107, 101, 101, 112, 45, 97, 108, 105, 118, 101, 13, 10, 85, 115, 101, 114, 45, 65, 103, 101, 110, 116, 58, 32, 80, 114, 111, 106, 101, 99, 116, 32, 80, 13, 10, 65, 99, 99, 101, 112, 116, 45, 69, 110, 99, 111, 100, 105, 110, 103, 58, 32, 103, 122, 105, 112, 13, 10, 13, 10];
    proof {
        assert(v@ =~= request_tail_word());
    }
    v
}

pub open spec fn get_word() -> Seq<u8> {
    seq![71u8, 69, 84, 32]
}

pub(crate) fn get_bytes() -> (r: Vec<u8>)
    ensures
        r@ == get_word(),
{
    let v: Vec<u8> = vec![71u8, 69, 84, 32];
    proof {
        assert(v@ =~= get_word());
    }
    v
}

pub open spec fn version_host_word() -> Seq<u8> {
    seq![32u8, 72, 84, 84, 80, 47, 49, 46, 49, 13, 10, 72, 111, 115, 116, 58, 32]
}

pub(crate) fn version_host_bytes() -> (r: Vec<u8>)
    ensures
        r@ == version_host_word(),
{
    let v: Vec<u8> = vec![32u8, 72, 84, 84, 80, 47, 49, 46, 49, 13, 10, 72, 111, 115, 116, 58, 32];
    proof {
        assert(v@ =~= version_host_word());
    }
    v
}

/// End of the run of non-whitespace bytes that starts at `i`.
pub open spec fn token_end(s: Seq<u8>, i: int) -> int
    decreases s.len() - i,
{
    if i < 0 {
        0
    } else if i >= s.len() {
        i
    } else if is_space(s[i]) {
        i
    } else {
        token_end(s, i + 1)
    }
}

/// The second whitespace-separated field of a line.
pub open spec fn second_field(s: Seq<u8>) -> Option<Seq<u8>> {
    let b = token_end(s, skip_space(s, 0));
    let c = skip_space(s, b);
    if c >= s.len() {
        None
    } else {
        Some(s.subrange(c, token_end(s, c)))
    }
}

/// A header line `name: value` as a lower-cased, trimmed name and a trimmed
/// value; `None` for a line without `:`.
pub open spec fn header_of_line(line: Seq<u8>) -> Option<(Seq<u8>, Seq<u8>)> {
    match split_once(line, 58) {
        Some((n, v)) => Some((lower(trim(n)), trim(v))),
        None => None,
    }
}

/// The header lines from `pos` up to the blank line, with the position after
/// it; `None` while the blank line has not arrived.
pub open spec fn header_block(buf: Seq<u8>, pos: int) -> Option<(Seq<(Seq<u8>, Seq<u8>)>, int)>
    decreases buf.len() - pos,
{
    if pos < 0 || pos >= buf.len() {
        None
    } else {
        match index_from(buf, 10, pos) {
            None => None,
            Some(nl) => if nl < pos || nl >= buf.len() {
                None
            } else if buf.subrange(pos, nl + 1) == seq![13u8, 10] {
                Some((Seq::empty(), nl + 1))
            } else {
                match header_block(buf, nl + 1) {
                    None => None,
                    Some((rest, end)) => Some(
                        (
                            match header_of_line(buf.subrange(pos, nl + 1)) {
                                Some(h) => seq![h] + rest,
                                None => rest,
                            },
                            end,
                        ),
                    ),
                }
            },
        }
    }
}

/// The value of the last header called `name`.
pub open spec fn header_value(hs: Seq<(Seq<u8>, Seq<u8>)>, name: Seq<u8>) -> Option<Seq<u8>>
    decreases hs.len(),
{
    if hs.len() == 0 {
        None
    } else if hs.last().0 == name {
        Some(hs.last().1)
    } else {
        header_value(hs.drop_last(), name)
    }
}

/// How far a chunked body, or a whole response, could be read from the bytes
/// at hand.
pub enum Decoded {
    /// More bytes are needed.
    Incomplete,
    /// The bytes break the framing.
    Invalid,
    /// The body and the position just after it.
    Done(Seq<u8>, int),
}

/// The trailer lines after the last chunk: the position after the blank
/// line that ends them.
pub open spec fn trailer_end(buf: Seq<u8>, pos: int) -> Option<int>
    decreases buf.len() - pos,
{
    if pos < 0 || pos >= buf.len() {
        None
    } else {
        match index_from(buf, 10, pos) {
            None => None,
            Some(nl) => if nl < pos || nl >= buf.len() {
                None
            } else if buf.subrange(pos, nl + 1) == seq![13u8, 10] {
                Some(nl + 1)
            } else {
                trailer_end(buf, nl + 1)
            },
        }
    }
}

pub open spec fn prepend(d: Seq<u8>, r: Decoded) -> Decoded {
    match r {
        Decoded::Done(rest, end) => Decoded::Done(d + rest, end),
        other => other,
    }
}

/// Chunked transfer coding from `pos`: `<hex size>\r\n<data>\r\n` segments
/// up to a segment of size zero and its trailer.
pub open spec fn chunked_spec(buf: Seq<u8>, pos: int) -> Decoded
    decreases buf.len() - pos,
{
    if pos < 0 || pos >= buf.len() {
        Decoded::Incomplete
    } else {
        match index_from(buf, 10, pos) {
            None => Decoded::Incomplete,
            Some(nl) => if nl < pos || nl >= buf.len() {
                Decoded::Invalid
            } else {
                match parse_bounded(trim(buf.subrange(pos, nl + 1)), 16, 0xffff_ffff_ffff_ffff) {
                    None => Decoded::Invalid,
                    Some(n) => if n == 0 {
                        match trailer_end(buf, nl + 1) {
                            Some(end) => Decoded::Done(Seq::empty(), end),
                            None => Decoded::Incomplete,
                        }
                    } else if nl + 1 + n > buf.len() {
                        Decoded::Incomplete
                    } else {
                        match index_from(buf, 10, nl + 1 + n) {
                            None => Decoded::Incomplete,
                            Some(f) => if f < nl + 1 + n || f >= buf.len() {
                                Decoded::Invalid
                            } else {
                                prepend(
                                    buf.subrange(nl + 1, nl + 1 + n),
                                    chunked_spec(buf, f + 1),
                                )
                            },
                        }
                    },
                }
            },
        }
    }
}

/// The body that starts at `start`, framed by the headers: chunked when a
/// `transfer-encoding` header is present, else `content-length` bytes, else
/// everything up to the end of the stream.
pub open spec fn body_spec(
    buf: Seq<u8>,
    hs: Seq<(Seq<u8>, Seq<u8>)>,
    start: int,
    at_end: bool,
) -> Decoded {
    if header_value(hs, transfer_encoding_word()) is Some {
        chunked_spec(buf, start)
    } else {
        match header_value(hs, content_length_word()) {
            Some(cl) => match parse_bounded(cl, 10, 0xffff_ffff_ffff_ffff) {
                None => Decoded::Invalid,
                Some(n) => if start + n <= buf.len() {
                    Decoded::Done(buf.subrange(start, start + n), start + n)
                } else {
                    Decoded::Incomplete
                },
            },
            None => if at_end {
                Decoded::Done(buf.subrange(start, buf.len() as int), buf.len() as int)
            } else {
                Decoded::Incomplete
            },
        }
    }
}

/// What reading a response from a byte buffer yields, in mathematical terms.
pub enum ResponseSpec {
    Incomplete,
    Invalid,
    Done { status: Seq<u8>, headers: Seq<(Seq<u8>, Seq<u8>)>, body: Seq<u8> },
}

/// A response read from `buf`, where `at_end` tells whether the stream has
/// ended after these bytes.
pub open spec fn response_spec(buf: Seq<u8>, at_end: bool) -> ResponseSpec {
    match index_from(buf, 10, 0) {
        None => ResponseSpec::Incomplete,
        Some(i) => match second_field(buf.subrange(0, i + 1)) {
            None => ResponseSpec::Invalid,
            Some(status) => match header_block(buf, i + 1) {
                None => ResponseSpec::Incomplete,
                Some((hs, start)) => match body_spec(buf, hs, start, at_end) {
                    Decoded::Incomplete => ResponseSpec::Incomplete,
                    Decoded::Invalid => ResponseSpec::Invalid,
                    Decoded::Done(body, _) => ResponseSpec::Done { status, headers: hs, body },
                },
            },
        },
    }
}

pub open spec fn headers_view(v: Seq<(Vec<u8>, Vec<u8>)>) -> Seq<(Seq<u8>, Seq<u8>)> {
    v.map_values(|h: (Vec<u8>, Vec<u8>)| (h.0@, h.1@))
}

/// The GET request for `path` on `host`.
pub open spec fn request_spec(host: Seq<u8>, path: Seq<u8>) -> Seq<u8> {
    get_word() + path + version_host_word() + host + seq![13u8, 10] + request_tail_word()
}

/// A parsed HTTP response: status code text, lower-cased headers in the
/// order received, and the raw body.
#[derive(Debug, Clone)]
pub struct Response {
    pub status: Vec<u8>,
    pub headers: Vec<(Vec<u8>, Vec<u8>)>,
    pub body: Vec<u8>,
}

/// What reading a response from the bytes at hand gave.
#[derive(Debug, Clone)]
pub enum Framing {
    /// More bytes are needed.
    NeedMore,
    /// A whole response.
    Complete(Response),
    /// The response cannot be read.
    Failed(FetchError),
}

/// The value of the last header called `name` among `headers`.
pub fn find_header(headers: &Vec<(Vec<u8>, Vec<u8>)>, name: &[u8]) -> (r: Option<Vec<u8>>)
    ensures
        r matches Some(v) ==> header_value(headers_view(headers@), name@) == Some(v@),
        r is None ==> header_value(headers_view(headers@), name@) is None,
{
    let mut k: usize = headers.len();
    assert(headers@.subrange(0, k as int) =~= headers@);
    while k > 0
        invariant
            k <= headers.len(),
            header_value(headers_view(headers@), name@) == header_value(
                headers_view(headers@.subrange(0, k as int)),
                name@,
            ),
        decreases k,
    {
        let ghost hv = headers_view(headers@.subrange(0, k as int));
        assert(hv.drop_last() =~= headers_view(headers@.subrange(0, k - 1)));
        assert(hv.last() == (headers@[k - 1].0@, headers@[k - 1].1@));
        if eq_bytes(headers[k - 1].0.as_slice(), name) {
            return Some(copy_range(headers[k - 1].1.as_slice(), 0, headers[k - 1].1.len()));
        }
        k -= 1;
    }
    None
}

/// The second whitespace-separated field of `line`.
fn second_field_of(line: &[u8]) -> (r: Option<Vec<u8>>)
    ensures
        r matches Some(v) ==> second_field(line@) == Some(v@),
        r is None ==> second_field(line@) is None,
{
    let mut i: usize = 0;
    while i < line.len() && (line[i] == 32 || (9 <= line[i] && line[i] <= 13))
        invariant
            i <= line.len(),
            skip_space(line@, 0) == skip_space(line@, i as int),
        decreases line.len() - i,
    {
        i += 1;
    }
    let ghost a = i as int;
    while i < line.len() && !(line[i] == 32 || (9 <= line[i] && line[i] <= 13))
        invariant
            a <= i <= line.len(),
            token_end(line@, a) == token_end(line@, i as int),
        decreases line.len() - i,
    {
        i += 1;
    }
    let ghost b = i as int;
    while i < line.len() && (line[i] == 32 || (9 <= line[i] && line[i] <= 13))
        invariant
            b <= i <= line.len(),
            skip_space(line@, b) == skip_space(line@, i as int),
        decreases line.len() - i,
    {
        i += 1;
    }
    if i >= line.len() {
        return None;
    }
    let c = i;
    while i < line.len() && !(line[i] == 32 || (9 <= line[i] && line[i] <= 13))
        invariant
            c <= i <= line.len(),
            token_end(line@, c as int) == token_end(line@, i as int),
        decreases line.len() - i,
    {
        i += 1;
    }
    Some(copy_range(line, c, i))
}

/// Parses one header line.
fn header_of(line: &[u8]) -> (r: Option<(Vec<u8>, Vec<u8>)>)
    ensures
        r matches Some(h) ==> header_of_line(line@) == Some((h.0@, h.1@)),
        r is None ==> header_of_line(line@) is None,
{
    match index_of(line, 58, 0) {
        None => None,
        Some(c) => {
            let name = copy_range(line, 0, c);
            let value = copy_range(line, c + 1, line.len());
            let n = trimmed(name.as_slice());
            Some((to_lower(n.as_slice()), trimmed(value.as_slice())))
        },
    }
}

/// Whether `buf[pos..=nl]` is exactly `\r\n`.
fn is_blank_line(buf: &[u8], pos: usize, nl: usize) -> (r: bool)
    requires
        pos <= nl < buf.len(),
    ensures
        r == (buf@.subrange(pos as int, nl + 1) == seq![13u8, 10]),
{
    if nl == pos + 1 && buf[pos] == 13 && buf[nl] == 10 {
        assert(buf@.subrange(pos as int, nl + 1) =~= seq![13u8, 10]);
        true
    } else {
        proof {
            if buf@.subrange(pos as int, nl + 1) == seq![13u8, 10] {
                assert(buf@.subrange(pos as int, nl + 1).len() == 2);
                assert(nl == pos + 1);
                assert(buf@.subrange(pos as int, nl + 1)[0] == buf[pos as int]);
                assert(buf@.subrange(pos as int, nl + 1)[1] == buf[pos + 1]);
            }
        }
        false
    }
}

pub open spec fn prepend_headers(
    acc: Seq<(Seq<u8>, Seq<u8>)>,
    r: Option<(Seq<(Seq<u8>, Seq<u8>)>, int)>,
) -> Option<(Seq<(Seq<u8>, Seq<u8>)>, int)> {
    match r {
        Some((rest, end)) => Some((acc + rest, end)),
        None => None,
    }
}

/// Reads the header block from `pos`.
fn read_headers(buf: &[u8], pos: usize) -> (r: Option<(Vec<(Vec<u8>, Vec<u8>)>, usize)>)
    ensures
        r matches Some((hs, end)) ==> header_block(buf@, pos as int) == Some(
            (headers_view(hs@), end as int),
        ) && end <= buf.len(),
        r is None ==> header_block(buf@, pos as int) is None,
{
    let mut hs: Vec<(Vec<u8>, Vec<u8>)> = Vec::new();
    let mut p: usize = pos;
    loop
        invariant
            pos <= p,
            header_block(buf@, pos as int) == prepend_headers(
                headers_view(hs@),
                header_block(buf@, p as int),
            ),
        decreases buf.len() - p,
    {
        if p >= buf.len() {
            return None;
        }
        let nl = match index_of(buf, 10, p) {
            Some(nl) => nl,
            None => {
                return None;
            },
        };
        if is_blank_line(buf, p, nl) {
            assert(headers_view(hs@) + Seq::empty() =~= headers_view(hs@));
            return Some((hs, nl + 1));
        }
        let line = copy_range(buf, p, nl + 1);
        let ghost before = hs@;
        match header_of(line.as_slice()) {
            Some(h) => {
                hs.push(h);
                proof {
                    assert(headers_view(hs@) =~= headers_view(before) + seq![(h.0@, h.1@)]);
                    match header_block(buf@, nl + 1) {
                        Some((rest, end)) => {
                            assert(headers_view(before) + (seq![(h.0@, h.1@)] + rest)
                                =~= headers_view(hs@) + rest);
                        },
                        None => {},
                    }
                }
            },
            None => {},
        }
        p = nl + 1;
    }
}

/// Parses a chunk-size line `buf[pos..=nl]`.
fn chunk_size(buf: &[u8], pos: usize, nl: usize) -> (r: Option<u64>)
    requires
        pos <= nl < buf.len(),
    ensures
        r matches Some(n) ==> parse_bounded(
            trim(buf@.subrange(pos as int, nl + 1)),
            16,
            0xffff_ffff_ffff_ffff,
        ) == Some(n as nat),
        r is None ==> parse_bounded(
            trim(buf@.subrange(pos as int, nl + 1)),
            16,
            0xffff_ffff_ffff_ffff,
        ) is None,
{
    let line = copy_range(buf, pos, nl + 1);
    let t = trimmed(line.as_slice());
    parse_number(t.as_slice(), 16, 0xffff_ffff_ffff_ffff)
}

/// Skips the trailer after the last chunk.
fn skip_trailer(buf: &[u8], pos: usize) -> (r: Option<usize>)
    ensures
        r matches Some(e) ==> trailer_end(buf@, pos as int) == Some(e as int) && e <= buf.len(),
        r is None ==> trailer_end(buf@, pos as int) is None,
{
    let mut p: usize = pos;
    loop
        invariant
            trailer_end(buf@, pos as int) == trailer_end(buf@, p as int),
        decreases buf.len() - p,
    {
        if p >= buf.len() {
            return None;
        }
        let nl = match index_of(buf, 10, p) {
            Some(nl) => nl,
            None => {
                return None;
            },
        };
        if is_blank_line(buf, p, nl) {
            return Some(nl + 1);
        }
        p = nl + 1;
    }
}

/// What decoding a chunked body gave.
#[derive(Debug, Clone)]
pub enum Chunked {
    /// More bytes are needed.
    Incomplete,
    /// A size line is not hexadecimal.
    Invalid,
    /// The body and the position just after its trailer.
    Done(Vec<u8>, usize),
}

/// Decodes the chunked body that starts at `pos`: the concatenation of the
/// chunks in order.
pub fn read_chunked(buf: &[u8], pos: usize) -> (r: Chunked)
    ensures
        r matches Chunked::Done(body, end) ==> chunked_spec(buf@, pos as int) == Decoded::Done(
            body@,
            end as int,
        ) && end <= buf.len(),
        r is Incomplete ==> chunked_spec(buf@, pos as int) is Incomplete,
        r is Invalid ==> chunked_spec(buf@, pos as int) is Invalid,
{
    let mut body: Vec<u8> = Vec::new();
    let mut p: usize = pos;
    loop
        invariant
            chunked_spec(buf@, pos as int) == prepend(body@, chunked_spec(buf@, p as int)),
        decreases buf.len() - p,
    {
        if p >= buf.len() {
            return Chunked::Incomplete;
        }
        let nl = match index_of(buf, 10, p) {
            Some(nl) => nl,
            None => {
                return Chunked::Incomplete;
            },
        };
        let n = match chunk_size(buf, p, nl) {
            Some(n) => n,
            None => {
                return Chunked::Invalid;
            },
        };
        if n == 0 {
            return match skip_trailer(buf, nl + 1) {
                Some(end) => {
                    assert(body@ + Seq::empty() =~= body@);
                    Chunked::Done(body, end)
                },
                None => Chunked::Incomplete,
            };
        }
        if n > (buf.len() - (nl + 1)) as u64 {
            return Chunked::Incomplete;
        }
        let ds: usize = nl + 1;
        let de: usize = ds + n as usize;
        let f = match index_of(buf, 10, de) {
            Some(f) => f,
            None => {
                return Chunked::Incomplete;
            },
        };
        let data = copy_range(buf, ds, de);
        let ghost before = body@;
        append_bytes(&mut body, data.as_slice());
        proof {
            match chunked_spec(buf@, f + 1) {
                Decoded::Done(rest, end) => {
                    assert(before + (data@ + rest) =~= body@ + rest);
                },
                _ => {},
            }
        }
        p = f + 1;
    }
}

/// Reads a response from the bytes received so far. `at_end` tells whether
/// the stream has ended after them; a response that is still incomplete
/// then fails with `ProtocolError`, as does one that breaks the framing.
pub fn frame_response(buf: &[u8], at_end: bool) -> (r: Framing)
    ensures
        r matches Framing::Complete(resp) ==> response_spec(buf@, at_end) == (ResponseSpec::Done {
            status: resp.status@,
            headers: headers_view(resp.headers@),
            body: resp.body@,
        }),
        r is NeedMore <==> !at_end && response_spec(buf@, at_end) is Incomplete,
        r matches Framing::Failed(e) ==> e == FetchError::ProtocolError && (
        response_spec(buf@, at_end) is Invalid || response_spec(buf@, at_end) is Incomplete),
{
    let incomplete = if at_end {
        Framing::Failed(FetchError::ProtocolError)
    } else {
        Framing::NeedMore
    };
    let i = match index_of(buf, 10, 0) {
        Some(i) => i,
        None => {
            return incomplete;
        },
    };
    let line = copy_range(buf, 0, i + 1);
    let status = match second_field_of(line.as_slice()) {
        Some(s) => s,
        None => {
            return Framing::Failed(FetchError::ProtocolError);
        },
    };
    let (headers, start) = match read_headers(buf, i + 1) {
        Some(p) => p,
        None => {
            return incomplete;
        },
    };
    let ghost hs = headers_view(headers@);
    let body = if find_header(&headers, transfer_encoding_bytes().as_slice()).is_some() {
        match read_chunked(buf, start) {
            Chunked::Done(body, _) => body,
            Chunked::Incomplete => {
                return incomplete;
            },
            Chunked::Invalid => {
                return Framing::Failed(FetchError::ProtocolError);
            },
        }
    } else {
        match find_header(&headers, content_length_bytes().as_slice()) {
            Some(cl) => match parse_number(cl.as_slice(), 10, 0xffff_ffff_ffff_ffff) {
                None => {
                    return Framing::Failed(FetchError::ProtocolError);
                },
                Some(n) => if n <= (buf.len() - start) as u64 {
                    copy_range(buf, start, start + n as usize)
                } else {
                    return incomplete;
                },
            },
            None => if at_end {
                copy_range(buf, start, buf.len())
            } else {
                return incomplete;
            },
        }
    };
    Framing::Complete(Response { status, headers, body })
}

/// The GET request for `path` on `host`, with the fixed header set.
pub fn request_bytes(host: &[u8], path: &[u8]) -> (r: Vec<u8>)
    ensures
        r@ == request_spec(host@, path@),
{
    let mut r = get_bytes();
    append_bytes(&mut r, path);
    let vh = version_host_bytes();
    append_bytes(&mut r, vh.as_slice());
    append_bytes(&mut r, host);
    r.push(13u8);
    r.push(10u8);
    let tail = request_tail_bytes();
    append_bytes(&mut r, tail.as_slice());
    assert(r@ =~= request_spec(host@, path@));
    r
}

} // verus!
