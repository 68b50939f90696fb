//! The protocol engine: status table, header model, request frame, and the
//! pure framing logic of the connection I/O layer.
//!
//! The framing functions work on the byte sequence a socket delivers: the
//! caller reads raw bytes outside the library and hands them in; the
//! functions say exactly which prefix forms the header block, which bytes
//! form the body, and what a relay forwards.
//!
//! Body and relay termination deliberately use this engine's in-band
//! convention: a zero byte in the stream, or a relay chunk with no nonzero
//! byte, marks the end of the transfer.  This matches the paired writer,
//! which closes a body with a zero byte; it is not safe for arbitrary
//! binary payloads, where a legitimate zero byte would end the transfer
//! early.

use vstd::prelude::*;
use vstd::string::StringExecFns;
use crate::text;
use crate::prelude::{space_bef_cap, space_bef_cap_spec};
use crate::prelude::constants::CHUNK_SIZE;

pub mod header;
pub mod headers;
pub mod request;
pub mod status;

verus! {

/// End of line of the wire format.
pub const CRLF: &'static str = "\r\n";

/// Version token of the wire format.
pub const VERSION: &'static str = "HTTP/1.1";

/// The failures the protocol engine reports to its callers.
#[derive(Clone, Copy, PartialEq, Eq, Structural, Debug)]
pub enum HttpError {
    /// A header block or status line that cannot be read as required.
    InvalidInput,
    /// Bytes that do not decode as text.
    InvalidData,
}

/// Relies on `str::from_utf8`: it succeeds exactly on valid UTF-8 and
/// decodes it; the string is then owned via `str::to_owned`.
#[verifier::external_body]
pub fn bytes_to_string(b: &Vec<u8>) -> (r: Option<String>)
    ensures
        r is Some <==> vstd::utf8::valid_utf8(b@),
        r is Some ==> r.unwrap()@ == vstd::utf8::decode_utf8(b@),
{
    match core::str::from_utf8(b.as_slice()) {
        Ok(s) => Some(s.to_owned()),
        Err(_) => None,
    }
}

/// The statuses the proxy itself answers with.
#[derive(Debug, Clone, Copy, PartialEq, Eq, Structural)]
pub enum Status {
    OK,
    BadRequest,
    BadGateway,
}

/// The numeric code of a proxy status.
pub open spec fn status_code(s: Status) -> u16 {
    match s {
        Status::OK => 200,
        Status::BadRequest => 400,
        Status::BadGateway => 502,
    }
}

/// The camel-cased name of a proxy status.
pub open spec fn status_name(s: Status) -> Seq<char> {
    match s {
        Status::OK => "OK"@,
        Status::BadRequest => "BadRequest"@,
        Status::BadGateway => "BadGateway"@,
    }
}

/// The status line the proxy writes: version, code, spaced name, CRLF.
pub open spec fn status_line_text(s: Status) -> Seq<char> {
    "HTTP/1.1"@ + seq![' '] + text::dec_rep(status_code(s) as nat) + space_bef_cap_spec(
        status_name(s),
    ) + text::crlf()
}

impl Status {
    /// The numeric code of this status.
    pub fn code(&self) -> (r: u16)
        ensures
            r == status_code(*self),
    {
        match self {
            Status::OK => 200,
            Status::BadRequest => 400,
            Status::BadGateway => 502,
        }
    }

    /// The camel-cased name of this status.
    pub fn name(&self) -> (r: String)
        ensures
            r@ == status_name(*self),
    {
        match self {
            Status::OK => String::from_str("OK"),
            Status::BadRequest => String::from_str("BadRequest"),
            Status::BadGateway => String::from_str("BadGateway"),
        }
    }
}

/// Renders the status line the proxy writes for one of its own statuses,
/// such as `HTTP/1.1 502 Bad Gateway` with its line end.
pub fn status_line(status: &Status) -> (r: String)
    ensures
        r@ == status_line_text(*status),
{
    let mut out = text::str_chars("HTTP/1.1");
    out.push(' ');
    text::push_dec(status.code() as u64, &mut out);
    let spaced = space_bef_cap(status.name());
    let mut spaced_chars = text::str_chars(spaced.as_str());
    out.append(&mut spaced_chars);
    out.push('\r');
    out.push('\n');
    proof {
        assert(out@ =~= status_line_text(*status));
    }
    text::chars_string(&out)
}

/// Renders the content-length line, such as `Content-Length: 4` with its
/// line end.
pub fn content_length_line(len: usize) -> (r: String)
    ensures
        r@ == "Content-Length: "@ + text::dec_rep(len as nat) + text::crlf(),
{
    let mut out = text::str_chars("Content-Length: ");
    text::push_dec(len as u64, &mut out);
    out.push('\r');
    out.push('\n');
    proof {
        assert(out@ =~= "Content-Length: "@ + text::dec_rep(len as nat) + text::crlf());
    }
    text::chars_string(&out)
}

/// Renders the blank line that ends a header block.
pub fn end_line() -> (r: String)
    ensures
        r@ == text::crlf(),
{
    let out: Vec<char> = vec!['\r', '\n'];
    proof {
        assert(out@ =~= text::crlf());
    }
    text::chars_string(&out)
}

/// Renders the end-of-body marker `0` followed by two line ends.
pub fn zero_byte_marker() -> (r: String)
    ensures
        r@ == seq!['0', '\r', '\n', '\r', '\n'],
{
    let out: Vec<char> = vec!['0', '\r', '\n', '\r', '\n'];
    proof {
        assert(out@ =~= seq!['0', '\r', '\n', '\r', '\n']);
    }
    text::chars_string(&out)
}

/// A header block ends right at `n`: the byte before it is a line feed
/// closing a blank line, watched for with a two-byte lookback.
pub open spec fn header_end_at(s: Seq<u8>, n: int) -> bool {
    &&& 4 <= n <= s.len()
    &&& s[n - 1] == 10
    &&& (s[n - 2] == 10 || (s[n - 2] == 13 && s[n - 3] == 10))
}

/// The length of the header block at the stream's start: the least
/// end position, or the whole stream when no blank line arrives.
pub open spec fn header_block_len(s: Seq<u8>) -> int {
    match text::first_idx_from((s.len() + 1) as nat, 0, |m: int| header_end_at(s, m)) {
        Some(n) => n as int,
        None => s.len() as int,
    }
}

/// Reads one header block off the byte stream a socket delivers: byte by
/// byte until the lookback sees a blank line, or to the end of the stream
/// when the peer closes first.
pub fn read_headers(stream: &Vec<u8>) -> (r: Vec<u8>)
    ensures
        r@ == stream@.take(header_block_len(stream@)),
{
    let mut buf: Vec<u8> = Vec::new();
    let mut i: usize = 0;
    proof {
        assert(stream@.take(0) =~= Seq::<u8>::empty());
    }
    while i < stream.len()
        invariant
            i <= stream@.len(),
            buf@ == stream@.take(i as int),
            forall|m: int| 0 <= m <= i ==> !header_end_at(stream@, m),
        decreases stream@.len() - i,
    {
        let b = stream[i];
        let l = buf.len();
        if l > 2 && b == 10 && (buf[l - 1] == 10 || (buf[l - 1] == 13 && buf[l - 2] == 10)) {
            buf.push(b);
            proof {
                assert(buf@ =~= stream@.take(i + 1));
                assert(header_end_at(stream@, i + 1));
                text::lemma_first_idx_from_is(
                    (stream@.len() + 1) as nat,
                    0,
                    |m: int| header_end_at(stream@, m),
                    i + 1int,
                );
            }
            return buf;
        }
        buf.push(b);
        i = i + 1;
        proof {
            assert(buf@ =~= stream@.take(i as int));
            assert(!header_end_at(stream@, i as int));
        }
    }
    proof {
        text::lemma_first_idx_from_is_none(
            (stream@.len() + 1) as nat,
            0,
            |m: int| header_end_at(stream@, m),
        );
        assert(buf@ =~= stream@.take(header_block_len(stream@)));
    }
    buf
}

/// One step of the header scan on a live socket: appends the byte just
/// read and says whether it completed the block.
pub fn header_scan_step(buf: &mut Vec<u8>, b: u8) -> (done: bool)
    ensures
        final(buf)@ == old(buf)@.push(b),
        done == header_end_at(final(buf)@, final(buf)@.len() as int),
{
    let l = buf.len();
    let done = l > 2 && b == 10 && (buf[l - 1] == 10 || (buf[l - 1] == 13 && buf[l - 2] == 10));
    buf.push(b);
    proof {
        let s = buf@;
        let n = s.len() as int;
        assert(s[n - 1] == b);
        if l > 2 {
            assert(s[n - 2] == old(buf)@[l - 1]);
            assert(s[n - 3] == old(buf)@[l - 2]);
        }
    }
    done
}

/// The body read off a stream: every byte before the first zero byte, the
/// whole stream when it has none, and nothing at all when no body is
/// announced.
pub open spec fn body_len(s: Seq<u8>) -> int {
    match text::first_idx_from(s.len() as nat, 0, |m: int| s[m] == 0) {
        Some(n) => n as int,
        None => s.len() as int,
    }
}

/// Reads a body off the byte stream a socket delivers: nothing when no
/// body is announced (no length and not chunked), otherwise every byte up
/// to the first zero byte, which marks the end of the transfer.
pub fn read_body(stream: &Vec<u8>, content_length: u32, chunked: bool) -> (r: Vec<u8>)
    ensures
        content_length == 0 && !chunked ==> r@ == Seq::<u8>::empty(),
        !(content_length == 0 && !chunked) ==> r@ == stream@.take(body_len(stream@)),
{
    if content_length == 0 && !chunked {
        let r: Vec<u8> = Vec::new();
        proof {
            assert(r@ =~= Seq::<u8>::empty());
        }
        return r;
    }
    let mut buf: Vec<u8> = Vec::new();
    let mut i: usize = 0;
    proof {
        assert(stream@.take(0) =~= Seq::<u8>::empty());
    }
    while i < stream.len()
        invariant
            !(content_length == 0 && !chunked),
            i <= stream@.len(),
            buf@ == stream@.take(i as int),
            forall|m: int| 0 <= m < i ==> stream@[m] != 0,
        decreases stream@.len() - i,
    {
        let b = stream[i];
        if b == 0 {
            proof {
                text::lemma_first_idx_from_is(
                    stream@.len() as nat,
                    0,
                    |m: int| stream@[m] == 0,
                    i as int,
                );
            }
            return buf;
        }
        buf.push(b);
        i = i + 1;
        proof {
            assert(buf@ =~= stream@.take(i as int));
        }
    }
    proof {
        text::lemma_first_idx_from_is_none(stream@.len() as nat, 0, |m: int| stream@[m] == 0);
        assert(buf@ =~= stream@.take(body_len(stream@)));
    }
    buf
}

/// The prefix of one chunk before its first zero byte, and whether the
/// chunk held one: a live socket's body loop stops at the first hit.
pub fn body_scan_chunk(chunk: &Vec<u8>) -> (r: (Vec<u8>, bool))
    ensures
        r.0@ == chunk@.take(body_len(chunk@)),
        r.1 == (body_len(chunk@) < chunk@.len()),
{
    let mut buf: Vec<u8> = Vec::new();
    let mut i: usize = 0;
    proof {
        assert(chunk@.take(0) =~= Seq::<u8>::empty());
    }
    while i < chunk.len()
        invariant
            i <= chunk@.len(),
            buf@ == chunk@.take(i as int),
            forall|m: int| 0 <= m < i ==> chunk@[m] != 0,
        decreases chunk@.len() - i,
    {
        let b = chunk[i];
        if b == 0 {
            proof {
                text::lemma_first_idx_from_is(
                    chunk@.len() as nat,
                    0,
                    |m: int| chunk@[m] == 0,
                    i as int,
                );
            }
            return (buf, true);
        }
        buf.push(b);
        i = i + 1;
        proof {
            assert(buf@ =~= chunk@.take(i as int));
        }
    }
    proof {
        text::lemma_first_idx_from_is_none(chunk@.len() as nat, 0, |m: int| chunk@[m] == 0);
        assert(buf@ =~= chunk@.take(body_len(chunk@)));
    }
    (buf, false)
}

/// The nonzero bytes of one relay chunk, in order.
pub fn filter_zero_bytes(chunk: &Vec<u8>) -> (r: Vec<u8>)
    ensures
        r@ == chunk@.filter(|b: u8| b != 0),
{
    proof {
        reveal(Seq::filter);
    }
    let mut out: Vec<u8> = Vec::new();
    let mut i: usize = 0;
    proof {
        assert(chunk@.take(0) =~= Seq::<u8>::empty());
        assert(out@ =~= chunk@.take(0).filter(|b: u8| b != 0));
    }
    while i < chunk.len()
        invariant
            i <= chunk@.len(),
            out@ == chunk@.take(i as int).filter(|b: u8| b != 0),
        decreases chunk@.len() - i,
    {
        let b = chunk[i];
        if b != 0 {
            out.push(b);
        }
        i = i + 1;
        proof {
            reveal(Seq::filter);
            let cur = chunk@.take(i as int);
            assert(cur.drop_last() =~= chunk@.take(i as int - 1));
            assert(cur.last() == chunk@[i as int - 1]);
        }
    }
    proof {
        assert(chunk@.take(chunk@.len() as int) =~= chunk@);
    }
    out
}

/// A decoded body with its chunk markers removed, scanning left to right:
/// at each position, a digit run followed by a line end is dropped whole
/// (with a lone `0` closing the text), any other character is kept.
pub open spec fn strip_markers(s: Seq<char>) -> Seq<char>
    decreases s.len(),
{
    if s.len() == 0 {
        s
    } else {
        let k = text::run_end(s, 0, |c: char| text::is_digit(c));
        if k + 1 < s.len() && s[k as int] == '\r' && s[k + 1int] == '\n' {
            if k + 2 < s.len() && s[k + 2int] == '0' && k + 3 == s.len() {
                strip_markers(s.skip(k + 3int))
            } else {
                strip_markers(s.skip(k + 2int))
            }
        } else {
            seq![s[0]] + strip_markers(s.skip(1))
        }
    }
}

/// Removes the chunk markers from a decoded body.
fn strip_markers_exec(v: &Vec<char>) -> (r: Vec<char>)
    ensures
        r@ == strip_markers(v@),
{
    let mut out: Vec<char> = Vec::new();
    let mut i: usize = 0;
    proof {
        assert(v@.skip(0) =~= v@);
        assert(out@ + strip_markers(v@) =~= strip_markers(v@));
    }
    while i < v.len()
        invariant
            i <= v@.len(),
            strip_markers(v@) == out@ + strip_markers(v@.skip(i as int)),
        decreases v@.len() - i,
    {
        let ghost t = v@.skip(i as int);
        proof {
            assert(v@.len() == v.len());
            text::lemma_run_end_shift(v@, i as nat, 0, |c: char| text::is_digit(c));
        }
        let k_abs = text::digit_run_end(v, i);
        let ghost k = text::run_end(t, 0, |c: char| text::is_digit(c));
        proof {
            assert(k == k_abs - i);
        }
        if k_abs < v.len() && v.len() - k_abs > 1 && v[k_abs] == '\r' && v[k_abs + 1] == '\n' {
            proof {
                assert(t[k as int] == v@[k_abs as int]);
                assert(t[k + 1int] == v@[k_abs + 1int]);
            }
            if v.len() - k_abs == 3 && v[k_abs + 2] == '0' {
                proof {
                    assert(t[k + 2int] == v@[k_abs + 2int]);
                    assert(k + 3 == t.len());
                    assert(t.skip(k + 3int) =~= v@.skip(v@.len() as int));
                    assert(strip_markers(t) == strip_markers(t.skip(k + 3int)));
                }
                i = v.len();
            } else {
                proof {
                    if k + 2 < t.len() && t[k + 2int] == '0' && k + 3 == t.len() {
                        assert(v.len() - k_abs == 3 && v@[k_abs + 2int] == '0');
                        assert(false);
                    }
                    assert(strip_markers(t) == strip_markers(t.skip(k + 2int)));
                    assert(t.skip(k + 2int) =~= v@.skip(k_abs + 2int));
                }
                i = k_abs + 2;
            }
        } else {
            proof {
                if k + 1 < t.len() && t[k as int] == '\r' && t[k + 1int] == '\n' {
                    assert(v@[k_abs as int] == '\r' && v@[k_abs + 1int] == '\n');
                    assert(false);
                }
                assert(strip_markers(t) == seq![t[0]] + strip_markers(t.skip(1)));
                assert(t[0] == v@[i as int]);
                assert(t.skip(1) =~= v@.skip(i + 1));
            }
            let ghost out0 = out@;
            out.push(v[i]);
            i = i + 1;
            proof {
                assert(out@ =~= out0 + seq![v@[i - 1]]);
                assert(out@ + strip_markers(v@.skip(i as int)) =~= out0 + strip_markers(
                    v@.skip(i - 1),
                ));
            }
        }
    }
    proof {
        assert(v@.skip(v@.len() as int) =~= Seq::<char>::empty());
        assert(out@ + Seq::<char>::empty() =~= out@);
    }
    out
}

/// A body framed in one-byte chunks and closed by the end-of-body marker
/// strips back to exactly the body's characters: the echo target's
/// framing and the client's reconstruction are inverse on bodies free of
/// digits and line breaks.
pub proof fn lemma_chunk_round_trip(b: Seq<u8>)
    requires
        forall|i: int|
            0 <= i < b.len() ==> (#[trigger] b[i]) < 128 && !text::is_digit(b[i] as char) && b[i]
                != 13 && b[i] != 10,
    ensures
        strip_markers(crate::prelude::chunk_encoding(b) + seq!['0', '\r', '\n', '\r', '\n'])
            == b.map_values(|x: u8| x as char),
    decreases b.len(),
{
    let digit = |c: char| text::is_digit(c);
    let marker = seq!['0', '\r', '\n', '\r', '\n'];
    if b.len() == 0 {
        let s = crate::prelude::chunk_encoding(b) + marker;
        assert(s =~= marker);
        text::lemma_run_end_is(s, 0, digit, 1);
        assert(strip_markers(s) == strip_markers(s.skip(3)));
        let s2 = s.skip(3);
        assert(s2 =~= seq!['\r', '\n']);
        text::lemma_run_end_is(s2, 0, digit, 0);
        assert(strip_markers(s2) == strip_markers(s2.skip(2)));
        assert(s2.skip(2) =~= Seq::<char>::empty());
        assert(strip_markers(s) =~= b.map_values(|x: u8| x as char));
    } else {
        let c = b[0] as char;
        let tail = b.drop_first();
        let rest = crate::prelude::chunk_encoding(tail);
        let t = rest + marker;
        let s = crate::prelude::chunk_encoding(b) + marker;
        assert(s =~= seq!['1', '\r', '\n', c, '\r', '\n'] + t);
        assert(('\r' as u8) == 13 && ('\n' as u8) == 10);
        assert(c != '\r' && c != '\n' && !text::is_digit(c));
        // The leading chunk size line is dropped whole.
        assert(s[0] == '1' && s[1] == '\r' && s[2] == '\n' && s[3] == c);
        text::lemma_run_end_is(s, 0, digit, 1);
        assert(c != '0');
        assert(strip_markers(s) == strip_markers(s.skip(3)));
        // The body character itself is kept.
        let s3 = s.skip(3);
        assert(s3 =~= seq![c, '\r', '\n'] + t);
        text::lemma_run_end_is(s3, 0, digit, 0);
        assert(strip_markers(s3) == seq![s3[0]] + strip_markers(s3.skip(1)));
        assert(s3[0] == c);
        // The chunk's closing line end is dropped; the text goes on with
        // the next chunk or the end-of-body marker, neither opening with
        // a lone zero at the text's end.
        let s4 = s3.skip(1);
        assert(s4 =~= seq!['\r', '\n'] + t);
        text::lemma_run_end_is(s4, 0, digit, 0);
        if tail.len() == 0 {
            assert(t =~= marker);
            assert(s4[2] == '0');
            assert(s4.len() == 7);
        } else {
            assert(t[0] == '1');
            assert(s4[2] == '1');
        }
        assert(strip_markers(s4) == strip_markers(s4.skip(2)));
        assert(s4.skip(2) =~= t);
        assert(forall|i: int|
            0 <= i < tail.len() ==> (#[trigger] tail[i]) < 128 && !text::is_digit(tail[i] as char)
                && tail[i] != 13 && tail[i] != 10);
        lemma_chunk_round_trip(tail);
        assert(b.map_values(|x: u8| x as char) =~= seq![c] + tail.map_values(|x: u8| x as char));
        assert(strip_markers(s) =~= b.map_values(|x: u8| x as char));
    }
}

/// Decodes a relayed body as text and removes its chunk markers; bytes
/// that are not valid UTF-8 are reported as a decode failure.
pub fn body_to_string(body: Vec<u8>) -> (r: Result<String, HttpError>)
    ensures
        match r {
            Ok(s) => vstd::utf8::valid_utf8(body@) && s@ == strip_markers(
                vstd::utf8::decode_utf8(body@),
            ),
            Err(e) => !vstd::utf8::valid_utf8(body@) && e == HttpError::InvalidData,
        },
{
    match bytes_to_string(&body) {
        Some(s) => {
            let v = text::str_chars(s.as_str());
            let stripped = strip_markers_exec(&v);
            Ok(text::chars_string(&stripped))
        },
        None => Err(HttpError::InvalidData),
    }
}

/// What a relay forwards from an upstream stream: chunk by chunk, each
/// chunk's nonzero bytes, stopping before the first chunk that has none.
pub open spec fn tunnel_text(s: Seq<u8>) -> Seq<u8>
    decreases s.len(),
{
    if s.len() == 0 {
        s
    } else {
        let chunk = if s.len() <= CHUNK_SIZE {
            s
        } else {
            s.take(CHUNK_SIZE as int)
        };
        let f = chunk.filter(|b: u8| b != 0);
        if f.len() == 0 {
            Seq::empty()
        } else {
            f + tunnel_text(s.skip(chunk.len() as int))
        }
    }
}

/// Relays an upstream stream: reads it in fixed-size chunks, drops the
/// zero bytes of each chunk, and stops at the first chunk that carries no
/// forwardable byte.  Returns the forwarded bytes, whose count is the
/// relayed size.
pub fn tunnel(stream: &Vec<u8>) -> (r: Vec<u8>)
    ensures
        r@ == tunnel_text(stream@),
{
    let mut out: Vec<u8> = Vec::new();
    let mut i: usize = 0;
    proof {
        assert(stream@.skip(0) =~= stream@);
        assert(out@ + tunnel_text(stream@) =~= tunnel_text(stream@));
    }
    while i < stream.len()
        invariant
            i <= stream@.len(),
            tunnel_text(stream@) == out@ + tunnel_text(stream@.skip(i as int)),
        decreases stream@.len() - i,
    {
        let ghost rest = stream@.skip(i as int);
        let end: usize = if stream.len() - i <= CHUNK_SIZE {
            stream.len()
        } else {
            i + CHUNK_SIZE
        };
        let ghost chunk_spec = if rest.len() <= CHUNK_SIZE {
            rest
        } else {
            rest.take(CHUNK_SIZE as int)
        };
        proof {
            assert(chunk_spec =~= stream@.subrange(i as int, end as int));
        }
        let mut chunk: Vec<u8> = Vec::new();
        let mut j: usize = i;
        proof {
            assert(chunk@ =~= stream@.subrange(i as int, i as int));
        }
        while j < end
            invariant
                i <= j <= end <= stream@.len(),
                chunk@ == stream@.subrange(i as int, j as int),
            decreases end - j,
        {
            chunk.push(stream[j]);
            j = j + 1;
            proof {
                assert(stream@.subrange(i as int, j as int) =~= stream@.subrange(
                    i as int,
                    j as int - 1,
                ).push(stream@[j as int - 1]));
            }
        }
        let f = filter_zero_bytes(&chunk);
        if f.len() == 0 {
            proof {
                assert(tunnel_text(rest) =~= Seq::<u8>::empty());
                assert(out@ + tunnel_text(rest) =~= out@);
            }
            return out;
        }
        let ghost out0 = out@;
        let mut f_mut = f;
        out.append(&mut f_mut);
        i = end;
        proof {
            assert(rest.skip(chunk_spec.len() as int) =~= stream@.skip(i as int));
            assert(tunnel_text(rest) == chunk_spec.filter(|b: u8| b != 0) + tunnel_text(
                stream@.skip(i as int),
            ));
            assert(out@ =~= out0 + chunk_spec.filter(|b: u8| b != 0));
            assert(out@ + tunnel_text(stream@.skip(i as int)) =~= out0 + tunnel_text(rest));
        }
    }
    proof {
        assert(stream@.skip(stream@.len() as int) =~= Seq::<u8>::empty());
        assert(tunnel_text(Seq::<u8>::empty()) =~= Seq::<u8>::empty());
        assert(out@ + Seq::<u8>::empty() =~= out@);
    }
    out
}

} // verus!
