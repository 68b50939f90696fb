//! The request frame: a derived view over a raw header block, with the
//! socket-side facts the caller hands in.  Every field is recomputed from
//! the block; a host rewrite re-derives the block and the host together.

use vstd::prelude::*;
use vstd::string::StringExecFns;
use crate::text;
use super::headers::{
    self, Headers, chunked_of, content_length_of, method_of, parse_list, protocol_of, query_of,
    set_header_list, set_header_prefix, serialize_list, url_of,
};
use super::HttpError;

verus! {

/// A request frame derived from a header block.
pub struct Request {
    pub url: String,
    pub host: String,
    pub peer_addr: String,
    pub protocol: String,
    pub method: String,
    pub content_length: u32,
    pub ttl: u32,
    pub headers: Headers,
    pub body: String,
    pub query: String,
    pub error: String,
    pub chunked: bool,
}

/// The socket-side facts a request is built with.
pub struct Socket {
    pub host: String,
    pub peer_addr: String,
    pub ttl: u32,
    pub error: String,
}

/// The content length a frame records: the announced value when it fits,
/// zero otherwise.
pub open spec fn frame_content_length(raw: Seq<char>) -> u32 {
    match content_length_of(raw) {
        Some(n) => if n <= u32::MAX {
            n as u32
        } else {
            0
        },
        None => 0,
    }
}

/// The fields a frame derives from its block.
pub open spec fn frame_derived(r: Request, raw: Seq<char>) -> bool {
    &&& r.url@ == url_of(raw)
    &&& r.protocol@ == protocol_of(raw)
    &&& r.method@ == method_of(raw)
    &&& r.query@ == query_of(raw)
    &&& r.content_length == frame_content_length(raw)
    &&& r.chunked == chunked_of(raw)
    &&& r.headers@.raw == raw
}

impl Request {
    /// Builds a frame from the raw bytes of a header block; only valid
    /// UTF-8 is accepted.
    pub fn new(socket: Socket, buffer: Vec<u8>) -> (r: Result<Request, HttpError>)
        ensures
            match r {
                Ok(req) => {
                    &&& vstd::utf8::valid_utf8(buffer@)
                    &&& frame_derived(req, vstd::utf8::decode_utf8(buffer@))
                    &&& req.headers@.list == parse_list(req.headers@.raw)
                    &&& req.host@ == socket.host@
                    &&& req.peer_addr@ == socket.peer_addr@
                    &&& req.ttl == socket.ttl
                    &&& req.error@ == socket.error@
                    &&& req.body@ == Seq::<char>::empty()
                },
                Err(e) => !vstd::utf8::valid_utf8(buffer@) && e == HttpError::InvalidInput,
            },
    {
        match Headers::from_bytes(&buffer) {
            Ok(headers) => Ok(Request::create(socket, headers)),
            Err(e) => Err(e),
        }
    }

    /// Builds a frame from an already parsed block: every derived field is
    /// recomputed from the block's raw text.
    pub fn create(socket: Socket, headers: Headers) -> (r: Request)
        ensures
            frame_derived(r, headers@.raw),
            r.headers@ == headers@,
            r.host@ == socket.host@,
            r.peer_addr@ == socket.peer_addr@,
            r.ttl == socket.ttl,
            r.error@ == socket.error@,
            r.body@ == Seq::<char>::empty(),
    {
        let Socket { host, peer_addr, ttl, error } = socket;
        let content_length: u32 = match Headers::get_content_length(&headers.raw) {
            Some(val) => val,
            None => 0,
        };
        Request {
            host,
            peer_addr,
            url: Headers::get_url(&headers.raw),
            protocol: Headers::get_protocol(&headers.raw),
            method: Headers::get_method(&headers.raw),
            content_length,
            ttl,
            body: String::new(),
            query: Headers::get_query(&headers.raw),
            error,
            chunked: Headers::get_chunked(&headers.raw),
            headers,
        }
    }

    /// Rewrites the Host header to the target and re-derives the block;
    /// the recorded host and the block change together or not at all.
    pub fn change_host(&mut self, target: &str) -> (r: Result<(), HttpError>)
        ensures
            match r {
                Ok(()) => {
                    &&& set_header_prefix(old(self).headers@.raw) is Some
                    &&& final(self).headers@.raw == set_header_prefix(
                        old(self).headers@.raw,
                    ).unwrap() + text::crlf() + serialize_list(
                        set_header_list(old(self).headers@.list, "host"@, target@),
                    )
                    &&& final(self).headers@.list == parse_list(final(self).headers@.raw)
                    &&& final(self).host@ == target@
                    &&& final(self).url == old(self).url
                    &&& final(self).method == old(self).method
                    &&& final(self).protocol == old(self).protocol
                    &&& final(self).query == old(self).query
                    &&& final(self).peer_addr == old(self).peer_addr
                    &&& final(self).ttl == old(self).ttl
                    &&& final(self).error == old(self).error
                    &&& final(self).content_length == old(self).content_length
                    &&& final(self).chunked == old(self).chunked
                    &&& final(self).body == old(self).body
                },
                Err(e) => {
                    &&& set_header_prefix(old(self).headers@.raw) is None
                    &&& e == HttpError::InvalidInput
                    &&& *final(self) == *old(self)
                },
            },
    {
        match self.headers.set_header("host", target) {
            Ok(heads) => {
                self.headers = heads;
                self.host = String::from_str(target);
                Ok(())
            },
            Err(e) => Err(e),
        }
    }

    /// Stores a body on the frame; every other field stays.
    pub fn set_body(&mut self, body: String)
        ensures
            final(self).body == body,
            final(self).headers == old(self).headers,
            final(self).host == old(self).host,
            final(self).peer_addr == old(self).peer_addr,
            final(self).url == old(self).url,
            final(self).method == old(self).method,
            final(self).protocol == old(self).protocol,
            final(self).query == old(self).query,
            final(self).ttl == old(self).ttl,
            final(self).error == old(self).error,
            final(self).content_length == old(self).content_length,
            final(self).chunked == old(self).chunked,
    {
        self.body = body;
    }
}

} // verus!
