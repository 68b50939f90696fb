//! A verified core for a small HTTP/1.x reverse proxy.
//!
//! The crate holds the protocol engine: the header, status and request data
//! model with its parsing and serialization, the framing logic that finds a
//! header block and a body on a raw byte stream, the relay filter, and the
//! per-connection decision logic of the proxy handler.  Socket I/O and the
//! worker threads live outside the library and hand it plain values: the
//! listener reads raw bytes, asks the handler what to do, and performs the
//! writes, connects and delays the decisions call for.

use vstd::prelude::*;

pub mod header;
pub mod headers;
pub mod http;
pub mod log;
pub mod prelude;
pub mod request;
mod text;

use http::{Status, status_line_text};
use http::headers::{
    find_name, method_of, parse_list, protocol_of, query_of, serialize_list, set_header_list,
    set_header_prefix, url_of,
};
use http::request::{Request, Socket, frame_content_length};
use log::LogLevel;
use prelude::constants::{PROXY_ADDRESS, TARGET_ADDRESS, THREADS};

verus! {

/// Configuration of the proxy server, built fluently and then handed to
/// the listener.
#[derive(Clone, Copy, Debug)]
pub struct Builder {
    pub address: &'static str,
    pub target: &'static str,
    pub log_level: LogLevel,
    pub threads: usize,
}

impl Builder {
    /// The default configuration.
    pub fn new() -> (r: Builder)
        ensures
            r.address@ == PROXY_ADDRESS@,
            r.target@ == TARGET_ADDRESS@,
            r.log_level == LogLevel::Info,
            r.threads == THREADS,
    {
        Builder {
            address: PROXY_ADDRESS,
            target: TARGET_ADDRESS,
            log_level: log::LOG_LEVEL,
            threads: THREADS,
        }
    }

    /// Sets the listen address.
    pub fn with_address(self, address: &'static str) -> (r: Builder)
        ensures
            r.address == address,
            r.target == self.target,
            r.log_level == self.log_level,
            r.threads == self.threads,
    {
        Builder { address, ..self }
    }

    /// Sets the upstream target address.
    pub fn with_target(self, target: &'static str) -> (r: Builder)
        ensures
            r.target == target,
            r.address == self.address,
            r.log_level == self.log_level,
            r.threads == self.threads,
    {
        Builder { target, ..self }
    }

    /// Sets the log level.
    pub fn with_log_level(self, log_level: LogLevel) -> (r: Builder)
        ensures
            r.log_level == log_level,
            r.address == self.address,
            r.target == self.target,
            r.threads == self.threads,
    {
        Builder { log_level, ..self }
    }

    /// Sets the worker thread count.
    pub fn with_threads(self, threads: usize) -> (r: Builder)
        ensures
            r.threads == threads,
            r.address == self.address,
            r.target == self.target,
            r.log_level == self.log_level,
    {
        Builder { threads, ..self }
    }
}

/// What the handler decides once the client's header block is in.
pub enum ClientDecision {
    /// Answer the client with this complete response and close.
    Reject { response: String },
    /// Connect upstream and forward this rewritten request.
    Forward { request: Request },
}

/// The complete minimal response of a reject: status line, zero content
/// length, blank line.
pub open spec fn reject_text(s: Status) -> Seq<char> {
    status_line_text(s) + "Content-Length: "@ + text::dec_rep(0) + text::crlf() + text::crlf()
}

/// A client block the proxy can forward: it decodes as text, carries a
/// Host header, and its first line can be re-derived.
pub open spec fn forwardable(block: Seq<u8>) -> bool {
    &&& vstd::utf8::valid_utf8(block)
    &&& find_name(parse_list(vstd::utf8::decode_utf8(block)), "host"@) is Some
    &&& set_header_prefix(vstd::utf8::decode_utf8(block)) is Some
}

/// The per-connection decision logic of the proxy.
pub struct Handler {
    pub config: Builder,
}

impl Handler {
    /// A handler for one accepted connection, under this configuration.
    pub fn new(config: Builder) -> (r: Handler)
        ensures
            r.config == config,
    {
        Handler { config }
    }

    /// Renders the complete minimal response of a reject.
    pub fn reject_response(status: &Status) -> (r: String)
        ensures
            r@ == reject_text(*status),
    {
        let mut out = text::str_chars(http::status_line(status).as_str());
        let mut cl = text::str_chars(http::content_length_line(0).as_str());
        out.append(&mut cl);
        let mut el = text::str_chars(http::end_line().as_str());
        out.append(&mut el);
        proof {
            assert(out@ =~= reject_text(*status));
        }
        text::chars_string(&out)
    }

    /// Decides what to do with a client's header block: a block without a
    /// usable Host header is answered with a 400 and never forwarded; any
    /// other block has its Host rewritten to the configured target.
    pub fn on_client_headers(&self, socket: Socket, block: Vec<u8>) -> (r: ClientDecision)
        ensures
            ({
                let decoded = vstd::utf8::decode_utf8(block@);
                match r {
                    ClientDecision::Reject { response } => {
                        &&& response@ == reject_text(Status::BadRequest)
                        &&& !forwardable(block@)
                    },
                    ClientDecision::Forward { request } => {
                        &&& forwardable(block@)
                        &&& request.headers@.raw == set_header_prefix(decoded).unwrap()
                            + text::crlf() + serialize_list(
                            set_header_list(parse_list(decoded), "host"@, self.config.target@),
                        )
                        &&& request.headers@.list == parse_list(request.headers@.raw)
                        &&& request.host@ == self.config.target@
                        &&& request.url@ == url_of(decoded)
                        &&& request.method@ == method_of(decoded)
                        &&& request.protocol@ == protocol_of(decoded)
                        &&& request.query@ == query_of(decoded)
                        &&& request.peer_addr@ == socket.peer_addr@
                        &&& request.ttl == socket.ttl
                        &&& request.error@ == socket.error@
                        &&& request.body@ == Seq::<char>::empty()
                        &&& request.content_length == frame_content_length(decoded)
                        &&& request.chunked == http::headers::chunked_of(decoded)
                    },
                }
            }),
    {
        let mut request = match Request::new(socket, block) {
            Ok(req) => req,
            Err(_) => {
                return ClientDecision::Reject {
                    response: Handler::reject_response(&Status::BadRequest),
                };
            },
        };
        if !request.headers.has_header("host") {
            return ClientDecision::Reject {
                response: Handler::reject_response(&Status::BadRequest),
            };
        }
        match request.change_host(self.config.target) {
            Ok(()) => ClientDecision::Forward { request },
            Err(_) => ClientDecision::Reject {
                response: Handler::reject_response(&Status::BadRequest),
            },
        }
    }

    /// The complete response the client gets when the upstream target
    /// cannot be reached; the caller writes it, waits briefly as a
    /// throttle, and closes.
    pub fn on_connect_failed(&self) -> (r: String)
        ensures
            r@ == reject_text(Status::BadGateway),
    {
        Handler::reject_response(&Status::BadGateway)
    }
}

} // verus!
