//! The HTTP status table: a closed mapping from numeric codes to canonical
//! reason phrases.  Codes outside the table fall back to `501 Not
//! Implemented`.

use vstd::prelude::*;
use vstd::string::StringExecFns;
use crate::text;

verus! {

/// An HTTP status: a numeric code and its reason phrase.
pub struct Status {
    pub text: String,
    pub code: u16,
}

/// A table entry: a code and its canonical phrase.
pub struct StatusDefault {
    pub text: &'static str,
    pub code: u16,
}

/// The mathematical face of a [`Status`].
pub struct StatusView {
    pub code: u16,
    pub text: Seq<char>,
}

impl View for Status {
    type V = StatusView;

    open spec fn view(&self) -> StatusView {
        StatusView { code: self.code, text: self.text@ }
    }
}

/// Whether the status table holds this code.
pub open spec fn known_code(code: u16) -> bool {
    ||| code == 100 || code == 101 || code == 102 || code == 103
    ||| code == 200 || code == 201 || code == 202 || code == 203 || code == 204 || code == 205
        || code == 206 || code == 207 || code == 208 || code == 226
    ||| code == 300 || code == 301 || code == 302 || code == 303 || code == 304 || code == 307
        || code == 308
    ||| code == 400 || code == 401 || code == 402 || code == 403 || code == 404 || code == 405
        || code == 406 || code == 407 || code == 408 || code == 409 || code == 410 || code == 411
        || code == 412 || code == 413 || code == 414 || code == 415 || code == 416 || code == 417
        || code == 418 || code == 421 || code == 422 || code == 423 || code == 424 || code == 426
        || code == 428 || code == 429 || code == 431 || code == 451
    ||| code == 500 || code == 501 || code == 502 || code == 503 || code == 504 || code == 505
        || code == 506 || code == 507 || code == 508 || code == 510 || code == 511
}

/// The reason phrase of a code in the table; `Not Implemented` elsewhere.
pub open spec fn reason_phrase(code: u16) -> Seq<char> {
    if code == 100 {
        "Continue"@
    } else if code == 101 {
        "Switching Protocols"@
    } else if code == 102 {
        "Processing"@
    } else if code == 103 {
        "Early Hints"@
    } else if code == 200 {
        "OK"@
    } else if code == 201 {
        "Created"@
    } else if code == 202 {
        "Accepted"@
    } else if code == 203 {
        "Non-Authoritative Information"@
    } else if code == 204 {
        "No Content"@
    } else if code == 205 {
        "Reset Content"@
    } else if code == 206 {
        "Partial Content"@
    } else if code == 207 {
        "Multi-StatusDefault"@
    } else if code == 208 {
        "Already Reported"@
    } else if code == 226 {
        "IM Used"@
    } else if code == 300 {
        "Multiple Choices"@
    } else if code == 301 {
        "Moved Permanently"@
    } else if code == 302 {
        "Found"@
    } else if code == 303 {
        "See Other"@
    } else if code == 304 {
        "Not Modified"@
    } else if code == 307 {
        "Temporary Redirect"@
    } else if code == 308 {
        "Permanent Redirect"@
    } else if code == 400 {
        "Bad Request"@
    } else if code == 401 {
        "Unauthorized"@
    } else if code == 402 {
        "Payment Required"@
    } else if code == 403 {
        "Forbidden"@
    } else if code == 404 {
        "Not Found"@
    } else if code == 405 {
        "Method Not Allowed"@
    } else if code == 406 {
        "Not Acceptable"@
    } else if code == 407 {
        "Proxy Authentication Required"@
    } else if code == 408 {
        "Request Timeout"@
    } else if code == 409 {
        "Conflict"@
    } else if code == 410 {
        "Gone"@
    } else if code == 411 {
        "Length Required"@
    } else if code == 412 {
        "Precondition Failed"@
    } else if code == 413 {
        "Payload Too Large"@
    } else if code == 414 {
        "URI Too Long"@
    } else if code == 415 {
        "Unsupported Media Type"@
    } else if code == 416 {
        "Range Not Satisfiable"@
    } else if code == 417 {
        "Expectation Failed"@
    } else if code == 418 {
        "I'm a teapot"@
    } else if code == 421 {
        "Misdirected Request"@
    } else if code == 422 {
        "Unprocessable Content"@
    } else if code == 423 {
        "Locked"@
    } else if code == 424 {
        "Failed Dependency"@
    } else if code == 426 {
        "Upgrade Required"@
    } else if code == 428 {
        "Precondition Required"@
    } else if code == 429 {
        "Too Many Requests"@
    } else if code == 431 {
        "Request Header Fields Too Large"@
    } else if code == 451 {
        "Unavailable For Legal Reasons"@
    } else if code == 500 {
        "Internal Server Error"@
    } else if code == 501 {
        "Not Implemented"@
    } else if code == 502 {
        "Bad Gateway"@
    } else if code == 503 {
        "Service Unavailable"@
    } else if code == 504 {
        "Gateway Timeout"@
    } else if code == 505 {
        "HTTP Version Not Supported"@
    } else if code == 506 {
        "Variant Also Negotiates"@
    } else if code == 507 {
        "Insufficient Storage"@
    } else if code == 508 {
        "Loop Detected"@
    } else if code == 510 {
        "Not Extended"@
    } else if code == 511 {
        "Network Authentication Required"@
    } else {
        "Not Implemented"@
    }
}

/// The status line body `<code> <reason>`.
pub open spec fn status_text(v: StatusView) -> Seq<char> {
    text::dec_rep(v.code as nat) + seq![' '] + v.text
}

/// The full status line prefix `HTTP/1.1 <code> <reason>`.
pub open spec fn status_full_text(v: StatusView) -> Seq<char> {
    "HTTP/1.1"@ + seq![' '] + status_text(v)
}

impl Status {
    /// Looks the code up in the table; a code outside it yields
    /// `501 Not Implemented`.
    pub fn new(code: u16) -> (r: Status)
        ensures
            r@.code == if known_code(code) {
                code as int
            } else {
                501int
            },
            r@.text == reason_phrase(r@.code),
            known_code(code) ==> r@.text == reason_phrase(code),
    {
        let text: &'static str = match code {
            100 => "Continue",
            101 => "Switching Protocols",
            102 => "Processing",
            103 => "Early Hints",
            200 => "OK",
            201 => "Created",
            202 => "Accepted",
            203 => "Non-Authoritative Information",
            204 => "No Content",
            205 => "Reset Content",
            206 => "Partial Content",
            207 => "Multi-StatusDefault",
            208 => "Already Reported",
            226 => "IM Used",
            300 => "Multiple Choices",
            301 => "Moved Permanently",
            302 => "Found",
            303 => "See Other",
            304 => "Not Modified",
            307 => "Temporary Redirect",
            308 => "Permanent Redirect",
            400 => "Bad Request",
            401 => "Unauthorized",
            402 => "Payment Required",
            403 => "Forbidden",
            404 => "Not Found",
            405 => "Method Not Allowed",
            406 => "Not Acceptable",
            407 => "Proxy Authentication Required",
            408 => "Request Timeout",
            409 => "Conflict",
            410 => "Gone",
            411 => "Length Required",
            412 => "Precondition Failed",
            413 => "Payload Too Large",
            414 => "URI Too Long",
            415 => "Unsupported Media Type",
            416 => "Range Not Satisfiable",
            417 => "Expectation Failed",
            418 => "I'm a teapot",
            421 => "Misdirected Request",
            422 => "Unprocessable Content",
            423 => "Locked",
            424 => "Failed Dependency",
            426 => "Upgrade Required",
            428 => "Precondition Required",
            429 => "Too Many Requests",
            431 => "Request Header Fields Too Large",
            451 => "Unavailable For Legal Reasons",
            500 => "Internal Server Error",
            501 => "Not Implemented",
            502 => "Bad Gateway",
            503 => "Service Unavailable",
            504 => "Gateway Timeout",
            505 => "HTTP Version Not Supported",
            506 => "Variant Also Negotiates",
            507 => "Insufficient Storage",
            508 => "Loop Detected",
            510 => "Not Extended",
            511 => "Network Authentication Required",
            _ => "Not Implemented",
        };
        let found: u16 = match code {
            100 | 101 | 102 | 103 | 200 | 201 | 202 | 203 | 204 | 205 | 206 | 207 | 208 | 226
                | 300 | 301 | 302 | 303 | 304 | 307 | 308 | 400 | 401 | 402 | 403 | 404 | 405
                | 406 | 407 | 408 | 409 | 410 | 411 | 412 | 413 | 414 | 415 | 416 | 417 | 418
                | 421 | 422 | 423 | 424 | 426 | 428 | 429 | 431 | 451 | 500 | 501 | 502 | 503
                | 504 | 505 | 506 | 507 | 508 | 510 | 511 => code,
            _ => 501,
        };
        Status { code: found, text: String::from_str(text) }
    }

    /// The status line body, such as `200 OK`.
    pub fn to_string(&self) -> (r: String)
        ensures
            r@ == status_text(self@),
    {
        let mut out: Vec<char> = Vec::new();
        text::push_dec(self.code as u64, &mut out);
        out.push(' ');
        let mut text_chars = text::str_chars(self.text.as_str());
        out.append(&mut text_chars);
        proof {
            assert(out@ =~= status_text(self@));
        }
        text::chars_string(&out)
    }

    /// The full status line prefix, such as `HTTP/1.1 200 OK`.
    pub fn to_full_string(&self) -> (r: String)
        ensures
            r@ == status_full_text(self@),
    {
        let body = self.to_string();
        let mut out: Vec<char> = text::str_chars("HTTP/1.1");
        out.push(' ');
        let mut body_chars = text::str_chars(body.as_str());
        out.append(&mut body_chars);
        proof {
            assert(out@ =~= status_full_text(self@));
        }
        text::chars_string(&out)
    }
}

} // verus!
