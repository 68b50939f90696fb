//! A response-side frame over a raw header block: status code and phrase,
//! method, protocol, content length, and the parsed header list, with an
//! in-place Host rewrite.

use vstd::prelude::*;
use vstd::string::StringExecFns;
use crate::text;
use crate::header::Header;
use crate::headers;
use crate::http::headers::{Headers as HttpHeaders, method_of, parse_list, protocol_of};

verus! {

/// A frame derived from a raw header block.
#[derive(Debug)]
pub struct Request {
    pub protocol: String,
    pub method: String,
    pub status: u16,
    pub status_text: String,
    pub content_length: usize,
    pub headers_raw: String,
    pub headers: Vec<Header>,
}

/// The views of a header list.
pub open spec fn views_of(list: Seq<Header>) -> Seq<crate::http::headers::HeaderView> {
    list.map_values(|h: Header| h@)
}

/// Three decimal digits stand at `i`.
pub open spec fn digit3_at(s: Seq<char>, i: int) -> bool {
    &&& 0 <= i
    &&& i + 3 <= s.len()
    &&& text::is_digit(s[i])
    &&& text::is_digit(s[i + 1])
    &&& text::is_digit(s[i + 2])
}

/// The status code read from a block: its first run of three digits, or
/// 500 when it has none.
pub open spec fn status_num_of(s: Seq<char>) -> u16 {
    match text::first_idx_from(s.len() as nat, 0, |i: int| digit3_at(s, i)) {
        None => 500,
        Some(i) => text::dec_val(s.subrange(i as int, i + 3int)) as u16,
    }
}

/// A status phrase stands at `i`: three digits, whitespace, then a word.
pub open spec fn status_text_at(s: Seq<char>, i: int) -> bool {
    digit3_at(s, i) && {
        let j = text::run_end(s, (i + 3) as nat, |c: char| text::is_space(c));
        j > i + 3 && j < s.len() && text::is_word_char(s[j as int])
    }
}

/// The status phrase read from a block: the word after its first
/// digits-and-whitespace run, or the internal-error phrase when none.
pub open spec fn status_text_of(s: Seq<char>) -> Seq<char> {
    match text::first_idx_from(s.len() as nat, 0, |i: int| status_text_at(s, i)) {
        None => "Internal Server Error"@,
        Some(i) => {
            let j = text::run_end(s, (i + 3) as nat, |c: char| text::is_space(c));
            s.subrange(j as int, text::run_end(s, j, |c: char| text::is_word_char(c)) as int)
        },
    }
}

/// The value of three digits stays below one thousand.
proof fn lemma_dec_val_3_digits(d: Seq<char>)
    requires
        d.len() == 3,
    ensures
        text::dec_val(d) <= 999,
{
    let d2 = d.drop_last();
    let d1 = d2.drop_last();
    let d0 = d1.drop_last();
    assert(d0.len() == 0);
    assert(text::dec_val(d1) == text::dec_val(d0) * 10 + text::digit_val(d1.last()));
    assert(text::dec_val(d1) <= 9);
    assert(text::dec_val(d2) == text::dec_val(d1) * 10 + text::digit_val(d2.last()));
    assert(text::dec_val(d2) <= 99);
    assert(text::dec_val(d) == text::dec_val(d2) * 10 + text::digit_val(d.last()));
}

/// The first run of three digits in a block, read as a status code.
fn get_status(raw: &String) -> (r: u16)
    ensures
        r == status_num_of(raw@),
{
    let v = text::str_chars(raw.as_str());
    let mut i: usize = 0;
    proof {
        assert(v@.len() == v.len());
    }
    while i < v.len()
        invariant
            i <= v@.len(),
            v@ == raw@,
            v@.len() <= usize::MAX,
            forall|j: int| 0 <= j < i ==> !digit3_at(raw@, j),
        decreases v@.len() - i,
    {
        if v.len() - i >= 3 && text::is_digit_exec(v[i]) && text::is_digit_exec(v[i + 1])
            && text::is_digit_exec(v[i + 2]) {
            proof {
                assert(digit3_at(raw@, i as int));
                text::lemma_first_idx_from_is(
                    raw@.len() as nat,
                    0,
                    |j: int| digit3_at(raw@, j),
                    i as int,
                );
                lemma_dec_val_3_digits(raw@.subrange(i as int, i + 3));
            }
            match text::parse_dec_u32(&v, i, i + 3) {
                Some(n) => {
                    return n as u16;
                },
                None => {
                    proof {
                        assert(false);
                    }
                },
            }
        }
        proof {
            assert(!digit3_at(raw@, i as int));
        }
        i = i + 1;
    }
    proof {
        text::lemma_first_idx_from_is_none(raw@.len() as nat, 0, |j: int| digit3_at(raw@, j));
    }
    500
}

/// The word after the block's first digits-and-whitespace run, read as the
/// status phrase.
fn get_status_text(raw: &String) -> (r: String)
    ensures
        r@ == status_text_of(raw@),
{
    let v = text::str_chars(raw.as_str());
    let mut i: usize = 0;
    proof {
        assert(v@.len() == v.len());
    }
    while i < v.len()
        invariant
            i <= v@.len(),
            v@ == raw@,
            v@.len() <= usize::MAX,
            forall|j: int| 0 <= j < i ==> !status_text_at(raw@, j),
        decreases v@.len() - i,
    {
        if v.len() - i >= 3 && text::is_digit_exec(v[i]) && text::is_digit_exec(v[i + 1])
            && text::is_digit_exec(v[i + 2]) {
            let j = text::space_run_end(&v, i + 3);
            if j > i + 3 && j < v.len() && text::is_word_char_exec(v[j]) {
                proof {
                    assert(status_text_at(raw@, i as int));
                    text::lemma_first_idx_from_is(
                        raw@.len() as nat,
                        0,
                        |t: int| status_text_at(raw@, t),
                        i as int,
                    );
                }
                let k = text::word_run_end(&v, j);
                return text::chars_string(&text::subvec(&v, j, k));
            }
        }
        proof {
            assert(!status_text_at(raw@, i as int));
        }
        i = i + 1;
    }
    proof {
        text::lemma_first_idx_from_is_none(raw@.len() as nat, 0, |t: int| status_text_at(raw@, t));
    }
    String::from_str("Internal Server Error")
}

/// The fields a frame derives from its block.
pub open spec fn frame_fields(r: Request, raw: Seq<char>) -> bool {
    &&& r.protocol@ == protocol_of(raw)
    &&& r.method@ == method_of(raw)
    &&& r.status == status_num_of(raw)
    &&& r.status_text@ == status_text_of(raw)
    &&& r.content_length as int == headers::stored_content_length(raw)
    &&& r.headers_raw@ == raw
    &&& views_of(r.headers@) == parse_list(raw)
}

impl Request {
    /// Builds a frame from the raw bytes of a header block; bytes that
    /// are not valid UTF-8 give the empty block.
    pub fn new(buffer: Vec<u8>) -> (r: Request)
        ensures
            vstd::utf8::valid_utf8(buffer@) ==> frame_fields(
                r,
                vstd::utf8::decode_utf8(buffer@),
            ),
            !vstd::utf8::valid_utf8(buffer@) ==> frame_fields(r, Seq::<char>::empty()),
    {
        let raw = match crate::http::bytes_to_string(&buffer) {
            Some(s) => s,
            None => String::new(),
        };
        Request::from_string(raw)
    }

    /// Builds a frame from the raw text of a header block.
    pub fn from_string(raw: String) -> (r: Request)
        ensures
            frame_fields(r, raw@),
    {
        let content_length: usize = match headers::get_content_length(&raw) {
            Some(val) => val,
            None => 0,
        };
        let parsed = Request::parse_owned(raw.clone());
        Request {
            protocol: HttpHeaders::get_protocol(&raw),
            status: get_status(&raw),
            status_text: get_status_text(&raw),
            method: HttpHeaders::get_method(&raw),
            content_length,
            headers_raw: raw,
            headers: parsed,
        }
    }

    /// Rewrites the first Host line to the target and re-parses the block.
    pub fn change_host(&mut self, target: &str)
        ensures
            final(self).headers_raw@ == headers::change_host_text(
                old(self).headers_raw@,
                target@,
            ),
            views_of(final(self).headers@) == parse_list(final(self).headers_raw@),
            final(self).status == old(self).status,
            final(self).status_text == old(self).status_text,
            final(self).method == old(self).method,
            final(self).protocol == old(self).protocol,
            final(self).content_length == old(self).content_length,
    {
        let raw = headers::change_host(self.headers_raw.clone(), target);
        self.headers_raw = raw;
        self.headers = Request::parse_owned(self.headers_raw.clone());
    }

    /// Parses a block into this module's header pairs.
    fn parse_owned(raw: String) -> (r: Vec<Header>)
        ensures
            views_of(r@) == parse_list(raw@),
    {
        let parsed = headers::Headers::from_string(raw).parsed;
        let mut out: Vec<Header> = Vec::new();
        let mut i: usize = 0;
        while i < parsed.len()
            invariant
                i <= parsed@.len(),
                views_of(out@) =~= headers::views_of(parsed@).take(i as int),
            decreases parsed@.len() - i,
        {
            let h = &parsed[i];
            out.push(Header { name: h.name.clone(), value: h.value.clone() });
            i = i + 1;
            proof {
                let vs = headers::views_of(parsed@);
                assert(vs.take(i as int) =~= vs.take(i as int - 1).push(vs[i as int - 1]));
                assert(views_of(out@) =~= vs.take(i as int));
            }
        }
        proof {
            let vs = headers::views_of(parsed@);
            assert(vs.take(vs.len() as int) =~= vs);
        }
        out
    }
}

} // verus!
