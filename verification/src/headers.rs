//! A header model that rewrites the Host line in place: parsing follows
//! the canonical contract — the block splits on CRLF, each line with a
//! `": "` separator yields the name before the first separator and the
//! lower-cased value after it — while a host rewrite splices the first
//! Host line without re-deriving the rest of the block.

use vstd::prelude::*;
use crate::text;
use crate::http::headers::{self as model, HeaderView, content_length_of, parse_list};

verus! {

/// One HTTP header: a name and a value.
#[derive(Debug)]
pub struct Header {
    pub name: String,
    pub value: String,
}

impl View for Header {
    type V = HeaderView;

    open spec fn view(&self) -> HeaderView {
        HeaderView { name: self.name@, value: self.value@ }
    }
}

/// The views of a header list.
pub open spec fn views_of(list: Seq<Header>) -> Seq<HeaderView> {
    list.map_values(|h: Header| h@)
}

/// A header block: the raw text, the list parsed from it, and the content
/// length it announces.
#[derive(Debug)]
pub struct Headers {
    pub content_length: usize,
    pub raw: String,
    pub parsed: Vec<Header>,
}

/// The content length a block records: the announced value when it fits
/// in a machine word, zero otherwise.
pub open spec fn stored_content_length(raw: Seq<char>) -> int {
    match content_length_of(raw) {
        Some(n) => if n <= usize::MAX {
            n as int
        } else {
            0
        },
        None => 0,
    }
}

/// A Host line ends at the returned position: `Host:` stands at `i`, and
/// the line runs to the first line feed, which must close a CRLF.
pub open spec fn host_line_end(s: Seq<char>, i: int) -> Option<int> {
    if !text::contains_at(s, i, "Host:"@) {
        None
    } else {
        match text::first_at_from(s, seq!['\n'], (i + 5) as nat) {
            None => None,
            Some(m) => if m >= i + 6 && s[m - 1] == '\r' {
                Some(m as int + 1)
            } else {
                None
            },
        }
    }
}

/// The block with its first Host line replaced by `Host: <target>`; a
/// block without a Host line is kept whole.
pub open spec fn change_host_text(s: Seq<char>, target: Seq<char>) -> Seq<char> {
    match text::first_idx_from(s.len() as nat, 0, |i: int| host_line_end(s, i) is Some) {
        None => s,
        Some(i) => s.take(i as int) + "Host: "@ + target + text::crlf() + s.skip(
            host_line_end(s, i as int).unwrap(),
        ),
    }
}

/// Parses a raw block into its header pairs, under the canonical parse
/// contract.
fn parse(heads: String) -> (r: Vec<Header>)
    ensures
        views_of(r@) == parse_list(heads@),
{
    let parsed = model::Headers::from_string(heads);
    let mut out: Vec<Header> = Vec::new();
    let mut i: usize = 0;
    while i < parsed.list.len()
        invariant
            i <= parsed.list@.len(),
            views_of(out@) =~= model::views_of(parsed.list@).take(i as int),
        decreases parsed.list@.len() - i,
    {
        let h = &parsed.list[i];
        out.push(Header { name: h.name.clone(), value: h.value.clone() });
        i = i + 1;
        proof {
            let vs = model::views_of(parsed.list@);
            assert(vs.take(i as int) =~= vs.take(i as int - 1).push(vs[i as int - 1]));
            assert(views_of(out@) =~= vs.take(i as int));
        }
    }
    proof {
        let vs = model::views_of(parsed.list@);
        assert(vs.take(vs.len() as int) =~= vs);
    }
    out
}

/// Decodes a byte block as text; bytes that are not valid UTF-8 give the
/// empty block rather than an error.
fn stringify(heads: &Vec<u8>) -> (r: String)
    ensures
        vstd::utf8::valid_utf8(heads@) ==> r@ == vstd::utf8::decode_utf8(heads@),
        !vstd::utf8::valid_utf8(heads@) ==> r@ == Seq::<char>::empty(),
{
    match crate::http::bytes_to_string(heads) {
        Some(s) => s,
        None => String::new(),
    }
}

/// Replaces the first Host line of the block with `Host: <target>`; a
/// block without one is returned unchanged.
pub(crate) fn change_host(heads: String, target: &str) -> (r: String)
    ensures
        r@ == change_host_text(heads@, target@),
{
    let v = text::str_chars(heads.as_str());
    let pat = text::str_chars("Host:");
    let nl: Vec<char> = vec!['\n'];
    proof {
        reveal_strlit("Host:");
        assert(nl@ =~= seq!['\n']);
    }
    let mut from: usize = 0;
    loop
        invariant
            from <= v@.len(),
            v@ == heads@,
            pat@ == "Host:"@,
            pat@.len() == 5,
            nl@ == seq!['\n'],
            forall|j: int| 0 <= j < from ==> host_line_end(heads@, j) is None,
        decreases v@.len() - from,
    {
        match text::find_sub(&v, &pat, from) {
            None => {
                proof {
                    text::lemma_first_at_from_characterizes(v@, pat@, from as nat);
                    assert forall|j: int| 0 <= j < heads@.len() implies host_line_end(
                        heads@,
                        j,
                    ) is None by {
                        if j >= from {
                            assert(!text::contains_at(heads@, j, "Host:"@));
                        }
                    }
                    text::lemma_first_idx_from_is_none(
                        heads@.len() as nat,
                        0,
                        |i: int| host_line_end(heads@, i) is Some,
                    );
                }
                return heads;
            },
            Some(i) => {
                proof {
                    text::lemma_first_at_from_characterizes(v@, pat@, from as nat);
                    assert forall|j: int| 0 <= j < i implies host_line_end(heads@, j) is None by {
                        if j >= from {
                            assert(!text::contains_at(heads@, j, "Host:"@));
                        }
                    }
                    assert(i + 5 <= v@.len());
                    assert(v@.len() == v.len());
                }
                match text::find_sub(&v, &nl, i + 5) {
                    None => {
                        proof {
                            assert(host_line_end(heads@, i as int) is None);
                            text::lemma_first_at_from_characterizes(v@, nl@, (i + 5) as nat);
                            assert forall|j: int| 0 <= j < heads@.len() implies host_line_end(
                                heads@,
                                j,
                            ) is None by {
                                if j > i {
                                    if text::contains_at(heads@, j, "Host:"@) {
                                        text::lemma_first_at_from_characterizes(
                                            v@,
                                            nl@,
                                            (j + 5) as nat,
                                        );
                                        if text::first_at_from(
                                            heads@,
                                            seq!['\n'],
                                            (j + 5) as nat,
                                        ) is Some {
                                            let m = text::first_at_from(
                                                heads@,
                                                seq!['\n'],
                                                (j + 5) as nat,
                                            ).unwrap();
                                            assert(text::contains_at(heads@, m as int, seq![
                                                '\n',
                                            ]));
                                            assert(false);
                                        }
                                    }
                                } else if j >= from && j < i {
                                    assert(!text::contains_at(heads@, j, "Host:"@));
                                }
                            }
                            text::lemma_first_idx_from_is_none(
                                heads@.len() as nat,
                                0,
                                |t: int| host_line_end(heads@, t) is Some,
                            );
                        }
                        return heads;
                    },
                    Some(m) => {
                        proof {
                            text::lemma_first_at_from_characterizes(v@, nl@, (i + 5) as nat);
                            assert(text::contains_at(v@, m as int, seq!['\n']));
                            assert(v@.subrange(m as int, m + 1int)[0] == v@[m as int]);
                            assert(v@[m as int] == '\n');
                            assert(m < v@.len());
                        }
                        if m >= i + 6 && v[m - 1] == '\r' {
                            proof {
                                assert(host_line_end(heads@, i as int) == Some(m as int + 1));
                                text::lemma_first_idx_from_is(
                                    heads@.len() as nat,
                                    0,
                                    |t: int| host_line_end(heads@, t) is Some,
                                    i as int,
                                );
                            }
                            let mut out = text::subvec(&v, 0, i);
                            let mut mid = text::str_chars("Host: ");
                            out.append(&mut mid);
                            let mut tgt = text::str_chars(target);
                            out.append(&mut tgt);
                            out.push('\r');
                            out.push('\n');
                            let mut rest = text::subvec(&v, m + 1, v.len());
                            out.append(&mut rest);
                            proof {
                                assert(v@.subrange(0, i as int) =~= v@.take(i as int));
                                assert(v@.subrange(m + 1int, v@.len() as int) =~= v@.skip(
                                    m + 1int,
                                ));
                                assert(out@ =~= change_host_text(heads@, target@));
                            }
                            return text::chars_string(&out);
                        } else {
                            proof {
                                assert(host_line_end(heads@, i as int) is None);
                                assert forall|j: int| 0 <= j < i + 1 implies host_line_end(
                                    heads@,
                                    j,
                                ) is None by {
                                    if j >= from && j < i {
                                        assert(!text::contains_at(heads@, j, "Host:"@));
                                    }
                                }
                            }
                            from = i + 1;
                        }
                    },
                }
            },
        }
    }
}

/// The content length a block announces; `None` when no announcement is
/// found or its digits do not fit in a machine word.
pub fn get_content_length(src: &String) -> (r: Option<usize>)
    ensures
        match content_length_of(src@) {
            Some(n) => if n <= usize::MAX {
                r == Some(n as usize)
            } else {
                r is None
            },
            None => r is None,
        },
{
    match model::content_length_digits(src) {
        Some((low, j, k)) => text::parse_dec_usize(&low, j, k),
        None => None,
    }
}

impl Headers {
    /// Parses a header block from raw bytes; bytes that are not valid
    /// UTF-8 give the empty block.
    pub fn new(buffer: Vec<u8>) -> (r: Headers)
        ensures
            vstd::utf8::valid_utf8(buffer@) ==> r.raw@ == vstd::utf8::decode_utf8(buffer@),
            !vstd::utf8::valid_utf8(buffer@) ==> r.raw@ == Seq::<char>::empty(),
            views_of(r.parsed@) == parse_list(r.raw@),
            r.content_length as int == stored_content_length(r.raw@),
    {
        let raw = stringify(&buffer);
        Headers::from_string(raw)
    }

    /// Parses a header block from its raw text.
    pub fn from_string(raw: String) -> (r: Headers)
        ensures
            r.raw@ == raw@,
            views_of(r.parsed@) == parse_list(raw@),
            r.content_length as int == stored_content_length(raw@),
    {
        let content_length: usize = match get_content_length(&raw) {
            Some(val) => val,
            None => 0,
        };
        let parsed = parse(raw.clone());
        Headers { content_length, raw, parsed }
    }

    /// Rewrites the first Host line to the target and re-parses the block;
    /// the recorded content length is kept.
    pub fn change_host(self, target: &str) -> (r: Headers)
        ensures
            r.raw@ == change_host_text(self.raw@, target@),
            views_of(r.parsed@) == parse_list(r.raw@),
            r.content_length == self.content_length,
    {
        let raw = change_host(self.raw, target);
        let parsed = parse(raw.clone());
        Headers { raw, parsed, content_length: self.content_length }
    }
}

} // verus!
