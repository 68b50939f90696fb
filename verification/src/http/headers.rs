//! The header model: an ordered list of name/value pairs together with the
//! raw text block they were parsed from.  Parsing splits the block on CRLF
//! and takes, from each line holding a `": "` separator, the name before the
//! first separator and the lower-cased value after it; other lines are
//! skipped.  Serialization renders each pair lower-cased and ends the block
//! with one blank line.

use vstd::prelude::*;
use vstd::string::StringExecFns;
use crate::text;
use super::status::{Status, StatusView, status_full_text};
use super::HttpError;

verus! {

/// One HTTP header: a name and a value.
pub struct Header {
    pub name: String,
    pub value: String,
}

/// A header block: the raw text and the list parsed from it.
pub struct Headers {
    pub raw: String,
    pub list: Vec<Header>,
}

/// The mathematical face of a [`Header`].
pub struct HeaderView {
    pub name: Seq<char>,
    pub value: Seq<char>,
}

impl View for Header {
    type V = HeaderView;

    open spec fn view(&self) -> HeaderView {
        HeaderView { name: self.name@, value: self.value@ }
    }
}

/// The views of a header list.
pub open spec fn views_of(list: Seq<Header>) -> Seq<HeaderView> {
    list.map_values(|h: Header| h@)
}

/// The mathematical face of a [`Headers`] block.
pub struct HeadersView {
    pub raw: Seq<char>,
    pub list: Seq<HeaderView>,
}

impl View for Headers {
    type V = HeadersView;

    open spec fn view(&self) -> HeadersView {
        HeadersView { raw: self.raw@, list: views_of(self.list@) }
    }
}

/// A block is well formed when its list is what parsing its raw text gives.
pub open spec fn wf(h: HeadersView) -> bool {
    h.list == parse_list(h.raw)
}

/// The header a single line yields: the name before the first `": "` and
/// the lower-cased value after it.  Lines without a separator, and lines
/// whose name would be empty, yield nothing.
pub open spec fn parse_line(line: Seq<char>) -> Option<HeaderView> {
    match text::first_at_from(line, text::colon_space(), 0) {
        None => None,
        Some(i) => if i >= 1 {
            Some(
                HeaderView {
                    name: line.take(i as int),
                    value: text::lower(line.skip(i + 2int)),
                },
            )
        } else {
            None
        },
    }
}

/// The zero or one headers a line contributes.
pub open spec fn line_headers(line: Seq<char>) -> Seq<HeaderView> {
    match parse_line(line) {
        None => Seq::empty(),
        Some(h) => seq![h],
    }
}

/// The headers of a whole block: each CRLF-delimited line contributes its
/// header, in order.
pub open spec fn parse_list(s: Seq<char>) -> Seq<HeaderView>
    decreases s.len() via parse_list_decreases
{
    match text::first_at_from(s, text::crlf(), 0) {
        None => line_headers(s),
        Some(i) => line_headers(s.take(i as int)) + parse_list(s.skip(i + 2int)),
    }
}

#[via_fn]
proof fn parse_list_decreases(s: Seq<char>) {
    text::lemma_first_at_from_characterizes(s, text::crlf(), 0);
}

/// The rendering of one header line: both parts lower-cased.
pub open spec fn render_line(h: HeaderView) -> Seq<char> {
    text::lower(h.name) + text::colon_space() + text::lower(h.value) + text::crlf()
}

/// The rendering of a header list: each line in order, then a blank line.
pub open spec fn serialize_list(list: Seq<HeaderView>) -> Seq<char>
    decreases list.len(),
{
    if list.len() == 0 {
        text::crlf()
    } else {
        render_line(list[0]) + serialize_list(list.skip(1))
    }
}

/// The CRLF pattern as a vector.
fn crlf_chars() -> (r: Vec<char>)
    ensures
        r@ == text::crlf(),
{
    let r: Vec<char> = vec!['\r', '\n'];
    proof {
        assert(r@ =~= text::crlf());
    }
    r
}

/// The `": "` pattern as a vector.
fn colon_space_chars() -> (r: Vec<char>)
    ensures
        r@ == text::colon_space(),
{
    let r: Vec<char> = vec![':', ' '];
    proof {
        assert(r@ =~= text::colon_space());
    }
    r
}

/// Parses one line into its header, if it has one.
fn parse_line_exec(line: &Vec<char>) -> (r: Option<Header>)
    ensures
        match r {
            Some(h) => parse_line(line@) == Some(h@),
            None => parse_line(line@) is None,
        },
{
    let sep = colon_space_chars();
    match text::find_sub(line, &sep, 0) {
        None => None,
        Some(i) => {
            if i == 0 {
                None
            } else {
                proof {
                    text::lemma_first_at_from_characterizes(line@, text::colon_space(), 0);
                    assert(i + 2 <= line@.len());
                    assert(line@.len() == line.len());
                }
                let name = text::chars_string(&text::subvec(line, 0, i));
                let tail = text::subvec(line, i + 2, line.len());
                let value = text::chars_string(&text::lower_exec(&tail));
                proof {
                    assert(line@.take(i as int) =~= line@.subrange(0, i as int));
                    assert(line@.skip(i + 2) =~= line@.subrange(i + 2, line@.len() as int));
                }
                Some(Header { name, value })
            }
        },
    }
}

/// A header pair fit for the wire: a nonempty name without a separator or
/// line break, and a value without a line break.
pub open spec fn wf_header(h: HeaderView) -> bool {
    &&& h.name.len() >= 1
    &&& forall|i: int| 0 <= i < h.name.len() ==> #[trigger] h.name[i] != '\r' && h.name[i] != '\n'
    &&& forall|i: int|
        0 <= i < h.value.len() ==> #[trigger] h.value[i] != '\r' && h.value[i] != '\n'
    &&& forall|i: int| 0 <= i ==> !text::contains_at(h.name, i, text::colon_space())
}

/// The header with both parts lower-cased.
pub open spec fn lower_header(h: HeaderView) -> HeaderView {
    HeaderView { name: text::lower(h.name), value: text::lower(h.value) }
}

/// A list with every pair lower-cased.
pub open spec fn lower_list(list: Seq<HeaderView>) -> Seq<HeaderView> {
    list.map_values(|h: HeaderView| lower_header(h))
}

/// One rendered header line parses back to the lower-cased pair.
proof fn lemma_parse_render(h: HeaderView)
    requires
        wf_header(h),
    ensures
        ({
            let line = text::lower(h.name) + text::colon_space() + text::lower(h.value);
            parse_line(line) == Some(lower_header(h))
        }),
{
    let n = text::lower(h.name);
    let w = text::lower(h.value);
    let line = n + text::colon_space() + w;
    assert forall|j: int| 0 <= j < n.len() implies !text::contains_at(
        line,
        j,
        text::colon_space(),
    ) by {
        if text::contains_at(line, j, text::colon_space()) {
            assert(line.subrange(j, j + 2)[0] == line[j]);
            assert(line.subrange(j, j + 2)[1] == line[j + 1]);
            assert(line[j] == n[j]);
            if j < n.len() - 1 {
                assert(line[j + 1] == n[j + 1]);
                text::lemma_lower_char_fixed(h.name[j], ':');
                text::lemma_lower_char_fixed(h.name[j + 1], ' ');
                assert(h.name.subrange(j, j + 2) =~= text::colon_space());
                assert(text::contains_at(h.name, j, text::colon_space()));
                assert(false);
            } else {
                assert(line[j + 1] == ':');
                assert(false);
            }
        }
    }
    assert(text::contains_at(line, n.len() as int, text::colon_space())) by {
        assert(line[n.len() as int] == ':');
        assert(line[n.len() + 1int] == ' ');
        assert(line.subrange(n.len() as int, n.len() + 2int) =~= text::colon_space());
    }
    text::lemma_first_at_from_is(line, text::colon_space(), 0, n.len() as int);
    assert(line.take(n.len() as int) =~= n);
    assert(line.skip(n.len() + 2int) =~= w);
    text::lemma_lower_idempotent(h.value);
}

/// No character of a rendered header line is a carriage return.
proof fn lemma_render_line_no_cr(h: HeaderView)
    requires
        wf_header(h),
    ensures
        ({
            let line = text::lower(h.name) + text::colon_space() + text::lower(h.value);
            forall|j: int| 0 <= j < line.len() ==> #[trigger] line[j] != '\r'
        }),
{
    let n = text::lower(h.name);
    let w = text::lower(h.value);
    let line = n + text::colon_space() + w;
    assert forall|j: int| 0 <= j < line.len() implies #[trigger] line[j] != '\r' by {
        if j < n.len() {
            assert(line[j] == n[j]);
            text::lemma_lower_char_fixed(h.name[j], '\r');
        } else if j == n.len() || j == n.len() + 1 {
        } else {
            assert(line[j] == w[j - n.len() - 2]);
            text::lemma_lower_char_fixed(h.value[j - n.len() - 2], '\r');
        }
    }
}

/// Serializing a well-formed header list and parsing the block back gives
/// the same list with names and values lower-cased: the round trip is the
/// identity after one normalization pass.
pub proof fn lemma_serialize_parse_round_trip(list: Seq<HeaderView>)
    requires
        forall|i: int| 0 <= i < list.len() ==> wf_header(#[trigger] list[i]),
    ensures
        parse_list(serialize_list(list)) == lower_list(list),
    decreases list.len(),
{
    if list.len() == 0 {
        let s = text::crlf();
        assert(text::contains_at(s, 0, text::crlf())) by {
            assert(s.subrange(0, 2) =~= s);
        }
        text::lemma_first_at_from_is(s, text::crlf(), 0, 0);
        let e = Seq::<char>::empty();
        assert(s.take(0) =~= e);
        assert(s.skip(2) =~= e);
        assert(text::first_at_from(e, text::colon_space(), 0) is None);
        assert(parse_line(e) is None);
        assert(line_headers(e) =~= Seq::<HeaderView>::empty());
        assert(text::first_at_from(e, text::crlf(), 0) is None);
        assert(parse_list(e) =~= Seq::<HeaderView>::empty());
        assert(parse_list(s) == line_headers(e) + parse_list(e));
        assert(parse_list(serialize_list(list)) =~= lower_list(list));
    } else {
        let h = list[0];
        let rest = list.skip(1);
        let n = text::lower(h.name);
        let w = text::lower(h.value);
        let line = n + text::colon_space() + w;
        let tail = serialize_list(rest);
        let s = serialize_list(list);
        assert(s =~= line + text::crlf() + tail);
        lemma_render_line_no_cr(h);
        assert forall|j: int| 0 <= j < line.len() implies !text::contains_at(
            s,
            j,
            text::crlf(),
        ) by {
            if text::contains_at(s, j, text::crlf()) {
                assert(s.subrange(j, j + 2)[0] == s[j]);
                assert(s[j] == line[j]);
                assert(false);
            }
        }
        assert(text::contains_at(s, line.len() as int, text::crlf())) by {
            assert(s[line.len() as int] == '\r');
            assert(s[line.len() + 1int] == '\n');
            assert(s.subrange(line.len() as int, line.len() + 2int) =~= text::crlf());
        }
        text::lemma_first_at_from_is(s, text::crlf(), 0, line.len() as int);
        assert(s.take(line.len() as int) =~= line);
        assert(s.skip(line.len() + 2int) =~= tail);
        lemma_parse_render(h);
        assert(forall|i: int| 0 <= i < rest.len() ==> wf_header(#[trigger] rest[i]));
        lemma_serialize_parse_round_trip(rest);
        assert(line_headers(line) =~= seq![lower_header(h)]);
        assert(parse_list(s) == seq![lower_header(h)] + lower_list(rest));
        assert(lower_list(list) =~= seq![lower_header(h)] + lower_list(rest));
    }
}

/// A block made of a prefix line without separators, one CRLF, and a
/// serialized well-formed list parses back to the lower-cased list: the
/// prefix line contributes no header.
pub proof fn lemma_parse_prefixed_block(prefix: Seq<char>, list: Seq<HeaderView>)
    requires
        forall|i: int| 0 <= i < list.len() ==> wf_header(#[trigger] list[i]),
        forall|i: int| 0 <= i < prefix.len() ==> #[trigger] prefix[i] != '\r',
        forall|i: int| 0 <= i ==> !text::contains_at(prefix, i, text::colon_space()),
    ensures
        parse_list(prefix + text::crlf() + serialize_list(list)) == lower_list(list),
{
    let tail = serialize_list(list);
    let s = prefix + text::crlf() + tail;
    assert forall|j: int| 0 <= j < prefix.len() implies !text::contains_at(
        s,
        j,
        text::crlf(),
    ) by {
        if text::contains_at(s, j, text::crlf()) {
            assert(s.subrange(j, j + 2)[0] == s[j]);
            assert(s[j] == prefix[j]);
            assert(false);
        }
    }
    assert(text::contains_at(s, prefix.len() as int, text::crlf())) by {
        assert(s[prefix.len() as int] == '\r');
        assert(s[prefix.len() + 1int] == '\n');
        assert(s.subrange(prefix.len() as int, prefix.len() + 2int) =~= text::crlf());
    }
    text::lemma_first_at_from_is(s, text::crlf(), 0, prefix.len() as int);
    assert(s.take(prefix.len() as int) =~= prefix);
    assert(s.skip(prefix.len() + 2int) =~= tail);
    text::lemma_first_at_from_is_none(prefix, text::colon_space(), 0);
    assert(line_headers(prefix) =~= Seq::<HeaderView>::empty());
    lemma_serialize_parse_round_trip(list);
    assert(parse_list(s) =~= lower_list(list));
}

/// Setting a header on a well-formed list and re-deriving the block from a
/// prefix line yields a block whose re-parse holds the new value at the
/// matched entry (or appended at the end) and every other entry unchanged
/// up to lower-casing, in its original position.
pub proof fn lemma_set_header_reparse(
    list: Seq<HeaderView>,
    name: Seq<char>,
    value: Seq<char>,
    prefix: Seq<char>,
)
    requires
        forall|i: int| 0 <= i < list.len() ==> wf_header(#[trigger] list[i]),
        wf_header(HeaderView { name, value }),
        forall|i: int| 0 <= i < prefix.len() ==> #[trigger] prefix[i] != '\r',
        forall|i: int| 0 <= i ==> !text::contains_at(prefix, i, text::colon_space()),
    ensures
        ({
            let upd = set_header_list(list, name, value);
            let parsed = parse_list(prefix + text::crlf() + serialize_list(upd));
            match find_name(list, name) {
                Some(k) => {
                    &&& parsed.len() == list.len()
                    &&& parsed[k as int] == lower_header(HeaderView { name, value })
                    &&& forall|j: int|
                        0 <= j < list.len() && j != k ==> parsed[j] == lower_header(
                            #[trigger] list[j],
                        )
                },
                None => {
                    &&& parsed.len() == list.len() + 1
                    &&& parsed[list.len() as int] == lower_header(HeaderView { name, value })
                    &&& forall|j: int|
                        0 <= j < list.len() ==> parsed[j] == lower_header(#[trigger] list[j])
                },
            }
        }),
{
    let upd = set_header_list(list, name, value);
    text::lemma_first_idx_from_characterizes(
        list.len(),
        0,
        |i: int| name_matches(list[i], name),
    );
    assert(forall|i: int| 0 <= i < upd.len() ==> wf_header(#[trigger] upd[i]));
    lemma_parse_prefixed_block(prefix, upd);
}

/// The case-insensitive token announcing a content length.
pub open spec fn cl_token() -> Seq<char> {
    "content-length:"@
}

/// The case-insensitive token announcing a transfer encoding.
pub open spec fn te_token() -> Seq<char> {
    "transfer-encoding:"@
}

/// Where a protocol token `HTTP/<digits>.<digits>` (with an optional `S`)
/// starting at `i` ends, if one starts there.
pub open spec fn proto_end_at(s: Seq<char>, i: int) -> Option<nat> {
    if !text::contains_at(s, i, "HTTP"@) {
        None
    } else {
        let p = if i + 4 < s.len() && s[i + 4] == 'S' {
            i + 5
        } else {
            i + 4
        };
        if p < s.len() && s[p] == '/' {
            let d1 = text::run_end(s, (p + 1) as nat, |c: char| text::is_digit(c));
            if d1 > p + 1 && d1 < s.len() && s[d1 as int] == '.' {
                let d2 = text::run_end(s, (d1 + 1) as nat, |c: char| text::is_digit(c));
                if d2 > d1 + 1 {
                    Some(d2)
                } else {
                    None
                }
            } else {
                None
            }
        } else {
            None
        }
    }
}

/// A block framed as a response: it opens with a protocol token.
pub open spec fn is_response_of(s: Seq<char>) -> bool {
    proto_end_at(s, 0) is Some
}

/// The request path read from a raw block: the first `/` and the
/// path characters after it, or `/` when the block has no `/` at all.
pub open spec fn url_of(s: Seq<char>) -> Seq<char> {
    match text::first_at_from(s, seq!['/'], 0) {
        None => "/"@,
        Some(i) => s.subrange(
            i as int,
            text::run_end(s, (i + 1) as nat, |c: char| text::is_url_char(c)) as int,
        ),
    }
}

/// The query string read from a raw block: the first `?` and the query
/// characters after it, or nothing.
pub open spec fn query_of(s: Seq<char>) -> Seq<char> {
    match text::first_at_from(s, seq!['?'], 0) {
        None => Seq::empty(),
        Some(i) => s.subrange(
            i as int,
            text::run_end(s, (i + 1) as nat, |c: char| text::is_query_char(c)) as int,
        ),
    }
}

/// The method read from a raw block: its first word, or the `OPTIONS`
/// placeholder when the block has no word at all.
pub open spec fn method_of(s: Seq<char>) -> Seq<char> {
    match text::first_idx_from(s.len(), 0, |i: int| text::is_word_char(s[i])) {
        None => "OPTIONS"@,
        Some(i) => s.subrange(
            i as int,
            text::run_end(s, i, |c: char| text::is_word_char(c)) as int,
        ),
    }
}

/// The protocol read from a raw block: its first protocol token, or the
/// `OPTIONS` placeholder when it has none.
pub open spec fn protocol_of(s: Seq<char>) -> Seq<char> {
    match text::first_idx_from(s.len(), 0, |i: int| proto_end_at(s, i) is Some) {
        None => "OPTIONS"@,
        Some(i) => s.subrange(i as int, proto_end_at(s, i as int).unwrap() as int),
    }
}

/// A content-length announcement at `i` of the lower-cased block: the
/// token, then optional whitespace, then at least one digit.
pub open spec fn cl_match_at(low: Seq<char>, i: int) -> bool {
    text::contains_at(low, i, cl_token()) && {
        let j = text::run_end(low, (i + cl_token().len()) as nat, |c: char| text::is_space(c));
        j < low.len() && text::is_digit(low[j as int])
    }
}

/// The content length announced by a raw block: the digits after the
/// first case-insensitive announcement, read in base ten.
pub open spec fn content_length_of(s: Seq<char>) -> Option<nat> {
    let low = text::lower(s);
    match text::first_idx_from(low.len(), 0, |i: int| cl_match_at(low, i)) {
        None => None,
        Some(i) => {
            let j = text::run_end(
                low,
                (i + cl_token().len()) as nat,
                |c: char| text::is_space(c),
            );
            let k = text::run_end(low, j, |c: char| text::is_digit(c));
            Some(text::dec_val(low.subrange(j as int, k as int)))
        },
    }
}

/// A block whose lower-cased text holds no content-length token announces
/// no content length.
pub proof fn lemma_no_token_no_content_length(s: Seq<char>)
    requires
        forall|i: int| 0 <= i ==> !text::contains_at(text::lower(s), i, cl_token()),
    ensures
        content_length_of(s) is None,
{
    let low = text::lower(s);
    assert forall|j: int| 0 <= j < low.len() implies !cl_match_at(low, j) by {}
    text::lemma_first_idx_from_is_none(low.len() as nat, 0, |i: int| cl_match_at(low, i));
}

/// A chunked-transfer announcement at `i` of the lower-cased block.
pub open spec fn te_chunked_at(low: Seq<char>, i: int) -> bool {
    text::contains_at(low, i, te_token()) && {
        let j = text::run_end(low, (i + te_token().len()) as nat, |c: char| text::is_space(c));
        text::contains_at(low, j as int, "chunked"@)
    }
}

/// Whether a raw block announces a chunked transfer encoding.
pub open spec fn chunked_of(s: Seq<char>) -> bool {
    let low = text::lower(s);
    text::first_idx_from(low.len(), 0, |i: int| te_chunked_at(low, i)) is Some
}

/// The first CRLF-terminated line of a block, if the block has a CRLF.
pub open spec fn first_line_of(s: Seq<char>) -> Option<Seq<char>> {
    match text::first_at_from(s, text::crlf(), 0) {
        None => None,
        Some(i) => Some(s.take(i as int)),
    }
}

/// The request-line prefix: the first line, which must not be empty.
pub open spec fn prefix_of(s: Seq<char>) -> Option<Seq<char>> {
    match first_line_of(s) {
        None => None,
        Some(l) => if l.len() == 0 {
            None
        } else {
            Some(l)
        },
    }
}

/// A status line with its leading protocol token and one following space
/// removed; lines shaped otherwise are kept whole.
pub open spec fn strip_version_space(l: Seq<char>) -> Seq<char> {
    match proto_end_at(l, 0) {
        None => l,
        Some(e) => if e < l.len() && l[e as int] == ' ' {
            l.skip(e + 1int)
        } else {
            l
        },
    }
}

/// The status parsed from a status line: the leading digits after the
/// protocol token are the code, what follows one space is the phrase.
pub open spec fn status_of_line(l: Seq<char>) -> Option<StatusView> {
    let a = strip_version_space(l);
    let k = text::run_end(a, 0, |c: char| text::is_digit(c));
    if k == 0 {
        None
    } else if text::dec_val(a.take(k as int)) > u16::MAX {
        None
    } else {
        let t = if k < a.len() && a[k as int] == ' ' {
            a.skip(k + 1int)
        } else {
            a
        };
        Some(StatusView { code: text::dec_val(a.take(k as int)) as u16, text: t })
    }
}

/// The status parsed from a block's first line.
pub open spec fn status_of(s: Seq<char>) -> Option<StatusView> {
    match first_line_of(s) {
        None => None,
        Some(l) => status_of_line(l),
    }
}

/// Case-insensitive equality of header names.
pub open spec fn name_matches(h: HeaderView, name: Seq<char>) -> bool {
    text::lower(h.name) == text::lower(name)
}

/// The first entry whose name matches case-insensitively.
pub open spec fn find_name(list: Seq<HeaderView>, name: Seq<char>) -> Option<nat> {
    text::first_idx_from(list.len(), 0, |i: int| name_matches(list[i], name))
}

/// A list after set-or-append of one header: the first matching entry is
/// replaced, or the pair is appended when no entry matches.
pub open spec fn set_header_list(list: Seq<HeaderView>, name: Seq<char>, value: Seq<char>)
    -> Seq<HeaderView> {
    match find_name(list, name) {
        Some(k) => list.update(k as int, HeaderView { name, value }),
        None => list.push(HeaderView { name, value }),
    }
}

/// The re-typed prefix a set-or-append re-derives the block with: the
/// re-rendered status line of a response, or the trimmed first line of a
/// request; nothing when the block has no usable first line.
pub open spec fn set_header_prefix(s: Seq<char>) -> Option<Seq<char>> {
    if is_response_of(s) {
        match status_of(s) {
            None => None,
            Some(sv) => Some(status_full_text(sv)),
        }
    } else {
        match prefix_of(s) {
            None => None,
            Some(p) => Some(text::trim_end(p)),
        }
    }
}

impl Headers {
    /// An empty block: no raw text, no headers.
    pub fn new() -> (r: Headers)
        ensures
            r@.raw == Seq::<char>::empty(),
            r@.list == Seq::<HeaderView>::empty(),
            wf(r@),
    {
        let r = Headers::from_string(String::new());
        proof {
            let e = Seq::<char>::empty();
            assert(text::first_at_from(e, text::crlf(), 0) is None);
            assert(text::first_at_from(e, text::colon_space(), 0) is None);
            assert(parse_line(e) is None);
            assert(parse_list(e) =~= Seq::<HeaderView>::empty());
        }
        r
    }

    /// Parses a raw block into its header list.
    pub fn from_string(raw: String) -> (r: Headers)
        ensures
            r@.raw == raw@,
            r@.list == parse_list(raw@),
            wf(r@),
    {
        let v = text::str_chars(raw.as_str());
        let crlf = crlf_chars();
        let mut list: Vec<Header> = Vec::new();
        let mut c: usize = 0;
        let mut done: bool = false;
        proof {
            assert(views_of(list@) =~= Seq::<HeaderView>::empty());
            assert(v@.skip(0) =~= v@);
            assert(views_of(list@) + parse_list(v@) =~= parse_list(v@));
        }
        while !done
            invariant
                c <= v@.len(),
                v@ == raw@,
                crlf@ == text::crlf(),
                views_of(list@) + if done {
                    Seq::<HeaderView>::empty()
                } else {
                    parse_list(v@.skip(c as int))
                } == parse_list(v@),
            decreases v@.len() - c + if done {
                0int
            } else {
                1int
            },
        {
            let ghost tail = v@.skip(c as int);
            proof {
                text::lemma_first_at_from_shift(v@, text::crlf(), c as nat);
            }
            match text::find_sub(&v, &crlf, c) {
                Some(i) => {
                    proof {
                        text::lemma_first_at_from_characterizes(v@, text::crlf(), c as nat);
                        assert(text::first_at_from(tail, text::crlf(), 0) == Some(
                            (i - c) as nat,
                        ));
                        assert(parse_list(tail) == line_headers(tail.take(i - c)) + parse_list(
                            tail.skip(i - c + 2),
                        ));
                        assert(tail.take(i - c) =~= v@.subrange(c as int, i as int));
                        assert(tail.skip(i - c + 2) =~= v@.skip(i + 2));
                        assert(i + 2 <= v@.len());
                        assert(v@.len() == v.len());
                    }
                    let line = text::subvec(&v, c, i);
                    match parse_line_exec(&line) {
                        Some(h) => {
                            let ghost old_views = views_of(list@);
                            list.push(h);
                            proof {
                                assert(views_of(list@) =~= old_views.push(h@));
                                assert(line_headers(line@) =~= seq![h@]);
                                assert(old_views.push(h@) =~= old_views + seq![h@]);
                            }
                        },
                        None => {
                            proof {
                                assert(line_headers(line@) =~= Seq::<HeaderView>::empty());
                                assert(views_of(list@) + line_headers(line@) =~= views_of(
                                    list@,
                                ));
                            }
                        },
                    }
                    c = i + 2;
                },
                None => {
                    proof {
                        assert(parse_list(tail) == line_headers(tail));
                        assert(tail =~= v@.subrange(c as int, v@.len() as int));
                    }
                    let line = text::subvec(&v, c, v.len());
                    match parse_line_exec(&line) {
                        Some(h) => {
                            let ghost old_views = views_of(list@);
                            list.push(h);
                            proof {
                                assert(views_of(list@) =~= old_views.push(h@));
                                assert(line_headers(line@) =~= seq![h@]);
                                assert(old_views.push(h@) =~= old_views + seq![h@]);
                            }
                        },
                        None => {
                            proof {
                                assert(line_headers(line@) =~= Seq::<HeaderView>::empty());
                                assert(views_of(list@) + line_headers(line@) =~= views_of(
                                    list@,
                                ));
                            }
                        },
                    }
                    done = true;
                },
            }
        }
        proof {
            assert(views_of(list@) + Seq::<HeaderView>::empty() =~= views_of(list@));
        }
        Headers { raw, list }
    }

    /// Renders a header list as a raw block: one line per header, both
    /// parts lower-cased, then a blank line.
    pub fn to_string(list: Vec<Header>) -> (r: String)
        ensures
            r@ == serialize_list(views_of(list@)),
    {
        let ghost all = views_of(list@);
        let mut out: Vec<char> = Vec::new();
        let mut i: usize = 0;
        proof {
            assert(all.skip(0) =~= all);
            assert(out@ + serialize_list(all) =~= serialize_list(all));
        }
        while i < list.len()
            invariant
                i <= list@.len(),
                all == views_of(list@),
                out@ + serialize_list(all.skip(i as int)) == serialize_list(all),
            decreases list@.len() - i,
        {
            let ghost rest = all.skip(i as int);
            let ghost out0 = out@;
            proof {
                assert(rest.len() > 0);
                assert(rest[0] == all[i as int]);
                assert(serialize_list(rest) == render_line(rest[0]) + serialize_list(
                    rest.skip(1),
                ));
                assert(rest.skip(1) =~= all.skip(i as int + 1));
            }
            let mut name_l = text::lower_exec(&text::str_chars(list[i].name.as_str()));
            out.append(&mut name_l);
            out.push(':');
            out.push(' ');
            let mut value_l = text::lower_exec(&text::str_chars(list[i].value.as_str()));
            out.append(&mut value_l);
            out.push('\r');
            out.push('\n');
            proof {
                assert(out@ =~= out0 + render_line(all[i as int]));
                assert(out@ + serialize_list(all.skip(i as int + 1)) =~= out0 + serialize_list(
                    rest,
                ));
            }
            i = i + 1;
        }
        proof {
            assert(all.skip(i as int) =~= Seq::<HeaderView>::empty());
            assert(serialize_list(Seq::<HeaderView>::empty()) == text::crlf());
        }
        out.push('\r');
        out.push('\n');
        proof {
            assert(out@ =~= serialize_list(all));
        }
        text::chars_string(&out)
    }

    /// Builds request headers from a prefix line and a list: the prefix is
    /// trimmed of trailing whitespace, then the rendered list follows.
    pub fn new_request(prefix: &str, list: Vec<Header>) -> (r: Headers)
        ensures
            r@.raw == text::trim_end(prefix@) + text::crlf() + serialize_list(views_of(list@)),
            r@.list == parse_list(r@.raw),
            wf(r@),
    {
        let ghost lv = views_of(list@);
        let postfix = Headers::to_string(list);
        let pv = text::str_chars(prefix);
        let cut = text::trim_end_exec(&pv);
        let mut out = text::subvec(&pv, 0, cut);
        proof {
            assert(pv@.subrange(0, cut as int) =~= pv@.take(cut as int));
        }
        out.push('\r');
        out.push('\n');
        let mut post_chars = text::str_chars(postfix.as_str());
        out.append(&mut post_chars);
        proof {
            assert(out@ =~= text::trim_end(prefix@) + text::crlf() + serialize_list(lv));
        }
        Headers::from_string(text::chars_string(&out))
    }

    /// Builds response headers from a status and a list: the re-rendered
    /// status line, then the rendered list.
    pub fn new_response(status: &Status, list: Vec<Header>) -> (r: Headers)
        ensures
            r@.raw == status_full_text(status@) + text::crlf() + serialize_list(views_of(list@)),
            r@.list == parse_list(r@.raw),
            wf(r@),
    {
        let ghost lv = views_of(list@);
        let postfix = Headers::to_string(list);
        let prefix = status.to_full_string();
        let mut out = text::str_chars(prefix.as_str());
        out.push('\r');
        out.push('\n');
        let mut post_chars = text::str_chars(postfix.as_str());
        out.append(&mut post_chars);
        proof {
            assert(out@ =~= status_full_text(status@) + text::crlf() + serialize_list(lv));
        }
        Headers::from_string(text::chars_string(&out))
    }

    /// Parses a byte block; only valid UTF-8 is accepted.
    pub fn from_bytes(heads: &Vec<u8>) -> (r: Result<Headers, HttpError>)
        ensures
            match r {
                Ok(h) => {
                    &&& vstd::utf8::valid_utf8(heads@)
                    &&& h@.raw == vstd::utf8::decode_utf8(heads@)
                    &&& h@.list == parse_list(h@.raw)
                    &&& wf(h@)
                },
                Err(e) => !vstd::utf8::valid_utf8(heads@) && e == HttpError::InvalidInput,
            },
    {
        match super::bytes_to_string(heads) {
            Some(s) => Ok(Headers::from_string(s)),
            None => Err(HttpError::InvalidInput),
        }
    }

    /// The index of the first entry matching the name, case-insensitively.
    fn find_name_exec(list: &Vec<Header>, name: &str) -> (r: Option<usize>)
        ensures
            match r {
                Some(k) => find_name(views_of(list@), name@) == Some(k as nat) && k
                    < list@.len(),
                None => find_name(views_of(list@), name@) is None,
            },
    {
        let name_low = text::lower_exec(&text::str_chars(name));
        let ghost vs = views_of(list@);
        let mut i: usize = 0;
        while i < list.len()
            invariant
                i <= list@.len(),
                vs == views_of(list@),
                name_low@ == text::lower(name@),
                forall|j: int| 0 <= j < i ==> !name_matches(vs[j], name@),
            decreases list@.len() - i,
        {
            let h_low = text::lower_exec(&text::str_chars(list[i].name.as_str()));
            if text::chars_eq(&h_low, &name_low) {
                proof {
                    assert(name_matches(vs[i as int], name@));
                    text::lemma_first_idx_from_is(
                        vs.len(),
                        0,
                        |j: int| name_matches(vs[j], name@),
                        i as int,
                    );
                }
                return Some(i);
            }
            proof {
                assert(!name_matches(vs[i as int], name@));
            }
            i = i + 1;
        }
        proof {
            text::lemma_first_idx_from_is_none(vs.len(), 0, |j: int| name_matches(vs[j], name@));
        }
        None
    }

    /// Copies the list, replacing the first case-insensitive name match
    /// with the re-typed pair; reports whether a match was found.
    fn change_header(&self, name: &str, value: &str) -> (r: (Vec<Header>, bool))
        ensures
            views_of(r.0@) == match find_name(self@.list, name@) {
                Some(k) => self@.list.update(
                    k as int,
                    HeaderView { name: name@, value: value@ },
                ),
                None => self@.list,
            },
            r.1 == (find_name(self@.list, name@) is Some),
    {
        let idx = Headers::find_name_exec(&self.list, name);
        let ghost target = match find_name(self@.list, name@) {
            Some(k) => self@.list.update(k as int, HeaderView { name: name@, value: value@ }),
            None => self@.list,
        };
        let mut out: Vec<Header> = Vec::new();
        let mut i: usize = 0;
        proof {
            assert(views_of(out@) =~= target.take(0));
        }
        while i < self.list.len()
            invariant
                i <= self.list@.len(),
                target.len() == self.list@.len(),
                target == match find_name(self@.list, name@) {
                    Some(k) => self@.list.update(
                        k as int,
                        HeaderView { name: name@, value: value@ },
                    ),
                    None => self@.list,
                },
                match idx {
                    Some(k) => find_name(self@.list, name@) == Some(k as nat) && k
                        < self.list@.len(),
                    None => find_name(self@.list, name@) is None,
                },
                views_of(out@) =~= target.take(i as int),
            decreases self.list@.len() - i,
        {
            let replace_here: bool = match idx {
                Some(k) => k == i,
                None => false,
            };
            let ghost old_views = views_of(out@);
            if replace_here {
                out.push(Header { name: String::from_str(name), value: String::from_str(value) });
            } else {
                let h = &self.list[i];
                out.push(Header { name: h.name.clone(), value: h.value.clone() });
            }
            i = i + 1;
            proof {
                assert(views_of(out@) =~= old_views.push(target[i as int - 1]));
                assert(target.take(i as int) =~= target.take(i as int - 1).push(
                    target[i as int - 1],
                ));
            }
        }
        proof {
            assert(target.take(target.len() as int) =~= target);
        }
        (out, idx.is_some())
    }

    /// Whether the list holds an entry with this name, case-insensitively.
    pub fn has_header(&self, name: &str) -> (r: bool)
        ensures
            r == (find_name(self@.list, name@) is Some),
    {
        Headers::find_name_exec(&self.list, name).is_some()
    }

    /// Sets a header or appends it, then re-derives the whole block from
    /// its re-typed prefix line and the new list.
    pub fn set_header(&self, name: &str, value: &str) -> (r: Result<Headers, HttpError>)
        ensures
            match r {
                Ok(h) => {
                    &&& set_header_prefix(self@.raw) is Some
                    &&& h@.raw == set_header_prefix(self@.raw).unwrap() + text::crlf()
                        + serialize_list(set_header_list(self@.list, name@, value@))
                    &&& h@.list == parse_list(h@.raw)
                    &&& wf(h@)
                },
                Err(e) => set_header_prefix(self@.raw) is None && e == HttpError::InvalidInput,
            },
    {
        let (mut new_list, check) = self.change_header(name, value);
        if !check {
            let ghost old_views = views_of(new_list@);
            new_list.push(Header { name: String::from_str(name), value: String::from_str(value) });
            proof {
                assert(views_of(new_list@) =~= old_views.push(
                    HeaderView { name: name@, value: value@ },
                ));
            }
        }
        proof {
            assert(views_of(new_list@) == set_header_list(self@.list, name@, value@));
        }
        if self.is_response() {
            match Headers::get_status(&self.raw) {
                Ok(status) => Ok(Headers::new_response(&status, new_list)),
                Err(e) => Err(e),
            }
        } else {
            match Headers::get_headers_prefix(&self.raw) {
                Ok(prefix) => Ok(Headers::new_request(prefix.as_str(), new_list)),
                Err(e) => Err(e),
            }
        }
    }

    /// The status parsed from the block's first line.
    #[verifier::rlimit(60)]
    fn get_status(raw: &String) -> (r: Result<Status, HttpError>)
        ensures
            match status_of(raw@) {
                Some(sv) => r is Ok && r.unwrap()@ == sv,
                None => r == Err::<Status, HttpError>(HttpError::InvalidInput),
            },
    {
        let v = text::str_chars(raw.as_str());
        let crlf = crlf_chars();
        let i = match text::find_sub(&v, &crlf, 0) {
            None => {
                return Err(HttpError::InvalidInput);
            },
            Some(i) => i,
        };
        proof {
            text::lemma_first_at_from_characterizes(v@, text::crlf(), 0);
            assert(v@.len() == v.len());
        }
        let line = text::subvec(&v, 0, i);
        proof {
            assert(line@ =~= v@.take(i as int));
        }
        let ghost a = strip_version_space(line@);
        let a0: usize = match proto_check(&line, 0) {
            Some(e) => if e < line.len() && line[e] == ' ' {
                e + 1
            } else {
                0
            },
            None => 0,
        };
        proof {
            assert(line@.skip(0) =~= line@);
            assert(a =~= line@.skip(a0 as int));
            text::lemma_run_end_shift(line@, a0 as nat, 0, |c: char| text::is_digit(c));
            assert(line@.len() == line.len());
        }
        let k = text::digit_run_end(&line, a0);
        if k == a0 {
            return Err(HttpError::InvalidInput);
        }
        proof {
            assert(a.take(k - a0) =~= line@.subrange(a0 as int, k as int));
        }
        match text::parse_dec_u32(&line, a0, k) {
            None => Err(HttpError::InvalidInput),
            Some(n) => {
                if n > 65535 {
                    return Err(HttpError::InvalidInput);
                }
                let code: u16 = n as u16;
                let t: Vec<char> = if k < line.len() && line[k] == ' ' {
                    proof {
                        assert(a[k - a0] == line@[k as int]);
                        assert(a.skip(k - a0 + 1) =~= line@.subrange(
                            k as int + 1,
                            line@.len() as int,
                        ));
                    }
                    text::subvec(&line, k + 1, line.len())
                } else {
                    proof {
                        if k - a0 < a.len() {
                            assert(a[k - a0] == line@[k as int]);
                        }
                        assert(a =~= line@.subrange(a0 as int, line@.len() as int));
                    }
                    text::subvec(&line, a0, line.len())
                };
                Ok(Status { code, text: text::chars_string(&t) })
            },
        }
    }

    /// The first line of the block, which a request re-derivation reuses.
    fn get_headers_prefix(raw: &String) -> (r: Result<String, HttpError>)
        ensures
            match prefix_of(raw@) {
                Some(p) => r is Ok && r.unwrap()@ == p,
                None => r == Err::<String, HttpError>(HttpError::InvalidInput),
            },
    {
        let v = text::str_chars(raw.as_str());
        let crlf = crlf_chars();
        match text::find_sub(&v, &crlf, 0) {
            None => Err(HttpError::InvalidInput),
            Some(i) => {
                if i == 0 {
                    Err(HttpError::InvalidInput)
                } else {
                    proof {
                        text::lemma_first_at_from_characterizes(v@, text::crlf(), 0);
                        assert(v@.len() == v.len());
                        assert(v@.subrange(0, i as int) =~= v@.take(i as int));
                    }
                    Ok(text::chars_string(&text::subvec(&v, 0, i)))
                }
            },
        }
    }

    /// Whether the block is framed as a response.
    fn is_response(&self) -> (r: bool)
        ensures
            r == is_response_of(self@.raw),
    {
        let v = text::str_chars(self.raw.as_str());
        proto_check(&v, 0).is_some()
    }

    /// The request path in a raw block, `/` when none is found.
    pub fn get_url(raw: &String) -> (r: String)
        ensures
            r@ == url_of(raw@),
    {
        let v = text::str_chars(raw.as_str());
        let pat: Vec<char> = vec!['/'];
        proof {
            assert(pat@ =~= seq!['/']);
        }
        match text::find_sub(&v, &pat, 0) {
            None => String::from_str("/"),
            Some(i) => {
                proof {
                    text::lemma_first_at_from_characterizes(v@, seq!['/'], 0);
                    assert(i + 1 <= v@.len());
                    assert(v@.len() == v.len());
                }
                let k = text::url_run_end(&v, i + 1);
                text::chars_string(&text::subvec(&v, i, k))
            },
        }
    }

    /// The query string in a raw block, empty when none is found.
    pub fn get_query(raw: &String) -> (r: String)
        ensures
            r@ == query_of(raw@),
    {
        let v = text::str_chars(raw.as_str());
        let pat: Vec<char> = vec!['?'];
        proof {
            assert(pat@ =~= seq!['?']);
        }
        match text::find_sub(&v, &pat, 0) {
            None => String::new(),
            Some(i) => {
                proof {
                    text::lemma_first_at_from_characterizes(v@, seq!['?'], 0);
                    assert(i + 1 <= v@.len());
                    assert(v@.len() == v.len());
                }
                let k = text::query_run_end(&v, i + 1);
                text::chars_string(&text::subvec(&v, i, k))
            },
        }
    }

    /// The first word of a raw block, the `OPTIONS` placeholder when it
    /// has none.
    pub fn get_method(raw: &String) -> (r: String)
        ensures
            r@ == method_of(raw@),
    {
        let v = text::str_chars(raw.as_str());
        let mut i: usize = 0;
        while i < v.len()
            invariant
                i <= v@.len(),
                v@ == raw@,
                forall|j: int| 0 <= j < i ==> !text::is_word_char(raw@[j]),
            decreases v@.len() - i,
        {
            if text::is_word_char_exec(v[i]) {
                proof {
                    text::lemma_first_idx_from_is(
                        raw@.len(),
                        0,
                        |j: int| text::is_word_char(raw@[j]),
                        i as int,
                    );
                }
                let k = text::word_run_end(&v, i);
                return text::chars_string(&text::subvec(&v, i, k));
            }
            i = i + 1;
        }
        proof {
            text::lemma_first_idx_from_is_none(raw@.len(), 0, |j: int| text::is_word_char(raw@[j]));
        }
        String::from_str("OPTIONS")
    }

    /// The first protocol token of a raw block, the `OPTIONS` placeholder
    /// when it has none.
    pub fn get_protocol(raw: &String) -> (r: String)
        ensures
            r@ == protocol_of(raw@),
    {
        let v = text::str_chars(raw.as_str());
        let pat = text::str_chars("HTTP");
        proof {
            reveal_strlit("HTTP");
        }
        let mut from: usize = 0;
        loop
            invariant
                from <= v@.len(),
                v@ == raw@,
                pat@ == "HTTP"@,
                pat@.len() == 4,
                forall|j: int| 0 <= j < from ==> proto_end_at(raw@, j) is None,
            decreases v@.len() - from,
        {
            match text::find_sub(&v, &pat, from) {
                None => {
                    proof {
                        text::lemma_first_at_from_characterizes(v@, pat@, from as nat);
                        assert forall|j: int| 0 <= j < raw@.len() implies proto_end_at(
                            raw@,
                            j,
                        ) is None by {
                            if j >= from {
                                assert(!text::contains_at(raw@, j, "HTTP"@));
                            }
                        }
                        text::lemma_first_idx_from_is_none(
                            raw@.len(),
                            0,
                            |j: int| proto_end_at(raw@, j) is Some,
                        );
                    }
                    return String::from_str("OPTIONS");
                },
                Some(i) => {
                    proof {
                        text::lemma_first_at_from_characterizes(v@, pat@, from as nat);
                        assert forall|j: int| 0 <= j < i implies proto_end_at(raw@, j) is None by {
                            if j >= from {
                                assert(!text::contains_at(raw@, j, "HTTP"@));
                            }
                        }
                        assert(i + 4 <= v@.len());
                        assert(v@.len() == v.len());
                    }
                    match proto_check(&v, i) {
                        Some(e) => {
                            proof {
                                text::lemma_first_idx_from_is(
                                    raw@.len(),
                                    0,
                                    |j: int| proto_end_at(raw@, j) is Some,
                                    i as int,
                                );
                            }
                            return text::chars_string(&text::subvec(&v, i, e));
                        },
                        None => {
                            from = i + 1;
                        },
                    }
                },
            }
        }
    }

    /// The content length announced by a raw block; `None` when no
    /// announcement is found or its digits do not fit in 32 bits.
    pub fn get_content_length(raw: &String) -> (r: Option<u32>)
        ensures
            match content_length_of(raw@) {
                Some(n) => if n <= u32::MAX {
                    r == Some(n as u32)
                } else {
                    r is None
                },
                None => r is None,
            },
    {
        match content_length_digits(raw) {
            Some((low, j, k)) => text::parse_dec_u32(&low, j, k),
            None => None,
        }
    }

    /// Whether a raw block announces a chunked transfer encoding.
    pub fn get_chunked(raw: &String) -> (r: bool)
        ensures
            r == chunked_of(raw@),
    {
        let v = text::str_chars(raw.as_str());
        let low = text::lower_exec(&v);
        let pat = text::str_chars("transfer-encoding:");
        let chunked_pat = text::str_chars("chunked");
        proof {
            reveal_strlit("transfer-encoding:");
            reveal_strlit("chunked");
            assert(te_token().len() == 18);
        }
        let ghost ls = text::lower(raw@);
        let mut from: usize = 0;
        loop
            invariant
                from <= low@.len(),
                low@ == ls,
                ls == text::lower(raw@),
                ls.len() == raw@.len(),
                pat@ == te_token(),
                pat@.len() == 18,
                chunked_pat@ == "chunked"@,
                chunked_pat@.len() == 7,
                forall|j: int| 0 <= j < from ==> !te_chunked_at(ls, j),
            decreases low@.len() - from,
        {
            match text::find_sub(&low, &pat, from) {
                None => {
                    proof {
                        text::lemma_first_at_from_characterizes(low@, pat@, from as nat);
                        assert forall|j: int| 0 <= j < ls.len() implies !te_chunked_at(ls, j) by {
                            if j >= from {
                                assert(!text::contains_at(ls, j, te_token()));
                            }
                        }
                        text::lemma_first_idx_from_is_none(
                            ls.len(),
                            0,
                            |j: int| te_chunked_at(ls, j),
                        );
                    }
                    return false;
                },
                Some(i) => {
                    proof {
                        text::lemma_first_at_from_characterizes(low@, pat@, from as nat);
                        assert(i + 18 <= ls.len());
                        assert(low@.len() == low.len());
                    }
                    let j = text::space_run_end(&low, i + 18);
                    let hit: bool = if low.len() - j >= 7 {
                        text::chars_eq(&text::subvec(&low, j, j + 7), &chunked_pat)
                    } else {
                        false
                    };
                    if hit {
                        proof {
                            assert(text::contains_at(ls, j as int, "chunked"@));
                            assert(te_chunked_at(ls, i as int));
                            text::lemma_first_idx_from_is(
                                ls.len(),
                                0,
                                |j: int| te_chunked_at(ls, j),
                                i as int,
                            );
                        }
                        return true;
                    } else {
                        proof {
                            if j + 7 <= ls.len() {
                                assert(ls.subrange(j as int, j + 7) != "chunked"@);
                            }
                            assert(!text::contains_at(ls, j as int, "chunked"@));
                            assert forall|t: int| 0 <= t < from + 1 implies !te_chunked_at(
                                ls,
                                t,
                            ) by {
                                if t == i {
                                    assert(!te_chunked_at(ls, i as int));
                                } else if t >= from {
                                    assert(!text::contains_at(ls, t, te_token()));
                                }
                            }
                        }
                        from = i + 1;
                    }
                },
            }
        }
    }
}

/// Finds the digits of the block's first content-length announcement: the
/// lower-cased text together with the digit run's bounds.
pub(crate) fn content_length_digits(raw: &String) -> (r: Option<(Vec<char>, usize, usize)>)
    ensures
        match r {
            Some(t) => {
                &&& t.1 <= t.2 <= t.0@.len()
                &&& content_length_of(raw@) == Some(
                    text::dec_val(t.0@.subrange(t.1 as int, t.2 as int)),
                )
            },
            None => content_length_of(raw@) is None,
        },
{
    let v = text::str_chars(raw.as_str());
    let low = text::lower_exec(&v);
    let pat = text::str_chars("content-length:");
    proof {
        reveal_strlit("content-length:");
        assert(cl_token().len() == 15);
    }
    let ghost ls = text::lower(raw@);
    let mut from: usize = 0;
    loop
        invariant
            from <= low@.len(),
            low@ == ls,
            ls == text::lower(raw@),
            ls.len() == raw@.len(),
            pat@ == cl_token(),
            pat@.len() == 15,
            forall|j: int| 0 <= j < from ==> !cl_match_at(ls, j),
        decreases low@.len() - from,
    {
        match text::find_sub(&low, &pat, from) {
            None => {
                proof {
                    text::lemma_first_at_from_characterizes(low@, pat@, from as nat);
                    assert forall|j: int| 0 <= j < ls.len() implies !cl_match_at(ls, j) by {
                        if j >= from {
                            assert(!text::contains_at(ls, j, cl_token()));
                        }
                    }
                    text::lemma_first_idx_from_is_none(ls.len(), 0, |j: int| cl_match_at(ls, j));
                }
                return None;
            },
            Some(i) => {
                proof {
                    text::lemma_first_at_from_characterizes(low@, pat@, from as nat);
                    assert forall|j: int| 0 <= j < i implies !cl_match_at(ls, j) by {
                        if j >= from {
                            assert(!text::contains_at(ls, j, cl_token()));
                        }
                    }
                    assert(i + 15 <= ls.len());
                    assert(low@.len() == low.len());
                }
                let j = text::space_run_end(&low, i + 15);
                if j < low.len() && text::is_digit_exec(low[j]) {
                    proof {
                        assert(cl_match_at(ls, i as int));
                        text::lemma_first_idx_from_is(
                            ls.len(),
                            0,
                            |j: int| cl_match_at(ls, j),
                            i as int,
                        );
                    }
                    let k = text::digit_run_end(&low, j);
                    return Some((low, j, k));
                } else {
                    proof {
                        assert(!cl_match_at(ls, i as int));
                    }
                    from = i + 1;
                }
            },
        }
    }
}

/// Checks for a protocol token starting at `i` and returns where it ends.
fn proto_check(v: &Vec<char>, i: usize) -> (r: Option<usize>)
    requires
        i <= v@.len(),
    ensures
        match r {
            Some(e) => proto_end_at(v@, i as int) == Some(e as nat) && i <= e <= v@.len(),
            None => proto_end_at(v@, i as int) is None,
        },
{
    proof {
        reveal_strlit("HTTP");
        assert(v@.len() == v.len());
    }
    if v.len() - i < 4 {
        proof {
            assert(!text::contains_at(v@, i as int, "HTTP"@));
        }
        return None;
    }
    if !(v[i] == 'H' && v[i + 1] == 'T' && v[i + 2] == 'T' && v[i + 3] == 'P') {
        proof {
            if text::contains_at(v@, i as int, "HTTP"@) {
                let sub = v@.subrange(i as int, i + 4);
                assert(sub[0] == v@[i as int]);
                assert(sub[1] == v@[i + 1]);
                assert(sub[2] == v@[i + 2]);
                assert(sub[3] == v@[i + 3]);
                assert(false);
            }
        }
        return None;
    }
    proof {
        assert(v@.subrange(i as int, i + 4) =~= "HTTP"@);
    }
    let p: usize = if i + 4 < v.len() && v[i + 4] == 'S' {
        i + 5
    } else {
        i + 4
    };
    if !(p < v.len() && v[p] == '/') {
        return None;
    }
    let d1 = text::digit_run_end(v, p + 1);
    if !(d1 > p + 1 && d1 < v.len() && v[d1] == '.') {
        return None;
    }
    let d2 = text::digit_run_end(v, d1 + 1);
    if d2 > d1 + 1 {
        Some(d2)
    } else {
        None
    }
}

} // verus!
