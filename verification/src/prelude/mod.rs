//! Helpers around the engine: the spacing of camel-cased status names.
//! The socket-facing test target lives outside the library and composes
//! the engine's pure functions.

use vstd::prelude::*;
use crate::text;

pub mod constants;

verus! {

/// An ASCII uppercase letter.
pub open spec fn is_upper(c: char) -> bool {
    'A' <= c && c <= 'Z'
}

/// The spacing pass over a name: a space lands before each uppercase
/// letter; when the whole name is `OK`, only before its `O`.
pub open spec fn spaced(s: Seq<char>, ok: bool) -> Seq<char>
    decreases s.len(),
{
    if s.len() == 0 {
        s
    } else {
        spaced(s.drop_last(), ok) + if is_upper(s.last()) && (!ok || s.last() == 'O') {
            seq![' ', s.last()]
        } else {
            seq![s.last()]
        }
    }
}

/// The spaced form of a status name.
pub open spec fn space_bef_cap_spec(s: Seq<char>) -> Seq<char> {
    spaced(s, s == "OK"@)
}

/// Sets a space before each capital letter, turning a camel-cased status
/// name into its phrase; the name `OK` only gains its leading space.
pub fn space_bef_cap(src: String) -> (r: String)
    ensures
        r@ == space_bef_cap_spec(src@),
{
    let v = text::str_chars(src.as_str());
    let ok_pat = text::str_chars("OK");
    let ok = text::chars_eq(&v, &ok_pat);
    let mut out: Vec<char> = Vec::new();
    let mut i: usize = 0;
    proof {
        assert(v@.take(0) =~= Seq::<char>::empty());
    }
    while i < v.len()
        invariant
            i <= v@.len(),
            v@ == src@,
            ok == (src@ == "OK"@),
            out@ == spaced(v@.take(i as int), ok),
        decreases v@.len() - i,
    {
        let c = v[i];
        let upper = 'A' <= c && c <= 'Z';
        if upper && (!ok || c == 'O') {
            out.push(' ');
        }
        out.push(c);
        i = i + 1;
        proof {
            let cur = v@.take(i as int);
            assert(cur.drop_last() =~= v@.take(i as int - 1));
            assert(cur.last() == v@[i as int - 1]);
            assert(out@ =~= spaced(cur, ok));
        }
    }
    proof {
        assert(v@.take(v@.len() as int) =~= v@);
    }
    text::chars_string(&out)
}

/// The chunked framing the echo target answers with: each body byte as a
/// one-byte chunk, `1`, a line end, the byte, a line end.
pub open spec fn chunk_encoding(b: Seq<u8>) -> Seq<char>
    decreases b.len(),
{
    if b.len() == 0 {
        Seq::empty()
    } else {
        seq!['1', '\r', '\n', b[0] as char, '\r', '\n'] + chunk_encoding(b.drop_first())
    }
}

/// Renders a body in the one-byte chunked framing the echo target uses;
/// only plain ASCII bodies are framed this way.
pub fn encode_chunked(body: &Vec<u8>) -> (r: String)
    requires
        forall|i: int| 0 <= i < body@.len() ==> body@[i] < 128,
    ensures
        r@ == chunk_encoding(body@),
{
    let mut out: Vec<char> = Vec::new();
    let mut i: usize = 0;
    proof {
        assert(body@.skip(0) =~= body@);
        assert(out@ + chunk_encoding(body@) =~= chunk_encoding(body@));
    }
    while i < body.len()
        invariant
            i <= body@.len(),
            chunk_encoding(body@) == out@ + chunk_encoding(body@.skip(i as int)),
        decreases body@.len() - i,
    {
        let ghost t = body@.skip(i as int);
        let ghost out0 = out@;
        out.push('1');
        out.push('\r');
        out.push('\n');
        out.push(body[i] as char);
        out.push('\r');
        out.push('\n');
        i = i + 1;
        proof {
            assert(t[0] == body@[i - 1]);
            assert(t.drop_first() =~= body@.skip(i as int));
            assert(chunk_encoding(t) == seq!['1', '\r', '\n', t[0] as char, '\r', '\n'] + chunk_encoding(
                t.drop_first(),
            ));
            assert(out@ =~= out0 + seq!['1', '\r', '\n', t[0] as char, '\r', '\n']);
            assert(out@ + chunk_encoding(body@.skip(i as int)) =~= out0 + chunk_encoding(t));
        }
    }
    proof {
        assert(body@.skip(body@.len() as int) =~= Seq::<u8>::empty());
        assert(out@ + Seq::<char>::empty() =~= out@);
    }
    text::chars_string(&out)
}

} // verus!
