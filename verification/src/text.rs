//! Verified toolkit for the character-level work the protocol engine needs:
//! ASCII case folding, substring search, character classes and decimal
//! digits.  Everything is specified over `Seq<char>`.

use vstd::prelude::*;
use vstd::string::StrSliceExecFns;

verus! {

/// Relies on `String::push`: appends exactly the given character.
pub assume_specification[ String::push ](s: &mut String, c: char)
    ensures
        final(s)@ == old(s)@.push(c),
;

/// The characters of a string slice, as a vector.
pub fn str_chars(s: &str) -> (v: Vec<char>)
    ensures
        v@ == s@,
{
    let n = s.unicode_len();
    let mut v: Vec<char> = Vec::new();
    let mut i: usize = 0;
    while i < n
        invariant
            n == s@.len(),
            i <= n,
            v@ =~= s@.take(i as int),
        decreases n - i,
    {
        v.push(s.get_char(i));
        i = i + 1;
        proof {
            assert(s@.take(i as int) =~= s@.take(i as int - 1).push(s@[i as int - 1]));
        }
    }
    proof {
        assert(s@.take(n as int) =~= s@);
    }
    v
}

/// A string holding exactly the given characters.
pub fn chars_string(v: &Vec<char>) -> (s: String)
    ensures
        s@ == v@,
{
    let mut s = String::new();
    let mut i: usize = 0;
    while i < v.len()
        invariant
            i <= v@.len(),
            s@ =~= v@.take(i as int),
        decreases v@.len() - i,
    {
        s.push(v[i]);
        i = i + 1;
        proof {
            assert(v@.take(i as int) =~= v@.take(i as int - 1).push(v@[i as int - 1]));
        }
    }
    proof {
        assert(v@.take(v@.len() as int) =~= v@);
    }
    s
}

/// The line terminator of the wire format, as a character sequence.
pub open spec fn crlf() -> Seq<char> {
    seq!['\r', '\n']
}

/// The separator between a header name and its value.
pub open spec fn colon_space() -> Seq<char> {
    seq![':', ' ']
}

/// ASCII lower-casing of one character; everything outside `A`..`Z` is kept.
pub open spec fn lower_char(c: char) -> char {
    if 'A' <= c && c <= 'Z' {
        ((c as u8) + 32) as char
    } else {
        c
    }
}

/// ASCII lower-casing of a character sequence.
pub open spec fn lower(s: Seq<char>) -> Seq<char> {
    s.map_values(|c: char| lower_char(c))
}

/// Lower-casing one character twice is the same as doing it once.
pub proof fn lemma_lower_char_idempotent(c: char)
    ensures
        lower_char(lower_char(c)) == lower_char(c),
{
}

/// Lower-casing a sequence twice is the same as doing it once.
pub proof fn lemma_lower_idempotent(s: Seq<char>)
    ensures
        lower(lower(s)) == lower(s),
{
    assert forall|i: int| 0 <= i < s.len() implies lower(lower(s))[i] == lower(s)[i] by {
        lemma_lower_char_idempotent(s[i]);
    }
    assert(lower(lower(s)) =~= lower(s));
}

/// Lower-casing moves only uppercase letters, and moves them to lowercase
/// letters; every character outside the letters is a fixed point and is
/// never produced from another character.
pub proof fn lemma_lower_char_fixed(c: char, d: char)
    requires
        !('A' <= d && d <= 'Z'),
        !('a' <= d && d <= 'z'),
    ensures
        (lower_char(c) == d) <==> (c == d),
{
    if 'A' <= c && c <= 'Z' {
        assert('A' as u8 == 65 && 'Z' as u8 == 90);
        assert(65 <= c as u8 <= 90);
        assert(97 <= (c as u8) + 32 <= 122);
        assert('a' as u32 == 97 && 'z' as u32 == 122);
        assert('a' <= lower_char(c) && lower_char(c) <= 'z');
    }
}

/// Executable ASCII lower-casing of one character.
pub fn lower_char_exec(c: char) -> (r: char)
    ensures
        r == lower_char(c),
{
    if 'A' <= c && c <= 'Z' {
        (((c as u8) + 32) as char)
    } else {
        c
    }
}

/// Executable ASCII lower-casing of a character vector.
pub fn lower_exec(v: &Vec<char>) -> (r: Vec<char>)
    ensures
        r@ == lower(v@),
{
    let mut out: Vec<char> = Vec::new();
    let mut i: usize = 0;
    while i < v.len()
        invariant
            i <= v@.len(),
            out@ =~= lower(v@.take(i as int)),
        decreases v@.len() - i,
    {
        out.push(lower_char_exec(v[i]));
        i = i + 1;
        proof {
            assert(v@.take(i as int) =~= v@.take(i as int - 1).push(v@[i as int - 1]));
        }
    }
    proof {
        assert(v@.take(v@.len() as int) =~= v@);
    }
    out
}

/// `pat` occurs in `s` starting at position `i`.
pub open spec fn contains_at(s: Seq<char>, i: int, pat: Seq<char>) -> bool {
    &&& 0 <= i
    &&& i + pat.len() <= s.len()
    &&& s.subrange(i, i + pat.len() as int) =~= pat
}

/// The first position at or after `i` where `pat` occurs in `s`, if any.
pub open spec fn first_at_from(s: Seq<char>, pat: Seq<char>, i: nat) -> Option<nat>
    decreases s.len() - i when i <= s.len()
{
    if i + pat.len() > s.len() {
        None
    } else if contains_at(s, i as int, pat) {
        Some(i)
    } else {
        first_at_from(s, pat, (i + 1) as nat)
    }
}

/// What `first_at_from` returns: the least occurrence at or after `i`,
/// or nothing when there is no occurrence there.
pub proof fn lemma_first_at_from_characterizes(s: Seq<char>, pat: Seq<char>, i: nat)
    requires
        i <= s.len(),
    ensures
        match first_at_from(s, pat, i) {
            Some(k) => {
                &&& i <= k
                &&& contains_at(s, k as int, pat)
                &&& forall|j: int| i <= j < k ==> !contains_at(s, j, pat)
            },
            None => forall|j: int| i <= j ==> !contains_at(s, j, pat),
        },
    decreases s.len() - i,
{
    if i + pat.len() > s.len() {
        assert forall|j: int| i <= j implies !contains_at(s, j, pat) by {}
    } else if contains_at(s, i as int, pat) {
    } else {
        lemma_first_at_from_characterizes(s, pat, (i + 1) as nat);
    }
}

/// An occurrence at `k` with none before it pins `first_at_from` down.
pub proof fn lemma_first_at_from_is(s: Seq<char>, pat: Seq<char>, i: nat, k: int)
    requires
        i <= s.len(),
        i <= k,
        contains_at(s, k, pat),
        forall|j: int| i <= j < k ==> !contains_at(s, j, pat),
    ensures
        first_at_from(s, pat, i) == Some(k as nat),
{
    lemma_first_at_from_characterizes(s, pat, i);
    match first_at_from(s, pat, i) {
        Some(m) => {
            if m < k {
                assert(contains_at(s, m as int, pat));
                assert(false);
            }
            if m > k {
                assert(!contains_at(s, k, pat));
                assert(false);
            }
        },
        None => {
            assert(!contains_at(s, k, pat));
            assert(false);
        },
    }
}

/// No occurrence at or after `i` pins `first_at_from` to `None`.
pub proof fn lemma_first_at_from_is_none(s: Seq<char>, pat: Seq<char>, i: nat)
    requires
        i <= s.len(),
        forall|j: int| i <= j ==> !contains_at(s, j, pat),
    ensures
        first_at_from(s, pat, i) is None,
{
    lemma_first_at_from_characterizes(s, pat, i);
    if let Some(k) = first_at_from(s, pat, i) {
        assert(contains_at(s, k as int, pat));
        assert(false);
    }
}

/// Executable substring search: the least occurrence of `pat` in `hay`
/// at or after `from`.
pub fn find_sub(hay: &Vec<char>, pat: &Vec<char>, from: usize) -> (r: Option<usize>)
    requires
        from <= hay@.len(),
        pat@.len() >= 1,
    ensures
        match r {
            Some(k) => first_at_from(hay@, pat@, from as nat) == Some(k as nat) && k
                <= hay@.len(),
            None => first_at_from(hay@, pat@, from as nat) is None,
        },
{
    if pat.len() > hay.len() {
        proof {
            lemma_first_at_from_is_none(hay@, pat@, from as nat);
        }
        return None;
    }
    let last_start: usize = hay.len() - pat.len();
    proof {
        assert(hay@.len() == hay.len());
    }
    let mut i: usize = from;
    while i <= last_start
        invariant
            from <= i,
            i <= hay@.len(),
            hay@.len() <= usize::MAX,
            last_start == hay@.len() - pat@.len(),
            pat@.len() >= 1,
            forall|j: int| from <= j < i ==> !contains_at(hay@, j, pat@),
        decreases hay@.len() - i,
    {
        let mut m: usize = 0;
        let mut matched: bool = true;
        while m < pat.len()
            invariant
                i + pat@.len() <= hay@.len(),
                hay@.len() <= usize::MAX,
                m <= pat@.len(),
                matched <==> (forall|t: int| 0 <= t < m ==> hay@[i + t] == pat@[t]),
            decreases pat@.len() - m,
        {
            if hay[i + m] != pat[m] {
                matched = false;
                m = pat.len();
            } else {
                m = m + 1;
            }
        }
        if matched {
            proof {
                assert(hay@.subrange(i as int, i + pat@.len()) =~= pat@);
                lemma_first_at_from_is(hay@, pat@, from as nat, i as int);
            }
            return Some(i);
        }
        proof {
            assert(!contains_at(hay@, i as int, pat@));
        }
        i = i + 1;
    }
    proof {
        assert forall|j: int| from <= j implies !contains_at(hay@, j, pat@) by {
            if j < i {
            } else {
                assert(j + pat@.len() > hay@.len());
            }
        }
        lemma_first_at_from_is_none(hay@, pat@, from as nat);
    }
    None
}

/// Searching from `i` in `s` is the same as searching from the start of
/// `s.skip(i)`, shifted.
pub proof fn lemma_first_at_from_shift(s: Seq<char>, pat: Seq<char>, c: nat)
    requires
        c <= s.len(),
    ensures
        match first_at_from(s, pat, c) {
            Some(k) => c <= k && first_at_from(s.skip(c as int), pat, 0) == Some((k - c) as nat),
            None => first_at_from(s.skip(c as int), pat, 0) is None,
        },
{
    let t = s.skip(c as int);
    assert forall|j: int| 0 <= j implies contains_at(t, j, pat) == contains_at(
        s,
        c + j,
        pat,
    ) by {
        if 0 <= j && j + pat.len() <= t.len() {
            assert(t.subrange(j, j + pat.len() as int) =~= s.subrange(
                c + j,
                c + j + pat.len() as int,
            ));
        }
    }
    lemma_first_at_from_characterizes(s, pat, c);
    match first_at_from(s, pat, c) {
        Some(k) => {
            assert(contains_at(t, k - c, pat));
            lemma_first_at_from_is(t, pat, 0, k - c);
        },
        None => {
            lemma_first_at_from_is_none(t, pat, 0);
        },
    }
}

/// The least position in `[i, n)` satisfying `p`, if any.
pub open spec fn first_idx_from(n: nat, i: nat, p: spec_fn(int) -> bool) -> Option<nat>
    decreases n - i when i <= n
{
    if i >= n {
        None
    } else if p(i as int) {
        Some(i)
    } else {
        first_idx_from(n, (i + 1) as nat, p)
    }
}

/// What `first_idx_from` returns: the least satisfying position, or nothing.
pub proof fn lemma_first_idx_from_characterizes(n: nat, i: nat, p: spec_fn(int) -> bool)
    requires
        i <= n,
    ensures
        match first_idx_from(n, i, p) {
            Some(k) => i <= k < n && p(k as int) && forall|j: int| i <= j < k ==> !(#[trigger] p(j)),
            None => forall|j: int| i <= j < n ==> !(#[trigger] p(j)),
        },
    decreases n - i,
{
    if i < n && !p(i as int) {
        lemma_first_idx_from_characterizes(n, (i + 1) as nat, p);
    }
}

/// A satisfying position with none before it pins `first_idx_from` down.
pub proof fn lemma_first_idx_from_is(n: nat, i: nat, p: spec_fn(int) -> bool, k: int)
    requires
        i <= n,
        i <= k < n,
        p(k),
        forall|j: int| i <= j < k ==> !(#[trigger] p(j)),
    ensures
        first_idx_from(n, i, p) == Some(k as nat),
{
    lemma_first_idx_from_characterizes(n, i, p);
    match first_idx_from(n, i, p) {
        Some(m) => {
            if m < k {
                assert(p(m as int));
                assert(false);
            }
            if m > k {
                assert(!p(k));
                assert(false);
            }
        },
        None => {
            assert(!p(k));
            assert(false);
        },
    }
}

/// No satisfying position pins `first_idx_from` to `None`.
pub proof fn lemma_first_idx_from_is_none(n: nat, i: nat, p: spec_fn(int) -> bool)
    requires
        i <= n,
        forall|j: int| i <= j < n ==> !(#[trigger] p(j)),
    ensures
        first_idx_from(n, i, p) is None,
{
    lemma_first_idx_from_characterizes(n, i, p);
    if let Some(k) = first_idx_from(n, i, p) {
        assert(p(k as int));
        assert(false);
    }
}

/// Character vectors holding the same sequence.
pub fn chars_eq(a: &Vec<char>, b: &Vec<char>) -> (r: bool)
    ensures
        r == (a@ == b@),
{
    if a.len() != b.len() {
        proof {
            assert(a@ != b@);
        }
        return false;
    }
    let mut i: usize = 0;
    while i < a.len()
        invariant
            a@.len() == b@.len(),
            i <= a@.len(),
            forall|j: int| 0 <= j < i ==> a@[j] == b@[j],
        decreases a@.len() - i,
    {
        if a[i] != b[i] {
            return false;
        }
        i = i + 1;
    }
    proof {
        assert(a@ =~= b@);
    }
    true
}

/// The characters `v[a..b)`, as a fresh vector.
pub fn subvec(v: &Vec<char>, a: usize, b: usize) -> (r: Vec<char>)
    requires
        a <= b <= v@.len(),
    ensures
        r@ == v@.subrange(a as int, b as int),
{
    let mut out: Vec<char> = Vec::new();
    let mut i: usize = a;
    while i < b
        invariant
            a <= i <= b <= v@.len(),
            out@ =~= v@.subrange(a as int, i as int),
        decreases b - i,
    {
        out.push(v[i]);
        i = i + 1;
        proof {
            assert(v@.subrange(a as int, i as int) =~= v@.subrange(a as int, i as int - 1).push(
                v@[i as int - 1],
            ));
        }
    }
    out
}

/// A decimal digit.
pub open spec fn is_digit(c: char) -> bool {
    '0' <= c && c <= '9'
}

/// The whitespace characters the header scan skips after a colon: space,
/// tab, line feed, vertical tab, form feed and carriage return.
pub open spec fn is_space(c: char) -> bool {
    c == ' ' || c == '\t' || c == '\n' || c == '\u{B}' || c == '\u{C}' || c == '\r'
}

/// A word character: letters, digits and the underscore.
pub open spec fn is_word_char(c: char) -> bool {
    ('a' <= c && c <= 'z') || ('A' <= c && c <= 'Z') || is_digit(c) || c == '_'
}

/// The characters a request path may continue with.
pub open spec fn is_url_char(c: char) -> bool {
    is_word_char(c) || c == '-' || c == '/'
}

/// The characters a query string may continue with.
pub open spec fn is_query_char(c: char) -> bool {
    is_word_char(c) || c == '-' || c == '&' || c == '=' || c == '.'
}

/// Executable test for a decimal digit.
pub fn is_digit_exec(c: char) -> (r: bool)
    ensures
        r == is_digit(c),
{
    '0' <= c && c <= '9'
}

/// Executable test for the skipped whitespace characters.
pub fn is_space_exec(c: char) -> (r: bool)
    ensures
        r == is_space(c),
{
    c == ' ' || c == '\t' || c == '\n' || c == '\u{B}' || c == '\u{C}' || c == '\r'
}

/// Executable test for a word character.
pub fn is_word_char_exec(c: char) -> (r: bool)
    ensures
        r == is_word_char(c),
{
    ('a' <= c && c <= 'z') || ('A' <= c && c <= 'Z') || is_digit_exec(c) || c == '_'
}

/// Executable test for a path character.
pub fn is_url_char_exec(c: char) -> (r: bool)
    ensures
        r == is_url_char(c),
{
    is_word_char_exec(c) || c == '-' || c == '/'
}

/// Executable test for a query character.
pub fn is_query_char_exec(c: char) -> (r: bool)
    ensures
        r == is_query_char(c),
{
    is_word_char_exec(c) || c == '-' || c == '&' || c == '=' || c == '.'
}

/// The end of the run of characters satisfying `pred` that starts at `i`:
/// the least position at or after `i` whose character fails `pred`.
pub open spec fn run_end(s: Seq<char>, i: nat, pred: spec_fn(char) -> bool) -> nat
    decreases s.len() - i when i <= s.len()
{
    if i >= s.len() {
        i
    } else if pred(s[i as int]) {
        run_end(s, (i + 1) as nat, pred)
    } else {
        i
    }
}

/// What `run_end` returns: everything in the run satisfies `pred`, and the
/// run stops at the end of the sequence or at a failing character.
pub proof fn lemma_run_end_characterizes(s: Seq<char>, i: nat, pred: spec_fn(char) -> bool)
    requires
        i <= s.len(),
    ensures
        i <= run_end(s, i, pred) <= s.len(),
        forall|j: int| i <= j < run_end(s, i, pred) ==> pred(s[j]),
        run_end(s, i, pred) < s.len() ==> !pred(s[run_end(s, i, pred) as int]),
    decreases s.len() - i,
{
    if i >= s.len() {
    } else if pred(s[i as int]) {
        lemma_run_end_characterizes(s, (i + 1) as nat, pred);
    }
}

/// A run end with everything before it satisfying `pred` and a failing
/// character (or the sequence's end) at it is the run end.
pub proof fn lemma_run_end_is(s: Seq<char>, i: nat, pred: spec_fn(char) -> bool, k: int)
    requires
        i <= k <= s.len(),
        forall|j: int| i <= j < k ==> pred(#[trigger] s[j]),
        k < s.len() ==> !pred(s[k]),
    ensures
        run_end(s, i, pred) == k,
    decreases k - i,
{
    if i < k {
        lemma_run_end_is(s, (i + 1) as nat, pred, k);
    }
}

/// A run end measured after skipping a prefix, shifted back.
pub proof fn lemma_run_end_shift(s: Seq<char>, c: nat, i: nat, pred: spec_fn(char) -> bool)
    requires
        c <= s.len(),
        i <= s.len() - c,
    ensures
        run_end(s.skip(c as int), i, pred) + c == run_end(s, (i + c) as nat, pred),
{
    let t = s.skip(c as int);
    lemma_run_end_characterizes(t, i, pred);
    let e = run_end(t, i, pred);
    assert forall|j: int| i + c <= j < e + c implies pred(#[trigger] s[j]) by {
        assert(t[j - c] == s[j]);
    }
    if e < t.len() {
        assert(s[e + c as int] == t[e as int]);
    }
    lemma_run_end_is(s, (i + c) as nat, pred, e + c as int);
}

/// The sequence with its trailing whitespace removed.
pub open spec fn trim_end(s: Seq<char>) -> Seq<char>
    decreases s.len(),
{
    if s.len() == 0 {
        s
    } else if is_space(s.last()) {
        trim_end(s.drop_last())
    } else {
        s
    }
}

/// The cut point of trailing whitespace: `v[..r]` is the trimmed sequence.
pub fn trim_end_exec(v: &Vec<char>) -> (r: usize)
    ensures
        r <= v@.len(),
        v@.take(r as int) == trim_end(v@),
{
    let mut e = v.len();
    proof {
        assert(v@.take(v@.len() as int) =~= v@);
    }
    while e > 0 && is_space_exec(v[e - 1])
        invariant
            e <= v@.len(),
            trim_end(v@) == trim_end(v@.take(e as int)),
        decreases e,
    {
        proof {
            let cur = v@.take(e as int);
            assert(cur.last() == v@[e - 1]);
            assert(cur.drop_last() =~= v@.take(e as int - 1));
        }
        e = e - 1;
    }
    proof {
        let cur = v@.take(e as int);
        if e > 0 {
            assert(cur.last() == v@[e - 1]);
            assert(trim_end(cur) == cur);
        } else {
            assert(cur =~= Seq::<char>::empty());
        }
    }
    e
}

/// Digit run end, executable.
pub fn digit_run_end(v: &Vec<char>, from: usize) -> (r: usize)
    requires
        from <= v@.len(),
    ensures
        r == run_end(v@, from as nat, |c: char| is_digit(c)),
        from <= r <= v@.len(),
    decreases v@.len() - from,
{
    proof {
        lemma_run_end_characterizes(v@, from as nat, |c: char| is_digit(c));
    }
    if from < v.len() && is_digit_exec(v[from]) {
        digit_run_end(v, from + 1)
    } else {
        from
    }
}

/// Word-character run end, executable.
pub fn word_run_end(v: &Vec<char>, from: usize) -> (r: usize)
    requires
        from <= v@.len(),
    ensures
        r == run_end(v@, from as nat, |c: char| is_word_char(c)),
        from <= r <= v@.len(),
    decreases v@.len() - from,
{
    proof {
        lemma_run_end_characterizes(v@, from as nat, |c: char| is_word_char(c));
    }
    if from < v.len() && is_word_char_exec(v[from]) {
        word_run_end(v, from + 1)
    } else {
        from
    }
}

/// Path-character run end, executable.
pub fn url_run_end(v: &Vec<char>, from: usize) -> (r: usize)
    requires
        from <= v@.len(),
    ensures
        r == run_end(v@, from as nat, |c: char| is_url_char(c)),
        from <= r <= v@.len(),
    decreases v@.len() - from,
{
    proof {
        lemma_run_end_characterizes(v@, from as nat, |c: char| is_url_char(c));
    }
    if from < v.len() && is_url_char_exec(v[from]) {
        url_run_end(v, from + 1)
    } else {
        from
    }
}

/// Query-character run end, executable.
pub fn query_run_end(v: &Vec<char>, from: usize) -> (r: usize)
    requires
        from <= v@.len(),
    ensures
        r == run_end(v@, from as nat, |c: char| is_query_char(c)),
        from <= r <= v@.len(),
    decreases v@.len() - from,
{
    proof {
        lemma_run_end_characterizes(v@, from as nat, |c: char| is_query_char(c));
    }
    if from < v.len() && is_query_char_exec(v[from]) {
        query_run_end(v, from + 1)
    } else {
        from
    }
}

/// Whitespace run end, executable.
pub fn space_run_end(v: &Vec<char>, from: usize) -> (r: usize)
    requires
        from <= v@.len(),
    ensures
        r == run_end(v@, from as nat, |c: char| is_space(c)),
        from <= r <= v@.len(),
    decreases v@.len() - from,
{
    proof {
        lemma_run_end_characterizes(v@, from as nat, |c: char| is_space(c));
    }
    if from < v.len() && is_space_exec(v[from]) {
        space_run_end(v, from + 1)
    } else {
        from
    }
}

/// The character of a decimal digit value.
pub open spec fn digit_char(d: nat) -> char {
    if d == 0 {
        '0'
    } else if d == 1 {
        '1'
    } else if d == 2 {
        '2'
    } else if d == 3 {
        '3'
    } else if d == 4 {
        '4'
    } else if d == 5 {
        '5'
    } else if d == 6 {
        '6'
    } else if d == 7 {
        '7'
    } else if d == 8 {
        '8'
    } else {
        '9'
    }
}

/// The value of a decimal digit character; meaningful only for digits.
pub open spec fn digit_val(c: char) -> nat {
    if c == '0' {
        0
    } else if c == '1' {
        1
    } else if c == '2' {
        2
    } else if c == '3' {
        3
    } else if c == '4' {
        4
    } else if c == '5' {
        5
    } else if c == '6' {
        6
    } else if c == '7' {
        7
    } else if c == '8' {
        8
    } else {
        9
    }
}

/// The decimal rendering of a natural number, most significant digit first.
pub open spec fn dec_rep(n: nat) -> Seq<char>
    decreases n,
{
    if n < 10 {
        seq![digit_char(n)]
    } else {
        dec_rep(n / 10).push(digit_char(n % 10))
    }
}

/// The value of a digit sequence read in base ten; the empty sequence reads
/// as zero.
pub open spec fn dec_val(s: Seq<char>) -> nat
    decreases s.len(),
{
    if s.len() == 0 {
        0
    } else {
        dec_val(s.drop_last()) * 10 + digit_val(s.last())
    }
}

/// Executable digit of a value below ten.
fn digit_char_exec(d: u64) -> (r: char)
    requires
        d < 10,
    ensures
        r == digit_char(d as nat),
{
    if d == 0 {
        '0'
    } else if d == 1 {
        '1'
    } else if d == 2 {
        '2'
    } else if d == 3 {
        '3'
    } else if d == 4 {
        '4'
    } else if d == 5 {
        '5'
    } else if d == 6 {
        '6'
    } else if d == 7 {
        '7'
    } else if d == 8 {
        '8'
    } else {
        '9'
    }
}

/// Appends the decimal rendering of `n` to `out`.
pub fn push_dec(n: u64, out: &mut Vec<char>)
    ensures
        final(out)@ == old(out)@ + dec_rep(n as nat),
    decreases n,
{
    if n < 10 {
        out.push(digit_char_exec(n));
    } else {
        push_dec(n / 10, out);
        out.push(digit_char_exec(n % 10));
        proof {
            assert(out@ =~= old(out)@ + dec_rep(n as nat));
        }
    }
}

/// A longer digit sequence never reads as a smaller value.
pub proof fn lemma_dec_val_prefix_le(s: Seq<char>, i: int, j: int)
    requires
        0 <= i <= j <= s.len(),
    ensures
        dec_val(s.take(i)) <= dec_val(s.take(j)),
    decreases j - i,
{
    if i < j {
        lemma_dec_val_prefix_le(s, i, j - 1);
        assert(s.take(j).drop_last() =~= s.take(j - 1));
        assert(dec_val(s.take(j)) == dec_val(s.take(j - 1)) * 10 + digit_val(s.take(j).last()));
        assert(dec_val(s.take(j - 1)) <= dec_val(s.take(j - 1)) * 10) by (nonlinear_arith);
    }
}

/// Reads the digit run `v[from..to)` as a base-ten number, or reports that
/// it does not fit in 32 bits.
pub fn parse_dec_u32(v: &Vec<char>, from: usize, to: usize) -> (r: Option<u32>)
    requires
        from <= to <= v@.len(),
    ensures
        match r {
            Some(n) => n == dec_val(v@.subrange(from as int, to as int)) && dec_val(
                v@.subrange(from as int, to as int),
            ) <= u32::MAX,
            None => dec_val(v@.subrange(from as int, to as int)) > u32::MAX,
        },
{
    let ghost digits = v@.subrange(from as int, to as int);
    let mut acc: u32 = 0;
    let mut i: usize = from;
    while i < to
        invariant
            from <= i <= to <= v@.len(),
            digits == v@.subrange(from as int, to as int),
            acc == dec_val(digits.take(i - from)),
        decreases to - i,
    {
        let c = v[i];
        let d: u32 = if c == '0' {
            0
        } else if c == '1' {
            1
        } else if c == '2' {
            2
        } else if c == '3' {
            3
        } else if c == '4' {
            4
        } else if c == '5' {
            5
        } else if c == '6' {
            6
        } else if c == '7' {
            7
        } else if c == '8' {
            8
        } else {
            9
        };
        proof {
            assert(d == digit_val(digits[i - from]) || (d == 9 && digit_val(digits[i - from])
                == 9));
        }
        if acc > (u32::MAX - d) / 10 {
            proof {
                let part = digits.take(i - from + 1);
                assert(part.drop_last() =~= digits.take(i - from));
                assert(part.last() == digits[i - from]);
                assert(dec_val(part) == acc * 10 + digit_val(digits[i - from]));
                assert(acc * 10 + d > u32::MAX) by (nonlinear_arith)
                    requires
                        acc > (u32::MAX - d) / 10,
                        d < 10,
                ;
                lemma_dec_val_prefix_le(digits, i - from + 1, digits.len() as int);
                assert(digits.take(digits.len() as int) =~= digits);
            }
            return None;
        }
        proof {
            assert(acc * 10 + d <= u32::MAX) by (nonlinear_arith)
                requires
                    acc <= (u32::MAX - d) / 10,
                    d < 10,
            ;
        }
        acc = acc * 10 + d;
        i = i + 1;
        proof {
            let part = digits.take(i - from);
            assert(part.drop_last() =~= digits.take(i - from - 1));
            assert(part.last() == digits[i - from - 1]);
        }
    }
    proof {
        assert(digits.take(digits.len() as int) =~= digits);
    }
    Some(acc)
}

/// Reads the digit run `v[from..to)` as a base-ten number, or reports that
/// it does not fit in a machine word.
pub fn parse_dec_usize(v: &Vec<char>, from: usize, to: usize) -> (r: Option<usize>)
    requires
        from <= to <= v@.len(),
    ensures
        match r {
            Some(n) => n == dec_val(v@.subrange(from as int, to as int)) && dec_val(
                v@.subrange(from as int, to as int),
            ) <= usize::MAX,
            None => dec_val(v@.subrange(from as int, to as int)) > usize::MAX,
        },
{
    let ghost digits = v@.subrange(from as int, to as int);
    let mut acc: usize = 0;
    let mut i: usize = from;
    while i < to
        invariant
            from <= i <= to <= v@.len(),
            digits == v@.subrange(from as int, to as int),
            acc == dec_val(digits.take(i - from)),
        decreases to - i,
    {
        let c = v[i];
        let d: usize = if c == '0' {
            0
        } else if c == '1' {
            1
        } else if c == '2' {
            2
        } else if c == '3' {
            3
        } else if c == '4' {
            4
        } else if c == '5' {
            5
        } else if c == '6' {
            6
        } else if c == '7' {
            7
        } else if c == '8' {
            8
        } else {
            9
        };
        proof {
            assert(d == digit_val(digits[i - from]) || (d == 9 && digit_val(digits[i - from])
                == 9));
        }
        if acc > (usize::MAX - d) / 10 {
            proof {
                let part = digits.take(i - from + 1);
                assert(part.drop_last() =~= digits.take(i - from));
                assert(part.last() == digits[i - from]);
                assert(dec_val(part) == acc * 10 + digit_val(digits[i - from]));
                assert(acc * 10 + d > usize::MAX) by (nonlinear_arith)
                    requires
                        acc > (usize::MAX - d) / 10,
                        d < 10,
                ;
                lemma_dec_val_prefix_le(digits, i - from + 1, digits.len() as int);
                assert(digits.take(digits.len() as int) =~= digits);
            }
            return None;
        }
        proof {
            assert(acc * 10 + d <= usize::MAX) by (nonlinear_arith)
                requires
                    acc <= (usize::MAX - d) / 10,
                    d < 10,
            ;
        }
        acc = acc * 10 + d;
        i = i + 1;
        proof {
            let part = digits.take(i - from);
            assert(part.drop_last() =~= digits.take(i - from - 1));
            assert(part.last() == digits[i - from - 1]);
        }
    }
    proof {
        assert(digits.take(digits.len() as int) =~= digits);
    }
    Some(acc)
}

} // verus!
