//! Character-level helpers for paths and names: splitting on '/', joining,
//! ASCII case folding and suffix tests.

use vstd::prelude::*;
use vstd::utf8::*;

verus! {

/// Appends one character (`String::push`).
#[verifier::external_body]
pub fn push_char(s: &mut String, c: char)
    ensures
        final(s)@ == old(s)@.push(c),
{
    s.push(c);
}

/// The characters of a string.
pub fn chars_of(s: &str) -> (r: Vec<char>)
    ensures
        r@ == s@,
{
    let mut out: Vec<char> = Vec::new();
    for c in it: s.chars()
        invariant
            out@ == it.seq().take(it.index() as int),
            it.seq() == s@,
    {
        out.push(c);
    }
    out
}

/// A string holding the given characters.
pub fn string_from_chars(cs: &[char]) -> (r: String)
    ensures
        r@ == cs@,
{
    let mut s = String::new();
    let mut i: usize = 0;
    while i < cs.len()
        invariant
            i <= cs@.len(),
            s@ == cs@.take(i as int),
        decreases cs@.len() - i,
    {
        push_char(&mut s, cs[i]);
        assert(cs@.take(i + 1) =~= cs@.take(i as int).push(cs@[i as int]));
        i = i + 1;
    }
    assert(cs@.take(cs@.len() as int) =~= cs@);
    s
}

/// A copy of a string.
pub fn copy_str(s: &str) -> (r: String)
    ensures
        r@ == s@,
{
    let cs = chars_of(s);
    string_from_chars(cs.as_slice())
}

/// Concatenation.
pub fn concat(a: &str, b: &str) -> (r: String)
    ensures
        r@ == a@ + b@,
{
    let mut s = copy_str(a);
    let cs = chars_of(b);
    let mut i: usize = 0;
    while i < cs.len()
        invariant
            i <= cs@.len(),
            cs@ == b@,
            s@ == a@ + cs@.take(i as int),
        decreases cs@.len() - i,
    {
        push_char(&mut s, cs[i]);
        assert(cs@.take(i + 1) =~= cs@.take(i as int).push(cs@[i as int]));
        assert(a@ + cs@.take(i + 1) =~= (a@ + cs@.take(i as int)).push(cs@[i as int]));
        i = i + 1;
    }
    assert(cs@.take(cs@.len() as int) =~= cs@);
    s
}

/// Whether two character sequences are equal (`==` on strings).
pub fn str_eq(a: &str, b: &str) -> (r: bool)
    ensures
        r == (a@ == b@),
{
    let ca = chars_of(a);
    let cb = chars_of(b);
    if ca.len() != cb.len() {
        return false;
    }
    let mut i: usize = 0;
    while i < ca.len()
        invariant
            i <= ca@.len(),
            ca@.len() == cb@.len(),
            ca@ == a@,
            cb@ == b@,
            forall|j: int| 0 <= j < i ==> ca@[j] == cb@[j],
        decreases ca@.len() - i,
    {
        if ca[i] != cb[i] {
            return false;
        }
        i = i + 1;
    }
    assert(ca@ =~= cb@);
    true
}

// ---------------------------------------------------------------------------
// Path segments
// ---------------------------------------------------------------------------

/// The nonempty pieces of `s` split at '/', the piece under construction
/// being `cur`.
pub open spec fn segs(s: Seq<char>, cur: Seq<char>) -> Seq<Seq<char>>
    decreases s.len(),
{
    if s.len() == 0 {
        if cur.len() == 0 {
            seq![]
        } else {
            seq![cur]
        }
    } else if s[0] == '/' {
        (if cur.len() == 0 {
            seq![]
        } else {
            seq![cur]
        }) + segs(s.drop_first(), seq![])
    } else {
        segs(s.drop_first(), cur.push(s[0]))
    }
}

/// `s.split('/').filter(|p| !p.is_empty())`.
pub open spec fn path_segments(s: Seq<char>) -> Seq<Seq<char>> {
    segs(s, seq![])
}

/// Splits a path at '/' and drops empty pieces.
pub fn split_path(path: &str) -> (r: Vec<String>)
    ensures
        r@.len() == path_segments(path@).len(),
        forall|i: int| 0 <= i < r@.len() ==> #[trigger] r@[i]@ == path_segments(path@)[i],
{
    let cs = chars_of(path);
    let ghost s = path@;
    let mut out: Vec<String> = Vec::new();
    let mut cur: Vec<char> = Vec::new();
    let ghost mut acc: Seq<Seq<char>> = seq![];
    let mut i: usize = 0;
    assert(s.skip(0) =~= s);
    assert(acc + segs(s.skip(0), cur@) =~= segs(s, seq![]));
    while i < cs.len()
        invariant
            i <= cs@.len(),
            cs@ == s,
            out@.len() == acc.len(),
            forall|j: int| 0 <= j < out@.len() ==> #[trigger] out@[j]@ == acc[j],
            acc + segs(s.skip(i as int), cur@) == path_segments(s),
        decreases cs@.len() - i,
    {
        let c = cs[i];
        assert(s.skip(i as int).drop_first() =~= s.skip(i + 1));
        assert(s.skip(i as int)[0] == c);
        if c == '/' {
            if cur.len() > 0 {
                let piece = string_from_chars(cur.as_slice());
                proof {
                    assert(acc.push(cur@) + segs(s.skip(i + 1), seq![]) =~= acc + (seq![cur@]
                        + segs(s.skip(i + 1), seq![])));
                    acc = acc.push(cur@);
                }
                out.push(piece);
            } else {
                assert(acc + segs(s.skip(i + 1), seq![]) =~= acc + (Seq::<Seq<char>>::empty()
                    + segs(s.skip(i + 1), seq![])));
            }
            cur = Vec::new();
            assert(cur@ =~= Seq::<char>::empty());
        } else {
            cur.push(c);
        }
        i = i + 1;
    }
    assert(s.skip(i as int) =~= Seq::<char>::empty());
    if cur.len() > 0 {
        let piece = string_from_chars(cur.as_slice());
        proof {
            assert(acc + segs(s.skip(i as int), cur@) =~= acc.push(cur@));
            acc = acc.push(cur@);
        }
        out.push(piece);
    } else {
        assert(acc + segs(s.skip(i as int), cur@) =~= acc);
    }
    out
}

/// The pieces joined with '/' between them.
pub open spec fn join_slash(parts: Seq<Seq<char>>) -> Seq<char>
    decreases parts.len(),
{
    if parts.len() == 0 {
        seq![]
    } else if parts.len() == 1 {
        parts[0]
    } else {
        join_slash(parts.drop_last()) + seq!['/'] + parts.last()
    }
}

/// The character sequences of a list of strings.
pub open spec fn string_views(v: Seq<String>) -> Seq<Seq<char>> {
    Seq::new(v.len(), |i: int| v[i]@)
}

/// `parts.join("/")`.
pub fn join_path(parts: &[String]) -> (r: String)
    ensures
        r@ == join_slash(string_views(parts@)),
{
    let ghost views = string_views(parts@);
    let mut out = String::new();
    let mut i: usize = 0;
    while i < parts.len()
        invariant
            i <= parts@.len(),
            views == string_views(parts@),
            out@ == join_slash(views.take(i as int)),
        decreases parts@.len() - i,
    {
        assert(views.take(i + 1).drop_last() =~= views.take(i as int));
        if i == 0 {
            out = copy_str(parts[i].as_str());
            assert(views.take(1) =~= seq![views[0]]);
        } else {
            push_char(&mut out, '/');
            out = concat(out.as_str(), parts[i].as_str());
        }
        i = i + 1;
    }
    assert(views.take(parts@.len() as int) =~= views);
    out
}

// ---------------------------------------------------------------------------
// ASCII case
// ---------------------------------------------------------------------------

pub open spec fn lower_char(c: char) -> char {
    if 'A' <= c <= 'Z' {
        ((c as u32) + 32) as char
    } else {
        c
    }
}

pub open spec fn upper_char(c: char) -> char {
    if 'a' <= c <= 'z' {
        ((c as u32) - 32) as char
    } else {
        c
    }
}

pub open spec fn lower_seq(s: Seq<char>) -> Seq<char> {
    Seq::new(s.len(), |i: int| lower_char(s[i]))
}

pub open spec fn upper_seq(s: Seq<char>) -> Seq<char> {
    Seq::new(s.len(), |i: int| upper_char(s[i]))
}

pub fn to_lower(c: char) -> (r: char)
    ensures
        r == lower_char(c),
{
    if 'A' <= c && c <= 'Z' {
        let v = (c as u32) + 32;
        assert(0x61 <= v <= 0x7A);
        char_from_ascii(v)
    } else {
        c
    }
}

pub fn to_upper(c: char) -> (r: char)
    ensures
        r == upper_char(c),
{
    if 'a' <= c && c <= 'z' {
        let v = (c as u32) - 32;
        char_from_ascii(v)
    } else {
        c
    }
}

/// The character with an ASCII code.
fn char_from_ascii(v: u32) -> (r: char)
    requires
        v < 128,
    ensures
        r == v as char,
{
    let b = v as u8;
    b as char
}

/// `s.to_ascii_lowercase().ends_with(suffix)`, for a lowercase `suffix`.
pub open spec fn ends_with_ci(s: Seq<char>, suffix: Seq<char>) -> bool {
    suffix.len() <= s.len() && lower_seq(s).skip(s.len() - suffix.len()) == suffix
}

/// Case-insensitive (ASCII) suffix test against a lowercase suffix.
pub fn ends_with_ignore_case(s: &str, suffix: &str) -> (r: bool)
    ensures
        r == ends_with_ci(s@, suffix@),
{
    let cs = chars_of(s);
    let suf = chars_of(suffix);
    if suf.len() > cs.len() {
        return false;
    }
    let n = cs.len();
    let off = n - suf.len();
    let mut i: usize = 0;
    while i < suf.len()
        invariant
            i <= suf@.len(),
            cs@ == s@,
            suf@ == suffix@,
            off + suf@.len() == n,
            n == cs@.len(),
            forall|j: int| 0 <= j < i ==> lower_char(cs@[off + j]) == suf@[j],
        decreases suf@.len() - i,
    {
        if to_lower(cs[off + i]) != suf[i] {
            assert(lower_seq(s@).skip(off as int)[i as int] != suffix@[i as int]);
            return false;
        }
        i = i + 1;
    }
    assert(lower_seq(s@).skip(off as int) =~= suffix@);
    true
}

/// `a.eq_ignore_ascii_case(b)`.
pub open spec fn eq_ci(a: Seq<char>, b: Seq<char>) -> bool {
    lower_seq(a) == lower_seq(b)
}

pub fn eq_ignore_ascii_case(a: &str, b: &str) -> (r: bool)
    ensures
        r == eq_ci(a@, b@),
{
    let ca = chars_of(a);
    let cb = chars_of(b);
    if ca.len() != cb.len() {
        assert(lower_seq(a@).len() != lower_seq(b@).len());
        return false;
    }
    let mut i: usize = 0;
    while i < ca.len()
        invariant
            i <= ca@.len(),
            ca@.len() == cb@.len(),
            ca@ == a@,
            cb@ == b@,
            forall|j: int| 0 <= j < i ==> lower_char(ca@[j]) == lower_char(cb@[j]),
        decreases ca@.len() - i,
    {
        if to_lower(ca[i]) != to_lower(cb[i]) {
            assert(lower_seq(a@)[i as int] != lower_seq(b@)[i as int]);
            return false;
        }
        i = i + 1;
    }
    assert(lower_seq(a@) =~= lower_seq(b@));
    true
}

/// `s.to_ascii_uppercase()`.
pub fn to_ascii_uppercase(s: &str) -> (r: String)
    ensures
        r@ == upper_seq(s@),
{
    let cs = chars_of(s);
    let mut out: Vec<char> = Vec::new();
    let mut i: usize = 0;
    while i < cs.len()
        invariant
            i <= cs@.len(),
            cs@ == s@,
            out@ == upper_seq(s@).take(i as int),
        decreases cs@.len() - i,
    {
        out.push(to_upper(cs[i]));
        assert(upper_seq(s@).take(i + 1) =~= upper_seq(s@).take(i as int).push(
            upper_char(cs@[i as int]),
        ));
        i = i + 1;
    }
    assert(upper_seq(s@).take(cs@.len() as int) =~= upper_seq(s@));
    string_from_chars(out.as_slice())
}

/// `core::str::from_utf8`, copied into a `String`: `Some` exactly when the
/// bytes are valid UTF-8, and then the string's UTF-8 encoding is those bytes.
#[verifier::external_body]
pub(crate) fn utf8_string(bytes: &[u8]) -> (r: Option<String>)
    ensures
        r is Some <==> valid_utf8(bytes@),
        r matches Some(s) ==> encode_utf8(s@) == bytes@,
{
    match core::str::from_utf8(bytes) {
        Ok(s) => Some(String::from(s)),
        Err(_) => None,
    }
}

} // verus!
