//! Building a TRBK book from a parsed EPUB: the render options, glyph
//! packing, resource path clean-up, line wrapping, pagination and the
//! bytes of the book file.

use vstd::prelude::*;
use vstd::bytes::*;
use vstd::slice::*;
use vstd::utf8::*;
use crate::text::{
    chars_of, concat, copy_str, join_path, join_slash, path_segments, push_char, split_path,
    string_from_chars, string_views,
};
use crate::sd::{is_white_space, normalize_parts, trim_trailing_slashes};
use crate::trbk_file::TrbkHeader;
use std::collections::HashMap;

verus! {

/// Page size, margins and font metrics used to lay out a book.
#[derive(Clone, Debug)]
pub struct RenderOptions {
    pub screen_width: u16,
    pub screen_height: u16,
    pub margin_x: u16,
    pub margin_y: u16,
    pub line_height: u16,
    pub char_width: u16,
    pub ascent: i16,
    pub word_spacing: i16,
    pub max_spine_items: usize,
}

impl Default for RenderOptions {
    fn default() -> (r: Self)
        ensures
            r.screen_width == 480 && r.screen_height == 800 && r.margin_x == 16 && r.margin_y == 60
                && r.line_height == 20 && r.char_width == 10 && r.ascent == 14 && r.word_spacing
                == 2 && r.max_spine_items == 50,
    {
        RenderOptions {
            screen_width: 480,
            screen_height: 800,
            margin_x: 16,
            margin_y: 60,
            line_height: 20,
            char_width: 10,
            ascent: 14,
            word_spacing: 2,
            max_spine_items: 50,
        }
    }
}

/// The book's descriptive metadata.
#[derive(Clone, Debug)]
pub struct TrbkMetadata {
    pub title: String,
    pub author: String,
    pub language: String,
    pub identifier: String,
}

/// Font files for each style (a missing one is looked for beside the
/// regular font).
#[derive(Clone, Debug)]
pub struct FontPaths {
    pub regular: Option<String>,
    pub bold: Option<String>,
    pub italic: Option<String>,
    pub bold_italic: Option<String>,
}

impl Default for FontPaths {
    fn default() -> (r: Self)
        ensures
            r.regular is None && r.bold is None && r.italic is None && r.bold_italic is None,
    {
        FontPaths { regular: None, bold: None, italic: None, bold_italic: None }
    }
}

/// Text styles, numbered as in the book file.
#[derive(Clone, Copy, Debug, PartialEq, Eq, Structural)]
pub enum StyleId {
    Regular,
    Bold,
    Italic,
    BoldItalic,
}

impl StyleId {
    pub open spec fn spec_code(self) -> u8 {
        match self {
            StyleId::Regular => 0,
            StyleId::Bold => 1,
            StyleId::Italic => 2,
            StyleId::BoldItalic => 3,
        }
    }

    /// The style's number in the book file.
    pub fn code(&self) -> (r: u8)
        ensures
            r == self.spec_code(),
    {
        match self {
            StyleId::Regular => 0,
            StyleId::Bold => 1,
            StyleId::Italic => 2,
            StyleId::BoldItalic => 3,
        }
    }
}

/// The emphasis of a run of text.
#[derive(Clone, Copy, Debug)]
pub struct TextStyle {
    pub bold: bool,
    pub italic: bool,
}

pub open spec fn spec_style_id(s: TextStyle) -> StyleId {
    if s.bold && s.italic {
        StyleId::BoldItalic
    } else if s.bold {
        StyleId::Bold
    } else if s.italic {
        StyleId::Italic
    } else {
        StyleId::Regular
    }
}

/// The style a run of text is drawn in.
pub fn style_id_from_style(style: TextStyle) -> (r: StyleId)
    ensures
        r == spec_style_id(style),
{
    match (style.bold, style.italic) {
        (false, false) => StyleId::Regular,
        (true, false) => StyleId::Bold,
        (false, true) => StyleId::Italic,
        (true, true) => StyleId::BoldItalic,
    }
}

/// A rasterized glyph: a 1-bit plane and the two grayscale planes.
#[derive(Clone, Debug)]
pub struct Glyph {
    pub codepoint: u32,
    pub style: StyleId,
    pub width: u8,
    pub height: u8,
    pub x_advance: i16,
    pub x_offset: i16,
    pub y_offset: i16,
    pub bitmap_bw: Vec<u8>,
    pub bitmap_lsb: Vec<u8>,
    pub bitmap_msb: Vec<u8>,
}

// ---------------------------------------------------------------------------
// Resource paths
// ---------------------------------------------------------------------------

/// Index of the first '#' or '?' at or after `i` (the length if none).
pub open spec fn fragment_start(s: Seq<char>, i: int) -> int
    decreases s.len() - i,
{
    if i < 0 || i >= s.len() {
        s.len() as int
    } else if s[i] == '#' || s[i] == '?' {
        i
    } else {
        fragment_start(s, i + 1)
    }
}

/// A path without its fragment or query.
pub open spec fn spec_strip_fragment(s: Seq<char>) -> Seq<char> {
    s.take(fragment_start(s, 0))
}

proof fn lemma_fragment_start_bounds(s: Seq<char>, i: int)
    requires
        0 <= i <= s.len(),
    ensures
        i <= fragment_start(s, i) <= s.len(),
    decreases s.len() - i,
{
    if i < s.len() && !(s[i] == '#' || s[i] == '?') {
        lemma_fragment_start_bounds(s, i + 1);
    }
}

/// Cuts a resource path at its first '#' or '?'.
pub fn strip_fragment(path: &str) -> (r: String)
    ensures
        r@ == spec_strip_fragment(path@),
{
    let cs = chars_of(path);
    let mut end: usize = 0;
    proof {
        lemma_fragment_start_bounds(path@, 0);
    }
    while end < cs.len() && cs[end] != '#' && cs[end] != '?'
        invariant
            cs@ == path@,
            end <= cs@.len(),
            fragment_start(path@, 0) == fragment_start(path@, end as int),
        decreases cs@.len() - end,
    {
        end = end + 1;
    }
    proof {
        assert(fragment_start(path@, end as int) == end as int);
    }
    string_from_chars(slice_subrange(cs.as_slice(), 0, end))
}

/// A path with empty and "." parts dropped and ".." taking back the part
/// before it, joined with '/'.
pub open spec fn spec_normalize_path(s: Seq<char>) -> Seq<char> {
    join_slash(normalize_parts(path_segments(s)))
}

/// Normalizes a '/'-separated resource path.
pub fn normalize_path(path: &str) -> (r: String)
    ensures
        r@ == spec_normalize_path(path@),
{
    let parts = split_path(path);
    let ghost segs = path_segments(path@);
    assert(string_views(parts@) =~= segs);
    let mut out: Vec<String> = Vec::new();
    let mut i: usize = 0;
    while i < parts.len()
        invariant
            i <= parts@.len(),
            string_views(parts@) == segs,
            string_views(out@) == normalize_parts(segs.take(i as int)),
        decreases parts@.len() - i,
    {
        assert(segs.take(i + 1).drop_last() =~= segs.take(i as int));
        assert(segs[i as int] == parts@[i as int]@);
        crate::sd::push_part(&mut out, parts[i].as_str());
        i = i + 1;
    }
    assert(segs.take(parts@.len() as int) =~= segs);
    join_path(out.as_slice())
}

/// `s` without its leading '/' characters.
pub open spec fn trim_leading_slashes(s: Seq<char>) -> Seq<char>
    decreases s.len(),
{
    if s.len() > 0 && s[0] == '/' {
        trim_leading_slashes(s.drop_first())
    } else {
        s
    }
}

/// A path that starts with the package folder twice (`p/p/...`) with one
/// of them removed; other paths, and all paths when there is no package
/// folder, unchanged.
pub open spec fn spec_collapse_double_prefix(path: Seq<char>, prefix: Seq<char>) -> Seq<char> {
    if prefix.len() == 0 {
        path
    } else {
        let p = trim_trailing_slashes(prefix);
        let double = p + seq!['/'] + p;
        if double.len() <= path.len() && path.take(double.len() as int) == double {
            p + seq!['/'] + trim_leading_slashes(path.skip(double.len() as int))
        } else {
            path
        }
    }
}

proof fn lemma_trim_trailing_is_prefix(s: Seq<char>)
    ensures
        trim_trailing_slashes(s).len() <= s.len(),
        trim_trailing_slashes(s) == s.take(trim_trailing_slashes(s).len() as int),
    decreases s.len(),
{
    if s.len() > 0 && s.last() == '/' {
        lemma_trim_trailing_is_prefix(s.drop_last());
        assert(s.drop_last().take(trim_trailing_slashes(s).len() as int) =~= s.take(
            trim_trailing_slashes(s).len() as int,
        ));
    } else {
        assert(s.take(s.len() as int) =~= s);
    }
}

/// Removes a doubled package folder from the front of a path.
pub fn collapse_double_prefix(path: &str, prefix: &str) -> (r: String)
    ensures
        r@ == spec_collapse_double_prefix(path@, prefix@),
{
    let pre = chars_of(prefix);
    if pre.len() == 0 {
        return copy_str(path);
    }
    let mut end = pre.len();
    assert(pre@.take(end as int) =~= pre@);
    while end > 0 && pre[end - 1] == '/'
        invariant
            pre@ == prefix@,
            end <= pre@.len(),
            trim_trailing_slashes(prefix@) == trim_trailing_slashes(pre@.take(end as int)),
        decreases end,
    {
        assert(pre@.take(end as int).drop_last() =~= pre@.take(end - 1));
        end = end - 1;
    }
    assert(trim_trailing_slashes(pre@.take(end as int)) == pre@.take(end as int));
    let p = string_from_chars(slice_subrange(pre.as_slice(), 0, end));
    let mut double = copy_str(p.as_str());
    push_char(&mut double, '/');
    let double = concat(double.as_str(), p.as_str());
    let ghost dv = p@ + seq!['/'] + p@;
    assert(double@ =~= dv);
    let pc = chars_of(path);
    let dc = chars_of(double.as_str());
    if dc.len() > pc.len() {
        return copy_str(path);
    }
    let mut i: usize = 0;
    while i < dc.len() && pc[i] == dc[i]
        invariant
            dc@ == dv,
            pc@ == path@,
            dc@.len() <= pc@.len(),
            i <= dc@.len(),
            pc@.take(i as int) == dc@.take(i as int),
        decreases dc@.len() - i,
    {
        assert(pc@.take(i + 1) =~= pc@.take(i as int).push(pc@[i as int]));
        assert(dc@.take(i + 1) =~= dc@.take(i as int).push(dc@[i as int]));
        i = i + 1;
    }
    let matches = i == dc.len();
    proof {
        if matches {
            assert(dc@.take(dc@.len() as int) =~= dc@);
        } else {
            assert(pc@.take(dc@.len() as int)[i as int] != dc@[i as int]);
        }
    }
    if !matches {
        return copy_str(path);
    }
    let mut start = dc.len();
    let ghost rest = path@.skip(dv.len() as int);
    assert(pc@.skip(start as int) =~= rest);
    while start < pc.len() && pc[start] == '/'
        invariant
            pc@ == path@,
            dv.len() <= start <= pc@.len(),
            trim_leading_slashes(rest) == trim_leading_slashes(pc@.skip(start as int)),
        decreases pc@.len() - start,
    {
        assert(pc@.skip(start as int).drop_first() =~= pc@.skip(start + 1));
        start = start + 1;
    }
    assert(trim_leading_slashes(pc@.skip(start as int)) == pc@.skip(start as int));
    let tail = string_from_chars(slice_subrange(pc.as_slice(), start, pc.len()));
    assert(tail@ =~= pc@.skip(start as int));
    let mut out = copy_str(p.as_str());
    push_char(&mut out, '/');
    concat(out.as_str(), tail.as_str())
}

/// The value of a hexadecimal digit.
pub open spec fn spec_hex_val(b: u8) -> Option<u8> {
    if 0x30 <= b <= 0x39 {
        Some((b - 0x30) as u8)
    } else if 0x61 <= b <= 0x66 {
        Some((b - 0x61 + 10) as u8)
    } else if 0x41 <= b <= 0x46 {
        Some((b - 0x41 + 10) as u8)
    } else {
        None
    }
}

/// The value of a hexadecimal digit byte.
pub fn hex_val(byte: u8) -> (r: Option<u8>)
    ensures
        r == spec_hex_val(byte),
{
    if 0x30 <= byte && byte <= 0x39 {
        Some(byte - 0x30)
    } else if 0x61 <= byte && byte <= 0x66 {
        Some(byte - 0x61 + 10)
    } else if 0x41 <= byte && byte <= 0x46 {
        Some(byte - 0x41 + 10)
    } else {
        None
    }
}

/// The bytes of `s` from `i` on with every `%` followed by two hexadecimal
/// digits (and more after them) replaced by the byte they spell.
pub open spec fn percent_decoded(s: Seq<u8>, i: int) -> Seq<u8>
    decreases s.len() - i,
{
    if i < 0 || i >= s.len() {
        seq![]
    } else if s[i] == 0x25 && i + 2 < s.len() && spec_hex_val(s[i + 1]) is Some && spec_hex_val(
        s[i + 2],
    ) is Some {
        seq![(spec_hex_val(s[i + 1])->0 * 16 + spec_hex_val(s[i + 2])->0) as u8]
            + percent_decoded(s, i + 3)
    } else {
        seq![s[i]] + percent_decoded(s, i + 1)
    }
}

/// Decodes percent escapes in bytes. An escape needs a byte after its two
/// digits, as in the book converter's resource lookup.
pub fn percent_decode_bytes(bytes: &[u8]) -> (r: Vec<u8>)
    ensures
        r@ == percent_decoded(bytes@, 0),
{
    let mut out: Vec<u8> = Vec::new();
    let mut i: usize = 0;
    while i < bytes.len()
        invariant
            i <= bytes@.len(),
            out@ + percent_decoded(bytes@, i as int) == percent_decoded(bytes@, 0),
        decreases bytes@.len() - i,
    {
        if bytes[i] == 0x25 && bytes.len() - i > 2 {
            let hi = hex_val(bytes[i + 1]);
            let lo = hex_val(bytes[i + 2]);
            match (hi, lo) {
                (Some(h), Some(l)) => {
                    let v = h * 16 + l;
                    assert(out@.push(v) + percent_decoded(bytes@, i + 3) =~= out@ + percent_decoded(
                        bytes@,
                        i as int,
                    ));
                    out.push(v);
                    i = i + 3;
                    continue;
                },
                _ => {},
            }
        }
        assert(out@.push(bytes@[i as int]) + percent_decoded(bytes@, i + 1) =~= out@
            + percent_decoded(bytes@, i as int));
        out.push(bytes[i]);
        i = i + 1;
    }
    assert(out@ + percent_decoded(bytes@, i as int) =~= out@);
    out
}

/// The text that `String::from_utf8_lossy` makes of some bytes: the UTF-8
/// decoding, with each invalid sequence replaced by U+FFFD.
pub uninterp spec fn utf8_lossy(bytes: Seq<u8>) -> Seq<char>;

/// `String::from_utf8_lossy`, owned: the bytes decoded as UTF-8 with
/// invalid sequences replaced; valid UTF-8 decodes to the string whose
/// encoding it is.
#[verifier::external_body]
fn lossy_string(bytes: &[u8]) -> (r: String)
    ensures
        r@ == utf8_lossy(bytes@),
        valid_utf8(bytes@) ==> encode_utf8(r@) == bytes@,
{
    String::from_utf8_lossy(bytes).into_owned()
}

/// Decodes percent escapes in a resource path, reading the result as UTF-8
/// with invalid sequences replaced.
pub fn percent_decode(input: &str) -> (r: String)
    ensures
        r@ == utf8_lossy(percent_decoded(encode_utf8(input@), 0)),
{
    let bytes = crate::usb::str_bytes(input);
    let out = percent_decode_bytes(bytes);
    lossy_string(out.as_slice())
}

// ---------------------------------------------------------------------------
// Advances and line wrapping
// ---------------------------------------------------------------------------

/// The key of a glyph's advance: its style in the high half, its codepoint
/// in the low half.
pub open spec fn advance_key(style: StyleId, codepoint: u32) -> u64 {
    (style.spec_code() as int * 0x1_0000_0000 + codepoint as int) as u64
}

fn advance_key_of(style: StyleId, codepoint: u32) -> (r: u64)
    ensures
        r == advance_key(style, codepoint),
{
    (style.code() as u64) * 0x1_0000_0000 + (codepoint as u64)
}

/// The advance of each glyph by style and codepoint; a later glyph replaces
/// an earlier one with the same key.
pub open spec fn spec_advance_map(gs: Seq<Glyph>) -> Map<u64, i16>
    decreases gs.len(),
{
    if gs.len() == 0 {
        Map::empty()
    } else {
        spec_advance_map(gs.drop_last()).insert(
            advance_key(gs.last().style, gs.last().codepoint),
            gs.last().x_advance,
        )
    }
}

/// Maps each glyph's style and codepoint to its advance.
pub fn build_advance_map(glyphs: &[Glyph]) -> (r: HashMap<u64, i16>)
    ensures
        r@ == spec_advance_map(glyphs@),
{
    broadcast use vstd::std_specs::hash::group_hash_axioms;

    let mut map: HashMap<u64, i16> = HashMap::new();
    let mut i: usize = 0;
    assert(glyphs@.take(0) =~= Seq::<Glyph>::empty());
    while i < glyphs.len()
        invariant
            i <= glyphs@.len(),
            map@ == spec_advance_map(glyphs@.take(i as int)),
        decreases glyphs@.len() - i,
    {
        let g = &glyphs[i];
        map.insert(advance_key_of(g.style, g.codepoint), g.x_advance);
        assert(glyphs@.take(i + 1).drop_last() =~= glyphs@.take(i as int));
        i = i + 1;
    }
    assert(glyphs@.take(glyphs@.len() as int) =~= glyphs@);
    map
}

/// The advance of one character: the glyph's when there is one, else the
/// fixed character width.
pub open spec fn char_advance(c: char, style: StyleId, char_width: u16, map: Map<u64, i16>) -> int {
    let k = advance_key(style, c as u32);
    if map.contains_key(k) {
        map[k] as int
    } else {
        char_width as int
    }
}

/// The width of a piece of text: the sum of its characters' advances.
pub open spec fn token_width(s: Seq<char>, style: StyleId, char_width: u16, map: Map<u64, i16>) -> int
    decreases s.len(),
{
    if s.len() == 0 {
        0
    } else {
        token_width(s.drop_last(), style, char_width, map) + char_advance(
            s.last(),
            style,
            char_width,
            map,
        )
    }
}

proof fn lemma_token_width_bounds(s: Seq<char>, style: StyleId, char_width: u16, map: Map<u64, i16>)
    ensures
        -32768 * s.len() <= token_width(s, style, char_width, map) <= 65535 * s.len(),
    decreases s.len(),
{
    if s.len() > 0 {
        lemma_token_width_bounds(s.drop_last(), style, char_width, map);
    }
}

/// The longest text a book is laid out from, in characters.
pub const MAX_TEXT_CHARS: u64 = 0x1_0000_0000;

/// Measures a piece of text in a style.
pub fn measure_token_width(text: &str, style: TextStyle, options: &RenderOptions, advance_map: &HashMap<
    u64,
    i16,
>) -> (r: i64)
    requires
        text@.len() <= MAX_TEXT_CHARS,
    ensures
        r == token_width(text@, spec_style_id(style), options.char_width, advance_map@),
{
    broadcast use vstd::std_specs::hash::group_hash_axioms;

    let sid = style_id_from_style(style);
    let cs = chars_of(text);
    let ghost m = advance_map@;
    let mut width: i64 = 0;
    let mut i: usize = 0;
    while i < cs.len()
        invariant
            cs@ == text@,
            cs@.len() <= MAX_TEXT_CHARS,
            i <= cs@.len(),
            m == advance_map@,
            width == token_width(cs@.take(i as int), sid, options.char_width, m),
        decreases cs@.len() - i,
    {
        proof {
            lemma_token_width_bounds(cs@.take(i as int), sid, options.char_width, m);
        }
        let key = advance_key_of(sid, cs[i] as u32);
        let adv: i64 = match advance_map.get(&key) {
            Some(a) => *a as i64,
            None => options.char_width as i64,
        };
        assert(cs@.take(i + 1).drop_last() =~= cs@.take(i as int));
        width = width + adv;
        i = i + 1;
    }
    assert(cs@.take(cs@.len() as int) =~= cs@);
    width
}

/// The maximal runs of non-whitespace characters of `s` from `i` on, the
/// first of them continuing `cur` (`str::split_whitespace`).
pub open spec fn tokens_from(s: Seq<char>, i: int, cur: Seq<char>) -> Seq<Seq<char>>
    decreases s.len() - i,
{
    if i < 0 || i >= s.len() {
        if cur.len() > 0 {
            seq![cur]
        } else {
            seq![]
        }
    } else if is_white_space(s[i]) {
        if cur.len() > 0 {
            seq![cur] + tokens_from(s, i + 1, seq![])
        } else {
            tokens_from(s, i + 1, seq![])
        }
    } else {
        tokens_from(s, i + 1, cur.push(s[i]))
    }
}

/// The words of a text, split at whitespace.
pub open spec fn ws_tokens(s: Seq<char>) -> Seq<Seq<char>> {
    tokens_from(s, 0, seq![])
}

proof fn lemma_tokens_short(s: Seq<char>, i: int, cur: Seq<char>)
    requires
        0 <= i <= s.len(),
        cur.len() <= i,
    ensures
        forall|k: int| 0 <= k < tokens_from(s, i, cur).len() ==> #[trigger] tokens_from(s, i, cur)[k].len() <= s.len(),
    decreases s.len() - i,
{
    let t = tokens_from(s, i, cur);
    if i < s.len() {
        if is_white_space(s[i]) {
            lemma_tokens_short(s, i + 1, seq![]);
            let rest = tokens_from(s, i + 1, seq![]);
            if cur.len() > 0 {
                assert(t == seq![cur] + rest);
                assert forall|k: int| 0 <= k < t.len() implies #[trigger] t[k].len() <= s.len() by {
                    if k > 0 {
                        assert(t[k] == rest[k - 1]);
                    }
                }
            } else {
                assert(t == rest);
            }
        } else {
            lemma_tokens_short(s, i + 1, cur.push(s[i]));
            assert(t == tokens_from(s, i + 1, cur.push(s[i])));
        }
    } else {
        assert forall|k: int| 0 <= k < t.len() implies #[trigger] t[k].len() <= s.len() by {
            assert(t[k] == cur);
        }
    }
}

/// Splits a text into its whitespace-separated words.
pub fn split_whitespace(text: &str) -> (r: Vec<String>)
    ensures
        string_views(r@) == ws_tokens(text@),
{
    let cs = chars_of(text);
    let ghost s = text@;
    let mut out: Vec<String> = Vec::new();
    let mut cur: Vec<char> = Vec::new();
    let mut i: usize = 0;
    assert(string_views(out@) + tokens_from(s, 0, cur@) =~= ws_tokens(s));
    while i < cs.len()
        invariant
            cs@ == s,
            i <= cs@.len(),
            string_views(out@) + tokens_from(s, i as int, cur@) == ws_tokens(s),
        decreases cs@.len() - i,
    {
        let c = cs[i];
        let ghost cur0 = cur@;
        assert(c == s[i as int]);
        if crate::sd::is_whitespace(c) {
            if cur.len() == 0 {
                assert(tokens_from(s, i as int, cur0) == tokens_from(s, i + 1, seq![]));
                assert(cur@ =~= seq![]);
            }
            if cur.len() > 0 {
                let w = string_from_chars(cur.as_slice());
                let ghost before = out@;
                out.push(w);
                assert(string_views(out@) =~= string_views(before).push(cur@));
                cur = Vec::new();
                assert(string_views(out@) + tokens_from(s, i + 1, cur@) =~= string_views(before) + (
                seq![w@] + tokens_from(s, i + 1, seq![])));
            }
        } else {
            cur.push(c);
            assert(tokens_from(s, i as int, cur0) == tokens_from(s, i + 1, cur0.push(c)));
        }
        i = i + 1;
    }
    if cur.len() > 0 {
        let w = string_from_chars(cur.as_slice());
        let ghost before = out@;
        out.push(w);
        assert(string_views(out@) =~= string_views(before).push(cur@));
        assert(string_views(out@) =~= ws_tokens(s));
    } else {
        assert(string_views(out@) =~= ws_tokens(s));
    }
    out
}

/// A run of text in one style.
#[derive(Clone, Debug)]
pub struct TextRun {
    pub text: String,
    pub style: TextStyle,
}

/// The text and style of each run.
pub open spec fn run_views(v: Seq<TextRun>) -> Seq<(Seq<char>, TextStyle)> {
    Seq::new(v.len(), |i: int| (v[i].text@, v[i].style))
}

/// The lines of a paragraph being wrapped: the finished lines, the line
/// being filled and its width.
pub struct WrapState {
    pub lines: Seq<Seq<(Seq<char>, TextStyle)>>,
    pub cur: Seq<(Seq<char>, TextStyle)>,
    pub width: int,
}

/// Adds one word of width `tw` (a space being `sw` wide): to an empty line
/// as it is, after a space when it fits within `max`, else on a new line.
pub open spec fn wrap_word(st: WrapState, tok: Seq<char>, style: TextStyle, tw: int, sw: int, max: int) -> WrapState {
    if st.width == 0 {
        WrapState { lines: st.lines, cur: st.cur.push((tok, style)), width: tw }
    } else if st.width + sw + tw <= max {
        WrapState {
            lines: st.lines,
            cur: st.cur.push((seq![' '], style)).push((tok, style)),
            width: st.width + sw + tw,
        }
    } else {
        WrapState { lines: st.lines.push(st.cur), cur: seq![(tok, style)], width: tw }
    }
}

/// The measurements the wrapping uses.
pub struct WrapMetrics {
    pub char_width: u16,
    pub word_spacing: i16,
    pub map: Map<u64, i16>,
    pub max: int,
}

/// The state after the first `n` words of a run.
pub open spec fn wrap_words(st: WrapState, toks: Seq<Seq<char>>, style: TextStyle, m: WrapMetrics, n: int) -> WrapState
    decreases n,
{
    if n <= 0 {
        st
    } else {
        let sid = spec_style_id(style);
        wrap_word(
            wrap_words(st, toks, style, m, n - 1),
            toks[n - 1],
            style,
            token_width(toks[n - 1], sid, m.char_width, m.map),
            token_width(seq![' '], sid, m.char_width, m.map) + m.word_spacing,
            m.max,
        )
    }
}

/// The state after the first `n` runs of a paragraph: each run's words in
/// turn, and a line break after a run whose text holds a newline.
pub open spec fn wrap_runs(runs: Seq<(Seq<char>, TextStyle)>, m: WrapMetrics, n: int) -> WrapState
    decreases n,
{
    if n <= 0 {
        WrapState { lines: seq![], cur: seq![], width: 0 }
    } else {
        let (text, style) = runs[n - 1];
        let toks = ws_tokens(text);
        let st = wrap_words(wrap_runs(runs, m, n - 1), toks, style, m, toks.len() as int);
        if text.contains('\n') && st.cur.len() > 0 {
            WrapState { lines: st.lines.push(st.cur), cur: seq![], width: 0 }
        } else {
            st
        }
    }
}

/// The lines of a wrapped paragraph.
pub open spec fn spec_wrap(runs: Seq<(Seq<char>, TextStyle)>, m: WrapMetrics) -> Seq<Seq<(Seq<char>, TextStyle)>> {
    let st = wrap_runs(runs, m, runs.len() as int);
    if st.cur.len() > 0 {
        st.lines.push(st.cur)
    } else {
        st.lines
    }
}

/// The runs of each line.
pub open spec fn line_views(v: Seq<Vec<TextRun>>) -> Seq<Seq<(Seq<char>, TextStyle)>> {
    Seq::new(v.len(), |i: int| run_views(v[i]@))
}

/// The texts are short enough to measure.
pub open spec fn runs_measurable(runs: Seq<TextRun>) -> bool {
    forall|i: int| 0 <= i < runs.len() ==> #[trigger] runs[i].text@.len() <= MAX_TEXT_CHARS
}

/// No glyph advance is negative.
pub open spec fn advances_nonneg(map: Map<u64, i16>) -> bool {
    forall|k: u64| #[trigger] map.contains_key(k) ==> map[k] >= 0
}

proof fn lemma_token_width_nonneg(s: Seq<char>, style: StyleId, char_width: u16, map: Map<u64, i16>)
    requires
        advances_nonneg(map),
    ensures
        token_width(s, style, char_width, map) >= 0,
    decreases s.len(),
{
    if s.len() > 0 {
        lemma_token_width_nonneg(s.drop_last(), style, char_width, map);
        let k = advance_key(style, s.last() as u32);
        if map.contains_key(k) {
            assert(map[k] >= 0);
        }
    }
}

fn contains_newline(s: &str) -> (r: bool)
    ensures
        r == s@.contains('\n'),
{
    let cs = chars_of(s);
    let mut i: usize = 0;
    while i < cs.len()
        invariant
            cs@ == s@,
            i <= cs@.len(),
            forall|j: int| 0 <= j < i ==> cs@[j] != '\n',
        decreases cs@.len() - i,
    {
        if cs[i] == '\n' {
            assert(s@[i as int] == '\n');
            return true;
        }
        i = i + 1;
    }
    false
}

fn space_string() -> (r: String)
    ensures
        r@ == seq![' '],
{
    let mut s = String::new();
    push_char(&mut s, ' ');
    assert(s@ =~= seq![' ']);
    s
}

/// Breaks a paragraph's runs into lines no wider than `max_width`: words
/// are joined by single spaces (a word wider than a line gets a line of its
/// own), and a run whose text holds a newline ends the line after it.
pub fn wrap_paragraph_runs(runs: &[TextRun], max_width: i32, options: &RenderOptions, advance_map: &HashMap<
    u64,
    i16,
>) -> (r: Vec<Vec<TextRun>>)
    requires
        runs_measurable(runs@),
        advances_nonneg(advance_map@),
        options.word_spacing >= 0,
    ensures
        line_views(r@) == spec_wrap(
            run_views(runs@),
            WrapMetrics {
                char_width: options.char_width,
                word_spacing: options.word_spacing,
                map: advance_map@,
                max: max_width as int,
            },
        ),
{
    let ghost m = WrapMetrics {
        char_width: options.char_width,
        word_spacing: options.word_spacing,
        map: advance_map@,
        max: max_width as int,
    };
    let ghost rv = run_views(runs@);
    let mut lines: Vec<Vec<TextRun>> = Vec::new();
    let mut current: Vec<TextRun> = Vec::new();
    let mut current_width: i64 = 0;
    let mut ri: usize = 0;
    proof {
        reveal_strlit(" ");
    }
    while ri < runs.len()
        invariant
            ri <= runs@.len(),
            runs_measurable(runs@),
            rv == run_views(runs@),
            m == (WrapMetrics {
                char_width: options.char_width,
                word_spacing: options.word_spacing,
                map: advance_map@,
                max: max_width as int,
            }),
            line_views(lines@) == wrap_runs(rv, m, ri as int).lines,
            run_views(current@) == wrap_runs(rv, m, ri as int).cur,
            current_width == wrap_runs(rv, m, ri as int).width,
            0 <= current_width <= 0x1_0000_0000_0000,
            advances_nonneg(advance_map@),
            options.word_spacing >= 0,
        decreases runs@.len() - ri,
    {
        let run = &runs[ri];
        let sid = style_id_from_style(run.style);
        let toks = split_whitespace(run.text.as_str());
        let ghost tv = ws_tokens(run.text@);
        let ghost st0 = wrap_runs(rv, m, ri as int);
        proof {
            lemma_tokens_short(run.text@, 0, seq![]);
        }
        let mut ti: usize = 0;
        while ti < toks.len()
            invariant
                ti <= toks@.len(),
                string_views(toks@) == tv,
                tv == ws_tokens(run.text@),
                forall|k: int| 0 <= k < tv.len() ==> #[trigger] tv[k].len() <= run.text@.len(),
                run.text@.len() <= MAX_TEXT_CHARS,
                sid == spec_style_id(run.style),
                m == (WrapMetrics {
                    char_width: options.char_width,
                    word_spacing: options.word_spacing,
                    map: advance_map@,
                    max: max_width as int,
                }),
                line_views(lines@) == wrap_words(st0, tv, run.style, m, ti as int).lines,
                run_views(current@) == wrap_words(st0, tv, run.style, m, ti as int).cur,
                current_width == wrap_words(st0, tv, run.style, m, ti as int).width,
                0 <= current_width <= 0x1_0000_0000_0000,
                advances_nonneg(advance_map@),
                options.word_spacing >= 0,
            decreases toks@.len() - ti,
        {
            let token = &toks[ti];
            assert(token@ == tv[ti as int]);
            proof {
                lemma_token_width_bounds(token@, sid, options.char_width, advance_map@);
                lemma_token_width_bounds(seq![' '], sid, options.char_width, advance_map@);
                lemma_token_width_nonneg(token@, sid, options.char_width, advance_map@);
                lemma_token_width_nonneg(seq![' '], sid, options.char_width, advance_map@);
            }
            let token_width = measure_token_width(token.as_str(), run.style, options, advance_map);
            let ghost before_lines = lines@;
            let ghost before_cur = current@;
            if current_width == 0 {
                current.push(TextRun { text: copy_str(token.as_str()), style: run.style });
                assert(run_views(current@) =~= run_views(before_cur).push((token@, run.style)));
                current_width = token_width;
            } else {
                let sp = space_string();
                let space_width = measure_token_width(sp.as_str(), run.style, options, advance_map)
                    + options.word_spacing as i64;
                if current_width + space_width + token_width <= max_width as i64 {
                    current.push(TextRun { text: space_string(), style: run.style });
                    current.push(TextRun { text: copy_str(token.as_str()), style: run.style });
                    assert(run_views(current@) =~= run_views(before_cur).push((seq![' '], run.style)).push(
                        (token@, run.style),
                    ));
                    current_width = current_width + space_width + token_width;
                } else {
                    let done = current;
                    lines.push(done);
                    assert(line_views(lines@) =~= line_views(before_lines).push(run_views(before_cur)));
                    current = Vec::new();
                    current.push(TextRun { text: copy_str(token.as_str()), style: run.style });
                    assert(run_views(current@) =~= seq![(token@, run.style)]);
                    current_width = token_width;
                }
            }
            ti = ti + 1;
        }
        if contains_newline(run.text.as_str()) {
            if current.len() > 0 {
                let ghost before_lines = lines@;
                let ghost before_cur = current@;
                let done = current;
                lines.push(done);
                assert(line_views(lines@) =~= line_views(before_lines).push(run_views(before_cur)));
                current = Vec::new();
                assert(run_views(current@) =~= Seq::<(Seq<char>, TextStyle)>::empty());
                current_width = 0;
            }
        }
        assert(rv[ri as int] == (run.text@, run.style));
        ri = ri + 1;
    }
    if current.len() > 0 {
        let ghost before_lines = lines@;
        let ghost before_cur = current@;
        lines.push(current);
        assert(line_views(lines@) =~= line_views(before_lines).push(run_views(before_cur)));
    }
    assert(rv.len() == runs@.len());
    lines
}

// ---------------------------------------------------------------------------
// Layout
// ---------------------------------------------------------------------------

/// A block of a chapter's XHTML.
#[derive(Clone, Debug)]
pub enum HtmlBlock {
    Paragraph { runs: Vec<TextRun> },
    PageBreak,
    Image { src: String },
}

/// The blocks of one spine item.
#[derive(Clone, Debug)]
pub struct SpineBlocks {
    pub spine_index: i32,
    pub blocks: Vec<HtmlBlock>,
}

/// A converted image: its index in the book's image table and its size.
#[derive(Clone, Copy, Debug)]
pub struct ImageRef {
    pub index: u16,
    pub width: u16,
    pub height: u16,
}

/// One unit of laid-out content.
#[derive(Clone, Debug)]
pub enum LayoutItem {
    TextLine { spine_index: i32, runs: Vec<TextRun> },
    BlankLine { spine_index: i32 },
    Image { spine_index: i32, image_index: u16, width: u16, height: u16 },
    PageBreak { spine_index: i32 },
}

/// A layout item with its text as characters.
pub enum LayoutItemView {
    TextLine { spine_index: i32, runs: Seq<(Seq<char>, TextStyle)> },
    BlankLine { spine_index: i32 },
    Image { spine_index: i32, image_index: u16, width: u16, height: u16 },
    PageBreak { spine_index: i32 },
}

impl View for LayoutItem {
    type V = LayoutItemView;

    open spec fn view(&self) -> LayoutItemView {
        match self {
            LayoutItem::TextLine { spine_index, runs } => LayoutItemView::TextLine {
                spine_index: *spine_index,
                runs: run_views(runs@),
            },
            LayoutItem::BlankLine { spine_index } => LayoutItemView::BlankLine { spine_index: *spine_index },
            LayoutItem::Image { spine_index, image_index, width, height } => LayoutItemView::Image {
                spine_index: *spine_index,
                image_index: *image_index,
                width: *width,
                height: *height,
            },
            LayoutItem::PageBreak { spine_index } => LayoutItemView::PageBreak { spine_index: *spine_index },
        }
    }
}

pub open spec fn item_views(v: Seq<LayoutItem>) -> Seq<LayoutItemView> {
    Seq::new(v.len(), |i: int| v[i]@)
}

/// The first converted image recorded for a source path.
pub open spec fn image_lookup(map: Seq<(Seq<char>, ImageRef)>, src: Seq<char>) -> Option<ImageRef>
    decreases map.len(),
{
    if map.len() == 0 {
        None
    } else if map[0].0 == src {
        Some(map[0].1)
    } else {
        image_lookup(map.drop_first(), src)
    }
}

pub open spec fn image_map_views(v: Seq<(String, ImageRef)>) -> Seq<(Seq<char>, ImageRef)> {
    Seq::new(v.len(), |i: int| (v[i].0@, v[i].1))
}

/// Looks up the converted image for a source path.
pub fn find_image(map: &[(String, ImageRef)], src: &str) -> (r: Option<ImageRef>)
    ensures
        r == image_lookup(image_map_views(map@), src@),
{
    let ghost mv = image_map_views(map@);
    let mut i: usize = 0;
    assert(mv.skip(0) =~= mv);
    while i < map.len()
        invariant
            i <= map@.len(),
            mv == image_map_views(map@),
            image_lookup(mv.skip(i as int), src@) == image_lookup(mv, src@),
        decreases map@.len() - i,
    {
        if crate::text::str_eq(map[i].0.as_str(), src) {
            return Some(map[i].1);
        }
        assert(mv.skip(i as int).drop_first() =~= mv.skip(i + 1));
        i = i + 1;
    }
    None
}

/// The text width of a page: the screen less both side margins, at least 1.
pub open spec fn layout_width(o: RenderOptions) -> int {
    let w = o.screen_width - 2 * o.margin_x;
    if w < 1 {
        1
    } else {
        w
    }
}

/// The measurements of a book's layout.
pub open spec fn wrap_metrics(o: RenderOptions, map: Map<u64, i16>) -> WrapMetrics {
    WrapMetrics { char_width: o.char_width, word_spacing: o.word_spacing, map, max: layout_width(o) }
}

/// The items of one block: the wrapped lines of a paragraph and a blank
/// line; a page break; a known image and a blank line (an image that was
/// not converted is left out).
pub open spec fn block_items(
    spine: i32,
    b: HtmlBlock,
    m: WrapMetrics,
    images: Seq<(Seq<char>, ImageRef)>,
) -> Seq<LayoutItemView> {
    match b {
        HtmlBlock::Paragraph { runs } => {
            let lines = spec_wrap(run_views(runs@), m);
            Seq::new(lines.len(), |i: int| LayoutItemView::TextLine { spine_index: spine, runs: lines[i] }).push(
                LayoutItemView::BlankLine { spine_index: spine },
            )
        },
        HtmlBlock::PageBreak => seq![LayoutItemView::PageBreak { spine_index: spine }],
        HtmlBlock::Image { src } => match image_lookup(images, src@) {
            Some(r) => seq![
                LayoutItemView::Image {
                    spine_index: spine,
                    image_index: r.index,
                    width: r.width,
                    height: r.height,
                },
                LayoutItemView::BlankLine { spine_index: spine },
            ],
            None => seq![],
        },
    }
}

/// The items of the first `n` blocks of a spine item.
pub open spec fn blocks_items(
    spine: i32,
    bs: Seq<HtmlBlock>,
    m: WrapMetrics,
    images: Seq<(Seq<char>, ImageRef)>,
    n: int,
) -> Seq<LayoutItemView>
    decreases n,
{
    if n <= 0 {
        seq![]
    } else {
        blocks_items(spine, bs, m, images, n - 1) + block_items(spine, bs[n - 1], m, images)
    }
}

/// The items of the first `n` spine items.
pub open spec fn spines_items(
    ss: Seq<SpineBlocks>,
    m: WrapMetrics,
    images: Seq<(Seq<char>, ImageRef)>,
    n: int,
) -> Seq<LayoutItemView>
    decreases n,
{
    if n <= 0 {
        seq![]
    } else {
        let sb = ss[n - 1];
        spines_items(ss, m, images, n - 1) + blocks_items(
            sb.spine_index,
            sb.blocks@,
            m,
            images,
            sb.blocks@.len() as int,
        )
    }
}

/// Every paragraph of every spine item can be measured.
pub open spec fn spines_measurable(ss: Seq<SpineBlocks>) -> bool {
    forall|i: int, j: int|
        0 <= i < ss.len() && 0 <= j < ss[i].blocks@.len() ==> (#[trigger] ss[i].blocks@[j] matches HtmlBlock::Paragraph { runs }
            ==> runs_measurable(runs@))
}

/// A copy of some runs.
pub fn copy_runs(v: &[TextRun]) -> (r: Vec<TextRun>)
    ensures
        run_views(r@) == run_views(v@),
{
    let mut out: Vec<TextRun> = Vec::new();
    let mut i: usize = 0;
    while i < v.len()
        invariant
            i <= v@.len(),
            run_views(out@) == run_views(v@.take(i as int)),
        decreases v@.len() - i,
    {
        let ghost before = out@;
        let t = TextRun { text: copy_str(v[i].text.as_str()), style: v[i].style };
        let ghost tv = (t.text@, t.style);
        assert(tv == (v@[i as int].text@, v@[i as int].style));
        out.push(t);
        assert(run_views(out@) =~= run_views(before).push(tv));
        assert(run_views(v@.take(i + 1)) =~= run_views(v@.take(i as int)).push(tv));
        i = i + 1;
    }
    assert(v@.take(v@.len() as int) =~= v@);
    out
}

/// Lays out the blocks of all spine items as lines, blank lines, images and
/// page breaks.
pub fn layout_blocks(
    blocks: &[SpineBlocks],
    options: &RenderOptions,
    advance_map: &HashMap<u64, i16>,
    image_map: &[(String, ImageRef)],
) -> (r: Vec<LayoutItem>)
    requires
        spines_measurable(blocks@),
        advances_nonneg(advance_map@),
        options.word_spacing >= 0,
    ensures
        item_views(r@) == spines_items(
            blocks@,
            wrap_metrics(*options, advance_map@),
            image_map_views(image_map@),
            blocks@.len() as int,
        ),
{
    let ghost m = wrap_metrics(*options, advance_map@);
    let ghost images = image_map_views(image_map@);
    let w = options.screen_width as i32 - options.margin_x as i32 * 2;
    let max_width = if w < 1 {
        1
    } else {
        w
    };
    let mut items: Vec<LayoutItem> = Vec::new();
    let mut si: usize = 0;
    while si < blocks.len()
        invariant
            si <= blocks@.len(),
            spines_measurable(blocks@),
            advances_nonneg(advance_map@),
            options.word_spacing >= 0,
            m == wrap_metrics(*options, advance_map@),
            images == image_map_views(image_map@),
            max_width == layout_width(*options),
            item_views(items@) == spines_items(blocks@, m, images, si as int),
        decreases blocks@.len() - si,
    {
        let spine = &blocks[si];
        let spine_index = spine.spine_index;
        let ghost base = item_views(items@);
        let mut bi: usize = 0;
        while bi < spine.blocks.len()
            invariant
                si < blocks@.len(),
                *spine == blocks@[si as int],
                spine_index == spine.spine_index,
                bi <= spine.blocks@.len(),
                spines_measurable(blocks@),
                advances_nonneg(advance_map@),
                options.word_spacing >= 0,
                m == wrap_metrics(*options, advance_map@),
                images == image_map_views(image_map@),
                max_width == layout_width(*options),
                base == spines_items(blocks@, m, images, si as int),
                item_views(items@) == base + blocks_items(spine_index, spine.blocks@, m, images, bi as int),
            decreases spine.blocks@.len() - bi,
        {
            let ghost before = item_views(items@);
            let block = &spine.blocks[bi];
            assert(blocks@[si as int].blocks@[bi as int] == *block);
            match block {
                HtmlBlock::Paragraph { runs } => {
                    let lines = wrap_paragraph_runs(runs.as_slice(), max_width, options, advance_map);
                    let ghost lv = line_views(lines@);
                    let mut li: usize = 0;
                    while li < lines.len()
                        invariant
                            li <= lines@.len(),
                            lv == line_views(lines@),
                            item_views(items@) == before + Seq::new(
                                li as nat,
                                |k: int| LayoutItemView::TextLine { spine_index, runs: lv[k] },
                            ),
                        decreases lines@.len() - li,
                    {
                        let ghost b2 = item_views(items@);
                        let line = copy_runs(lines[li].as_slice());
                        assert(run_views(line@) == lv[li as int]);
                        items.push(LayoutItem::TextLine { spine_index, runs: line });
                        assert(item_views(items@) =~= b2.push(
                            LayoutItemView::TextLine { spine_index, runs: lv[li as int] },
                        ));
                        assert(item_views(items@) =~= before + Seq::new(
                            (li + 1) as nat,
                            |k: int| LayoutItemView::TextLine { spine_index, runs: lv[k] },
                        ));
                        li = li + 1;
                    }
                    let ghost b3 = items@;
                    items.push(LayoutItem::BlankLine { spine_index });
                    assert(item_views(items@) =~= item_views(b3).push(LayoutItemView::BlankLine { spine_index }));
                },
                HtmlBlock::PageBreak => {
                    items.push(LayoutItem::PageBreak { spine_index });
                    assert(item_views(items@) =~= before.push(LayoutItemView::PageBreak { spine_index }));
                },
                HtmlBlock::Image { src } => {
                    match find_image(image_map, src.as_str()) {
                        Some(image) => {
                            items.push(
                                LayoutItem::Image {
                                    spine_index,
                                    image_index: image.index,
                                    width: image.width,
                                    height: image.height,
                                },
                            );
                            items.push(LayoutItem::BlankLine { spine_index });
                            assert(item_views(items@) =~= before + block_items(spine_index, *block, m, images));
                        },
                        None => {},
                    }
                },
            }
            assert(item_views(items@) =~= before + block_items(spine_index, *block, m, images));
            bi = bi + 1;
        }
        si = si + 1;
    }
    items
}

// ---------------------------------------------------------------------------
// Pagination
// ---------------------------------------------------------------------------

/// A drawing operation of a page.
#[derive(Clone, Debug)]
pub enum PageOp {
    Text { x: u16, y: u16, style: StyleId, text: String },
    Image { x: u16, y: u16, width: u16, height: u16, image_index: u16 },
}

/// A page operation with its text as characters.
pub enum PageOpView {
    Text { x: u16, y: u16, style: StyleId, text: Seq<char> },
    Image { x: u16, y: u16, width: u16, height: u16, image_index: u16 },
}

impl View for PageOp {
    type V = PageOpView;

    open spec fn view(&self) -> PageOpView {
        match self {
            PageOp::Text { x, y, style, text } => PageOpView::Text { x: *x, y: *y, style: *style, text: text@ },
            PageOp::Image { x, y, width, height, image_index } => PageOpView::Image {
                x: *x,
                y: *y,
                width: *width,
                height: *height,
                image_index: *image_index,
            },
        }
    }
}

/// The operations of one page and the spine item it belongs to (-1 when
/// unknown).
#[derive(Clone, Debug)]
pub struct PageData {
    pub spine_index: i32,
    pub ops: Vec<PageOp>,
}

pub struct PageView {
    pub spine_index: i32,
    pub ops: Seq<PageOpView>,
}

pub open spec fn op_views(v: Seq<PageOp>) -> Seq<PageOpView> {
    Seq::new(v.len(), |i: int| v[i]@)
}

pub open spec fn page_views(v: Seq<PageData>) -> Seq<PageView> {
    Seq::new(v.len(), |i: int| PageView { spine_index: v[i].spine_index, ops: op_views(v[i].ops@) })
}

/// The measurements pagination uses.
pub struct PageMetrics {
    pub margin_x: int,
    pub margin_y: int,
    pub max_y: int,
    pub line_height: int,
    pub ascent: int,
    pub image_spacing: int,
    pub word_spacing: int,
    pub char_width: u16,
    pub map: Map<u64, i16>,
}

pub open spec fn page_metrics(o: RenderOptions, map: Map<u64, i16>) -> PageMetrics {
    let max_y = o.screen_height - o.margin_y;
    PageMetrics {
        margin_x: o.margin_x as int,
        margin_y: o.margin_y as int,
        max_y: if max_y < 1 {
            1
        } else {
            max_y
        },
        line_height: o.line_height as int,
        ascent: o.ascent as int,
        image_spacing: (o.line_height / 2) as int,
        word_spacing: o.word_spacing as int,
        char_width: o.char_width,
        map,
    }
}

/// Pagination in progress: the finished pages, the operations of the page
/// being filled, its spine item (-1 when not yet known) and the top of the
/// next line.
pub struct PageState {
    pub pages: Seq<PageView>,
    pub ops: Seq<PageOpView>,
    pub spine: int,
    pub cursor: int,
}

/// Ends the page being filled, unless it is empty.
pub open spec fn flush_page(st: PageState, margin_y: int) -> PageState {
    if st.ops.len() > 0 {
        PageState {
            pages: st.pages.push(PageView { spine_index: st.spine as i32, ops: st.ops }),
            ops: seq![],
            spine: -1,
            cursor: margin_y,
        }
    } else {
        st
    }
}

/// How far the pen moves over a run (a lone space also moves by the word
/// spacing).
pub open spec fn run_advance(run: (Seq<char>, TextStyle), m: PageMetrics) -> int {
    token_width(run.0, spec_style_id(run.1), m.char_width, m.map) + if run.0 == seq![' '] {
        m.word_spacing
    } else {
        0
    }
}

/// The pen position before the `k`-th run of a line.
pub open spec fn pen_at(runs: Seq<(Seq<char>, TextStyle)>, k: int, m: PageMetrics) -> int
    decreases k,
{
    if k <= 0 {
        m.margin_x
    } else {
        pen_at(runs, k - 1, m) + run_advance(runs[k - 1], m)
    }
}

/// The text operations of the first `k` runs of a line on `baseline`.
pub open spec fn text_ops(runs: Seq<(Seq<char>, TextStyle)>, baseline: int, m: PageMetrics, k: int) -> Seq<
    PageOpView,
>
    decreases k,
{
    if k <= 0 {
        seq![]
    } else {
        text_ops(runs, baseline, m, k - 1).push(
            PageOpView::Text {
                x: pen_at(runs, k - 1, m) as u16,
                y: baseline as u16,
                style: spec_style_id(runs[k - 1].1),
                text: runs[k - 1].0,
            },
        )
    }
}

pub open spec fn item_spine(it: LayoutItemView) -> int {
    match it {
        LayoutItemView::TextLine { spine_index, .. } => spine_index as int,
        LayoutItemView::BlankLine { spine_index } => spine_index as int,
        LayoutItemView::Image { spine_index, .. } => spine_index as int,
        LayoutItemView::PageBreak { spine_index } => spine_index as int,
    }
}

/// Ends the page when something `h` tall does not fit below the cursor.
pub open spec fn make_room(st: PageState, h: int, m: PageMetrics) -> PageState {
    if st.cursor + h > m.max_y {
        flush_page(st, m.margin_y)
    } else {
        st
    }
}

/// Places one item: a new spine item starts a new page; a page break ends
/// the page; a line or image that does not fit goes on a new page.
pub open spec fn step_item(st: PageState, it: LayoutItemView, m: PageMetrics) -> PageState {
    let s = item_spine(it);
    let st1 = if st.spine >= 0 && s >= 0 && s != st.spine && st.ops.len() > 0 {
        flush_page(st, m.margin_y)
    } else {
        st
    };
    let st2 = if st1.spine < 0 {
        PageState { spine: s, ..st1 }
    } else {
        st1
    };
    match it {
        LayoutItemView::PageBreak { .. } => flush_page(st2, m.margin_y),
        LayoutItemView::BlankLine { .. } => {
            let st3 = make_room(st2, m.line_height, m);
            PageState { cursor: st3.cursor + m.line_height, ..st3 }
        },
        LayoutItemView::TextLine { runs, .. } => {
            let st3 = make_room(st2, m.line_height, m);
            PageState {
                ops: st3.ops + text_ops(runs, st3.cursor + m.ascent, m, runs.len() as int),
                cursor: st3.cursor + m.line_height,
                ..st3
            }
        },
        LayoutItemView::Image { image_index, width, height, .. } => {
            let st3 = make_room(st2, height as int, m);
            PageState {
                ops: st3.ops.push(
                    PageOpView::Image { x: 0, y: st3.cursor as u16, width, height, image_index },
                ),
                cursor: st3.cursor + height + m.image_spacing,
                ..st3
            }
        },
    }
}

/// The state after the first `n` items.
pub open spec fn paginate_upto(items: Seq<LayoutItemView>, m: PageMetrics, n: int) -> PageState
    decreases n,
{
    if n <= 0 {
        PageState { pages: seq![], ops: seq![], spine: -1, cursor: m.margin_y }
    } else {
        step_item(paginate_upto(items, m, n - 1), items[n - 1], m)
    }
}

/// The pages of a book: the items placed in turn and the last page ended;
/// a book without content gets one page that says so.
pub open spec fn spec_paginate(items: Seq<LayoutItemView>, m: PageMetrics) -> Seq<PageView> {
    let st = paginate_upto(items, m, items.len() as int);
    let pages = if st.ops.len() > 0 {
        st.pages.push(PageView { spine_index: st.spine as i32, ops: st.ops })
    } else {
        st.pages
    };
    if pages.len() == 0 {
        seq![
            PageView {
                spine_index: -1i32,
                ops: seq![
                    PageOpView::Text {
                        x: m.margin_x as u16,
                        y: (m.margin_y + m.ascent) as u16,
                        style: StyleId::Regular,
                        text: "(empty)"@,
                    },
                ],
            },
        ]
    } else {
        pages
    }
}

/// Total characters of the first `k` runs.
pub open spec fn line_chars(runs: Seq<(Seq<char>, TextStyle)>, k: int) -> int
    decreases k,
{
    if k <= 0 {
        0
    } else {
        line_chars(runs, k - 1) + runs[k - 1].0.len()
    }
}

/// Every line's text is short enough to measure.
pub open spec fn items_measurable(items: Seq<LayoutItemView>) -> bool {
    forall|i: int|
        0 <= i < items.len() ==> (#[trigger] items[i] matches LayoutItemView::TextLine { runs, .. }
            ==> line_chars(runs, runs.len() as int) <= MAX_TEXT_CHARS)
}

/// The most items a book is paginated from.
pub const MAX_LAYOUT_ITEMS: u64 = 0x100_0000_0000;

proof fn lemma_line_chars_mono(runs: Seq<(Seq<char>, TextStyle)>, j: int, k: int)
    requires
        0 <= j <= k <= runs.len(),
    ensures
        line_chars(runs, j) <= line_chars(runs, k),
    decreases k - j,
{
    if j < k {
        lemma_line_chars_mono(runs, j, k - 1);
    }
}

proof fn lemma_pen_bounds(runs: Seq<(Seq<char>, TextStyle)>, k: int, m: PageMetrics)
    requires
        0 <= k <= runs.len(),
        advances_nonneg(m.map),
        0 <= m.word_spacing <= 32767,
    ensures
        m.margin_x <= pen_at(runs, k, m) <= m.margin_x + 98302 * line_chars(runs, k),
    decreases k,
{
    if k > 0 {
        lemma_pen_bounds(runs, k - 1, m);
        let r = runs[k - 1];
        let sid = spec_style_id(r.1);
        lemma_token_width_bounds(r.0, sid, m.char_width, m.map);
        lemma_token_width_nonneg(r.0, sid, m.char_width, m.map);
        if r.0 == seq![' '] {
            assert(r.0.len() == 1);
        }
    }
}

fn flush_page_exec(
    pages: &mut Vec<PageData>,
    ops: &mut Vec<PageOp>,
    spine_index: &mut i64,
    cursor_y: &mut i64,
    margin_y: i64,
)
    requires
        i32::MIN <= *old(spine_index) <= i32::MAX,
    ensures
        ({
            let st0 = PageState {
                pages: page_views(old(pages)@),
                ops: op_views(old(ops)@),
                spine: *old(spine_index) as int,
                cursor: *old(cursor_y) as int,
            };
            let st1 = flush_page(st0, margin_y as int);
            &&& page_views(final(pages)@) == st1.pages
            &&& op_views(final(ops)@) == st1.ops
            &&& *final(spine_index) as int == st1.spine
            &&& *final(cursor_y) as int == st1.cursor
        }),
{
    if ops.len() > 0 {
        let mut taken: Vec<PageOp> = Vec::new();
        core::mem::swap(&mut taken, ops);
        let ghost before = pages@;
        pages.push(PageData { spine_index: *spine_index as i32, ops: taken });
        assert(page_views(pages@) =~= page_views(before).push(
            PageView { spine_index: *old(spine_index) as i32, ops: op_views(old(ops)@) },
        ));
        assert(op_views(ops@) =~= Seq::<PageOpView>::empty());
        *spine_index = -1;
        *cursor_y = margin_y;
    }
}

/// Adds the text operations of a line on `baseline`, the pen moving by
/// each run's advance from the left margin.
fn push_text_line_ops(
    ops: &mut Vec<PageOp>,
    runs: &[TextRun],
    baseline: i64,
    options: &RenderOptions,
    advance_map: &HashMap<u64, i16>,
)
    requires
        line_chars(run_views(runs@), runs@.len() as int) <= MAX_TEXT_CHARS,
        advances_nonneg(advance_map@),
        options.word_spacing >= 0,
    ensures
        op_views(final(ops)@) == op_views(old(ops)@) + text_ops(
            run_views(runs@),
            baseline as int,
            page_metrics(*options, advance_map@),
            runs@.len() as int,
        ),
{
    let ghost m = page_metrics(*options, advance_map@);
    let ghost rv = run_views(runs@);
    let ghost start = op_views(ops@);
    let mut pen_x: i64 = options.margin_x as i64;
    let mut i: usize = 0;
    assert(op_views(ops@) =~= start + text_ops(rv, baseline as int, m, 0));
    while i < runs.len()
        invariant
            i <= runs@.len(),
            rv == run_views(runs@),
            m == page_metrics(*options, advance_map@),
            line_chars(rv, runs@.len() as int) <= MAX_TEXT_CHARS,
            advances_nonneg(advance_map@),
            options.word_spacing >= 0,
            pen_x == pen_at(rv, i as int, m),
            op_views(ops@) == start + text_ops(rv, baseline as int, m, i as int),
        decreases runs@.len() - i,
    {
        let run = &runs[i];
        assert(rv[i as int] == (run.text@, run.style));
        proof {
            lemma_line_chars_mono(rv, i + 1, runs@.len() as int);
            lemma_line_chars_mono(rv, i as int, i + 1);
            lemma_pen_bounds(rv, i + 1, m);
            lemma_pen_bounds(rv, i as int, m);
            assert(98302 * line_chars(rv, i + 1) <= 98302 * 0x1_0000_0000) by (nonlinear_arith)
                requires
                    line_chars(rv, i + 1) <= 0x1_0000_0000,
            ;
        }
        let sid = style_id_from_style(run.style);
        let ghost before = ops@;
        let op = PageOp::Text { x: pen_x as u16, y: baseline as u16, style: sid, text: copy_str(run.text.as_str()) };
        let ghost ov = op@;
        ops.push(op);
        assert(op_views(ops@) =~= op_views(before).push(ov));
        let mut adv = measure_token_width(run.text.as_str(), run.style, options, advance_map);
        proof {
            reveal_strlit(" ");
            assert(" "@ =~= seq![' ']);
        }
        if crate::text::str_eq(run.text.as_str(), " ") {
            adv = adv + options.word_spacing as i64;
        }
        assert(adv == run_advance(rv[i as int], m));
        assert(pen_at(rv, i + 1, m) == pen_at(rv, i as int, m) + run_advance(rv[i as int], m));
        pen_x = pen_x + adv;
        i = i + 1;
    }
}

/// Places one layout item on the pages (see `step_item`).
fn place_item(
    pages: &mut Vec<PageData>,
    ops: &mut Vec<PageOp>,
    spine_index: &mut i64,
    cursor_y: &mut i64,
    item: &LayoutItem,
    options: &RenderOptions,
    advance_map: &HashMap<u64, i16>,
    max_y: i64,
)
    requires
        i32::MIN <= *old(spine_index) <= i32::MAX,
        0 <= *old(cursor_y) <= 0x200_0000_0000_0000,
        max_y as int == page_metrics(*options, advance_map@).max_y,
        item@ matches LayoutItemView::TextLine { runs, .. } ==> line_chars(runs, runs.len() as int)
            <= MAX_TEXT_CHARS,
        advances_nonneg(advance_map@),
        options.word_spacing >= 0,
    ensures
        ({
            let st0 = PageState {
                pages: page_views(old(pages)@),
                ops: op_views(old(ops)@),
                spine: *old(spine_index) as int,
                cursor: *old(cursor_y) as int,
            };
            let st1 = step_item(st0, item@, page_metrics(*options, advance_map@));
            &&& page_views(final(pages)@) == st1.pages
            &&& op_views(final(ops)@) == st1.ops
            &&& *final(spine_index) as int == st1.spine
            &&& *final(cursor_y) as int == st1.cursor
        }),
        i32::MIN <= *final(spine_index) <= i32::MAX,
        0 <= *final(cursor_y) <= options.margin_y + 0x2_0000 || 0 <= *final(cursor_y) <= *old(cursor_y)
            + 0x2_0000,
{
    let ghost m = page_metrics(*options, advance_map@);
    let margin_y = options.margin_y as i64;
    let line_height = options.line_height as i64;
    let this_spine: i32 = match item {
        LayoutItem::TextLine { spine_index, .. } => *spine_index,
        LayoutItem::BlankLine { spine_index } => *spine_index,
        LayoutItem::Image { spine_index, .. } => *spine_index,
        LayoutItem::PageBreak { spine_index } => *spine_index,
    };
    assert(this_spine as int == item_spine(item@));
    if *spine_index >= 0 && this_spine >= 0 && this_spine as i64 != *spine_index && ops.len() > 0 {
        flush_page_exec(pages, ops, spine_index, cursor_y, margin_y);
    }
    if *spine_index < 0 {
        *spine_index = this_spine as i64;
    }
    match item {
        LayoutItem::PageBreak { .. } => {
            flush_page_exec(pages, ops, spine_index, cursor_y, margin_y);
        },
        LayoutItem::BlankLine { .. } => {
            if *cursor_y + line_height > max_y {
                flush_page_exec(pages, ops, spine_index, cursor_y, margin_y);
            }
            *cursor_y = *cursor_y + line_height;
        },
        LayoutItem::TextLine { runs, .. } => {
            if *cursor_y + line_height > max_y {
                flush_page_exec(pages, ops, spine_index, cursor_y, margin_y);
            }
            let baseline = *cursor_y + options.ascent as i64;
            push_text_line_ops(ops, runs.as_slice(), baseline, options, advance_map);
            *cursor_y = *cursor_y + line_height;
        },
        LayoutItem::Image { image_index, width, height, .. } => {
            let img_h = *height as i64;
            if *cursor_y + img_h > max_y {
                flush_page_exec(pages, ops, spine_index, cursor_y, margin_y);
            }
            let ghost before = ops@;
            let op = PageOp::Image {
                x: 0,
                y: *cursor_y as u16,
                width: *width,
                height: *height,
                image_index: *image_index,
            };
            let ghost ov = op@;
            ops.push(op);
            assert(op_views(ops@) =~= op_views(before).push(ov));
            *cursor_y = *cursor_y + img_h + (options.line_height / 2) as i64;
        },
    }
}

/// Places the layout items on pages: a page ends at a page break, before a
/// line or image that would run past the bottom margin, and where a new
/// spine item begins; a book without content gets a page that says so.
pub fn paginate_items(items: &[LayoutItem], options: &RenderOptions, advance_map: &HashMap<u64, i16>) -> (r:
    Vec<PageData>)
    requires
        items@.len() <= MAX_LAYOUT_ITEMS,
        items_measurable(item_views(items@)),
        advances_nonneg(advance_map@),
        options.word_spacing >= 0,
    ensures
        page_views(r@) == spec_paginate(item_views(items@), page_metrics(*options, advance_map@)),
{
    let ghost m = page_metrics(*options, advance_map@);
    let ghost iv = item_views(items@);
    let mut pages: Vec<PageData> = Vec::new();
    let mut ops: Vec<PageOp> = Vec::new();
    let mut spine_index: i64 = -1;
    let mut cursor_y: i64 = options.margin_y as i64;
    let mh = options.screen_height as i64 - options.margin_y as i64;
    let max_y: i64 = if mh < 1 {
        1
    } else {
        mh
    };
    let mut idx: usize = 0;
    assert(page_views(pages@) =~= Seq::<PageView>::empty());
    assert(op_views(ops@) =~= Seq::<PageOpView>::empty());
    while idx < items.len()
        invariant
            idx <= items@.len(),
            items@.len() <= MAX_LAYOUT_ITEMS,
            iv == item_views(items@),
            m == page_metrics(*options, advance_map@),
            items_measurable(iv),
            advances_nonneg(advance_map@),
            options.word_spacing >= 0,
            max_y as int == m.max_y,
            i32::MIN <= spine_index <= i32::MAX,
            0 <= cursor_y <= options.margin_y + idx * 0x2_0000,
            ({
                let st = paginate_upto(iv, m, idx as int);
                &&& page_views(pages@) == st.pages
                &&& op_views(ops@) == st.ops
                &&& spine_index as int == st.spine
                &&& cursor_y as int == st.cursor
            }),
        decreases items@.len() - idx,
    {
        assert(iv[idx as int] == items@[idx as int]@);
        proof {
            assert(idx * 0x2_0000 <= 0x100_0000_0000 * 0x2_0000) by (nonlinear_arith)
                requires
                    idx <= 0x100_0000_0000,
            ;
        }
        place_item(&mut pages, &mut ops, &mut spine_index, &mut cursor_y, &items[idx], options, advance_map, max_y);
        idx = idx + 1;
    }
    if ops.len() > 0 {
        let ghost before = pages@;
        let ghost ov = op_views(ops@);
        pages.push(PageData { spine_index: spine_index as i32, ops });
        assert(page_views(pages@) =~= page_views(before).push(PageView { spine_index: spine_index as i32, ops: ov }));
    }
    if pages.len() == 0 {
        proof {
            reveal_strlit("(empty)");
        }
        let y = (options.margin_y as i32 + options.ascent as i32) as u16;
        let op = PageOp::Text { x: options.margin_x, y, style: StyleId::Regular, text: copy_str("(empty)") };
        let ghost ov = op@;
        let mut v: Vec<PageOp> = Vec::new();
        v.push(op);
        assert(op_views(v@) =~= seq![ov]);
        pages.push(PageData { spine_index: -1, ops: v });
        assert(page_views(pages@) =~= spec_paginate(iv, m));
    }
    pages
}

// ---------------------------------------------------------------------------
// Table of contents
// ---------------------------------------------------------------------------

/// The first page of the first `k` that belongs to spine item `s`, -1 when
/// none does.
pub open spec fn first_page_of(pages: Seq<PageView>, s: int, k: int) -> int
    decreases k,
{
    if k <= 0 {
        -1
    } else {
        let earlier = first_page_of(pages, s, k - 1);
        if earlier >= 0 {
            earlier
        } else if pages[k - 1].spine_index as int == s {
            k - 1
        } else {
            -1
        }
    }
}

proof fn lemma_first_page_bounds(pages: Seq<PageView>, s: int, k: int)
    ensures
        -1 <= first_page_of(pages, s, k) < if k > 0 { k } else { 0 },
    decreases k,
{
    if k > 0 {
        lemma_first_page_bounds(pages, s, k - 1);
    }
}

/// For each spine item, the first page that belongs to it (-1 for none).
pub fn compute_spine_page_map(pages: &[PageData], spine_count: usize) -> (r: Vec<i32>)
    requires
        pages@.len() <= i32::MAX,
    ensures
        r@.len() == spine_count,
        forall|s: int|
            0 <= s < spine_count ==> #[trigger] r@[s] as int == first_page_of(
                page_views(pages@),
                s,
                pages@.len() as int,
            ),
{
    let ghost pv = page_views(pages@);
    let mut map: Vec<i32> = vec![-1i32; spine_count];
    let mut page_idx: usize = 0;
    while page_idx < pages.len()
        invariant
            page_idx <= pages@.len(),
            pages@.len() <= i32::MAX,
            pv == page_views(pages@),
            map@.len() == spine_count,
            forall|s: int| 0 <= s < spine_count ==> #[trigger] map@[s] as int == first_page_of(pv, s, page_idx as int),
        decreases pages@.len() - page_idx,
    {
        let page = &pages[page_idx];
        assert(pv[page_idx as int].spine_index == page.spine_index);
        proof {
            assert forall|s: int| 0 <= s < spine_count implies first_page_of(pv, s, page_idx as int) < page_idx by {
                lemma_first_page_bounds(pv, s, page_idx as int);
            }
        }
        if page.spine_index >= 0 {
            let spine = page.spine_index as usize;
            if spine < map.len() && map[spine] < 0 {
                map.set(spine, page_idx as i32);
            }
        }
        page_idx = page_idx + 1;
    }
    map
}

/// An entry of an EPUB's navigation: its title, the spine item it points
/// into (negative when unresolved) and its depth.
#[derive(Clone, Debug)]
pub struct TocSource {
    pub title: String,
    pub spine_index: i32,
    pub level: u8,
}

/// The table of contents from the navigation entries whose spine item has
/// a page.
pub open spec fn toc_from_nav(nav: Seq<TocSource>, map: Seq<i32>, n: int) -> Seq<(Seq<char>, u32, u8)>
    decreases n,
{
    if n <= 0 {
        seq![]
    } else {
        let e = nav[n - 1];
        let rest = toc_from_nav(nav, map, n - 1);
        if e.spine_index >= 0 && e.spine_index < map.len() && map[e.spine_index as int] >= 0 {
            rest.push((e.title@, map[e.spine_index as int] as u32, e.level))
        } else {
            rest
        }
    }
}

/// The table of contents with one entry per spine item that has a page,
/// titled by the last part of its path.
pub open spec fn toc_from_spine(hrefs: Seq<Seq<char>>, map: Seq<i32>, n: int) -> Seq<(Seq<char>, u32, u8)>
    decreases n,
{
    if n <= 0 {
        seq![]
    } else {
        let rest = toc_from_spine(hrefs, map, n - 1);
        if n - 1 < map.len() && map[n - 1] >= 0 {
            rest.push((crate::app::home::spec_basename(hrefs[n - 1]), map[n - 1] as u32, 0u8))
        } else {
            rest
        }
    }
}

/// The book's table of contents: the navigation entries that lead to a
/// page, or when there are none, one entry per spine item.
pub open spec fn spec_toc(nav: Seq<TocSource>, hrefs: Seq<Seq<char>>, map: Seq<i32>) -> Seq<(Seq<char>, u32, u8)> {
    let t = toc_from_nav(nav, map, nav.len() as int);
    if t.len() > 0 {
        t
    } else {
        toc_from_spine(hrefs, map, hrefs.len() as int)
    }
}

pub open spec fn toc_views(v: Seq<crate::trbk::TrbkTocEntry>) -> Seq<(Seq<char>, u32, u8)> {
    Seq::new(v.len(), |i: int| (v[i].title@, v[i].page_index, v[i].level))
}

/// Builds the table of contents (see `spec_toc`).
pub fn build_toc_entries(nav: &[TocSource], spine_hrefs: &[String], spine_to_page: &[i32]) -> (r: Vec<
    crate::trbk::TrbkTocEntry,
>)
    ensures
        toc_views(r@) == spec_toc(nav@, string_views(spine_hrefs@), spine_to_page@),
{
    let mut entries: Vec<crate::trbk::TrbkTocEntry> = Vec::new();
    let mut i: usize = 0;
    while i < nav.len()
        invariant
            i <= nav@.len(),
            toc_views(entries@) == toc_from_nav(nav@, spine_to_page@, i as int),
        decreases nav@.len() - i,
    {
        let e = &nav[i];
        if e.spine_index >= 0 {
            let spine = e.spine_index as usize;
            if spine < spine_to_page.len() {
                let page_index = spine_to_page[spine];
                if page_index >= 0 {
                    let ghost before = entries@;
                    let t = crate::trbk::TrbkTocEntry {
                        title: copy_str(e.title.as_str()),
                        page_index: page_index as u32,
                        level: e.level,
                    };
                    let ghost tv = (t.title@, t.page_index, t.level);
                    entries.push(t);
                    assert(toc_views(entries@) =~= toc_views(before).push(tv));
                }
            }
        }
        i = i + 1;
    }
    if entries.len() == 0 {
        let ghost hv = string_views(spine_hrefs@);
        let mut idx: usize = 0;
        assert(toc_views(entries@) =~= toc_from_spine(hv, spine_to_page@, 0));
        while idx < spine_hrefs.len()
            invariant
                idx <= spine_hrefs@.len(),
                hv == string_views(spine_hrefs@),
                toc_views(entries@) == toc_from_spine(hv, spine_to_page@, idx as int),
            decreases spine_hrefs@.len() - idx,
        {
            let page_index: i32 = if idx < spine_to_page.len() {
                spine_to_page[idx]
            } else {
                -1
            };
            if page_index >= 0 {
                let ghost before = entries@;
                let t = crate::trbk::TrbkTocEntry {
                    title: crate::app::home::basename_from_path(spine_hrefs[idx].as_str()),
                    page_index: page_index as u32,
                    level: 0,
                };
                let ghost tv = (t.title@, t.page_index, t.level);
                entries.push(t);
                assert(toc_views(entries@) =~= toc_views(before).push(tv));
            }
            idx = idx + 1;
        }
    }
    entries
}

// ---------------------------------------------------------------------------
// The book file
// ---------------------------------------------------------------------------

/// A converted image ready for the image table.
#[derive(Clone, Debug)]
pub struct ImageAsset {
    pub width: u16,
    pub height: u16,
    pub data: Vec<u8>,
}

/// A string field: its UTF-8 length as a little-endian `u32`, then the bytes.
pub open spec fn str_field(s: Seq<char>) -> Seq<u8> {
    spec_u32_to_le_bytes(encode_utf8(s).len() as u32) + encode_utf8(s)
}

/// Appends a string field.
pub fn write_string(buf: &mut Vec<u8>, value: &str)
    ensures
        final(buf)@ == old(buf)@ + str_field(value@),
{
    let bytes = crate::usb::str_bytes(value);
    crate::usb::write_u32(buf, bytes.len() as u32);
    buf.extend_from_slice(bytes);
    assert(final(buf)@ =~= old(buf)@ + str_field(value@));
}

pub open spec fn le16(v: u16) -> Seq<u8> {
    spec_u16_to_le_bytes(v)
}

pub open spec fn le32(v: u32) -> Seq<u8> {
    spec_u32_to_le_bytes(v)
}

/// The metadata block: title, author, language, identifier and renderer as
/// string fields, then the font and margin measurements.
pub open spec fn metadata_block(md: TrbkMetadata, o: RenderOptions) -> Seq<u8> {
    str_field(md.title@) + str_field(md.author@) + str_field(md.language@) + str_field(md.identifier@)
        + str_field("fontdue"@) + le16(o.char_width) + le16(o.line_height) + le16(o.ascent as u16) + le16(
        o.margin_x,
    ) + le16(o.margin_x) + le16(o.margin_y) + le16(o.margin_y)
}

/// The bytes of one page operation: its kind, payload length and payload.
pub open spec fn op_bytes(op: PageOpView) -> Seq<u8> {
    match op {
        PageOpView::Text { x, y, style, text } => {
            let payload = le16(x) + le16(y) + seq![style.spec_code(), 0u8] + encode_utf8(text);
            seq![1u8] + le16(payload.len() as u16) + payload
        },
        PageOpView::Image { x, y, width, height, image_index } => {
            let payload = le16(x) + le16(y) + le16(width) + le16(height) + le16(image_index) + le16(0);
            seq![2u8] + le16(payload.len() as u16) + payload
        },
    }
}

/// The bytes of the first `n` operations.
pub open spec fn ops_bytes(ops: Seq<PageOpView>, n: int) -> Seq<u8>
    decreases n,
{
    if n <= 0 {
        seq![]
    } else {
        ops_bytes(ops, n - 1) + op_bytes(ops[n - 1])
    }
}

/// The page data of the first `n` pages.
pub open spec fn pages_data(pages: Seq<PageView>, n: int) -> Seq<u8>
    decreases n,
{
    if n <= 0 {
        seq![]
    } else {
        pages_data(pages, n - 1) + ops_bytes(pages[n - 1].ops, pages[n - 1].ops.len() as int)
    }
}

/// The page lookup table of the first `n` pages: where each page's data starts.
pub open spec fn pages_lut(pages: Seq<PageView>, n: int) -> Seq<u8>
    decreases n,
{
    if n <= 0 {
        seq![]
    } else {
        pages_lut(pages, n - 1) + le32(pages_data(pages, n - 1).len() as u32)
    }
}

/// The table of contents bytes of the first `n` entries.
pub open spec fn toc_bytes(toc: Seq<(Seq<char>, u32, u8)>, n: int) -> Seq<u8>
    decreases n,
{
    if n <= 0 {
        seq![]
    } else {
        let (title, page, level) = toc[n - 1];
        toc_bytes(toc, n - 1) + str_field(title) + le32(page) + seq![level, 0u8] + le16(0)
    }
}

/// The record of one glyph.
pub open spec fn glyph_bytes(g: Glyph) -> Seq<u8> {
    le32(g.codepoint) + seq![g.style.spec_code(), g.width, g.height] + le16(g.x_advance as u16) + le16(
        g.x_offset as u16,
    ) + le16(g.y_offset as u16) + le32((g.bitmap_bw@.len() + g.bitmap_lsb@.len() + g.bitmap_msb@.len()) as u32)
        + g.bitmap_bw@ + g.bitmap_lsb@ + g.bitmap_msb@
}

/// The glyph table of the first `n` glyphs.
pub open spec fn glyphs_bytes(gs: Seq<Glyph>, n: int) -> Seq<u8>
    decreases n,
{
    if n <= 0 {
        seq![]
    } else {
        glyphs_bytes(gs, n - 1) + glyph_bytes(gs[n - 1])
    }
}

/// Where the data of image `k` starts, counted from the table's start
/// (the running sum saturates).
pub open spec fn image_data_offset(imgs: Seq<ImageAsset>, k: int) -> u32
    decreases k,
{
    if k <= 0 {
        (4 + imgs.len() * 16) as u32
    } else {
        let prev = image_data_offset(imgs, k - 1);
        let sum = prev + (imgs[k - 1].data@.len() as u32);
        if sum > u32::MAX {
            u32::MAX
        } else {
            sum as u32
        }
    }
}

/// The image records of the first `n` images.
pub open spec fn image_records(imgs: Seq<ImageAsset>, n: int) -> Seq<u8>
    decreases n,
{
    if n <= 0 {
        seq![]
    } else {
        let im = imgs[n - 1];
        image_records(imgs, n - 1) + le32(image_data_offset(imgs, n - 1)) + le32(im.data@.len() as u32) + le16(
            im.width,
        ) + le16(im.height) + le16(0) + le16(0)
    }
}

/// The image data of the first `n` images, back to back.
pub open spec fn images_data(imgs: Seq<ImageAsset>, n: int) -> Seq<u8>
    decreases n,
{
    if n <= 0 {
        seq![]
    } else {
        images_data(imgs, n - 1) + imgs[n - 1].data@
    }
}

/// The image table: the count, one record per image, then the data.
pub open spec fn image_table(imgs: Seq<ImageAsset>) -> Seq<u8> {
    le32(imgs.len() as u32) + image_records(imgs, imgs.len() as int) + images_data(imgs, imgs.len() as int)
}

/// The fixed header of a book file: the magic, version 2, no flags, then
/// the header's fields (and a zero source hash before the glyph count).
pub open spec fn header_bytes(h: TrbkHeader) -> Seq<u8> {
    seq![0x54u8, 0x52u8, 0x42u8, 0x4Bu8, h.version, 0u8] + le16(h.header_size) + le16(h.screen_width)
        + le16(h.screen_height) + le32(h.page_count) + le32(h.toc_count) + le32(h.page_lut_offset) + le32(
        h.toc_offset,
    ) + le32(h.page_data_offset) + le32(h.images_offset) + le32(0) + le32(h.glyph_count) + le32(
        h.glyph_table_offset,
    )
}

/// The header written for a book: the header size covers the metadata,
/// the table of contents follows the header, then the page lookup table,
/// the page data, the glyph table and (when there are images) the image
/// table, each offset counted from the file's start.
pub open spec fn written_header(
    md: TrbkMetadata,
    o: RenderOptions,
    pages: Seq<PageView>,
    glyphs: Seq<Glyph>,
    toc: Seq<(Seq<char>, u32, u8)>,
    imgs: Seq<ImageAsset>,
) -> TrbkHeader {
    let header_size = (0x30 + metadata_block(md, o).len()) as u16;
    let toc_offset = header_size as u32;
    let lut_offset = (toc_offset + toc_bytes(toc, toc.len() as int).len()) as u32;
    let data_offset = (lut_offset + pages_lut(pages, pages.len() as int).len()) as u32;
    let glyph_offset = (data_offset + pages_data(pages, pages.len() as int).len()) as u32;
    let images_offset = if (imgs.len() as u32) > 0 {
        (glyph_offset + glyphs_bytes(glyphs, glyphs.len() as int).len()) as u32
    } else {
        0u32
    };
    TrbkHeader {
        version: 2,
        header_size,
        screen_width: o.screen_width,
        screen_height: o.screen_height,
        page_count: pages.len() as u32,
        toc_count: toc.len() as u32,
        page_lut_offset: lut_offset,
        toc_offset,
        page_data_offset: data_offset,
        images_offset,
        glyph_count: glyphs.len() as u32,
        glyph_table_offset: glyph_offset,
    }
}

/// Everything after the fixed header: metadata, table of contents (when
/// there is one), page lookup table, page data, glyph table and image table
/// (when there are images).
pub open spec fn trbk_body(
    md: TrbkMetadata,
    o: RenderOptions,
    pages: Seq<PageView>,
    glyphs: Seq<Glyph>,
    toc: Seq<(Seq<char>, u32, u8)>,
    imgs: Seq<ImageAsset>,
) -> Seq<u8> {
    metadata_block(md, o) + (if (toc.len() as u32) != 0 {
        toc_bytes(toc, toc.len() as int)
    } else {
        seq![]
    }) + pages_lut(pages, pages.len() as int) + pages_data(pages, pages.len() as int) + glyphs_bytes(
        glyphs,
        glyphs.len() as int,
    ) + (if (imgs.len() as u32) > 0 {
        image_table(imgs)
    } else {
        seq![]
    })
}

/// The whole book file: the fixed header, then the body.
pub open spec fn spec_trbk_file(
    md: TrbkMetadata,
    o: RenderOptions,
    pages: Seq<PageView>,
    glyphs: Seq<Glyph>,
    toc: Seq<(Seq<char>, u32, u8)>,
    imgs: Seq<ImageAsset>,
) -> Seq<u8> {
    header_bytes(written_header(md, o, pages, glyphs, toc, imgs)) + trbk_body(md, o, pages, glyphs, toc, imgs)
}

proof fn lemma_header_prefix(h: TrbkHeader, rest: Seq<u8>)
    requires
        h.version == 2,
        h.toc_count != 0 ==> h.toc_offset == h.header_size,
    ensures
        crate::trbk_file::spec_parse_header(header_bytes(h) + rest) == Ok::<
            TrbkHeader,
            crate::image_viewer::ImageError,
        >(h),
{
    lemma_auto_spec_u16_to_from_le_bytes();
    lemma_auto_spec_u32_to_from_le_bytes();
    let hb = header_bytes(h);
    let d = hb + rest;
    assert(hb.len() == 0x30);
    assert(d.subrange(0, 4) =~= crate::trbk_file::trbk_magic());
    assert(d[4] == 2);
    assert(d.subrange(0x06, 0x08) =~= le16(h.header_size));
    assert(d.subrange(0x08, 0x0A) =~= le16(h.screen_width));
    assert(d.subrange(0x0A, 0x0C) =~= le16(h.screen_height));
    assert(d.subrange(0x0C, 0x10) =~= le32(h.page_count));
    assert(d.subrange(0x10, 0x14) =~= le32(h.toc_count));
    assert(d.subrange(0x14, 0x18) =~= le32(h.page_lut_offset));
    assert(d.subrange(0x18, 0x1C) =~= le32(h.toc_offset));
    assert(d.subrange(0x1C, 0x20) =~= le32(h.page_data_offset));
    assert(d.subrange(0x20, 0x24) =~= le32(h.images_offset));
    assert(d.subrange(0x28, 0x2C) =~= le32(h.glyph_count));
    assert(d.subrange(0x2C, 0x30) =~= le32(h.glyph_table_offset));
    assert(crate::trbk_file::header_fields(d) == h);
}

/// A book file written from these parts reads back with the header it was
/// written with.
pub proof fn lemma_trbk_header_roundtrip(
    md: TrbkMetadata,
    o: RenderOptions,
    pages: Seq<PageView>,
    glyphs: Seq<Glyph>,
    toc: Seq<(Seq<char>, u32, u8)>,
    imgs: Seq<ImageAsset>,
)
    ensures
        crate::trbk_file::spec_parse_header(spec_trbk_file(md, o, pages, glyphs, toc, imgs)) == Ok::<
            TrbkHeader,
            crate::image_viewer::ImageError,
        >(written_header(md, o, pages, glyphs, toc, imgs)),
{
    lemma_header_prefix(written_header(md, o, pages, glyphs, toc, imgs), trbk_body(md, o, pages, glyphs, toc, imgs));
}

proof fn lemma_read_str_field(pre: Seq<u8>, t: Seq<char>, rest: Seq<u8>)
    requires
        encode_utf8(t).len() <= u32::MAX,
    ensures
        crate::trbk_file::spec_read_string(pre + str_field(t) + rest, pre.len() as int) == Some(
            (t, (pre.len() + 4 + encode_utf8(t).len()) as int),
        ),
{
    lemma_auto_spec_u32_to_from_le_bytes();
    let e = encode_utf8(t);
    let d = pre + str_field(t) + rest;
    let c = pre.len() as int;
    assert(d.subrange(c, c + 4) =~= le32(e.len() as u32));
    assert(d.subrange(c + 4, c + 4 + e.len()) =~= e);
    vstd::utf8::encode_utf8_valid_utf8(t);
    vstd::utf8::encode_utf8_decode_utf8(t);
}

/// What the metadata of a book file reads back as.
pub open spec fn written_metadata(md: TrbkMetadata, o: RenderOptions) -> crate::trbk_file::MetadataModel {
    crate::trbk_file::MetadataModel {
        title: md.title@,
        author: md.author@,
        language: md.language@,
        identifier: md.identifier@,
        font_name: "fontdue"@,
        char_width: o.char_width,
        line_height: o.line_height,
        ascent: o.ascent,
        margin_left: o.margin_x,
        margin_right: o.margin_x,
        margin_top: o.margin_y,
        margin_bottom: o.margin_y,
    }
}

#[verifier::rlimit(100)]
proof fn lemma_metadata_prefix(md: TrbkMetadata, o: RenderOptions, pre: Seq<u8>, rest: Seq<u8>)
    requires
        pre.len() == 0x30,
        0x30 + metadata_block(md, o).len() <= u16::MAX,
    ensures
        crate::trbk_file::spec_parse_metadata(pre + metadata_block(md, o) + rest, 2) == Some(
            written_metadata(md, o),
        ),
{
    lemma_auto_spec_u16_to_from_le_bytes();
    lemma_auto_spec_u32_to_from_le_bytes();
    let f1 = str_field(md.title@);
    let f2 = str_field(md.author@);
    let f3 = str_field(md.language@);
    let f4 = str_field(md.identifier@);
    let f5 = str_field("fontdue"@);
    let tail = le16(o.char_width) + le16(o.line_height) + le16(o.ascent as u16) + le16(o.margin_x) + le16(
        o.margin_x,
    ) + le16(o.margin_y) + le16(o.margin_y);
    let m = metadata_block(md, o);
    assert(m =~= f1 + f2 + f3 + f4 + f5 + tail);
    let d = pre + m + rest;
    assert(d =~= pre + f1 + (f2 + f3 + f4 + f5 + tail + rest));
    lemma_read_str_field(pre, md.title@, f2 + f3 + f4 + f5 + tail + rest);
    let c1 = pre.len() + f1.len();
    assert(d =~= (pre + f1) + f2 + (f3 + f4 + f5 + tail + rest));
    lemma_read_str_field(pre + f1, md.author@, f3 + f4 + f5 + tail + rest);
    assert(d =~= (pre + f1 + f2) + f3 + (f4 + f5 + tail + rest));
    lemma_read_str_field(pre + f1 + f2, md.language@, f4 + f5 + tail + rest);
    assert(d =~= (pre + f1 + f2 + f3) + f4 + (f5 + tail + rest));
    lemma_read_str_field(pre + f1 + f2 + f3, md.identifier@, f5 + tail + rest);
    assert(d =~= (pre + f1 + f2 + f3 + f4) + f5 + (tail + rest));
    lemma_read_str_field(pre + f1 + f2 + f3 + f4, "fontdue"@, tail + rest);
    let c = (pre + f1 + f2 + f3 + f4 + f5).len() as int;
    assert(d.subrange(c, c + 2) =~= le16(o.char_width));
    assert(d.subrange(c + 2, c + 4) =~= le16(o.line_height));
    assert(d.subrange(c + 4, c + 6) =~= le16(o.ascent as u16));
    assert(d.subrange(c + 6, c + 8) =~= le16(o.margin_x));
    assert(d.subrange(c + 8, c + 10) =~= le16(o.margin_x));
    assert(d.subrange(c + 10, c + 12) =~= le16(o.margin_y));
    assert(d.subrange(c + 12, c + 14) =~= le16(o.margin_y));
    let a = o.ascent;
    assert((a as u16) as i16 == a) by (bit_vector);
}

/// A book file written from these parts reads back with the metadata it
/// was written with (the renderer being named "fontdue").
pub proof fn lemma_trbk_metadata_roundtrip(
    md: TrbkMetadata,
    o: RenderOptions,
    pages: Seq<PageView>,
    glyphs: Seq<Glyph>,
    toc: Seq<(Seq<char>, u32, u8)>,
    imgs: Seq<ImageAsset>,
)
    requires
        book_sizes_ok(md, o, pages, glyphs, toc, imgs),
    ensures
        crate::trbk_file::spec_parse_metadata(spec_trbk_file(md, o, pages, glyphs, toc, imgs), 2) == Some(
            written_metadata(md, o),
        ),
{
    lemma_auto_spec_u16_to_from_le_bytes();
    lemma_auto_spec_u32_to_from_le_bytes();
    let hb = header_bytes(written_header(md, o, pages, glyphs, toc, imgs));
    assert(hb.len() == 0x30);
    let body = trbk_body(md, o, pages, glyphs, toc, imgs);
    let m = metadata_block(md, o);
    let after = body.skip(m.len() as int);
    assert(body =~= m + after);
    assert(spec_trbk_file(md, o, pages, glyphs, toc, imgs) =~= hb + m + after);
    lemma_metadata_prefix(md, o, hb, after);
}

/// The record of one table-of-contents entry.
pub open spec fn toc_entry_bytes(e: (Seq<char>, u32, u8)) -> Seq<u8> {
    str_field(e.0) + le32(e.1) + seq![e.2, 0u8] + le16(0)
}

proof fn lemma_toc_bytes_prefix(toc: Seq<(Seq<char>, u32, u8)>, i: int, n: int)
    requires
        0 <= i <= n,
    ensures
        toc_bytes(toc, i).len() <= toc_bytes(toc, n).len(),
        toc_bytes(toc, n).subrange(0, toc_bytes(toc, i).len() as int) =~= toc_bytes(toc, i),
    decreases n - i,
{
    if i < n {
        lemma_toc_bytes_prefix(toc, i, n - 1);
        let a = toc_bytes(toc, n - 1);
        let (title, page, level) = toc[n - 1];
        assert(toc_bytes(toc, n) =~= a + (str_field(title) + le32(page) + seq![level, 0u8] + le16(0)));
        assert(toc_bytes(toc, n).subrange(0, a.len() as int) =~= a);
    }
}

proof fn lemma_toc_entry_len(e: (Seq<char>, u32, u8))
    ensures
        toc_entry_bytes(e).len() == 12 + encode_utf8(e.0).len(),
{
    lemma_auto_spec_u16_to_from_le_bytes();
    lemma_auto_spec_u32_to_from_le_bytes();
}

proof fn lemma_toc_entry_at(pre: Seq<u8>, e: (Seq<char>, u32, u8), rest: Seq<u8>)
    requires
        encode_utf8(e.0).len() <= u32::MAX,
    ensures
        crate::trbk_file::toc_entry_at(pre + toc_entry_bytes(e) + rest, pre.len() as int) == Some(
            (e, (pre.len() + toc_entry_bytes(e).len()) as int),
        ),
        toc_entry_bytes(e).len() == 12 + encode_utf8(e.0).len(),
{
    lemma_auto_spec_u16_to_from_le_bytes();
    lemma_auto_spec_u32_to_from_le_bytes();
    let (title, page, level) = e;
    let tail = le32(page) + seq![level, 0u8] + le16(0);
    let d = pre + toc_entry_bytes(e) + rest;
    assert(d =~= pre + str_field(title) + (tail + rest));
    lemma_read_str_field(pre, title, tail + rest);
    let c1 = (pre.len() + 4 + encode_utf8(title).len()) as int;
    assert(d.subrange(c1, c1 + 4) =~= le32(page));
    assert(d[c1 + 4] == level);
}

proof fn lemma_toc_split(pre: Seq<u8>, toc: Seq<(Seq<char>, u32, u8)>, rest: Seq<u8>, i: int) -> (after: Seq<u8>)
    requires
        0 <= i < toc.len(),
        toc_bytes(toc, toc.len() as int).len() <= u32::MAX,
    ensures
        pre + toc_bytes(toc, toc.len() as int) + rest == (pre + toc_bytes(toc, i)) + toc_entry_bytes(toc[i])
            + (after + rest),
        toc_bytes(toc, i + 1).len() == toc_bytes(toc, i).len() + toc_entry_bytes(toc[i]).len(),
        encode_utf8(toc[i].0).len() <= u32::MAX,
{
    let n = toc.len() as int;
    lemma_toc_bytes_prefix(toc, i + 1, n);
    let all = toc_bytes(toc, n);
    let head = toc_bytes(toc, i);
    let e = toc[i];
    assert(toc_bytes(toc, i + 1) =~= head + toc_entry_bytes(e));
    let after = all.skip(toc_bytes(toc, i + 1).len() as int);
    assert(all =~= toc_bytes(toc, i + 1) + after);
    lemma_toc_entry_len(e);
    assert(pre + all + rest =~= (pre + head) + toc_entry_bytes(e) + (after + rest));
    after
}

#[verifier::spinoff_prover]
#[verifier::rlimit(50)]
proof fn lemma_toc_parse_from(
    pre: Seq<u8>,
    toc: Seq<(Seq<char>, u32, u8)>,
    rest: Seq<u8>,
    i: int,
)
    requires
        0 <= i <= toc.len(),
        toc_bytes(toc, toc.len() as int).len() <= u32::MAX,
    ensures
        crate::trbk_file::spec_parse_toc(
            pre + toc_bytes(toc, toc.len() as int) + rest,
            (pre.len() + toc_bytes(toc, i).len()) as int,
            (toc.len() - i) as nat,
        ) == Some(toc.subrange(i, toc.len() as int)),
    decreases toc.len() - i,
{
    let n = toc.len() as int;
    if i == n {
        assert(toc.subrange(i, n) =~= Seq::<(Seq<char>, u32, u8)>::empty());
    } else {
        lemma_toc_parse_from(pre, toc, rest, i + 1);
        let after = lemma_toc_split(pre, toc, rest, i);
        let d = pre + toc_bytes(toc, n) + rest;
        let head = toc_bytes(toc, i);
        lemma_toc_entry_at(pre + head, toc[i], after + rest);
        assert(seq![toc[i]] + toc.subrange(i + 1, n) =~= toc.subrange(i, n));
    }
}

/// A book file written with a table of contents reads back with that
/// table of contents, found where its header says.
#[verifier::spinoff_prover]
#[verifier::rlimit(50)]
pub proof fn lemma_trbk_toc_roundtrip(
    md: TrbkMetadata,
    o: RenderOptions,
    pages: Seq<PageView>,
    glyphs: Seq<Glyph>,
    toc: Seq<(Seq<char>, u32, u8)>,
    imgs: Seq<ImageAsset>,
)
    requires
        book_sizes_ok(md, o, pages, glyphs, toc, imgs),
        toc.len() > 0,
    ensures
        ({
            let h = written_header(md, o, pages, glyphs, toc, imgs);
            crate::trbk_file::spec_parse_toc(
                spec_trbk_file(md, o, pages, glyphs, toc, imgs),
                h.toc_offset as int,
                h.toc_count as nat,
            ) == Some(toc)
        }),
{
    lemma_auto_spec_u16_to_from_le_bytes();
    lemma_auto_spec_u32_to_from_le_bytes();
    let h = written_header(md, o, pages, glyphs, toc, imgs);
    let hb = header_bytes(h);
    let m = metadata_block(md, o);
    let tb = toc_bytes(toc, toc.len() as int);
    lemma_toc_bytes_prefix(toc, 0, toc.len() as int);
    assert(toc.len() <= tb.len()) by {
        lemma_toc_len(toc, toc.len() as int);
    }
    assert((toc.len() as u32) != 0);
    let body = trbk_body(md, o, pages, glyphs, toc, imgs);
    let after = body.skip((m.len() + tb.len()) as int);
    assert(body =~= m + tb + after);
    assert(spec_trbk_file(md, o, pages, glyphs, toc, imgs) =~= (hb + m) + tb + after);
    assert(hb.len() == 0x30);
    lemma_toc_parse_from(hb + m, toc, after, 0);
    assert(toc_bytes(toc, 0).len() == 0);
    assert(toc.subrange(0, toc.len() as int) =~= toc);
}

proof fn lemma_toc_len(toc: Seq<(Seq<char>, u32, u8)>, n: int)
    requires
        0 <= n,
    ensures
        toc_bytes(toc, n).len() >= 12 * n,
    decreases n,
{
    if n > 0 {
        lemma_toc_len(toc, n - 1);
        lemma_auto_spec_u16_to_from_le_bytes();
        lemma_auto_spec_u32_to_from_le_bytes();
    }
}

proof fn lemma_pages_lut_entry(pages: Seq<PageView>, i: int, n: int)
    requires
        0 <= i < n,
    ensures
        pages_lut(pages, n).len() == 4 * n,
        pages_lut(pages, n).subrange(4 * i, 4 * i + 4) =~= le32(pages_data(pages, i).len() as u32),
    decreases n,
{
    lemma_auto_spec_u32_to_from_le_bytes();
    lemma_pages_lut_len(pages, n - 1);
    if i < n - 1 {
        lemma_pages_lut_entry(pages, i, n - 1);
        assert(pages_lut(pages, n).subrange(4 * i, 4 * i + 4) =~= pages_lut(pages, n - 1).subrange(
            4 * i,
            4 * i + 4,
        ));
    }
}

proof fn lemma_pages_lut_len(pages: Seq<PageView>, n: int)
    requires
        0 <= n,
    ensures
        pages_lut(pages, n).len() == 4 * n,
    decreases n,
{
    lemma_auto_spec_u32_to_from_le_bytes();
    if n > 0 {
        lemma_pages_lut_len(pages, n - 1);
    }
}

/// A book file reads back with a page table that gives each page's start
/// within the page data: the length of the pages before it.
#[verifier::spinoff_prover]
#[verifier::rlimit(50)]
pub proof fn lemma_trbk_page_table_roundtrip(
    md: TrbkMetadata,
    o: RenderOptions,
    pages: Seq<PageView>,
    glyphs: Seq<Glyph>,
    toc: Seq<(Seq<char>, u32, u8)>,
    imgs: Seq<ImageAsset>,
)
    requires
        book_sizes_ok(md, o, pages, glyphs, toc, imgs),
    ensures
        ({
            let h = written_header(md, o, pages, glyphs, toc, imgs);
            crate::trbk_file::spec_parse_lut(
                spec_trbk_file(md, o, pages, glyphs, toc, imgs),
                h.page_lut_offset as int,
                h.page_count as nat,
            ) == Some(Seq::new(pages.len(), |i: int| pages_data(pages, i).len() as u32))
        }),
{
    lemma_auto_spec_u16_to_from_le_bytes();
    lemma_auto_spec_u32_to_from_le_bytes();
    let h = written_header(md, o, pages, glyphs, toc, imgs);
    let hb = header_bytes(h);
    let m = metadata_block(md, o);
    let n = pages.len() as int;
    let tb = toc_bytes(toc, toc.len() as int);
    lemma_toc_len(toc, toc.len() as int);
    let tpart: Seq<u8> = if (toc.len() as u32) != 0 {
        tb
    } else {
        seq![]
    };
    assert(tpart =~= tb);
    let lut = pages_lut(pages, n);
    lemma_pages_lut_len(pages, n);
    let body = trbk_body(md, o, pages, glyphs, toc, imgs);
    let after = body.skip((m.len() + tb.len() + lut.len()) as int);
    assert(body =~= m + tb + lut + after);
    let d = spec_trbk_file(md, o, pages, glyphs, toc, imgs);
    assert(d =~= (hb + m + tb) + lut + after);
    assert(hb.len() == 0x30);
    let off = (0x30 + m.len() + tb.len()) as int;
    assert(h.page_lut_offset as int == off);
    assert(pages.len() <= lut.len());
    assert(h.page_count as nat == pages.len());
    assert forall|i: int| 0 <= i < n implies crate::trbk_file::le32(d, off + 4 * i) == pages_data(pages, i).len()
        as u32 by {
        lemma_pages_lut_entry(pages, i, n);
        assert(d.subrange(off + 4 * i, off + 4 * i + 4) =~= lut.subrange(4 * i, 4 * i + 4));
    }
    assert(Seq::new(n as nat, |i: int| crate::trbk_file::le32(d, off + 4 * i)) =~= Seq::new(
        pages.len(),
        |i: int| pages_data(pages, i).len() as u32,
    ));
}

/// The number of bitmap bytes a glyph record holds.
pub open spec fn glyph_bitmap_len(g: Glyph) -> int {
    (g.bitmap_bw@.len() + g.bitmap_lsb@.len() + g.bitmap_msb@.len()) as int
}

proof fn lemma_glyph_at(pre: Seq<u8>, g: Glyph, rest: Seq<u8>)
    requires
        glyph_bitmap_len(g) <= u32::MAX,
    ensures
        glyph_bytes(g).len() == 17 + glyph_bitmap_len(g),
        crate::trbk_file::glyph_at(pre + glyph_bytes(g) + rest, pre.len() as int) matches Some((_, c2)) && c2
            == pre.len() + glyph_bytes(g).len(),
{
    lemma_auto_spec_u16_to_from_le_bytes();
    lemma_auto_spec_u32_to_from_le_bytes();
    let total = glyph_bitmap_len(g);
    let hdr = le32(g.codepoint) + seq![g.style.spec_code(), g.width, g.height] + le16(g.x_advance as u16)
        + le16(g.x_offset as u16) + le16(g.y_offset as u16) + le32(total as u32);
    let bm = g.bitmap_bw@ + g.bitmap_lsb@ + g.bitmap_msb@;
    assert(hdr.len() == 17);
    assert(glyph_bytes(g) =~= hdr + bm);
    let d = pre + glyph_bytes(g) + rest;
    let c = pre.len() as int;
    assert(d.subrange(c + 13, c + 17) =~= le32(total as u32));
    assert(crate::trbk_file::le32(d, c + 13) as int == total);
}

proof fn lemma_glyphs_bytes_prefix(gs: Seq<Glyph>, i: int, n: int)
    requires
        0 <= i <= n,
    ensures
        glyphs_bytes(gs, i).len() <= glyphs_bytes(gs, n).len(),
        glyphs_bytes(gs, n).subrange(0, glyphs_bytes(gs, i).len() as int) =~= glyphs_bytes(gs, i),
    decreases n - i,
{
    if i < n {
        lemma_glyphs_bytes_prefix(gs, i, n - 1);
        let a = glyphs_bytes(gs, n - 1);
        assert(glyphs_bytes(gs, n) =~= a + glyph_bytes(gs[n - 1]));
        assert(glyphs_bytes(gs, n).subrange(0, a.len() as int) =~= a);
    }
}

proof fn lemma_glyph_bytes_len(g: Glyph)
    ensures
        glyph_bytes(g).len() == 17 + glyph_bitmap_len(g),
{
    lemma_auto_spec_u16_to_from_le_bytes();
    lemma_auto_spec_u32_to_from_le_bytes();
}

proof fn lemma_glyphs_count(gs: Seq<Glyph>, n: int)
    requires
        0 <= n <= gs.len(),
    ensures
        glyphs_bytes(gs, n).len() >= 17 * n,
    decreases n,
{
    if n > 0 {
        lemma_glyphs_count(gs, n - 1);
        lemma_glyph_bytes_len(gs[n - 1]);
    }
}

#[verifier::spinoff_prover]
#[verifier::rlimit(50)]
proof fn lemma_glyphs_parse_from(pre: Seq<u8>, gs: Seq<Glyph>, rest: Seq<u8>, i: int)
    requires
        0 <= i <= gs.len(),
        glyphs_bytes(gs, gs.len() as int).len() <= u32::MAX,
    ensures
        crate::trbk_file::spec_parse_glyphs(
            pre + glyphs_bytes(gs, gs.len() as int) + rest,
            (pre.len() + glyphs_bytes(gs, i).len()) as int,
            (gs.len() - i) as nat,
        ) matches Some(v) && v.len() == gs.len() - i,
    decreases gs.len() - i,
{
    let n = gs.len() as int;
    if i < n {
        lemma_glyphs_parse_from(pre, gs, rest, i + 1);
        lemma_glyphs_bytes_prefix(gs, i + 1, n);
        let all = glyphs_bytes(gs, n);
        let head = glyphs_bytes(gs, i);
        let g = gs[i];
        assert(glyphs_bytes(gs, i + 1) =~= head + glyph_bytes(g));
        let after = all.skip(glyphs_bytes(gs, i + 1).len() as int);
        assert(all =~= glyphs_bytes(gs, i + 1) + after);
        lemma_glyph_bytes_len(g);
        assert(pre + all + rest =~= (pre + head) + glyph_bytes(g) + (after + rest));
        lemma_glyph_at(pre + head, g, after + rest);
    }
}

proof fn lemma_image_records(imgs: Seq<ImageAsset>, n: int)
    requires
        0 <= n <= imgs.len(),
    ensures
        image_records(imgs, n).len() == 16 * n,
        n >= 1 ==> image_records(imgs, n).subrange(0, 4) =~= le32(image_data_offset(imgs, 0)),
    decreases n,
{
    lemma_auto_spec_u16_to_from_le_bytes();
    lemma_auto_spec_u32_to_from_le_bytes();
    if n > 0 {
        lemma_image_records(imgs, n - 1);
        if n > 1 {
            assert(image_records(imgs, n).subrange(0, 4) =~= image_records(imgs, n - 1).subrange(0, 4));
        }
    }
}

#[verifier::spinoff_prover]
#[verifier::rlimit(50)]
proof fn lemma_image_table_parse(pre: Seq<u8>, imgs: Seq<ImageAsset>)
    requires
        imgs.len() > 0,
        pre.len() + image_table(imgs).len() <= u32::MAX,
    ensures
        crate::trbk_file::spec_parse_images(pre + image_table(imgs), pre.len() as u32) matches Some(v)
            && v.len() == imgs.len(),
{
    lemma_auto_spec_u16_to_from_le_bytes();
    lemma_auto_spec_u32_to_from_le_bytes();
    let n = imgs.len() as int;
    lemma_image_records(imgs, n);
    let recs = image_records(imgs, n);
    let t = image_table(imgs);
    assert(t =~= le32(imgs.len() as u32) + recs + images_data(imgs, n));
    let d = pre + t;
    let o = pre.len() as int;
    assert(t.len() >= 4 + 16 * n);
    assert(d.subrange(o, o + 4) =~= le32(imgs.len() as u32));
    assert(crate::trbk_file::le32(d, o) == imgs.len() as u32);
    assert(d.subrange(o + 4, o + 8) =~= recs.subrange(0, 4));
    assert(crate::trbk_file::le32(d, o + 4) == image_data_offset(imgs, 0));
    assert(image_data_offset(imgs, 0) as int == 4 + n * 16);
    let count = imgs.len() as u32;
    assert(crate::trbk_file::image_entry_size(d, o, count) == 16);
}

/// The bytes of a book file before its glyph table.
pub open spec fn before_glyphs(
    md: TrbkMetadata,
    o: RenderOptions,
    pages: Seq<PageView>,
    glyphs: Seq<Glyph>,
    toc: Seq<(Seq<char>, u32, u8)>,
    imgs: Seq<ImageAsset>,
) -> Seq<u8> {
    header_bytes(written_header(md, o, pages, glyphs, toc, imgs)) + metadata_block(md, o) + toc_bytes(
        toc,
        toc.len() as int,
    ) + pages_lut(pages, pages.len() as int) + pages_data(pages, pages.len() as int)
}

#[verifier::spinoff_prover]
#[verifier::rlimit(100)]
proof fn lemma_open_pieces(
    md: TrbkMetadata,
    o: RenderOptions,
    pages: Seq<PageView>,
    glyphs: Seq<Glyph>,
    toc: Seq<(Seq<char>, u32, u8)>,
    imgs: Seq<ImageAsset>,
)
    requires
        book_sizes_ok(md, o, pages, glyphs, toc, imgs),
        spec_trbk_file(md, o, pages, glyphs, toc, imgs).len() <= u32::MAX,
        imgs.len() <= u32::MAX,
    ensures
        ({
            let d = spec_trbk_file(md, o, pages, glyphs, toc, imgs);
            let h = written_header(md, o, pages, glyphs, toc, imgs);
            let pre_g = before_glyphs(md, o, pages, glyphs, toc, imgs);
            let gb = glyphs_bytes(glyphs, glyphs.len() as int);
            &&& d.len() >= h.header_size
            &&& d.subrange(0, h.header_size as int) == header_bytes(h) + metadata_block(md, o) + Seq::<
                u8,
            >::empty()
            &&& header_bytes(h).len() == 0x30
            &&& h.toc_count as int == toc.len()
            &&& h.glyph_count as int == glyphs.len()
            &&& h.page_count as int == pages.len()
            &&& h.version == 2
            &&& h.screen_width == o.screen_width
            &&& h.screen_height == o.screen_height
            &&& gb.len() <= u32::MAX
            &&& glyphs.len() > 0 ==> d == pre_g + gb + (if imgs.len() > 0 {
                image_table(imgs)
            } else {
                Seq::<u8>::empty()
            }) && h.glyph_table_offset as int == pre_g.len()
            &&& imgs.len() > 0 ==> d == (pre_g + gb) + image_table(imgs) && h.images_offset as int == (
            pre_g + gb).len() && (pre_g + gb).len() > 0 && (pre_g + gb).len() + image_table(imgs).len()
                <= u32::MAX
            &&& imgs.len() == 0 ==> h.images_offset == 0
        }),
{
    lemma_auto_spec_u16_to_from_le_bytes();
    lemma_auto_spec_u32_to_from_le_bytes();
    let d = spec_trbk_file(md, o, pages, glyphs, toc, imgs);
    let h = written_header(md, o, pages, glyphs, toc, imgs);
    let hb = header_bytes(h);
    let m = metadata_block(md, o);
    let tb = toc_bytes(toc, toc.len() as int);
    let lut = pages_lut(pages, pages.len() as int);
    let pd = pages_data(pages, pages.len() as int);
    let gb = glyphs_bytes(glyphs, glyphs.len() as int);
    lemma_toc_len(toc, toc.len() as int);
    lemma_pages_lut_len(pages, pages.len() as int);
    lemma_glyphs_count(glyphs, glyphs.len() as int);
    let tpart: Seq<u8> = if (toc.len() as u32) != 0 {
        tb
    } else {
        seq![]
    };
    assert(tpart =~= tb);
    let ipart: Seq<u8> = if (imgs.len() as u32) > 0 {
        image_table(imgs)
    } else {
        seq![]
    };
    assert(ipart =~= (if imgs.len() > 0 {
        image_table(imgs)
    } else {
        Seq::<u8>::empty()
    }));
    assert(trbk_body(md, o, pages, glyphs, toc, imgs) =~= m + tb + lut + pd + gb + ipart);
    assert(d =~= hb + m + tb + lut + pd + gb + ipart);
    assert(hb.len() == 0x30);
    assert(d.subrange(0, h.header_size as int) =~= hb + m + Seq::<u8>::empty());
    assert(d =~= before_glyphs(md, o, pages, glyphs, toc, imgs) + gb + ipart);
}

/// A book file written from these parts opens as the book it was written
/// from: its screen size, page count, metadata, table of contents, page
/// table, and as many glyphs and images as were written.
#[verifier::spinoff_prover]
#[verifier::rlimit(100)]
pub proof fn lemma_trbk_open_roundtrip(
    md: TrbkMetadata,
    o: RenderOptions,
    pages: Seq<PageView>,
    glyphs: Seq<Glyph>,
    toc: Seq<(Seq<char>, u32, u8)>,
    imgs: Seq<ImageAsset>,
)
    requires
        book_sizes_ok(md, o, pages, glyphs, toc, imgs),
        spec_trbk_file(md, o, pages, glyphs, toc, imgs).len() <= u32::MAX,
        imgs.len() <= u32::MAX,
    ensures
        crate::trbk_file::spec_open_trbk(spec_trbk_file(md, o, pages, glyphs, toc, imgs)) matches Ok(m) && {
            &&& m.screen_width == o.screen_width
            &&& m.screen_height == o.screen_height
            &&& m.page_count == pages.len()
            &&& m.metadata == written_metadata(md, o)
            &&& m.toc == toc
            &&& m.page_offsets == Seq::new(pages.len(), |i: int| pages_data(pages, i).len() as u32)
            &&& m.glyphs.len() == glyphs.len()
            &&& m.images.len() == imgs.len()
        },
{
    let d = spec_trbk_file(md, o, pages, glyphs, toc, imgs);
    let h = written_header(md, o, pages, glyphs, toc, imgs);
    let pre_g = before_glyphs(md, o, pages, glyphs, toc, imgs);
    let gb = glyphs_bytes(glyphs, glyphs.len() as int);
    lemma_open_pieces(md, o, pages, glyphs, toc, imgs);
    lemma_trbk_header_roundtrip(md, o, pages, glyphs, toc, imgs);
    lemma_metadata_prefix(md, o, header_bytes(h), Seq::<u8>::empty());
    if toc.len() > 0 {
        lemma_trbk_toc_roundtrip(md, o, pages, glyphs, toc, imgs);
    } else {
        assert(toc =~= Seq::<(Seq<char>, u32, u8)>::empty());
    }
    lemma_trbk_page_table_roundtrip(md, o, pages, glyphs, toc, imgs);
    if glyphs.len() > 0 {
        let ipart = if imgs.len() > 0 {
            image_table(imgs)
        } else {
            Seq::<u8>::empty()
        };
        lemma_glyphs_parse_from(pre_g, glyphs, ipart, 0);
        assert(glyphs_bytes(glyphs, 0).len() == 0);
    }
    if imgs.len() > 0 {
        lemma_image_table_parse(pre_g + gb, imgs);
    }
}

/// A written page operation as the reader sees it: a text run keeps its
/// position, style code and text; an image its position, width, height and
/// index.
pub open spec fn op_as_read(op: PageOpView) -> crate::trbk_file::PageOpModel {
    match op {
        PageOpView::Text { x, y, style, text } => crate::trbk_file::PageOpModel::Text(
            x as i32,
            y as i32,
            style.spec_code(),
            text,
        ),
        PageOpView::Image { x, y, width, height, image_index } => crate::trbk_file::PageOpModel::Image(
            x as i32,
            y as i32,
            width,
            height,
            index_as_read(image_index),
        ),
    }
}

/// The image index as read back: the record holds the written `u16` and
/// two zero bytes, which the reader takes as one `u32`.
pub open spec fn index_as_read(image_index: u16) -> u32 {
    spec_u32_from_le_bytes(le16(image_index) + le16(0))
}

/// Whether an operation's record fits: a text run's payload within a `u16`.
pub open spec fn op_record_fits(op: PageOpView) -> bool {
    op matches PageOpView::Text { text, .. } ==> 6 + encode_utf8(text).len() <= u16::MAX
}

proof fn lemma_op_record(pre: Seq<u8>, op: PageOpView, rest: Seq<u8>)
    requires
        op_record_fits(op),
    ensures
        ({
            let d = pre + op_bytes(op) + rest;
            let c = pre.len() as int;
            let n = crate::trbk_file::le16(d, c + 1) as int;
            &&& op_bytes(op).len() >= 3
            &&& crate::trbk_file::fits(d, c, 3)
            &&& n == op_bytes(op).len() - 3
            &&& crate::trbk_file::fits(d, c + 3, n)
            &&& crate::trbk_file::record_op(d[c], d.subrange(c + 3, c + 3 + n)) == Some(
                Some(op_as_read(op)),
            )
        }),
{
    lemma_auto_spec_u16_to_from_le_bytes();
    lemma_auto_spec_u32_to_from_le_bytes();
    let d = pre + op_bytes(op) + rest;
    let c = pre.len() as int;
    match op {
        PageOpView::Text { x, y, style, text } => {
            let payload = le16(x) + le16(y) + seq![style.spec_code(), 0u8] + encode_utf8(text);
            assert(op_bytes(op) =~= seq![1u8] + le16(payload.len() as u16) + payload);
            assert(d.subrange(c + 1, c + 3) =~= le16(payload.len() as u16));
            let p = d.subrange(c + 3, c + 3 + payload.len());
            assert(p =~= payload);
            assert(p.subrange(0, 2) =~= le16(x));
            assert(p.subrange(2, 4) =~= le16(y));
            assert(p.skip(6) =~= encode_utf8(text));
            encode_utf8_valid_utf8(text);
            encode_utf8_decode_utf8(text);
        },
        PageOpView::Image { x, y, width, height, image_index } => {
            let payload = le16(x) + le16(y) + le16(width) + le16(height) + le16(image_index) + le16(0);
            assert(op_bytes(op) =~= seq![2u8] + le16(payload.len() as u16) + payload);
            assert(payload.len() == 12);
            assert(d.subrange(c + 1, c + 3) =~= le16(payload.len() as u16));
            let p = d.subrange(c + 3, c + 15);
            assert(p =~= payload);
            assert(p.subrange(0, 2) =~= le16(x));
            assert(p.subrange(2, 4) =~= le16(y));
            assert(p.subrange(4, 6) =~= le16(width));
            assert(p.subrange(6, 8) =~= le16(height));
            assert(p.subrange(8, 12) =~= le16(image_index) + le16(0));
        },
    }
}

proof fn lemma_ops_bytes_prefix(ops: Seq<PageOpView>, i: int, n: int)
    requires
        0 <= i <= n,
    ensures
        ops_bytes(ops, i).len() <= ops_bytes(ops, n).len(),
        ops_bytes(ops, n).subrange(0, ops_bytes(ops, i).len() as int) =~= ops_bytes(ops, i),
    decreases n - i,
{
    if i < n {
        lemma_ops_bytes_prefix(ops, i, n - 1);
        let a = ops_bytes(ops, n - 1);
        assert(ops_bytes(ops, n) =~= a + op_bytes(ops[n - 1]));
        assert(ops_bytes(ops, n).subrange(0, a.len() as int) =~= a);
    }
}

proof fn lemma_ops_parse_from(ops: Seq<PageOpView>, i: int)
    requires
        0 <= i <= ops.len(),
        forall|k: int| 0 <= k < ops.len() ==> #[trigger] op_record_fits(ops[k]),
    ensures
        crate::trbk_file::spec_parse_ops(ops_bytes(ops, ops.len() as int), ops_bytes(ops, i).len() as int)
            == Some(Seq::new((ops.len() - i) as nat, |k: int| op_as_read(ops[i + k]))),
    decreases ops.len() - i,
{
    let n = ops.len() as int;
    let d = ops_bytes(ops, n);
    if i == n {
        assert(Seq::new((ops.len() - i) as nat, |k: int| op_as_read(ops[i + k])) =~= Seq::<
            crate::trbk_file::PageOpModel,
        >::empty());
    } else {
        lemma_ops_parse_from(ops, i + 1);
        lemma_ops_bytes_prefix(ops, i + 1, n);
        let head = ops_bytes(ops, i);
        let op = ops[i];
        assert(op_record_fits(op));
        assert(ops_bytes(ops, i + 1) =~= head + op_bytes(op));
        let after = d.skip(ops_bytes(ops, i + 1).len() as int);
        assert(d =~= ops_bytes(ops, i + 1) + after);
        assert(d =~= head + op_bytes(op) + after);
        lemma_op_record(head, op, after);
        assert(head.len() + op_bytes(op).len() == ops_bytes(ops, i + 1).len());
        assert(seq![op_as_read(op)] + Seq::new((ops.len() - (i + 1)) as nat, |k: int| op_as_read(ops[i + 1 + k]))
            =~= Seq::new((ops.len() - i) as nat, |k: int| op_as_read(ops[i + k])));
    }
}

/// Reading a page's data gives back the operations that were written for
/// it, in order: each text run with its position, style and text, each
/// image with its position, width, height and index.
pub proof fn lemma_page_ops_roundtrip(ops: Seq<PageOpView>)
    requires
        forall|k: int| 0 <= k < ops.len() ==> #[trigger] op_record_fits(ops[k]),
    ensures
        crate::trbk_file::spec_parse_ops(ops_bytes(ops, ops.len() as int), 0) == Some(
            Seq::new(ops.len(), |k: int| op_as_read(ops[k])),
        ),
{
    lemma_ops_parse_from(ops, 0);
    assert(Seq::new(ops.len(), |k: int| op_as_read(ops[0 + k])) =~= Seq::new(
        ops.len(),
        |k: int| op_as_read(ops[k]),
    ));
}

fn push_le16(buf: &mut Vec<u8>, v: u16)
    ensures
        final(buf)@ == old(buf)@ + le16(v),
{
    crate::usb::write_u16(buf, v);
}

fn push_le32(buf: &mut Vec<u8>, v: u32)
    ensures
        final(buf)@ == old(buf)@ + le32(v),
{
    crate::usb::write_u32(buf, v);
}

/// The metadata block of a book.
pub fn encode_metadata(metadata: &TrbkMetadata, options: &RenderOptions) -> (r: Vec<u8>)
    ensures
        r@ == metadata_block(*metadata, *options),
{
    let mut b: Vec<u8> = Vec::new();
    write_string(&mut b, metadata.title.as_str());
    write_string(&mut b, metadata.author.as_str());
    write_string(&mut b, metadata.language.as_str());
    write_string(&mut b, metadata.identifier.as_str());
    write_string(&mut b, "fontdue");
    push_le16(&mut b, options.char_width);
    push_le16(&mut b, options.line_height);
    push_le16(&mut b, options.ascent as u16);
    push_le16(&mut b, options.margin_x);
    push_le16(&mut b, options.margin_x);
    push_le16(&mut b, options.margin_y);
    push_le16(&mut b, options.margin_y);
    assert(b@ =~= metadata_block(*metadata, *options));
    b
}

/// The table of contents bytes.
pub fn encode_toc(toc: &[crate::trbk::TrbkTocEntry]) -> (r: Vec<u8>)
    ensures
        r@ == toc_bytes(toc_views(toc@), toc@.len() as int),
{
    let ghost tv = toc_views(toc@);
    let mut b: Vec<u8> = Vec::new();
    let mut i: usize = 0;
    while i < toc.len()
        invariant
            i <= toc@.len(),
            tv == toc_views(toc@),
            b@ == toc_bytes(tv, i as int),
        decreases toc@.len() - i,
    {
        let e = &toc[i];
        let ghost before = b@;
        write_string(&mut b, e.title.as_str());
        push_le32(&mut b, e.page_index);
        b.push(e.level);
        b.push(0);
        push_le16(&mut b, 0);
        assert(tv[i as int] == (e.title@, e.page_index, e.level));
        assert(b@ =~= toc_bytes(tv, i + 1));
        i = i + 1;
    }
    b
}

/// Appends the bytes of one page operation.
fn encode_op(buf: &mut Vec<u8>, op: &PageOp)
    ensures
        final(buf)@ == old(buf)@ + op_bytes(op@),
{
    match op {
        PageOp::Text { x, y, style, text } => {
            let mut payload: Vec<u8> = Vec::new();
            push_le16(&mut payload, *x);
            push_le16(&mut payload, *y);
            payload.push(style.code());
            payload.push(0);
            payload.extend_from_slice(crate::usb::str_bytes(text.as_str()));
            buf.push(1);
            push_le16(buf, payload.len() as u16);
            buf.extend_from_slice(payload.as_slice());
            assert(final(buf)@ =~= old(buf)@ + op_bytes(op@));
        },
        PageOp::Image { x, y, width, height, image_index } => {
            let mut payload: Vec<u8> = Vec::new();
            push_le16(&mut payload, *x);
            push_le16(&mut payload, *y);
            push_le16(&mut payload, *width);
            push_le16(&mut payload, *height);
            push_le16(&mut payload, *image_index);
            push_le16(&mut payload, 0);
            buf.push(2);
            push_le16(buf, payload.len() as u16);
            buf.extend_from_slice(payload.as_slice());
            assert(final(buf)@ =~= old(buf)@ + op_bytes(op@));
        },
    }
}

/// The page lookup table and the page data of the pages.
pub fn encode_pages(pages: &[PageData]) -> (r: (Vec<u8>, Vec<u8>))
    ensures
        r.0@ == pages_lut(page_views(pages@), pages@.len() as int),
        r.1@ == pages_data(page_views(pages@), pages@.len() as int),
{
    let ghost pv = page_views(pages@);
    let mut lut: Vec<u8> = Vec::new();
    let mut data: Vec<u8> = Vec::new();
    let mut i: usize = 0;
    while i < pages.len()
        invariant
            i <= pages@.len(),
            pv == page_views(pages@),
            lut@ == pages_lut(pv, i as int),
            data@ == pages_data(pv, i as int),
        decreases pages@.len() - i,
    {
        let page = &pages[i];
        let ghost ov = op_views(page.ops@);
        assert(pv[i as int].ops == ov);
        push_le32(&mut lut, data.len() as u32);
        let ghost start = data@;
        let mut k: usize = 0;
        while k < page.ops.len()
            invariant
                k <= page.ops@.len(),
                ov == op_views(page.ops@),
                data@ == start + ops_bytes(ov, k as int),
            decreases page.ops@.len() - k,
        {
            encode_op(&mut data, &page.ops[k]);
            assert(data@ =~= start + ops_bytes(ov, k + 1));
            k = k + 1;
        }
        i = i + 1;
    }
    (lut, data)
}

proof fn lemma_glyphs_bytes_len(gs: Seq<Glyph>, n: int)
    requires
        0 <= n <= gs.len(),
    ensures
        glyphs_bytes(gs, n).len() <= glyphs_bytes(gs, gs.len() as int).len(),
    decreases gs.len() - n,
{
    if n < gs.len() {
        lemma_glyphs_bytes_len(gs, n + 1);
    }
}

/// The size of the glyph table.
pub fn glyphs_serialized_len(glyphs: &[Glyph]) -> (r: usize)
    requires
        glyphs_bytes(glyphs@, glyphs@.len() as int).len() <= usize::MAX,
    ensures
        r == glyphs_bytes(glyphs@, glyphs@.len() as int).len(),
{
    let mut total: usize = 0;
    let mut i: usize = 0;
    while i < glyphs.len()
        invariant
            i <= glyphs@.len(),
            glyphs_bytes(glyphs@, glyphs@.len() as int).len() <= usize::MAX,
            total == glyphs_bytes(glyphs@, i as int).len(),
        decreases glyphs@.len() - i,
    {
        proof {
            lemma_glyphs_bytes_len(glyphs@, i + 1);
            lemma_auto_spec_u16_to_from_le_bytes();
            lemma_auto_spec_u32_to_from_le_bytes();
        }
        let g = &glyphs[i];
        assert(glyphs_bytes(glyphs@, i + 1).len() == total + 17 + g.bitmap_bw@.len() + g.bitmap_lsb@.len()
            + g.bitmap_msb@.len());
        total = total + 4 + 1 + 1 + 1 + 2 + 2 + 2 + 4 + g.bitmap_bw.len() + g.bitmap_lsb.len()
            + g.bitmap_msb.len();
        i = i + 1;
    }
    total
}

/// Appends the glyph table.
pub fn encode_glyph_table(buf: &mut Vec<u8>, glyphs: &[Glyph])
    ensures
        final(buf)@ == old(buf)@ + glyphs_bytes(glyphs@, glyphs@.len() as int),
{
    let mut i: usize = 0;
    while i < glyphs.len()
        invariant
            i <= glyphs@.len(),
            buf@ == old(buf)@ + glyphs_bytes(glyphs@, i as int),
        decreases glyphs@.len() - i,
    {
        let g = &glyphs[i];
        let ghost before = buf@;
        push_le32(buf, g.codepoint);
        buf.push(g.style.code());
        buf.push(g.width);
        buf.push(g.height);
        push_le16(buf, g.x_advance as u16);
        push_le16(buf, g.x_offset as u16);
        push_le16(buf, g.y_offset as u16);
        let len = (g.bitmap_bw.len() as u128 + g.bitmap_lsb.len() as u128 + g.bitmap_msb.len() as u128) as u32;
        assert(len == (g.bitmap_bw@.len() + g.bitmap_lsb@.len() + g.bitmap_msb@.len()) as u32);
        push_le32(buf, len);
        buf.extend_from_slice(g.bitmap_bw.as_slice());
        buf.extend_from_slice(g.bitmap_lsb.as_slice());
        buf.extend_from_slice(g.bitmap_msb.as_slice());
        assert(buf@ =~= before + glyph_bytes(glyphs@[i as int]));
        assert(buf@ =~= old(buf)@ + glyphs_bytes(glyphs@, i + 1));
        i = i + 1;
    }
}

/// Appends the image table.
pub fn encode_image_table(buf: &mut Vec<u8>, images: &[ImageAsset])
    requires
        images@.len() * 16 + 4 <= usize::MAX,
    ensures
        final(buf)@ == old(buf)@ + image_table(images@),
{
    let count = images.len() as u32;
    let table_size = 4 + images.len() * 16;
    let mut data_offset = table_size as u32;
    push_le32(buf, count);
    let ghost head = buf@;
    let mut i: usize = 0;
    while i < images.len()
        invariant
            i <= images@.len(),
            buf@ == head + image_records(images@, i as int),
            data_offset == image_data_offset(images@, i as int),
            table_size == images@.len() * 16 + 4,
        decreases images@.len() - i,
    {
        let im = &images[i];
        let ghost before = buf@;
        push_le32(buf, data_offset);
        push_le32(buf, im.data.len() as u32);
        push_le16(buf, im.width);
        push_le16(buf, im.height);
        push_le16(buf, 0);
        push_le16(buf, 0);
        assert(buf@ =~= head + image_records(images@, i + 1));
        data_offset = data_offset.saturating_add(im.data.len() as u32);
        i = i + 1;
    }
    let ghost mid = buf@;
    let mut k: usize = 0;
    while k < images.len()
        invariant
            k <= images@.len(),
            buf@ == mid + images_data(images@, k as int),
        decreases images@.len() - k,
    {
        buf.extend_from_slice(images[k].data.as_slice());
        assert(buf@ =~= mid + images_data(images@, k + 1));
        k = k + 1;
    }
    assert(buf@ =~= old(buf)@ + image_table(images@));
}

/// The sizes a book file can hold: the header within 16 bits, every offset
/// within 32 bits.
pub open spec fn book_sizes_ok(
    md: TrbkMetadata,
    o: RenderOptions,
    pages: Seq<PageView>,
    glyphs: Seq<Glyph>,
    toc: Seq<(Seq<char>, u32, u8)>,
    imgs: Seq<ImageAsset>,
) -> bool {
    let h = 0x30 + metadata_block(md, o).len();
    let upto_glyphs = h + toc_bytes(toc, toc.len() as int).len() + pages_lut(pages, pages.len() as int).len()
        + pages_data(pages, pages.len() as int).len();
    &&& h <= u16::MAX
    &&& upto_glyphs <= u32::MAX
    &&& glyphs_bytes(glyphs, glyphs.len() as int).len() <= usize::MAX
    &&& ((imgs.len() as u32) > 0 ==> upto_glyphs + glyphs_bytes(glyphs, glyphs.len() as int).len() <= u32::MAX)
    &&& imgs.len() * 16 + 4 <= usize::MAX
}

/// The fixed header of a book file.
fn encode_header(h: &TrbkHeader) -> (r: Vec<u8>)
    ensures
        r@ == header_bytes(*h),
{
    let mut out: Vec<u8> = Vec::new();
    out.push(0x54);
    out.push(0x52);
    out.push(0x42);
    out.push(0x4B);
    out.push(h.version);
    out.push(0);
    push_le16(&mut out, h.header_size);
    push_le16(&mut out, h.screen_width);
    push_le16(&mut out, h.screen_height);
    push_le32(&mut out, h.page_count);
    push_le32(&mut out, h.toc_count);
    push_le32(&mut out, h.page_lut_offset);
    push_le32(&mut out, h.toc_offset);
    push_le32(&mut out, h.page_data_offset);
    push_le32(&mut out, h.images_offset);
    push_le32(&mut out, 0);
    push_le32(&mut out, h.glyph_count);
    push_le32(&mut out, h.glyph_table_offset);
    assert(out@ =~= header_bytes(*h));
    out
}

/// The bytes of a book file (see `spec_trbk_file`).
#[verifier::spinoff_prover]
#[verifier::rlimit(100)]
pub fn encode_trbk(
    metadata: &TrbkMetadata,
    options: &RenderOptions,
    pages: &[PageData],
    glyphs: &[Glyph],
    toc_entries: &[crate::trbk::TrbkTocEntry],
    image_assets: &[ImageAsset],
) -> (r: Vec<u8>)
    requires
        book_sizes_ok(
            *metadata,
            *options,
            page_views(pages@),
            glyphs@,
            toc_views(toc_entries@),
            image_assets@,
        ),
    ensures
        r@ == spec_trbk_file(
            *metadata,
            *options,
            page_views(pages@),
            glyphs@,
            toc_views(toc_entries@),
            image_assets@,
        ),
{
    let ghost pv = page_views(pages@);
    let ghost tv = toc_views(toc_entries@);
    assert(tv.len() == toc_entries@.len());
    assert(pv.len() == pages@.len());
    let toc_count: u32 = toc_entries.len() as u32;
    let page_count = pages.len() as u32;
    let glyph_count = glyphs.len() as u32;
    let image_count = image_assets.len() as u32;
    let metadata_bytes = encode_metadata(metadata, options);
    let header_size: u16 = 0x30 + metadata_bytes.len() as u16;
    let toc_offset: u32 = header_size as u32;
    let toc_bytes = encode_toc(toc_entries);
    let page_lut_offset: u32 = toc_offset + toc_bytes.len() as u32;
    let (page_lut, page_data) = encode_pages(pages);
    let page_data_offset = page_lut_offset + page_lut.len() as u32;
    let glyph_table_offset = page_data_offset + page_data.len() as u32;
    let images_offset: u32 = if image_count > 0 {
        glyph_table_offset + glyphs_serialized_len(glyphs) as u32
    } else {
        0
    };
    let header = TrbkHeader {
        version: 2,
        header_size,
        screen_width: options.screen_width,
        screen_height: options.screen_height,
        page_count,
        toc_count,
        page_lut_offset,
        toc_offset,
        page_data_offset,
        images_offset,
        glyph_count,
        glyph_table_offset,
    };
    assert(header == written_header(*metadata, *options, pv, glyphs@, tv, image_assets@));
    let mut out = encode_header(&header);
    let ghost h = out@;
    out.extend_from_slice(metadata_bytes.as_slice());
    if toc_count != 0 {
        out.extend_from_slice(toc_bytes.as_slice());
    }
    out.extend_from_slice(page_lut.as_slice());
    out.extend_from_slice(page_data.as_slice());
    encode_glyph_table(&mut out, glyphs);
    if image_count > 0 {
        encode_image_table(&mut out, image_assets);
    }
    assert(out@ =~= spec_trbk_file(*metadata, *options, pv, glyphs@, tv, image_assets@)) by {
        assert(out@ =~= header_bytes(header) + trbk_body(*metadata, *options, pv, glyphs@, tv, image_assets@));
    }
    out
}

/// A converted image in the grayscale image format: "TRIM", the kind and
/// depth (1 and 1 for 1-bit, 2 and 2 for two-bit grayscale), the size, six
/// reserved bytes, then the pixel data.
pub open spec fn spec_trimg_bytes(gray2: bool, width: u32, height: u32, data: Seq<u8>) -> Seq<u8> {
    let k: u8 = if gray2 {
        2
    } else {
        1
    };
    seq![0x54u8, 0x52u8, 0x49u8, 0x4Du8, k, k] + le16(width as u16) + le16(height as u16) + seq![
        0u8,
        0u8,
        0u8,
        0u8,
        0u8,
        0u8,
    ] + data
}

/// Writes a converted image in the grayscale image format.
pub fn trimg_to_bytes(gray2: bool, width: u32, height: u32, data: &[u8]) -> (r: Vec<u8>)
    ensures
        r@ == spec_trimg_bytes(gray2, width, height, data@),
{
    let k: u8 = if gray2 {
        2
    } else {
        1
    };
    let mut out: Vec<u8> = Vec::new();
    out.push(0x54);
    out.push(0x52);
    out.push(0x49);
    out.push(0x4D);
    out.push(k);
    out.push(k);
    push_le16(&mut out, width as u16);
    push_le16(&mut out, height as u16);
    out.push(0);
    out.push(0);
    out.push(0);
    out.push(0);
    out.push(0);
    out.push(0);
    out.extend_from_slice(data);
    assert(out@ =~= spec_trimg_bytes(gray2, width, height, data@));
    out
}

} // verus!
