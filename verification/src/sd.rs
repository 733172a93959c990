//! The card storage's own rules: which files are listed and in what order,
//! how paths are built, the names of the cache and state files, and the
//! text and image formats it keeps there.

use vstd::prelude::*;
use vstd::bytes::*;
use vstd::slice::*;
use vstd::utf8::*;
use vstd::multiset::Multiset;
use crate::app::positions::{compare_str, seq_lt, lemma_lt_irreflexive, lemma_lt_total, lemma_lt_transitive};
use crate::image_viewer::{EntryKind, ImageData, ImageEntry, ImageError, ImageView};
use crate::text::{
    chars_of, concat, copy_str, ends_with_ci, ends_with_ignore_case, eq_ci, eq_ignore_ascii_case,
    join_path, join_slash, lower_seq, push_char, str_eq, string_from_chars, string_views, upper_seq,
    to_ascii_uppercase, utf8_string,
};

verus! {

/// Whether a file name has one of the extensions the file browser lists.
pub open spec fn spec_is_supported(name: Seq<char>) -> bool {
    ends_with_ci(name, ".tri"@) || ends_with_ci(name, ".trimg"@) || ends_with_ci(name, ".trbk"@)
        || ends_with_ci(name, ".tbk"@) || ends_with_ci(name, ".epub"@) || ends_with_ci(name, ".epb"@)
}

pub fn is_supported(name: &str) -> (r: bool)
    ensures
        r == spec_is_supported(name@),
{
    ends_with_ignore_case(name, ".tri") || ends_with_ignore_case(name, ".trimg")
        || ends_with_ignore_case(name, ".trbk") || ends_with_ignore_case(name, ".tbk") || ends_with_ignore_case(name, ".epub")
        || ends_with_ignore_case(name, ".epb")
}

/// `s` without any trailing '/'.
pub open spec fn trim_trailing_slashes(s: Seq<char>) -> Seq<char>
    decreases s.len(),
{
    if s.len() > 0 && s.last() == '/' {
        trim_trailing_slashes(s.drop_last())
    } else {
        s
    }
}

/// A name joined to a host-side directory path.
pub open spec fn spec_join_usb_path(dir: Seq<char>, name: Seq<char>) -> Seq<char> {
    if dir.len() == 0 || dir == seq!['/'] {
        seq!['/'] + name
    } else {
        trim_trailing_slashes(dir) + seq!['/'] + name
    }
}

pub fn join_usb_path(dir: &str, name: &str) -> (r: String)
    ensures
        r@ == spec_join_usb_path(dir@, name@),
{
    let cs = chars_of(dir);
    if cs.len() == 0 || (cs.len() == 1 && cs[0] == '/') {
        proof {
            if cs@.len() == 1 && cs@[0] == '/' {
                assert(dir@ =~= seq!['/']);
            }
        }
        let mut out = String::new();
        push_char(&mut out, '/');
        assert(out@ =~= seq!['/']);
        return concat(out.as_str(), name);
    }
    let mut end = cs.len();
    assert(cs@.take(end as int) =~= cs@);
    while end > 0 && cs[end - 1] == '/'
        invariant
            end <= cs@.len(),
            cs@ == dir@,
            trim_trailing_slashes(dir@) == trim_trailing_slashes(cs@.take(end as int)),
        decreases end,
    {
        assert(cs@.take(end as int).drop_last() =~= cs@.take(end - 1));
        end = end - 1;
    }
    assert(trim_trailing_slashes(cs@.take(end as int)) == cs@.take(end as int));
    let mut out = string_from_chars(slice_subrange(cs.as_slice(), 0, end));
    push_char(&mut out, '/');
    concat(out.as_str(), name)
}

/// The parts of a path with "" and "." dropped and ".." taking back the
/// part before it.
pub open spec fn normalize_parts(parts: Seq<Seq<char>>) -> Seq<Seq<char>>
    decreases parts.len(),
{
    if parts.len() == 0 {
        seq![]
    } else {
        let acc = normalize_parts(parts.drop_last());
        let p = parts.last();
        if p.len() == 0 || p == seq!['.'] {
            acc
        } else if p == seq!['.', '.'] {
            if acc.len() > 0 {
                acc.drop_last()
            } else {
                acc
            }
        } else {
            acc.push(p)
        }
    }
}

/// A path on the card: a bare name at the root, else the folder's parts
/// and the name, normalized and joined with '/'.
pub open spec fn spec_build_path(path: Seq<Seq<char>>, name: Seq<char>) -> Seq<char> {
    if path.len() == 0 {
        name
    } else {
        join_slash(normalize_parts(path.push(name)))
    }
}

fn is_dot(s: &str) -> (r: bool)
    ensures
        r == (s@ == seq!['.']),
{
    let cs = chars_of(s);
    let r = cs.len() == 1 && cs[0] == '.';
    proof {
        if cs@.len() == 1 && cs@[0] == '.' {
            assert(s@ =~= seq!['.']);
        }
    }
    r
}

fn is_dot_dot(s: &str) -> (r: bool)
    ensures
        r == (s@ == seq!['.', '.']),
{
    let cs = chars_of(s);
    let r = cs.len() == 2 && cs[0] == '.' && cs[1] == '.';
    proof {
        if cs@.len() == 2 && cs@[0] == '.' && cs@[1] == '.' {
            assert(s@ =~= seq!['.', '.']);
        }
    }
    r
}

/// Adds one part to normalized parts.
pub(crate) fn push_part(parts: &mut Vec<String>, p: &str)
    ensures
        string_views(final(parts)@) == {
            let acc = string_views(old(parts)@);
            if p@.len() == 0 || p@ == seq!['.'] {
                acc
            } else if p@ == seq!['.', '.'] {
                if acc.len() > 0 {
                    acc.drop_last()
                } else {
                    acc
                }
            } else {
                acc.push(p@)
            }
        },
{
    if p.is_empty() || is_dot(p) {
        return ;
    }
    if is_dot_dot(p) {
        if parts.len() > 0 {
            parts.pop();
            assert(string_views(parts@) =~= string_views(old(parts)@).drop_last());
        }
        return ;
    }
    parts.push(copy_str(p));
    assert(string_views(parts@) =~= string_views(old(parts)@).push(p@));
}

/// The card path of an entry in a folder.
pub fn build_path(path: &[String], name: &str) -> (r: String)
    ensures
        r@ == spec_build_path(string_views(path@), name@),
{
    if path.len() == 0 {
        return copy_str(name);
    }
    let ghost all = string_views(path@).push(name@);
    let mut parts: Vec<String> = Vec::new();
    let mut i: usize = 0;
    while i < path.len()
        invariant
            i <= path@.len(),
            all == string_views(path@).push(name@),
            string_views(parts@) == normalize_parts(all.take(i as int)),
        decreases path@.len() - i,
    {
        assert(all.take(i + 1).drop_last() =~= all.take(i as int));
        push_part(&mut parts, path[i].as_str());
        i = i + 1;
    }
    assert(all.take(path@.len() as int + 1).drop_last() =~= all.take(path@.len() as int));
    push_part(&mut parts, name);
    assert(all.take(path@.len() as int + 1) =~= all);
    join_path(parts.as_slice())
}

/// The path of an entry as stored in the recents: its name at the root,
/// else the folder's parts and its name joined with '/'.
pub open spec fn spec_entry_path(path: Seq<Seq<char>>, name: Seq<char>) -> Seq<char> {
    if path.len() == 0 {
        name
    } else {
        join_slash(path.push(name))
    }
}

pub fn entry_path_string(path: &[String], entry: &ImageEntry) -> (r: String)
    ensures
        r@ == spec_entry_path(string_views(path@), entry.name@),
{
    if path.len() == 0 {
        return copy_str(entry.name.as_str());
    }
    let mut parts: Vec<String> = Vec::new();
    let mut i: usize = 0;
    while i < path.len()
        invariant
            i <= path@.len(),
            string_views(parts@) == string_views(path@).take(i as int),
        decreases path@.len() - i,
    {
        let ghost before = parts@;
        let piece = copy_str(path[i].as_str());
        parts.push(piece);
        assert(parts@ =~= before.push(piece));
        assert(string_views(parts@) =~= string_views(before).push(piece@));
        assert(string_views(path@).take(i + 1) =~= string_views(path@).take(i as int).push(path@[i as int]@));
        i = i + 1;
    }
    let ghost before = parts@;
    let last = copy_str(entry.name.as_str());
    parts.push(last);
    assert(parts@ =~= before.push(last));
    assert(string_views(parts@) =~= string_views(before).push(last@));
    assert(string_views(path@).take(path@.len() as int) =~= string_views(path@));
    join_path(parts.as_slice())
}

/// One FNV-1a step.
pub open spec fn fnv_step(h: u32, b: u8) -> u32 {
    ((h ^ (b as u32)) as int * 0x0100_0193int % 0x1_0000_0000int) as u32
}

/// The 32-bit FNV-1a hash of the first `n` bytes.
pub open spec fn fnv1a(bytes: Seq<u8>, n: int) -> u32
    decreases n,
{
    if n <= 0 {
        0x811c_9dc5u32
    } else {
        fnv_step(fnv1a(bytes, n - 1), bytes[n - 1])
    }
}

/// The lowercase hex digit of a nibble.
pub open spec fn hex_digit(v: u32) -> char {
    if v < 10 {
        (('0' as u32) + v) as char
    } else {
        (('a' as u32) + v - 10) as char
    }
}

/// Eight lowercase hex digits, most significant first.
pub open spec fn hex8(h: u32) -> Seq<char> {
    Seq::new(8, |i: int| hex_digit(((h >> ((28 - 4 * i) as u32)) & 0xF) as u32))
}

fn hex_char(v: u32) -> (r: char)
    requires
        v < 16,
    ensures
        r == hex_digit(v),
{
    if v < 10 {
        ((0x30u32 + v) as u8) as char
    } else {
        ((0x61u32 + v - 10) as u8) as char
    }
}

/// The FNV-1a hash of a key's UTF-8 bytes as eight lowercase hex digits.
pub fn thumb_hash_hex(key: &str) -> (r: String)
    ensures
        r@ == hex8(fnv1a(encode_utf8(key@), encode_utf8(key@).len() as int)),
{
    let bytes = key.as_bytes();
    let mut hash: u32 = 0x811c_9dc5;
    let mut i: usize = 0;
    while i < bytes.len()
        invariant
            i <= bytes@.len(),
            bytes@ == encode_utf8(key@),
            hash == fnv1a(bytes@, i as int),
        decreases bytes@.len() - i,
    {
        let x = hash ^ (bytes[i] as u32);
        hash = x.wrapping_mul(0x0100_0193);
        i = i + 1;
    }
    let mut out: Vec<char> = Vec::new();
    let mut k: u32 = 0;
    while k < 8
        invariant
            k <= 8,
            out@ == hex8(hash).take(k as int),
        decreases 8 - k,
    {
        let shift = 28 - 4 * k;
        let v = (hash >> shift) & 0xF;
        assert(v < 16) by (bit_vector)
            requires
                v == (hash >> shift) & 0xF,
        ;
        out.push(hex_char(v));
        assert(out@ =~= hex8(hash).take(k + 1));
        k = k + 1;
    }
    assert(out@ =~= hex8(hash));
    string_from_chars(out.as_slice())
}

/// A cache file name: a prefix, the first six hash digits, an extension.
pub open spec fn cache_name(prefix: Seq<char>, key: Seq<char>, ext: Seq<char>) -> Seq<char> {
    prefix + hex8(fnv1a(encode_utf8(key), encode_utf8(key).len() as int)).take(6) + ext
}

fn cache_file_name(prefix: &str, key: &str, ext: &str) -> (r: String)
    ensures
        r@ == cache_name(prefix@, key@, ext@),
{
    let hash = thumb_hash_hex(key);
    let cs = chars_of(hash.as_str());
    let short = string_from_chars(slice_subrange(cs.as_slice(), 0, 6));
    let head = concat(prefix, short.as_str());
    concat(head.as_str(), ext)
}

/// The cached thumbnail's file name for a key.
pub fn thumbnail_name(key: &str) -> (r: String)
    ensures
        r@ == cache_name("TH"@, key@, ".TRI"@),
{
    cache_file_name("TH", key, ".TRI")
}

/// The cached title's file name for a key.
pub fn thumbnail_title_name(key: &str) -> (r: String)
    ensures
        r@ == cache_name("TT"@, key@, ".TXT"@),
{
    cache_file_name("TT", key, ".TXT")
}

/// The short (8.3) name recorded for a long name, compared without ASCII
/// case.
pub open spec fn spec_lookup_short_name(names: Seq<(Seq<char>, Seq<char>)>, name: Seq<char>) -> Option<
    Seq<char>,
>
    decreases names.len(),
{
    if names.len() == 0 {
        None
    } else if eq_ci(names[0].0, name) {
        Some(names[0].1)
    } else {
        spec_lookup_short_name(names.drop_first(), name)
    }
}

pub open spec fn name_pairs(v: Seq<(String, String)>) -> Seq<(Seq<char>, Seq<char>)> {
    v.map_values(|p: (String, String)| (p.0@, p.1@))
}

pub fn lookup_short_name(names: &[(String, String)], name: &str) -> (r: Option<String>)
    ensures
        match spec_lookup_short_name(name_pairs(names@), name@) {
            Some(s) => r matches Some(x) && x@ == s,
            None => r is None,
        },
{
    let mut i: usize = 0;
    assert(name_pairs(names@).skip(0) =~= name_pairs(names@));
    while i < names.len()
        invariant
            i <= names@.len(),
            spec_lookup_short_name(name_pairs(names@), name@) == spec_lookup_short_name(
                name_pairs(names@).skip(i as int),
                name@,
            ),
        decreases names@.len() - i,
    {
        assert(name_pairs(names@).skip(i as int).drop_first() =~= name_pairs(names@).skip(i + 1));
        if eq_ignore_ascii_case(names[i].0.as_str(), name) {
            return Some(copy_str(names[i].1.as_str()));
        }
        i = i + 1;
    }
    None
}

/// One entry as a directory listing of the card gives it: its long name,
/// its short (8.3) name and whether it is a folder.
pub struct ListedEntry {
    pub name: String,
    pub short_name: String,
    pub is_dir: bool,
}

/// State and cache file names, upper-cased, that a listing never shows.
pub open spec fn reserved_name(u: Seq<char>) -> bool {
    u == "TRRESUME"@ || u == ".TRUSTY_RESUME"@ || u == "TRBOOKS"@ || u == ".TRUSTY_BOOKS"@ || u
        == "TRRECENT"@ || u == ".TRUSTY_RECENTS"@ || u == "TRCACHE"@ || u == ".TRUSTY_CACHE"@
}

/// Short names, upper-cased, that a listing never shows.
pub open spec fn reserved_short_name(u: Seq<char>) -> bool {
    u == "TRRESUME"@ || u == "TRBOOKS"@ || u == "TRRECENT"@ || u == "TRCACHE"@
}

/// Whether a listed entry is hidden: no name, a dot name (long or short),
/// or one of the reader's own files.
pub open spec fn hidden_entry(name: Seq<char>, short: Seq<char>) -> bool {
    name.len() == 0 || name[0] == '.' || (short.len() > 0 && short[0] == '.') || reserved_name(
        upper_seq(name),
    ) || reserved_short_name(upper_seq(short))
}

/// Whether a listed entry is shown: not hidden, and a folder or a file the
/// reader opens.
pub open spec fn shown_entry(e: ListedEntry) -> bool {
    !hidden_entry(e.name@, e.short_name@) && (e.is_dir || spec_is_supported(e.name@))
}

/// An entry as values: name and kind.
pub open spec fn entry_view(e: ImageEntry) -> (Seq<char>, EntryKind) {
    (e.name@, e.kind)
}

pub open spec fn entry_views(s: Seq<ImageEntry>) -> Seq<(Seq<char>, EntryKind)> {
    s.map_values(|e: ImageEntry| entry_view(e))
}

/// The shown entries of a listing of the given kind, in listing order.
pub open spec fn shown_of_kind(listing: Seq<ListedEntry>, dirs: bool) -> Seq<(Seq<char>, EntryKind)>
    decreases listing.len(),
{
    if listing.len() == 0 {
        seq![]
    } else {
        let rest = shown_of_kind(listing.drop_last(), dirs);
        let e = listing.last();
        if shown_entry(e) && e.is_dir == dirs {
            rest.push(
                (
                    e.name@,
                    if dirs {
                        EntryKind::Dir
                    } else {
                        EntryKind::File
                    },
                ),
            )
        } else {
            rest
        }
    }
}

/// The (long, short) name pairs of a listing's named entries, in order.
pub open spec fn listed_short_names(listing: Seq<ListedEntry>) -> Seq<(Seq<char>, Seq<char>)>
    decreases listing.len(),
{
    if listing.len() == 0 {
        seq![]
    } else {
        let rest = listed_short_names(listing.drop_last());
        let e = listing.last();
        if e.name@.len() > 0 {
            rest.push((e.name@, e.short_name@))
        } else {
            rest
        }
    }
}

/// Names in ascending order (equal names allowed).
pub open spec fn names_sorted(s: Seq<(Seq<char>, EntryKind)>) -> bool {
    forall|i: int, j: int| 0 <= i < j < s.len() ==> !seq_lt(#[trigger] s[j].0, #[trigger] s[i].0)
}

/// Inserts an entry after every entry whose name is not greater.
fn insert_by_name(v: &mut Vec<ImageEntry>, e: ImageEntry)
    requires
        names_sorted(entry_views(old(v)@)),
    ensures
        names_sorted(entry_views(final(v)@)),
        entry_views(final(v)@).to_multiset() == entry_views(old(v)@).to_multiset().insert(
            entry_view(e),
        ),
{
    let ghost s = entry_views(v@);
    let mut k: usize = 0;
    while k < v.len() && compare_str(v[k].name.as_str(), e.name.as_str()) <= 0
        invariant
            k <= v@.len(),
            s == entry_views(v@),
            v@ == old(v)@,
            names_sorted(s),
            forall|j: int| 0 <= j < k ==> !seq_lt(e.name@, #[trigger] s[j].0),
        decreases v@.len() - k,
    {
        k = k + 1;
    }
    let ghost ev = entry_view(e);
    proof {
        if k < s.len() {
            assert(seq_lt(e.name@, s[k as int].0));
        }
    }
    v.insert(k, e);
    proof {
        let t = entry_views(v@);
        assert(t =~= s.insert(k as int, ev));
        vstd::seq_lib::to_multiset_insert(s, k as int, ev);
        assert forall|i: int, j: int| 0 <= i < j < t.len() implies !seq_lt(#[trigger] t[j].0, #[trigger] t[i].0) by {
            if j < k {
                assert(t[i] == s[i] && t[j] == s[j]);
            } else if j == k {
                assert(t[j] == ev);
                assert(t[i] == s[i]);
            } else if i == k {
                assert(t[i] == ev);
                assert(t[j] == s[j - 1]);
                if k < s.len() {
                    if j - 1 > k {
                        assert(!seq_lt(s[j - 1].0, s[k as int].0));
                    }
                    lemma_lt_total(s[j - 1].0, s[k as int].0);
                    if seq_lt(s[j - 1].0, e.name@) {
                        if s[j - 1].0 == s[k as int].0 {
                        } else if seq_lt(s[k as int].0, s[j - 1].0) {
                            lemma_lt_transitive(s[k as int].0, s[j - 1].0, e.name@);
                            lemma_lt_transitive(e.name@, s[k as int].0, e.name@);
                            lemma_lt_irreflexive(e.name@);
                        }
                        lemma_lt_transitive(e.name@, s[k as int].0, e.name@);
                        lemma_lt_irreflexive(e.name@);
                    }
                }
            } else if i < k {
                assert(t[i] == s[i] && t[j] == s[j - 1]);
            } else {
                assert(t[i] == s[i - 1] && t[j] == s[j - 1]);
            }
        }
    }
}

/// Sorts entries by name.
fn sort_by_name(entries: Vec<ImageEntry>) -> (r: Vec<ImageEntry>)
    ensures
        names_sorted(entry_views(r@)),
        entry_views(r@).to_multiset() == entry_views(entries@).to_multiset(),
{
    let mut out: Vec<ImageEntry> = Vec::new();
    let mut rest = entries;
    let ghost orig = entry_views(rest@);
    proof {
        assert(entry_views(out@) =~= seq![]);
        vstd::seq_lib::lemma_multiset_commutative(entry_views(out@), orig);
    }
    while rest.len() > 0
        invariant
            names_sorted(entry_views(out@)),
            entry_views(out@).to_multiset().add(entry_views(rest@).to_multiset()) == orig.to_multiset(),
        decreases rest@.len(),
    {
        let ghost before_rest = entry_views(rest@);
        let e = rest.pop().unwrap();
        proof {
            assert(before_rest =~= entry_views(rest@).push(entry_view(e)));
            vstd::seq_lib::to_multiset_build(entry_views(rest@), entry_view(e));
        }
        let ghost before_out = entry_views(out@).to_multiset();
        insert_by_name(&mut out, e);
        proof {
            assert(entry_views(out@).to_multiset().add(entry_views(rest@).to_multiset())
                =~= before_out.add(before_rest.to_multiset()));
        }
    }
    proof {
        assert(entry_views(rest@).len() == 0);
        vstd::seq_lib::to_multiset_len(entry_views(rest@));
        vstd::multiset::lemma_multiset_empty_len(entry_views(rest@).to_multiset());
        assert(entry_views(rest@).to_multiset() =~= Multiset::<(Seq<char>, EntryKind)>::empty());
        assert(entry_views(out@).to_multiset().add(Multiset::<(Seq<char>, EntryKind)>::empty())
            =~= entry_views(out@).to_multiset());
    }
    out
}

/// Whether a listed entry is hidden.
fn is_hidden(name: &str, short: &str) -> (r: bool)
    ensures
        r == hidden_entry(name@, short@),
{
    let cs = chars_of(name);
    let ss = chars_of(short);
    if cs.len() == 0 || cs[0] == '.' || (ss.len() > 0 && ss[0] == '.') {
        return true;
    }
    let upper = to_ascii_uppercase(name);
    let short_upper = to_ascii_uppercase(short);
    let u = upper.as_str();
    let su = short_upper.as_str();
    str_eq(u, "TRRESUME") || str_eq(u, ".TRUSTY_RESUME") || str_eq(u, "TRBOOKS") || str_eq(
        u,
        ".TRUSTY_BOOKS",
    ) || str_eq(u, "TRRECENT") || str_eq(u, ".TRUSTY_RECENTS") || str_eq(u, "TRCACHE") || str_eq(
        u,
        ".TRUSTY_CACHE",
    ) || str_eq(su, "TRRESUME") || str_eq(su, "TRBOOKS") || str_eq(su, "TRRECENT") || str_eq(
        su,
        "TRCACHE",
    )
}

/// `v` is the shown folders of a listing in name order followed, from `n`
/// on, by its shown files in name order.
pub open spec fn sorted_split(v: Seq<ImageEntry>, listing: Seq<ListedEntry>, n: int) -> bool {
    &&& 0 <= n <= v.len()
    &&& names_sorted(entry_views(v).take(n))
    &&& names_sorted(entry_views(v).skip(n))
    &&& entry_views(v).take(n).to_multiset() == shown_of_kind(listing, true).to_multiset()
    &&& entry_views(v).skip(n).to_multiset() == shown_of_kind(listing, false).to_multiset()
}

/// The entries a folder shows, from its listing: folders first, then files,
/// each in name order; hidden entries and unsupported files left out. Also
/// the (long, short) name pairs of the listing.
pub fn refresh_entries(listing: &[ListedEntry]) -> (r: (Vec<ImageEntry>, Vec<(String, String)>))
    ensures
        name_pairs(r.1@) == listed_short_names(listing@),
        exists|n: int| #[trigger] sorted_split(r.0@, listing@, n),
{
    let mut dirs: Vec<ImageEntry> = Vec::new();
    let mut files: Vec<ImageEntry> = Vec::new();
    let mut names: Vec<(String, String)> = Vec::new();
    let mut i: usize = 0;
    while i < listing.len()
        invariant
            i <= listing@.len(),
            entry_views(dirs@) == shown_of_kind(listing@.take(i as int), true),
            entry_views(files@) == shown_of_kind(listing@.take(i as int), false),
            name_pairs(names@) == listed_short_names(listing@.take(i as int)),
        decreases listing@.len() - i,
    {
        let e = &listing[i];
        assert(listing@.take(i + 1).drop_last() =~= listing@.take(i as int));
        let named = e.name.as_str().len() > 0;
        if !e.name.as_str().is_empty() {
            let ghost before = name_pairs(names@);
            let pair = (copy_str(e.name.as_str()), copy_str(e.short_name.as_str()));
            names.push(pair);
            assert(name_pairs(names@) =~= before.push((e.name@, e.short_name@)));
        }
        let hidden = is_hidden(e.name.as_str(), e.short_name.as_str());
        if !hidden {
            if e.is_dir {
                let ghost before = entry_views(dirs@);
                let entry = ImageEntry { name: copy_str(e.name.as_str()), kind: EntryKind::Dir };
                dirs.push(entry);
                assert(entry_views(dirs@) =~= before.push((e.name@, EntryKind::Dir)));
            } else if is_supported(e.name.as_str()) {
                let ghost before = entry_views(files@);
                let entry = ImageEntry { name: copy_str(e.name.as_str()), kind: EntryKind::File };
                files.push(entry);
                assert(entry_views(files@) =~= before.push((e.name@, EntryKind::File)));
            }
        }
        i = i + 1;
    }
    assert(listing@.take(listing@.len() as int) =~= listing@);
    let sorted_dirs = sort_by_name(dirs);
    let sorted_files = sort_by_name(files);
    let n = sorted_dirs.len();
    let mut out = sorted_dirs;
    let mut tail = sorted_files;
    let ghost d = entry_views(out@);
    let ghost f = entry_views(tail@);
    out.append(&mut tail);
    proof {
        assert(entry_views(out@) =~= d + f);
        assert(entry_views(out@).take(n as int) =~= d);
        assert(entry_views(out@).skip(n as int) =~= f);
        assert(names_sorted(entry_views(out@).take(n as int)));
        assert(names_sorted(entry_views(out@).skip(n as int)));
        assert(entry_views(out@).take(n as int).to_multiset() == shown_of_kind(listing@, true).to_multiset());
        assert(entry_views(out@).skip(n as int).to_multiset() == shown_of_kind(listing@, false).to_multiset());
        assert(sorted_split(out@, listing@, n as int));
        assert(exists|m: int| #[trigger] sorted_split(out@, listing@, m));
    }
    let r = (out, names);
    assert(r.0@ == out@);
    r
}

// ---------------------------------------------------------------------------
// Text files
// ---------------------------------------------------------------------------

/// The Unicode White_Space property (what `char::is_whitespace` tests).
pub open spec fn is_white_space(c: char) -> bool {
    let v = c as u32;
    (0x09 <= v <= 0x0D) || v == 0x20 || v == 0x85 || v == 0xA0 || v == 0x1680 || (0x2000 <= v
        <= 0x200A) || v == 0x2028 || v == 0x2029 || v == 0x202F || v == 0x205F || v == 0x3000
}

pub fn is_whitespace(c: char) -> (r: bool)
    ensures
        r == is_white_space(c),
{
    let v = c as u32;
    (0x09 <= v && v <= 0x0D) || v == 0x20 || v == 0x85 || v == 0xA0 || v == 0x1680 || (0x2000 <= v
        && v <= 0x200A) || v == 0x2028 || v == 0x2029 || v == 0x202F || v == 0x205F || v == 0x3000
}

/// Index of the first character that is not whitespace (the length if none).
pub open spec fn trim_start_index(s: Seq<char>, i: int) -> int
    decreases s.len() - i,
{
    if i >= s.len() || i < 0 {
        s.len() as int
    } else if is_white_space(s[i]) {
        trim_start_index(s, i + 1)
    } else {
        i
    }
}

/// One past the last character that is not whitespace, searching below `j`.
pub open spec fn trim_end_index(s: Seq<char>, j: int) -> int
    decreases j,
{
    if j <= 0 {
        0
    } else if is_white_space(s[j - 1]) {
        trim_end_index(s, j - 1)
    } else {
        j
    }
}

/// `s` without leading and trailing whitespace (`str::trim`).
pub open spec fn trim_ws(s: Seq<char>) -> Seq<char> {
    let a = trim_start_index(s, 0);
    let b = trim_end_index(s, s.len() as int);
    if a >= b {
        seq![]
    } else {
        s.subrange(a, b)
    }
}

pub fn trim(s: &str) -> (r: String)
    ensures
        r@ == trim_ws(s@),
{
    let cs = chars_of(s);
    let mut a: usize = 0;
    while a < cs.len() && is_whitespace(cs[a])
        invariant
            a <= cs@.len(),
            cs@ == s@,
            trim_start_index(s@, 0) == trim_start_index(s@, a as int),
        decreases cs@.len() - a,
    {
        a = a + 1;
    }
    let mut b: usize = cs.len();
    while b > 0 && is_whitespace(cs[b - 1])
        invariant
            b <= cs@.len(),
            cs@ == s@,
            trim_end_index(s@, s@.len() as int) == trim_end_index(s@, b as int),
        decreases b,
    {
        b = b - 1;
    }
    if a >= b {
        assert(trim_ws(s@) =~= seq![]);
        return String::new();
    }
    string_from_chars(slice_subrange(cs.as_slice(), a, b))
}

/// The lines of a text (`str::lines`): split at each '\n', a trailing '\r'
/// removed from each line, and no empty line after a final '\n'.
pub open spec fn text_lines(s: Seq<char>) -> Seq<Seq<char>>
    decreases s.len(),
{
    if s.len() == 0 {
        seq![]
    } else {
        let k = line_end(s, 0);
        proof {
            lemma_line_end_range(s, 0);
        }
        let line = s.subrange(0, k);
        let line = if line.len() > 0 && line.last() == '\r' {
            line.drop_last()
        } else {
            line
        };
        if k >= s.len() {
            seq![line]
        } else {
            seq![line] + text_lines(s.skip(k + 1))
        }
    }
}

/// The index of the first '\n' at or after `i` (the length if none).
pub open spec fn line_end(s: Seq<char>, i: int) -> int
    decreases s.len() - i,
{
    if i >= s.len() || i < 0 {
        s.len() as int
    } else if s[i] == '\n' {
        i
    } else {
        line_end(s, i + 1)
    }
}

pub proof fn lemma_line_end_range(s: Seq<char>, i: int)
    requires
        0 <= i <= s.len(),
    ensures
        i <= line_end(s, i) <= s.len(),
        line_end(s, i) < s.len() ==> s[line_end(s, i)] == '\n',
    decreases s.len() - i,
{
    if i < s.len() && s[i] != '\n' {
        lemma_line_end_range(s, i + 1);
    }
}

/// The lines of a text.
pub fn lines(text: &str) -> (r: Vec<String>)
    ensures
        string_views(r@) == text_lines(text@),
{
    let cs = chars_of(text);
    let mut out: Vec<String> = Vec::new();
    let mut start: usize = 0;
    let ghost whole = text@;
    assert(whole.skip(0) =~= whole);
    assert(string_views(out@) =~= seq![]);
    assert(string_views(out@) + text_lines(whole) =~= text_lines(whole));
    while start < cs.len()
        invariant
            start <= cs@.len(),
            cs@ == whole,
            whole == text@,
            text_lines(whole) == string_views(out@) + text_lines(whole.skip(start as int)),
        decreases cs@.len() - start,
    {
        let ghost rest = whole.skip(start as int);
        let mut k = start;
        while k < cs.len() && cs[k] != '\n'
            invariant
                start <= k <= cs@.len(),
                cs@ == whole,
                rest == whole.skip(start as int),
                line_end(rest, 0) == line_end(rest, k - start),
            decreases cs@.len() - k,
        {
            k = k + 1;
        }
        proof {
            lemma_line_end_range(rest, 0);
        }
        let mut end = k;
        if end > start && cs[end - 1] == '\r' {
            end = end - 1;
        }
        let line = string_from_chars(slice_subrange(cs.as_slice(), start, end));
        let ghost before = string_views(out@);
        out.push(line);
        proof {
            let kk = (k - start) as int;
            let l0 = rest.subrange(0, kk);
            let l1 = if l0.len() > 0 && l0.last() == '\r' {
                l0.drop_last()
            } else {
                l0
            };
            assert(line@ =~= l1);
            assert(string_views(out@) =~= before.push(line@));
            if k >= cs.len() {
                assert(text_lines(rest) == seq![l1]);
                assert(whole.skip(cs@.len() as int) =~= seq![]);
                assert(string_views(out@) + text_lines(whole.skip(cs@.len() as int))
                    =~= before + seq![l1]);
            } else {
                assert(rest.skip(kk + 1) =~= whole.skip(k + 1));
                assert(text_lines(rest) == seq![l1] + text_lines(whole.skip(k + 1)));
                assert(before + (seq![l1] + text_lines(whole.skip(k + 1))) =~= before.push(l1)
                    + text_lines(whole.skip(k + 1)));
            }
        }
        if k >= cs.len() {
            start = cs.len();
        } else {
            start = k + 1;
        }
    }
    proof {
        assert(whole.skip(start as int) =~= seq![]);
        assert(string_views(out@) + seq![] =~= string_views(out@));
    }
    out
}

/// The value of a string of decimal digits.
pub open spec fn digits_value(s: Seq<char>) -> int
    decreases s.len(),
{
    if s.len() == 0 {
        0
    } else {
        digits_value(s.drop_last()) * 10 + ((s.last() as u32) - 0x30)
    }
}

pub open spec fn all_digits(s: Seq<char>) -> bool {
    forall|i: int| 0 <= i < s.len() ==> '0' <= #[trigger] s[i] <= '9'
}

/// What `usize::from_str` gives: an optional '+' then at least one decimal
/// digit, with a value that fits.
pub open spec fn spec_parse_usize(s: Seq<char>) -> Option<usize> {
    let d = if s.len() > 0 && s[0] == '+' {
        s.drop_first()
    } else {
        s
    };
    if d.len() > 0 && all_digits(d) && digits_value(d) <= usize::MAX {
        Some(digits_value(d) as usize)
    } else {
        None
    }
}

proof fn lemma_digits_value_nonneg(s: Seq<char>)
    requires
        all_digits(s),
    ensures
        digits_value(s) >= 0,
    decreases s.len(),
{
    if s.len() > 0 {
        lemma_digits_value_nonneg(s.drop_last());
    }
}

proof fn lemma_digits_value_mono(s: Seq<char>, k: int)
    requires
        all_digits(s),
        0 <= k <= s.len(),
    ensures
        digits_value(s.take(k)) <= digits_value(s),
    decreases s.len() - k,
{
    if k < s.len() {
        lemma_digits_value_mono(s, k + 1);
        assert(s.take(k + 1).drop_last() =~= s.take(k));
        lemma_digits_value_nonneg(s.take(k));
    } else {
        assert(s.take(k) =~= s);
    }
}

/// Parses a decimal `usize`.
pub fn parse_usize(s: &str) -> (r: Option<usize>)
    ensures
        r == spec_parse_usize(s@),
{
    let cs = chars_of(s);
    let start: usize = if cs.len() > 0 && cs[0] == '+' {
        1
    } else {
        0
    };
    let ghost d = if s@.len() > 0 && s@[0] == '+' {
        s@.drop_first()
    } else {
        s@
    };
    assert(d =~= cs@.skip(start as int));
    if start >= cs.len() {
        return None;
    }
    let mut value: usize = 0;
    let mut i = start;
    while i < cs.len()
        invariant
            start <= i <= cs@.len(),
            cs@ == s@,
            d == cs@.skip(start as int),
            d == (if s@.len() > 0 && s@[0] == '+' {
                s@.drop_first()
            } else {
                s@
            }),
            all_digits(d.take(i - start)),
            value == digits_value(d.take(i - start)),
        decreases cs@.len() - i,
    {
        let c = cs[i];
        if !('0' <= c && c <= '9') {
            assert(d[i - start] == c);
            assert(!all_digits(d));
            return None;
        }
        assert(d.take(i - start + 1).drop_last() =~= d.take(i - start));
        let digit = (c as u32 - 0x30) as usize;
        let next = match value.checked_mul(10) {
            Some(m) => m.checked_add(digit),
            None => None,
        };
        match next {
            Some(n) => {
                value = n;
            },
            None => {
                proof {
                    assert(d.take(i - start + 1).last() == c);
                    assert(digits_value(d.take(i - start + 1)) == value * 10 + digit);
                    assert(all_digits(d.take(i - start + 1)));
                    if all_digits(d) {
                        lemma_digits_value_mono(d, i - start + 1);
                    }
                }
                return None;
            },
        }
        i = i + 1;
    }
    assert(d.take(i - start) =~= d);
    Some(value)
}

/// The decimal digits of `n`.
pub open spec fn decimal(n: nat) -> Seq<char>
    decreases n,
{
    if n < 10 {
        seq![(0x30 + n) as char]
    } else {
        decimal(n / 10).push((0x30 + n % 10) as char)
    }
}

/// Formats a `usize` in decimal.
pub fn format_usize(n: usize) -> (r: String)
    ensures
        r@ == decimal(n as nat),
{
    let mut digits: Vec<char> = Vec::new();
    let mut v = n;
    let ghost mut tail: Seq<char> = seq![];
    assert(decimal(n as nat) =~= decimal(v as nat) + tail);
    assert(digits@ =~= tail.reverse());
    while v >= 10
        invariant
            decimal(n as nat) == decimal(v as nat) + tail,
            digits@ == tail.reverse(),
        decreases v,
    {
        let d = (v % 10) as u8;
        let c = (0x30u8 + d) as char;
        digits.push(c);
        proof {
            assert(decimal(v as nat) == decimal((v / 10) as nat).push(c));
            assert(decimal((v / 10) as nat).push(c) + tail =~= decimal((v / 10) as nat) + (seq![c]
                + tail));
            assert((seq![c] + tail).reverse() =~= tail.reverse().push(c));
            tail = seq![c] + tail;
        }
        v = v / 10;
    }
    let c = (0x30u8 + (v as u8)) as char;
    digits.push(c);
    proof {
        assert(decimal(v as nat) == seq![c]);
        assert((seq![c] + tail).reverse() =~= tail.reverse().push(c));
        assert(decimal(n as nat) =~= seq![c] + tail);
    }
    let mut out: Vec<char> = Vec::new();
    let mut k = digits.len();
    while k > 0
        invariant
            k <= digits@.len(),
            out@ == digits@.skip(k as int).reverse(),
        decreases k,
    {
        out.push(digits[k - 1]);
        assert(digits@.skip(k - 1).reverse() =~= digits@.skip(k as int).reverse().push(digits@[k - 1]));
        k = k - 1;
    }
    assert(digits@.skip(0) =~= digits@);
    assert(out@ =~= decimal(n as nat)) by {
        assert(digits@ == decimal(n as nat).reverse());
        assert(decimal(n as nat).reverse().reverse() =~= decimal(n as nat));
    }
    string_from_chars(out.as_slice())
}

/// The index of the first '\t' (the length if none).
pub open spec fn tab_index(s: Seq<char>, i: int) -> int
    decreases s.len() - i,
{
    if i >= s.len() || i < 0 {
        s.len() as int
    } else if s[i] == '\t' {
        i
    } else {
        tab_index(s, i + 1)
    }
}

pub proof fn lemma_tab_index_range(s: Seq<char>, i: int)
    requires
        0 <= i <= s.len(),
    ensures
        i <= tab_index(s, i) <= s.len(),
        tab_index(s, i) < s.len() ==> s[tab_index(s, i)] == '\t',
        forall|j: int| i <= j < tab_index(s, i) ==> s[j] != '\t',
    decreases s.len() - i,
{
    if i < s.len() && s[i] != '\t' {
        lemma_tab_index_range(s, i + 1);
    }
}

/// A saved reading position from one line: a name and a page separated by
/// the first tab, each trimmed; lines without a tab, with an empty name or
/// with a page that is not a number are skipped.
pub open spec fn position_of_line(line: Seq<char>) -> Option<(Seq<char>, usize)> {
    let k = tab_index(line, 0);
    if k >= line.len() {
        None
    } else {
        let name = trim_ws(line.subrange(0, k));
        let page = trim_ws(line.skip(k + 1));
        if name.len() == 0 {
            None
        } else {
            match spec_parse_usize(page) {
                Some(p) => Some((name, p)),
                None => None,
            }
        }
    }
}

/// The positions of the first `n` lines.
pub open spec fn positions_of_lines(lines: Seq<Seq<char>>) -> Seq<(Seq<char>, usize)>
    decreases lines.len(),
{
    if lines.len() == 0 {
        seq![]
    } else {
        let rest = positions_of_lines(lines.drop_last());
        match position_of_line(lines.last()) {
            Some(p) => rest.push(p),
            None => rest,
        }
    }
}

/// The reading positions a positions file holds (none when it is not
/// UTF-8).
pub open spec fn spec_parse_book_positions(data: Seq<u8>) -> Seq<(Seq<char>, usize)> {
    if valid_utf8(data) {
        positions_of_lines(text_lines(decode_utf8(data)))
    } else {
        seq![]
    }
}

/// Reads one line of the positions file.
fn parse_position_line(line: &str) -> (r: Option<(String, usize)>)
    ensures
        match position_of_line(line@) {
            Some((n, p)) => r matches Some(x) && x.0@ == n && x.1 == p,
            None => r is None,
        },
{
    let cs = chars_of(line);
    let mut k: usize = 0;
    while k < cs.len() && cs[k] != '\t'
        invariant
            k <= cs@.len(),
            cs@ == line@,
            tab_index(line@, 0) == tab_index(line@, k as int),
        decreases cs@.len() - k,
    {
        k = k + 1;
    }
    if k >= cs.len() {
        return None;
    }
    let name_raw = string_from_chars(slice_subrange(cs.as_slice(), 0, k));
    let page_raw = string_from_chars(slice_subrange(cs.as_slice(), k + 1, cs.len()));
    assert(page_raw@ =~= line@.skip(k + 1));
    let name = trim(name_raw.as_str());
    let page_str = trim(page_raw.as_str());
    if name.as_str().is_empty() {
        return None;
    }
    match parse_usize(page_str.as_str()) {
        Some(p) => Some((name, p)),
        None => None,
    }
}

/// Reads the reading positions file.
pub fn parse_book_positions(data: &[u8]) -> (r: Vec<(String, usize)>)
    ensures
        crate::app::positions::pair_views(r@) == spec_parse_book_positions(data@),
{
    let text = match utf8_string(data) {
        Some(t) => t,
        None => {
            let empty: Vec<(String, usize)> = Vec::new();
            assert(crate::app::positions::pair_views(empty@) =~= seq![]);
            return empty;
        },
    };
    proof {
        encode_utf8_decode_utf8(text@);
    }
    let ls = lines(text.as_str());
    let ghost lv = string_views(ls@);
    let mut out: Vec<(String, usize)> = Vec::new();
    let mut i: usize = 0;
    while i < ls.len()
        invariant
            i <= ls@.len(),
            lv == string_views(ls@),
            crate::app::positions::pair_views(out@) == positions_of_lines(lv.take(i as int)),
        decreases ls@.len() - i,
    {
        assert(lv.take(i + 1).drop_last() =~= lv.take(i as int));
        let ghost before = crate::app::positions::pair_views(out@);
        match parse_position_line(ls[i].as_str()) {
            Some(p) => {
                let ghost pv = (p.0@, p.1);
                out.push(p);
                assert(crate::app::positions::pair_views(out@) =~= before.push(pv));
            },
            None => {},
        }
        i = i + 1;
    }
    assert(lv.take(ls@.len() as int) =~= lv);
    out
}

/// The text of a positions file: one line per book, its name, a tab and
/// its page.
pub open spec fn positions_text(entries: Seq<(Seq<char>, usize)>) -> Seq<char>
    decreases entries.len(),
{
    if entries.len() == 0 {
        seq![]
    } else {
        positions_text(entries.drop_last()) + entries.last().0 + seq!['\t'] + decimal(
            entries.last().1 as nat,
        ) + seq!['\n']
    }
}

/// The bytes of the positions file for the given positions; nothing is
/// written when there are none.
pub fn book_positions_file(entries: &[(String, usize)]) -> (r: Option<Vec<u8>>)
    ensures
        entries@.len() == 0 ==> r is None,
        entries@.len() > 0 ==> (r matches Some(b) && b@ == encode_utf8(
            positions_text(crate::app::positions::pair_views(entries@)),
        )),
{
    if entries.len() == 0 {
        return None;
    }
    let ghost ev = crate::app::positions::pair_views(entries@);
    let mut text = String::new();
    let mut i: usize = 0;
    while i < entries.len()
        invariant
            i <= entries@.len(),
            ev == crate::app::positions::pair_views(entries@),
            text@ == positions_text(ev.take(i as int)),
        decreases entries@.len() - i,
    {
        assert(ev.take(i + 1).drop_last() =~= ev.take(i as int));
        let line = concat(entries[i].0.as_str(), "\t");
        let page = format_usize(entries[i].1);
        let line = concat(line.as_str(), page.as_str());
        let line = concat(line.as_str(), "\n");
        text = concat(text.as_str(), line.as_str());
        proof {
            reveal_strlit("\t");
            reveal_strlit("\n");
            assert(text@ =~= positions_text(ev.take(i as int)) + entries@[i as int].0@ + seq!['\t']
                + decimal(entries@[i as int].1 as nat) + seq!['\n']);
        }
        i = i + 1;
    }
    assert(ev.take(entries@.len() as int) =~= ev);
    Some(vstd::slice::slice_to_vec(crate::usb::str_bytes(text.as_str())))
}

/// The recent entries a recents file holds: each line trimmed, empty lines
/// skipped (none when it is not UTF-8).
pub open spec fn recents_of_lines(lines: Seq<Seq<char>>) -> Seq<Seq<char>>
    decreases lines.len(),
{
    if lines.len() == 0 {
        seq![]
    } else {
        let rest = recents_of_lines(lines.drop_last());
        let v = trim_ws(lines.last());
        if v.len() > 0 {
            rest.push(v)
        } else {
            rest
        }
    }
}

pub open spec fn spec_parse_recents(data: Seq<u8>) -> Seq<Seq<char>> {
    if valid_utf8(data) {
        recents_of_lines(text_lines(decode_utf8(data)))
    } else {
        seq![]
    }
}

/// Reads the recents file.
pub fn parse_recent_entries(data: &[u8]) -> (r: Vec<String>)
    ensures
        string_views(r@) == spec_parse_recents(data@),
{
    let text = match utf8_string(data) {
        Some(t) => t,
        None => {
            let empty: Vec<String> = Vec::new();
            assert(string_views(empty@) =~= seq![]);
            return empty;
        },
    };
    proof {
        encode_utf8_decode_utf8(text@);
    }
    let ls = lines(text.as_str());
    let ghost lv = string_views(ls@);
    let mut out: Vec<String> = Vec::new();
    let mut i: usize = 0;
    while i < ls.len()
        invariant
            i <= ls@.len(),
            lv == string_views(ls@),
            string_views(out@) == recents_of_lines(lv.take(i as int)),
        decreases ls@.len() - i,
    {
        assert(lv.take(i + 1).drop_last() =~= lv.take(i as int));
        let v = trim(ls[i].as_str());
        if !v.as_str().is_empty() {
            let ghost before = string_views(out@);
            out.push(v);
            assert(string_views(out@) =~= before.push(v@));
        }
        i = i + 1;
    }
    assert(lv.take(ls@.len() as int) =~= lv);
    out
}

/// The text of a recents file: one entry per line.
pub open spec fn recents_text(entries: Seq<Seq<char>>) -> Seq<char>
    decreases entries.len(),
{
    if entries.len() == 0 {
        seq![]
    } else {
        recents_text(entries.drop_last()) + entries.last() + seq!['\n']
    }
}

/// The bytes of the recents file; nothing is written when there are none.
pub fn recent_entries_file(entries: &[String]) -> (r: Option<Vec<u8>>)
    ensures
        entries@.len() == 0 ==> r is None,
        entries@.len() > 0 ==> (r matches Some(b) && b@ == encode_utf8(
            recents_text(string_views(entries@)),
        )),
{
    if entries.len() == 0 {
        return None;
    }
    let ghost ev = string_views(entries@);
    let mut text = String::new();
    let mut i: usize = 0;
    while i < entries.len()
        invariant
            i <= entries@.len(),
            ev == string_views(entries@),
            text@ == recents_text(ev.take(i as int)),
        decreases entries@.len() - i,
    {
        assert(ev.take(i + 1).drop_last() =~= ev.take(i as int));
        let line = concat(entries[i].as_str(), "\n");
        text = concat(text.as_str(), line.as_str());
        proof {
            reveal_strlit("\n");
            assert(text@ =~= recents_text(ev.take(i as int)) + entries@[i as int]@ + seq!['\n']);
        }
        i = i + 1;
    }
    assert(ev.take(entries@.len() as int) =~= ev);
    Some(vstd::slice::slice_to_vec(crate::usb::str_bytes(text.as_str())))
}

/// A short text file (the saved resume name, a cached title): its UTF-8
/// text trimmed, nothing when empty or not UTF-8.
pub open spec fn spec_parse_short_text(data: Seq<u8>) -> Option<Seq<char>> {
    if data.len() == 0 || !valid_utf8(data) {
        None
    } else {
        let t = trim_ws(decode_utf8(data));
        if t.len() == 0 {
            None
        } else {
            Some(t)
        }
    }
}

/// Reads a short text file.
pub fn parse_short_text(data: &[u8]) -> (r: Option<String>)
    ensures
        match spec_parse_short_text(data@) {
            Some(t) => r matches Some(x) && x@ == t,
            None => r is None,
        },
{
    if data.len() == 0 {
        return None;
    }
    let text = match utf8_string(data) {
        Some(t) => t,
        None => return None,
    };
    proof {
        encode_utf8_decode_utf8(text@);
    }
    let t = trim(text.as_str());
    if t.as_str().is_empty() {
        None
    } else {
        Some(t)
    }
}

// ---------------------------------------------------------------------------
// What a written file reads back as
// ---------------------------------------------------------------------------

/// Lines, each followed by '\n'.
pub open spec fn terminated(ls: Seq<Seq<char>>) -> Seq<char>
    decreases ls.len(),
{
    if ls.len() == 0 {
        seq![]
    } else {
        terminated(ls.drop_last()) + ls.last() + seq!['\n']
    }
}

proof fn lemma_terminated_front(ls: Seq<Seq<char>>)
    requires
        ls.len() > 0,
    ensures
        terminated(ls) == ls[0] + seq!['\n'] + terminated(ls.drop_first()),
    decreases ls.len(),
{
    if ls.len() == 1 {
        assert(ls.drop_last() =~= Seq::<Seq<char>>::empty());
        assert(ls.drop_first() =~= Seq::<Seq<char>>::empty());
        assert(terminated(ls.drop_last()) == Seq::<char>::empty());
        assert(ls.last() == ls[0]);
        assert(terminated(ls) =~= ls[0] + seq!['\n']);
        assert(ls[0] + seq!['\n'] + Seq::<char>::empty() =~= ls[0] + seq!['\n']);
    } else {
        lemma_terminated_front(ls.drop_last());
        assert(ls.drop_last().drop_first() =~= ls.drop_first().drop_last());
        assert(ls.drop_first().last() == ls.last());
        assert(ls.drop_last()[0] == ls[0]);
        assert(terminated(ls) =~= ls[0] + seq!['\n'] + terminated(ls.drop_first()));
    }
}

/// Whether a line holds no '\n' and does not end with '\r'.
pub open spec fn plain_line(l: Seq<char>) -> bool {
    (forall|j: int| 0 <= j < l.len() ==> #[trigger] l[j] != '\n') && !(l.len() > 0 && l.last()
        == '\r')
}

proof fn lemma_line_end_prefix(l: Seq<char>, t: Seq<char>, i: int)
    requires
        forall|j: int| 0 <= j < l.len() ==> #[trigger] l[j] != '\n',
        0 <= i <= l.len(),
    ensures
        line_end(l + seq!['\n'] + t, i) == l.len(),
    decreases l.len() - i,
{
    let s = l + seq!['\n'] + t;
    if i < l.len() {
        assert(s[i] == l[i]);
        lemma_line_end_prefix(l, t, i + 1);
    } else {
        assert(s[i] == '\n');
    }
}

proof fn lemma_lines_of_terminated(ls: Seq<Seq<char>>)
    requires
        forall|k: int| 0 <= k < ls.len() ==> plain_line(#[trigger] ls[k]),
    ensures
        text_lines(terminated(ls)) == ls,
    decreases ls.len(),
{
    if ls.len() == 0 {
    } else {
        lemma_terminated_front(ls);
        let l0 = ls[0];
        let t = terminated(ls.drop_first());
        let s = l0 + seq!['\n'] + t;
        assert(plain_line(l0));
        lemma_line_end_prefix(l0, t, 0);
        assert(s.subrange(0, l0.len() as int) =~= l0);
        assert(s.skip(l0.len() as int + 1) =~= t);
        assert forall|k: int| 0 <= k < ls.drop_first().len() implies plain_line(#[trigger] ls.drop_first()[k]) by {
            assert(ls.drop_first()[k] == ls[k + 1]);
        }
        lemma_lines_of_terminated(ls.drop_first());
        assert(text_lines(s) == seq![l0] + text_lines(t));
        assert(seq![l0] + ls.drop_first() =~= ls);
    }
}

/// Whether a string has no whitespace at either end and is not empty.
pub open spec fn trimmed_nonempty(s: Seq<char>) -> bool {
    s.len() > 0 && !is_white_space(s[0]) && !is_white_space(s.last())
}

proof fn lemma_trim_noop(s: Seq<char>)
    requires
        trimmed_nonempty(s),
    ensures
        trim_ws(s) == s,
{
    assert(trim_start_index(s, 0) == 0);
    assert(trim_end_index(s, s.len() as int) == s.len());
    assert(s.subrange(0, s.len() as int) =~= s);
}

/// A saved recents list reads back as the same list, for entries that are
/// not empty, hold no line break and have no whitespace at either end.
pub proof fn lemma_recents_roundtrip(entries: Seq<Seq<char>>)
    requires
        forall|k: int|
            0 <= k < entries.len() ==> #[trigger] trimmed_nonempty(entries[k]) && (forall|j: int|
                0 <= j < entries[k].len() ==> entries[k][j] != '\n'),
    ensures
        spec_parse_recents(encode_utf8(recents_text(entries))) == entries,
{
    let text = recents_text(entries);
    encode_utf8_valid_utf8(text);
    encode_utf8_decode_utf8(text);
    lemma_recents_text_terminated(entries);
    assert forall|k: int| 0 <= k < entries.len() implies plain_line(#[trigger] entries[k]) by {
        assert(trimmed_nonempty(entries[k]));
        assert(entries[k].last() != '\r');
    }
    lemma_lines_of_terminated(entries);
    lemma_recents_of_trimmed(entries);
}

proof fn lemma_recents_text_terminated(entries: Seq<Seq<char>>)
    ensures
        recents_text(entries) == terminated(entries),
    decreases entries.len(),
{
    if entries.len() > 0 {
        lemma_recents_text_terminated(entries.drop_last());
    }
}

proof fn lemma_recents_of_trimmed(entries: Seq<Seq<char>>)
    requires
        forall|k: int| 0 <= k < entries.len() ==> #[trigger] trimmed_nonempty(entries[k]),
    ensures
        recents_of_lines(entries) == entries,
    decreases entries.len(),
{
    if entries.len() > 0 {
        assert forall|k: int| 0 <= k < entries.drop_last().len() implies #[trigger] trimmed_nonempty(
            entries.drop_last()[k],
        ) by {
            assert(entries.drop_last()[k] == entries[k]);
        }
        lemma_recents_of_trimmed(entries.drop_last());
        assert(trimmed_nonempty(entries[entries.len() - 1]));
        lemma_trim_noop(entries.last());
        assert(entries.drop_last().push(entries.last()) =~= entries);
    }
}

proof fn lemma_decimal_digits(n: nat)
    ensures
        decimal(n).len() > 0,
        all_digits(decimal(n)),
        digits_value(decimal(n)) == n,
    decreases n,
{
    if n < 10 {
        let c = (0x30 + n) as char;
        assert(decimal(n) == seq![c]);
        assert(decimal(n).drop_last() =~= Seq::<char>::empty());
        assert(decimal(n).last() == c);
        assert((c as u32) == 0x30 + n);
        assert(digits_value(decimal(n)) == digits_value(Seq::<char>::empty()) * 10 + ((c as u32) - 0x30));
    } else {
        lemma_decimal_digits(n / 10);
        let d = decimal(n / 10);
        let c = (0x30 + n % 10) as char;
        assert(decimal(n) == d.push(c));
        assert(decimal(n).drop_last() =~= d);
        assert(decimal(n).last() == c);
        assert((c as u32) == 0x30 + n % 10);
        assert(digits_value(decimal(n)) == digits_value(d) * 10 + ((c as u32) - 0x30));
        assert((n / 10) * 10 + n % 10 == n);
        assert forall|i: int| 0 <= i < decimal(n).len() implies '0' <= #[trigger] decimal(n)[i] <= '9' by {
            if i < d.len() {
                assert(decimal(n)[i] == d[i]);
            }
        }
    }
}

proof fn lemma_parse_decimal(n: usize)
    ensures
        spec_parse_usize(decimal(n as nat)) == Some(n),
        trimmed_nonempty(decimal(n as nat)),
{
    lemma_decimal_digits(n as nat);
    let d = decimal(n as nat);
    assert('0' <= d[0] <= '9');
    assert('0' <= d.last() <= '9');
}

/// The line of a positions file for one book.
pub open spec fn position_line(e: (Seq<char>, usize)) -> Seq<char> {
    e.0 + seq!['\t'] + decimal(e.1 as nat)
}

proof fn lemma_positions_text_terminated(entries: Seq<(Seq<char>, usize)>)
    ensures
        positions_text(entries) == terminated(entries.map_values(|e: (Seq<char>, usize)| position_line(e))),
    decreases entries.len(),
{
    if entries.len() > 0 {
        lemma_positions_text_terminated(entries.drop_last());
        let m = entries.map_values(|e: (Seq<char>, usize)| position_line(e));
        assert(m.drop_last() =~= entries.drop_last().map_values(|e: (Seq<char>, usize)| position_line(e)));
        assert(positions_text(entries) =~= terminated(m));
    }
}

proof fn lemma_tab_index_prefix(name: Seq<char>, t: Seq<char>, i: int)
    requires
        forall|j: int| 0 <= j < name.len() ==> #[trigger] name[j] != '\t',
        0 <= i <= name.len(),
    ensures
        tab_index(name + seq!['\t'] + t, i) == name.len(),
    decreases name.len() - i,
{
    let s = name + seq!['\t'] + t;
    if i < name.len() {
        assert(s[i] == name[i]);
        lemma_tab_index_prefix(name, t, i + 1);
    } else {
        assert(s[i] == '\t');
    }
}

/// Whether a book name can be saved and read back unchanged: not empty, no
/// whitespace at either end, no tab and no line break.
pub open spec fn savable_name(name: Seq<char>) -> bool {
    trimmed_nonempty(name) && forall|j: int|
        0 <= j < name.len() ==> #[trigger] name[j] != '\t' && name[j] != '\n'
}

proof fn lemma_positions_of_lines(entries: Seq<(Seq<char>, usize)>)
    requires
        forall|k: int| 0 <= k < entries.len() ==> #[trigger] savable_name(entries[k].0),
    ensures
        positions_of_lines(entries.map_values(|e: (Seq<char>, usize)| position_line(e))) == entries,
    decreases entries.len(),
{
    if entries.len() > 0 {
        let m = entries.map_values(|e: (Seq<char>, usize)| position_line(e));
        assert(m.drop_last() =~= entries.drop_last().map_values(|e: (Seq<char>, usize)| position_line(e)));
        assert forall|k: int| 0 <= k < entries.drop_last().len() implies #[trigger] savable_name(
            entries.drop_last()[k].0,
        ) by {
            assert(entries.drop_last()[k] == entries[k]);
        }
        lemma_positions_of_lines(entries.drop_last());
        let e = entries.last();
        assert(savable_name(entries[entries.len() - 1].0));
        let line = position_line(e);
        lemma_tab_index_prefix(e.0, decimal(e.1 as nat), 0);
        assert(line.subrange(0, e.0.len() as int) =~= e.0);
        assert(line.skip(e.0.len() as int + 1) =~= decimal(e.1 as nat));
        lemma_trim_noop(e.0);
        lemma_parse_decimal(e.1);
        lemma_trim_noop(decimal(e.1 as nat));
        assert(position_of_line(line) == Some(e));
        assert(entries.drop_last().push(e) =~= entries);
    }
}

/// Saved reading positions read back as the same positions, for book names
/// that are not empty, have no whitespace at either end and hold no tab or
/// line break.
pub proof fn lemma_positions_roundtrip(entries: Seq<(Seq<char>, usize)>)
    requires
        forall|k: int| 0 <= k < entries.len() ==> #[trigger] savable_name(entries[k].0),
    ensures
        spec_parse_book_positions(encode_utf8(positions_text(entries))) == entries,
{
    let text = positions_text(entries);
    encode_utf8_valid_utf8(text);
    encode_utf8_decode_utf8(text);
    lemma_positions_text_terminated(entries);
    let m = entries.map_values(|e: (Seq<char>, usize)| position_line(e));
    assert forall|k: int| 0 <= k < m.len() implies plain_line(#[trigger] m[k]) by {
        let e = entries[k];
        assert(savable_name(entries[k].0));
        lemma_decimal_digits(e.1 as nat);
        let l = position_line(e);
        assert(m[k] == l);
        assert forall|j: int| 0 <= j < l.len() implies #[trigger] l[j] != '\n' by {
            if j < e.0.len() {
                assert(l[j] == e.0[j]);
            } else if j > e.0.len() {
                let d = decimal(e.1 as nat);
                assert(l[j] == d[j - e.0.len() - 1]);
                assert('0' <= d[j - e.0.len() - 1] <= '9');
            }
        }
        let d = decimal(e.1 as nat);
        assert(l.last() == d.last());
        assert('0' <= d[d.len() - 1] <= '9');
    }
    lemma_lines_of_terminated(m);
    lemma_positions_of_lines(entries);
}

// ---------------------------------------------------------------------------
// TRIM image files
// ---------------------------------------------------------------------------

/// The 16-byte TRIM header: magic, version, format, width and height
/// (16-bit), six reserved zero bytes.
pub open spec fn trim_header(version: u8, format: u8, width: u32, height: u32) -> Seq<u8> {
    seq![0x54u8, 0x52u8, 0x49u8, 0x4Du8, version, format] + spec_u16_to_le_bytes(width as u16)
        + spec_u16_to_le_bytes(height as u16) + seq![0u8, 0u8, 0u8, 0u8, 0u8, 0u8]
}

/// Bytes of one 1-bit plane.
pub open spec fn image_plane(width: u32, height: u32) -> int {
    (width * height + 7) / 8
}

/// A cached thumbnail file: a 1-bit image or a 2-bit one whose data has
/// the right length; other images are not cached.
pub open spec fn spec_serialize_thumbnail(image: ImageView) -> Option<Seq<u8>> {
    match image {
        ImageView::Mono1 { width, height, bits } => {
            if bits.len() != image_plane(width, height) {
                None
            } else {
                Some(trim_header(1, 1, width, height) + bits)
            }
        },
        ImageView::Gray2 { width, height, data } => {
            if data.len() != 3 * image_plane(width, height) {
                None
            } else {
                Some(trim_header(2, 2, width, height) + data)
            }
        },
        _ => None,
    }
}

fn plane_len_of(width: u32, height: u32) -> (r: u64)
    ensures
        r == image_plane(width, height),
{
    proof {
        assert((width as int) * (height as int) + 7 <= u64::MAX) by (nonlinear_arith)
            requires
                width <= u32::MAX,
                height <= u32::MAX,
        ;
    }
    ((width as u64) * (height as u64) + 7) / 8
}

fn push_trim_header(out: &mut Vec<u8>, version: u8, format: u8, width: u32, height: u32)
    ensures
        final(out)@ == old(out)@ + trim_header(version, format, width, height),
{
    out.push(0x54);
    out.push(0x52);
    out.push(0x49);
    out.push(0x4D);
    out.push(version);
    out.push(format);
    crate::usb::write_u16(out, width as u16);
    crate::usb::write_u16(out, height as u16);
    let mut k: usize = 0;
    while k < 6
        invariant
            k <= 6,
            out@ == old(out)@ + seq![0x54u8, 0x52u8, 0x49u8, 0x4Du8, version, format]
                + spec_u16_to_le_bytes(width as u16) + spec_u16_to_le_bytes(height as u16)
                + Seq::new(k as nat, |j: int| 0u8),
        decreases 6 - k,
    {
        out.push(0);
        assert(Seq::new((k + 1) as nat, |j: int| 0u8) =~= Seq::new(k as nat, |j: int| 0u8).push(0u8));
        k = k + 1;
    }
    assert(Seq::new(6, |j: int| 0u8) =~= seq![0u8, 0u8, 0u8, 0u8, 0u8, 0u8]);
}

/// The bytes of a cached thumbnail file.
pub fn serialize_thumbnail(image: &ImageData) -> (r: Option<Vec<u8>>)
    ensures
        match spec_serialize_thumbnail(image@) {
            Some(b) => r matches Some(x) && x@ == b,
            None => r is None,
        },
{
    match image {
        ImageData::Mono1 { width, height, bits } => {
            let plane = plane_len_of(*width, *height);
            if bits.len() as u64 != plane {
                return None;
            }
            let mut out: Vec<u8> = Vec::new();
            push_trim_header(&mut out, 1, 1, *width, *height);
            out.extend_from_slice(bits.as_slice());
            Some(out)
        },
        ImageData::Gray2 { width, height, data } => {
            let plane = plane_len_of(*width, *height);
            if (data.len() as u64) % 3 != 0 || (data.len() as u64) / 3 != plane {
                return None;
            }
            let mut out: Vec<u8> = Vec::new();
            push_trim_header(&mut out, 2, 2, *width, *height);
            out.extend_from_slice(data.as_slice());
            Some(out)
        },
        _ => None,
    }
}

/// A cached thumbnail read back from its file: a TRIM header of a 1-bit or
/// 2-bit image and that image's data; anything else is no thumbnail.
pub open spec fn spec_parse_thumbnail(d: Seq<u8>) -> Option<ImageView> {
    if d.len() < 16 || d[0] != 0x54 || d[1] != 0x52 || d[2] != 0x49 || d[3] != 0x4D {
        None
    } else {
        let width = crate::trbk_file::le16(d, 6) as u32;
        let height = crate::trbk_file::le16(d, 8) as u32;
        let plane = image_plane(width, height);
        if d[4] == 2 && d[5] == 2 {
            if d.len() < 16 + 3 * plane {
                None
            } else {
                Some(ImageView::Gray2 { width, height, data: d.subrange(16, 16 + 3 * plane) })
            }
        } else if d[4] == 1 && d[5] == 1 {
            if d.len() < 16 + plane {
                None
            } else {
                Some(ImageView::Mono1 { width, height, bits: d.subrange(16, 16 + plane) })
            }
        } else {
            None
        }
    }
}

/// Reads a cached thumbnail file.
pub fn parse_thumbnail(d: &[u8]) -> (r: Option<ImageData>)
    ensures
        match spec_parse_thumbnail(d@) {
            Some(v) => r matches Some(x) && x@ == v,
            None => r is None,
        },
{
    if d.len() < 16 || d[0] != 0x54 || d[1] != 0x52 || d[2] != 0x49 || d[3] != 0x4D {
        return None;
    }
    let width = u16_from_le_bytes(slice_subrange(d, 6, 8)) as u32;
    let height = u16_from_le_bytes(slice_subrange(d, 8, 10)) as u32;
    let plane = plane_len_of(width, height);
    let len = d.len() as u64;
    if d[4] == 2 && d[5] == 2 {
        if (len - 16) / 3 < plane {
            return None;
        }
        let p = plane as usize;
        let data = slice_to_vec(slice_subrange(d, 16, 16 + 3 * p));
        Some(ImageData::Gray2 { width, height, data })
    } else if d[4] == 1 && d[5] == 1 {
        if len - 16 < plane {
            return None;
        }
        let p = plane as usize;
        let bits = slice_to_vec(slice_subrange(d, 16, 16 + p));
        Some(ImageData::Mono1 { width, height, bits })
    } else {
        None
    }
}

/// A cached thumbnail reads back as the image that was saved, for images of
/// at most 65535 by 65535 pixels.
pub proof fn lemma_thumbnail_roundtrip(image: ImageView)
    requires
        spec_serialize_thumbnail(image) is Some,
        image_dimensions_fit(image),
    ensures
        spec_parse_thumbnail(spec_serialize_thumbnail(image)->0) == Some(image),
{
    lemma_auto_spec_u16_to_from_le_bytes();
    let b = spec_serialize_thumbnail(image)->0;
    match image {
        ImageView::Mono1 { width, height, bits } => {
            let h = trim_header(1, 1, width, height);
            assert(b.subrange(6, 8) =~= spec_u16_to_le_bytes(width as u16));
            assert(b.subrange(8, 10) =~= spec_u16_to_le_bytes(height as u16));
            assert(b.subrange(16, 16 + image_plane(width, height)) =~= bits);
        },
        ImageView::Gray2 { width, height, data } => {
            assert(b.subrange(6, 8) =~= spec_u16_to_le_bytes(width as u16));
            assert(b.subrange(8, 10) =~= spec_u16_to_le_bytes(height as u16));
            assert(b.subrange(16, 16 + 3 * image_plane(width, height)) =~= data);
        },
        _ => {},
    }
}

/// Whether an image's sides fit the 16-bit fields of a TRIM header.
pub open spec fn image_dimensions_fit(image: ImageView) -> bool {
    let (w, h) = crate::image_viewer::image_dimensions(image);
    w <= 65535 && h <= 65535
}

/// What opening an image file gives: folders and books are refused, files
/// of the wrong size too; a 1-bit TRIM image is read whole; a 2-bit one is
/// left on the card to be streamed, under its path.
pub open spec fn spec_decode_image_file(
    path: Seq<Seq<char>>,
    entry: ImageEntry,
    file_len: int,
    d: Seq<u8>,
) -> Result<ImageView, ImageError> {
    let name = entry.name@;
    if entry.kind != EntryKind::File {
        Err(ImageError::Decode)
    } else if ends_with_ci(name, ".epub"@) || ends_with_ci(name, ".epb"@) {
        Err(ImageError::Decode)
    } else if ends_with_ci(name, ".trbk"@) || ends_with_ci(name, ".tbk"@) {
        Err(ImageError::Unsupported)
    } else if file_len < 16 || file_len > 200_000 {
        Err(ImageError::Decode)
    } else if d.len() < 16 || d[0] != 0x54 || d[1] != 0x52 || d[2] != 0x49 || d[3] != 0x4D {
        Err(ImageError::Unsupported)
    } else {
        let width = crate::trbk_file::le16(d, 6) as u32;
        let height = crate::trbk_file::le16(d, 8) as u32;
        let plane = image_plane(width, height);
        if d[4] == 1 && d[5] == 1 {
            if 16 + plane != file_len || d.len() < 16 + plane {
                Err(ImageError::Decode)
            } else {
                Ok(ImageView::Mono1 { width, height, bits: d.subrange(16, 16 + plane) })
            }
        } else if d[4] == 2 && d[5] == 2 {
            if 16 + 3 * plane != file_len {
                Err(ImageError::Decode)
            } else {
                Ok(ImageView::Gray2Stream { width, height, key: spec_entry_path(path, name) })
            }
        } else {
            Err(ImageError::Unsupported)
        }
    }
}

/// The messages of the refusals that carry one.
pub open spec fn decode_image_message(entry: ImageEntry, file_len: int) -> Option<Seq<char>> {
    let name = entry.name@;
    if entry.kind != EntryKind::File {
        Some("Select a file, not a folder."@)
    } else if ends_with_ci(name, ".epub"@) || ends_with_ci(name, ".epb"@) {
        Some("EPUB files must be converted to .trbk."@)
    } else if ends_with_ci(name, ".trbk"@) || ends_with_ci(name, ".tbk"@) {
        None
    } else if file_len < 16 || file_len > 200_000 {
        Some("Image size not supported on device."@)
    } else {
        None
    }
}

/// Opens an image file from its length and the bytes read from its start.
pub fn decode_image_file(path: &[String], entry: &ImageEntry, file_len: usize, d: &[u8]) -> (r: Result<
    ImageData,
    ImageError,
>)
    ensures
        match spec_decode_image_file(string_views(path@), *entry, file_len as int, d@) {
            Ok(v) => r matches Ok(x) && x@ == v,
            Err(e) => match decode_image_message(*entry, file_len as int) {
                Some(m) => r matches Err(ImageError::Message(x)) && x@ == m,
                None => r matches Err(x) && x == e,
            },
        },
{
    if entry.kind != EntryKind::File {
        return Err(ImageError::Message(String::from_str("Select a file, not a folder.")));
    }
    let name = entry.name.as_str();
    if ends_with_ignore_case(name, ".epub") || ends_with_ignore_case(name, ".epb") {
        return Err(ImageError::Message(String::from_str("EPUB files must be converted to .trbk.")));
    }
    if ends_with_ignore_case(name, ".trbk") || ends_with_ignore_case(name, ".tbk") {
        return Err(ImageError::Unsupported);
    }
    if file_len < 16 || file_len > 200_000 {
        return Err(ImageError::Message(String::from_str("Image size not supported on device.")));
    }
    if d.len() < 16 || d[0] != 0x54 || d[1] != 0x52 || d[2] != 0x49 || d[3] != 0x4D {
        return Err(ImageError::Unsupported);
    }
    let width = u16_from_le_bytes(slice_subrange(d, 6, 8)) as u32;
    let height = u16_from_le_bytes(slice_subrange(d, 8, 10)) as u32;
    let plane = plane_len_of(width, height);
    let flen = file_len as u64;
    if d[4] == 1 && d[5] == 1 {
        if plane > 200_000 || 16 + plane != flen || (d.len() as u64) - 16 < plane {
            return Err(ImageError::Decode);
        }
        let p = plane as usize;
        let bits = slice_to_vec(slice_subrange(d, 16, 16 + p));
        Ok(ImageData::Mono1 { width, height, bits })
    } else if d[4] == 2 && d[5] == 2 {
        if plane > 200_000 || 16 + 3 * plane != flen {
            return Err(ImageError::Decode);
        }
        let key = entry_path_string(path, entry);
        Ok(ImageData::Gray2Stream { width, height, key })
    } else {
        Err(ImageError::Unsupported)
    }
}

/// A grayscale image file read whole: `len` is the file's length and `d`
/// the bytes read from it. A file shorter than its header, or whose length
/// is not the header plus the planes its size asks for, is a decode error;
/// a file that is not in the format, or of an unknown depth, unsupported. A
/// 1-bit image holds one plane, a two-bit image three.
pub open spec fn spec_read_trimg(d: Seq<u8>, len: int) -> Result<ImageView, ImageError> {
    if len < 16 || d.len() < 16 {
        Err(ImageError::Decode)
    } else if d[0] != 0x54 || d[1] != 0x52 || d[2] != 0x49 || d[3] != 0x4D {
        Err(ImageError::Unsupported)
    } else {
        let width = crate::trbk_file::le16(d, 6) as u32;
        let height = crate::trbk_file::le16(d, 8) as u32;
        let plane = image_plane(width, height);
        if d[4] == 1 && d[5] == 1 {
            if 16 + plane != len || d.len() < 16 + plane {
                Err(ImageError::Decode)
            } else {
                Ok(ImageView::Mono1 { width, height, bits: d.subrange(16, 16 + plane) })
            }
        } else if d[4] == 2 && d[5] == 2 {
            if 16 + 3 * plane != len || d.len() < 16 + 3 * plane {
                Err(ImageError::Decode)
            } else {
                Ok(ImageView::Gray2 { width, height, data: d.subrange(16, 16 + 3 * plane) })
            }
        } else {
            Err(ImageError::Unsupported)
        }
    }
}

/// An image file written by `trimg_to_bytes` reads back as the image that
/// was written: its width, its height, and its plane data (one plane for a
/// 1-bit image, three for a 2-bit one).
pub proof fn lemma_trimg_roundtrip(gray2: bool, width: u32, height: u32, data: Seq<u8>)
    requires
        width <= u16::MAX,
        height <= u16::MAX,
        data.len() == (if gray2 { 3int } else { 1int }) * image_plane(width, height),
    ensures
        ({
            let b = crate::book_build::spec_trimg_bytes(gray2, width, height, data);
            spec_read_trimg(b, b.len() as int) == if gray2 {
                Ok::<ImageView, ImageError>(ImageView::Gray2 { width, height, data })
            } else {
                Ok::<ImageView, ImageError>(ImageView::Mono1 { width, height, bits: data })
            }
        }),
{
    lemma_auto_spec_u16_to_from_le_bytes();
    let b = crate::book_build::spec_trimg_bytes(gray2, width, height, data);
    let k: u8 = if gray2 {
        2
    } else {
        1
    };
    let hdr = seq![0x54u8, 0x52u8, 0x49u8, 0x4Du8, k, k] + spec_u16_to_le_bytes(width as u16)
        + spec_u16_to_le_bytes(height as u16) + seq![0u8, 0u8, 0u8, 0u8, 0u8, 0u8];
    assert(hdr.len() == 16);
    assert(b =~= hdr + data);
    assert(b.subrange(6, 8) =~= spec_u16_to_le_bytes(width as u16));
    assert(b.subrange(8, 10) =~= spec_u16_to_le_bytes(height as u16));
    assert(crate::trbk_file::le16(b, 6) as u32 == width);
    assert(crate::trbk_file::le16(b, 8) as u32 == height);
    assert(b.subrange(16, b.len() as int) =~= data);
}

/// Reads a grayscale image file (see `spec_read_trimg`).
pub fn read_trimg(d: &[u8], len: usize) -> (r: Result<ImageData, ImageError>)
    ensures
        match spec_read_trimg(d@, len as int) {
            Ok(v) => r matches Ok(x) && x@ == v,
            Err(e) => r == Err::<ImageData, ImageError>(e),
        },
{
    if len < 16 || d.len() < 16 {
        return Err(ImageError::Decode);
    }
    if d[0] != 0x54 || d[1] != 0x52 || d[2] != 0x49 || d[3] != 0x4D {
        return Err(ImageError::Unsupported);
    }
    let width = u16_from_le_bytes(slice_subrange(d, 6, 8)) as u32;
    let height = u16_from_le_bytes(slice_subrange(d, 8, 10)) as u32;
    let plane = plane_len_of(width, height);
    proof {
        assert(plane <= 0x2000_0000) by (nonlinear_arith)
            requires
                width <= 65535,
                height <= 65535,
                plane == (width * height + 7) / 8,
        ;
    }
    let flen = len as u64;
    let dlen = d.len() as u64;
    if d[4] == 1 && d[5] == 1 {
        if 16 + plane != flen || dlen - 16 < plane {
            return Err(ImageError::Decode);
        }
        let p = plane as usize;
        let bits = slice_to_vec(slice_subrange(d, 16, 16 + p));
        Ok(ImageData::Mono1 { width, height, bits })
    } else if d[4] == 2 && d[5] == 2 {
        if 16 + 3 * plane != flen || dlen - 16 < 3 * plane {
            return Err(ImageError::Decode);
        }
        let p = plane as usize;
        let data = slice_to_vec(slice_subrange(d, 16, 16 + 3 * p));
        Ok(ImageData::Gray2 { width, height, data })
    } else {
        Err(ImageError::Unsupported)
    }
}

} // verus!
