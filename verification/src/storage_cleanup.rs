//! What deleting a file over USB asks of the reader's stored state: the
//! resume entry, the recent list and the reading positions forget the file,
//! and its cached thumbnail and title are removed.

use vstd::prelude::*;
use crate::book_build::trim_leading_slashes;
use crate::sd::{cache_name, join_usb_path, spec_join_usb_path, thumbnail_name, thumbnail_title_name};
use crate::text::{chars_of, concat, eq_ci, eq_ignore_ascii_case, str_eq, string_from_chars, string_views};

verus! {

/// Directory of the thumbnail cache, and its former name, each with the
/// separator that follows it.
pub open spec fn cache_dirs() -> (Seq<char>, Seq<char>) {
    ("TRCACHE/"@, ".trusty_cache/"@)
}

proof fn lemma_trim_skip(s: Seq<char>, k: int)
    requires
        0 <= k <= s.len(),
        forall|j: int| 0 <= j < k ==> s[j] == '/',
        k == s.len() || s[k] != '/',
    ensures
        trim_leading_slashes(s) == s.skip(k),
    decreases k,
{
    if k == 0 {
        assert(s.skip(0) =~= s);
    } else {
        lemma_trim_skip(s.drop_first(), k - 1);
        assert(s.drop_first().skip(k - 1) =~= s.skip(k));
    }
}

/// A deleted path as it is matched against stored entries: without its
/// leading '/' characters.
pub fn normalize_deleted_path(path: &str) -> (r: String)
    ensures
        r@ == trim_leading_slashes(path@),
{
    let cs = chars_of(path);
    let mut k: usize = 0;
    while k < cs.len() && cs[k] == '/'
        invariant
            k <= cs@.len(),
            cs@ == path@,
            forall|j: int| 0 <= j < k ==> cs@[j] == '/',
        decreases cs@.len() - k,
    {
        k = k + 1;
    }
    proof {
        lemma_trim_skip(path@, k as int);
    }
    let rest = vstd::slice::slice_subrange(cs.as_slice(), k, cs.len());
    assert(rest@ =~= path@.skip(k as int));
    string_from_chars(rest)
}

/// Whether a stored entry names the deleted `target`, with or without
/// leading '/' characters and without regard to ASCII case.
pub open spec fn spec_path_matches(entry: Seq<char>, target: Seq<char>) -> bool {
    eq_ci(entry, target) || eq_ci(trim_leading_slashes(entry), target)
}

pub fn path_matches(entry: &str, target: &str) -> (r: bool)
    ensures
        r == spec_path_matches(entry@, target@),
{
    if eq_ignore_ascii_case(entry, target) {
        return true;
    }
    let trimmed = normalize_deleted_path(entry);
    eq_ignore_ascii_case(trimmed.as_str(), target)
}

/// The entries of `s` that do not name `target`, in order.
pub open spec fn unmatched(s: Seq<Seq<char>>, target: Seq<char>) -> Seq<Seq<char>>
    decreases s.len(),
{
    if s.len() == 0 {
        seq![]
    } else if spec_path_matches(s.last(), target) {
        unmatched(s.drop_last(), target)
    } else {
        unmatched(s.drop_last(), target).push(s.last())
    }
}

/// The reading positions of `s` whose name does not name `target`, in
/// order.
pub open spec fn unmatched_positions(s: Seq<(Seq<char>, usize)>, target: Seq<char>) -> Seq<(Seq<char>, usize)>
    decreases s.len(),
{
    if s.len() == 0 {
        seq![]
    } else if spec_path_matches(s.last().0, target) {
        unmatched_positions(s.drop_last(), target)
    } else {
        unmatched_positions(s.drop_last(), target).push(s.last())
    }
}

pub open spec fn position_views(v: Seq<(String, usize)>) -> Seq<(Seq<char>, usize)> {
    Seq::new(v.len(), |i: int| (v[i].0@, v[i].1))
}

/// The stored state to write back after a file was deleted.
pub struct DeletedPathCleanup {
    /// The resume entry named the file and is to be cleared.
    pub clear_resume: bool,
    /// The recent list without the file, when it held it.
    pub recents: Option<Vec<String>>,
    /// The reading positions without the file, when they held it.
    pub positions: Option<Vec<(String, usize)>>,
    /// Cache files to delete: the thumbnail and the title, in the cache
    /// directory and in its former one.
    pub cache_files: Vec<String>,
}

/// Decides what forgetting the deleted `path` changes in the stored state
/// (the resume entry, the recent list, the reading positions, each given
/// as read) and which cache files go; nothing for a path that is only
/// slashes.
pub fn cleanup_deleted_path(
    path: &str,
    resume: Option<&String>,
    recents: &[String],
    positions: &[(String, usize)],
) -> (r: Option<DeletedPathCleanup>)
    ensures
        trim_leading_slashes(path@).len() == 0 <==> r is None,
        r matches Some(c) ==> {
            let t = trim_leading_slashes(path@);
            let kept = unmatched(string_views(recents@), t);
            let kept_positions = unmatched_positions(position_views(positions@), t);
            let (dir, legacy) = cache_dirs();
            let thumb = cache_name("TH"@, t, ".TRI"@);
            let title = cache_name("TT"@, t, ".TXT"@);
            &&& c.clear_resume == (resume matches Some(s) && spec_path_matches(s@, t))
            &&& if kept.len() != recents@.len() {
                c.recents matches Some(v) && string_views(v@) == kept
            } else {
                c.recents is None
            }
            &&& if kept_positions.len() != positions@.len() {
                c.positions matches Some(v) && position_views(v@) == kept_positions
            } else {
                c.positions is None
            }
            &&& string_views(c.cache_files@) == seq![dir + thumb, dir + title, legacy + thumb, legacy + title]
        },
{
    proof {
        reveal_strlit("TRCACHE/");
        reveal_strlit(".trusty_cache/");
    }
    let target = normalize_deleted_path(path);
    if chars_of(target.as_str()).len() == 0 {
        return None;
    }
    let clear_resume = match resume {
        Some(s) => path_matches(s.as_str(), target.as_str()),
        None => false,
    };
    let mut kept: Vec<String> = Vec::new();
    let mut i: usize = 0;
    while i < recents.len()
        invariant
            i <= recents@.len(),
            target@ == trim_leading_slashes(path@),
            string_views(kept@) == unmatched(string_views(recents@).take(i as int), target@),
        decreases recents@.len() - i,
    {
        let ghost before = string_views(recents@).take(i as int);
        assert(string_views(recents@).take(i + 1).drop_last() =~= before);
        if !path_matches(recents[i].as_str(), target.as_str()) {
            kept.push(recents[i].clone());
            assert(string_views(kept@) =~= unmatched(before, target@).push(recents@[i as int]@));
        }
        i = i + 1;
    }
    assert(string_views(recents@).take(i as int) =~= string_views(recents@));
    let mut kept_positions: Vec<(String, usize)> = Vec::new();
    let mut j: usize = 0;
    while j < positions.len()
        invariant
            j <= positions@.len(),
            target@ == trim_leading_slashes(path@),
            position_views(kept_positions@) == unmatched_positions(
                position_views(positions@).take(j as int),
                target@,
            ),
        decreases positions@.len() - j,
    {
        let ghost before = position_views(positions@).take(j as int);
        assert(position_views(positions@).take(j + 1).drop_last() =~= before);
        let (name, page) = &positions[j];
        if !path_matches(name.as_str(), target.as_str()) {
            kept_positions.push((name.clone(), *page));
            assert(position_views(kept_positions@) =~= unmatched_positions(before, target@).push(
                (positions@[j as int].0@, positions@[j as int].1),
            ));
        }
        j = j + 1;
    }
    assert(position_views(positions@).take(j as int) =~= position_views(positions@));
    proof {
        lemma_unmatched_len(string_views(recents@), target@);
        lemma_unmatched_positions_len(position_views(positions@), target@);
    }
    let recents_out = if kept.len() != recents.len() {
        Some(kept)
    } else {
        None
    };
    let positions_out = if kept_positions.len() != positions.len() {
        Some(kept_positions)
    } else {
        None
    };
    let thumb = thumbnail_name(target.as_str());
    let title = thumbnail_title_name(target.as_str());
    let mut cache_files: Vec<String> = Vec::new();
    cache_files.push(concat("TRCACHE/", thumb.as_str()));
    cache_files.push(concat("TRCACHE/", title.as_str()));
    cache_files.push(concat(".trusty_cache/", thumb.as_str()));
    cache_files.push(concat(".trusty_cache/", title.as_str()));
    let ghost (dir, legacy) = cache_dirs();
    assert(string_views(cache_files@) =~= seq![dir + thumb@, dir + title@, legacy + thumb@, legacy + title@]);
    Some(DeletedPathCleanup { clear_resume, recents: recents_out, positions: positions_out, cache_files })
}

proof fn lemma_unmatched_len(s: Seq<Seq<char>>, t: Seq<char>)
    ensures
        unmatched(s, t).len() <= s.len(),
    decreases s.len(),
{
    if s.len() > 0 {
        lemma_unmatched_len(s.drop_last(), t);
    }
}

proof fn lemma_unmatched_positions_len(s: Seq<(Seq<char>, usize)>, t: Seq<char>)
    ensures
        unmatched_positions(s, t).len() <= s.len(),
    decreases s.len(),
{
    if s.len() > 0 {
        lemma_unmatched_positions_len(s.drop_last(), t);
    }
}

/// A directory listing's entries as (name, is a directory).
pub open spec fn listing_views(v: Seq<(String, bool)>) -> Seq<(Seq<char>, bool)> {
    Seq::new(v.len(), |i: int| (v[i].0@, v[i].1))
}

/// What a recursive delete of `dir` visits for its listing `listed`: each
/// entry but "." and "..", by its full path, in listing order.
pub open spec fn dir_children_spec(dir: Seq<char>, listed: Seq<(Seq<char>, bool)>) -> Seq<(Seq<char>, bool)>
    decreases listed.len(),
{
    if listed.len() == 0 {
        seq![]
    } else {
        let rest = dir_children_spec(dir, listed.drop_last());
        let (name, is_dir) = listed.last();
        if name == "."@ || name == ".."@ {
            rest
        } else {
            rest.push((spec_join_usb_path(dir, name), is_dir))
        }
    }
}

/// The entries of a directory listing that a recursive delete visits,
/// with their full paths.
pub fn dir_children(dir: &str, listed: &[(String, bool)]) -> (r: Vec<(String, bool)>)
    ensures
        listing_views(r@) == dir_children_spec(dir@, listing_views(listed@)),
{
    proof {
        reveal_strlit(".");
        reveal_strlit("..");
    }
    let mut out: Vec<(String, bool)> = Vec::new();
    let mut i: usize = 0;
    while i < listed.len()
        invariant
            i <= listed@.len(),
            listing_views(out@) == dir_children_spec(dir@, listing_views(listed@).take(i as int)),
        decreases listed@.len() - i,
    {
        proof {
            reveal_strlit(".");
            reveal_strlit("..");
        }
        let ghost before = listing_views(listed@).take(i as int);
        assert(listing_views(listed@).take(i + 1).drop_last() =~= before);
        let (name, is_dir) = &listed[i];
        if !str_eq(name.as_str(), ".") && !str_eq(name.as_str(), "..") {
            let full = join_usb_path(dir, name.as_str());
            out.push((full, *is_dir));
            assert(listing_views(out@) =~= dir_children_spec(dir@, before).push(
                (spec_join_usb_path(dir@, name@), *is_dir),
            ));
        }
        i = i + 1;
    }
    assert(listing_views(listed@).take(i as int) =~= listing_views(listed@));
    out
}

} // verus!
