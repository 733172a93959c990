//! Saved reading positions: book path to page, kept in ascending order of
//! the path (the order in which a `BTreeMap<String, usize>` yields them).

use vstd::prelude::*;
use crate::text::chars_of;

verus! {

/// Lexicographic order on character sequences (code-point order, the same
/// as the byte order of their UTF-8 encodings).
pub open spec fn seq_lt(a: Seq<char>, b: Seq<char>) -> bool
    decreases a.len(),
{
    if a.len() == 0 {
        b.len() > 0
    } else if b.len() == 0 {
        false
    } else if a[0] != b[0] {
        a[0] < b[0]
    } else {
        seq_lt(a.drop_first(), b.drop_first())
    }
}

/// `seq_lt` is irreflexive.
pub proof fn lemma_lt_irreflexive(a: Seq<char>)
    ensures
        !seq_lt(a, a),
    decreases a.len(),
{
    if a.len() > 0 {
        lemma_lt_irreflexive(a.drop_first());
    }
}

/// `seq_lt` is transitive.
pub proof fn lemma_lt_transitive(a: Seq<char>, b: Seq<char>, c: Seq<char>)
    requires
        seq_lt(a, b),
        seq_lt(b, c),
    ensures
        seq_lt(a, c),
    decreases a.len(),
{
    if a.len() > 0 && b.len() > 0 && c.len() > 0 && a[0] == b[0] && b[0] == c[0] {
        lemma_lt_transitive(a.drop_first(), b.drop_first(), c.drop_first());
    }
}

/// Any two different sequences are ordered one way or the other.
pub proof fn lemma_lt_total(a: Seq<char>, b: Seq<char>)
    ensures
        a == b || seq_lt(a, b) || seq_lt(b, a),
    decreases a.len(),
{
    if a.len() > 0 && b.len() > 0 && a[0] == b[0] {
        lemma_lt_total(a.drop_first(), b.drop_first());
        if a.drop_first() == b.drop_first() {
            assert(a =~= seq![a[0]] + a.drop_first());
            assert(b =~= seq![b[0]] + b.drop_first());
        }
    } else if a.len() == 0 && b.len() == 0 {
        assert(a =~= b);
    }
}

proof fn lemma_lt_asym(a: Seq<char>, b: Seq<char>)
    requires
        seq_lt(a, b),
    ensures
        !seq_lt(b, a),
        a != b,
{
    if seq_lt(b, a) {
        lemma_lt_transitive(a, b, a);
        lemma_lt_irreflexive(a);
    }
    if a == b {
        lemma_lt_irreflexive(a);
    }
}

/// Three-way comparison: negative, zero or positive as `a` sorts before,
/// equal to or after `b`.
pub fn compare_str(a: &str, b: &str) -> (r: i8)
    ensures
        (r < 0) == seq_lt(a@, b@),
        (r == 0) == (a@ == b@),
        (r > 0) == seq_lt(b@, a@),
{
    let ca = chars_of(a);
    let cb = chars_of(b);
    let mut i: usize = 0;
    while i < ca.len() && i < cb.len()
        invariant
            i <= ca@.len(),
            i <= cb@.len(),
            ca@ == a@,
            cb@ == b@,
            ca@.take(i as int) == cb@.take(i as int),
        decreases ca@.len() - i,
    {
        if ca[i] != cb[i] {
            proof {
                lemma_lt_common_prefix(a@, b@, i as int);
            }
            if ca[i] < cb[i] {
                return -1;
            } else {
                return 1;
            }
        }
        assert(ca@.take(i + 1) =~= ca@.take(i as int).push(ca@[i as int]));
        assert(cb@.take(i + 1) =~= cb@.take(i as int).push(cb@[i as int]));
        i = i + 1;
    }
    proof {
        lemma_lt_common_prefix(a@, b@, i as int);
    }
    if ca.len() < cb.len() {
        -1
    } else if ca.len() > cb.len() {
        1
    } else {
        assert(ca@ =~= ca@.take(i as int));
        assert(cb@ =~= cb@.take(i as int));
        proof {
            lemma_lt_irreflexive(a@);
        }
        0
    }
}

proof fn lemma_lt_common_prefix(a: Seq<char>, b: Seq<char>, i: int)
    requires
        0 <= i <= a.len(),
        i <= b.len(),
        a.take(i) == b.take(i),
    ensures
        seq_lt(a, b) == seq_lt(a.skip(i), b.skip(i)),
        seq_lt(b, a) == seq_lt(b.skip(i), a.skip(i)),
    decreases i,
{
    if i > 0 {
        assert(a[0] == a.take(i)[0]);
        assert(b[0] == b.take(i)[0]);
        assert(a.drop_first().take(i - 1) =~= a.take(i).drop_first());
        assert(b.drop_first().take(i - 1) =~= b.take(i).drop_first());
        lemma_lt_common_prefix(a.drop_first(), b.drop_first(), i - 1);
        assert(a.drop_first().skip(i - 1) =~= a.skip(i));
        assert(b.drop_first().skip(i - 1) =~= b.skip(i));
    } else {
        assert(a.skip(0) =~= a);
        assert(b.skip(0) =~= b);
    }
}

/// The (path, page) pairs of a list.
pub open spec fn pair_views(v: Seq<(String, usize)>) -> Seq<(Seq<char>, usize)> {
    Seq::new(v.len(), |i: int| (v[i].0@, v[i].1))
}

/// Paths strictly ascending.
pub open spec fn strictly_sorted(s: Seq<(Seq<char>, usize)>) -> bool {
    forall|i: int, j: int| 0 <= i < j < s.len() ==> seq_lt(#[trigger] s[i].0, #[trigger] s[j].0)
}

/// The page saved for `key`, if any.
pub open spec fn lookup(s: Seq<(Seq<char>, usize)>, key: Seq<char>) -> Option<usize> {
    if has_key(s, key) {
        Some(s[key_pos(s, key)].1)
    } else {
        None
    }
}

pub open spec fn has_key(s: Seq<(Seq<char>, usize)>, key: Seq<char>) -> bool {
    exists|i: int| 0 <= i < s.len() && s[i].0 == key
}

/// A position holding `key`, when there is one.
pub open spec fn key_pos(s: Seq<(Seq<char>, usize)>, key: Seq<char>) -> int {
    choose|i: int| 0 <= i < s.len() && s[i].0 == key
}

/// The sorted list with `key` set to `page`: replaced in place when present,
/// inserted in order otherwise.
pub open spec fn sorted_insert(s: Seq<(Seq<char>, usize)>, key: Seq<char>, page: usize) -> Seq<
    (Seq<char>, usize),
>
    decreases s.len(),
{
    if s.len() == 0 {
        seq![(key, page)]
    } else if s[0].0 == key {
        seq![(key, page)] + s.drop_first()
    } else if seq_lt(key, s[0].0) {
        seq![(key, page)] + s
    } else {
        seq![s[0]] + sorted_insert(s.drop_first(), key, page)
    }
}

/// Reading positions by book path, ascending by path.
pub struct BookPositions {
    entries: Vec<(String, usize)>,
}

impl BookPositions {
    /// The pairs in ascending order of path.
    pub closed spec fn ordered(&self) -> Seq<(Seq<char>, usize)> {
        pair_views(self.entries@)
    }

    pub closed spec fn wf(&self) -> bool {
        strictly_sorted(self.ordered())
    }

    /// Whether the paths are in strictly ascending order.
    pub fn check_wf(&self) -> (r: bool)
        ensures
            r == self.wf(),
    {
        let ghost s = self.ordered();
        let mut i: usize = 1;
        if self.entries.len() == 0 {
            return true;
        }
        while i < self.entries.len()
            invariant
                1 <= i <= self.entries@.len(),
                s == self.ordered(),
                s.len() == self.entries@.len(),
                forall|a: int, b: int| 0 <= a < b < i ==> seq_lt(#[trigger] s[a].0, #[trigger] s[b].0),
            decreases self.entries@.len() - i,
        {
            let c = compare_str(self.entries[i - 1].0.as_str(), self.entries[i].0.as_str());
            if c >= 0 {
                assert(!seq_lt(s[i - 1].0, s[i as int].0));
                return false;
            }
            assert forall|a: int, b: int| 0 <= a < b < i + 1 implies seq_lt(#[trigger] s[a].0, #[trigger] s[b].0) by {
                if b == i && a < i - 1 {
                    lemma_lt_transitive(s[a].0, s[i - 1].0, s[b].0);
                }
            }
            i = i + 1;
        }
        true
    }

    pub fn new() -> (r: Self)
        ensures
            r.ordered() == Seq::<(Seq<char>, usize)>::empty(),
            r.wf(),
    {
        let r = BookPositions { entries: Vec::new() };
        assert(r.ordered() =~= Seq::<(Seq<char>, usize)>::empty());
        r
    }

    pub fn len(&self) -> (r: usize)
        ensures
            r == self.ordered().len(),
    {
        self.entries.len()
    }

    /// The page saved for a path.
    pub fn get(&self, name: &str) -> (r: Option<usize>)
        requires
            self.wf(),
        ensures
            r == lookup(self.ordered(), name@),
    {
        let ghost s = self.ordered();
        let mut i: usize = 0;
        while i < self.entries.len()
            invariant
                i <= self.entries@.len(),
                s == self.ordered(),
                strictly_sorted(s),
                forall|j: int| 0 <= j < i ==> s[j].0 != name@,
            decreases self.entries@.len() - i,
        {
            if compare_str(self.entries[i].0.as_str(), name) == 0 {
                proof {
                    lemma_lookup_at(s, i as int);
                }
                return Some(self.entries[i].1);
            }
            i = i + 1;
        }
        None
    }

    /// The path and page at a position of the ascending order.
    pub fn entry_at(&self, i: usize) -> (r: (&String, usize))
        requires
            i < self.ordered().len(),
        ensures
            r.0@ == self.ordered()[i as int].0,
            r.1 == self.ordered()[i as int].1,
    {
        (&self.entries[i].0, self.entries[i].1)
    }

    /// All pairs in ascending order of path.
    pub fn to_vec(&self) -> (r: Vec<(String, usize)>)
        ensures
            pair_views(r@) == self.ordered(),
    {
        let mut out: Vec<(String, usize)> = Vec::new();
        let mut i: usize = 0;
        while i < self.entries.len()
            invariant
                i <= self.entries@.len(),
                pair_views(out@) == self.ordered().take(i as int),
            decreases self.entries@.len() - i,
        {
            let name = self.entries[i].0.clone();
            let ghost before = out@;
            out.push((name, self.entries[i].1));
            assert(out@ == before.push((name, self.entries@[i as int].1)));
            assert(pair_views(out@) =~= pair_views(before).push(self.ordered()[i as int]));
            assert(self.ordered().take(i + 1) =~= self.ordered().take(i as int).push(
                self.ordered()[i as int],
            ));
            i = i + 1;
        }
        assert(self.ordered().take(i as int) =~= self.ordered());
        out
    }

    /// Saves `page` for `name`, returning the page saved before.
    pub fn insert(&mut self, name: String, page: usize) -> (r: Option<usize>)
        requires
            old(self).wf(),
        ensures
            final(self).wf(),
            r == lookup(old(self).ordered(), name@),
            final(self).ordered() == sorted_insert(old(self).ordered(), name@, page),
    {
        let ghost s = self.ordered();
        let mut i: usize = 0;
        while i < self.entries.len()
            invariant
                i <= self.entries@.len(),
                s == self.ordered(),
                s == old(self).ordered(),
                strictly_sorted(s),
                forall|j: int| 0 <= j < i ==> seq_lt(#[trigger] s[j].0, name@),
            decreases self.entries@.len() - i,
        {
            let c = compare_str(self.entries[i].0.as_str(), name.as_str());
            assert(s[i as int].0 == self.entries@[i as int].0@);
            if c == 0 {
                let prev = self.entries[i].1;
                assert(s[i as int].0 == name@);
                assert(prev == s[i as int].1);
                proof {
                    lemma_lookup_at(s, i as int);
                    lemma_insert_at(s, name@, page, i as int);
                }
                assert(lookup(s, name@) == Some(prev));
                self.entries.set(i, (name, page));
                proof {
                    assert(self.ordered() =~= s.update(i as int, (name@, page)));
                    lemma_update_sorted(s, i as int, name@, page);
                }
                return Some(prev);
            }
            if c > 0 {
                proof {
                    lemma_lookup_absent(s, name@, i as int);
                    lemma_insert_at(s, name@, page, i as int);
                }
                self.entries.insert(i, (name, page));
                proof {
                    assert(self.ordered() =~= s.insert(i as int, (name@, page)));
                    lemma_insert_sorted(s, i as int, name@, page);
                }
                return None;
            }
            i = i + 1;
        }
        proof {
            lemma_lookup_absent(s, name@, i as int);
            lemma_insert_at(s, name@, page, i as int);
        }
        self.entries.push((name, page));
        proof {
            assert(self.ordered() =~= s.insert(i as int, (name@, page)));
            lemma_insert_sorted(s, i as int, name@, page);
        }
        None
    }

    /// Builds the map from pairs in order; a later pair for the same path
    /// replaces an earlier one.
    pub fn from_pairs(pairs: &Vec<(String, usize)>) -> (r: Self)
        ensures
            r.wf(),
            r.ordered() == insert_all(Seq::empty(), pair_views(pairs@)),
    {
        let mut m = BookPositions::new();
        let ghost views = pair_views(pairs@);
        let mut i: usize = 0;
        assert(views.skip(0) =~= views);
        while i < pairs.len()
            invariant
                i <= pairs@.len(),
                views == pair_views(pairs@),
                m.wf(),
                insert_all(Seq::empty(), views) == insert_all(m.ordered(), views.skip(i as int)),
            decreases pairs@.len() - i,
        {
            let name = pairs[i].0.clone();
            let page = pairs[i].1;
            assert(views.skip(i as int).drop_first() =~= views.skip(i + 1));
            m.insert(name, page);
            i = i + 1;
        }
        m
    }
}

/// Inserting pairs one after the other.
pub open spec fn insert_all(acc: Seq<(Seq<char>, usize)>, pairs: Seq<(Seq<char>, usize)>) -> Seq<
    (Seq<char>, usize),
>
    decreases pairs.len(),
{
    if pairs.len() == 0 {
        acc
    } else {
        insert_all(sorted_insert(acc, pairs[0].0, pairs[0].1), pairs.drop_first())
    }
}

proof fn lemma_sorted_distinct(s: Seq<(Seq<char>, usize)>, i: int, j: int)
    requires
        strictly_sorted(s),
        0 <= i < s.len(),
        0 <= j < s.len(),
        i != j,
    ensures
        s[i].0 != s[j].0,
{
    if i < j {
        lemma_lt_asym(s[i].0, s[j].0);
    } else {
        lemma_lt_asym(s[j].0, s[i].0);
    }
}

proof fn lemma_lookup_at(s: Seq<(Seq<char>, usize)>, i: int)
    requires
        strictly_sorted(s),
        0 <= i < s.len(),
    ensures
        lookup(s, s[i].0) == Some(s[i].1),
{
    let key = s[i].0;
    assert(has_key(s, key)) by {
        assert(0 <= i < s.len() && s[i].0 == key);
    }
    let k = key_pos(s, key);
    if k != i {
        lemma_sorted_distinct(s, i, k);
    }
}

proof fn lemma_lookup_absent(s: Seq<(Seq<char>, usize)>, key: Seq<char>, i: int)
    requires
        strictly_sorted(s),
        0 <= i <= s.len(),
        forall|j: int| 0 <= j < i ==> seq_lt(#[trigger] s[j].0, key),
        i == s.len() || seq_lt(key, s[i].0),
    ensures
        lookup(s, key) is None,
{
    assert forall|j: int| 0 <= j < s.len() implies s[j].0 != key by {
        if j < i {
            lemma_lt_asym(s[j].0, key);
        } else if j == i {
            lemma_lt_asym(key, s[j].0);
        } else {
            lemma_lt_transitive(key, s[i].0, s[j].0);
            lemma_lt_asym(key, s[j].0);
        }
    }
}

proof fn lemma_insert_at(s: Seq<(Seq<char>, usize)>, key: Seq<char>, page: usize, i: int)
    requires
        0 <= i <= s.len(),
        forall|j: int| 0 <= j < i ==> seq_lt(#[trigger] s[j].0, key),
        i == s.len() || s[i].0 == key || seq_lt(key, s[i].0),
    ensures
        sorted_insert(s, key, page) == if i < s.len() && s[i].0 == key {
            s.update(i, (key, page))
        } else {
            s.insert(i, (key, page))
        },
    decreases i,
{
    if i == 0 {
        if s.len() == 0 {
            assert(s.insert(0, (key, page)) =~= seq![(key, page)]);
        } else if s[0].0 == key {
            assert(s.update(0, (key, page)) =~= seq![(key, page)] + s.drop_first());
        } else {
            assert(s.insert(0, (key, page)) =~= seq![(key, page)] + s);
        }
    } else {
        lemma_lt_asym(s[0].0, key);
        assert(s[0].0 != key);
        if seq_lt(key, s[0].0) {
            lemma_lt_asym(key, s[0].0);
        }
        let t = s.drop_first();
        assert forall|j: int| 0 <= j < i - 1 implies seq_lt(#[trigger] t[j].0, key) by {
            assert(t[j] == s[j + 1]);
        }
        lemma_insert_at(t, key, page, i - 1);
        if i < s.len() && s[i].0 == key {
            assert(seq![s[0]] + t.update(i - 1, (key, page)) =~= s.update(i, (key, page)));
        } else {
            assert(seq![s[0]] + t.insert(i - 1, (key, page)) =~= s.insert(i, (key, page)));
        }
    }
}

proof fn lemma_update_sorted(s: Seq<(Seq<char>, usize)>, i: int, key: Seq<char>, page: usize)
    requires
        strictly_sorted(s),
        0 <= i < s.len(),
        s[i].0 == key,
    ensures
        strictly_sorted(s.update(i, (key, page))),
{
    let t = s.update(i, (key, page));
    assert forall|a: int, b: int| 0 <= a < b < t.len() implies seq_lt(
        #[trigger] t[a].0,
        #[trigger] t[b].0,
    ) by {
        assert(t[a].0 == s[a].0);
        assert(t[b].0 == s[b].0);
    }
}

proof fn lemma_insert_sorted(s: Seq<(Seq<char>, usize)>, i: int, key: Seq<char>, page: usize)
    requires
        strictly_sorted(s),
        0 <= i <= s.len(),
        forall|j: int| 0 <= j < i ==> seq_lt(#[trigger] s[j].0, key),
        i == s.len() || seq_lt(key, s[i].0),
    ensures
        strictly_sorted(s.insert(i, (key, page))),
{
    let t = s.insert(i, (key, page));
    assert forall|a: int, b: int| 0 <= a < b < t.len() implies seq_lt(
        #[trigger] t[a].0,
        #[trigger] t[b].0,
    ) by {
        if b < i {
            assert(t[a] == s[a] && t[b] == s[b]);
        } else if b == i {
            assert(t[a] == s[a]);
        } else if a == i {
            assert(t[b] == s[b - 1]);
            if b - 1 > i {
                lemma_lt_transitive(key, s[i].0, s[b - 1].0);
            }
        } else if a < i {
            assert(t[a] == s[a] && t[b] == s[b - 1]);
            lemma_lt_transitive(s[a].0, key, s[i].0);
            if b - 1 > i {
                lemma_lt_transitive(s[a].0, s[i].0, s[b - 1].0);
            }
        } else {
            assert(t[a] == s[a - 1] && t[b] == s[b - 1]);
        }
    }
}

/// After saving a page for a path, looking the path up gives that page.
pub proof fn lemma_get_after_insert(s: Seq<(Seq<char>, usize)>, key: Seq<char>, page: usize)
    requires
        strictly_sorted(s),
        strictly_sorted(sorted_insert(s, key, page)),
    ensures
        lookup(sorted_insert(s, key, page), key) == Some(page),
    decreases s.len(),
{
    let t = sorted_insert(s, key, page);
    if s.len() == 0 || s[0].0 == key || seq_lt(key, s[0].0) {
        assert(t[0] == (key, page));
        lemma_lookup_at(t, 0);
    } else {
        let u = sorted_insert(s.drop_first(), key, page);
        assert(t =~= seq![s[0]] + u);
        assert forall|a: int, b: int| 0 <= a < b < u.len() implies seq_lt(
            #[trigger] u[a].0,
            #[trigger] u[b].0,
        ) by {
            assert(u[a] == t[a + 1] && u[b] == t[b + 1]);
        }
        assert forall|a: int, b: int| 0 <= a < b < s.drop_first().len() implies seq_lt(
            #[trigger] s.drop_first()[a].0,
            #[trigger] s.drop_first()[b].0,
        ) by {
            assert(s.drop_first()[a] == s[a + 1] && s.drop_first()[b] == s[b + 1]);
        }
        lemma_get_after_insert(s.drop_first(), key, page);
        let k = key_pos(u, key);
        assert(t[k + 1] == u[k]);
        lemma_lookup_at(t, k + 1);
        lemma_lookup_at(u, k);
    }
}

} // verus!
