//! Bundle identifiers of the applications that handle a URL scheme or a
//! content type, and the sorted listing of the browser candidates.

use vstd::prelude::*;
use crate::order::{str_lt, string_less, lemma_str_lt_total, lemma_str_lt_transitive, lemma_str_lt_irreflexive};

verus! {

/// The texts of a sequence of strings.
pub open spec fn views(v: Seq<String>) -> Seq<Seq<char>> {
    v.map_values(|s: String| s@)
}

/// Every element is strictly below every later one (so none occurs twice).
pub open spec fn strictly_sorted(s: Seq<Seq<char>>) -> bool {
    forall|i: int, j: int| 0 <= i < j < s.len() ==> str_lt(#[trigger] s[i], #[trigger] s[j])
}

/// The set of bundle identifiers that a LaunchServices query reported:
/// none when the query gave no list at all, else every identifier in it.
pub open spec fn handler_set(handlers: Option<Seq<String>>) -> Set<Seq<char>> {
    match handlers {
        None => Set::empty(),
        Some(h) => views(h).to_set(),
    }
}

/// A set of bundle identifiers, kept as a list in which nothing occurs twice.
pub struct BundleIdSet {
    ids: Vec<String>,
}

impl View for BundleIdSet {
    type V = Set<Seq<char>>;

    closed spec fn view(&self) -> Set<Seq<char>> {
        views(self.ids@).to_set()
    }
}

impl BundleIdSet {
    #[verifier::type_invariant]
    closed spec fn no_repeats(self) -> bool {
        views(self.ids@).no_duplicates()
    }

    /// The empty set.
    pub fn new() -> (r: BundleIdSet)
        ensures
            r@ == Set::<Seq<char>>::empty(),
    {
        let r = BundleIdSet { ids: Vec::new() };
        assert(views(r.ids@).to_set() =~= Set::<Seq<char>>::empty());
        r
    }

    /// Position of `id` in the list, if it is there.
    fn position(&self, id: &String) -> (r: Option<usize>)
        ensures
            match r {
                Some(k) => k < self.ids@.len() && self.ids@[k as int]@ == id@,
                None => !views(self.ids@).contains(id@),
            },
    {
        let mut i: usize = 0;
        while i < self.ids.len()
            invariant
                i <= self.ids@.len(),
                forall|k: int| 0 <= k < i ==> self.ids@[k]@ != id@,
            decreases self.ids@.len() - i,
        {
            if self.ids[i] == *id {
                return Some(i);
            }
            i = i + 1;
        }
        proof {
            if views(self.ids@).contains(id@) {
                let k = choose|k: int| 0 <= k < views(self.ids@).len() && views(self.ids@)[k] == id@;
                assert(self.ids@[k]@ == id@);
            }
        }
        None
    }

    /// Whether `id` is in the set.
    pub fn contains(&self, id: &str) -> (r: bool)
        ensures
            r == self@.contains(id@),
    {
        let owned = id.to_owned();
        let found = self.position(&owned);
        proof {
            if let Some(k) = found {
                assert(views(self.ids@)[k as int] == id@);
            }
        }
        found.is_some()
    }

    /// Adds `id` to the set.
    pub fn insert(&mut self, id: String)
        ensures
            final(self)@ == old(self)@.insert(id@),
    {
        proof {
            use_type_invariant(&*self);
        }
        let found = self.position(&id);
        if found.is_none() {
            let ghost before = views(self.ids@);
            let mut ids: Vec<String> = Vec::new();
            std::mem::swap(&mut ids, &mut self.ids);
            let ghost new_id = id@;
            ids.push(id);
            proof {
                assert(views(ids@) =~= before.push(new_id));
                assert forall|a: int, b: int|
                    0 <= a < views(ids@).len() && 0 <= b < views(ids@).len() && a != b implies
                    views(ids@)[a] != views(ids@)[b] by {
                    if a == before.len() {
                        assert(before[b] == views(ids@)[b]);
                    } else if b == before.len() {
                        assert(before[a] == views(ids@)[a]);
                    }
                }
                before.lemma_push_to_set_commute(new_id);
            }
            self.ids = ids;
        } else {
            proof {
                let k = found.unwrap();
                assert(views(self.ids@)[k as int] == id@);
                assert(views(self.ids@).to_set() =~= views(self.ids@).to_set().insert(id@));
            }
        }
    }

    /// Number of identifiers in the set.
    pub fn len(&self) -> (r: usize)
        ensures
            r == self@.len(),
    {
        proof {
            use_type_invariant(self);
            views(self.ids@).unique_seq_to_set();
        }
        self.ids.len()
    }
}

/// The set of the identifiers in `handlers`.
fn set_of_handlers(handlers: Option<Vec<String>>) -> (r: BundleIdSet)
    ensures
        r@ == handler_set(match handlers { None => None, Some(h) => Some(h@) }),
        handlers is None ==> r@ == Set::<Seq<char>>::empty(),
        forall|i: int|
            #![trigger handlers->0@[i]]
            handlers is Some && 0 <= i < handlers->0@.len() ==> r@.contains(handlers->0@[i]@),
        forall|x: Seq<char>|
            #[trigger] r@.contains(x) ==> handlers is Some && exists|i: int|
                0 <= i < handlers->0@.len() && handlers->0@[i]@ == x,
{
    let mut set = BundleIdSet::new();
    match handlers {
        None => {},
        Some(h) => {
            let mut i: usize = 0;
            while i < h.len()
                invariant
                    i <= h@.len(),
                    set@ == views(h@.subrange(0, i as int)).to_set(),
                decreases h@.len() - i,
            {
                set.insert(h[i].clone());
                proof {
                    assert(views(h@.subrange(0, i + 1)) =~= views(h@.subrange(0, i as int)).push(h@[i as int]@));
                    views(h@.subrange(0, i as int)).lemma_push_to_set_commute(h@[i as int]@);
                }
                i = i + 1;
            }
            assert(h@.subrange(0, h@.len() as int) =~= h@);
            proof {
                lemma_handler_set_members(h@);
            }
        },
    }
    set
}

/// A handler set holds every handler of the list and nothing else.
pub proof fn lemma_handler_set_members(h: Seq<String>)
    ensures
        forall|i: int| 0 <= i < h.len() ==> handler_set(Some(h)).contains(#[trigger] h[i]@),
        forall|x: Seq<char>|
            #[trigger] handler_set(Some(h)).contains(x) ==> exists|i: int|
                0 <= i < h.len() && h[i]@ == x,
        handler_set(None) == Set::<Seq<char>>::empty(),
{
    assert forall|i: int| 0 <= i < h.len() implies handler_set(Some(h)).contains(#[trigger] h[i]@) by {
        assert(views(h)[i] == h[i]@);
    }
    assert forall|x: Seq<char>| #[trigger] handler_set(Some(h)).contains(x) implies exists|i: int|
        0 <= i < h.len() && h[i]@ == x by {
        let i = choose|i: int| 0 <= i < views(h).len() && views(h)[i] == x;
        assert(h[i]@ == x);
    }
}

/// The bundle identifiers of the applications that declare a URL scheme,
/// given what the LaunchServices query for that scheme returned (`None` when
/// it returned no list).
pub fn get_bundle_ids_for_url_scheme(handlers: Option<Vec<String>>) -> (r: BundleIdSet)
    ensures
        r@ == handler_set(match handlers { None => None, Some(h) => Some(h@) }),
        handlers is None ==> r@ == Set::<Seq<char>>::empty(),
        forall|i: int|
            #![trigger handlers->0@[i]]
            handlers is Some && 0 <= i < handlers->0@.len() ==> r@.contains(handlers->0@[i]@),
        forall|x: Seq<char>|
            #[trigger] r@.contains(x) ==> handlers is Some && exists|i: int|
                0 <= i < handlers->0@.len() && handlers->0@[i]@ == x,
{
    set_of_handlers(handlers)
}

/// The bundle identifiers of the applications that handle a content type,
/// given what the LaunchServices query for it returned (`None` when it
/// returned no list).
pub fn bundle_ids_for_content_type(handlers: Option<Vec<String>>) -> (r: BundleIdSet)
    ensures
        r@ == handler_set(match handlers { None => None, Some(h) => Some(h@) }),
        handlers is None ==> r@ == Set::<Seq<char>>::empty(),
        forall|i: int|
            #![trigger handlers->0@[i]]
            handlers is Some && 0 <= i < handlers->0@.len() ==> r@.contains(handlers->0@[i]@),
        forall|x: Seq<char>|
            #[trigger] r@.contains(x) ==> handlers is Some && exists|i: int|
                0 <= i < handlers->0@.len() && handlers->0@[i]@ == x,
{
    set_of_handlers(handlers)
}


/// The texts of a list of strings are the strings' texts, one for one.
pub proof fn lemma_views_index(v: Seq<String>)
    ensures
        views(v).len() == v.len(),
        forall|i: int| 0 <= i < v.len() ==> #[trigger] views(v)[i] == v[i]@,
{
}

/// A list is strictly sorted exactly when each element is below the next.
pub proof fn lemma_strictly_sorted_adjacent(s: Seq<Seq<char>>)
    ensures
        strictly_sorted(s) <==> forall|i: int|
            0 <= i < s.len() - 1 ==> str_lt(#[trigger] s[i], s[i + 1]),
{
    if forall|i: int| 0 <= i < s.len() - 1 ==> str_lt(#[trigger] s[i], s[i + 1]) {
        assert forall|i: int, j: int| 0 <= i < j < s.len() implies str_lt(#[trigger] s[i], #[trigger] s[j]) by {
            lemma_sorted_step(s, i, j);
        }
    }
    if strictly_sorted(s) {
        assert forall|i: int| 0 <= i < s.len() - 1 implies str_lt(#[trigger] s[i], s[i + 1]) by {
            assert(str_lt(s[i], s[i + 1]));
        }
    }
}

/// Chaining the steps from `i` up to `j`.
proof fn lemma_sorted_step(s: Seq<Seq<char>>, i: int, j: int)
    requires
        0 <= i < j < s.len(),
        forall|k: int| 0 <= k < s.len() - 1 ==> str_lt(#[trigger] s[k], s[k + 1]),
    ensures
        str_lt(s[i], s[j]),
    decreases j - i,
{
    assert(str_lt(s[i], s[i + 1]));
    if i + 1 < j {
        lemma_sorted_step(s, i + 1, j);
        lemma_str_lt_transitive(s[i], s[i + 1], s[j]);
    }
}

/// Puts `x` into the strictly sorted list `r`, at the place that keeps it
/// strictly sorted.
fn insert_sorted(r: &mut Vec<String>, x: String)
    requires
        strictly_sorted(views(old(r)@)),
        !views(old(r)@).contains(x@),
    ensures
        strictly_sorted(views(final(r)@)),
        views(final(r)@).to_set() == views(old(r)@).to_set().insert(x@),
        final(r)@.len() == old(r)@.len() + 1,
{
    let ghost v = views(r@);
    let mut k: usize = 0;
    let mut found = false;
    while k < r.len() && !found
        invariant
            r@ == old(r)@,
            v == views(r@),
            strictly_sorted(v),
            !v.contains(x@),
            k <= r@.len(),
            found ==> k < r@.len() && str_lt(x@, v[k as int]),
            forall|m: int| 0 <= m < k ==> str_lt(#[trigger] v[m], x@),
        decreases r@.len() - k + (if found { 0int } else { 1int }),
    {
        if string_less(&x, &r[k]) {
            found = true;
        } else {
            proof {
                assert(v[k as int] == r@[k as int]@);
                assert(v.contains(v[k as int]));
                lemma_str_lt_total(x@, v[k as int]);
            }
            k = k + 1;
        }
    }
    let ghost xv = x@;
    r.insert(k, x);
    proof {
        let w = views(r@);
        assert(w =~= v.insert(k as int, xv));
        assert forall|i: int, j: int| 0 <= i < j < w.len() implies str_lt(#[trigger] w[i], #[trigger] w[j]) by {
            if j < k {
                assert(w[i] == v[i] && w[j] == v[j]);
            } else if j == k {
                assert(w[i] == v[i]);
            } else if i == k {
                assert(w[j] == v[j - 1]);
                if j - 1 > k {
                    assert(str_lt(v[k as int], v[j - 1]));
                    lemma_str_lt_transitive(xv, v[k as int], v[j - 1]);
                }
            } else if i < k {
                assert(w[i] == v[i] && w[j] == v[j - 1]);
            } else {
                assert(w[i] == v[i - 1] && w[j] == v[j - 1]);
            }
        }
        assert(w =~= v.subrange(0, k as int).push(xv) + v.subrange(k as int, v.len() as int));
        assert(w.to_set() =~= v.to_set().insert(xv)) by {
            assert forall|e: Seq<char>| w.to_set().contains(e) <==> v.to_set().insert(xv).contains(e) by {
                if w.contains(e) {
                    let i = choose|i: int| 0 <= i < w.len() && w[i] == e;
                    if i < k {
                        assert(v[i] == e);
                    } else if i > k {
                        assert(v[i - 1] == e);
                    }
                }
                if v.contains(e) {
                    let i = choose|i: int| 0 <= i < v.len() && v[i] == e;
                    if i < k {
                        assert(w[i] == e);
                    } else {
                        assert(w[i + 1] == e);
                    }
                }
                if e == xv {
                    assert(w[k as int] == e);
                }
            }
        }
    }
}

/// The bundle identifiers of the browser candidates (the applications that
/// declare `https`), each once, sorted as `Ord` for `String` sorts.
pub fn find_bundle_ids_for_browsers(bundle_ids_for_https: &BundleIdSet) -> (r: Vec<String>)
    ensures
        views(r@).to_set() == bundle_ids_for_https@,
        strictly_sorted(views(r@)),
        r@.len() == bundle_ids_for_https@.len(),
{
    proof {
        use_type_invariant(bundle_ids_for_https);
    }
    let ids = &bundle_ids_for_https.ids;
    let mut r: Vec<String> = Vec::new();
    let mut i: usize = 0;
    while i < ids.len()
        invariant
            i <= ids@.len(),
            views(ids@).no_duplicates(),
            strictly_sorted(views(r@)),
            views(r@).to_set() == views(ids@.subrange(0, i as int)).to_set(),
            r@.len() == i,
        decreases ids@.len() - i,
    {
        let ghost before = views(ids@.subrange(0, i as int));
        proof {
            if views(r@).contains(ids@[i as int]@) {
                assert(views(r@).to_set().contains(ids@[i as int]@));
                let m = choose|m: int| 0 <= m < before.len() && before[m] == ids@[i as int]@;
                assert(views(ids@)[m] == views(ids@)[i as int]);
            }
        }
        insert_sorted(&mut r, ids[i].clone());
        proof {
            assert(views(ids@.subrange(0, i + 1)) =~= before.push(ids@[i as int]@));
            before.lemma_push_to_set_commute(ids@[i as int]@);
        }
        i = i + 1;
    }
    proof {
        assert(ids@.subrange(0, ids@.len() as int) =~= ids@);
        views(ids@).unique_seq_to_set();
    }
    r
}

/// Two strictly sorted listings of one set are the same listing: the order
/// of the browser candidates does not depend on how the set was built.
pub proof fn lemma_sorted_listing_unique(a: Seq<Seq<char>>, b: Seq<Seq<char>>)
    requires
        strictly_sorted(a),
        strictly_sorted(b),
        a.to_set() == b.to_set(),
    ensures
        a == b,
    decreases a.len(),
{
    if a.len() == 0 {
        if b.len() > 0 {
            assert(b.to_set().contains(b[0]));
        }
        assert(a =~= b);
    } else {
        assert(a.to_set().contains(a[0]));
        assert(b.len() > 0);
        assert(b.to_set().contains(b[0]));
        let i = choose|i: int| 0 <= i < a.len() && a[i] == b[0];
        let j = choose|j: int| 0 <= j < b.len() && b[j] == a[0];
        if a[0] != b[0] {
            assert(i > 0 && j > 0);
            assert(str_lt(a[0], a[i]));
            assert(str_lt(b[0], b[j]));
            lemma_str_lt_total(a[0], b[0]);
            assert(false);
        }
        let ra = a.drop_first();
        let rb = b.drop_first();
        assert forall|e: Seq<char>| ra.to_set().contains(e) <==> rb.to_set().contains(e) by {
            if ra.contains(e) {
                let p = choose|p: int| 0 <= p < ra.len() && ra[p] == e;
                assert(a[p + 1] == e);
                assert(a.to_set().contains(e));
                let q = choose|q: int| 0 <= q < b.len() && b[q] == e;
                if q == 0 {
                    assert(str_lt(a[0], a[p + 1]));
                    lemma_str_lt_irreflexive(e);
                }
                assert(rb[q - 1] == e);
            }
            if rb.contains(e) {
                let p = choose|p: int| 0 <= p < rb.len() && rb[p] == e;
                assert(b[p + 1] == e);
                assert(b.to_set().contains(e));
                let q = choose|q: int| 0 <= q < a.len() && a[q] == e;
                if q == 0 {
                    assert(str_lt(b[0], b[p + 1]));
                    lemma_str_lt_irreflexive(e);
                }
                assert(ra[q - 1] == e);
            }
        }
        assert(ra.to_set() =~= rb.to_set());
        lemma_sorted_listing_unique(ra, rb);
        assert(a =~= b) by {
            assert forall|k: int| 0 <= k < a.len() implies a[k] == b[k] by {
                if k > 0 {
                    assert(a[k] == ra[k - 1]);
                    assert(b[k] == rb[k - 1]);
                }
            }
        }
    }
}

} // verus!
