//! The aggregation coordinator: answers size queries without blocking.
//!
//! A query is answered from the size cache when possible. Otherwise the
//! path is marked pending and the caller is told to dispatch one background
//! computation; a second query for the same path before completion returns
//! the sentinel 0 and dispatches nothing, so at most one computation per
//! path is ever in flight. Completed results are recorded as they drain in;
//! a result whose path is no longer pending (its directory was deleted
//! meanwhile) is discarded. A path is never both pending and cached.

use vstd::prelude::*;
use vstd::seq_lib::*;

use crate::cache::{invalidated_by, is_invalidated, is_strict_ancestor, SizeCache};
use crate::text::str_eq;

verus! {

/// No path appears twice.
pub open spec fn unique_paths(s: Seq<String>) -> bool {
    forall|i: int, j: int| 0 <= i < j < s.len() ==> (#[trigger] s[i])@ != (#[trigger] s[j])@
}

/// The list read as a set of paths.
pub open spec fn path_set(s: Seq<String>) -> Set<Seq<char>> {
    Set::new(|k: Seq<char>| exists|i: int| 0 <= i < s.len() && (#[trigger] s[i])@ == k)
}

/// Filtering a duplicate-free path list keeps it duplicate-free and keeps
/// exactly the paths the predicate admits.
proof fn lemma_filter_paths(s: Seq<String>, pred: spec_fn(String) -> bool)
    requires
        unique_paths(s),
    ensures
        unique_paths(s.filter(pred)),
        forall|k: Seq<char>|
            path_set(s.filter(pred)).contains(k) <==> exists|i: int|
                0 <= i < s.len() && (#[trigger] s[i])@ == k && pred(s[i]),
    decreases s.len(),
{
    reveal(Seq::filter);
    let f = s.filter(pred);
    if s.len() == 0 {
        assert(forall|k: Seq<char>| !path_set(f).contains(k));
    } else {
        let d = s.drop_last();
        let last = s.last();
        assert(forall|i: int| 0 <= i < d.len() ==> d[i] == #[trigger] s[i]);
        lemma_filter_paths(d, pred);
        let fd = d.filter(pred);
        assert forall|j: int| 0 <= j < f.len() implies d.contains(#[trigger] f[j]) || f[j]
            == last by {
            if pred(last) {
                assert(f == fd.push(last));
                if j < fd.len() {
                    assert(f[j] == fd[j]);
                    assert(path_set(fd).contains(fd[j]@));
                    let m = choose|m: int| 0 <= m < d.len() && (#[trigger] d[m])@ == fd[j]@;
                    assert(d.contains(d[m]));
                    assert(d[m]@ == f[j]@);
                    lemma_filter_elem_of(d, pred, j);
                }
            } else {
                assert(f == fd);
                lemma_filter_elem_of(d, pred, j);
            }
        }
        assert forall|k: Seq<char>| path_set(f).contains(k) implies exists|i: int|
            0 <= i < s.len() && (#[trigger] s[i])@ == k && pred(s[i]) by {
            let j = choose|j: int| 0 <= j < f.len() && (#[trigger] f[j])@ == k;
            lemma_filter_elem_of(s, pred, j);
            let m = choose|m: int| 0 <= m < s.len() && s[m] == f[j];
            assert(s[m]@ == k && pred(s[m]));
        }
        assert forall|k: Seq<char>|
            (exists|i: int| 0 <= i < s.len() && (#[trigger] s[i])@ == k && pred(s[i])) implies
            path_set(f).contains(k) by {
            let i = choose|i: int| 0 <= i < s.len() && (#[trigger] s[i])@ == k && pred(s[i]);
            if i == s.len() - 1 {
                assert(f == fd.push(last));
                assert(f[f.len() - 1]@ == k);
            } else {
                assert(d[i]@ == k && pred(d[i]));
                assert(path_set(fd).contains(k));
                let j = choose|j: int| 0 <= j < fd.len() && (#[trigger] fd[j])@ == k;
                if pred(last) {
                    assert(f[j] == fd[j]);
                } else {
                    assert(f == fd);
                }
            }
        }
        assert forall|i: int, j: int| 0 <= i < j < f.len() implies (#[trigger] f[i])@ != (
        #[trigger] f[j])@ by {
            if pred(last) {
                assert(f == fd.push(last));
                if j < fd.len() {
                    assert(f[i] == fd[i] && f[j] == fd[j]);
                } else {
                    assert(f[i] == fd[i] && f[j] == last);
                    lemma_filter_elem_of(d, pred, i);
                    let m = choose|m: int| 0 <= m < d.len() && d[m] == fd[i];
                    assert(s[m]@ == fd[i]@ && s[s.len() - 1]@ == last@);
                }
            } else {
                assert(f == fd);
            }
        }
    }
}

/// Every element of a filtered list is an element of the original.
proof fn lemma_filter_elem_of(s: Seq<String>, pred: spec_fn(String) -> bool, j: int)
    requires
        0 <= j < s.filter(pred).len(),
    ensures
        s.contains(s.filter(pred)[j]),
        pred(s.filter(pred)[j]),
    decreases s.len(),
{
    reveal(Seq::filter);
    let f = s.filter(pred);
    let d = s.drop_last();
    let fd = d.filter(pred);
    if pred(s.last()) {
        assert(f == fd.push(s.last()));
        if j < fd.len() {
            lemma_filter_elem_of(d, pred, j);
            let m = choose|m: int| 0 <= m < d.len() && (#[trigger] d[m]) == fd[j];
            assert(s[m] == f[j]);
        } else {
            assert(s[s.len() - 1] == f[j]);
        }
    } else {
        assert(f == fd);
        lemma_filter_elem_of(d, pred, j);
        let m = choose|m: int| 0 <= m < d.len() && (#[trigger] d[m]) == fd[j];
        assert(s[m] == f[j]);
    }
}

/// The set of directory paths with a computation in flight.
pub struct PendingSet {
    paths: Vec<String>,
}

impl View for PendingSet {
    type V = Set<Seq<char>>;

    closed spec fn view(&self) -> Set<Seq<char>> {
        path_set(self.paths@)
    }
}

impl PendingSet {
    /// One list entry per path.
    pub closed spec fn wf(&self) -> bool {
        unique_paths(self.paths@)
    }

    /// An empty pending set: nothing is in flight.
    pub fn new() -> (r: PendingSet)
        ensures
            r.wf(),
            r@ == Set::<Seq<char>>::empty(),
    {
        let r = PendingSet { paths: Vec::new() };
        proof {
            assert(r@ =~= Set::<Seq<char>>::empty());
        }
        r
    }

    /// The index holding `path`, if any.
    fn find(&self, path: &str) -> (r: Option<usize>)
        ensures
            match r {
                Some(i) => i < self.paths@.len() && self.paths@[i as int]@ == path@,
                None => !self@.contains(path@),
            },
    {
        let n = self.paths.len();
        let mut i: usize = 0;
        while i < n
            invariant
                i <= n,
                n == self.paths@.len(),
                forall|j: int| 0 <= j < i ==> (#[trigger] self.paths@[j])@ != path@,
            decreases n - i,
        {
            if str_eq(self.paths[i].as_str(), path) {
                return Some(i);
            }
            i += 1;
        }
        proof {
            assert(!self@.contains(path@));
        }
        None
    }

    /// Is a computation for `path` in flight?
    pub fn contains(&self, path: &str) -> (r: bool)
        ensures
            r == self@.contains(path@),
    {
        match self.find(path) {
            Some(i) => {
                proof {
                    assert(self@.contains(path@));
                }
                true
            },
            None => false,
        }
    }

    /// Mark `path` in flight.
    pub fn insert(&mut self, path: &str)
        requires
            old(self).wf(),
        ensures
            final(self).wf(),
            final(self)@ == old(self)@.insert(path@),
    {
        let ghost s0 = self.paths@;
        match self.find(path) {
            Some(_) => {
                proof {
                    assert(self@.contains(path@));
                    assert(self@ =~= self@.insert(path@));
                }
            },
            None => {
                self.paths.push(path.to_owned());
                proof {
                    let s1 = self.paths@;
                    assert(forall|j: int| 0 <= j < s0.len() ==> s1[j] == #[trigger] s0[j]);
                    assert(s1[s0.len() as int]@ == path@);
                    assert forall|k: Seq<char>| path_set(s1).contains(k) implies path_set(
                        s0,
                    ).insert(path@).contains(k) by {
                        let m = choose|m: int| 0 <= m < s1.len() && (#[trigger] s1[m])@ == k;
                        if m < s0.len() {
                            assert(s0[m]@ == k);
                        }
                    }
                    assert(path_set(s1) =~= path_set(s0).insert(path@));
                }
            },
        }
    }

    /// Unmark `path` once its result has arrived (or been discarded).
    pub fn remove(&mut self, path: &str)
        requires
            old(self).wf(),
        ensures
            final(self).wf(),
            final(self)@ == old(self)@.remove(path@),
    {
        let ghost s0 = self.paths@;
        match self.find(path) {
            Some(i) => {
                self.paths.remove(i);
                proof {
                    let s1 = self.paths@;
                    assert(forall|j: int| 0 <= j < i ==> s1[j] == #[trigger] s0[j]);
                    assert(forall|j: int|
                        i <= j < s1.len() ==> s1[j] == #[trigger] s0[j + 1]);
                    assert forall|k: Seq<char>| path_set(s1).contains(k) implies path_set(
                        s0,
                    ).remove(path@).contains(k) by {
                        let m = choose|m: int| 0 <= m < s1.len() && (#[trigger] s1[m])@ == k;
                        if m < i {
                            assert(s0[m]@ == k);
                        } else {
                            assert(s0[m + 1]@ == k);
                        }
                    }
                    assert forall|k: Seq<char>| path_set(s0).remove(path@).contains(k) implies
                        path_set(s1).contains(k) by {
                        let m = choose|m: int| 0 <= m < s0.len() && (#[trigger] s0[m])@ == k;
                        assert(m != i);
                        if m < i {
                            assert(s1[m]@ == k);
                        } else {
                            assert(s1[m - 1]@ == k);
                        }
                    }
                    assert(path_set(s1) =~= path_set(s0).remove(path@));
                }
            },
            None => {
                proof {
                    assert(self@ =~= self@.remove(path@));
                }
            },
        }
    }

    /// Drop every in-flight path whose computation the deletion of `p`
    /// makes stale or meaningless: `p` itself, its ancestors (their totals
    /// included the deleted data), and its descendants (they no longer have
    /// a meaningful ancestor chain).
    pub fn drop_affected(&mut self, p: &str)
        requires
            old(self).wf(),
        ensures
            final(self).wf(),
            forall|k: Seq<char>|
                #![trigger final(self)@.contains(k)]
                #![trigger old(self)@.contains(k)]
                final(self)@.contains(k) <==> (old(self)@.contains(k) && !invalidated_by(k, p@)
                    && !is_strict_ancestor(p@, k)),
    {
        let ghost s0 = self.paths@;
        let mut kept: Vec<String> = Vec::new();
        let n = self.paths.len();
        let mut i: usize = 0;
        while i < n
            invariant
                i <= n,
                n == s0.len(),
                self.paths@ == s0,
                kept@ == s0.take(i as int).filter(unaffected(p@)),
            decreases n - i,
        {
            proof {
                reveal(Seq::filter);
                assert(s0.take(i + 1).drop_last() =~= s0.take(i as int));
                assert(s0.take(i + 1).last() == s0[i as int]);
                assert(s0.take(i + 1).filter(unaffected(p@)) == if unaffected(p@)(s0[i as int]) {
                    s0.take(i as int).filter(unaffected(p@)).push(s0[i as int])
                } else {
                    s0.take(i as int).filter(unaffected(p@))
                });
            }
            let keep_it = !is_invalidated(self.paths[i].as_str(), p) && !is_invalidated(
                p,
                self.paths[i].as_str(),
            );
            if keep_it {
                let e = self.paths[i].clone();
                proof {
                    assert(e =~= s0[i as int]);
                    assert(!invalidated_by(s0[i as int]@, p@));
                    assert(!invalidated_by(p@, s0[i as int]@));
                    assert(unaffected(p@)(s0[i as int]));
                }
                kept.push(e);
                proof {
                    assert(kept@ =~= s0.take(i + 1).filter(unaffected(p@)));
                }
            } else {
                proof {
                    assert(!unaffected(p@)(s0[i as int]));
                }
            }
            i += 1;
        }
        proof {
            assert(s0.take(n as int) =~= s0);
        }
        self.paths = kept;
        proof {
            lemma_filter_paths(s0, unaffected(p@));
            let s1 = self.paths@;
            assert forall|k: Seq<char>| final(self)@.contains(k) implies (path_set(s0).contains(
                k,
            ) && !invalidated_by(k, p@) && !is_strict_ancestor(p@, k)) by {
                let i = choose|i: int|
                    0 <= i < s0.len() && (#[trigger] s0[i])@ == k && unaffected(p@)(s0[i]);
            }
            assert forall|k: Seq<char>|
                path_set(s0).contains(k) && !invalidated_by(k, p@) && !is_strict_ancestor(
                    p@,
                    k,
                ) implies final(self)@.contains(k) by {
                let m = choose|m: int| 0 <= m < s0.len() && (#[trigger] s0[m])@ == k;
                assert(unaffected(p@)(s0[m]));
            }
        }
    }
}

/// The in-flight paths a deletion of `p` does not affect.
pub open spec fn unaffected(p: Seq<char>) -> spec_fn(String) -> bool {
    |e: String| !invalidated_by(e@, p) && !is_strict_ancestor(p, e@)
}

/// The coordinator: the size cache and the pending set, owned together so
/// that a path is never both cached and in flight.
pub struct SizeCoordinator {
    cache: SizeCache,
    pending: PendingSet,
}

impl SizeCoordinator {
    /// Both parts well-formed, and no path both pending and cached.
    pub closed spec fn wf(&self) -> bool {
        &&& self.cache.wf()
        &&& self.pending.wf()
        &&& forall|k: Seq<char>|
            #[trigger] self.pending@.contains(k) ==> !self.cache@.contains_key(k)
    }

    /// The sizes recorded by completed computations.
    pub closed spec fn cached(&self) -> Map<Seq<char>, u64> {
        self.cache@
    }

    /// The paths with a computation in flight.
    pub closed spec fn pending(&self) -> Set<Seq<char>> {
        self.pending@
    }

    /// A path is in at most one of the pending set and the cache.
    pub proof fn lemma_pending_cache_disjoint(&self, k: Seq<char>)
        requires
            self.wf(),
            self.pending().contains(k),
        ensures
            !self.cached().contains_key(k),
    {
    }

    /// A fresh coordinator: nothing cached, nothing in flight.
    pub fn new() -> (r: SizeCoordinator)
        ensures
            r.wf(),
            r.cached() == Map::<Seq<char>, u64>::empty(),
            r.pending() == Set::<Seq<char>>::empty(),
    {
        SizeCoordinator { cache: SizeCache::new(), pending: PendingSet::new() }
    }

    /// Answer a size query without blocking. The returned size is the
    /// cached value on a hit and the sentinel 0 otherwise; the flag tells
    /// the caller to dispatch exactly one background computation for
    /// `path`, and it is never set while one is already in flight.
    pub fn resolve_size(&mut self, path: &str) -> (r: (u64, bool))
        requires
            old(self).wf(),
        ensures
            final(self).wf(),
            old(self).cached().contains_key(path@) ==> r == (old(self).cached()[path@], false)
                && final(self).cached() == old(self).cached()
                && final(self).pending() == old(self).pending(),
            !old(self).cached().contains_key(path@) && old(self).pending().contains(path@)
                ==> r == (0u64, false)
                && final(self).cached() == old(self).cached()
                && final(self).pending() == old(self).pending(),
            !old(self).cached().contains_key(path@) && !old(self).pending().contains(path@)
                ==> r == (0u64, true)
                && final(self).cached() == old(self).cached()
                && final(self).pending() == old(self).pending().insert(path@),
    {
        match self.cache.get(path) {
            Some(bytes) => (bytes, false),
            None => {
                if self.pending.contains(path) {
                    (0, false)
                } else {
                    self.pending.insert(path);
                    (0, true)
                }
            },
        }
    }

    /// Record one completed computation. If the path is still pending its
    /// size is cached and it stops being pending; otherwise the result is
    /// stale (the path was invalidated while in flight) and is discarded.
    pub fn record_result(&mut self, path: &str, bytes: u64)
        requires
            old(self).wf(),
        ensures
            final(self).wf(),
            old(self).pending().contains(path@)
                ==> final(self).cached() == old(self).cached().insert(path@, bytes)
                && final(self).pending() == old(self).pending().remove(path@),
            !old(self).pending().contains(path@) ==> final(self).cached() == old(self).cached()
                && final(self).pending() == old(self).pending(),
    {
        if self.pending.contains(path) {
            self.pending.remove(path);
            self.cache.put(path, bytes);
        }
    }

    /// A deletion happened at `path`: drop the cached sizes of `path` and
    /// every strict ancestor (their aggregates changed), and drop every
    /// affected in-flight computation so no stale result is applied later.
    pub fn invalidate(&mut self, path: &str)
        requires
            old(self).wf(),
        ensures
            final(self).wf(),
            forall|k: Seq<char>|
                final(self).cached().contains_key(k) <==> (old(self).cached().contains_key(k)
                    && !invalidated_by(k, path@)),
            forall|k: Seq<char>| #[trigger]
                final(self).cached().contains_key(k) ==> final(self).cached()[k]
                    == old(self).cached()[k],
            forall|k: Seq<char>|
                final(self).pending().contains(k) <==> (old(self).pending().contains(k)
                    && !invalidated_by(k, path@) && !is_strict_ancestor(path@, k)),
    {
        let ghost c0 = self.cache@;
        let ghost p0 = self.pending@;
        self.cache.invalidate(path);
        self.pending.drop_affected(path);
        proof {
            assert forall|k: Seq<char>|
                self.cache@.contains_key(k) <==> (c0.contains_key(k) && !invalidated_by(
                    k,
                    path@,
                )) by {}
            assert forall|k: Seq<char>| #[trigger]
                self.pending@.contains(k) implies !self.cache@.contains_key(k) by {
                assert(p0.contains(k));
            }
        }
    }

    /// Read a cached size without touching any state: `Some` exactly when
    /// a completed computation for `path` is on record.
    pub fn peek_cached(&self, path: &str) -> (r: Option<u64>)
        requires
            self.wf(),
        ensures
            r == if self.cached().contains_key(path@) {
                Some(self.cached()[path@])
            } else {
                None::<u64>
            },
    {
        self.cache.get(path)
    }

    /// Is any computation still in flight? When so, another drain should
    /// be scheduled soon, so results are not left stranded.
    pub fn has_pending(&self) -> (r: bool)
        ensures
            r == (exists|k: Seq<char>| self.pending().contains(k)),
    {
        let n = self.pending_len();
        n > 0
    }

    /// How many computations are in flight.
    fn pending_len(&self) -> (r: usize)
        ensures
            r == self.pending.paths@.len(),
            r > 0 ==> exists|k: Seq<char>| self.pending().contains(k),
            r == 0 ==> !(exists|k: Seq<char>| self.pending().contains(k)),
    {
        let n = self.pending.paths.len();
        proof {
            if n > 0 {
                assert(self.pending().contains(self.pending.paths@[0]@));
            } else {
                assert forall|k: Seq<char>| !(#[trigger] self.pending().contains(k)) by {}
            }
        }
        n
    }
}

} // verus!
