//! The size cache: a mapping from directory path to its last-computed
//! aggregate size.
//!
//! A path is present only after a completed computation; absence means
//! "unknown", never "zero". Invalidation removes a path and every strict
//! ancestor of it — deleting any descendant changes the aggregate of every
//! containing directory — and nothing else.

use vstd::prelude::*;
use vstd::seq_lib::*;
use vstd::string::StringExecFns;

use crate::text::{char_is_sep, is_sep, str_eq};

verus! {

/// No two entries share a key.
pub open spec fn unique_keys(s: Seq<(String, u64)>) -> bool {
    forall|i: int, j: int| 0 <= i < j < s.len() ==> (#[trigger] s[i]).0@ != (#[trigger] s[j]).0@
}

/// Some entry has key `k`.
pub open spec fn has_key(s: Seq<(String, u64)>, k: Seq<char>) -> bool {
    exists|i: int| 0 <= i < s.len() && (#[trigger] s[i]).0@ == k
}

/// The index of the entry with key `k` (unique when `unique_keys` holds).
pub open spec fn key_idx(s: Seq<(String, u64)>, k: Seq<char>) -> int {
    choose|i: int| 0 <= i < s.len() && (#[trigger] s[i]).0@ == k
}

/// The entry list read as a map from path to size.
pub open spec fn entry_map(s: Seq<(String, u64)>) -> Map<Seq<char>, u64> {
    Map::new(|k: Seq<char>| has_key(s, k), |k: Seq<char>| s[key_idx(s, k)].1)
}

/// The entry at a known index is what the map reports for its key.
pub proof fn lemma_entry_map_value(s: Seq<(String, u64)>, i: int)
    requires
        unique_keys(s),
        0 <= i < s.len(),
    ensures
        entry_map(s).contains_key(s[i].0@),
        entry_map(s)[s[i].0@] == s[i].1,
{
    let k = s[i].0@;
    assert(has_key(s, k));
    let j = key_idx(s, k);
    assert(0 <= j < s.len() && s[j].0@ == k);
    assert(j == i);
}

/// Filtering a unique-keyed entry list keeps keys unique, keeps only (and
/// all) entries the predicate admits, and invents no entry.
proof fn lemma_filter_entries(s: Seq<(String, u64)>, pred: spec_fn((String, u64)) -> bool)
    requires
        unique_keys(s),
    ensures
        unique_keys(s.filter(pred)),
        forall|j: int|
            0 <= j < s.filter(pred).len() ==> s.contains(#[trigger] s.filter(pred)[j]) && pred(
                s.filter(pred)[j],
            ),
        forall|k: Seq<char>| #[trigger]
            has_key(s.filter(pred), k) <==> exists|i: int|
                0 <= i < s.len() && (#[trigger] s[i]).0@ == k && pred(s[i]),
    decreases s.len(),
{
    reveal(Seq::filter);
    let f = s.filter(pred);
    if s.len() == 0 {
        assert(forall|k: Seq<char>| !has_key(f, k));
    } else {
        let d = s.drop_last();
        let last = s.last();
        assert(forall|i: int| 0 <= i < d.len() ==> d[i] == #[trigger] s[i]);
        lemma_filter_entries(d, pred);
        let fd = d.filter(pred);
        assert forall|j: int| 0 <= j < f.len() implies s.contains(#[trigger] f[j]) && pred(
            f[j],
        ) by {
            if pred(last) {
                assert(f == fd.push(last));
                if j < fd.len() {
                    assert(f[j] == fd[j]);
                    let m = choose|m: int| 0 <= m < d.len() && d[m] == fd[j];
                    assert(s[m] == f[j]);
                } else {
                    assert(f[j] == last);
                    assert(s[s.len() - 1] == last);
                }
            } else {
                assert(f == fd);
                let m = choose|m: int| 0 <= m < d.len() && d[m] == fd[j];
                assert(s[m] == f[j]);
            }
        }
        assert forall|k: Seq<char>| #[trigger] has_key(f, k) implies exists|i: int|
            0 <= i < s.len() && (#[trigger] s[i]).0@ == k && pred(s[i]) by {
            let j = choose|j: int| 0 <= j < f.len() && (#[trigger] f[j]).0@ == k;
            let m = choose|m: int| 0 <= m < s.len() && s[m] == f[j];
            assert(s[m].0@ == k && pred(s[m]));
        }
        assert forall|k: Seq<char>|
            (exists|i: int| 0 <= i < s.len() && (#[trigger] s[i]).0@ == k && pred(s[i]))
            implies #[trigger] has_key(f, k) by {
            let i = choose|i: int| 0 <= i < s.len() && (#[trigger] s[i]).0@ == k && pred(s[i]);
            if i == s.len() - 1 {
                assert(pred(last));
                assert(f == fd.push(last));
                assert(f[f.len() - 1].0@ == k);
            } else {
                assert(d[i].0@ == k && pred(d[i]));
                assert(has_key(fd, k));
                let j = choose|j: int| 0 <= j < fd.len() && (#[trigger] fd[j]).0@ == k;
                if pred(last) {
                    assert(f[j] == fd[j]);
                } else {
                    assert(f == fd);
                }
            }
        }
        assert forall|i: int, j: int| 0 <= i < j < f.len() implies (#[trigger] f[i]).0@ != (
        #[trigger] f[j]).0@ by {
            if pred(last) {
                assert(f == fd.push(last));
                if j < fd.len() {
                    assert(f[i] == fd[i] && f[j] == fd[j]);
                } else {
                    assert(f[i] == fd[i] && f[j] == last);
                    if fd[i].0@ == last.0@ {
                        let m = choose|m: int| 0 <= m < d.len() && d[m] == fd[i];
                        assert(s[m].0@ == s[s.len() - 1].0@);
                    }
                }
            } else {
                assert(f == fd);
            }
        }
    }
}

/// `anc` is a strict ancestor directory of `p`: a proper prefix that ends
/// at a component boundary.
pub open spec fn is_strict_ancestor(anc: Seq<char>, p: Seq<char>) -> bool {
    &&& 0 < anc.len() < p.len()
    &&& (forall|i: int| 0 <= i < anc.len() ==> anc[i] == #[trigger] p[i])
    &&& (is_sep(anc[anc.len() - 1]) || is_sep(p[anc.len() as int]))
}

/// Deleting `p` makes the cached size of key `k` stale: `k` is `p` itself
/// or any strict ancestor of it.
pub open spec fn invalidated_by(k: Seq<char>, p: Seq<char>) -> bool {
    k == p || is_strict_ancestor(k, p)
}

/// The entries that survive an invalidation of `p`.
pub open spec fn survives(p: Seq<char>) -> spec_fn((String, u64)) -> bool {
    |e: (String, u64)| !invalidated_by(e.0@, p)
}

/// Does deleting `p` make the entry for `k` stale?
pub fn is_invalidated(k: &str, p: &str) -> (r: bool)
    ensures
        r == invalidated_by(k@, p@),
{
    if str_eq(k, p) {
        return true;
    }
    let nk = k.unicode_len();
    let np = p.unicode_len();
    if nk == 0 || nk >= np {
        return false;
    }
    let mut i: usize = 0;
    while i < nk
        invariant
            i <= nk,
            nk == k@.len(),
            np == p@.len(),
            0 < nk < np,
            forall|j: int| 0 <= j < i ==> k@[j] == #[trigger] p@[j],
        decreases nk - i,
    {
        if k.get_char(i) != p.get_char(i) {
            return false;
        }
        i += 1;
    }
    if char_is_sep(k.get_char(nk - 1)) {
        return true;
    }
    char_is_sep(p.get_char(nk))
}

/// The size cache. Keys are unique, so it reads as a map from directory
/// path to aggregate size.
pub struct SizeCache {
    entries: Vec<(String, u64)>,
}

impl View for SizeCache {
    type V = Map<Seq<char>, u64>;

    closed spec fn view(&self) -> Map<Seq<char>, u64> {
        entry_map(self.entries@)
    }
}

impl SizeCache {
    /// The cache's internal invariant: one entry per path.
    pub closed spec fn wf(&self) -> bool {
        unique_keys(self.entries@)
    }

    /// An empty cache: every size is unknown.
    pub fn new() -> (r: SizeCache)
        ensures
            r.wf(),
            r@ == Map::<Seq<char>, u64>::empty(),
    {
        let r = SizeCache { entries: Vec::new() };
        proof {
            assert(r@ =~= Map::<Seq<char>, u64>::empty());
        }
        r
    }

    /// The index holding `path`, if any.
    fn find(&self, path: &str) -> (r: Option<usize>)
        requires
            self.wf(),
        ensures
            match r {
                Some(i) => i < self.entries@.len() && self.entries@[i as int].0@ == path@,
                None => !has_key(self.entries@, path@),
            },
    {
        let n = self.entries.len();
        let mut i: usize = 0;
        while i < n
            invariant
                i <= n,
                n == self.entries@.len(),
                forall|j: int| 0 <= j < i ==> (#[trigger] self.entries@[j]).0@ != path@,
            decreases n - i,
        {
            if str_eq(self.entries[i].0.as_str(), path) {
                return Some(i);
            }
            i += 1;
        }
        None
    }

    /// Look a path up: `Some` exactly when a completed computation has been
    /// recorded and not invalidated since, with that recorded size.
    pub fn get(&self, path: &str) -> (r: Option<u64>)
        requires
            self.wf(),
        ensures
            r == if self@.contains_key(path@) {
                Some(self@[path@])
            } else {
                None::<u64>
            },
    {
        match self.find(path) {
            Some(i) => {
                proof {
                    lemma_entry_map_value(self.entries@, i as int);
                }
                Some(self.entries[i].1)
            },
            None => None,
        }
    }

    /// Record (or overwrite) the computed size for a path.
    pub fn put(&mut self, path: &str, bytes: u64)
        requires
            old(self).wf(),
        ensures
            final(self).wf(),
            final(self)@ == old(self)@.insert(path@, bytes),
    {
        let ghost s0 = self.entries@;
        match self.find(path) {
            Some(i) => {
                self.entries[i] = (String::from_str(path), bytes);
                proof {
                    let s1 = self.entries@;
                    assert(forall|j: int|
                        0 <= j < s1.len() && j != i ==> s1[j] == #[trigger] s0[j]);
                    assert(s1[i as int].0@ == s0[i as int].0@);
                    assert(self.wf());
                    assert forall|k: Seq<char>| true implies #[trigger] has_key(s1, k) == has_key(
                        s0,
                        k,
                    ) by {
                        if has_key(s1, k) {
                            let m = choose|m: int| 0 <= m < s1.len() && (#[trigger] s1[m]).0@ == k;
                            assert(s0[m].0@ == k);
                        }
                        if has_key(s0, k) {
                            let m = choose|m: int| 0 <= m < s0.len() && (#[trigger] s0[m]).0@ == k;
                            assert(s1[m].0@ == k);
                        }
                    }
                    assert forall|k: Seq<char>| #[trigger]
                        entry_map(s1).contains_key(k) implies entry_map(s1)[k] == entry_map(
                        s0,
                    ).insert(path@, bytes)[k] by {
                        let m = choose|m: int| 0 <= m < s1.len() && (#[trigger] s1[m]).0@ == k;
                        lemma_entry_map_value(s1, m);
                        if k == path@ {
                            assert(m == i);
                        } else {
                            assert(s1[m] == s0[m]);
                            lemma_entry_map_value(s0, m);
                        }
                    }
                    assert(entry_map(s1) =~= entry_map(s0).insert(path@, bytes));
                }
            },
            None => {
                self.entries.push((String::from_str(path), bytes));
                proof {
                    let s1 = self.entries@;
                    assert(forall|j: int| 0 <= j < s0.len() ==> s1[j] == #[trigger] s0[j]);
                    assert(s1[s0.len() as int].0@ == path@);
                    assert(self.wf());
                    assert forall|k: Seq<char>| #[trigger]
                        entry_map(s1).contains_key(k) implies entry_map(s1)[k] == entry_map(
                        s0,
                    ).insert(path@, bytes)[k] && entry_map(s0).insert(path@, bytes).contains_key(
                        k,
                    ) by {
                        let m = choose|m: int| 0 <= m < s1.len() && (#[trigger] s1[m]).0@ == k;
                        lemma_entry_map_value(s1, m);
                        if k == path@ {
                            assert(m == s0.len());
                        } else {
                            assert(m < s0.len());
                            lemma_entry_map_value(s0, m);
                        }
                    }
                    assert forall|k: Seq<char>| #[trigger]
                        entry_map(s0).insert(path@, bytes).contains_key(k) implies entry_map(
                        s1,
                    ).contains_key(k) by {
                        if k == path@ {
                            assert(s1[s0.len() as int].0@ == k);
                        } else {
                            let m = choose|m: int| 0 <= m < s0.len() && (#[trigger] s0[m]).0@ == k;
                            assert(s1[m].0@ == k);
                        }
                    }
                    assert(entry_map(s1) =~= entry_map(s0).insert(path@, bytes));
                }
            },
        }
    }

    /// Drop the entry for `path` and for every strict ancestor of it, and
    /// nothing else: unrelated siblings keep their sizes.
    pub fn invalidate(&mut self, path: &str)
        requires
            old(self).wf(),
        ensures
            final(self).wf(),
            forall|k: Seq<char>|
                #![trigger final(self)@.contains_key(k)]
                #![trigger old(self)@.contains_key(k)]
                final(self)@.contains_key(k) <==> (old(self)@.contains_key(k)
                    && !invalidated_by(k, path@)),
            forall|k: Seq<char>| #[trigger]
                final(self)@.contains_key(k) ==> final(self)@[k] == old(self)@[k],
    {
        let ghost s0 = self.entries@;
        let mut kept: Vec<(String, u64)> = Vec::new();
        let n = self.entries.len();
        let mut i: usize = 0;
        while i < n
            invariant
                i <= n,
                n == s0.len(),
                self.entries@ == s0,
                kept@ == s0.take(i as int).filter(survives(path@)),
            decreases n - i,
        {
            proof {
                reveal(Seq::filter);
                assert(s0.take(i + 1).drop_last() =~= s0.take(i as int));
                assert(s0.take(i + 1).last() == s0[i as int]);
                assert(s0.take(i + 1).filter(survives(path@)) == if survives(path@)(s0[i as int]) {
                    s0.take(i as int).filter(survives(path@)).push(s0[i as int])
                } else {
                    s0.take(i as int).filter(survives(path@))
                });
            }
            if !is_invalidated(self.entries[i].0.as_str(), path) {
                let e = (self.entries[i].0.clone(), self.entries[i].1);
                proof {
                    assert(e =~= s0[i as int]);
                    assert(!invalidated_by(s0[i as int].0@, path@));
                    assert(survives(path@)(s0[i as int]));
                }
                kept.push(e);
                proof {
                    assert(kept@ =~= s0.take(i + 1).filter(survives(path@)));
                }
            }
            i += 1;
        }
        proof {
            assert(s0.take(n as int) =~= s0);
        }
        self.entries = kept;
        proof {
            lemma_filter_entries(s0, survives(path@));
            let s1 = self.entries@;
            assert forall|k: Seq<char>| #[trigger]
                entry_map(s1).contains_key(k) implies entry_map(s0).contains_key(k)
                && !invalidated_by(k, path@) && entry_map(s1)[k] == entry_map(s0)[k] by {
                let j = choose|j: int| 0 <= j < s1.len() && (#[trigger] s1[j]).0@ == k;
                lemma_entry_map_value(s1, j);
                assert(s0.contains(s1[j]) && survives(path@)(s1[j]));
                let m = choose|m: int| 0 <= m < s0.len() && s0[m] == s1[j];
                lemma_entry_map_value(s0, m);
            }
            assert forall|k: Seq<char>|
                entry_map(s0).contains_key(k) && !invalidated_by(k, path@) implies entry_map(
                s1,
            ).contains_key(k) by {
                let m = choose|m: int| 0 <= m < s0.len() && (#[trigger] s0[m]).0@ == k;
                assert(survives(path@)(s0[m]));
                assert(has_key(s1, k));
            }
        }
    }
}

} // verus!
