//! Navigation through the browsed tree: the current path, and a history
//! with back and forward movement. Going back past the history's start
//! climbs to the parent directory instead.

use vstd::prelude::*;
use vstd::string::StringExecFns;

use crate::text::{char_is_sep, is_sep, last_sep_idx, lemma_last_where, str_eq};

verus! {

/// `p` with every trailing separator removed.
pub open spec fn strip_trailing_seps(p: Seq<char>) -> Seq<char>
    decreases p.len(),
{
    if p.len() > 0 && is_sep(p.last()) {
        strip_trailing_seps(p.drop_last())
    } else {
        p
    }
}

/// The parent directory of `p`: the path with its final component (and the
/// separators around it) removed. A bare root or a single component has
/// none; climbing out of the leading separator keeps it, so the parent of
/// a top-level entry is the root itself.
pub open spec fn spec_parent(p: Seq<char>) -> Option<Seq<char>> {
    let t = strip_trailing_seps(p);
    if t.len() == 0 {
        None
    } else {
        let s = last_sep_idx(t);
        if s < 0 {
            None
        } else {
            let e = strip_trailing_seps(t.take(s + 1)).len();
            if e == 0 {
                Some(t.take(s + 1))
            } else {
                Some(t.take(e as int))
            }
        }
    }
}

/// Dropping a trailing run of separators is what the strip does.
proof fn lemma_strip_take(p: Seq<char>, m: int)
    requires
        0 <= m <= p.len(),
        forall|j: int| m <= j < p.len() ==> is_sep(#[trigger] p[j]),
    ensures
        strip_trailing_seps(p) == strip_trailing_seps(p.take(m)),
    decreases p.len() - m,
{
    if m < p.len() {
        let d = p.take(p.len() - 1);
        assert(p.last() == p[p.len() - 1]);
        assert(is_sep(p.last()));
        assert(p.drop_last() =~= d);
        assert(forall|j: int| m <= j < d.len() ==> is_sep(#[trigger] d[j]));
        assert(strip_trailing_seps(p) == strip_trailing_seps(p.drop_last()));
        lemma_strip_take(d, m);
        assert(d.take(m) =~= p.take(m));
        assert(strip_trailing_seps(p.take(m)) == strip_trailing_seps(d.take(m)));
    } else {
        assert(p.take(m) =~= p);
    }
}

/// The component-wise parent of a path string, when it has one.
pub fn parent_path(p: &str) -> (r: Option<String>)
    ensures
        match r {
            Some(s) => spec_parent(p@) == Some(s@),
            None => spec_parent(p@) == None::<Seq<char>>,
        },
{
    let n = p.unicode_len();
    // Strip trailing separators.
    let mut m: usize = n;
    while m > 0
        invariant
            m <= n,
            n == p@.len(),
            forall|j: int| m <= j < n ==> is_sep(#[trigger] p@[j]),
        ensures
            m <= n,
            n == p@.len(),
            forall|j: int| m <= j < n ==> is_sep(#[trigger] p@[j]),
            m > 0 ==> !is_sep(p@[m - 1]),
        decreases m,
    {
        if !char_is_sep(p.get_char(m - 1)) {
            break;
        }
        m -= 1;
    }
    proof {
        lemma_strip_take(p@, m as int);
        if m > 0 {
            assert(p@.take(m as int).last() == p@[m - 1]);
        }
        assert(strip_trailing_seps(p@.take(m as int)) == p@.take(m as int));
    }
    let ghost t = p@.take(m as int);
    if m == 0 {
        return None;
    }
    // Find the last separator of the stripped path.
    let mut i: usize = m;
    while i > 0
        invariant
            i <= m,
            m <= n,
            n == p@.len(),
            t == p@.take(m as int),
            forall|j: int| i <= j < m ==> !is_sep(#[trigger] t[j]),
        ensures
            i <= m,
            m <= n,
            n == p@.len(),
            t == p@.take(m as int),
            forall|j: int| i <= j < m ==> !is_sep(#[trigger] t[j]),
            i > 0 ==> is_sep(t[i - 1]),
        decreases i,
    {
        if char_is_sep(p.get_char(i - 1)) {
            proof {
                assert(t[i - 1] == p@[i - 1]);
            }
            break;
        }
        i -= 1;
    }
    proof {
        lemma_last_where(t, |ch: char| is_sep(ch));
    }
    if i == 0 {
        // No separator at all: a bare name has no parent.
        return None;
    }
    let s = i - 1;
    proof {
        assert(t[s as int] == p@[s as int]);
        assert(is_sep(t[s as int]));
        assert(last_sep_idx(t) == s as int);
    }
    // Strip the separator run that ends the prefix.
    let mut e: usize = s;
    while e > 0
        invariant
            e <= s,
            s < m <= n,
            n == p@.len(),
            t == p@.take(m as int),
            forall|j: int| e <= j <= s ==> is_sep(#[trigger] t[j]),
        ensures
            e <= s,
            s < m <= n,
            n == p@.len(),
            t == p@.take(m as int),
            forall|j: int| e <= j <= s ==> is_sep(#[trigger] t[j]),
            e > 0 ==> !is_sep(t[e - 1]),
        decreases e,
    {
        if !char_is_sep(p.get_char(e - 1)) {
            proof {
                assert(t[e - 1] == p@[e - 1]);
            }
            break;
        }
        e -= 1;
    }
    proof {
        let pre = t.take(s + 1);
        assert(forall|j: int| 0 <= j < pre.len() ==> pre[j] == #[trigger] t[j]);
        lemma_strip_take(pre, e as int);
        assert(pre.take(e as int) =~= t.take(e as int));
        if e > 0 {
            assert(t.take(e as int).last() == t[e - 1]);
        }
        assert(strip_trailing_seps(pre) == t.take(e as int));
    }
    if e == 0 {
        // The final component sits right under the root: keep the root.
        let root = p.substring_char(0, s + 1);
        proof {
            assert(p@.subrange(0, s + 1) =~= t.take(s + 1));
        }
        Some(root.to_owned())
    } else {
        let parent = p.substring_char(0, e);
        proof {
            assert(p@.subrange(0, e as int) =~= t.take(e as int));
        }
        Some(parent.to_owned())
    }
}

/// Where the browser is and where it has been: the current path and the
/// visited history, with an index into it.
pub struct Navigator {
    history: Vec<String>,
    index: usize,
    current: Option<String>,
}

impl Navigator {
    /// The index stays inside the history whenever there is one.
    pub closed spec fn wf(&self) -> bool {
        if self.history@.len() == 0 {
            self.index == 0
        } else {
            self.index < self.history@.len()
        }
    }

    /// The visited paths, oldest first.
    pub closed spec fn history(&self) -> Seq<Seq<char>> {
        self.history@.map_values(|s: String| s@)
    }

    /// The position in the history that going back next returns to.
    pub closed spec fn index(&self) -> int {
        self.index as int
    }

    /// The path now shown, if any.
    pub closed spec fn current(&self) -> Option<Seq<char>> {
        match self.current {
            Some(s) => Some(s@),
            None => None,
        }
    }

    /// A fresh navigator: nowhere yet, nothing visited.
    pub fn new() -> (r: Navigator)
        ensures
            r.wf(),
            r.history() == Seq::<Seq<char>>::empty(),
            r.index() == 0,
            r.current() == None::<Seq<char>>,
    {
        let r = Navigator { history: Vec::new(), index: 0, current: None };
        proof {
            assert(r.history() =~= Seq::<Seq<char>>::empty());
        }
        r
    }

    /// The path now shown, if any.
    pub fn current_path(&self) -> (r: Option<String>)
        ensures
            match r {
                Some(s) => self.current() == Some(s@),
                None => self.current() == None::<Seq<char>>,
            },
    {
        match &self.current {
            Some(c) => Some(c.clone()),
            None => None,
        }
    }

    /// Go to `path`. Leaving a different current path records it: any
    /// forward history is discarded, the left path is appended, and the
    /// index points at it.
    pub fn navigate_to(&mut self, path: String)
        requires
            old(self).wf(),
        ensures
            final(self).wf(),
            final(self).current() == Some(path@),
            match old(self).current() {
                Some(c) => if c == path@ {
                    final(self).history() == old(self).history() && final(self).index() == old(self).index()
                } else {
                    final(self).history() == old(self).history().take(
                        if old(self).history().len() == 0 {
                            0
                        } else {
                            old(self).index() + 1
                        },
                    ).push(c) && final(self).index() == final(self).history().len() - 1
                },
                None => final(self).history() == old(self).history() && final(self).index() == old(self).index(),
            },
    {
        let mut moved = false;
        match &self.current {
            Some(c) => {
                if !str_eq(c.as_str(), path.as_str()) {
                    moved = true;
                }
            },
            None => {},
        }
        if moved {
            let c = match &self.current {
                Some(c) => c.clone(),
                None => {
                    proof {
                        assert(false);
                    }
                    unreached()
                },
            };
            let ghost h0 = self.history@;
            let hl = self.history.len();
            proof {
                assert(self.index + 1 <= hl || hl == 0);
            }
            self.history.truncate(self.index + 1);
            self.history.push(c);
            self.index = self.history.len() - 1;
            proof {
                if h0.len() == 0 {
                    assert(self.history@ =~= h0.take(0).push(c));
                }
                assert(self.history() =~= h0.map_values(|s: String| s@).take(
                    if h0.len() == 0 {
                        0
                    } else {
                        old(self).index() + 1
                    },
                ).push(c@));
            }
        }
        self.current = Some(path);
    }

    /// Go back: to the previous history entry when there is one, else up
    /// to the parent of the current path when it has one; otherwise stay.
    pub fn navigate_back(&mut self)
        requires
            old(self).wf(),
        ensures
            final(self).wf(),
            final(self).history() == old(self).history(),
            old(self).index() > 0 ==> final(self).index() == old(self).index() - 1 && final(self).current() == Some(old(self).history()[old(self).index() - 1]),
            old(self).index() == 0 ==> final(self).index() == 0 && final(self).current() == (
            match old(self).current() {
                Some(c) => match spec_parent(c) {
                    Some(par) => Some(par),
                    None => Some(c),
                },
                None => None::<Seq<char>>,
            }),
    {
        if self.index > 0 {
            self.index = self.index - 1;
            let c = self.history[self.index].clone();
            self.current = Some(c);
        } else {
            match &self.current {
                Some(c) => {
                    match parent_path(c.as_str()) {
                        Some(parent) => {
                            self.current = Some(parent);
                        },
                        None => {},
                    }
                },
                None => {},
            }
        }
    }

    /// Go forward along the history, when anything lies ahead.
    pub fn navigate_forward(&mut self)
        requires
            old(self).wf(),
        ensures
            final(self).wf(),
            final(self).history() == old(self).history(),
            old(self).index() + 1 < old(self).history().len() ==> final(self).index() == old(self).index() + 1 && final(self).current() == Some(
                old(self).history()[old(self).index() + 1],
            ),
            old(self).index() + 1 >= old(self).history().len() ==> final(self).index() == old(self).index() && final(self).current() == old(self).current(),
    {
        if self.history.len() > 0 && self.index < self.history.len() - 1 {
            self.index = self.index + 1;
            let c = self.history[self.index].clone();
            self.current = Some(c);
        }
    }
}

} // verus!
