//! Directory listing: the ordered sequence of sibling image paths of the
//! active directory, plus the index of the currently selected entry.
//!
//! Entries are filtered by an extension allow-list, sorted in the
//! case-insensitive lexical order of `paths`, and navigated with wraparound:
//! stepping forward past the last entry lands on the first, and backward past
//! the first lands on the last.

use vstd::prelude::*;

use crate::paths::ci_le;
use crate::paths::ci_le_bytes;
use crate::paths::bytes_eq;
use crate::paths::join;
use crate::paths::join_bytes;
use crate::paths::has_allowed_ext;
use crate::paths::name_has_allowed_ext;
use crate::paths::lemma_ci_le_total;
use crate::paths::lemma_ci_le_trans;

verus! {

/// Views of a sequence of byte-string paths.
pub open spec fn path_views(s: Seq<Vec<u8>>) -> Seq<Seq<u8>> {
    s.map_values(|e: Vec<u8>| e@)
}

/// Sortedness in the case-insensitive lexical order.
pub open spec fn entries_sorted(s: Seq<Seq<u8>>) -> bool {
    forall|i: int, j: int| 0 <= i < j < s.len() ==> ci_le(#[trigger] s[i], #[trigger] s[j])
}

/// An ordered sequence of sibling image paths and the selected position.
pub struct Listing {
    pub entries: Vec<Vec<u8>>,
    pub index: usize,
}

/// Index one step forward of `i` in a listing of length `n`, with wraparound.
pub open spec fn next_index(i: int, n: int) -> int {
    if i + 1 >= n {
        0
    } else {
        i + 1
    }
}

/// Index one step backward of `i` in a listing of length `n`, with wraparound.
pub open spec fn prev_index(i: int, n: int) -> int {
    if i == 0 {
        n - 1
    } else {
        i - 1
    }
}

impl Listing {
    /// The paths held by the listing, as byte sequences.
    pub open spec fn paths(&self) -> Seq<Seq<u8>> {
        path_views(self.entries@)
    }

    /// The index always refers to a valid entry of a non-empty listing, and
    /// stays `0` on an empty one.
    pub open spec fn wf(&self) -> bool {
        if self.entries@.len() == 0 {
            self.index == 0
        } else {
            self.index < self.entries@.len()
        }
    }

    /// The path at the selected position, when the listing is non-empty.
    pub open spec fn current(&self) -> Seq<u8> {
        self.paths()[self.index as int]
    }

    /// The neighbour window: the paths at the previous, current and next
    /// positions; empty for an empty listing.
    pub open spec fn window(&self) -> Set<Seq<u8>> {
        if self.entries@.len() == 0 {
            Set::empty()
        } else {
            Set::empty()
                .insert(self.paths()[prev_index(self.index as int, self.paths().len() as int)])
                .insert(self.paths()[self.index as int])
                .insert(self.paths()[next_index(self.index as int, self.paths().len() as int)])
        }
    }

    /// An empty listing: the "nothing to navigate" state.
    pub fn empty() -> (r: Listing)
        ensures
            r.entries@.len() == 0,
            r.index == 0,
            r.wf(),
    {
        Listing { entries: Vec::new(), index: 0 }
    }

    /// Steps the selected position one entry forward or backward, wrapping
    /// around at either end; a no-op on an empty listing.
    pub fn step(&mut self, forward: bool)
        requires
            old(self).wf(),
        ensures
            final(self).wf(),
            final(self).entries == old(self).entries,
            final(self).index as int == if old(self).entries@.len() == 0 {
                0int
            } else if forward {
                next_index(old(self).index as int, old(self).entries@.len() as int)
            } else {
                prev_index(old(self).index as int, old(self).entries@.len() as int)
            },
    {
        let n = self.entries.len();
        if n == 0 {
            return;
        }
        if forward {
            if self.index + 1 >= n {
                self.index = 0;
            } else {
                self.index = self.index + 1;
            }
        } else {
            if self.index == 0 {
                self.index = n - 1;
            } else {
                self.index = self.index - 1;
            }
        }
    }

    /// Whether `p` lies in the neighbour window of the listing.
    pub fn in_window(&self, p: &Vec<u8>) -> (r: bool)
        requires
            self.wf(),
        ensures
            r == self.window().contains(p@),
    {
        let n = self.entries.len();
        if n == 0 {
            return false;
        }
        let prev: usize = if self.index == 0 {
            n - 1
        } else {
            self.index - 1
        };
        let next: usize = if self.index + 1 >= n {
            0
        } else {
            self.index + 1
        };
        let r = bytes_eq(&self.entries[prev], p) || bytes_eq(&self.entries[self.index], p)
            || bytes_eq(&self.entries[next], p);
        proof {
            assert(self.paths()[prev as int] == self.entries@[prev as int]@);
            assert(self.paths()[self.index as int] == self.entries@[self.index as int]@);
            assert(self.paths()[next as int] == self.entries@[next as int]@);
        }
        r
    }

    /// The first position of `p` among the entries, when `p` is one of them.
    pub fn locate(&self, p: &Vec<u8>) -> (r: Option<usize>)
        ensures
            match r {
                Some(i) => 0 <= i < self.entries@.len() && self.paths()[i as int] == p@,
                None => !self.paths().contains(p@),
            },
    {
        let mut k: usize = 0;
        while k < self.entries.len()
            invariant
                0 <= k <= self.entries@.len(),
                forall|j: int| 0 <= j < k ==> self.paths()[j] != p@,
            decreases self.entries@.len() - k,
        {
            if bytes_eq(&self.entries[k], p) {
                proof {
                    assert(self.paths()[k as int] == self.entries@[k as int]@);
                }
                return Some(k);
            }
            k = k + 1;
        }
        None
    }

    /// The path at the selected position, cloned; `None` on an empty listing.
    pub fn current_path(&self) -> (r: Option<Vec<u8>>)
        requires
            self.wf(),
        ensures
            self.entries@.len() == 0 ==> r is None,
            self.entries@.len() > 0 ==> (r matches Some(p) && p@ == self.current()),
    {
        if self.entries.len() == 0 {
            None
        } else {
            Some(clone_bytes(&self.entries[self.index]))
        }
    }
}

/// Clones a byte string.
pub fn clone_bytes(v: &Vec<u8>) -> (r: Vec<u8>)
    ensures
        r@ == v@,
{
    let mut r: Vec<u8> = Vec::new();
    let mut i: usize = 0;
    while i < v.len()
        invariant
            0 <= i <= v.len(),
            r@ =~= v@.take(i as int),
        decreases v.len() - i,
    {
        r.push(v[i]);
        i = i + 1;
    }
    proof {
        assert(r@ =~= v@);
    }
    r
}

/// The prefetch queue of a listing: the previous and next neighbour paths of
/// the current position, in that order; empty for an empty listing.
pub open spec fn neighbours(l: Listing) -> Seq<Seq<u8>> {
    if l.entries@.len() == 0 {
        Seq::empty()
    } else {
        seq![
            l.paths()[prev_index(l.index as int, l.paths().len() as int)],
            l.paths()[next_index(l.index as int, l.paths().len() as int)],
        ]
    }
}

/// Applying `k` forward steps to index `i` in a listing of length `n`.
pub open spec fn iter_next(i: int, n: int, k: nat) -> int
    decreases k,
{
    if k == 0 {
        i
    } else {
        next_index(iter_next(i, n, (k - 1) as nat), n)
    }
}

proof fn lemma_iter_next_shape(i: int, n: int, k: nat)
    requires
        0 <= i < n,
        k <= n,
    ensures
        iter_next(i, n, k) == if i + k < n {
            i + k
        } else {
            i + k - n
        },
    decreases k,
{
    if k > 0 {
        lemma_iter_next_shape(i, n, (k - 1) as nat);
    }
}

/// Cyclic closure: in a non-empty listing of length `n`, stepping forward
/// `n` times from any valid index returns to that index.
pub proof fn lemma_next_cycles(i: int, n: int)
    requires
        0 < n,
        0 <= i < n,
    ensures
        iter_next(i, n, n as nat) == i,
{
    lemma_iter_next_shape(i, n, n as nat);
}

/// Stepping backward is the exact inverse of stepping forward, and the other
/// way round, at every valid index.
pub proof fn lemma_prev_inverts_next(i: int, n: int)
    requires
        0 < n,
        0 <= i < n,
    ensures
        prev_index(next_index(i, n), n) == i,
        next_index(prev_index(i, n), n) == i,
{
}

/// The sibling paths a scan of `dir` yields: each name that carries an
/// allowed extension, joined onto `dir`, in the order the host listed them.
pub open spec fn scan_candidates(dir: Seq<u8>, names: Seq<Seq<u8>>, exts: Seq<Seq<u8>>) -> Seq<
    Seq<u8>,
>
    decreases names.len(),
{
    if names.len() == 0 {
        Seq::empty()
    } else {
        let rest = scan_candidates(dir, names.drop_last(), exts);
        if has_allowed_ext(names.last(), exts) {
            rest.push(join(dir, names.last()))
        } else {
            rest
        }
    }
}

/// Inserts a path into a sorted vector, keeping it sorted.
fn sorted_insert(r: &mut Vec<Vec<u8>>, e: Vec<u8>)
    requires
        entries_sorted(path_views(old(r)@)),
    ensures
        entries_sorted(path_views(final(r)@)),
        path_views(final(r)@).to_multiset() == path_views(old(r)@).to_multiset().insert(e@),
{
    let ghost olds = path_views(r@);
    let mut idx: usize = 0;
    while idx < r.len()
        invariant
            0 <= idx <= r.len(),
            olds == path_views(r@),
            forall|j: int| 0 <= j < idx ==> ci_le(#[trigger] olds[j], e@),
        ensures
            0 <= idx <= r.len(),
            olds == path_views(r@),
            forall|j: int| 0 <= j < idx ==> ci_le(#[trigger] olds[j], e@),
            idx < r.len() ==> ci_le(e@, olds[idx as int]),
        decreases r.len() - idx,
    {
        if !ci_le_bytes(&r[idx], &e) {
            proof {
                lemma_ci_le_total(olds[idx as int], e@);
            }
            break;
        }
        idx = idx + 1;
    }
    r.insert(idx, e);
    proof {
        let news = path_views(r@);
        assert(news =~= olds.insert(idx as int, e@));
        assert forall|i: int, j: int| 0 <= i < j < news.len() implies ci_le(
            #[trigger] news[i],
            #[trigger] news[j],
        ) by {
            if i == idx && j > idx + 1 {
                lemma_ci_le_trans(e@, olds[idx as int], olds[j - 1]);
            }
        }
        vstd::seq_lib::to_multiset_insert(olds, idx as int, e@);
    }
}

/// Builds the listing for one directory: filters the host-listed names by
/// the extension allow-list, joins them onto the directory, sorts them
/// case-insensitively, and locates `target` among them. Returns `None` when
/// `target` is not among the recognized siblings.
pub fn build_listing(dir: &Vec<u8>, names: &Vec<Vec<u8>>, exts: &Vec<Vec<u8>>, target: &Vec<u8>)
    -> (r: Option<Listing>)
    ensures
        match r {
            Some(l) => {
                &&& l.wf()
                &&& l.entries@.len() > 0
                &&& entries_sorted(l.paths())
                &&& l.paths().to_multiset() == scan_candidates(
                    dir@,
                    path_views(names@),
                    path_views(exts@),
                ).to_multiset()
                &&& l.current() == target@
            },
            None => !scan_candidates(dir@, path_views(names@), path_views(exts@)).contains(
                target@,
            ),
        },
{
    let ghost extsv = path_views(exts@);
    let ghost namesv = path_views(names@);
    let mut entries: Vec<Vec<u8>> = Vec::new();
    proof {
        assert(namesv.take(0) =~= Seq::<Seq<u8>>::empty());
        assert(path_views(entries@) =~= Seq::<Seq<u8>>::empty());
    }
    let mut i: usize = 0;
    while i < names.len()
        invariant
            0 <= i <= names.len(),
            namesv == path_views(names@),
            extsv == path_views(exts@),
            entries_sorted(path_views(entries@)),
            path_views(entries@).to_multiset() == scan_candidates(
                dir@,
                namesv.take(i as int),
                extsv,
            ).to_multiset(),
        decreases names.len() - i,
    {
        let ghost pre = namesv.take(i as int);
        let ghost post = namesv.take(i as int + 1);
        proof {
            assert(post.drop_last() =~= pre);
            assert(post.last() == namesv[i as int]);
        }
        if name_has_allowed_ext(&names[i], exts) {
            let joined = join_bytes(dir, &names[i]);
            proof {
                assert(scan_candidates(dir@, post, extsv) == scan_candidates(
                    dir@,
                    pre,
                    extsv,
                ).push(join(dir@, namesv[i as int])));
            }
            sorted_insert(&mut entries, joined);
            proof {
                vstd::seq_lib::to_multiset_build(scan_candidates(dir@, pre, extsv), join(
                    dir@,
                    namesv[i as int],
                ));
            }
        }
        i = i + 1;
    }
    proof {
        assert(namesv.take(names@.len() as int) =~= namesv);
    }
    let ghost cands = scan_candidates(dir@, namesv, extsv);
    let mut k: usize = 0;
    while k < entries.len()
        invariant
            0 <= k <= entries.len(),
            cands == scan_candidates(dir@, path_views(names@), path_views(exts@)),
            entries_sorted(path_views(entries@)),
            path_views(entries@).to_multiset() == cands.to_multiset(),
            forall|j: int| 0 <= j < k ==> path_views(entries@)[j] != target@,
        decreases entries.len() - k,
    {
        if bytes_eq(&entries[k], target) {
            proof {
                assert(path_views(entries@)[k as int] == target@);
            }
            return Some(Listing { entries, index: k });
        }
        k = k + 1;
    }
    proof {
        let ev = path_views(entries@);
        assert(!ev.contains(target@));
        ev.to_multiset_ensures();
        cands.to_multiset_ensures();
        assert(ev.to_multiset().count(target@) == 0);
    }
    None
}

} // verus!
