//! Bounded image cache: decoded images keyed by path, pruned after every
//! navigation step to the neighbour window of the current listing position,
//! so it never holds more than the previous, current and next entries.
//!
//! A decoded image is held behind a reference-counted handle, so the display
//! boundary can keep a view of the current image without copying pixels.

use std::rc::Rc;
use vstd::prelude::*;

use crate::PixelBuffer;
use crate::listing::Listing;
use crate::listing::clone_bytes;

verus! {

/// The keys of an association list of cached images.
pub open spec fn ckeys(s: Seq<(Vec<u8>, Rc<PixelBuffer>)>) -> Seq<Seq<u8>> {
    s.map_values(|e: (Vec<u8>, Rc<PixelBuffer>)| e.0@)
}

/// First-match lookup in an association list of cached images.
pub open spec fn seq_get(s: Seq<(Vec<u8>, Rc<PixelBuffer>)>, k: Seq<u8>) -> Option<Rc<PixelBuffer>>
    decreases s.len(),
{
    if s.len() == 0 {
        None
    } else if s[0].0@ == k {
        Some(s[0].1)
    } else {
        seq_get(s.drop_first(), k)
    }
}

/// Appending an entry changes the lookup only for its key, and only when the
/// key was absent.
pub proof fn lemma_seq_get_push(
    s: Seq<(Vec<u8>, Rc<PixelBuffer>)>,
    e: (Vec<u8>, Rc<PixelBuffer>),
    k: Seq<u8>,
)
    ensures
        seq_get(s.push(e), k) == if seq_get(s, k) is Some {
            seq_get(s, k)
        } else if e.0@ == k {
            Some(e.1)
        } else {
            None
        },
    decreases s.len(),
{
    if s.len() == 0 {
        assert(s.push(e)[0] == e);
        assert(s.push(e).drop_first() =~= Seq::<(Vec<u8>, Rc<PixelBuffer>)>::empty());
        assert(seq_get(Seq::<(Vec<u8>, Rc<PixelBuffer>)>::empty(), k) is None);
    } else {
        assert(s.push(e)[0] == s[0]);
        assert(s.push(e).drop_first() =~= s.drop_first().push(e));
        lemma_seq_get_push(s.drop_first(), e, k);
    }
}

/// A lookup misses exactly when the key is absent.
pub proof fn lemma_seq_get_none(s: Seq<(Vec<u8>, Rc<PixelBuffer>)>, k: Seq<u8>)
    ensures
        (seq_get(s, k) is None) <==> !ckeys(s).contains(k),
    decreases s.len(),
{
    if s.len() == 0 {
        assert(!ckeys(s).contains(k));
    } else {
        lemma_seq_get_none(s.drop_first(), k);
        assert(ckeys(s.drop_first()) =~= ckeys(s).drop_first());
        if seq_get(s, k) is None {
            assert forall|j: int| 0 <= j < ckeys(s).len() implies ckeys(s)[j] != k by {
                if j > 0 {
                    assert(ckeys(s).drop_first()[j - 1] == ckeys(s)[j]);
                }
            }
        } else {
            if s[0].0@ == k {
                assert(ckeys(s)[0] == k);
            } else {
                let j = choose|j: int|
                    0 <= j < ckeys(s.drop_first()).len() && ckeys(s.drop_first())[j] == k;
                assert(ckeys(s)[j + 1] == k);
            }
        }
    }
}

/// A sequence of pairwise-distinct keys that all lie in a set of at most
/// three elements has at most three entries.
pub proof fn lemma_pigeonhole3(keys: Seq<Seq<u8>>, a: Seq<u8>, b: Seq<u8>, c: Seq<u8>)
    requires
        keys.no_duplicates(),
        forall|j: int| 0 <= j < keys.len() ==> keys[j] == a || keys[j] == b || keys[j] == c,
    ensures
        keys.len() <= 3,
{
    if keys.len() > 3 {
        assert(keys[0] == a || keys[0] == b || keys[0] == c);
        assert(keys[1] == a || keys[1] == b || keys[1] == c);
        assert(keys[2] == a || keys[2] == b || keys[2] == c);
        assert(keys[3] == a || keys[3] == b || keys[3] == c);
        assert(false);
    }
}

/// Decoded images keyed by path; the keys are pairwise distinct.
pub struct ImageCache {
    pub entries: Vec<(Vec<u8>, Rc<PixelBuffer>)>,
}

impl ImageCache {
    /// The cached paths, in insertion order.
    pub open spec fn keys(&self) -> Seq<Seq<u8>> {
        ckeys(self.entries@)
    }

    /// The image cached under `k`, when there is one.
    pub open spec fn spec_get(&self, k: Seq<u8>) -> Option<Rc<PixelBuffer>> {
        seq_get(self.entries@, k)
    }

    /// No path is cached twice.
    pub open spec fn wf(&self) -> bool {
        self.keys().no_duplicates()
    }

    /// An empty cache.
    pub fn new() -> (r: ImageCache)
        ensures
            r.wf(),
            r.entries@.len() == 0,
            forall|k: Seq<u8>| r.spec_get(k) is None,
    {
        let r = ImageCache { entries: Vec::new() };
        proof {
            assert(r.keys() =~= Seq::<Seq<u8>>::empty());
        }
        r
    }

    /// Returns a shared handle to the image cached under `p`, if any.
    pub fn lookup(&self, p: &Vec<u8>) -> (r: Option<Rc<PixelBuffer>>)
        ensures
            r == self.spec_get(p@),
    {
        let n = self.entries.len();
        proof {
            assert(self.entries@.skip(0) =~= self.entries@);
        }
        let mut i: usize = 0;
        while i < n
            invariant
                0 <= i <= n,
                n == self.entries@.len(),
                seq_get(self.entries@, p@) == seq_get(self.entries@.skip(i as int), p@),
            decreases n - i,
        {
            let ghost tail = self.entries@.skip(i as int);
            proof {
                assert(tail[0] == self.entries@[i as int]);
                assert(tail.drop_first() =~= self.entries@.skip(i as int + 1));
            }
            if crate::paths::bytes_eq(&self.entries[i].0, p) {
                let img = self.entries[i].1.clone();
                return Some(img);
            }
            i = i + 1;
        }
        proof {
            assert(self.entries@.skip(n as int) =~= Seq::<(Vec<u8>, Rc<PixelBuffer>)>::empty());
        }
        None
    }

    /// Caches `img` under the path `p`, which must not be cached yet.
    pub fn insert(&mut self, p: Vec<u8>, img: Rc<PixelBuffer>)
        requires
            old(self).wf(),
            old(self).spec_get(p@) is None,
        ensures
            final(self).wf(),
            final(self).keys() == old(self).keys().push(p@),
            final(self).spec_get(p@) == Some(img),
            forall|k: Seq<u8>| k != p@ ==> final(self).spec_get(k) == old(self).spec_get(k),
    {
        let ghost olds = self.entries@;
        let ghost pv = p@;
        self.entries.push((p, img));
        proof {
            assert(ckeys(self.entries@) =~= ckeys(olds).push(pv));
            lemma_seq_get_none(olds, pv);
            assert forall|k: Seq<u8>| true implies seq_get(self.entries@, k) == (if k == pv {
                Some(img)
            } else {
                seq_get(olds, k)
            }) by {
                lemma_seq_get_push(olds, self.entries@.last(), k);
            }
            assert forall|i: int, j: int|
                0 <= i < self.keys().len() && 0 <= j < self.keys().len() && i != j implies self.keys()[i]
                != self.keys()[j] by {
                if i == olds.len() || j == olds.len() {
                    assert(!ckeys(olds).contains(pv));
                }
            }
        }
    }

    /// Evicts every entry whose path lies outside the neighbour window of
    /// `l`; entries inside the window are kept untouched. Afterwards the
    /// cache holds at most three entries.
    pub fn retain_window(&mut self, l: &Listing)
        requires
            old(self).wf(),
            l.wf(),
        ensures
            final(self).wf(),
            forall|k: Seq<u8>|
                final(self).spec_get(k) == if l.window().contains(k) {
                    old(self).spec_get(k)
                } else {
                    None::<Rc<PixelBuffer>>
                },
            forall|j: int|
                0 <= j < final(self).keys().len() ==> l.window().contains(final(self).keys()[j]),
            final(self).entries@.len() <= 3,
    {
        let ghost olds = self.entries@;
        let ghost w = l.window();
        let mut kept: Vec<(Vec<u8>, Rc<PixelBuffer>)> = Vec::new();
        proof {
            assert(olds.take(0) =~= Seq::<(Vec<u8>, Rc<PixelBuffer>)>::empty());
            assert(ckeys(kept@) =~= Seq::<Seq<u8>>::empty());
        }
        let n = self.entries.len();
        let mut i: usize = 0;
        while i < n
            invariant
                0 <= i <= n,
                l.wf(),
                w == l.window(),
                n == self.entries@.len(),
                self.entries@ == olds,
                ckeys(olds).no_duplicates(),
                ckeys(kept@).no_duplicates(),
                forall|j: int|
                    0 <= j < kept@.len() ==> exists|m: int|
                        0 <= m < i && (#[trigger] kept@[j]).0@ == olds[m].0@,
                forall|j: int| 0 <= j < kept@.len() ==> w.contains((#[trigger] kept@[j]).0@),
                forall|k: Seq<u8>|
                    seq_get(kept@, k) == if w.contains(k) {
                        seq_get(olds.take(i as int), k)
                    } else {
                        None::<Rc<PixelBuffer>>
                    },
            decreases n - i,
        {
            let ghost pre = kept@;
            let ghost key = olds[i as int].0@;
            proof {
                assert(olds.take(i as int + 1) =~= olds.take(i as int).push(olds[i as int]));
                assert(ckeys(olds.take(i as int)) =~= ckeys(olds).take(i as int));
            }
            if l.in_window(&self.entries[i].0) {
                let kc = clone_bytes(&self.entries[i].0);
                let rc = self.entries[i].1.clone();
                kept.push((kc, rc));
                proof {
                    assert(kept@.last().0@ == key);
                    assert(kept@.last().1 == olds[i as int].1);
                    assert(ckeys(kept@) =~= ckeys(pre).push(key));
                    assert forall|j: int| 0 <= j < ckeys(pre).len() implies ckeys(pre)[j] != key by {
                        let m = choose|m: int| 0 <= m < i && pre[j].0@ == olds[m].0@;
                        assert(ckeys(olds)[m] == olds[m].0@);
                        assert(ckeys(olds)[i as int] == key);
                    }
                    assert(seq_get(pre, key) is None) by {
                        lemma_seq_get_none(pre, key);
                    }
                    assert forall|k: Seq<u8>| true implies seq_get(kept@, k) == (if w.contains(k) {
                        seq_get(olds.take(i as int + 1), k)
                    } else {
                        None::<Rc<PixelBuffer>>
                    }) by {
                        lemma_seq_get_push(pre, kept@.last(), k);
                        lemma_seq_get_push(olds.take(i as int), olds[i as int], k);
                    }
                }
            } else {
                proof {
                    assert(!w.contains(key));
                    assert forall|k: Seq<u8>| true implies seq_get(kept@, k) == (if w.contains(k) {
                        seq_get(olds.take(i as int + 1), k)
                    } else {
                        None::<Rc<PixelBuffer>>
                    }) by {
                        lemma_seq_get_push(olds.take(i as int), olds[i as int], k);
                    }
                }
            }
            i = i + 1;
        }
        proof {
            assert(olds.take(n as int) =~= olds);
        }
        self.entries = kept;
        proof {
            if self.entries@.len() > 0 {
                assert(l.window().contains(self.keys()[0]));
                assert(l.entries@.len() > 0);
                let pi = crate::listing::prev_index(l.index as int, l.paths().len() as int);
                let ni = crate::listing::next_index(l.index as int, l.paths().len() as int);
                lemma_pigeonhole3(
                    self.keys(),
                    l.paths()[pi],
                    l.paths()[l.index as int],
                    l.paths()[ni],
                );
            }
        }
    }
}

} // verus!
