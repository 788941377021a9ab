//! Playback manager: the navigation state machine of the browser.
//!
//! The manager owns the directory listing, the bounded image cache, the
//! pending load request and the handle to the image currently shown. The
//! host loop drives it once per frame: `begin_tick` consumes the pending
//! request and answers with the outside work the engine needs — listing a
//! directory or decoding a file — and `provide_scan` / `provide_decode` hand
//! the outcome back in until the tick reports `Done`. Requests overwrite one
//! another: issuing a new request between ticks drops the previous one.

use std::rc::Rc;
use vstd::prelude::*;

use crate::PixelBuffer;
use crate::cache::ImageCache;
use crate::cache::lemma_pigeonhole3;
use crate::listing::Listing;
use crate::listing::build_listing;
use crate::listing::clone_bytes;
use crate::listing::entries_sorted;
use crate::listing::neighbours;
use crate::listing::next_index;
use crate::listing::path_views;
use crate::listing::prev_index;
use crate::listing::scan_candidates;
use crate::paths::dir_of;
use crate::paths::dir_of_bytes;
use crate::paths::bytes_eq;

verus! {

/// What the engine should do next: nothing, load one specific file, or step
/// within the active listing. A new request overwrites the pending one.
pub enum LoadRequest {
    Idle,
    LoadSpecific(Vec<u8>),
    LoadNext,
    LoadPrevious,
}

/// The outside work a tick asks the host for, or `Done` when the tick is
/// complete.
#[derive(Debug)]
pub enum TickAction {
    Done,
    NeedScan(Vec<u8>),
    NeedDecode(Vec<u8>),
}

/// The host's answer to a `NeedScan`: the file names of the directory, or
/// the report that it could not be listed.
pub enum ScanOutcome {
    Listed(Vec<Vec<u8>>),
    Unreadable,
}

/// A recorded decode failure: the path that failed and the host's reason.
pub struct DecodeError {
    pub path: Vec<u8>,
    pub cause: Vec<u8>,
}

/// Where the current tick stands: at rest, waiting for a directory scan, or
/// waiting for one decode (the main load, or a neighbour prefetch with the
/// queue of the remaining ones).
pub enum Phase {
    Ready,
    AwaitScan { target: Vec<u8> },
    AwaitDecode { path: Vec<u8>, main: bool, rest: Vec<Vec<u8>> },
}

/// The navigation-and-cache engine.
pub struct PlaybackManager {
    pub exts: Vec<Vec<u8>>,
    pub listing: Listing,
    pub scanned_dir: Option<Vec<u8>>,
    pub cache: ImageCache,
    pub pending: LoadRequest,
    pub phase: Phase,
    pub shown: Option<Rc<PixelBuffer>>,
    pub shown_path: Option<Vec<u8>>,
    pub last_error: Option<DecodeError>,
    pub idle: bool,
}

impl PlaybackManager {
    /// Structural invariant: the listing index is valid, cached paths are
    /// pairwise distinct, every cached path lies in the neighbour window,
    /// the cache holds at most three entries, and a shown image always comes
    /// with the path it was decoded from.
    pub open spec fn base_wf(&self) -> bool {
        &&& self.listing.wf()
        &&& self.cache.wf()
        &&& (forall|j: int|
            0 <= j < self.cache.keys().len() ==> self.listing.window().contains(
                #[trigger] self.cache.keys()[j],
            ))
        &&& self.cache.entries@.len() <= 3
        &&& (self.shown is Some <==> self.shown_path is Some)
    }

    /// The shown image, when present and when the listing is non-empty,
    /// corresponds to the path at the listing's current index.
    pub open spec fn corr_now(&self) -> bool {
        self.listing.entries@.len() > 0 ==> (self.shown_path matches Some(sp) ==> sp@
            == self.listing.current())
    }

    /// Full invariant, phase included: between ticks the shown image matches
    /// the current index; while a decode is awaited, its path is not cached
    /// yet, and a main load targets the current index.
    pub open spec fn wf(&self) -> bool {
        &&& self.base_wf()
        &&& match self.phase {
            Phase::Ready => self.corr_now(),
            Phase::AwaitScan { .. } => true,
            Phase::AwaitDecode { path, main, .. } => {
                &&& self.cache.spec_get(path@) is None
                &&& (main ==> (self.listing.entries@.len() > 0 ==> path@
                    == self.listing.current()))
                &&& (!main ==> self.corr_now())
            },
        }
    }

    /// Nothing in the neighbour window is left to decode.
    pub open spec fn window_populated(&self) -> bool {
        forall|k: Seq<u8>|
            self.listing.window().contains(k) ==> (#[trigger] self.cache.spec_get(k)) is Some
    }

    /// The cache after the call holds exactly the entries of the cache
    /// before it whose paths lie in the new neighbour window.
    pub open spec fn pruned_to_window(pre: Self, post: Self) -> bool {
        forall|k: Seq<u8>|
            (#[trigger] post.cache.spec_get(k)) == if post.listing.window().contains(k) {
                pre.cache.spec_get(k)
            } else {
                None::<Rc<PixelBuffer>>
            }
    }

    /// The main load of `p` was served from the cache: `img` is shown and
    /// recorded as coming from `p`, and the error surface is clear.
    pub open spec fn load_hit(post: Self, img: Rc<PixelBuffer>, p: Seq<u8>) -> bool {
        &&& post.shown == Some(img)
        &&& (post.shown_path matches Some(sp) && sp@ == p)
        &&& post.last_error is None
    }

    /// The main load of `p` missed the cache: the shown image and error are
    /// untouched, and the tick now waits for the host to decode `p`, with
    /// the neighbour paths queued for prefetch behind it.
    pub open spec fn load_miss(pre: Self, post: Self, act: TickAction, p: Seq<u8>) -> bool {
        &&& post.shown == pre.shown
        &&& post.shown_path == pre.shown_path
        &&& post.last_error == pre.last_error
        &&& (post.phase matches Phase::AwaitDecode { path, main, rest } && path@ == p && main
            && path_views(rest@) == neighbours(post.listing))
        &&& (act matches TickAction::NeedDecode(q) && q@ == p)
    }

    /// Where a tick stands against its prefetch queue: either every queued
    /// path is cached and the tick is done, or the host is asked to decode
    /// the first queued path that is not cached, with the paths behind it
    /// still queued.
    pub open spec fn prefetch_status(post: Self, act: TickAction, queue: Seq<Seq<u8>>) -> bool {
        match act {
            TickAction::Done => {
                &&& post.phase is Ready
                &&& (forall|j: int|
                    0 <= j < queue.len() ==> (#[trigger] post.cache.spec_get(queue[j])) is Some)
            },
            TickAction::NeedDecode(q) => {
                &&& (post.phase matches Phase::AwaitDecode { path, main, rest } && path@ == q@
                    && !main && (exists|i: int|
                    0 <= i < queue.len() && queue[i] == q@ && (forall|j: int|
                        0 <= j < i ==> (#[trigger] post.cache.spec_get(queue[j])) is Some)
                        && path_views(rest@) == queue.skip(i + 1)))
                &&& post.cache.spec_get(q@) is None
            },
            TickAction::NeedScan(_) => false,
        }
    }

    /// The returned action tells where the tick stands: `Done` means the
    /// phase is back at rest; a decode demand names the awaited path, which
    /// is not cached.
    pub open spec fn act_matches_phase(post: Self, act: TickAction) -> bool {
        match act {
            TickAction::Done => post.phase is Ready,
            TickAction::NeedDecode(q) => (post.phase matches Phase::AwaitDecode { path, .. }
                && path@ == q@ && post.cache.spec_get(q@) is None),
            TickAction::NeedScan(d) => (post.phase matches Phase::AwaitScan { target } && dir_of(
                target@,
            ) == d@),
        }
    }

    /// The listing fell back to the empty "nothing to navigate" state, the
    /// scanned directory was invalidated, the cache was emptied, and the
    /// tick waits for a decode of `p` all the same.
    pub open spec fn fallback_then_decode(pre: Self, post: Self, act: TickAction, p: Seq<u8>) -> bool {
        &&& post.listing.entries@.len() == 0
        &&& post.listing.index == 0
        &&& post.scanned_dir is None
        &&& post.cache.entries@.len() == 0
        &&& (forall|k: Seq<u8>| (#[trigger] post.cache.spec_get(k)) is None)
        &&& Self::load_miss(pre, post, act, p)
    }

    /// One navigation step: the entries are kept, the index moves one entry
    /// with wraparound, the cache is pruned to the new window, and the entry
    /// at the new index is loaded — from the cache when present, else by
    /// asking the host for a decode.
    pub open spec fn stepped(pre: Self, post: Self, act: TickAction, forward: bool) -> bool {
        let n = pre.listing.entries@.len() as int;
        &&& post.listing.entries == pre.listing.entries
        &&& post.listing.index as int == if n == 0 {
            0int
        } else if forward {
            next_index(pre.listing.index as int, n)
        } else {
            prev_index(pre.listing.index as int, n)
        }
        &&& Self::pruned_to_window(pre, post)
        &&& post.scanned_dir == pre.scanned_dir
        &&& if n == 0 {
            &&& act is Done
            &&& post.shown == pre.shown
            &&& post.shown_path == pre.shown_path
            &&& post.last_error == pre.last_error
        } else {
            match pre.cache.spec_get(post.listing.current()) {
                Some(img) => (Self::load_hit(post, img, post.listing.current())
                    && Self::prefetch_status(post, act, neighbours(post.listing))),
                None => Self::load_miss(pre, post, act, post.listing.current()),
            }
        }
    }

    /// Cache bound: whatever sequence of requests and ticks brought the
    /// engine here, the cache holds at most three entries — the invariant
    /// every public operation preserves includes the bound.
    pub proof fn lemma_cache_bounded(m: PlaybackManager)
        requires
            m.wf(),
        ensures
            m.cache.entries@.len() <= 3,
    {
    }

    /// A fresh engine: empty listing, empty cache, no pending request,
    /// nothing shown, no error, not idle.
    pub fn new(allowed_exts: Vec<Vec<u8>>) -> (r: PlaybackManager)
        ensures
            r.wf(),
            r.exts == allowed_exts,
            r.listing.entries@.len() == 0,
            r.listing.index == 0,
            r.cache.entries@.len() == 0,
            forall|k: Seq<u8>| (#[trigger] r.cache.spec_get(k)) is None,
            r.pending is Idle,
            r.phase is Ready,
            r.shown is None,
            r.shown_path is None,
            r.last_error is None,
            r.idle == false,
            r.scanned_dir is None,
    {
        PlaybackManager {
            exts: allowed_exts,
            listing: Listing::empty(),
            scanned_dir: None,
            cache: ImageCache::new(),
            pending: LoadRequest::Idle,
            phase: Phase::Ready,
            shown: None,
            shown_path: None,
            last_error: None,
            idle: false,
        }
    }

    /// Overwrites the pending request: last writer wins, requests never
    /// queue.
    pub fn request(&mut self, r: LoadRequest)
        requires
            old(self).wf(),
        ensures
            final(self).wf(),
            final(self).pending == r,
            final(self).listing == old(self).listing,
            final(self).cache == old(self).cache,
            final(self).shown == old(self).shown,
            final(self).shown_path == old(self).shown_path,
            final(self).last_error == old(self).last_error,
            final(self).scanned_dir == old(self).scanned_dir,
            final(self).phase == old(self).phase,
            final(self).idle == old(self).idle,
            final(self).exts == old(self).exts,
    {
        self.pending = r;
    }

    /// The image currently shown, as a shared handle; absent when nothing
    /// has loaded or the last main decode failed.
    pub fn current_image(&self) -> (r: Option<Rc<PixelBuffer>>)
        ensures
            r == self.shown,
    {
        match &self.shown {
            Some(img) => Some(img.clone()),
            None => None,
        }
    }

    /// Whether the host loop may throttle: set by the last tick.
    pub fn idle_hint(&self) -> (r: bool)
        ensures
            r == self.idle,
    {
        self.idle
    }

    /// The most recent main-decode failure, if any.
    pub fn last_error(&self) -> (r: &Option<DecodeError>)
        ensures
            r == &self.last_error,
    {
        &self.last_error
    }

    /// Forgets which directory is scanned, so that the next specific load
    /// rescans it and picks up file-system changes. Navigation state is
    /// untouched.
    pub fn invalidate(&mut self)
        requires
            old(self).wf(),
        ensures
            final(self).wf(),
            final(self).scanned_dir is None,
            final(self).listing == old(self).listing,
            final(self).cache == old(self).cache,
            final(self).shown == old(self).shown,
            final(self).shown_path == old(self).shown_path,
            final(self).last_error == old(self).last_error,
            final(self).pending == old(self).pending,
            final(self).phase == old(self).phase,
            final(self).idle == old(self).idle,
            final(self).exts == old(self).exts,
    {
        self.scanned_dir = None;
    }

    /// Decides whether every path of the neighbour window is cached.
    fn compute_window_populated(&self) -> (r: bool)
        requires
            self.listing.wf(),
        ensures
            r == self.window_populated(),
    {
        let n = self.listing.entries.len();
        if n == 0 {
            return true;
        }
        let pi: usize = if self.listing.index == 0 {
            n - 1
        } else {
            self.listing.index - 1
        };
        let ni: usize = if self.listing.index + 1 >= n {
            0
        } else {
            self.listing.index + 1
        };
        let a = self.cache.lookup(&self.listing.entries[pi]);
        let b = self.cache.lookup(&self.listing.entries[self.listing.index]);
        let c = self.cache.lookup(&self.listing.entries[ni]);
        let r = a.is_some() && b.is_some() && c.is_some();
        proof {
            assert(self.listing.paths()[pi as int] == self.listing.entries@[pi as int]@);
            assert(self.listing.paths()[self.listing.index as int]
                == self.listing.entries@[self.listing.index as int]@);
            assert(self.listing.paths()[ni as int] == self.listing.entries@[ni as int]@);
        }
        r
    }

    /// Hands back the prefetch queue for the current position: the previous
    /// and next neighbour paths; empty on an empty listing.
    fn neighbour_queue(&self) -> (r: Vec<Vec<u8>>)
        requires
            self.listing.wf(),
        ensures
            path_views(r@) == neighbours(self.listing),
    {
        let mut rest: Vec<Vec<u8>> = Vec::new();
        let n = self.listing.entries.len();
        if n > 0 {
            let pi: usize = if self.listing.index == 0 {
                n - 1
            } else {
                self.listing.index - 1
            };
            let ni: usize = if self.listing.index + 1 >= n {
                0
            } else {
                self.listing.index + 1
            };
            rest.push(clone_bytes(&self.listing.entries[pi]));
            rest.push(clone_bytes(&self.listing.entries[ni]));
            proof {
                assert(path_views(rest@) =~= neighbours(self.listing));
            }
        } else {
            proof {
                assert(path_views(rest@) =~= neighbours(self.listing));
            }
        }
        rest
    }

    /// Walks the prefetch queue to the first path that is not cached yet and
    /// asks the host to decode it; reports the tick done when none is left.
    fn advance(&mut self, rest: Vec<Vec<u8>>) -> (act: TickAction)
        requires
            old(self).base_wf(),
            old(self).corr_now(),
        ensures
            final(self).wf(),
            final(self).listing == old(self).listing,
            final(self).cache == old(self).cache,
            final(self).shown == old(self).shown,
            final(self).shown_path == old(self).shown_path,
            final(self).last_error == old(self).last_error,
            final(self).pending == old(self).pending,
            final(self).scanned_dir == old(self).scanned_dir,
            final(self).idle == old(self).idle,
            final(self).exts == old(self).exts,
            Self::prefetch_status(*final(self), act, path_views(rest@)),
    {
        let ghost orig = path_views(rest@);
        let cap: usize = rest.len();
        proof {
            assert(orig.len() == rest@.len());
            assert(orig.len() == cap as int);
        }
        let mut q = rest;
        let mut k: usize = 0;
        loop
            invariant
                *self == *old(self),
                old(self).base_wf(),
                old(self).corr_now(),
                orig == path_views(rest@),
                orig.len() <= usize::MAX as int,
                0 <= k <= orig.len(),
                path_views(q@) == orig.skip(k as int),
                forall|j: int| 0 <= j < k ==> (#[trigger] self.cache.spec_get(orig[j])) is Some,
            ensures
                *self == *old(self),
                k == orig.len(),
                forall|j: int| 0 <= j < k ==> (#[trigger] self.cache.spec_get(orig[j])) is Some,
            decreases q.len(),
        {
            if q.len() == 0 {
                proof {
                    assert(path_views(q@).len() == q@.len());
                    assert(orig.skip(k as int).len() == orig.len() - k);
                }
                break;
            }
            proof {
                assert(path_views(q@).len() == q@.len());
                assert(k < orig.len());
            }
            let ghost pre = path_views(q@);
            let p = q.remove(0);
            proof {
                assert(pre[0] == orig.skip(k as int)[0]);
                assert(pre[0] == orig[k as int]);
                assert(path_views(q@) =~= pre.drop_first());
                assert(pre.drop_first() =~= orig.skip(k as int + 1));
            }
            match self.cache.lookup(&p) {
                None => {
                    let ap = clone_bytes(&p);
                    let ghost qv = path_views(q@);
                    self.phase = Phase::AwaitDecode { path: p, main: false, rest: q };
                    proof {
                        assert(qv == orig.skip(k as int + 1));
                        assert((k as int) < orig.len() && orig[k as int] == ap@);
                    }
                    return TickAction::NeedDecode(ap);
                },
                Some(_) => {},
            }
            k = k + 1;
        }
        self.phase = Phase::Ready;
        TickAction::Done
    }

    /// Attempts the main load of `p`: serves it from the cache when present,
    /// else asks the host for a decode; either way the neighbour prefetch
    /// queue follows.
    fn start_load(&mut self, p: Vec<u8>) -> (act: TickAction)
        requires
            old(self).base_wf(),
            old(self).listing.entries@.len() > 0 ==> p@ == old(self).listing.current(),
        ensures
            final(self).wf(),
            final(self).listing == old(self).listing,
            final(self).cache == old(self).cache,
            final(self).pending == old(self).pending,
            final(self).scanned_dir == old(self).scanned_dir,
            final(self).idle == old(self).idle,
            final(self).exts == old(self).exts,
            match old(self).cache.spec_get(p@) {
                Some(img) => (Self::load_hit(*final(self), img, p@) && Self::prefetch_status(
                    *final(self),
                    act,
                    neighbours(old(self).listing),
                )),
                None => Self::load_miss(*old(self), *final(self), act, p@),
            },
            Self::act_matches_phase(*final(self), act),
    {
        let rest = self.neighbour_queue();
        match self.cache.lookup(&p) {
            Some(img) => {
                self.shown = Some(img);
                self.shown_path = Some(p);
                self.last_error = None;
                self.advance(rest)
            },
            None => {
                let ap = clone_bytes(&p);
                self.phase = Phase::AwaitDecode { path: p, main: true, rest };
                TickAction::NeedDecode(ap)
            },
        }
    }

    /// Falls back to the empty listing: nothing to navigate, no scanned
    /// directory, cache emptied.
    fn fallback_empty(&mut self)
        requires
            old(self).base_wf(),
        ensures
            final(self).base_wf(),
            final(self).listing.entries@.len() == 0,
            final(self).listing.index == 0,
            final(self).scanned_dir is None,
            final(self).cache.entries@.len() == 0,
            forall|k: Seq<u8>| (#[trigger] final(self).cache.spec_get(k)) is None,
            final(self).shown == old(self).shown,
            final(self).shown_path == old(self).shown_path,
            final(self).last_error == old(self).last_error,
            final(self).pending == old(self).pending,
            final(self).phase == old(self).phase,
            final(self).idle == old(self).idle,
            final(self).exts == old(self).exts,
    {
        self.listing = Listing::empty();
        self.scanned_dir = None;
        self.cache.retain_window(&self.listing);
        proof {
            assert(self.listing.window() =~= Set::<Seq<u8>>::empty());
            if self.cache.entries@.len() > 0 {
                assert(self.listing.window().contains(self.cache.keys()[0]));
            }
        }
    }

    /// One tick of the engine: consumes the pending request and carries it
    /// out as far as it can without outside work. `Idle` changes nothing but
    /// the idle hint, which turns on exactly when the neighbour window is
    /// fully cached. A step moves the index with wraparound, prunes the
    /// cache and loads the new current entry. A specific load either reuses
    /// the scanned directory or asks the host to list the new one.
    pub fn begin_tick(&mut self) -> (act: TickAction)
        requires
            old(self).wf(),
        ensures
            final(self).wf(),
            final(self).exts == old(self).exts,
            !(old(self).phase is Ready) ==> (*final(self) == *old(self) && act is Done),
            old(self).phase is Ready ==> final(self).pending is Idle,
            old(self).phase is Ready ==> Self::act_matches_phase(*final(self), act),
            old(self).phase is Ready ==> match old(self).pending {
                LoadRequest::Idle => {
                    &&& act is Done
                    &&& final(self).listing == old(self).listing
                    &&& final(self).cache == old(self).cache
                    &&& final(self).shown == old(self).shown
                    &&& final(self).shown_path == old(self).shown_path
                    &&& final(self).last_error == old(self).last_error
                    &&& final(self).scanned_dir == old(self).scanned_dir
                    &&& final(self).idle == old(self).window_populated()
                },
                LoadRequest::LoadNext => {
                    &&& Self::stepped(*old(self), *final(self), act, true)
                    &&& final(self).idle == false
                },
                LoadRequest::LoadPrevious => {
                    &&& Self::stepped(*old(self), *final(self), act, false)
                    &&& final(self).idle == false
                },
                LoadRequest::LoadSpecific(p) => {
                    &&& final(self).idle == false
                    &&& if old(self).scanned_dir matches Some(sd) && sd@ == dir_of(p@) {
                        if old(self).listing.paths().contains(p@) {
                            &&& final(self).listing.entries == old(self).listing.entries
                            &&& final(self).listing.index < final(self).listing.entries@.len()
                            &&& final(self).listing.current() == p@
                            &&& final(self).scanned_dir == old(self).scanned_dir
                            &&& Self::pruned_to_window(*old(self), *final(self))
                            &&& match old(self).cache.spec_get(p@) {
                                Some(img) => (Self::load_hit(*final(self), img, p@)
                                    && Self::prefetch_status(
                                    *final(self),
                                    act,
                                    neighbours(final(self).listing),
                                )),
                                None => Self::load_miss(*old(self), *final(self), act, p@),
                            }
                        } else {
                            Self::fallback_then_decode(*old(self), *final(self), act, p@)
                        }
                    } else {
                        &&& (final(self).phase matches Phase::AwaitScan { target } && target@
                            == p@)
                        &&& (act matches TickAction::NeedScan(d) && d@ == dir_of(p@))
                        &&& final(self).listing == old(self).listing
                        &&& final(self).cache == old(self).cache
                        &&& final(self).shown == old(self).shown
                        &&& final(self).shown_path == old(self).shown_path
                        &&& final(self).last_error == old(self).last_error
                        &&& final(self).scanned_dir == old(self).scanned_dir
                    }
                },
            },
    {
        match &self.phase {
            Phase::Ready => {},
            _ => {
                return TickAction::Done;
            },
        }
        let mut req = LoadRequest::Idle;
        core::mem::swap(&mut req, &mut self.pending);
        match req {
            LoadRequest::Idle => {
                self.idle = self.compute_window_populated();
                TickAction::Done
            },
            LoadRequest::LoadNext => {
                self.idle = false;
                self.step_and_load(true)
            },
            LoadRequest::LoadPrevious => {
                self.idle = false;
                self.step_and_load(false)
            },
            LoadRequest::LoadSpecific(p) => {
                self.idle = false;
                self.load_specific(p)
            },
        }
    }

    /// Carries out `LoadNext` / `LoadPrevious`.
    fn step_and_load(&mut self, forward: bool) -> (act: TickAction)
        requires
            old(self).wf(),
            old(self).phase is Ready,
        ensures
            final(self).wf(),
            Self::stepped(*old(self), *final(self), act, forward),
            final(self).pending == old(self).pending,
            final(self).idle == old(self).idle,
            final(self).exts == old(self).exts,
            Self::act_matches_phase(*final(self), act),
    {
        self.listing.step(forward);
        self.cache.retain_window(&self.listing);
        match self.listing.current_path() {
            None => {
                proof {
                    assert(self.listing.window() =~= Set::<Seq<u8>>::empty());
                }
                TickAction::Done
            },
            Some(cur) => self.start_load(cur),
        }
    }

    /// Carries out `LoadSpecific`.
    fn load_specific(&mut self, p: Vec<u8>) -> (act: TickAction)
        requires
            old(self).wf(),
            old(self).phase is Ready,
        ensures
            final(self).wf(),
            final(self).pending == old(self).pending,
            final(self).idle == old(self).idle,
            final(self).exts == old(self).exts,
            Self::act_matches_phase(*final(self), act),
            if old(self).scanned_dir matches Some(sd) && sd@ == dir_of(p@) {
                if old(self).listing.paths().contains(p@) {
                    &&& final(self).listing.entries == old(self).listing.entries
                    &&& final(self).listing.index < final(self).listing.entries@.len()
                    &&& final(self).listing.current() == p@
                    &&& final(self).scanned_dir == old(self).scanned_dir
                    &&& Self::pruned_to_window(*old(self), *final(self))
                    &&& match old(self).cache.spec_get(p@) {
                        Some(img) => (Self::load_hit(*final(self), img, p@)
                            && Self::prefetch_status(
                            *final(self),
                            act,
                            neighbours(final(self).listing),
                        )),
                        None => Self::load_miss(*old(self), *final(self), act, p@),
                    }
                } else {
                    Self::fallback_then_decode(*old(self), *final(self), act, p@)
                }
            } else {
                &&& (final(self).phase matches Phase::AwaitScan { target } && target@ == p@)
                &&& (act matches TickAction::NeedScan(d) && d@ == dir_of(p@))
                &&& final(self).listing == old(self).listing
                &&& final(self).cache == old(self).cache
                &&& final(self).shown == old(self).shown
                &&& final(self).shown_path == old(self).shown_path
                &&& final(self).last_error == old(self).last_error
                &&& final(self).scanned_dir == old(self).scanned_dir
            },
    {
        let d = dir_of_bytes(&p);
        let same = match &self.scanned_dir {
            Some(sd) => bytes_eq(sd, &d),
            None => false,
        };
        if !same {
            self.phase = Phase::AwaitScan { target: p };
            return TickAction::NeedScan(d);
        }
        match self.listing.locate(&p) {
            Some(i) => {
                self.listing.index = i;
                self.cache.retain_window(&self.listing);
                self.start_load(p)
            },
            None => {
                self.fallback_empty();
                self.start_load(p)
            },
        }
    }

    /// Applies the host's directory-scan outcome to a tick that awaits one:
    /// builds the new listing, locates the target, prunes the cache and
    /// attempts the main load; an unreadable directory or an absent target
    /// falls back to the empty listing, and the target is decoded all the
    /// same. A call in any other phase changes nothing.
    pub fn provide_scan(&mut self, outcome: ScanOutcome) -> (act: TickAction)
        requires
            old(self).wf(),
        ensures
            final(self).wf(),
            final(self).exts == old(self).exts,
            final(self).pending == old(self).pending,
            final(self).idle == old(self).idle,
            !(old(self).phase matches Phase::AwaitScan { .. }) ==> (*final(self) == *old(self)
                && act is Done),
            (old(self).phase matches Phase::AwaitScan { .. }) ==> Self::act_matches_phase(
                *final(self),
                act,
            ),
            old(self).phase matches Phase::AwaitScan { target } ==> match outcome {
                ScanOutcome::Unreadable => Self::fallback_then_decode(
                    *old(self),
                    *final(self),
                    act,
                    target@,
                ),
                ScanOutcome::Listed(names) => ({
                    let cands = scan_candidates(
                        dir_of(target@),
                        path_views(names@),
                        path_views(old(self).exts@),
                    );
                    if cands.contains(target@) {
                        &&& final(self).listing.wf()
                        &&& final(self).listing.entries@.len() > 0
                        &&& entries_sorted(final(self).listing.paths())
                        &&& final(self).listing.paths().to_multiset() == cands.to_multiset()
                        &&& final(self).listing.current() == target@
                        &&& (final(self).scanned_dir matches Some(sd) && sd@ == dir_of(target@))
                        &&& Self::pruned_to_window(*old(self), *final(self))
                        &&& match old(self).cache.spec_get(target@) {
                            Some(img) => (Self::load_hit(*final(self), img, target@)
                                && Self::prefetch_status(
                                *final(self),
                                act,
                                neighbours(final(self).listing),
                            )),
                            None => Self::load_miss(*old(self), *final(self), act, target@),
                        }
                    } else {
                        Self::fallback_then_decode(*old(self), *final(self), act, target@)
                    }
                }),
            },
    {
        let mut ph = Phase::Ready;
        core::mem::swap(&mut ph, &mut self.phase);
        match ph {
            Phase::AwaitScan { target } => {
                match outcome {
                    ScanOutcome::Listed(names) => {
                        let d = dir_of_bytes(&target);
                        match build_listing(&d, &names, &self.exts, &target) {
                            Some(l) => {
                                self.listing = l;
                                self.scanned_dir = Some(d);
                                self.cache.retain_window(&self.listing);
                                proof {
                                    let pv = self.listing.paths();
                                    let cands = crate::listing::scan_candidates(
                                        dir_of(target@),
                                        path_views(names@),
                                        path_views(self.exts@),
                                    );
                                    pv.to_multiset_ensures();
                                    cands.to_multiset_ensures();
                                    assert(pv[self.listing.index as int] == target@);
                                    assert(pv.contains(target@));
                                    assert(cands.to_multiset().count(target@) > 0);
                                    assert(self.listing.window().contains(self.listing.current()));
                                }
                                self.start_load(target)
                            },
                            None => {
                                self.fallback_empty();
                                self.start_load(target)
                            },
                        }
                    },
                    ScanOutcome::Unreadable => {
                        self.fallback_empty();
                        self.start_load(target)
                    },
                }
            },
            other => {
                self.phase = other;
                TickAction::Done
            },
        }
    }

    /// Applies the host's decode outcome to the awaited path. A success is
    /// cached when the path lies in the neighbour window, and shown when it
    /// was the main load. A failure caches nothing and leaves every other
    /// entry untouched; a failed main load clears the shown image and
    /// records the error. Then the tick moves on to the remaining prefetch
    /// queue. A call in any other phase changes nothing.
    pub fn provide_decode(&mut self, outcome: Result<PixelBuffer, Vec<u8>>) -> (act: TickAction)
        requires
            old(self).wf(),
        ensures
            final(self).wf(),
            final(self).exts == old(self).exts,
            final(self).pending == old(self).pending,
            final(self).idle == old(self).idle,
            final(self).listing == old(self).listing,
            final(self).scanned_dir == old(self).scanned_dir,
            !(old(self).phase matches Phase::AwaitDecode { .. }) ==> (*final(self) == *old(self)
                && act is Done),
            (old(self).phase matches Phase::AwaitDecode { .. }) ==> Self::act_matches_phase(
                *final(self),
                act,
            ),
            old(self).phase matches Phase::AwaitDecode { rest, .. } ==> Self::prefetch_status(
                *final(self),
                act,
                path_views(rest@),
            ),
            old(self).phase matches Phase::AwaitDecode { path, main, .. } ==> match outcome {
                Ok(buf) => {
                    &&& (old(self).listing.window().contains(path@) ==> ((final(self).cache.spec_get(path@) matches Some(img) && img == buf)
                        && (forall|k: Seq<u8>| k != path@ ==> final(self).cache.spec_get(k) == old(self).cache.spec_get(k))))
                    &&& (!old(self).listing.window().contains(path@) ==> final(self).cache == old(self).cache)
                    &&& (main ==> ((final(self).shown matches Some(im) && im == buf)
                        && (final(self).shown_path matches Some(sp) && sp@ == path@)
                        && final(self).last_error is None))
                    &&& (!main ==> (final(self).shown == old(self).shown
                        && final(self).shown_path == old(self).shown_path
                        && final(self).last_error == old(self).last_error))
                },
                Err(cause) => {
                    &&& final(self).cache == old(self).cache
                    &&& (main ==> (final(self).shown is None && final(self).shown_path is None
                        && (final(self).last_error matches Some(e) && e.path@ == path@ && e.cause@ == cause@)))
                    &&& (!main ==> (final(self).shown == old(self).shown
                        && final(self).shown_path == old(self).shown_path
                        && final(self).last_error == old(self).last_error))
                },
            },
    {
        let mut ph = Phase::Ready;
        core::mem::swap(&mut ph, &mut self.phase);
        match ph {
            Phase::AwaitDecode { path, main, rest } => {
                match outcome {
                    Ok(buf) => {
                        let img = Rc::new(buf);
                        let in_w = self.listing.in_window(&path);
                        let pc = clone_bytes(&path);
                        if in_w {
                            self.cache.insert(path, img.clone());
                            proof {
                                let w = self.listing.window();
                                let pi = prev_index(
                                    self.listing.index as int,
                                    self.listing.paths().len() as int,
                                );
                                let ni = next_index(
                                    self.listing.index as int,
                                    self.listing.paths().len() as int,
                                );
                                assert(self.listing.entries@.len() > 0);
                                lemma_pigeonhole3(
                                    self.cache.keys(),
                                    self.listing.paths()[pi],
                                    self.listing.paths()[self.listing.index as int],
                                    self.listing.paths()[ni],
                                );
                            }
                        }
                        if main {
                            self.shown = Some(img);
                            self.shown_path = Some(pc);
                            self.last_error = None;
                        }
                        self.advance(rest)
                    },
                    Err(cause) => {
                        if main {
                            self.shown = None;
                            self.shown_path = None;
                            self.last_error = Some(DecodeError { path, cause });
                        }
                        self.advance(rest)
                    },
                }
            },
            other => {
                self.phase = other;
                TickAction::Done
            },
        }
    }
}

} // verus!
