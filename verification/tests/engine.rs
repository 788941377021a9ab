use emulsion::PixelBuffer;
use emulsion::cache::ImageCache;
use emulsion::listing::Listing;
use emulsion::manager::LoadRequest;
use emulsion::manager::PlaybackManager;
use emulsion::manager::ScanOutcome;
use emulsion::manager::TickAction;

fn exts() -> Vec<Vec<u8>> {
    vec![b"png".to_vec(), b"jpg".to_vec()]
}

fn buf_for(path: &[u8]) -> PixelBuffer {
    PixelBuffer { width: 2, height: 1, data: path.to_vec() }
}

/// Drives one full tick: answers scan demands with `dir_names` (or an
/// unreadable directory when `None`) and decode demands with a buffer whose
/// data echoes the path, failing for the paths listed in `failing`.
fn run_tick(m: &mut PlaybackManager, dir_names: &Option<Vec<Vec<u8>>>, failing: &[Vec<u8>]) {
    let mut act = m.begin_tick();
    loop {
        match act {
            TickAction::Done => break,
            TickAction::NeedScan(_d) => {
                act = m.provide_scan(match dir_names {
                    Some(names) => ScanOutcome::Listed(names.clone()),
                    None => ScanOutcome::Unreadable,
                });
            }
            TickAction::NeedDecode(p) => {
                let out = if failing.iter().any(|f| *f == p) {
                    Err(b"io failure".to_vec())
                } else {
                    Ok(buf_for(&p))
                };
                act = m.provide_decode(out);
            }
        }
    }
}

fn cached_paths(m: &PlaybackManager) -> Vec<Vec<u8>> {
    let mut v: Vec<Vec<u8>> = m.cache.entries.iter().map(|e| e.0.clone()).collect();
    v.sort();
    v
}

fn three_listing() -> Vec<Vec<u8>> {
    vec![b"a.png".to_vec(), b"b.png".to_vec(), b"c.png".to_vec()]
}

#[test]
fn next_cycles_back_to_start() {
    let mut l = Listing {
        entries: vec![b"d/a.png".to_vec(), b"d/b.png".to_vec(), b"d/c.png".to_vec()],
        index: 1,
    };
    for _ in 0..3 {
        l.step(true);
    }
    assert_eq!(l.index, 1);
}

#[test]
fn previous_inverts_next() {
    for start in 0..3usize {
        let mut l = Listing {
            entries: vec![b"d/a.png".to_vec(), b"d/b.png".to_vec(), b"d/c.png".to_vec()],
            index: start,
        };
        l.step(true);
        l.step(false);
        assert_eq!(l.index, start);
        l.step(false);
        l.step(true);
        assert_eq!(l.index, start);
    }
}

#[test]
fn step_wraps_both_ends() {
    let mut l = Listing {
        entries: vec![b"d/a.png".to_vec(), b"d/b.png".to_vec(), b"d/c.png".to_vec()],
        index: 2,
    };
    l.step(true);
    assert_eq!(l.index, 0);
    l.step(false);
    assert_eq!(l.index, 2);
}

#[test]
fn step_on_empty_listing_is_noop() {
    let mut l = Listing { entries: vec![], index: 0 };
    l.step(true);
    assert_eq!(l.index, 0);
    l.step(false);
    assert_eq!(l.index, 0);
}

#[test]
fn load_specific_centers_listing_and_cache() {
    // Fresh directory a/b/c, start with LoadSpecific("d/b.png"): index 1,
    // cache holds all three neighbours, shown image is the decode of b.
    let mut m = PlaybackManager::new(exts());
    m.request(LoadRequest::LoadSpecific(b"d/b.png".to_vec()));
    run_tick(&mut m, &Some(three_listing()), &[]);
    assert_eq!(m.listing.index, 1);
    assert_eq!(
        cached_paths(&m),
        vec![b"d/a.png".to_vec(), b"d/b.png".to_vec(), b"d/c.png".to_vec()]
    );
    let shown = m.current_image().expect("image shown");
    assert_eq!(shown.data, b"d/b.png".to_vec());
    assert!(m.last_error().is_none());
}

#[test]
fn next_wraps_and_recomputes_window() {
    let mut m = PlaybackManager::new(exts());
    m.request(LoadRequest::LoadSpecific(b"d/c.png".to_vec()));
    run_tick(&mut m, &Some(three_listing()), &[]);
    assert_eq!(m.listing.index, 2);
    m.request(LoadRequest::LoadNext);
    run_tick(&mut m, &Some(three_listing()), &[]);
    assert_eq!(m.listing.index, 0);
    assert_eq!(
        cached_paths(&m),
        vec![b"d/a.png".to_vec(), b"d/b.png".to_vec(), b"d/c.png".to_vec()]
    );
    let shown = m.current_image().expect("image shown");
    assert_eq!(shown.data, b"d/a.png".to_vec());
}

#[test]
fn navigation_evicts_outside_window() {
    let names: Vec<Vec<u8>> = vec![
        b"a.png".to_vec(),
        b"b.png".to_vec(),
        b"c.png".to_vec(),
        b"d.png".to_vec(),
        b"e.png".to_vec(),
    ];
    let mut m = PlaybackManager::new(exts());
    m.request(LoadRequest::LoadSpecific(b"dir/a.png".to_vec()));
    run_tick(&mut m, &Some(names.clone()), &[]);
    assert_eq!(m.listing.index, 0);
    m.request(LoadRequest::LoadNext);
    run_tick(&mut m, &Some(names.clone()), &[]);
    m.request(LoadRequest::LoadNext);
    run_tick(&mut m, &Some(names.clone()), &[]);
    // Now at c: the window is {b, c, d}; a and e must be gone.
    assert_eq!(m.listing.index, 2);
    assert_eq!(
        cached_paths(&m),
        vec![b"dir/b.png".to_vec(), b"dir/c.png".to_vec(), b"dir/d.png".to_vec()]
    );
    assert!(m.cache.entries.len() <= 3);
}

#[test]
fn cache_bounded_after_any_navigation() {
    let names: Vec<Vec<u8>> = (0..8u8).map(|i| vec![b'f', b'0' + i, b'.', b'p', b'n', b'g']).collect();
    let mut m = PlaybackManager::new(exts());
    m.request(LoadRequest::LoadSpecific(b"big/f0.png".to_vec()));
    run_tick(&mut m, &Some(names.clone()), &[]);
    for step in 0..20 {
        if step % 3 == 0 {
            m.request(LoadRequest::LoadPrevious);
        } else {
            m.request(LoadRequest::LoadNext);
        }
        run_tick(&mut m, &Some(names.clone()), &[]);
        assert!(m.cache.entries.len() <= 3);
    }
}

#[test]
fn idle_changes_nothing() {
    let mut m = PlaybackManager::new(exts());
    m.request(LoadRequest::LoadSpecific(b"d/b.png".to_vec()));
    run_tick(&mut m, &Some(three_listing()), &[]);
    let index = m.listing.index;
    let entries = m.listing.entries.clone();
    let cached = cached_paths(&m);
    let shown = m.current_image().expect("image shown").data.clone();
    for _ in 0..3 {
        run_tick(&mut m, &Some(three_listing()), &[]);
        assert_eq!(m.listing.index, index);
        assert_eq!(m.listing.entries, entries);
        assert_eq!(cached_paths(&m), cached);
        assert_eq!(m.current_image().expect("image shown").data, shown);
        assert!(m.last_error().is_none());
    }
}

#[test]
fn idle_hint_turns_on_when_window_cached() {
    let mut m = PlaybackManager::new(exts());
    assert!(!m.idle_hint());
    m.request(LoadRequest::LoadSpecific(b"d/b.png".to_vec()));
    run_tick(&mut m, &Some(three_listing()), &[]);
    // The loading tick itself never reports idle.
    assert!(!m.idle_hint());
    // The following idle tick finds the whole window cached.
    run_tick(&mut m, &Some(three_listing()), &[]);
    assert!(m.idle_hint());
}

#[test]
fn decode_failure_is_isolated_and_not_cached() {
    let mut m = PlaybackManager::new(exts());
    // c is unreadable from the start, so the prefetch does not cache it.
    m.request(LoadRequest::LoadSpecific(b"d/b.png".to_vec()));
    run_tick(&mut m, &Some(three_listing()), &[b"d/c.png".to_vec()]);
    assert_eq!(m.cache.entries.len(), 2);
    // A failed neighbour prefetch does not disturb the main load.
    assert_eq!(m.current_image().expect("image shown").data, b"d/b.png".to_vec());
    assert!(m.last_error().is_none());

    // Step to c while its decode fails: b and a stay cached, untouched.
    m.request(LoadRequest::LoadNext);
    run_tick(&mut m, &Some(three_listing()), &[b"d/c.png".to_vec()]);
    assert_eq!(m.listing.index, 2);
    assert!(m.current_image().is_none());
    let err = m.last_error().as_ref().expect("failure recorded");
    assert_eq!(err.path, b"d/c.png".to_vec());
    let cached = cached_paths(&m);
    assert!(cached.contains(&b"d/a.png".to_vec()));
    assert!(cached.contains(&b"d/b.png".to_vec()));
    assert!(!cached.contains(&b"d/c.png".to_vec()));

    // The failure was not cached: once the file is readable again the same
    // load succeeds.
    m.request(LoadRequest::LoadSpecific(b"d/c.png".to_vec()));
    run_tick(&mut m, &Some(three_listing()), &[]);
    let shown = m.current_image().expect("image shown");
    assert_eq!(shown.data, b"d/c.png".to_vec());
    assert!(m.last_error().is_none());
}

#[test]
fn missing_file_falls_back_to_empty() {
    let mut m = PlaybackManager::new(exts());
    m.request(LoadRequest::LoadSpecific(b"d/missing.png".to_vec()));
    run_tick(&mut m, &Some(three_listing()), &[b"d/missing.png".to_vec()]);
    assert_eq!(m.listing.entries.len(), 0);
    assert!(m.current_image().is_none());
    let err = m.last_error().as_ref().expect("failure recorded");
    assert_eq!(err.path, b"d/missing.png".to_vec());
    assert!(!m.idle_hint());
    // On the following tick the engine reports it may throttle.
    run_tick(&mut m, &Some(three_listing()), &[]);
    assert!(m.idle_hint());
}

#[test]
fn unreadable_directory_falls_back_to_empty() {
    let mut m = PlaybackManager::new(exts());
    m.request(LoadRequest::LoadSpecific(b"gone/a.png".to_vec()));
    run_tick(&mut m, &None, &[b"gone/a.png".to_vec()]);
    assert_eq!(m.listing.entries.len(), 0);
    assert_eq!(m.cache.entries.len(), 0);
    assert!(m.current_image().is_none());
}

#[test]
fn listing_sorted_case_insensitively() {
    let names: Vec<Vec<u8>> = vec![
        b"B.png".to_vec(),
        b"c.png".to_vec(),
        b"a.PNG".to_vec(),
        b"notes.txt".to_vec(),
    ];
    let mut m = PlaybackManager::new(exts());
    m.request(LoadRequest::LoadSpecific(b"d/c.png".to_vec()));
    run_tick(&mut m, &Some(names), &[]);
    assert_eq!(
        m.listing.entries,
        vec![b"d/a.PNG".to_vec(), b"d/B.png".to_vec(), b"d/c.png".to_vec()]
    );
    assert_eq!(m.listing.index, 2);
}

#[test]
fn wrong_extension_rejected_from_listing() {
    let names: Vec<Vec<u8>> = vec![b"a.png".to_vec(), b"notes.txt".to_vec()];
    let mut m = PlaybackManager::new(exts());
    m.request(LoadRequest::LoadSpecific(b"d/notes.txt".to_vec()));
    run_tick(&mut m, &Some(names), &[b"d/notes.txt".to_vec()]);
    // The target is filtered out, so the listing falls back to empty.
    assert_eq!(m.listing.entries.len(), 0);
    assert!(m.current_image().is_none());
}

#[test]
fn requests_overwrite_not_queue() {
    let mut m = PlaybackManager::new(exts());
    m.request(LoadRequest::LoadSpecific(b"d/a.png".to_vec()));
    m.request(LoadRequest::LoadSpecific(b"d/b.png".to_vec()));
    run_tick(&mut m, &Some(three_listing()), &[]);
    // Only the last request is served.
    let shown = m.current_image().expect("image shown");
    assert_eq!(shown.data, b"d/b.png".to_vec());
    assert_eq!(m.listing.index, 1);
}

#[test]
fn path_without_directory() {
    let mut m = PlaybackManager::new(exts());
    m.request(LoadRequest::LoadSpecific(b"b.png".to_vec()));
    run_tick(&mut m, &Some(three_listing()), &[]);
    assert_eq!(m.listing.entries, three_listing());
    assert_eq!(m.listing.index, 1);
    let shown = m.current_image().expect("image shown");
    assert_eq!(shown.data, b"b.png".to_vec());
}

#[test]
fn single_entry_listing_window_coincides() {
    let names: Vec<Vec<u8>> = vec![b"only.png".to_vec()];
    let mut m = PlaybackManager::new(exts());
    m.request(LoadRequest::LoadSpecific(b"d/only.png".to_vec()));
    run_tick(&mut m, &Some(names.clone()), &[]);
    assert_eq!(m.cache.entries.len(), 1);
    m.request(LoadRequest::LoadNext);
    run_tick(&mut m, &Some(names), &[]);
    assert_eq!(m.listing.index, 0);
    assert_eq!(m.cache.entries.len(), 1);
    let shown = m.current_image().expect("image shown");
    assert_eq!(shown.data, b"d/only.png".to_vec());
}

#[test]
fn cache_lookup_and_retain() {
    let mut c = ImageCache::new();
    assert!(c.lookup(&b"x.png".to_vec()).is_none());
    c.insert(b"x.png".to_vec(), std::rc::Rc::new(buf_for(b"x.png")));
    let got = c.lookup(&b"x.png".to_vec()).expect("cached");
    assert_eq!(got.data, b"x.png".to_vec());
    // Retaining against an empty listing clears everything.
    let l = Listing { entries: vec![], index: 0 };
    c.retain_window(&l);
    assert_eq!(c.entries.len(), 0);
}

#[test]
fn next_n_times_returns_to_start_via_engine() {
    let names: Vec<Vec<u8>> = vec![
        b"a.png".to_vec(),
        b"b.png".to_vec(),
        b"c.png".to_vec(),
        b"d.png".to_vec(),
    ];
    let mut m = PlaybackManager::new(exts());
    m.request(LoadRequest::LoadSpecific(b"d/b.png".to_vec()));
    run_tick(&mut m, &Some(names.clone()), &[]);
    let start = m.listing.index;
    for _ in 0..4 {
        m.request(LoadRequest::LoadNext);
        run_tick(&mut m, &Some(names.clone()), &[]);
    }
    assert_eq!(m.listing.index, start);
}

#[test]
fn out_of_phase_calls_change_nothing() {
    let mut m = PlaybackManager::new(exts());
    m.request(LoadRequest::LoadSpecific(b"d/b.png".to_vec()));
    // The tick is now waiting for a scan; a stray decode outcome is ignored,
    // and a nested begin_tick does not start a second tick.
    let act = m.begin_tick();
    assert!(matches!(act, TickAction::NeedScan(_)));
    let act = m.provide_decode(Ok(buf_for(b"junk")));
    assert!(matches!(act, TickAction::Done));
    assert!(m.current_image().is_none());
    let act = m.begin_tick();
    assert!(matches!(act, TickAction::Done));
    // The awaited scan still completes the tick normally.
    let mut act = m.provide_scan(ScanOutcome::Listed(three_listing()));
    loop {
        match act {
            TickAction::Done => break,
            TickAction::NeedDecode(p) => act = m.provide_decode(Ok(buf_for(&p))),
            TickAction::NeedScan(_) => unreachable!(),
        }
    }
    assert_eq!(m.current_image().expect("image shown").data, b"d/b.png".to_vec());
}

#[test]
fn invalidate_forces_rescan() {
    let mut m = PlaybackManager::new(exts());
    m.request(LoadRequest::LoadSpecific(b"d/b.png".to_vec()));
    run_tick(&mut m, &Some(three_listing()), &[]);
    // Same directory: no rescan is asked for.
    m.request(LoadRequest::LoadSpecific(b"d/a.png".to_vec()));
    let act = m.begin_tick();
    assert!(matches!(act, TickAction::Done));
    m.invalidate();
    m.request(LoadRequest::LoadSpecific(b"d/a.png".to_vec()));
    let act = m.begin_tick();
    assert!(matches!(act, TickAction::NeedScan(ref d) if *d == b"d".to_vec()));
    let mut act = m.provide_scan(ScanOutcome::Listed(three_listing()));
    loop {
        match act {
            TickAction::Done => break,
            TickAction::NeedDecode(p) => act = m.provide_decode(Ok(buf_for(&p))),
            TickAction::NeedScan(_) => unreachable!(),
        }
    }
    assert_eq!(m.listing.index, 0);
    assert_eq!(m.current_image().expect("image shown").data, b"d/a.png".to_vec());
}
