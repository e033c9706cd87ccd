use jwalk::entry::{
    DirEntry, Error, ErrorKind, FileType, LinkResolution, RawDirEntry, ReadDirBatch,
};
use jwalk::stream::{DirEntryIter, NextEntry};
use jwalk::{ClientState, Parallelism, ProcessReadDir, WalkDir, WalkDirGeneric};

fn b(s: &str) -> Vec<u8> {
    s.as_bytes().to_vec()
}

fn file(name: &str) -> RawDirEntry {
    RawDirEntry::Entry { file_name: b(name), file_type: FileType::File, link: None }
}

fn dir(name: &str) -> RawDirEntry {
    RawDirEntry::Entry { file_name: b(name), file_type: FileType::Directory, link: None }
}

fn symlink_to_dir(name: &str, real: &str) -> RawDirEntry {
    RawDirEntry::Entry {
        file_name: b(name),
        file_type: FileType::Symlink,
        link: Some(LinkResolution::Target {
            file_type: FileType::Directory,
            real_path: b(real),
        }),
    }
}

/// Runs a walk to completion against a simulated tree: `fs` answers a
/// directory path with its raw listing, or `None` when opening it fails.
fn drive<C: ClientState, F: ProcessReadDir<C>>(
    mut it: DirEntryIter<C, F>,
    fs: &dyn Fn(&[u8]) -> Option<Vec<RawDirEntry>>,
) -> Vec<Result<DirEntry<C>, Error>> {
    let mut out = Vec::new();
    let mut rounds = 0;
    loop {
        rounds += 1;
        if rounds > 10_000 {
            panic!("walk did not finish");
        }
        match it.next_entry() {
            NextEntry::Yielded(r) => out.push(r),
            NextEntry::Finished => break,
            NextEntry::Waiting => {
                let (token, rq) = it.take_next_work().expect("waiting without issued work");
                let batch = if rq.depth >= it.cfg.max_depth {
                    it.run_read_dir(rq, Vec::new())
                } else {
                    match fs(&rq.path) {
                        Some(raws) => it.run_read_dir(rq, raws),
                        None => jwalk::worker::read_dir_failed_batch(&it.cfg, rq),
                    }
                };
                it.complete_read_dir(token, batch);
            }
        }
    }
    out
}

fn expect_err<C: ClientState>(r: &Result<DirEntry<C>, Error>) -> &Error {
    match r {
        Ok(_) => panic!("expected an error item"),
        Err(e) => e,
    }
}

fn paths<C: ClientState>(out: &[Result<DirEntry<C>, Error>]) -> Vec<Vec<u8>> {
    out.iter()
        .map(|r| match r {
            Ok(e) => e.path(),
            Err(e) => panic!("unexpected error item: {:?}", e),
        })
        .collect()
}

#[test]
fn empty_directory_yields_only_root() {
    let it = WalkDir::new(b("/R")).into_iter(Some(FileType::Directory), None);
    let out = drive(it, &|p: &[u8]| if p == b("/R") { Some(vec![]) } else { None });
    assert_eq!(out.len(), 1);
    let root = out[0].as_ref().unwrap();
    assert_eq!(root.depth, 0);
    assert_eq!(root.path(), b("/R"));
    assert_eq!(root.file_name, b("R"));
    assert_eq!(root.file_type, FileType::Directory);
    assert!(root.metadata_cache.is_none());
}

#[test]
fn root_file_is_sole_item() {
    let it = WalkDir::new(b("/R/notes.txt")).into_iter(Some(FileType::File), None);
    let out = drive(it, &|_: &[u8]| None);
    assert_eq!(out.len(), 1);
    let root = out[0].as_ref().unwrap();
    assert_eq!(root.file_type, FileType::File);
    assert_eq!(root.path(), b("/R/notes.txt"));
}

#[test]
fn unreadable_root_is_sole_error() {
    let it = WalkDir::new(b("/gone")).into_iter(None, None);
    let out = drive(it, &|_: &[u8]| None);
    assert_eq!(out.len(), 1);
    let err = expect_err(&out[0]);
    assert_eq!(err.depth, 0);
    assert_eq!(err.kind, ErrorKind::Path { path: b("/gone") });
}

#[test]
fn two_files_sorted() {
    let it = WalkDir::new(b("/R")).sort(true).into_iter(Some(FileType::Directory), None);
    let out = drive(it, &|p: &[u8]| {
        if p == b("/R") {
            Some(vec![file("b.txt"), file("a.txt")])
        } else {
            None
        }
    });
    assert_eq!(paths(&out), vec![b("/R"), b("/R/a.txt"), b("/R/b.txt")]);
}

#[test]
fn unsorted_keeps_listing_order() {
    let it = WalkDir::new(b("/R")).into_iter(Some(FileType::Directory), None);
    let out = drive(it, &|p: &[u8]| {
        if p == b("/R") {
            Some(vec![file("b.txt"), file("a.txt")])
        } else {
            None
        }
    });
    assert_eq!(paths(&out), vec![b("/R"), b("/R/b.txt"), b("/R/a.txt")]);
}

#[test]
fn hidden_skipped_by_default() {
    let fs = |p: &[u8]| {
        if p == b("/R") {
            Some(vec![file(".hidden"), file("visible")])
        } else {
            None
        }
    };
    let it = WalkDir::new(b("/R")).into_iter(Some(FileType::Directory), None);
    let out = drive(it, &fs);
    assert_eq!(paths(&out), vec![b("/R"), b("/R/visible")]);

    let it = WalkDir::new(b("/R"))
        .skip_hidden(false)
        .sort(true)
        .into_iter(Some(FileType::Directory), None);
    let out = drive(it, &fs);
    assert_eq!(paths(&out), vec![b("/R"), b("/R/.hidden"), b("/R/visible")]);
}

#[test]
fn name_that_is_not_utf8_is_not_hidden() {
    let mut odd = vec![46u8, 0xff, 0xfe];
    let it = WalkDir::new(b("/R")).into_iter(Some(FileType::Directory), None);
    let out = drive(it, &|p: &[u8]| {
        if p == b("/R") {
            Some(vec![RawDirEntry::Entry {
                file_name: vec![46u8, 0xff, 0xfe],
                file_type: FileType::File,
                link: None,
            }])
        } else {
            None
        }
    });
    assert_eq!(out.len(), 2);
    odd.splice(0..0, b("/R/"));
    assert_eq!(out[1].as_ref().unwrap().path(), odd);
}

#[test]
fn depth_bound_yields_but_does_not_enter() {
    let it = WalkDir::new(b("/R"))
        .max_depth(2)
        .sort(true)
        .into_iter(Some(FileType::Directory), None);
    let out = drive(it, &|p: &[u8]| {
        if p == b("/R") {
            Some(vec![dir("a")])
        } else if p == b("/R/a") {
            Some(vec![dir("b")])
        } else {
            panic!("a directory past the depth bound was opened");
        }
    });
    assert_eq!(paths(&out), vec![b("/R"), b("/R/a"), b("/R/a/b")]);
}

#[test]
fn min_depth_suppresses_shallow_entries() {
    let it = WalkDir::new(b("/R")).min_depth(1).into_iter(Some(FileType::Directory), None);
    let out = drive(it, &|p: &[u8]| {
        if p == b("/R") {
            Some(vec![file("a.txt")])
        } else {
            None
        }
    });
    assert_eq!(paths(&out), vec![b("/R/a.txt")]);
}

struct Pruner;

impl ProcessReadDir<((), ())> for Pruner {
    fn process(
        &self,
        _depth: Option<usize>,
        _path: &Vec<u8>,
        _read_dir_state: &mut (),
        children: &mut Vec<Result<DirEntry<((), ())>, Error>>,
    ) {
        for c in children.iter_mut() {
            if let Ok(e) = c {
                if e.file_name == b("skip") {
                    e.read_children_path = None;
                }
            }
        }
    }
}

#[test]
fn prune_via_callback() {
    let it = WalkDirGeneric::<((), ()), Pruner>::new(b("/R"))
        .sort(true)
        .process_read_dir(Pruner)
        .into_iter(Some(FileType::Directory), None);
    let out = drive(it, &|p: &[u8]| {
        if p == b("/R") {
            Some(vec![dir("skip"), dir("keep")])
        } else if p == b("/R/keep") {
            Some(vec![file("y")])
        } else {
            panic!("a pruned directory was opened");
        }
    });
    assert_eq!(
        paths(&out),
        vec![b("/R"), b("/R/keep"), b("/R/keep/y"), b("/R/skip")]
    );
}

#[test]
fn symlink_loop_yields_one_loop_error_and_terminates() {
    let it = WalkDir::new(b("/R"))
        .follow_links(true)
        .into_iter(Some(FileType::Directory), None);
    let out = drive(it, &|p: &[u8]| {
        if p == b("/R") || p == b("/R/link") {
            Some(vec![symlink_to_dir("link", "/R")])
        } else {
            None
        }
    });
    assert_eq!(out.len(), 3);
    assert_eq!(out[0].as_ref().unwrap().path(), b("/R"));
    let link = out[1].as_ref().unwrap();
    assert_eq!(link.path(), b("/R/link"));
    assert_eq!(link.file_type, FileType::Directory);
    let err = expect_err(&out[2]);
    assert_eq!(err.depth, 2);
    assert_eq!(err.kind, ErrorKind::SymlinkLoop { path: b("/R") });
}

#[test]
fn symlink_not_followed_by_default() {
    let it = WalkDir::new(b("/R")).into_iter(Some(FileType::Directory), None);
    let out = drive(it, &|p: &[u8]| {
        if p == b("/R") {
            Some(vec![RawDirEntry::Entry {
                file_name: b("link"),
                file_type: FileType::Symlink,
                link: None,
            }])
        } else {
            panic!("followed a link although follow_links is off");
        }
    });
    assert_eq!(out.len(), 2);
    let link = out[1].as_ref().unwrap();
    assert_eq!(link.file_type, FileType::Symlink);
    assert!(link.read_children_path.is_none());
}

#[test]
fn per_entry_failure_does_not_abort_walk() {
    let it = WalkDir::new(b("/R")).into_iter(Some(FileType::Directory), None);
    let out = drive(it, &|p: &[u8]| {
        if p == b("/R") {
            Some(vec![RawDirEntry::Failed, file("x")])
        } else {
            None
        }
    });
    assert_eq!(out.len(), 3);
    let err = expect_err(&out[1]);
    assert_eq!(err.depth, 1);
    assert_eq!(err.kind, ErrorKind::Io);
    assert_eq!(out[2].as_ref().unwrap().path(), b("/R/x"));
}

#[test]
fn failures_sort_after_entries() {
    let it = WalkDir::new(b("/R")).sort(true).into_iter(Some(FileType::Directory), None);
    let out = drive(it, &|p: &[u8]| {
        if p == b("/R") {
            Some(vec![file("b"), RawDirEntry::Failed, file("a")])
        } else {
            None
        }
    });
    assert_eq!(out.len(), 4);
    assert_eq!(out[1].as_ref().unwrap().path(), b("/R/a"));
    assert_eq!(out[2].as_ref().unwrap().path(), b("/R/b"));
    assert_eq!(expect_err(&out[3]).kind, ErrorKind::Io);
}

#[test]
fn unopenable_directory_fails_alone_and_walk_goes_on() {
    let it = WalkDir::new(b("/R")).sort(true).into_iter(Some(FileType::Directory), None);
    let out = drive(it, &|p: &[u8]| {
        if p == b("/R") {
            Some(vec![dir("bad"), file("z")])
        } else if p == b("/R/bad") {
            None
        } else {
            panic!("unexpected read");
        }
    });
    assert_eq!(out.len(), 4);
    assert_eq!(out[1].as_ref().unwrap().path(), b("/R/bad"));
    let err = expect_err(&out[2]);
    assert_eq!(err.depth, 1);
    assert_eq!(err.kind, ErrorKind::Path { path: b("/R/bad") });
    assert_eq!(out[3].as_ref().unwrap().path(), b("/R/z"));
}

#[test]
fn busy_completion_ends_the_walk() {
    let mut it = WalkDir::new(b("/R")).into_iter(Some(FileType::Directory), None);
    let mut out = Vec::new();
    let first = it.next_entry();
    match first {
        NextEntry::Yielded(r) => out.push(r),
        _ => panic!("expected the root entry first"),
    }
    match it.next_entry() {
        NextEntry::Waiting => {}
        _ => panic!("expected to wait on the root read"),
    }
    let (token, rq) = it.take_next_work().unwrap();
    let busy = ReadDirBatch::<((), ())> {
        read_dir_state: rq.client_read_state,
        results: vec![Err(Error::busy(rq.depth + 1))],
    };
    it.complete_read_dir(token, busy);
    match it.next_entry() {
        NextEntry::Yielded(r) => {
            let err = expect_err(&r);
            assert!(err.is_busy());
        }
        _ => panic!("expected the busy failure"),
    }
    assert!(matches!(it.next_entry(), NextEntry::Finished));
    assert!(matches!(it.next_entry(), NextEntry::Finished));
}

struct Marker;

impl ProcessReadDir<(usize, bool)> for Marker {
    fn process(
        &self,
        _depth: Option<usize>,
        _path: &Vec<u8>,
        read_dir_state: &mut usize,
        children: &mut Vec<Result<DirEntry<(usize, bool)>, Error>>,
    ) {
        *read_dir_state += 1;
        if let Some(Ok(first)) = children.first_mut() {
            first.client_state = true;
        }
    }
}

#[test]
fn callback_state_is_threaded_and_entries_annotated() {
    let it = WalkDirGeneric::<(usize, bool), Marker>::new(b("/R"))
        .root_read_dir_state(10)
        .process_read_dir(Marker)
        .into_iter(Some(FileType::Directory), None);
    let out = drive(it, &|p: &[u8]| {
        if p == b("/R") {
            Some(vec![file("a"), file("b")])
        } else {
            None
        }
    });
    assert_eq!(out.len(), 3);
    assert!(out[0].as_ref().unwrap().client_state);
    assert!(out[1].as_ref().unwrap().client_state);
    assert!(!out[2].as_ref().unwrap().client_state);
}

#[test]
fn builder_defaults_and_clamping() {
    let w = WalkDir::new(b("/R"));
    assert_eq!(w.root(), &b("/R"));
    assert!(!w.options.sort);
    assert!(w.options.skip_hidden);
    assert!(!w.options.follow_links);
    assert_eq!(w.options.min_depth, 0);
    assert_eq!(w.options.max_depth, usize::MAX);
    assert!(matches!(
        w.options.parallelism,
        Parallelism::RayonDefaultPool { busy_timeout_millis: 1000 }
    ));

    let w = WalkDir::new(b("/R")).max_depth(5).min_depth(9);
    assert_eq!(w.options.min_depth, 5);
    assert_eq!(w.options.max_depth, 5);

    let w = WalkDir::new(b("/R")).min_depth(4).max_depth(2);
    assert_eq!(w.options.max_depth, 4);

    let w = WalkDir::new(b("/R")).max_depth(1);
    assert!(matches!(w.options.parallelism, Parallelism::Serial));
}

#[test]
fn parallelism_timeout() {
    assert_eq!(Parallelism::Serial.timeout(), None);
    assert_eq!(Parallelism::RayonNewPool(4).timeout(), None);
    assert_eq!(
        Parallelism::RayonDefaultPool { busy_timeout_millis: 250 }.timeout(),
        Some(250)
    );
}

#[test]
fn hidden_predicate() {
    assert!(jwalk::is_hidden(&b(".git")));
    assert!(!jwalk::is_hidden(&b("git")));
    assert!(!jwalk::is_hidden(&b("")));
    assert!(!jwalk::is_hidden(&vec![46u8, 0xff]));
}

#[test]
fn bus_releases_in_issue_order_whatever_the_completion_order() {
    let mut bus = jwalk::bus::OrderedResultBus::<((), ())>::new();
    let first = jwalk::entry::ReadDirSpec::<((), ())> {
        path: b("/R/a"),
        depth: 1,
        client_read_state: (),
        follow_link_ancestors: Vec::new(),
    };
    let second = jwalk::entry::ReadDirSpec::<((), ())> {
        path: b("/R/b"),
        depth: 1,
        client_read_state: (),
        follow_link_ancestors: Vec::new(),
    };
    let t0 = bus.push_spec(first);
    let t1 = bus.push_spec(second);
    let rq0 = bus.take_spec(t0);
    let rq1 = bus.take_spec(t1);
    assert_eq!(rq0.path, b("/R/a"));
    assert_eq!(rq1.path, b("/R/b"));
    // the second request finishes first
    bus.complete(t1, ReadDirBatch { read_dir_state: (), results: vec![Err(Error::from_io(2))] });
    assert!(bus.pop().is_none());
    bus.complete(t0, ReadDirBatch { read_dir_state: (), results: vec![] });
    let released_first = bus.pop().expect("head must be released first");
    assert_eq!(released_first.results.len(), 0);
    let released_second = bus.pop().expect("then the later request");
    assert_eq!(released_second.results.len(), 1);
    assert!(bus.pop().is_none());
}

#[test]
fn repeated_walks_yield_identical_sequences() {
    let fs = |p: &[u8]| {
        if p == b("/R") {
            Some(vec![dir("d"), file("m")])
        } else if p == b("/R/d") {
            Some(vec![file("x"), file("y")])
        } else {
            None
        }
    };
    let first = drive(
        WalkDir::new(b("/R")).sort(true).into_iter(Some(FileType::Directory), None),
        &fs,
    );
    let second = drive(
        WalkDir::new(b("/R")).sort(true).into_iter(Some(FileType::Directory), None),
        &fs,
    );
    assert_eq!(paths(&first), paths(&second));
    assert_eq!(
        paths(&first),
        vec![b("/R"), b("/R/d"), b("/R/d/x"), b("/R/d/y"), b("/R/m")]
    );
}

#[test]
fn parent_is_yielded_before_its_children() {
    let fs = |p: &[u8]| {
        if p == b("/R") {
            Some(vec![dir("a"), file("b")])
        } else if p == b("/R/a") {
            Some(vec![dir("c"), file("d")])
        } else if p == b("/R/a/c") {
            Some(vec![file("e")])
        } else {
            None
        }
    };
    let out = drive(
        WalkDir::new(b("/R")).sort(true).into_iter(Some(FileType::Directory), None),
        &fs,
    );
    assert_eq!(out.len(), 6);
    for i in 0..out.len() {
        if let Ok(e) = &out[i] {
            if e.depth > 0 {
                let linked = out[..i].iter().any(|r| match r {
                    Ok(p) => p.depth + 1 == e.depth && p.path() == e.parent_path,
                    Err(_) => false,
                });
                assert!(linked, "an entry was yielded before its parent");
            }
        }
    }
}

#[test]
fn symlink_followed_without_loop() {
    let it = WalkDir::new(b("/R"))
        .follow_links(true)
        .into_iter(Some(FileType::Directory), None);
    let out = drive(it, &|p: &[u8]| {
        if p == b("/R") {
            Some(vec![symlink_to_dir("link", "/S")])
        } else if p == b("/R/link") {
            Some(vec![file("f")])
        } else {
            None
        }
    });
    assert_eq!(out.len(), 3);
    let link = out[1].as_ref().unwrap();
    assert_eq!(link.path(), b("/R/link"));
    assert_eq!(link.file_type, FileType::Directory);
    assert_eq!(out[2].as_ref().unwrap().path(), b("/R/link/f"));
}

#[test]
fn sort_orders_prefixes_before_longer_names() {
    let it = WalkDir::new(b("/R")).sort(true).into_iter(Some(FileType::Directory), None);
    let out = drive(it, &|p: &[u8]| {
        if p == b("/R") {
            Some(vec![file("ab"), file("b"), file("a")])
        } else {
            None
        }
    });
    assert_eq!(
        paths(&out),
        vec![b("/R"), b("/R/a"), b("/R/ab"), b("/R/b")]
    );
}

#[test]
fn options_clone_resets_sort_and_keeps_the_rest() {
    let w = WalkDir::new(b("/R"))
        .sort(true)
        .skip_hidden(false)
        .follow_links(true)
        .min_depth(1)
        .max_depth(3);
    let copy = w.options.clone();
    assert!(!copy.sort);
    assert!(!copy.skip_hidden);
    assert!(copy.follow_links);
    assert_eq!(copy.min_depth, 1);
    assert_eq!(copy.max_depth, 3);
    assert!(copy.process_read_dir.is_none());
}
