//! Turning one read request and the raw listing the operating system
//! produced for it into the batch of children the consumer will observe:
//! depth cutoff, hidden-name filtering, symlink resolution with loop
//! detection, optional sorting, and the caller's hook.

use vstd::prelude::*;
use crate::{ClientState, ProcessReadDir, is_hidden, is_hidden_name};
use crate::entry::{
    DirEntry, EntryView, Error, ErrorKindView, ErrorView, FileType, ItemView, LinkResolution,
    LinkView, RawDirEntry, RawView, ReadDirBatch, ReadDirSpec, batch_view, item_view, raws_view,
};
use crate::path::{after_last_sep, chain_contains, clone_bytes, clone_paths, join, join_path,
    split_at_last_sep};
use crate::sort::{sort_batch, sort_items};

verus! {

/// The walk-wide options a worker consults.
#[derive(Clone, Copy, Debug)]
pub struct WalkConfig {
    /// Sort each batch by file name before the caller's hook runs.
    pub sort: bool,
    /// Drop entries whose name begins with a dot before the hook runs.
    pub skip_hidden: bool,
    /// Resolve symlinks and detect loops through the ancestor chain.
    pub follow_links: bool,
    /// Entries shallower than this are enumerated but not yielded.
    pub min_depth: usize,
    /// Directories at this depth are not enumerated.
    pub max_depth: usize,
}

/// The ancestor chain handed to the children of a directory: extended by the
/// directory's own path exactly when links are followed.
pub open spec fn extended_ancestors(
    follow_links: bool,
    ancestors: Seq<Seq<u8>>,
    path: Seq<u8>,
) -> Seq<Seq<u8>> {
    if follow_links {
        ancestors.push(path)
    } else {
        ancestors
    }
}

/// What one raw listing item becomes: `None` when it is dropped as hidden,
/// otherwise the entry or failure the consumer will observe. `ancestors`
/// is the chain of real paths strictly above the directory being read: a
/// followed symlink is tested against it, and the entry stores the chain
/// extended by the directory itself, ready for its own children.
pub open spec fn raw_item<C: ClientState>(
    skip_hidden: bool,
    follow_links: bool,
    parent: Seq<u8>,
    child_depth: nat,
    ancestors: Seq<Seq<u8>>,
    raw: RawView,
) -> Option<ItemView<C>> {
    let stored = extended_ancestors(follow_links, ancestors, parent);
    match raw {
        RawView::Failed => Some(
            ItemView::Failure(ErrorView { depth: child_depth, kind: ErrorKindView::Io }),
        ),
        RawView::Entry { file_name, file_type, link } => {
            if skip_hidden && is_hidden_name(file_name) {
                None
            } else if follow_links && file_type is Symlink {
                match link {
                    Some(LinkView::Target { file_type: target_type, real_path }) => {
                        if chain_contains(ancestors, real_path) {
                            Some(
                                ItemView::Failure(
                                    ErrorView {
                                        depth: child_depth,
                                        kind: ErrorKindView::SymlinkLoop(real_path),
                                    },
                                ),
                            )
                        } else {
                            Some(
                                ItemView::Entry(
                                    EntryView {
                                        depth: child_depth,
                                        file_name,
                                        parent_path: parent,
                                        file_type: target_type,
                                        read_children_path: if target_type is Directory {
                                            Some(join_path(parent, file_name))
                                        } else {
                                            None
                                        },
                                        metadata_cache: None,
                                        follow_link_ancestors: stored,
                                        client_state: C::spec_default_dir_entry_state(),
                                    },
                                ),
                            )
                        }
                    },
                    _ => Some(
                        ItemView::Failure(
                            ErrorView {
                                depth: child_depth,
                                kind: ErrorKindView::Path(join_path(parent, file_name)),
                            },
                        ),
                    ),
                }
            } else {
                Some(
                    ItemView::Entry(
                        EntryView {
                            depth: child_depth,
                            file_name,
                            parent_path: parent,
                            file_type,
                            read_children_path: if file_type is Directory {
                                Some(join_path(parent, file_name))
                            } else {
                                None
                            },
                            metadata_cache: None,
                            follow_link_ancestors: stored,
                            client_state: C::spec_default_dir_entry_state(),
                        },
                    ),
                )
            }
        },
    }
}

/// The items a raw listing becomes, in listing order, hidden names dropped.
pub open spec fn build_items<C: ClientState>(
    skip_hidden: bool,
    follow_links: bool,
    parent: Seq<u8>,
    child_depth: nat,
    ancestors: Seq<Seq<u8>>,
    raws: Seq<RawView>,
) -> Seq<ItemView<C>>
    decreases raws.len(),
{
    if raws.len() == 0 {
        Seq::empty()
    } else {
        let rest = build_items::<C>(
            skip_hidden,
            follow_links,
            parent,
            child_depth,
            ancestors,
            raws.drop_first(),
        );
        match raw_item::<C>(skip_hidden, follow_links, parent, child_depth, ancestors, raws.first()) {
            Some(it) => seq![it] + rest,
            None => rest,
        }
    }
}

/// The full batch a worker returns when no hook is configured: empty past
/// the depth cutoff, otherwise the built items, sorted on demand.
pub open spec fn assemble_view<C: ClientState>(
    cfg: WalkConfig,
    path: Seq<u8>,
    depth: nat,
    ancestors: Seq<Seq<u8>>,
    raws: Seq<RawView>,
) -> Seq<ItemView<C>> {
    if depth >= cfg.max_depth {
        Seq::empty()
    } else {
        let items = build_items::<C>(
            cfg.skip_hidden,
            cfg.follow_links,
            path,
            (depth + 1) as nat,
            ancestors,
            raws,
        );
        if cfg.sort {
            sort_items(items)
        } else {
            items
        }
    }
}

proof fn lemma_build_items_snoc<C: ClientState>(
    skip_hidden: bool,
    follow_links: bool,
    parent: Seq<u8>,
    child_depth: nat,
    ancestors: Seq<Seq<u8>>,
    raws: Seq<RawView>,
    x: RawView,
)
    ensures
        build_items::<C>(skip_hidden, follow_links, parent, child_depth, ancestors, raws.push(x))
            == build_items::<C>(skip_hidden, follow_links, parent, child_depth, ancestors, raws)
            + (match raw_item::<C>(skip_hidden, follow_links, parent, child_depth, ancestors, x) {
            Some(it) => seq![it],
            None => Seq::<ItemView<C>>::empty(),
        }),
    decreases raws.len(),
{
    let whole = raws.push(x);
    if raws.len() == 0 {
        assert(whole.first() == x);
        assert(raws =~= Seq::<RawView>::empty());
        assert(whole.drop_first() =~= Seq::<RawView>::empty());
        assert(build_items::<C>(
            skip_hidden,
            follow_links,
            parent,
            child_depth,
            ancestors,
            Seq::<RawView>::empty(),
        ) == Seq::<ItemView<C>>::empty());
        match raw_item::<C>(skip_hidden, follow_links, parent, child_depth, ancestors, x) {
            Some(it) => {
                assert(build_items::<C>(
                    skip_hidden,
                    follow_links,
                    parent,
                    child_depth,
                    ancestors,
                    whole,
                ) == seq![it] + Seq::<ItemView<C>>::empty());
                assert(seq![it] + Seq::<ItemView<C>>::empty() =~= Seq::<ItemView<C>>::empty()
                    + seq![it]);
            },
            None => {
                assert(Seq::<ItemView<C>>::empty() + Seq::<ItemView<C>>::empty()
                    =~= Seq::<ItemView<C>>::empty());
            },
        }
    } else {
        assert(whole.first() == raws.first());
        assert(whole.drop_first() =~= raws.drop_first().push(x));
        lemma_build_items_snoc::<C>(
            skip_hidden,
            follow_links,
            parent,
            child_depth,
            ancestors,
            raws.drop_first(),
            x,
        );
        let rest = build_items::<C>(
            skip_hidden,
            follow_links,
            parent,
            child_depth,
            ancestors,
            raws.drop_first(),
        );
        let tail = match raw_item::<C>(
            skip_hidden,
            follow_links,
            parent,
            child_depth,
            ancestors,
            x,
        ) {
            Some(it) => seq![it],
            None => Seq::<ItemView<C>>::empty(),
        };
        match raw_item::<C>(
            skip_hidden,
            follow_links,
            parent,
            child_depth,
            ancestors,
            raws.first(),
        ) {
            Some(it) => {
                assert(seq![it] + (rest + tail) =~= (seq![it] + rest) + tail);
            },
            None => {},
        }
    }
}

/// The view of an optional link resolution.
pub open spec fn opt_link_view(link: Option<LinkResolution>) -> Option<LinkView> {
    match link {
        Some(l) => Some(l@),
        None => None,
    }
}

/// The one item the synthetic root batch holds. A root that cannot be
/// examined is a path failure. A symlink root is followed even when links
/// are not followed elsewhere, so the walk has a starting directory; its
/// reported kind still honours the setting: the target's kind when links
/// are followed, `Symlink` otherwise. Nothing stands above the root, so
/// its stored ancestor chain is empty.
pub open spec fn root_item<C: ClientState>(
    follow_links: bool,
    root_path: Seq<u8>,
    stat: Option<FileType>,
    link: Option<LinkView>,
) -> ItemView<C> {
    let anc = Seq::<Seq<u8>>::empty();
    let parent = root_path.take(after_last_sep(root_path));
    let name = root_path.skip(after_last_sep(root_path));
    match stat {
        None => ItemView::Failure(ErrorView { depth: 0, kind: ErrorKindView::Path(root_path) }),
        Some(ft) => {
            if follow_links && ft is Symlink {
                match link {
                    Some(LinkView::Target { file_type: target_type, real_path }) => {
                        ItemView::Entry(
                            EntryView {
                                depth: 0,
                                file_name: name,
                                parent_path: parent,
                                file_type: target_type,
                                read_children_path: if target_type is Directory {
                                    Some(root_path)
                                } else {
                                    None
                                },
                                metadata_cache: None,
                                follow_link_ancestors: anc,
                                client_state: C::spec_default_dir_entry_state(),
                            },
                        )
                    },
                    _ => ItemView::Failure(
                        ErrorView { depth: 0, kind: ErrorKindView::Path(root_path) },
                    ),
                }
            } else if ft is Symlink {
                match link {
                    Some(LinkView::Target { file_type: target_type, real_path }) => {
                        ItemView::Entry(
                            EntryView {
                                depth: 0,
                                file_name: name,
                                parent_path: parent,
                                file_type: FileType::Symlink,
                                read_children_path: if target_type is Directory {
                                    Some(root_path)
                                } else {
                                    None
                                },
                                metadata_cache: None,
                                follow_link_ancestors: anc,
                                client_state: C::spec_default_dir_entry_state(),
                            },
                        )
                    },
                    _ => ItemView::Failure(
                        ErrorView { depth: 0, kind: ErrorKindView::Path(root_path) },
                    ),
                }
            } else {
                ItemView::Entry(
                    EntryView {
                        depth: 0,
                        file_name: name,
                        parent_path: parent,
                        file_type: ft,
                        read_children_path: if ft is Directory {
                            Some(root_path)
                        } else {
                            None
                        },
                        metadata_cache: None,
                        follow_link_ancestors: anc,
                        client_state: C::spec_default_dir_entry_state(),
                    },
                )
            }
        },
    }
}

/// Builds the synthetic batch holding the root entry, before any hook
/// runs. `stat` is the root's own kind, `None` when it could not be
/// examined; `link` is the resolution of its target when it is a symlink.
/// The batch is pinned exactly by [`root_item`], hook or no hook: this is
/// the batch the root invocation of a configured hook is handed.
pub fn assemble_root_batch<C: ClientState>(
    follow_links: bool,
    root_path: Vec<u8>,
    stat: Option<FileType>,
    link: Option<LinkResolution>,
    root_read_dir_state: C::ReadDirState,
) -> (batch: ReadDirBatch<C>)
    ensures
        batch_view(batch.results@) == seq![
            root_item::<C>(follow_links, root_path@, stat, opt_link_view(link)),
        ],
        batch.read_dir_state == root_read_dir_state,
{
    let (parent, name) = split_at_last_sep(&root_path);
    let ancestors: Vec<Vec<u8>> = Vec::new();
    let ghost anc: Seq<Seq<u8>> = Seq::<Seq<u8>>::empty();
    proof {
        assert(ancestors@.map_values(|q: Vec<u8>| q@) =~= anc);
    }
    let item: Result<DirEntry<C>, Error> = match stat {
        None => Err(Error::from_path(0, clone_bytes(&root_path))),
        Some(ft) => {
            if follow_links && ft.is_symlink() {
                match &link {
                    Some(LinkResolution::Target { file_type: target_type, real_path: _ }) => {
                        Ok(
                            DirEntry {
                                depth: 0,
                                file_name: name,
                                parent_path: parent,
                                file_type: *target_type,
                                read_children_path: if target_type.is_dir() {
                                    Some(clone_bytes(&root_path))
                                } else {
                                    None
                                },
                                metadata_cache: None,
                                follow_link_ancestors: ancestors,
                                client_state: C::default_dir_entry_state(),
                            },
                        )
                    },
                    _ => Err(Error::from_path(0, clone_bytes(&root_path))),
                }
            } else if ft.is_symlink() {
                match &link {
                    Some(LinkResolution::Target { file_type: target_type, real_path }) => {
                        Ok(
                            DirEntry {
                                depth: 0,
                                file_name: name,
                                parent_path: parent,
                                file_type: FileType::Symlink,
                                read_children_path: if target_type.is_dir() {
                                    Some(clone_bytes(&root_path))
                                } else {
                                    None
                                },
                                metadata_cache: None,
                                follow_link_ancestors: ancestors,
                                client_state: C::default_dir_entry_state(),
                            },
                        )
                    },
                    _ => Err(Error::from_path(0, clone_bytes(&root_path))),
                }
            } else {
                Ok(
                    DirEntry {
                        depth: 0,
                        file_name: name,
                        parent_path: parent,
                        file_type: ft,
                        read_children_path: if ft.is_dir() {
                            Some(clone_bytes(&root_path))
                        } else {
                            None
                        },
                        metadata_cache: None,
                        follow_link_ancestors: ancestors,
                        client_state: C::default_dir_entry_state(),
                    },
                )
            }
        },
    };
    let mut results: Vec<Result<DirEntry<C>, Error>> = Vec::new();
    proof {
        match item_view(item) {
            ItemView::Entry(e) => {
                assert(e.follow_link_ancestors =~= anc);
            },
            ItemView::Failure(_) => {},
        }
    }
    results.push(item);
    proof {
        assert(batch_view(results@) =~= seq![
            root_item::<C>(follow_links, root_path@, stat, opt_link_view(link)),
        ]);
    }
    ReadDirBatch { read_dir_state: root_read_dir_state, results }
}

/// Builds the synthetic root batch with [`assemble_root_batch`], then
/// invokes the configured hook once with `None` for the depth — here and
/// nowhere else — the root's parent path (empty when the root could not
/// be examined), the seeded state and that one-item batch, all mutable to
/// the hook. Without a hook the result is the assembled batch itself,
/// pinned exactly by [`root_item`].
pub fn root_batch<C: ClientState, F: ProcessReadDir<C>>(
    process: &Option<F>,
    follow_links: bool,
    root_path: Vec<u8>,
    stat: Option<FileType>,
    link: Option<LinkResolution>,
    root_read_dir_state: C::ReadDirState,
) -> (batch: ReadDirBatch<C>)
    ensures
        (*process) is None ==> batch_view(batch.results@) == seq![
            root_item::<C>(follow_links, root_path@, stat, opt_link_view(link)),
        ] && batch.read_dir_state == root_read_dir_state,
{
    let mut batch = assemble_root_batch::<C>(
        follow_links,
        root_path,
        stat,
        link,
        root_read_dir_state,
    );
    let cb_parent: Vec<u8> = if batch.results.len() > 0 {
        match &batch.results[0] {
            Ok(e) => clone_bytes(&e.parent_path),
            Err(_) => Vec::new(),
        }
    } else {
        Vec::new()
    };
    match process {
        Some(f) => {
            f.process(None, &cb_parent, &mut batch.read_dir_state, &mut batch.results);
        },
        None => {},
    }
    batch
}

/// The batch for a directory that could not be opened: its sole item is a
/// path failure carrying that directory's own depth and path, standing
/// where the contents would have appeared; the caller's hook never runs.
/// Past the depth cutoff no enumeration is owed, so the batch is empty,
/// as if the directory had never been opened.
pub fn read_dir_failed_batch<C: ClientState>(cfg: &WalkConfig, request: ReadDirSpec<C>) -> (batch:
    ReadDirBatch<C>)
    ensures
        batch.read_dir_state == request.client_read_state,
        request.depth >= cfg.max_depth ==> batch.results@.len() == 0,
        request.depth < cfg.max_depth ==> batch_view(batch.results@) == seq![
            ItemView::Failure::<C>(
                ErrorView {
                    depth: request.depth as nat,
                    kind: ErrorKindView::Path(request.path@),
                },
            ),
        ],
{
    let ReadDirSpec { path, depth, client_read_state, follow_link_ancestors: _ } = request;
    let mut results: Vec<Result<DirEntry<C>, Error>> = Vec::new();
    if depth < cfg.max_depth {
        results.push(Err(Error::from_path(depth, path)));
        proof {
            assert(batch_view(results@) =~= seq![
                ItemView::Failure::<C>(
                    ErrorView {
                        depth: request.depth as nat,
                        kind: ErrorKindView::Path(request.path@),
                    },
                ),
            ]);
        }
    }
    ReadDirBatch { read_dir_state: client_read_state, results }
}

/// Reverses a vector, so that popping walks the incoming order.
pub fn reversed<T>(v: Vec<T>) -> (r: Vec<T>)
    ensures
        r@.len() == v@.len(),
        forall|k: int| 0 <= k < v@.len() ==> r@[k] == v@[v@.len() - 1 - k],
{
    let ghost orig = v@;
    let mut v = v;
    let mut r: Vec<T> = Vec::new();
    while v.len() > 0
        invariant
            v@.len() + r@.len() == orig.len(),
            v@ == orig.take(v@.len() as int),
            forall|k: int| 0 <= k < r@.len() ==> r@[k] == orig[orig.len() - 1 - k],
        decreases v@.len(),
    {
        let x = v.pop().unwrap();
        proof {
            assert(orig.take((v@.len() + 1) as int).drop_last() =~= orig.take(v@.len() as int));
            assert(orig.take((v@.len() + 1) as int).last() == orig[v@.len() as int]);
        }
        r.push(x);
    }
    r
}

/// Materializes one read request up to the caller's hook: the depth
/// cutoff, the children built from the raw listing with hidden filtering
/// and link resolution, and the optional sort. The result is pinned
/// exactly by [`assemble_view`], hook or no hook: this is the batch every
/// configured hook is handed.
pub fn assemble_read_dir_batch<C: ClientState>(
    cfg: &WalkConfig,
    request: ReadDirSpec<C>,
    raws: Vec<RawDirEntry>,
) -> (batch: ReadDirBatch<C>)
    ensures
        batch.read_dir_state == request.client_read_state,
        batch_view(batch.results@) == assemble_view::<C>(
            *cfg,
            request.path@,
            request.depth as nat,
            request.follow_link_ancestors@.map_values(|q: Vec<u8>| q@),
            raws_view(raws@),
        ),
{
    let ReadDirSpec { path, depth, client_read_state, follow_link_ancestors } = request;
    if depth >= cfg.max_depth {
        return ReadDirBatch { read_dir_state: client_read_state, results: Vec::new() };
    }
    let child_depth = depth + 1;
    let incoming = follow_link_ancestors;
    let ghost anc: Seq<Seq<u8>> = incoming@.map_values(|q: Vec<u8>| q@);
    let stored: Vec<Vec<u8>> = if cfg.follow_links {
        let mut a = clone_paths(&incoming);
        a.push(clone_bytes(&path));
        a
    } else {
        clone_paths(&incoming)
    };
    let ghost stored_v: Seq<Seq<u8>> = extended_ancestors(cfg.follow_links, anc, path@);
    proof {
        assert(stored@.map_values(|q: Vec<u8>| q@) =~= stored_v);
    }
    let ghost raws_v: Seq<RawView> = raws_view(raws@);
    let n_raws = raws.len();
    let mut rev = reversed(raws);
    let mut items: Vec<Result<DirEntry<C>, Error>> = Vec::new();
    let mut idx: usize = 0;
    proof {
        assert(batch_view(items@) =~= build_items::<C>(
            cfg.skip_hidden,
            cfg.follow_links,
            path@,
            child_depth as nat,
            anc,
            raws_v.take(0),
        ));
    }
    while rev.len() > 0
        invariant
            raws_v.len() == n_raws,
            idx + rev@.len() == raws_v.len(),
            forall|k: int| 0 <= k < rev@.len() ==> rev@[k]@ == raws_v[raws_v.len() - 1 - k],
            incoming@.map_values(|q: Vec<u8>| q@) == anc,
            stored@.map_values(|q: Vec<u8>| q@) == stored_v,
            stored_v == extended_ancestors(cfg.follow_links, anc, path@),
            batch_view(items@) == build_items::<C>(
                cfg.skip_hidden,
                cfg.follow_links,
                path@,
                child_depth as nat,
                anc,
                raws_v.take(idx as int),
            ),
        decreases rev@.len(),
    {
        let raw = rev.pop().unwrap();
        let ghost raw_v: RawView = raw@;
        proof {
            assert(raw_v == raws_v[idx as int]);
        }
        match raw {
            RawDirEntry::Failed => {
                items.push(Err(Error::from_io(child_depth)));
            },
            RawDirEntry::Entry { file_name, file_type, link } => {
                if cfg.skip_hidden && is_hidden(&file_name) {
                    // dropped entirely
                } else if cfg.follow_links && file_type.is_symlink() {
                    match link {
                        Some(LinkResolution::Target { file_type: target_type, real_path }) => {
                            if crate::path::contains_path(&incoming, &real_path) {
                                items.push(Err(Error::from_loop(child_depth, real_path)));
                            } else {
                                let read_children_path = if target_type.is_dir() {
                                    Some(join(&path, &file_name))
                                } else {
                                    None
                                };
                                let e = DirEntry {
                                    depth: child_depth,
                                    file_name,
                                    parent_path: clone_bytes(&path),
                                    file_type: target_type,
                                    read_children_path,
                                    metadata_cache: None,
                                    follow_link_ancestors: clone_paths(&stored),
                                    client_state: C::default_dir_entry_state(),
                                };
                                proof {
                                    assert(e@.follow_link_ancestors =~= stored_v);
                                }
                                items.push(Ok(e));
                            }
                        },
                        _ => {
                            items.push(
                                Err(Error::from_path(child_depth, join(&path, &file_name))),
                            );
                        },
                    }
                } else {
                    let read_children_path = if file_type.is_dir() {
                        Some(join(&path, &file_name))
                    } else {
                        None
                    };
                    let e = DirEntry {
                        depth: child_depth,
                        file_name,
                        parent_path: clone_bytes(&path),
                        file_type,
                        read_children_path,
                        metadata_cache: None,
                        follow_link_ancestors: clone_paths(&stored),
                        client_state: C::default_dir_entry_state(),
                    };
                    proof {
                        assert(e@.follow_link_ancestors =~= stored_v);
                    }
                    items.push(Ok(e));
                }
            },
        }
        proof {
            lemma_build_items_snoc::<C>(
                cfg.skip_hidden,
                cfg.follow_links,
                path@,
                child_depth as nat,
                anc,
                raws_v.take(idx as int),
                raw_v,
            );
            assert(raws_v.take(idx as int).push(raw_v) =~= raws_v.take(idx + 1));
            let built = build_items::<C>(
                cfg.skip_hidden,
                cfg.follow_links,
                path@,
                child_depth as nat,
                anc,
                raws_v.take(idx as int),
            );
            match raw_item::<C>(
                cfg.skip_hidden,
                cfg.follow_links,
                path@,
                child_depth as nat,
                anc,
                raw_v,
            ) {
                Some(it) => {
                    assert(batch_view(items@) =~= built + seq![it]);
                    assert(built + seq![it] =~= build_items::<C>(
                        cfg.skip_hidden,
                        cfg.follow_links,
                        path@,
                        child_depth as nat,
                        anc,
                        raws_v.take(idx + 1),
                    ));
                },
                None => {
                    assert(batch_view(items@) =~= built);
                },
            }
        }
        idx = idx + 1;
    }
    proof {
        assert(raws_v.take(idx as int) =~= raws_v);
    }
    if cfg.sort {
        sort_batch(&mut items);
    }
    ReadDirBatch { read_dir_state: client_read_state, results: items }
}

/// Materializes one read request: assembles the batch with
/// [`assemble_read_dir_batch`], then — only below the depth cutoff —
/// invokes the configured hook once, handing it `Some` of the request's
/// depth, the request's path, the inherited state and that assembled
/// batch, all mutable to the hook. Without a hook the result is the
/// assembled batch itself, pinned exactly by [`assemble_view`]; past the
/// cutoff the batch is empty and the hook never runs.
pub fn process_read_dir_batch<C: ClientState, F: ProcessReadDir<C>>(
    cfg: &WalkConfig,
    process: &Option<F>,
    request: ReadDirSpec<C>,
    raws: Vec<RawDirEntry>,
) -> (batch: ReadDirBatch<C>)
    ensures
        request.depth >= cfg.max_depth ==> batch.results@.len() == 0 && batch.read_dir_state
            == request.client_read_state,
        (*process) is None ==> batch_view(batch.results@) == assemble_view::<C>(
            *cfg,
            request.path@,
            request.depth as nat,
            request.follow_link_ancestors@.map_values(|q: Vec<u8>| q@),
            raws_view(raws@),
        ) && batch.read_dir_state == request.client_read_state,
{
    let depth = request.depth;
    let hook_path = clone_bytes(&request.path);
    let past_cutoff = depth >= cfg.max_depth;
    let mut batch = assemble_read_dir_batch(cfg, request, raws);
    proof {
        assert(batch_view(batch.results@).len() == batch.results@.len());
    }
    if !past_cutoff {
        match process {
            Some(f) => {
                f.process(Some(depth), &hook_path, &mut batch.read_dir_state, &mut batch.results);
            },
            None => {},
        }
    }
    batch
}

} // verus!
