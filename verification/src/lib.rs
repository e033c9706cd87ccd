//! Parallel, streaming, recursive directory walker.
//!
//! A walk enumerates the entries of a filesystem tree, yielding each entry
//! exactly once in strict depth-first pre-order, while the enumeration of
//! individual directories may run on worker threads. The library holds the
//! coordination and decision logic: building a directory's batch of children
//! from a raw listing ([`worker`]), releasing out-of-order completions in
//! issue order ([`bus`]), and flattening batches into the final stream
//! ([`stream`]). Opening directories, examining links and spawning workers
//! are left to the surrounding program, which feeds their outcomes in as
//! plain values.

use vstd::prelude::*;

pub mod bus;
pub mod entry;
pub mod path;
pub mod sort;
pub mod stream;
pub mod worker;
pub mod laws;

pub use crate::entry::DirEntry;
pub use crate::entry::Error;
pub use crate::stream::DirEntryIter;

verus! {

/// Caller state maintained while performing a walk: one value threaded down
/// the tree from directory to directory, and one annotation slot stored in
/// each [`DirEntry`].
///
/// Implementations are written per state type — the crate provides
/// `((), ())` for stateless walks and `(usize, bool)` — because the
/// default values and the duplication are part of the contracts: each
/// implementation states what a fresh value holds and promises that a
/// copy equals its source.
pub trait ClientState: Sized {
    type ReadDirState: Send + 'static;

    type DirEntryState: Send + 'static;

    /// The value a fresh `ReadDirState` holds.
    spec fn spec_default_read_dir_state() -> Self::ReadDirState;

    /// The value a fresh `DirEntryState` holds.
    spec fn spec_default_dir_entry_state() -> Self::DirEntryState;

    fn default_read_dir_state() -> (r: Self::ReadDirState)
        ensures
            r == Self::spec_default_read_dir_state(),
    ;

    fn default_dir_entry_state() -> (r: Self::DirEntryState)
        ensures
            r == Self::spec_default_dir_entry_state(),
    ;

    /// Duplicates the state a directory hands each of its child directories.
    /// The copy equals the state it was taken from.
    fn clone_read_dir_state(state: &Self::ReadDirState) -> (r: Self::ReadDirState)
        ensures
            r == *state,
    ;
}

impl ClientState for ((), ()) {
    type ReadDirState = ();

    type DirEntryState = ();

    open spec fn spec_default_read_dir_state() -> () {
        ()
    }

    open spec fn spec_default_dir_entry_state() -> () {
        ()
    }

    fn default_read_dir_state() -> (r: ()) {
        ()
    }

    fn default_dir_entry_state() -> (r: ()) {
        ()
    }

    fn clone_read_dir_state(state: &()) -> () {
        ()
    }
}

impl ClientState for (usize, bool) {
    type ReadDirState = usize;

    type DirEntryState = bool;

    open spec fn spec_default_read_dir_state() -> usize {
        0
    }

    open spec fn spec_default_dir_entry_state() -> bool {
        false
    }

    fn default_read_dir_state() -> (r: usize) {
        0
    }

    fn default_dir_entry_state() -> (r: bool) {
        false
    }

    fn clone_read_dir_state(state: &usize) -> usize {
        *state
    }
}

/// A caller-supplied hook that is handed each directory's batch of children
/// before they are yielded. It may reorder, mutate, remove or annotate the
/// batch, and may clear `read_children_path` on an entry to prune the
/// subtree below it. `depth` is `None` exactly when the batch is the
/// synthetic one holding the root entry. Nothing is assumed of what it does.
pub trait ProcessReadDir<C: ClientState>: Send + Sync + 'static {
    fn process(
        &self,
        depth: Option<usize>,
        path: &Vec<u8>,
        read_dir_state: &mut C::ReadDirState,
        children: &mut Vec<Result<DirEntry<C>, Error>>,
    );
}

/// A hook that leaves every batch as it arrives.
#[derive(Clone, Copy)]
pub struct NoProcessReadDir;

impl<C: ClientState> ProcessReadDir<C> for NoProcessReadDir {
    fn process(
        &self,
        _depth: Option<usize>,
        _path: &Vec<u8>,
        _read_dir_state: &mut C::ReadDirState,
        _children: &mut Vec<Result<DirEntry<C>, Error>>,
    ) {
    }
}

/// Whether the bytes of a file name are valid UTF-8.
pub uninterp spec fn utf8_valid(bytes: Seq<u8>) -> bool;

/// Relies on core::str::from_utf8: it returns `Ok` exactly when the bytes
/// are valid UTF-8.
#[verifier::external_body]
fn check_utf8(bytes: &Vec<u8>) -> (r: bool)
    ensures
        r == utf8_valid(bytes@),
{
    core::str::from_utf8(bytes.as_slice()).is_ok()
}

/// A name is hidden when its UTF-8 view begins with a dot; a name that is
/// not valid UTF-8 is not hidden.
pub open spec fn is_hidden_name(name: Seq<u8>) -> bool {
    utf8_valid(name) && name.len() > 0 && name[0] == 46u8
}

/// Whether a file name names a hidden entry.
pub fn is_hidden(file_name: &Vec<u8>) -> (r: bool)
    ensures
        r == is_hidden_name(file_name@),
{
    file_name.len() > 0 && file_name[0] == 46u8 && check_utf8(file_name)
}

/// Relies on rayon::ThreadPool as an opaque handle; the library only
/// carries it, the surrounding program spawns work on it.
#[verifier::external_type_specification]
#[verifier::external_body]
pub struct ExThreadPool(rayon::ThreadPool);

/// Degree of parallelism to use when performing a walk. The library only
/// decides with it — executing requests, inline or on a pool, is the
/// surrounding program's part.
#[derive(Clone)]
pub enum Parallelism {
    /// Run requests inline on the consuming thread.
    Serial,
    /// Run in the shared default pool, giving up on a request after
    /// `busy_timeout_millis` milliseconds without progress.
    RayonDefaultPool { busy_timeout_millis: u64 },
    /// Run in the given pool, with the same timeout rule.
    RayonExistingPool { pool: std::sync::Arc<rayon::ThreadPool>, busy_timeout_millis: u64 },
    /// Run in a fresh pool with this many threads.
    RayonNewPool(usize),
}

impl Parallelism {
    /// The duration after which a pull on an unready head request fails,
    /// in milliseconds; `None` waits forever.
    pub fn timeout(&self) -> (r: Option<u64>)
        ensures
            r == match *self {
                Parallelism::Serial => None::<u64>,
                Parallelism::RayonNewPool(_) => None::<u64>,
                Parallelism::RayonDefaultPool { busy_timeout_millis } => Some(
                    busy_timeout_millis,
                ),
                Parallelism::RayonExistingPool { pool: _, busy_timeout_millis } => Some(
                    busy_timeout_millis,
                ),
            },
    {
        match self {
            Parallelism::Serial => None,
            Parallelism::RayonNewPool(_) => None,
            Parallelism::RayonDefaultPool { busy_timeout_millis } => Some(*busy_timeout_millis),
            Parallelism::RayonExistingPool { pool: _, busy_timeout_millis } => Some(
                *busy_timeout_millis,
            ),
        }
    }
}

/// The options a walk is built with.
pub struct WalkDirOptions<C: ClientState, F: ProcessReadDir<C>> {
    pub sort: bool,
    pub min_depth: usize,
    pub max_depth: usize,
    pub skip_hidden: bool,
    pub follow_links: bool,
    pub parallelism: Parallelism,
    pub root_read_dir_state: C::ReadDirState,
    pub process_read_dir: Option<F>,
}

impl<C: ClientState, F: ProcessReadDir<C> + Clone> Clone for WalkDirOptions<C, F> {
    /// The copy starts unsorted — `sort` is reset to `false` whatever the
    /// source held — while every other setting is kept: the bounds and
    /// flags as they stand, the caller state duplicated through
    /// [`ClientState::clone_read_dir_state`], the hook through its own
    /// `Clone`, and the parallelism choice cloned alongside.
    fn clone(&self) -> (r: Self)
        ensures
            r.sort == false,
            r.min_depth == self.min_depth,
            r.max_depth == self.max_depth,
            r.skip_hidden == self.skip_hidden,
            r.follow_links == self.follow_links,
            r.root_read_dir_state == self.root_read_dir_state,
            (r.process_read_dir is Some) == (self.process_read_dir is Some),
    {
        WalkDirOptions {
            sort: false,
            min_depth: self.min_depth,
            max_depth: self.max_depth,
            skip_hidden: self.skip_hidden,
            follow_links: self.follow_links,
            parallelism: self.parallelism.clone(),
            root_read_dir_state: C::clone_read_dir_state(&self.root_read_dir_state),
            process_read_dir: match &self.process_read_dir {
                Some(f) => Some(f.clone()),
                None => None,
            },
        }
    }
}

/// Builder for a walk over the tree below a root path.
pub struct WalkDirGeneric<C: ClientState, F: ProcessReadDir<C>> {
    pub root: Vec<u8>,
    pub options: WalkDirOptions<C, F>,
}

/// Builder for a walk that carries no caller state.
pub type WalkDir = WalkDirGeneric<((), ()), NoProcessReadDir>;

impl<C: ClientState, F: ProcessReadDir<C>> WalkDirGeneric<C, F> {
    /// A walk of the tree rooted at `root` with the default options: no
    /// sorting, hidden entries skipped, links not followed, no depth
    /// bounds, the default pool with a timeout of one second, and no hook.
    pub fn new(root: Vec<u8>) -> (r: Self)
        ensures
            r.root@ == root@,
            r.options.sort == false,
            r.options.min_depth == 0,
            r.options.max_depth == usize::MAX,
            r.options.skip_hidden == true,
            r.options.follow_links == false,
            r.options.parallelism == (Parallelism::RayonDefaultPool { busy_timeout_millis: 1000 }),
            r.options.root_read_dir_state == C::spec_default_read_dir_state(),
            r.options.process_read_dir is None,
    {
        WalkDirGeneric {
            root,
            options: WalkDirOptions {
                sort: false,
                min_depth: 0,
                max_depth: usize::MAX,
                skip_hidden: true,
                follow_links: false,
                parallelism: Parallelism::RayonDefaultPool { busy_timeout_millis: 1000 },
                root_read_dir_state: C::default_read_dir_state(),
                process_read_dir: None,
            },
        }
    }

    /// Root path of the walk.
    pub fn root(&self) -> (r: &Vec<u8>)
        ensures
            r@ == self.root@,
    {
        &self.root
    }

    /// Sort entries by file name per directory. Defaults to `false`.
    pub fn sort(self, sort: bool) -> (r: Self)
        ensures
            r.options.sort == sort,
            r == (WalkDirGeneric {
                options: WalkDirOptions { sort, ..self.options },
                ..self
            }),
    {
        WalkDirGeneric { options: WalkDirOptions { sort, ..self.options }, ..self }
    }

    /// Skip hidden entries. Enabled by default.
    pub fn skip_hidden(self, skip_hidden: bool) -> (r: Self)
        ensures
            r == (WalkDirGeneric {
                options: WalkDirOptions { skip_hidden, ..self.options },
                ..self
            }),
    {
        WalkDirGeneric { options: WalkDirOptions { skip_hidden, ..self.options }, ..self }
    }

    /// Follow symbolic links, yielding entries for their targets and an
    /// error for a link that closes a loop. Disabled by default.
    pub fn follow_links(self, follow_links: bool) -> (r: Self)
        ensures
            r == (WalkDirGeneric {
                options: WalkDirOptions { follow_links, ..self.options },
                ..self
            }),
    {
        WalkDirGeneric { options: WalkDirOptions { follow_links, ..self.options }, ..self }
    }

    /// Smallest depth that is yielded, clamped to the maximum depth. The
    /// root has depth 0.
    pub fn min_depth(self, depth: usize) -> (r: Self)
        ensures
            r.options.min_depth == if depth > self.options.max_depth {
                self.options.max_depth
            } else {
                depth
            },
            r == (WalkDirGeneric {
                options: WalkDirOptions { min_depth: r.options.min_depth, ..self.options },
                ..self
            }),
    {
        let clamped = if depth > self.options.max_depth {
            self.options.max_depth
        } else {
            depth
        };
        WalkDirGeneric { options: WalkDirOptions { min_depth: clamped, ..self.options }, ..self }
    }

    /// Largest depth that is enumerated, clamped up to the minimum depth.
    /// Directories at this depth are yielded but not entered. A maximum
    /// below 2 forces serial execution: only one directory is ever read.
    pub fn max_depth(self, depth: usize) -> (r: Self)
        ensures
            r.options.max_depth == if depth < self.options.min_depth {
                self.options.min_depth
            } else {
                depth
            },
            r.options.parallelism == if r.options.max_depth < 2 {
                Parallelism::Serial
            } else {
                self.options.parallelism
            },
            r == (WalkDirGeneric {
                options: WalkDirOptions {
                    max_depth: r.options.max_depth,
                    parallelism: r.options.parallelism,
                    ..self.options
                },
                ..self
            }),
    {
        let clamped = if depth < self.options.min_depth {
            self.options.min_depth
        } else {
            depth
        };
        let parallelism = if clamped < 2 {
            Parallelism::Serial
        } else {
            self.options.parallelism
        };
        WalkDirGeneric {
            options: WalkDirOptions { max_depth: clamped, parallelism, ..self.options },
            ..self
        }
    }

    /// Degree of parallelism to use when performing the walk.
    pub fn parallelism(self, parallelism: Parallelism) -> (r: Self)
        ensures
            r == (WalkDirGeneric {
                options: WalkDirOptions { parallelism, ..self.options },
                ..self
            }),
    {
        WalkDirGeneric { options: WalkDirOptions { parallelism, ..self.options }, ..self }
    }

    /// Seed state handed to the hook when it processes the root.
    pub fn root_read_dir_state(self, read_dir_state: C::ReadDirState) -> (r: Self)
        ensures
            r == (WalkDirGeneric {
                options: WalkDirOptions {
                    root_read_dir_state: read_dir_state,
                    ..self.options
                },
                ..self
            }),
    {
        WalkDirGeneric {
            options: WalkDirOptions { root_read_dir_state: read_dir_state, ..self.options },
            ..self
        }
    }

    /// The hook handed each directory's batch before it is yielded.
    pub fn process_read_dir(self, process_by: F) -> (r: Self)
        ensures
            r == (WalkDirGeneric {
                options: WalkDirOptions {
                    process_read_dir: Some(process_by),
                    ..self.options
                },
                ..self
            }),
    {
        WalkDirGeneric {
            options: WalkDirOptions { process_read_dir: Some(process_by), ..self.options },
            ..self
        }
    }

    /// Starts the walk. `stat` is the root's own kind — `None` when it
    /// could not be examined — and `link` the resolution of its target
    /// when it is a symlink; the surrounding program supplies both and
    /// then drives the returned stream. The synthetic root batch is
    /// pinned by [`crate::worker::assemble_root_batch`] before any hook
    /// runs; the hook's root invocation receives that one-item batch with
    /// `None` for the depth and the seeded state.
    pub fn into_iter(
        self,
        stat: Option<crate::entry::FileType>,
        link: Option<crate::entry::LinkResolution>,
    ) -> (r: crate::stream::DirEntryIter<C, F>)
        ensures
            r.wf(),
            !r.finished,
            !r.pending_descend,
            r.bus.slots_view().len() == 0,
            r.parallelism == self.options.parallelism,
            r.cfg == (crate::worker::WalkConfig {
                sort: self.options.sort,
                skip_hidden: self.options.skip_hidden,
                follow_links: self.options.follow_links,
                min_depth: self.options.min_depth,
                max_depth: self.options.max_depth,
            }),
            r.process == self.options.process_read_dir,
            r.frames@.len() == 1,
            self.options.process_read_dir is None ==> r.frames@[0].read_dir_state
                == self.options.root_read_dir_state,
            self.options.process_read_dir is None ==> r.frames@[0].rev_entries@.len() == 1
                && crate::entry::item_view(r.frames@[0].rev_entries@[0])
                == crate::worker::root_item::<C>(
                self.options.follow_links,
                self.root@,
                stat,
                crate::worker::opt_link_view(link),
            ),
            r.p1_inv(),
            self.options.process_read_dir is None && self.options.min_depth == 0 ==> r.orderly@,
    {
        let WalkDirGeneric { root, options } = self;
        let WalkDirOptions {
            sort,
            min_depth,
            max_depth,
            skip_hidden,
            follow_links,
            parallelism,
            root_read_dir_state,
            process_read_dir,
        } = options;
        let cfg = crate::worker::WalkConfig { sort, skip_hidden, follow_links, min_depth, max_depth };
        let ghost root_v = root@;
        let batch = crate::worker::root_batch::<C, F>(
            &process_read_dir,
            follow_links,
            root,
            stat,
            link,
            root_read_dir_state,
        );
        let ghost results_v = batch.results@;
        let it = crate::stream::DirEntryIter::new(cfg, process_read_dir, parallelism, batch);
        proof {
            assert(crate::entry::batch_view(results_v).len() == results_v.len());
            if results_v.len() == 1 {
                assert(crate::entry::batch_view(results_v)[0] == crate::entry::item_view(
                    results_v[0],
                ));
                assert(it.frames@[0].rev_entries@[0] == results_v[0]);
                if crate::entry::item_view(results_v[0]) == crate::worker::root_item::<C>(
                    follow_links,
                    root_v,
                    stat,
                    crate::worker::opt_link_view(link),
                ) {
                    assert(crate::stream::root_shape(results_v)) by {
                        assert forall|k: int| 0 <= k < results_v.len() implies match #[trigger] results_v[k] {
                            Ok(e) => e@.depth == 0,
                            Err(_) => true,
                        } by {
                            match results_v[0] {
                                Ok(e) => {
                                    assert(crate::entry::item_view(results_v[0])
                                        == crate::entry::ItemView::Entry(e@));
                                },
                                Err(_) => {},
                            }
                        }
                    }
                }
            }
        }
        it
    }
}

} // verus!

