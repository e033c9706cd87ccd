//! The data carried through a walk: file kinds, errors, directory entries,
//! read requests and their resulting batches.

use vstd::prelude::*;
use crate::ClientState;

verus! {

/// The kind of a filesystem entry.
#[derive(Clone, Copy, Debug, PartialEq, Eq, Structural)]
pub enum FileType {
    File,
    Directory,
    Symlink,
    Other,
}

impl FileType {
    pub fn is_dir(&self) -> (r: bool)
        ensures
            r == (*self is Directory),
    {
        matches!(self, FileType::Directory)
    }

    pub fn is_symlink(&self) -> (r: bool)
        ensures
            r == (*self is Symlink),
    {
        matches!(self, FileType::Symlink)
    }
}

/// Metadata of one entry, filled into its cache slot when a caller looks
/// it up.
#[derive(Clone, Copy, Debug, PartialEq, Eq, Structural)]
pub struct FileMetadata {
    /// Size in bytes.
    pub len: u64,
    /// Kind of the entry the metadata describes.
    pub file_type: FileType,
}

/// What went wrong at one position of the stream.
#[derive(Clone, Debug, PartialEq, Eq)]
pub enum ErrorKind {
    /// The operating system failed to hand out one entry while a directory
    /// was being enumerated.
    Io,
    /// A path could not be opened or examined; carries that path.
    Path { path: Vec<u8> },
    /// A followed symlink resolves to a real path that already stands in its
    /// own ancestor chain; carries that real path.
    SymlinkLoop { path: Vec<u8> },
    /// The worker pool failed to run the head request within the configured
    /// timeout; terminal for the walk.
    Busy,
}

/// An error yielded as one `Err` item of the stream.
#[derive(Clone, Debug, PartialEq, Eq)]
pub struct Error {
    pub depth: usize,
    pub kind: ErrorKind,
}

impl Error {
    pub fn from_path(depth: usize, path: Vec<u8>) -> (r: Error)
        ensures
            r == (Error { depth, kind: ErrorKind::Path { path } }),
    {
        Error { depth, kind: ErrorKind::Path { path } }
    }

    pub fn from_io(depth: usize) -> (r: Error)
        ensures
            r == (Error { depth, kind: ErrorKind::Io }),
    {
        Error { depth, kind: ErrorKind::Io }
    }

    pub fn from_loop(depth: usize, path: Vec<u8>) -> (r: Error)
        ensures
            r == (Error { depth, kind: ErrorKind::SymlinkLoop { path } }),
    {
        Error { depth, kind: ErrorKind::SymlinkLoop { path } }
    }

    pub fn busy(depth: usize) -> (r: Error)
        ensures
            r == (Error { depth, kind: ErrorKind::Busy }),
    {
        Error { depth, kind: ErrorKind::Busy }
    }

    pub fn is_busy(&self) -> (r: bool)
        ensures
            r == (self.kind is Busy),
    {
        matches!(self.kind, ErrorKind::Busy)
    }
}

/// One filesystem entry of the walk.
pub struct DirEntry<C: ClientState> {
    /// Distance from the root; the root itself has depth 0.
    pub depth: usize,
    /// Name of the entry within its parent, as native bytes.
    pub file_name: Vec<u8>,
    /// Path of the directory that holds this entry.
    pub parent_path: Vec<u8>,
    /// Kind of the entry; when a symlink was followed, the kind of its target.
    pub file_type: FileType,
    /// Metadata, absent until a caller looks it up and caches it here.
    pub metadata_cache: Option<FileMetadata>,
    /// When present, the children of this path will be enumerated; clearing
    /// it prunes the subtree below this entry.
    pub read_children_path: Option<Vec<u8>>,
    /// Real paths above this entry when link following is enabled, used to
    /// detect symlink loops; empty otherwise.
    pub follow_link_ancestors: Vec<Vec<u8>>,
    /// Caller-owned annotation slot.
    pub client_state: C::DirEntryState,
}

impl<C: ClientState> DirEntry<C> {
    /// Full path of this entry.
    pub fn path(&self) -> (r: Vec<u8>)
        ensures
            r@ == crate::path::join_path(self.parent_path@, self.file_name@),
    {
        crate::path::join(&self.parent_path, &self.file_name)
    }
}

/// A request to enumerate one directory.
pub struct ReadDirSpec<C: ClientState> {
    /// Absolute path to enumerate.
    pub path: Vec<u8>,
    /// Depth of the directory itself; its children sit one deeper.
    pub depth: usize,
    /// Caller state inherited from the parent directory.
    pub client_read_state: C::ReadDirState,
    /// Real paths above this directory when link following is enabled.
    pub follow_link_ancestors: Vec<Vec<u8>>,
}

/// The outcome of enumerating one directory: the outgoing caller state and
/// the children in the order the consumer will observe them.
pub struct ReadDirBatch<C: ClientState> {
    pub read_dir_state: C::ReadDirState,
    pub results: Vec<Result<DirEntry<C>, Error>>,
}

/// Spec-level picture of a [`DirEntry`]: the same fields over mathematical
/// sequences.
pub struct EntryView<C: ClientState> {
    pub depth: nat,
    pub file_name: Seq<u8>,
    pub parent_path: Seq<u8>,
    pub file_type: FileType,
    pub metadata_cache: Option<FileMetadata>,
    pub read_children_path: Option<Seq<u8>>,
    pub follow_link_ancestors: Seq<Seq<u8>>,
    pub client_state: C::DirEntryState,
}

impl<C: ClientState> View for DirEntry<C> {
    type V = EntryView<C>;

    open spec fn view(&self) -> EntryView<C> {
        EntryView {
            depth: self.depth as nat,
            file_name: self.file_name@,
            parent_path: self.parent_path@,
            file_type: self.file_type,
            metadata_cache: self.metadata_cache,
            read_children_path: match self.read_children_path {
                Some(p) => Some(p@),
                None => None,
            },
            follow_link_ancestors: self.follow_link_ancestors@.map_values(|q: Vec<u8>| q@),
            client_state: self.client_state,
        }
    }
}

/// Spec-level picture of an [`ErrorKind`].
pub enum ErrorKindView {
    Io,
    Path(Seq<u8>),
    SymlinkLoop(Seq<u8>),
    Busy,
}

/// Spec-level picture of an [`Error`].
pub struct ErrorView {
    pub depth: nat,
    pub kind: ErrorKindView,
}

impl View for Error {
    type V = ErrorView;

    open spec fn view(&self) -> ErrorView {
        ErrorView {
            depth: self.depth as nat,
            kind: match self.kind {
                ErrorKind::Io => ErrorKindView::Io,
                ErrorKind::Path { path } => ErrorKindView::Path(path@),
                ErrorKind::SymlinkLoop { path } => ErrorKindView::SymlinkLoop(path@),
                ErrorKind::Busy => ErrorKindView::Busy,
            },
        }
    }
}

/// Spec-level picture of one item of a batch or of the stream.
pub enum ItemView<C: ClientState> {
    Entry(EntryView<C>),
    Failure(ErrorView),
}

/// The view of one `Result` item.
pub open spec fn item_view<C: ClientState>(r: Result<DirEntry<C>, Error>) -> ItemView<C> {
    match r {
        Ok(e) => ItemView::Entry(e@),
        Err(e) => ItemView::Failure(e@),
    }
}

/// The view of a whole batch, item by item.
pub open spec fn batch_view<C: ClientState>(s: Seq<Result<DirEntry<C>, Error>>) -> Seq<
    ItemView<C>,
> {
    s.map_values(|r: Result<DirEntry<C>, Error>| item_view(r))
}

/// What a followed symlink resolved to.
pub enum LinkResolution {
    /// The target was examined: its kind, and its real path for loop
    /// detection.
    Target { file_type: FileType, real_path: Vec<u8> },
    /// The target could not be examined.
    Failed,
}

/// One raw item of an operating-system directory enumeration, before any
/// filtering or resolution.
pub enum RawDirEntry {
    /// An entry with its name and kind; `link` carries the resolution of the
    /// target when the entry is a symlink that was looked up.
    Entry { file_name: Vec<u8>, file_type: FileType, link: Option<LinkResolution> },
    /// The operating system failed to produce this entry.
    Failed,
}

/// Spec-level picture of a [`LinkResolution`].
pub enum LinkView {
    Target { file_type: FileType, real_path: Seq<u8> },
    Failed,
}

impl View for LinkResolution {
    type V = LinkView;

    open spec fn view(&self) -> LinkView {
        match self {
            LinkResolution::Target { file_type, real_path } => LinkView::Target {
                file_type: *file_type,
                real_path: real_path@,
            },
            LinkResolution::Failed => LinkView::Failed,
        }
    }
}

/// Spec-level picture of a [`RawDirEntry`].
pub enum RawView {
    Entry { file_name: Seq<u8>, file_type: FileType, link: Option<LinkView> },
    Failed,
}

impl View for RawDirEntry {
    type V = RawView;

    open spec fn view(&self) -> RawView {
        match self {
            RawDirEntry::Entry { file_name, file_type, link } => RawView::Entry {
                file_name: file_name@,
                file_type: *file_type,
                link: match link {
                    Some(l) => Some(l@),
                    None => None,
                },
            },
            RawDirEntry::Failed => RawView::Failed,
        }
    }
}

/// The view of a raw listing, item by item.
pub open spec fn raws_view(s: Seq<RawDirEntry>) -> Seq<RawView> {
    s.map_values(|r: RawDirEntry| r@)
}

} // verus!
