//! The consumer-facing stream: batches are drained in depth-first pre-order,
//! a directory entry is yielded before its children, and entries shallower
//! than `min_depth` are dropped at the point of yield. The stream never
//! reads a directory itself: encountering an entry with a
//! `read_children_path` it issues a request on the bus and waits until the
//! surrounding program completes it.

use vstd::prelude::*;
use crate::{ClientState, ProcessReadDir};
use crate::bus::{BusSlot, OrderedResultBus};
use crate::entry::{DirEntry, Error, RawDirEntry, ReadDirBatch, ReadDirSpec};
use crate::path::{clone_bytes, clone_paths};
use crate::worker::{WalkConfig, process_read_dir_batch, reversed};

verus! {

/// One suspended directory: its outgoing state and its remaining items,
/// reversed so the next item is popped from the back.
pub struct Frame<C: ClientState> {
    pub read_dir_state: C::ReadDirState,
    pub rev_entries: Vec<Result<DirEntry<C>, Error>>,
}

/// The items still to drain across a stack of frames.
pub open spec fn frames_work<C: ClientState>(frames: Seq<Frame<C>>) -> nat
    decreases frames.len(),
{
    if frames.len() == 0 {
        0
    } else {
        frames_work(frames.drop_last()) + frames.last().rev_entries@.len()
    }
}

proof fn lemma_frames_work_push<C: ClientState>(s: Seq<Frame<C>>, f: Frame<C>)
    ensures
        frames_work(s.push(f)) == frames_work(s) + f.rev_entries@.len(),
{
    assert(s.push(f).drop_last() =~= s);
    assert(s.push(f).last() == f);
}

/// The full path of an entry.
pub open spec fn entry_path<C: ClientState>(e: crate::entry::EntryView<C>) -> Seq<u8> {
    crate::path::join_path(e.parent_path, e.file_name)
}

/// Whether the item is the entry of a directory at `depth` whose path is
/// `path`.
pub open spec fn is_dir_of<C: ClientState>(
    it: crate::entry::ItemView<C>,
    depth: nat,
    path: Seq<u8>,
) -> bool {
    match it {
        crate::entry::ItemView::Entry(p) => p.depth == depth && entry_path(p) == path,
        crate::entry::ItemView::Failure(_) => false,
    }
}

/// Whether some item before `upto` is the parent of an entry at `depth`
/// whose parent path is `parent`.
pub open spec fn linked_parent_exists<C: ClientState>(
    h: Seq<crate::entry::ItemView<C>>,
    upto: int,
    depth: nat,
    parent: Seq<u8>,
) -> bool {
    exists|j: int| 0 <= j < upto && is_dir_of(#[trigger] h[j], (depth - 1) as nat, parent)
}

/// Whether the item at `i` respects pre-order: an entry of positive depth
/// has an earlier entry one level up whose path is its parent path.
pub open spec fn child_ok<C: ClientState>(h: Seq<crate::entry::ItemView<C>>, i: int) -> bool {
    match h[i] {
        crate::entry::ItemView::Entry(e) => e.depth == 0 || linked_parent_exists(
            h,
            i,
            e.depth,
            e.parent_path,
        ),
        crate::entry::ItemView::Failure(_) => true,
    }
}

/// Depth-first pre-order of a yielded history: every entry of positive
/// depth was preceded by its parent.
pub open spec fn parent_linked<C: ClientState>(h: Seq<crate::entry::ItemView<C>>) -> bool {
    forall|i: int| 0 <= i < h.len() ==> #[trigger] child_ok(h, i)
}

/// Whether an unyielded item already has its parent in the history.
pub open spec fn item_linked<C: ClientState>(
    item: Result<DirEntry<C>, Error>,
    h: Seq<crate::entry::ItemView<C>>,
) -> bool {
    match item {
        Ok(e) => e@.depth == 0 || linked_parent_exists(h, h.len() as int, e@.depth, e@.parent_path),
        Err(_) => true,
    }
}

/// Whether every unyielded item of a list has its parent in the history.
pub open spec fn items_linked<C: ClientState>(
    items: Seq<Result<DirEntry<C>, Error>>,
    h: Seq<crate::entry::ItemView<C>>,
) -> bool {
    forall|k: int| 0 <= k < items.len() ==> item_linked(#[trigger] items[k], h)
}

/// Whether every frame's remaining items have their parents in the
/// history.
pub open spec fn frames_linked<C: ClientState>(
    frames: Seq<Frame<C>>,
    h: Seq<crate::entry::ItemView<C>>,
) -> bool {
    forall|f: int|
        0 <= f < frames.len() ==> items_linked((#[trigger] frames[f]).rev_entries@, h)
}

/// Whether the directory a request asks for stands in the history.
pub open spec fn req_linked<C: ClientState>(
    rq: ReadDirSpec<C>,
    h: Seq<crate::entry::ItemView<C>>,
) -> bool {
    exists|j: int| 0 <= j < h.len() && is_dir_of(#[trigger] h[j], rq.depth as nat, rq.path@)
}

/// Whether a completed batch sits directly below its request: every entry
/// one level under it, with the request's path as parent.
pub open spec fn batch_conforms<C: ClientState>(
    results: Seq<Result<DirEntry<C>, Error>>,
    rq: ReadDirSpec<C>,
) -> bool {
    forall|k: int|
        0 <= k < results.len() ==> match #[trigger] results[k] {
            Ok(e) => e@.depth == rq.depth + 1 && e.parent_path@ == rq.path@,
            Err(_) => true,
        }
}

/// Whether every entry of the synthetic root batch sits at the root.
pub open spec fn root_shape<C: ClientState>(results: Seq<Result<DirEntry<C>, Error>>) -> bool {
    forall|k: int|
        0 <= k < results.len() ==> match #[trigger] results[k] {
            Ok(e) => e@.depth == 0,
            Err(_) => true,
        }
}

proof fn lemma_linked_mono<C: ClientState>(
    h: Seq<crate::entry::ItemView<C>>,
    x: crate::entry::ItemView<C>,
    upto: int,
    depth: nat,
    parent: Seq<u8>,
)
    requires
        0 <= upto <= h.len(),
        linked_parent_exists(h, upto, depth, parent),
    ensures
        linked_parent_exists(h.push(x), upto, depth, parent),
        linked_parent_exists(h.push(x), upto + 1, depth, parent),
{
    let j = choose|j: int| 0 <= j < upto && is_dir_of(#[trigger] h[j], (depth - 1) as nat, parent);
    assert(h.push(x)[j] == h[j]);
    assert(is_dir_of(h.push(x)[j], (depth - 1) as nat, parent));
}

proof fn lemma_items_linked_mono<C: ClientState>(
    items: Seq<Result<DirEntry<C>, Error>>,
    h: Seq<crate::entry::ItemView<C>>,
    x: crate::entry::ItemView<C>,
)
    requires
        items_linked(items, h),
    ensures
        items_linked(items, h.push(x)),
{
    assert forall|k: int| 0 <= k < items.len() implies item_linked(
        #[trigger] items[k],
        h.push(x),
    ) by {
        assert(item_linked(items[k], h));
        match items[k] {
            Ok(e) => {
                if e@.depth != 0 {
                    lemma_linked_mono(h, x, h.len() as int, e@.depth, e@.parent_path);
                }
            },
            Err(_) => {},
        }
    }
}

proof fn lemma_frames_linked_mono<C: ClientState>(
    frames: Seq<Frame<C>>,
    h: Seq<crate::entry::ItemView<C>>,
    x: crate::entry::ItemView<C>,
)
    requires
        frames_linked(frames, h),
    ensures
        frames_linked(frames, h.push(x)),
{
    assert forall|f: int| 0 <= f < frames.len() implies items_linked(
        (#[trigger] frames[f]).rev_entries@,
        h.push(x),
    ) by {
        assert(items_linked(frames[f].rev_entries@, h));
        lemma_items_linked_mono(frames[f].rev_entries@, h, x);
    }
}

proof fn lemma_parent_linked_push<C: ClientState>(
    h: Seq<crate::entry::ItemView<C>>,
    x: crate::entry::ItemView<C>,
)
    requires
        parent_linked(h),
        match x {
            crate::entry::ItemView::Entry(e) => e.depth == 0 || linked_parent_exists(
                h,
                h.len() as int,
                e.depth,
                e.parent_path,
            ),
            crate::entry::ItemView::Failure(_) => true,
        },
    ensures
        parent_linked(h.push(x)),
{
    let h2 = h.push(x);
    assert forall|i: int| 0 <= i < h2.len() implies #[trigger] child_ok(h2, i) by {
        if i < h.len() {
            assert(child_ok(h, i));
            assert(h2[i] == h[i]);
            match h[i] {
                crate::entry::ItemView::Entry(e) => {
                    if e.depth != 0 {
                        lemma_linked_mono(h, x, i, e.depth, e.parent_path);
                    }
                },
                crate::entry::ItemView::Failure(_) => {},
            }
        } else {
            assert(h2[i] == x);
            match x {
                crate::entry::ItemView::Entry(e) => {
                    if e.depth != 0 {
                        lemma_linked_mono(h, x, h.len() as int, e.depth, e.parent_path);
                    }
                },
                crate::entry::ItemView::Failure(_) => {},
            }
        }
    }
}

/// A pull's outcome at spec level: the next item, a wait on the pending
/// descent, or the end of the stream.
pub enum PullView<C: ClientState> {
    Yield(Result<DirEntry<C>, Error>),
    Wait,
    End,
}

/// A sequence backwards.
pub open spec fn rev_seq<T>(s: Seq<T>) -> Seq<T> {
    Seq::new(s.len(), |i: int| s[s.len() - 1 - i])
}

/// The remaining items of each frame, top of the stack last.
pub open spec fn frames_view<C: ClientState>(frames: Seq<Frame<C>>) -> Seq<
    Seq<Result<DirEntry<C>, Error>>,
> {
    frames.map_values(|f: Frame<C>| f.rev_entries@)
}

/// The items remaining across a stack of item lists.
pub open spec fn stack_work<C: ClientState>(fv: Seq<Seq<Result<DirEntry<C>, Error>>>) -> nat
    decreases fv.len(),
{
    if fv.len() == 0 {
        0
    } else {
        stack_work(fv.drop_last()) + fv.last().len()
    }
}

/// What draining the frame stack produces next. Each list is drained from
/// its back; an exhausted list resumes the one below it. A failure is
/// yielded as it stands; an entry at or above the depth floor is yielded;
/// one below the floor with children forces a wait for its batch; one
/// below the floor without children is dropped and draining goes on. An
/// empty stack ends the stream.
pub open spec fn drain_outcome<C: ClientState>(
    fv: Seq<Seq<Result<DirEntry<C>, Error>>>,
    min_depth: usize,
) -> PullView<C>
    decreases stack_work(fv), fv.len(),
    via drain_outcome_decreases::<C>
{
    if fv.len() == 0 {
        PullView::End
    } else if fv.last().len() == 0 {
        drain_outcome(fv.drop_last(), min_depth)
    } else {
        match fv.last().last() {
            Err(e) => PullView::Yield(Err(e)),
            Ok(entry) => {
                if entry.depth >= min_depth {
                    PullView::Yield(Ok(entry))
                } else if entry.read_children_path is Some {
                    PullView::Wait
                } else {
                    drain_outcome(
                        fv.update(fv.len() - 1, fv.last().drop_last()),
                        min_depth,
                    )
                }
            },
        }
    }
}

#[via_fn]
proof fn drain_outcome_decreases<C: ClientState>(
    fv: Seq<Seq<Result<DirEntry<C>, Error>>>,
    min_depth: usize,
) {
    if fv.len() > 0 {
        if fv.last().len() == 0 {
            assert(stack_work(fv) == stack_work(fv.drop_last()) + fv.last().len());
        } else {
            let upd = fv.update(fv.len() - 1, fv.last().drop_last());
            assert(upd.drop_last() =~= fv.drop_last());
            assert(upd.last() == fv.last().drop_last());
            assert(stack_work(upd) == stack_work(fv.drop_last()) + fv.last().len() - 1);
            assert(stack_work(fv) == stack_work(fv.drop_last()) + fv.last().len());
        }
    }
}

/// The state and remaining items of each frame, top of the stack last.
pub open spec fn stack_view<C: ClientState>(frames: Seq<Frame<C>>) -> Seq<
    (C::ReadDirState, Seq<Result<DirEntry<C>, Error>>),
> {
    frames.map_values(|f: Frame<C>| (f.read_dir_state, f.rev_entries@))
}

/// The items remaining across a spec stack.
pub open spec fn paired_work<C: ClientState>(
    sv: Seq<(C::ReadDirState, Seq<Result<DirEntry<C>, Error>>)>,
) -> nat
    decreases sv.len(),
{
    if sv.len() == 0 {
        0
    } else {
        paired_work(sv.drop_last()) + sv.last().1.len()
    }
}

/// The stack left behind by one draining pull: exhausted frames resumed
/// away, entries below the depth floor without children dropped, and —
/// unless the stream ended — the one item the pull consumed removed from
/// its frame. Frame states ride along untouched.
pub open spec fn after_stack<C: ClientState>(
    sv: Seq<(C::ReadDirState, Seq<Result<DirEntry<C>, Error>>)>,
    min_depth: usize,
) -> Seq<(C::ReadDirState, Seq<Result<DirEntry<C>, Error>>)>
    decreases paired_work(sv), sv.len(),
    via after_stack_decreases::<C>
{
    if sv.len() == 0 {
        sv
    } else if sv.last().1.len() == 0 {
        after_stack(sv.drop_last(), min_depth)
    } else {
        let popped = sv.update(sv.len() - 1, (sv.last().0, sv.last().1.drop_last()));
        match sv.last().1.last() {
            Err(e) => popped,
            Ok(entry) => {
                if entry.depth >= min_depth {
                    popped
                } else if entry.read_children_path is Some {
                    popped
                } else {
                    after_stack(popped, min_depth)
                }
            },
        }
    }
}

#[via_fn]
proof fn after_stack_decreases<C: ClientState>(
    sv: Seq<(C::ReadDirState, Seq<Result<DirEntry<C>, Error>>)>,
    min_depth: usize,
) {
    if sv.len() > 0 {
        if sv.last().1.len() == 0 {
            assert(paired_work(sv) == paired_work(sv.drop_last()) + sv.last().1.len());
        } else {
            let popped = sv.update(sv.len() - 1, (sv.last().0, sv.last().1.drop_last()));
            assert(popped.drop_last() =~= sv.drop_last());
            assert(popped.last() == (sv.last().0, sv.last().1.drop_last()));
            assert(paired_work(popped) == paired_work(sv.drop_last()) + sv.last().1.len() - 1);
            assert(paired_work(sv) == paired_work(sv.drop_last()) + sv.last().1.len());
        }
    }
}

/// A spec outcome as the pull's answer.
pub open spec fn outcome_to_next<C: ClientState>(p: PullView<C>) -> NextEntry<C> {
    match p {
        PullView::Yield(item) => NextEntry::Yielded(item),
        PullView::Wait => NextEntry::Waiting,
        PullView::End => NextEntry::Finished,
    }
}

/// What one pull on the stream produced.
pub enum NextEntry<C: ClientState> {
    /// The next item of the walk, in strict depth-first pre-order.
    Yielded(Result<DirEntry<C>, Error>),
    /// The head request has not been completed yet; the surrounding program
    /// must run it (or give up and complete it with a busy failure).
    Waiting,
    /// The walk is over; every later pull answers the same.
    Finished,
}

/// The stream of a walk. Pull items with [`DirEntryIter::next_entry`]; when
/// it answers `Waiting`, execute the issued request — take it with
/// [`DirEntryIter::take_next_work`], materialize it with
/// [`DirEntryIter::run_read_dir`], hand the batch back with
/// [`DirEntryIter::complete_read_dir`] — and pull again.
pub struct DirEntryIter<C: ClientState, F: ProcessReadDir<C>> {
    pub cfg: WalkConfig,
    pub process: Option<F>,
    pub parallelism: crate::Parallelism,
    pub bus: OrderedResultBus<C>,
    pub frames: Vec<Frame<C>>,
    pub pending_descend: bool,
    pub finished: bool,
    /// The items yielded so far, oldest first.
    pub history: Ghost<Seq<crate::entry::ItemView<C>>>,
    /// Whether every batch so far kept the pre-order discipline: the walk
    /// has no lower depth bound, the root batch sat at depth 0, each later
    /// batch sat directly below its request, and no hook redirected a
    /// `read_children_path` away from its entry's own path.
    pub orderly: Ghost<bool>,
    /// The request of the slot currently in flight, mirrored when it is
    /// handed out.
    pub pending_request: Ghost<Option<ReadDirSpec<C>>>,
}

impl<C: ClientState, F: ProcessReadDir<C>> DirEntryIter<C, F> {
    pub open spec fn wf(&self) -> bool {
        self.bus.wf()
    }

    /// The walk's pre-order guarantee, conditional on `orderly`: the
    /// yielded history is depth-first pre-ordered — every yielded entry of
    /// positive depth was preceded by the yielded entry of its parent
    /// directory — and everything still unyielded (frames, the issued
    /// request, a completed batch) already has its parent in the history.
    pub open spec fn p1_inv(&self) -> bool {
        self.orderly@ ==> {
            &&& self.cfg.min_depth == 0
            &&& parent_linked(self.history@)
            &&& frames_linked(self.frames@, self.history@)
            &&& (self.pending_descend ==> {
                &&& self.bus.head + 1 == self.bus.slots@.len()
                &&& match self.bus.slots@[self.bus.head as int] {
                    BusSlot::Pending(rq) => req_linked(rq, self.history@),
                    BusSlot::InFlight => self.pending_request@ matches Some(rq) && req_linked(
                        rq,
                        self.history@,
                    ),
                    BusSlot::Ready(b) => items_linked(b.results@, self.history@),
                    BusSlot::Consumed => false,
                }
            })
            &&& (!self.pending_descend ==> self.bus.head == self.bus.slots@.len())
        }
    }

    /// The outcome the next pull must produce, a function of the state
    /// alone: a finished stream answers `Finished`; one waiting on a
    /// descent answers `Waiting` until the head batch is ready, and then
    /// drains that batch on top of the stack; otherwise the frame stack
    /// is drained as it stands.
    pub open spec fn pull_view(&self) -> NextEntry<C> {
        if self.finished {
            NextEntry::Finished
        } else if self.pending_descend {
            if self.bus.head_index() < self.bus.slots_view().len() && self.bus.slots_view()[
                self.bus.head_index() as int
            ] is Ready {
                outcome_to_next(
                    drain_outcome(
                        frames_view(self.frames@).push(
                            rev_seq(
                                self.bus.slots_view()[self.bus.head_index() as int]->Ready_0.results@,
                            ),
                        ),
                        self.cfg.min_depth,
                    ),
                )
            } else {
                NextEntry::Waiting
            }
        } else {
            outcome_to_next(drain_outcome(frames_view(self.frames@), self.cfg.min_depth))
        }
    }

    /// Whether the head slot holds a ready batch.
    pub open spec fn head_ready(&self) -> bool {
        self.bus.head_index() < self.bus.slots_view().len() && self.bus.slots_view()[
            self.bus.head_index() as int
        ] is Ready
    }

    /// The frame stack a pull leaves behind, a function of the state alone.
    pub open spec fn post_stack(&self) -> Seq<(C::ReadDirState, Seq<Result<DirEntry<C>, Error>>)> {
        if self.finished {
            stack_view(self.frames@)
        } else if self.pending_descend {
            if self.head_ready() {
                after_stack(
                    stack_view(self.frames@).push(
                        (
                            self.bus.slots_view()[
                                self.bus.head_index() as int
                            ]->Ready_0.read_dir_state,
                            rev_seq(
                                self.bus.slots_view()[self.bus.head_index() as int]->Ready_0.results@,
                            ),
                        ),
                    ),
                    self.cfg.min_depth,
                )
            } else {
                stack_view(self.frames@)
            }
        } else {
            after_stack(stack_view(self.frames@), self.cfg.min_depth)
        }
    }

    /// Whether a pull ends the stream: it already was over, the last frame
    /// drains, or the terminal busy failure is yielded.
    pub open spec fn post_finished(&self) -> bool {
        self.finished || match self.pull_view() {
            NextEntry::Finished => true,
            NextEntry::Yielded(item) => match item {
                Ok(_) => false,
                Err(e) => e.kind is Busy,
            },
            NextEntry::Waiting => false,
        }
    }

    /// Whether a pull leaves a descent pending: it still waits on the head
    /// batch, or it consumed a directory entry — yielded or below the
    /// depth floor — whose batch must be entered next.
    pub open spec fn post_pending(&self) -> bool {
        if self.finished {
            self.pending_descend
        } else if self.pending_descend && !self.head_ready() {
            true
        } else {
            match self.pull_view() {
                NextEntry::Waiting => true,
                NextEntry::Finished => false,
                NextEntry::Yielded(item) => match item {
                    Ok(e) => e.read_children_path is Some,
                    Err(_) => false,
                },
            }
        }
    }

    /// Whether a pull takes the ready head batch and advances the head.
    pub open spec fn descends(&self) -> bool {
        !self.finished && self.pending_descend && self.head_ready()
    }

    /// Whether a pull issues one new request, for the directory entry it
    /// consumed.
    pub open spec fn issues_request(&self) -> bool {
        if self.finished {
            false
        } else if self.pending_descend && !self.head_ready() {
            false
        } else {
            match self.pull_view() {
                NextEntry::Waiting => true,
                NextEntry::Finished => false,
                NextEntry::Yielded(item) => match item {
                    Ok(e) => e.read_children_path is Some,
                    Err(_) => false,
                },
            }
        }
    }

    /// Starts a stream on the synthetic batch holding the root entry.
    pub fn new(
        cfg: WalkConfig,
        process: Option<F>,
        parallelism: crate::Parallelism,
        root: ReadDirBatch<C>,
    ) -> (r: DirEntryIter<C, F>)
        ensures
            r.wf(),
            r.cfg == cfg,
            r.process == process,
            r.parallelism == parallelism,
            !r.finished,
            !r.pending_descend,
            r.bus.slots_view().len() == 0,
            r.frames@.len() == 1,
            r.frames@[0].read_dir_state == root.read_dir_state,
            r.frames@[0].rev_entries@.len() == root.results@.len(),
            forall|k: int|
                0 <= k < root.results@.len() ==> r.frames@[0].rev_entries@[k] == root.results@[
                    root.results@.len() - 1 - k
                ],
            r.history@ == Seq::<crate::entry::ItemView<C>>::empty(),
            r.orderly@ == (cfg.min_depth == 0 && root_shape(root.results@)),
            r.p1_inv(),
    {
        let ghost results_v = root.results@;
        let fr = Frame::<C> {
            read_dir_state: root.read_dir_state,
            rev_entries: reversed(root.results),
        };
        let mut frames: Vec<Frame<C>> = Vec::new();
        frames.push(fr);
        let ghost ord0: bool = cfg.min_depth == 0 && root_shape(results_v);
        let r = DirEntryIter {
            cfg,
            process,
            parallelism,
            bus: OrderedResultBus::new(),
            frames,
            pending_descend: false,
            finished: false,
            history: Ghost(Seq::empty()),
            orderly: Ghost(ord0),
            pending_request: Ghost(None),
        };
        proof {
            if r.orderly@ {
                let h = r.history@;
                assert forall|f: int| 0 <= f < r.frames@.len() implies items_linked(
                    (#[trigger] r.frames@[f]).rev_entries@,
                    h,
                ) by {
                    assert forall|k: int| 0 <= k < r.frames@[f].rev_entries@.len() implies item_linked(
                        #[trigger] r.frames@[f].rev_entries@[k],
                        h,
                    ) by {
                        assert(r.frames@[f].rev_entries@[k] == results_v[results_v.len() - 1 - k]);
                    }
                }
            }
        }
        r
    }

    /// Pulls the next item of the stream.
    ///
    /// A yielded entry is never shallower than `min_depth`. When the
    /// yielded entry carries a `read_children_path`, exactly one request
    /// for that path, at that entry's depth and with its ancestor chain,
    /// was issued on the bus, and the stream will descend into its batch
    /// before touching anything else; when it carries none — in
    /// particular, when a hook cleared it to prune — nothing was issued,
    /// so nothing below that entry is ever read. A yielded busy failure
    /// finishes the stream. Each yielded item is appended to the ghost
    /// history, and while the walk stays [`orderly`](Self::orderly),
    /// [`p1_inv`](Self::p1_inv) keeps that history depth-first
    /// pre-ordered: no entry before its parent.
    pub fn next_entry(&mut self) -> (r: NextEntry<C>)
        requires
            old(self).wf(),
        ensures
            final (self).wf(),
            final (self).cfg == old(self).cfg,
            final (self).process == old(self).process,
            final (self).orderly@ ==> old(self).orderly@,
            old(self).p1_inv() ==> final (self).p1_inv(),
            r == old(self).pull_view(),
            stack_view(final (self).frames@) == old(self).post_stack(),
            final (self).finished == old(self).post_finished(),
            final (self).pending_descend == old(self).post_pending(),
            final (self).bus.head_index() == old(self).bus.head_index() + (if old(
                self,
            ).descends() {
                1int
            } else {
                0int
            }),
            final (self).bus.slots_view().len() == old(self).bus.slots_view().len() + (if old(
                self,
            ).issues_request() {
                1int
            } else {
                0int
            }),
            forall|i: int|
                0 <= i < old(self).bus.slots_view().len()
                    ==> #[trigger] final (self).bus.slots_view()[i] == (if old(self).descends()
                    && i == old(self).bus.head_index() as int {
                    BusSlot::Consumed::<C>
                } else {
                    old(self).bus.slots_view()[i]
                }),
            (old(self).p1_inv() && old(self).orderly@ && match r {
                NextEntry::Yielded(item) => match item {
                    Ok(e) => match e.read_children_path {
                        Some(p) => p@ == crate::path::join_path(e.parent_path@, e.file_name@),
                        None => true,
                    },
                    Err(_) => true,
                },
                NextEntry::Waiting => true,
                NextEntry::Finished => true,
            }) ==> final (self).orderly@,
            match r {
                NextEntry::Yielded(item) => final (self).history@ == old(self).history@.push(
                    crate::entry::item_view(item),
                ),
                NextEntry::Waiting => final (self).history@ == old(self).history@,
                NextEntry::Finished => final (self).history@ == old(self).history@,
            },
            match r {
                NextEntry::Yielded(item) => match item {
                    Ok(e) => {
                        &&& e.depth >= old(self).cfg.min_depth
                        &&& match e.read_children_path {
                            Some(p) => {
                                &&& final (self).bus.slots_view().len() == old(
                                    self,
                                ).bus.slots_view().len() + 1
                                &&& final (self).pending_descend
                                &&& final (self).frames@.len() > 0
                                &&& match final (self).bus.slots_view().last() {
                                    BusSlot::Pending(rq) => {
                                        &&& rq.path@ == p@
                                        &&& rq.depth == e.depth
                                        &&& rq.follow_link_ancestors@.map_values(
                                            |q: Vec<u8>| q@,
                                        ) == e.follow_link_ancestors@.map_values(|q: Vec<u8>| q@)
                                        &&& rq.client_read_state == final (self).frames@.last().read_dir_state
                                    },
                                    _ => false,
                                }
                            },
                            None => {
                                &&& final (self).bus.slots_view().len() == old(
                                    self,
                                ).bus.slots_view().len()
                                &&& !final (self).pending_descend
                            },
                        }
                    },
                    Err(e) => {
                        &&& final (self).bus.slots_view().len() == old(self).bus.slots_view().len()
                        &&& !final (self).pending_descend
                        &&& (e.kind is Busy ==> final (self).finished)
                    },
                },
                NextEntry::Waiting => true,
                NextEntry::Finished => final (self).finished,
            },
    {
        if self.finished {
            return NextEntry::Finished;
        }
        let ghost mut target: PullView<C> = PullView::End;
        let ghost mut target_stack: Seq<(C::ReadDirState, Seq<Result<DirEntry<C>, Error>>)> =
            Seq::empty();
        if self.pending_descend {
            let ghost h = self.history@;
            match self.bus.pop() {
                Some(batch) => {
                    let ghost results_v = batch.results@;
                    let fr = Frame::<C> {
                        read_dir_state: batch.read_dir_state,
                        rev_entries: reversed(batch.results),
                    };
                    proof {
                        lemma_frames_work_push(self.frames@, fr);
                        if old(self).p1_inv() && self.orderly@ {
                            assert(items_linked(results_v, h));
                            assert forall|k: int| 0 <= k < fr.rev_entries@.len() implies item_linked(
                                #[trigger] fr.rev_entries@[k],
                                h,
                            ) by {
                                assert(fr.rev_entries@[k] == results_v[results_v.len() - 1 - k]);
                                assert(item_linked(results_v[results_v.len() - 1 - k], h));
                            }
                        }
                    }
                    self.frames.push(fr);
                    self.pending_descend = false;
                    proof {
                        if old(self).p1_inv() && self.orderly@ {
                            assert forall|f: int| 0 <= f < self.frames@.len() implies items_linked(
                                (#[trigger] self.frames@[f]).rev_entries@,
                                h,
                            ) by {
                                if f < self.frames@.len() - 1 {
                                    assert(self.frames@[f] == old(self).frames@[f]);
                                } else {
                                    assert(self.frames@[f] == fr);
                                }
                            }
                        }
                        assert(fr.rev_entries@ =~= rev_seq(results_v));
                        assert(frames_view(self.frames@) =~= frames_view(old(self).frames@).push(
                            rev_seq(results_v),
                        ));
                        target = drain_outcome(frames_view(self.frames@), self.cfg.min_depth);
                        assert(stack_view(self.frames@) =~= stack_view(old(self).frames@).push(
                            (fr.read_dir_state, rev_seq(results_v)),
                        ));
                        target_stack = after_stack(stack_view(self.frames@), self.cfg.min_depth);
                        assert(target_stack == old(self).post_stack());
                    }
                },
                None => {
                    return NextEntry::Waiting;
                },
            }
        } else {
            proof {
                target = drain_outcome(frames_view(self.frames@), self.cfg.min_depth);
                target_stack = after_stack(stack_view(self.frames@), self.cfg.min_depth);
            }
        }
        loop
            invariant
                self.wf(),
                !self.pending_descend,
                !self.finished,
                self.cfg == old(self).cfg,
                self.process == old(self).process,
                self.bus.slots_view().len() == old(self).bus.slots_view().len(),
                self.history@ == old(self).history@,
                self.orderly@ == old(self).orderly@,
                old(self).p1_inv() ==> self.p1_inv(),
                self.pending_request == old(self).pending_request,
                drain_outcome(frames_view(self.frames@), self.cfg.min_depth) == target,
                outcome_to_next(target) == old(self).pull_view(),
                after_stack(stack_view(self.frames@), self.cfg.min_depth) == target_stack,
                target_stack == old(self).post_stack(),
                old(self).post_finished() == (match target {
                    PullView::End => true,
                    PullView::Wait => false,
                    PullView::Yield(item) => match item {
                        Ok(_) => false,
                        Err(e) => e.kind is Busy,
                    },
                }),
                old(self).post_pending() == (match target {
                    PullView::End => false,
                    PullView::Wait => true,
                    PullView::Yield(item) => match item {
                        Ok(e) => e.read_children_path is Some,
                        Err(_) => false,
                    },
                }),
                old(self).issues_request() == (match target {
                    PullView::End => false,
                    PullView::Wait => true,
                    PullView::Yield(item) => match item {
                        Ok(e) => e.read_children_path is Some,
                        Err(_) => false,
                    },
                }),
                self.bus.slots_view() == (if old(self).descends() {
                    old(self).bus.slots_view().update(
                        old(self).bus.head_index() as int,
                        BusSlot::Consumed::<C>,
                    )
                } else {
                    old(self).bus.slots_view()
                }),
                self.bus.head_index() == old(self).bus.head_index() + (if old(
                    self,
                ).descends() {
                    1int
                } else {
                    0int
                }),
            decreases frames_work(self.frames@) + self.frames@.len(),
        {
            let ghost pre = self.frames@;
            let ghost h = self.history@;
            if self.frames.len() == 0 {
                self.finished = true;
                return NextEntry::Finished;
            }
            let mut fr = self.frames.pop().unwrap();
            let ghost fr_items = fr.rev_entries@;
            let popped = fr.rev_entries.pop();
            match popped {
                None => {
                    // this directory is drained; resume its parent
                    proof {
                        assert(frames_work(pre) == frames_work(pre.drop_last())
                            + pre.last().rev_entries@.len());
                        assert(frames_view(pre).last() == fr_items);
                        assert(fr_items.len() == 0);
                        assert(frames_view(self.frames@) =~= frames_view(pre).drop_last());
                        assert(stack_view(pre).last() == (pre.last().read_dir_state, fr_items));
                        assert(stack_view(self.frames@) =~= stack_view(pre).drop_last());
                        if old(self).p1_inv() && self.orderly@ {
                            assert forall|f: int| 0 <= f < self.frames@.len() implies items_linked(
                                (#[trigger] self.frames@[f]).rev_entries@,
                                h,
                            ) by {
                                assert(self.frames@[f] == pre[f]);
                                assert(items_linked(pre[f].rev_entries@, h));
                            }
                        }
                    }
                },
                Some(item) => {
                    proof {
                        assert(frames_view(pre).last() == fr_items);
                        assert(fr_items.len() > 0);
                        assert(fr_items.last() == item);
                        assert(stack_view(pre).last() == (pre.last().read_dir_state, fr_items));
                        if old(self).p1_inv() && self.orderly@ {
                            assert(items_linked(fr_items, h)) by {
                                assert(pre[pre.len() - 1].rev_entries@ == fr_items);
                                assert(items_linked(pre[pre.len() - 1].rev_entries@, h));
                            }
                            assert(item == fr_items[fr_items.len() - 1]);
                            assert(item_linked(item, h));
                            assert forall|k: int| 0 <= k < fr.rev_entries@.len() implies item_linked(
                                #[trigger] fr.rev_entries@[k],
                                h,
                            ) by {
                                assert(fr.rev_entries@[k] == fr_items[k]);
                                assert(item_linked(fr_items[k], h));
                            }
                        }
                    }
                    match item {
                        Err(e) => {
                            proof {
                                lemma_frames_work_push(self.frames@, fr);
                            }
                            self.frames.push(fr);
                            proof {
                                assert(stack_view(self.frames@) =~= stack_view(pre).update(
                                    stack_view(pre).len() - 1,
                                    (pre.last().read_dir_state, fr_items.drop_last()),
                                ));
                                if old(self).p1_inv() && self.orderly@ {
                                    assert forall|f: int|
                                        0 <= f < self.frames@.len() implies items_linked(
                                        (#[trigger] self.frames@[f]).rev_entries@,
                                        h,
                                    ) by {
                                        if f < self.frames@.len() - 1 {
                                            assert(self.frames@[f] == pre[f]);
                                            assert(items_linked(pre[f].rev_entries@, h));
                                        } else {
                                            assert(self.frames@[f] == fr);
                                        }
                                    }
                                    let x = crate::entry::ItemView::Failure::<C>(e@);
                                    lemma_parent_linked_push(h, x);
                                    lemma_frames_linked_mono(self.frames@, h, x);
                                }
                            }
                            self.history = Ghost(
                                self.history@.push(crate::entry::ItemView::Failure(e@)),
                            );
                            proof {
                                assert(target == PullView::Yield(item));
                            }
                            if e.is_busy() {
                                self.finished = true;
                            }
                            return NextEntry::Yielded(Err(e));
                        },
                        Ok(entry) => {
                            let ghost ev = entry@;
                            let request_opt: Option<ReadDirSpec<C>> = match &entry
                                .read_children_path {
                                Some(p) => Some(
                                    ReadDirSpec {
                                        path: clone_bytes(p),
                                        depth: entry.depth,
                                        client_read_state: C::clone_read_dir_state(
                                            &fr.read_dir_state,
                                        ),
                                        follow_link_ancestors: clone_paths(
                                            &entry.follow_link_ancestors,
                                        ),
                                    },
                                ),
                                None => None,
                            };
                            proof {
                                lemma_frames_work_push(self.frames@, fr);
                            }
                            self.frames.push(fr);
                            proof {
                                assert(stack_view(self.frames@) =~= stack_view(pre).update(
                                    stack_view(pre).len() - 1,
                                    (pre.last().read_dir_state, fr_items.drop_last()),
                                ));
                                if old(self).p1_inv() && self.orderly@ {
                                    assert forall|f: int|
                                        0 <= f < self.frames@.len() implies items_linked(
                                        (#[trigger] self.frames@[f]).rev_entries@,
                                        h,
                                    ) by {
                                        if f < self.frames@.len() - 1 {
                                            assert(self.frames@[f] == pre[f]);
                                            assert(items_linked(pre[f].rev_entries@, h));
                                        } else {
                                            assert(self.frames@[f] == fr);
                                        }
                                    }
                                }
                            }
                            match request_opt {
                                Some(rq) => {
                                    let ghost rqg = rq;
                                    proof {
                                        assert(rq.follow_link_ancestors@.map_values(
                                            |q: Vec<u8>| q@,
                                        ) =~= entry.follow_link_ancestors@.map_values(
                                            |q: Vec<u8>| q@,
                                        ));
                                    }
                                    let ghost still_orderly: bool = self.orderly@ && rqg.path@
                                        == entry_path(ev);
                                    self.orderly = Ghost(still_orderly);
                                    self.bus.push_spec(rq);
                                    self.pending_descend = true;
                                    if entry.depth >= self.cfg.min_depth {
                                        proof {
                                            if old(self).p1_inv() && self.orderly@ {
                                                let x = crate::entry::ItemView::Entry(ev);
                                                lemma_parent_linked_push(h, x);
                                                lemma_frames_linked_mono(self.frames@, h, x);
                                                let h2 = h.push(x);
                                                assert(h2[h.len() as int] == x);
                                                assert(is_dir_of(x, rqg.depth as nat, rqg.path@));
                                                assert(req_linked(rqg, h2));
                                            }
                                        }
                                        self.history = Ghost(
                                            self.history@.push(crate::entry::ItemView::Entry(ev)),
                                        );
                                        proof {
                                            assert(target == PullView::Yield(item));
                                        }
                                        return NextEntry::Yielded(Ok(entry));
                                    }
                                    // too shallow to yield, but its batch
                                    // must still be entered first
                                    proof {
                                        if old(self).p1_inv() {
                                            assert(!self.orderly@);
                                        }
                                        assert(target == PullView::Wait::<C>);
                                    }
                                    return NextEntry::Waiting;
                                },
                                None => {
                                    if entry.depth >= self.cfg.min_depth {
                                        proof {
                                            if old(self).p1_inv() && self.orderly@ {
                                                let x = crate::entry::ItemView::Entry(ev);
                                                lemma_parent_linked_push(h, x);
                                                lemma_frames_linked_mono(self.frames@, h, x);
                                            }
                                        }
                                        self.history = Ghost(
                                            self.history@.push(crate::entry::ItemView::Entry(ev)),
                                        );
                                        proof {
                                            assert(target == PullView::Yield(item));
                                        }
                                        return NextEntry::Yielded(Ok(entry));
                                    }
                                    // dropped: keep draining
                                    proof {
                                        assert(frames_view(self.frames@) =~= frames_view(
                                            pre,
                                        ).update(frames_view(pre).len() - 1, fr_items.drop_last()));
                                        assert(drain_outcome(
                                            frames_view(self.frames@),
                                            self.cfg.min_depth,
                                        ) == target);
                                    }
                                },
                            }
                        },
                    }
                },
            }
        }
    }

    /// Hands out the issued request waiting at the head of the bus, marking
    /// it in flight, so the surrounding program can materialize it.
    pub fn take_next_work(&mut self) -> (r: Option<(usize, ReadDirSpec<C>)>)
        requires
            old(self).wf(),
        ensures
            final (self).wf(),
            final (self).cfg == old(self).cfg,
            final (self).process == old(self).process,
            (r is Some) <==> (old(self).bus.head_index() < old(self).bus.slots_view().len()
                && old(self).bus.slots_view()[old(self).bus.head_index() as int] is Pending),
            match r {
                Some(work) => {
                    &&& work.0 == old(self).bus.head_index()
                    &&& (work.0 as int) < old(self).bus.slots_view().len()
                    &&& old(self).bus.slots_view()[work.0 as int] == BusSlot::Pending(work.1)
                    &&& final (self).bus.slots_view() == old(self).bus.slots_view().update(
                        work.0 as int,
                        BusSlot::InFlight::<C>,
                    )
                },
                None => final (self).bus.slots_view() == old(self).bus.slots_view(),
            },
            final (self).history@ == old(self).history@,
            final (self).orderly@ == old(self).orderly@,
            old(self).p1_inv() ==> final (self).p1_inv(),
            final (self).finished == old(self).finished,
            final (self).pending_descend == old(self).pending_descend,
            final (self).frames == old(self).frames,
            final (self).bus.head_index() == old(self).bus.head_index(),
            match r {
                Some(work) => final (self).pending_request@ == Some(work.1),
                None => final (self).pending_request == old(self).pending_request,
            },
    {
        if self.bus.head < self.bus.slots.len() {
            let token = self.bus.head;
            let is_pending = matches!(&self.bus.slots[token], BusSlot::Pending(_));
            if is_pending {
                let request = self.bus.take_spec(token);
                self.pending_request = Ghost(Some(request));
                return Some((token, request));
            }
        }
        None
    }

    /// Materializes one request with this walk's configuration and hook:
    /// [`crate::worker::assemble_read_dir_batch`] pins the assembled batch
    /// exactly, and the configured hook then receives it once, below the
    /// depth cutoff only. Without a hook the result is the assembled
    /// batch itself, pinned by [`crate::worker::assemble_view`].
    pub fn run_read_dir(&self, request: ReadDirSpec<C>, raws: Vec<RawDirEntry>) -> (batch:
        ReadDirBatch<C>)
        ensures
            request.depth >= self.cfg.max_depth ==> batch.results@.len() == 0
                && batch.read_dir_state == request.client_read_state,
            self.process is None ==> crate::entry::batch_view(batch.results@)
                == crate::worker::assemble_view::<C>(
                self.cfg,
                request.path@,
                request.depth as nat,
                request.follow_link_ancestors@.map_values(|q: Vec<u8>| q@),
                crate::entry::raws_view(raws@),
            ) && batch.read_dir_state == request.client_read_state,
    {
        process_read_dir_batch(&self.cfg, &self.process, request, raws)
    }

    /// Hands a finished batch back to its slot.
    pub fn complete_read_dir(&mut self, token: usize, batch: ReadDirBatch<C>)
        requires
            old(self).wf(),
            (token as int) < old(self).bus.slots_view().len(),
            old(self).bus.slots_view()[token as int] is InFlight,
        ensures
            final (self).wf(),
            final (self).cfg == old(self).cfg,
            final (self).process == old(self).process,
            final (self).bus.slots_view() == old(self).bus.slots_view().update(
                token as int,
                BusSlot::Ready(batch),
            ),
            final (self).history@ == old(self).history@,
            final (self).orderly@ ==> old(self).orderly@,
            old(self).p1_inv() ==> final (self).p1_inv(),
            final (self).finished == old(self).finished,
            final (self).pending_descend == old(self).pending_descend,
            final (self).frames == old(self).frames,
            final (self).bus.head_index() == old(self).bus.head_index(),
            (old(self).orderly@ && old(self).pending_descend && token == old(
                self,
            ).bus.head_index() && match old(self).pending_request@ {
                Some(rq) => batch_conforms(batch.results@, rq),
                None => false,
            }) ==> final (self).orderly@,
    {
        let ghost h = self.history@;
        let ghost rq_opt = self.pending_request@;
        let ghost results_v = batch.results@;
        let ghost conforming: bool = match rq_opt {
            Some(rq) => batch_conforms(results_v, rq),
            None => false,
        };
        let ghost still_orderly: bool = self.orderly@ && self.pending_descend && token
            == self.bus.head && conforming;
        self.orderly = Ghost(still_orderly);
        self.bus.complete(token, batch);
        proof {
            if old(self).p1_inv() && self.orderly@ {
                match rq_opt {
                    Some(rq) => {
                        assert(req_linked(rq, h));
                        let j = choose|j: int|
                            0 <= j < h.len() && is_dir_of(#[trigger] h[j], rq.depth as nat, rq.path@);
                        assert forall|k: int| 0 <= k < results_v.len() implies item_linked(
                            #[trigger] results_v[k],
                            h,
                        ) by {
                            match results_v[k] {
                                Ok(e) => {
                                    assert(e@.depth == rq.depth + 1);
                                    assert(e@.parent_path == rq.path@);
                                    assert(is_dir_of(h[j], (e@.depth - 1) as nat, e@.parent_path));
                                },
                                Err(_) => {},
                            }
                        }
                    },
                    None => {
                        assert(false);
                    },
                }
            }
        }
    }
}

} // verus!

