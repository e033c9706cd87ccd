//! The walk's stated guarantees, proved over the spec functions that the
//! executable contracts are written in.

use vstd::prelude::*;
use crate::ClientState;
use crate::bus::BusSlot;
use crate::entry::{ItemView, RawView, ReadDirBatch};
use crate::is_hidden_name;
use crate::path::chain_contains;
use crate::sort::{insort, item_le, lex_le, sort_items};
use crate::worker::{WalkConfig, assemble_view, build_items, extended_ancestors, raw_item};

verus! {

proof fn lemma_lex_le_total(a: Seq<u8>, b: Seq<u8>)
    ensures
        lex_le(a, b) || lex_le(b, a),
    decreases a.len(),
{
    if a.len() == 0 || b.len() == 0 {
    } else if a[0] == b[0] {
        lemma_lex_le_total(a.drop_first(), b.drop_first());
    }
}

proof fn lemma_lex_le_trans(a: Seq<u8>, b: Seq<u8>, c: Seq<u8>)
    requires
        lex_le(a, b),
        lex_le(b, c),
    ensures
        lex_le(a, c),
    decreases a.len(),
{
    if a.len() == 0 {
    } else {
        if b.len() == 0 {
        } else if c.len() == 0 {
        } else if a[0] == b[0] && b[0] == c[0] {
            lemma_lex_le_trans(a.drop_first(), b.drop_first(), c.drop_first());
        }
    }
}

/// The batch order can always compare two items one way or the other.
pub proof fn lemma_item_le_total<C: ClientState>(a: ItemView<C>, b: ItemView<C>)
    ensures
        item_le(a, b) || item_le(b, a),
{
    match (a, b) {
        (ItemView::Entry(x), ItemView::Entry(y)) => {
            lemma_lex_le_total(x.file_name, y.file_name);
        },
        _ => {},
    }
}

/// The batch order chains.
pub proof fn lemma_item_le_trans<C: ClientState>(a: ItemView<C>, b: ItemView<C>, c: ItemView<C>)
    requires
        item_le(a, b),
        item_le(b, c),
    ensures
        item_le(a, c),
{
    match (a, b, c) {
        (ItemView::Entry(x), ItemView::Entry(y), ItemView::Entry(z)) => {
            lemma_lex_le_trans(x.file_name, y.file_name, z.file_name);
        },
        _ => {},
    }
}

proof fn lemma_insort_sorted<C: ClientState>(s: Seq<ItemView<C>>, x: ItemView<C>)
    requires
        forall|p: int, q: int| 0 <= p < q < s.len() ==> item_le(#[trigger] s[p], #[trigger] s[q]),
    ensures
        forall|p: int, q: int|
            0 <= p < q < insort(s, x).len() ==> item_le(
                #[trigger] insort(s, x)[p],
                #[trigger] insort(s, x)[q],
            ),
        insort(s, x).len() == s.len() + 1,
        insort(s, x).to_multiset() == s.to_multiset().insert(x),
    decreases s.len(),
{
    broadcast use vstd::seq_lib::group_seq_properties;

    if s.len() == 0 {
        assert(insort(s, x) =~= seq![x]);
        assert(seq![x].drop_first() =~= Seq::<ItemView<C>>::empty());
        assert(insort(s, x).to_multiset() =~= s.to_multiset().insert(x));
    } else if item_le(s.last(), x) {
        let r = s.push(x);
        assert forall|p: int, q: int| 0 <= p < q < r.len() implies item_le(
            #[trigger] r[p],
            #[trigger] r[q],
        ) by {
            if q == r.len() - 1 {
                if p == s.len() - 1 {
                } else {
                    lemma_item_le_trans::<C>(s[p], s[s.len() - 1], x);
                }
            }
        }
    } else {
        let t = s.drop_last();
        let y = s.last();
        assert(forall|p: int, q: int|
            0 <= p < q < t.len() ==> item_le(#[trigger] t[p], #[trigger] t[q]));
        lemma_insort_sorted(t, x);
        let u = insort(t, x);
        let r = u.push(y);
        assert(insort(s, x) == r);
        lemma_item_le_total::<C>(y, x);
        assert(item_le(x, y));
        assert forall|k: int| 0 <= k < u.len() implies item_le(#[trigger] u[k], y) by {
            assert(u.to_multiset() == t.to_multiset().insert(x));
            assert(u.to_multiset().count(u[k]) > 0);
            if u[k] == x {
            } else {
                assert(t.to_multiset().count(u[k]) > 0);
                assert(t.contains(u[k]));
                let m = choose|m: int| 0 <= m < t.len() && t[m] == u[k];
                assert(item_le(t[m], y) || item_le(y, t[m])) by {
                    lemma_item_le_total::<C>(t[m], y);
                }
                if m < t.len() - 1 {
                    assert(item_le(t[m], s[s.len() - 2]));
                    lemma_item_le_trans::<C>(t[m], s[s.len() - 2], y);
                } else if m == t.len() - 1 {
                    assert(t[m] == s[s.len() - 2]);
                    assert(item_le(s[s.len() - 2], s[s.len() - 1]));
                } else {
                }
            }
        }
        assert forall|p: int, q: int| 0 <= p < q < r.len() implies item_le(
            #[trigger] r[p],
            #[trigger] r[q],
        ) by {
            if q == r.len() - 1 {
                assert(r[p] == u[p]);
            }
        }
        assert(r.to_multiset() == u.to_multiset().insert(y));
        assert(s.to_multiset() == t.to_multiset().insert(y)) by {
            assert(t.push(y) =~= s);
        }
        assert(r.to_multiset() =~= s.to_multiset().insert(x));
    }
}

/// A sorted batch is sorted: any earlier item compares at or below any
/// later one — entries in lexicographic name order, entries before
/// failures.
pub proof fn lemma_sort_items_sorted<C: ClientState>(s: Seq<ItemView<C>>)
    ensures
        sort_items(s).len() == s.len(),
        forall|p: int, q: int|
            0 <= p < q < sort_items(s).len() ==> item_le(
                #[trigger] sort_items(s)[p],
                #[trigger] sort_items(s)[q],
            ),
    decreases s.len(),
{
    if s.len() == 0 {
    } else {
        lemma_sort_items_sorted(s.drop_last());
        lemma_insort_sorted(sort_items(s.drop_last()), s.last());
    }
}

/// A sorted batch holds exactly the incoming items: sorting is a
/// permutation, nothing added, nothing lost.
pub proof fn lemma_sort_items_permutes<C: ClientState>(s: Seq<ItemView<C>>)
    ensures
        sort_items(s).to_multiset() == s.to_multiset(),
    decreases s.len(),
{
    broadcast use vstd::seq_lib::group_seq_properties;

    if s.len() == 0 {
        assert(sort_items(s) =~= Seq::<ItemView<C>>::empty());
    } else {
        let t = s.drop_last();
        lemma_sort_items_permutes(t);
        lemma_sort_items_sorted(t);
        lemma_insort_sorted(sort_items(t), s.last());
        assert(t.push(s.last()) =~= s);
        assert(s.to_multiset() == t.to_multiset().insert(s.last()));
    }
}

/// Every entry a request builds sits directly below the request: its
/// parent path is the request's path, its depth one below the request's,
/// its ancestor chain the request's extended chain; and under
/// `skip_hidden` its name is not hidden.
pub proof fn lemma_build_items_shape<C: ClientState>(
    skip_hidden: bool,
    follow_links: bool,
    parent: Seq<u8>,
    child_depth: nat,
    ancestors: Seq<Seq<u8>>,
    raws: Seq<RawView>,
)
    ensures
        forall|i: int|
            0 <= i < build_items::<C>(
                skip_hidden,
                follow_links,
                parent,
                child_depth,
                ancestors,
                raws,
            ).len() ==> match #[trigger] build_items::<C>(
                skip_hidden,
                follow_links,
                parent,
                child_depth,
                ancestors,
                raws,
            )[i] {
                ItemView::Entry(e) => {
                    &&& e.parent_path == parent
                    &&& e.depth == child_depth
                    &&& e.follow_link_ancestors == extended_ancestors(
                        follow_links,
                        ancestors,
                        parent,
                    )
                    &&& (skip_hidden ==> !is_hidden_name(e.file_name))
                    &&& match e.read_children_path {
                        Some(p) => p == crate::path::join_path(e.parent_path, e.file_name),
                        None => true,
                    }
                },
                ItemView::Failure(f) => f.depth == child_depth,
            },
    decreases raws.len(),
{
    if raws.len() == 0 {
    } else {
        lemma_build_items_shape::<C>(
            skip_hidden,
            follow_links,
            parent,
            child_depth,
            ancestors,
            raws.drop_first(),
        );
    }
}

/// The items of a sorted sequence come from the unsorted one.
proof fn lemma_sorted_member<C: ClientState>(s: Seq<ItemView<C>>, i: int)
    requires
        0 <= i < sort_items(s).len(),
    ensures
        exists|j: int| 0 <= j < s.len() && s[j] == sort_items(s)[i],
{
    broadcast use vstd::seq_lib::group_seq_properties;

    lemma_sort_items_permutes(s);
    let x = sort_items(s)[i];
    assert(sort_items(s).contains(x));
    assert(sort_items(s).to_multiset().count(x) > 0);
    assert(s.to_multiset().count(x) > 0);
    assert(s.contains(x));
}

/// What a worker returns respects both depth bounds and sits directly
/// below its request: a request at or past `max_depth` yields nothing at
/// all, and every built entry has the request's path as its parent and
/// lies exactly one below the request, so no entry deeper than
/// `max_depth` ever exists and every entry's parent is the directory
/// whose yield issued the request. The stream enforces the lower bound
/// at yield.
pub proof fn lemma_depth_bounds<C: ClientState>(
    cfg: WalkConfig,
    path: Seq<u8>,
    depth: nat,
    ancestors: Seq<Seq<u8>>,
    raws: Seq<RawView>,
)
    ensures
        depth >= cfg.max_depth ==> assemble_view::<C>(cfg, path, depth, ancestors, raws).len()
            == 0,
        forall|i: int|
            0 <= i < assemble_view::<C>(cfg, path, depth, ancestors, raws).len()
                ==> match #[trigger] assemble_view::<C>(cfg, path, depth, ancestors, raws)[i] {
                ItemView::Entry(e) => e.depth == depth + 1 && e.depth <= cfg.max_depth
                    && e.parent_path == path && match e.read_children_path {
                    Some(p) => p == crate::path::join_path(e.parent_path, e.file_name),
                    None => true,
                },
                ItemView::Failure(f) => f.depth == depth + 1,
            },
{
    if depth >= cfg.max_depth {
    } else {
        let built = build_items::<C>(
            cfg.skip_hidden,
            cfg.follow_links,
            path,
            (depth + 1) as nat,
            ancestors,
            raws,
        );
        lemma_build_items_shape::<C>(
            cfg.skip_hidden,
            cfg.follow_links,
            path,
            (depth + 1) as nat,
            ancestors,
            raws,
        );
        if cfg.sort {
            lemma_sort_items_sorted(built);
            assert forall|i: int| 0 <= i < sort_items(built).len() implies match #[trigger] sort_items(
                built,
            )[i] {
                ItemView::Entry(e) => e.depth == depth + 1 && e.depth <= cfg.max_depth
                    && e.parent_path == path && match e.read_children_path {
                    Some(p) => p == crate::path::join_path(e.parent_path, e.file_name),
                    None => true,
                },
                ItemView::Failure(f) => f.depth == depth + 1,
            } by {
                lemma_sorted_member(built, i);
            }
        }
    }
}

/// With `skip_hidden` set, no batch a worker builds holds an entry whose
/// name is hidden.
pub proof fn lemma_no_hidden_entries<C: ClientState>(
    cfg: WalkConfig,
    path: Seq<u8>,
    depth: nat,
    ancestors: Seq<Seq<u8>>,
    raws: Seq<RawView>,
)
    requires
        cfg.skip_hidden,
    ensures
        forall|i: int|
            0 <= i < assemble_view::<C>(cfg, path, depth, ancestors, raws).len()
                ==> match #[trigger] assemble_view::<C>(cfg, path, depth, ancestors, raws)[i] {
                ItemView::Entry(e) => !is_hidden_name(e.file_name),
                ItemView::Failure(_) => true,
            },
{
    if depth >= cfg.max_depth {
    } else {
        let built = build_items::<C>(
            cfg.skip_hidden,
            cfg.follow_links,
            path,
            (depth + 1) as nat,
            ancestors,
            raws,
        );
        lemma_build_items_shape::<C>(
            cfg.skip_hidden,
            cfg.follow_links,
            path,
            (depth + 1) as nat,
            ancestors,
            raws,
        );
        if cfg.sort {
            assert forall|i: int| 0 <= i < sort_items(built).len() implies match #[trigger] sort_items(
                built,
            )[i] {
                ItemView::Entry(e) => !is_hidden_name(e.file_name),
                ItemView::Failure(_) => true,
            } by {
                lemma_sorted_member(built, i);
            }
        }
    }
}

/// A followed symlink whose real target already stands in the ancestor
/// chain becomes exactly one loop failure, never an entry — so no request
/// is ever issued below it and a cycle cannot recurse.
pub proof fn lemma_symlink_loop_detected<C: ClientState>(
    skip_hidden: bool,
    parent: Seq<u8>,
    child_depth: nat,
    ancestors: Seq<Seq<u8>>,
    file_name: Seq<u8>,
    target_type: crate::entry::FileType,
    real_path: Seq<u8>,
)
    requires
        chain_contains(ancestors, real_path),
        !(skip_hidden && is_hidden_name(file_name)),
    ensures
        raw_item::<C>(
            skip_hidden,
            true,
            parent,
            child_depth,
            ancestors,
            RawView::Entry {
                file_name,
                file_type: crate::entry::FileType::Symlink,
                link: Some(crate::entry::LinkView::Target { file_type: target_type, real_path }),
            },
        ) == Some(
            ItemView::Failure::<C>(
                crate::entry::ErrorView {
                    depth: child_depth,
                    kind: crate::entry::ErrorKindView::SymlinkLoop(real_path),
                },
            ),
        ),
{
}

/// A batch assembled for a request sits directly below it: every entry
/// one level under the request with the request's path as its parent. So
/// completing a request with the batch a worker assembled for it meets
/// the stream's order discipline, and a walk whose completions all come
/// from the worker stays orderly.
pub proof fn lemma_assembled_batch_conforms<C: ClientState>(
    results: Seq<Result<crate::entry::DirEntry<C>, crate::entry::Error>>,
    cfg: WalkConfig,
    rq: crate::entry::ReadDirSpec<C>,
    ancestors: Seq<Seq<u8>>,
    raws: Seq<RawView>,
)
    requires
        crate::entry::batch_view(results) == assemble_view::<C>(
            cfg,
            rq.path@,
            rq.depth as nat,
            ancestors,
            raws,
        ),
    ensures
        crate::stream::batch_conforms(results, rq),
{
    lemma_depth_bounds::<C>(cfg, rq.path@, rq.depth as nat, ancestors, raws);
    assert forall|k: int| 0 <= k < results.len() implies match #[trigger] results[k] {
        Ok(e) => e@.depth == rq.depth + 1 && e.parent_path@ == rq.path@,
        Err(_) => true,
    } by {
        assert(crate::entry::batch_view(results)[k] == crate::entry::item_view(results[k]));
        match results[k] {
            Ok(e) => {
                assert(crate::entry::item_view(results[k]) == crate::entry::ItemView::Entry(e@));
            },
            Err(_) => {},
        }
    }
}

/// Completions commute: two workers finishing in either order leave the
/// bus in the same state, so what the consumer sees is independent of
/// worker scheduling.
pub proof fn lemma_completion_order_immaterial<C: ClientState>(
    slots: Seq<BusSlot<C>>,
    i: int,
    j: int,
    bi: ReadDirBatch<C>,
    bj: ReadDirBatch<C>,
)
    requires
        0 <= i < slots.len(),
        0 <= j < slots.len(),
        i != j,
    ensures
        slots.update(i, BusSlot::Ready(bi)).update(j, BusSlot::Ready(bj)) == slots.update(
            j,
            BusSlot::Ready(bj),
        ).update(i, BusSlot::Ready(bi)),
{
    assert(slots.update(i, BusSlot::Ready(bi)).update(j, BusSlot::Ready(bj)) =~= slots.update(
        j,
        BusSlot::Ready(bj),
    ).update(i, BusSlot::Ready(bi)));
}

} // verus!
