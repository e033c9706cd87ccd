//! Sorting a batch by file name: `Ok` entries in lexicographic byte order,
//! every `Ok` before every `Err`, and ties among `Err` items kept in their
//! incoming order. The sort is pinned down exactly: the result equals a
//! stable insertion of each item in turn.

use vstd::prelude::*;
use crate::ClientState;
use crate::entry::{DirEntry, Error, ItemView, batch_view, item_view};

verus! {

/// Lexicographic order on byte strings.
pub open spec fn lex_le(a: Seq<u8>, b: Seq<u8>) -> bool
    decreases a.len(),
{
    if a.len() == 0 {
        true
    } else if b.len() == 0 {
        false
    } else if a[0] < b[0] {
        true
    } else if a[0] > b[0] {
        false
    } else {
        lex_le(a.drop_first(), b.drop_first())
    }
}

/// The batch order: entries by name, entries before failures, failures tied
/// with one another.
pub open spec fn item_le<C: ClientState>(a: ItemView<C>, b: ItemView<C>) -> bool {
    match (a, b) {
        (ItemView::Entry(x), ItemView::Entry(y)) => lex_le(x.file_name, y.file_name),
        (ItemView::Entry(x), ItemView::Failure(y)) => true,
        (ItemView::Failure(x), ItemView::Entry(y)) => false,
        (ItemView::Failure(x), ItemView::Failure(y)) => true,
    }
}

/// Where a stable insertion puts `x`: after every item that is `<= x`, and
/// before the suffix of items that are not.
pub open spec fn insort<C: ClientState>(s: Seq<ItemView<C>>, x: ItemView<C>) -> Seq<ItemView<C>>
    decreases s.len(),
{
    if s.len() == 0 {
        seq![x]
    } else if item_le(s.last(), x) {
        s.push(x)
    } else {
        insort(s.drop_last(), x).push(s.last())
    }
}

/// The stable sort of a batch: each item inserted in turn.
pub open spec fn sort_items<C: ClientState>(s: Seq<ItemView<C>>) -> Seq<ItemView<C>>
    decreases s.len(),
{
    if s.len() == 0 {
        Seq::empty()
    } else {
        insort(sort_items(s.drop_last()), s.last())
    }
}

/// Lexicographic comparison of two byte strings.
pub fn lex_le_bytes(a: &Vec<u8>, b: &Vec<u8>) -> (r: bool)
    ensures
        r == lex_le(a@, b@),
{
    let mut i: usize = 0;
    proof {
        assert(a@.skip(0) =~= a@);
        assert(b@.skip(0) =~= b@);
    }
    while i < a.len() && i < b.len()
        invariant
            i <= a@.len(),
            i <= b@.len(),
            lex_le(a@, b@) == lex_le(a@.skip(i as int), b@.skip(i as int)),
        decreases a@.len() - i,
    {
        let x = a[i];
        let y = b[i];
        proof {
            let sa = a@.skip(i as int);
            let sb = b@.skip(i as int);
            assert(sa[0] == a@[i as int] && sb[0] == b@[i as int]);
            assert(sa.drop_first() =~= a@.skip(i + 1));
            assert(sb.drop_first() =~= b@.skip(i + 1));
        }
        if x < y {
            return true;
        }
        if x > y {
            return false;
        }
        i = i + 1;
    }
    proof {
        if i >= a@.len() {
            assert(a@.skip(i as int).len() == 0);
        } else {
            assert(b@.skip(i as int).len() == 0);
            assert(a@.skip(i as int).len() > 0);
        }
    }
    i >= a.len()
}

/// The batch order on two items.
pub fn entry_le<C: ClientState>(
    a: &Result<DirEntry<C>, Error>,
    b: &Result<DirEntry<C>, Error>,
) -> (r: bool)
    ensures
        r == item_le(item_view(*a), item_view(*b)),
{
    match (a, b) {
        (Ok(x), Ok(y)) => lex_le_bytes(&x.file_name, &y.file_name),
        (Ok(_), Err(_)) => true,
        (Err(_), Ok(_)) => false,
        (Err(_), Err(_)) => true,
    }
}

/// A stable insertion lands exactly at the scanned position: `j` is the
/// first index from the right whose left neighbour is `<= x`.
proof fn lemma_insort_at<C: ClientState>(s: Seq<ItemView<C>>, x: ItemView<C>, j: int)
    requires
        0 <= j <= s.len(),
        forall|k: int| j <= k < s.len() ==> !item_le(s[k], x),
        j > 0 ==> item_le(s[j - 1], x),
    ensures
        insort(s, x) == s.take(j) + seq![x] + s.skip(j),
    decreases s.len(),
{
    if j == s.len() {
        if s.len() == 0 {
            assert(insort(s, x) =~= s.take(j) + seq![x] + s.skip(j));
        } else {
            assert(item_le(s.last(), x));
            assert(s.take(j) =~= s);
            assert(insort(s, x) =~= s.take(j) + seq![x] + s.skip(j));
        }
    } else {
        assert(!item_le(s[s.len() - 1], x));
        let t = s.drop_last();
        lemma_insort_at(t, x, j);
        assert(t.take(j) =~= s.take(j));
        assert((s.take(j) + seq![x] + t.skip(j)).push(s.last()) =~= s.take(j) + seq![x] + s.skip(
            j,
        ));
    }
}

/// Sorts a batch in place. The result is pinned exactly: it equals the
/// stable insertion sort of the incoming items under [`item_le`].
pub fn sort_batch<C: ClientState>(v: &mut Vec<Result<DirEntry<C>, Error>>)
    ensures
        batch_view(final (v)@) == sort_items(batch_view(old(v)@)),
{
    let ghost orig: Seq<ItemView<C>> = batch_view(v@);
    let mut i: usize = 0;
    proof {
        assert(batch_view(v@).take(0) =~= sort_items(orig.take(0)));
        assert(batch_view(v@).skip(0) =~= orig.skip(0));
    }
    while i < v.len()
        invariant
            0 <= i <= v@.len(),
            v@.len() == orig.len(),
            batch_view(v@).take(i as int) == sort_items(orig.take(i as int)),
            batch_view(v@).skip(i as int) == orig.skip(i as int),
        decreases v@.len() - i,
    {
        let ghost b: Seq<ItemView<C>> = batch_view(v@);
        let ghost xv: ItemView<C> = b[i as int];
        proof {
            assert forall|k: int| i <= k < orig.len() implies b[k] == orig[k] by {
                assert(b.skip(i as int)[k - i] == b[k]);
                assert(orig.skip(i as int)[k - i] == orig[k]);
            }
        }
        let mut j: usize = i;
        while j > 0 && !entry_le(&v[j - 1], &v[i])
            invariant
                0 <= j <= i < v@.len(),
                b == batch_view(v@),
                xv == b[i as int],
                forall|k: int| j <= k < i ==> !item_le(b[k], xv),
            decreases j,
        {
            j = j - 1;
        }
        let x = v.remove(i);
        v.insert(j, x);
        proof {
            let s = b.take(i as int);
            lemma_insort_at(s, xv, j as int);
            let b2 = batch_view(v@);
            assert(b2 =~= b.remove(i as int).insert(j as int, xv));
            assert(b2.take(i + 1) =~= s.take(j as int) + seq![xv] + s.skip(j as int));
            assert(s.take(j as int) =~= b.take(j as int));
            assert(sort_items(orig.take(i + 1)) == insort(sort_items(orig.take(i as int)), orig[i as int]))
                by {
                assert(orig.take(i + 1).drop_last() =~= orig.take(i as int));
                assert(orig.take(i + 1).last() == orig[i as int]);
            }
            assert(b2.take(i + 1) == sort_items(orig.take(i + 1)));
            assert forall|k: int| i + 1 <= k < orig.len() implies b2[k] == orig[k] by {
                assert(b2[k] == b.remove(i as int)[k - 1]);
                assert(b.remove(i as int)[k - 1] == b[k]);
            }
            assert(b2.skip(i + 1) =~= orig.skip(i + 1));
        }
        i = i + 1;
    }
    proof {
        assert(orig.take(orig.len() as int) =~= orig);
        assert(batch_view(v@).take(v@.len() as int) =~= batch_view(v@));
    }
}

} // verus!
