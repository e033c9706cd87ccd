//! Byte-string paths: joining, splitting at the last separator, equality
//! and membership in an ancestor chain.

use vstd::prelude::*;

verus! {

pub const SEP: u8 = 47;

/// The path of an entry named `name` inside the directory `parent`.
pub open spec fn join_path(parent: Seq<u8>, name: Seq<u8>) -> Seq<u8> {
    if parent.len() == 0 {
        name
    } else if parent.last() == SEP {
        parent + name
    } else {
        parent + seq![SEP] + name
    }
}

/// Joins a directory path and a file name.
pub fn join(parent: &Vec<u8>, name: &Vec<u8>) -> (r: Vec<u8>)
    ensures
        r@ == join_path(parent@, name@),
{
    let mut r = clone_bytes(parent);
    if r.len() > 0 && r[r.len() - 1] != SEP {
        r.push(SEP);
    }
    let mut i: usize = 0;
    while i < name.len()
        invariant
            i <= name@.len(),
            parent@.len() > 0 && parent@.last() != SEP ==> r@ == parent@ + seq![SEP] + name@.take(
                i as int,
            ),
            parent@.len() > 0 && parent@.last() == SEP ==> r@ == parent@ + name@.take(i as int),
            parent@.len() == 0 ==> r@ == name@.take(i as int),
        decreases name@.len() - i,
    {
        r.push(name[i]);
        i = i + 1;
    }
    proof {
        assert(name@.take(name@.len() as int) =~= name@);
        if parent@.len() == 0 {
            assert(r@ =~= join_path(parent@, name@));
        }
    }
    r
}

/// Index just after the last separator of `p`, or 0 when `p` has none.
pub open spec fn after_last_sep(p: Seq<u8>) -> int
    decreases p.len(),
{
    if p.len() == 0 {
        0
    } else if p.last() == SEP {
        p.len() as int
    } else {
        after_last_sep(p.drop_last())
    }
}

/// Splits a path into the prefix up to and including the last separator and
/// the part after it; a path with no separator splits into an empty prefix
/// and itself.
pub fn split_at_last_sep(p: &Vec<u8>) -> (r: (Vec<u8>, Vec<u8>))
    ensures
        r.0@ == p@.take(after_last_sep(p@)),
        r.1@ == p@.skip(after_last_sep(p@)),
{
    let mut cut: usize = p.len();
    proof {
        assert(p@.take(p@.len() as int) =~= p@);
    }
    while cut > 0 && p[cut - 1] != SEP
        invariant
            cut <= p@.len(),
            after_last_sep(p@) == after_last_sep(p@.take(cut as int)),
            forall|j: int| cut <= j < p@.len() ==> p@[j] != SEP,
        decreases cut,
    {
        proof {
            assert(p@.take(cut as int).drop_last() =~= p@.take(cut - 1));
        }
        cut = cut - 1;
    }
    proof {
        if cut > 0 {
            assert(p@.take(cut as int).last() == p@[cut - 1]);
        }
        assert(after_last_sep(p@) == cut);
    }
    let mut head: Vec<u8> = Vec::new();
    let mut i: usize = 0;
    while i < cut
        invariant
            i <= cut <= p@.len(),
            head@ == p@.take(cut as int).take(i as int),
        decreases cut - i,
    {
        proof {
            assert(p@.take(cut as int).take(i + 1) =~= p@.take(cut as int).take(i as int).push(
                p@[i as int],
            ));
        }
        head.push(p[i]);
        i = i + 1;
    }
    let mut tail: Vec<u8> = Vec::new();
    let mut j: usize = cut;
    while j < p.len()
        invariant
            cut <= j <= p@.len(),
            tail@ == p@.skip(cut as int).take(j - cut),
        decreases p@.len() - j,
    {
        proof {
            assert(p@.skip(cut as int).take(j - cut + 1) =~= p@.skip(cut as int).take(
                j - cut,
            ).push(p@[j as int]));
        }
        tail.push(p[j]);
        j = j + 1;
    }
    proof {
        assert(head@ =~= p@.take(cut as int));
        assert(tail@ =~= p@.skip(cut as int));
    }
    (head, tail)
}

/// Copies a byte string.
pub fn clone_bytes(v: &Vec<u8>) -> (r: Vec<u8>)
    ensures
        r@ == v@,
{
    let mut r: Vec<u8> = Vec::new();
    let mut i: usize = 0;
    while i < v.len()
        invariant
            i <= v@.len(),
            r@ == v@.take(i as int),
        decreases v@.len() - i,
    {
        proof {
            assert(v@.take(i + 1) =~= v@.take(i as int).push(v@[i as int]));
        }
        r.push(v[i]);
        i = i + 1;
    }
    proof {
        assert(v@.take(v@.len() as int) =~= v@);
    }
    r
}

/// Copies an ancestor chain.
pub fn clone_paths(v: &Vec<Vec<u8>>) -> (r: Vec<Vec<u8>>)
    ensures
        r@.len() == v@.len(),
        forall|i: int| 0 <= i < v@.len() ==> r@[i]@ == v@[i]@,
{
    let mut r: Vec<Vec<u8>> = Vec::new();
    let mut i: usize = 0;
    while i < v.len()
        invariant
            i <= v@.len(),
            r@.len() == i,
            forall|j: int| 0 <= j < i ==> r@[j]@ == v@[j]@,
        decreases v@.len() - i,
    {
        r.push(clone_bytes(&v[i]));
        i = i + 1;
    }
    r
}

/// Whether two byte strings hold the same bytes.
pub fn bytes_eq(a: &Vec<u8>, b: &Vec<u8>) -> (r: bool)
    ensures
        r == (a@ == b@),
{
    if a.len() != b.len() {
        return false;
    }
    let mut i: usize = 0;
    while i < a.len()
        invariant
            a@.len() == b@.len(),
            i <= a@.len(),
            forall|j: int| 0 <= j < i ==> a@[j] == b@[j],
        decreases a@.len() - i,
    {
        if a[i] != b[i] {
            return false;
        }
        i = i + 1;
    }
    proof {
        assert(a@ =~= b@);
    }
    true
}

/// Whether `p` stands in the chain `chain`, compared by bytes.
pub open spec fn chain_contains(chain: Seq<Seq<u8>>, p: Seq<u8>) -> bool {
    exists|i: int| 0 <= i < chain.len() && chain[i] == p
}

/// Membership of a path in an ancestor chain.
pub fn contains_path(chain: &Vec<Vec<u8>>, p: &Vec<u8>) -> (r: bool)
    ensures
        r == chain_contains(chain@.map_values(|q: Vec<u8>| q@), p@),
{
    let ghost view: Seq<Seq<u8>> = chain@.map_values(|q: Vec<u8>| q@);
    let mut i: usize = 0;
    while i < chain.len()
        invariant
            i <= chain@.len(),
            view == chain@.map_values(|q: Vec<u8>| q@),
            forall|j: int| 0 <= j < i ==> view[j] != p@,
        decreases chain@.len() - i,
    {
        if bytes_eq(&chain[i], p) {
            assert(view[i as int] == p@);
            return true;
        }
        i = i + 1;
    }
    false
}

} // verus!
