//! Sorting a list of tiles by tile id.

use crate::tile::Tile;
use vstd::prelude::*;
use vstd::seq_lib::*;

verus! {

/// Whether the ids of `s` never decrease along the sequence.
pub open spec fn sorted_by_id(s: Seq<Tile>) -> bool {
    forall|i: int, j: int| 0 <= i <= j < s.len() ==> s[i].spec_id() <= s[j].spec_id()
}

/// Whether the ids of `s` grow along the sequence: it is sorted and no id
/// occurs twice.
pub open spec fn ascending_by_id(s: Seq<Tile>) -> bool {
    forall|i: int, j: int| 0 <= i < j < s.len() ==> s[i].spec_id() < s[j].spec_id()
}

/// Merges two sorted lists into one.
fn merge(a: &Vec<Tile>, b: &Vec<Tile>) -> (out: Vec<Tile>)
    requires
        sorted_by_id(a@),
        sorted_by_id(b@),
    ensures
        sorted_by_id(out@),
        out@.to_multiset() == a@.to_multiset().add(b@.to_multiset()),
{
    let mut out: Vec<Tile> = Vec::new();
    let mut i: usize = 0;
    let mut j: usize = 0;
    proof {
        broadcast use group_to_multiset_ensures;

        assert(a@.take(0) =~= Seq::<Tile>::empty());
        assert(b@.take(0) =~= Seq::<Tile>::empty());
        assert(out@.to_multiset() =~= a@.take(0).to_multiset().add(b@.take(0).to_multiset()));
    }
    while i < a.len() || j < b.len()
        invariant
            i <= a.len(),
            j <= b.len(),
            sorted_by_id(a@),
            sorted_by_id(b@),
            sorted_by_id(out@),
            out@.to_multiset() == a@.take(i as int).to_multiset().add(
                b@.take(j as int).to_multiset(),
            ),
            forall|k: int|
                0 <= k < out@.len() && i < a.len() ==> #[trigger] out@[k].spec_id() <= a@[i as int].spec_id(),
            forall|k: int|
                0 <= k < out@.len() && j < b.len() ==> #[trigger] out@[k].spec_id() <= b@[j as int].spec_id(),
        decreases a.len() - i + b.len() - j,
    {
        let take_left: bool = if i >= a.len() {
            false
        } else if j >= b.len() {
            true
        } else {
            a[i].to_id() <= b[j].to_id()
        };
        let ghost before = out@;
        if take_left {
            let t: Tile = a[i];
            out.push(t);
            proof {
                broadcast use group_to_multiset_ensures;

                assert(a@.take(i + 1) =~= a@.take(i as int).push(t));
                assert(out@.to_multiset() =~= a@.take(i + 1).to_multiset().add(
                    b@.take(j as int).to_multiset(),
                ));
            }
            i = i + 1;
        } else {
            let t: Tile = b[j];
            out.push(t);
            proof {
                broadcast use group_to_multiset_ensures;

                assert(b@.take(j + 1) =~= b@.take(j as int).push(t));
                assert(out@.to_multiset() =~= a@.take(i as int).to_multiset().add(
                    b@.take(j + 1).to_multiset(),
                ));
            }
            j = j + 1;
        }
    }
    assert(a@.take(i as int) =~= a@);
    assert(b@.take(j as int) =~= b@);
    out
}

/// The elements of `v` from `from` up to `to`.
fn slice_of(v: &Vec<Tile>, from: usize, to: usize) -> (out: Vec<Tile>)
    requires
        from <= to <= v.len(),
    ensures
        out@ == v@.subrange(from as int, to as int),
{
    let mut out: Vec<Tile> = Vec::new();
    let mut k: usize = from;
    while k < to
        invariant
            from <= k <= to <= v.len(),
            out@ == v@.subrange(from as int, k as int),
        decreases to - k,
    {
        out.push(v[k]);
        assert(v@.subrange(from as int, k + 1) =~= v@.subrange(from as int, k as int).push(
            v@[k as int],
        ));
        k = k + 1;
    }
    out
}

/// Sorts tiles by tile id. The result holds the same tiles, each as often as
/// before.
pub fn sort_by_id(v: Vec<Tile>) -> (out: Vec<Tile>)
    ensures
        sorted_by_id(out@),
        out@.to_multiset() == v@.to_multiset(),
    decreases v.len(),
{
    if v.len() <= 1 {
        return v;
    }
    let mid: usize = v.len() / 2;
    let left: Vec<Tile> = slice_of(&v, 0, mid);
    let right: Vec<Tile> = slice_of(&v, mid, v.len());
    proof {
        assert(left@ + right@ =~= v@);
        lemma_multiset_commutative(left@, right@);
    }
    let left: Vec<Tile> = sort_by_id(left);
    let right: Vec<Tile> = sort_by_id(right);
    merge(&left, &right)
}

/// Sorting keeps the tiles: a tile is in the sorted list exactly when it was
/// in the list before, and the length stays.
pub proof fn lemma_same_tiles(a: Seq<Tile>, b: Seq<Tile>)
    requires
        a.to_multiset() == b.to_multiset(),
    ensures
        a.len() == b.len(),
        forall|t: Tile| a.contains(t) <==> b.contains(t),
        a.no_duplicates() <==> b.no_duplicates(),
{
    broadcast use group_to_multiset_ensures;

    to_multiset_len(a);
    to_multiset_len(b);
    assert forall|t: Tile| a.contains(t) <==> b.contains(t) by {
        assert(a.contains(t) <==> a.to_multiset().count(t) > 0);
        assert(b.contains(t) <==> b.to_multiset().count(t) > 0);
    }
    if a.no_duplicates() {
        a.lemma_multiset_has_no_duplicates();
        b.lemma_multiset_has_no_duplicates_conv();
    }
    if b.no_duplicates() {
        b.lemma_multiset_has_no_duplicates();
        a.lemma_multiset_has_no_duplicates_conv();
    }
}

} // verus!
