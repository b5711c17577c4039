use vstd::prelude::*;

use crate::book::BookView;
use crate::repository::{listing_of, lookup, upserted};

verus! {

/// `m` after storing each of `bs` in turn.
pub open spec fn upsert_all(m: Map<u32, BookView>, bs: Seq<BookView>) -> Map<u32, BookView>
    decreases bs.len(),
{
    if bs.len() == 0 {
        m
    } else {
        upserted(upsert_all(m, bs.drop_last()), bs.last())
    }
}

/// A book that was just stored is what a lookup of its id returns.
pub proof fn law_get_after_upsert(m: Map<u32, BookView>, b: BookView)
    ensures
        lookup(upserted(m, b), b.id) == Some(b),
{
}

/// An id that none of the stored books has is not found, in a store that
/// started empty.
pub proof fn law_never_inserted_not_found(bs: Seq<BookView>, id: u32)
    requires
        forall|i: int| 0 <= i < bs.len() ==> #[trigger] bs[i].id != id,
    ensures
        lookup(upsert_all(Map::empty(), bs), id) == None::<BookView>,
    decreases bs.len(),
{
    if bs.len() > 0 {
        law_never_inserted_not_found(bs.drop_last(), id);
        assert(bs[bs.len() - 1].id != id);
    }
}

/// Storing books with distinct ids one at a time, in whatever order the
/// exclusive lock lets them through, loses none of them.
pub proof fn law_distinct_upserts_all_persist(m: Map<u32, BookView>, bs: Seq<BookView>)
    requires
        forall|i: int, j: int| 0 <= i < j < bs.len() ==> #[trigger] bs[i].id != #[trigger] bs[j].id,
    ensures
        forall|i: int| 0 <= i < bs.len() ==> lookup(upsert_all(m, bs), #[trigger] bs[i].id) == Some(bs[i]),
    decreases bs.len(),
{
    if bs.len() > 0 {
        let init = bs.drop_last();
        law_distinct_upserts_all_persist(m, init);
        assert forall|i: int| 0 <= i < bs.len() implies lookup(upsert_all(m, bs), #[trigger] bs[i].id)
            == Some(bs[i]) by {
            if i < bs.len() - 1 {
                assert(init[i] == bs[i]);
                assert(bs[i].id != bs[bs.len() - 1].id);
            }
        }
    }
}

/// Storing books whose ids are all other than `k` leaves the record under
/// `k` as it was.
proof fn lemma_upsert_all_elsewhere(m: Map<u32, BookView>, bs: Seq<BookView>, k: u32)
    requires
        forall|i: int| 0 <= i < bs.len() ==> #[trigger] bs[i].id != k,
    ensures
        lookup(upsert_all(m, bs), k) == lookup(m, k),
    decreases bs.len(),
{
    if bs.len() > 0 {
        lemma_upsert_all_elsewhere(m, bs.drop_last(), k);
        assert(bs[bs.len() - 1].id != k);
    }
}

/// Storing the same books with distinct ids in two different orders gives
/// the same store, and so the same listing.
pub proof fn law_insertion_order_irrelevant(
    m: Map<u32, BookView>,
    bs1: Seq<BookView>,
    bs2: Seq<BookView>,
)
    requires
        forall|i: int, j: int|
            0 <= i < j < bs1.len() ==> #[trigger] bs1[i].id != #[trigger] bs1[j].id,
        forall|i: int, j: int|
            0 <= i < j < bs2.len() ==> #[trigger] bs2[i].id != #[trigger] bs2[j].id,
        forall|x: BookView| bs1.contains(x) <==> bs2.contains(x),
    ensures
        upsert_all(m, bs1) == upsert_all(m, bs2),
        listing_of(upsert_all(m, bs1)) == listing_of(upsert_all(m, bs2)),
{
    let m1 = upsert_all(m, bs1);
    let m2 = upsert_all(m, bs2);
    law_distinct_upserts_all_persist(m, bs1);
    law_distinct_upserts_all_persist(m, bs2);
    assert forall|k: u32| #[trigger] lookup(m1, k) == lookup(m2, k) by {
        if exists|i: int| 0 <= i < bs1.len() && bs1[i].id == k {
            let i = choose|i: int| 0 <= i < bs1.len() && bs1[i].id == k;
            assert(bs1.contains(bs1[i]));
            let j = choose|j: int| 0 <= j < bs2.len() && bs2[j] == bs1[i];
            assert(lookup(m2, bs2[j].id) == Some(bs2[j]));
        } else if exists|j: int| 0 <= j < bs2.len() && bs2[j].id == k {
            let j = choose|j: int| 0 <= j < bs2.len() && bs2[j].id == k;
            assert(bs2.contains(bs2[j]));
        } else {
            lemma_upsert_all_elsewhere(m, bs1, k);
            lemma_upsert_all_elsewhere(m, bs2, k);
        }
    }
    assert forall|k: u32| m1.contains_key(k) == m2.contains_key(k) by {
        assert(lookup(m1, k) == lookup(m2, k));
    }
    assert forall|k: u32| m1.contains_key(k) implies m1[k] == m2[k] by {
        assert(lookup(m1, k) == lookup(m2, k));
    }
    assert(m1 =~= m2);
}

/// Storing a book under an id already in use replaces the whole earlier
/// record: the store is as if only the later book had been stored.
pub proof fn law_upsert_replaces(m: Map<u32, BookView>, earlier: BookView, later: BookView)
    requires
        earlier.id == later.id,
    ensures
        upserted(upserted(m, earlier), later) == upserted(m, later),
        lookup(upserted(upserted(m, earlier), later), later.id) == Some(later),
{
    assert(upserted(upserted(m, earlier), later) =~= upserted(m, later));
}

} // verus!
