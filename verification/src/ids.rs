use vstd::prelude::*;
use crate::model::{HasId, keys, max_of, first_index, is_first_index, lemma_first_index, lemma_first_index_absent};

verus! {

/// The highest id among `items`, or 0 when there are none.
pub fn max_id<T: HasId>(items: &[T]) -> (m: u64)
    ensures
        m == max_of(keys(items@)),
{
    let mut m: u64 = 0;
    let mut i: usize = 0;
    while i < items.len()
        invariant
            0 <= i <= items@.len(),
            m == max_of(keys(items@).take(i as int)),
        decreases items@.len() - i,
    {
        let k = items[i].id_of();
        assert(keys(items@).take(i + 1).drop_last() =~= keys(items@).take(i as int));
        if k > m {
            m = k;
        }
        i += 1;
    }
    assert(keys(items@).take(items@.len() as int) =~= keys(items@));
    m
}

/// The id that a new item among `items` gets: one more than the highest id
/// already present, so 1 for an empty level.
pub fn next_id<T: HasId>(items: &[T]) -> (r: u64)
    requires
        max_of(keys(items@)) < u64::MAX,
    ensures
        r == max_of(keys(items@)) + 1,
{
    max_id(items) + 1
}

/// The position of the first item with this id.
pub fn find_id_index<T: HasId>(items: &[T], id: u64) -> (r: Option<usize>)
    ensures
        match r {
            Some(p) => p == first_index(keys(items@), id) && p < items@.len()
                && items@[p as int].key() == id,
            None => first_index(keys(items@), id) == -1,
        },
{
    let ghost ks = keys(items@);
    let mut i: usize = 0;
    while i < items.len()
        invariant
            0 <= i <= items@.len(),
            ks == keys(items@),
            forall|j: int| 0 <= j < i ==> ks[j] != id,
        decreases items@.len() - i,
    {
        if items[i].id_of() == id {
            proof {
                assert(is_first_index(ks, id, i as int));
                lemma_first_index(ks, id, i as int);
            }
            return Some(i);
        }
        i += 1;
    }
    proof {
        lemma_first_index_absent(ks, id);
    }
    None
}

} // verus!
