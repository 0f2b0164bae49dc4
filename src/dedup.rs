use vstd::prelude::*;
use crate::record::{ProductRecord, RecordView, same_product, record_views};

verus! {

/// Some record of `s` describes the same product as `r`.
pub open spec fn holds_product(s: Seq<RecordView>, r: RecordView) -> bool {
    exists|i: int| 0 <= i < s.len() && same_product(s[i], r)
}

/// `acc` extended by the records of `batch`, in order, each one left out when a
/// record of the same product is already there: the first one seen wins.
pub open spec fn merged(acc: Seq<RecordView>, batch: Seq<RecordView>) -> Seq<RecordView>
    decreases batch.len(),
{
    if batch.len() == 0 {
        acc
    } else {
        let before = merged(acc, batch.drop_last());
        if holds_product(before, batch.last()) {
            before
        } else {
            before.push(batch.last())
        }
    }
}

/// The records of `s`, each kept only where no earlier one describes the same product.
pub open spec fn first_of_each(s: Seq<RecordView>) -> Seq<RecordView> {
    merged(Seq::empty(), s)
}

/// No two records of `s` describe the same product.
pub open spec fn distinct_products(s: Seq<RecordView>) -> bool {
    forall|i: int, j: int| 0 <= i < j < s.len() ==> !same_product(s[i], s[j])
}

/// `r` occurs in `s`, and no record before it there describes the same product.
pub open spec fn first_seen_in(s: Seq<RecordView>, r: RecordView) -> bool {
    exists|j: int|
        0 <= j < s.len() && s[j] == r && forall|k: int| 0 <= k < j ==> !same_product(#[trigger] s[k], r)
}

/// Whether a record of `items` describes the same product as `r`.
pub fn contains_product(items: &Vec<ProductRecord>, r: &ProductRecord) -> (found: bool)
    ensures
        found == holds_product(record_views(items@), r@),
{
    let mut i: usize = 0;
    while i < items.len()
        invariant
            i <= items.len(),
            forall|k: int| 0 <= k < i ==> !same_product(#[trigger] items@[k]@, r@),
        decreases items.len() - i,
    {
        if items[i].same_product_as(r) {
            assert(same_product(record_views(items@)[i as int], r@));
            return true;
        }
        i += 1;
    }
    assert forall|k: int| 0 <= k < record_views(items@).len() implies !same_product(
        #[trigger] record_views(items@)[k],
        r@,
    ) by {
        assert(!same_product(items@[k]@, r@));
    }
    false
}

/// Appends `r` unless a record of the same product is already in `items`.
pub fn push_unique(items: &mut Vec<ProductRecord>, r: ProductRecord)
    ensures
        record_views(final(items)@) == (if holds_product(record_views(old(items)@), r@) {
            record_views(old(items)@)
        } else {
            record_views(old(items)@).push(r@)
        }),
{
    if !contains_product(items, &r) {
        items.push(r);
        assert(record_views(items@) =~= record_views(old(items)@).push(r@));
    }
}

/// Adds the records of `batch` to `items` in order, the first record of each
/// product winning.
pub fn merge_records(items: &mut Vec<ProductRecord>, batch: Vec<ProductRecord>)
    ensures
        record_views(final(items)@) == merged(record_views(old(items)@), record_views(batch@)),
{
    let ghost start = record_views(items@);
    let mut i: usize = 0;
    while i < batch.len()
        invariant
            i <= batch.len(),
            record_views(items@) == merged(start, record_views(batch@).take(i as int)),
        decreases batch.len() - i,
    {
        let r = batch[i].duplicate();
        push_unique(items, r);
        proof {
            let t = record_views(batch@).take(i + 1);
            assert(t.drop_last() =~= record_views(batch@).take(i as int));
            assert(t.last() == batch@[i as int]@);
        }
        i += 1;
    }
    assert(record_views(batch@).take(batch.len() as int) =~= record_views(batch@));
}

/// Merging new records into a collection that holds each product once keeps
/// it that way: every record seen, before or now, has its product in the result,
/// and each record of the result is the first one seen of its product, so a later
/// duplicate is dropped and never overwrites the earlier one.
pub proof fn lemma_first_record_wins(acc: Seq<RecordView>, batch: Seq<RecordView>)
    requires
        distinct_products(acc),
    ensures
        distinct_products(merged(acc, batch)),
        forall|k: int|
            0 <= k < (acc + batch).len() ==> holds_product(merged(acc, batch), #[trigger] (acc
                + batch)[k]),
        forall|k: int|
            0 <= k < merged(acc, batch).len() ==> first_seen_in(acc + batch, #[trigger] merged(
                acc,
                batch,
            )[k]),
    decreases batch.len(),
{
    let all = acc + batch;
    let m = merged(acc, batch);
    if batch.len() == 0 {
        assert(all =~= acc);
        assert forall|k: int| 0 <= k < all.len() implies holds_product(m, #[trigger] all[k]) by {
            assert(same_product(m[k], all[k]));
        }
        assert forall|k: int| 0 <= k < m.len() implies first_seen_in(all, #[trigger] m[k]) by {
            assert(forall|i: int| 0 <= i < k ==> !same_product(#[trigger] all[i], m[k]));
        }
    } else {
        let b0 = batch.drop_last();
        let x = batch.last();
        let m0 = merged(acc, b0);
        let all0 = acc + b0;
        lemma_first_record_wins(acc, b0);
        assert(all =~= all0.push(x));
        if holds_product(m0, x) {
            assert(m == m0);
            assert forall|k: int| 0 <= k < all.len() implies holds_product(m, #[trigger] all[k]) by {
                if k < all0.len() {
                    assert(all[k] == all0[k]);
                }
            }
            assert forall|k: int| 0 <= k < m.len() implies first_seen_in(all, #[trigger] m[k]) by {
                assert(first_seen_in(all0, m0[k]));
                let j = choose|j: int|
                    0 <= j < all0.len() && all0[j] == m0[k] && forall|i: int|
                        0 <= i < j ==> !same_product(#[trigger] all0[i], m0[k]);
                assert(all[j] == m[k]);
                assert(forall|i: int| 0 <= i < j ==> all[i] == all0[i]);
            }
        } else {
            assert(m == m0.push(x));
            assert forall|k: int| 0 <= k < all.len() implies holds_product(m, #[trigger] all[k]) by {
                if k < all0.len() {
                    assert(all[k] == all0[k]);
                    assert(holds_product(m0, all0[k]));
                    let i = choose|i: int| 0 <= i < m0.len() && same_product(m0[i], all0[k]);
                    assert(m[i] == m0[i]);
                } else {
                    assert(same_product(m[m0.len() as int], all[k]));
                }
            }
            assert forall|k: int| 0 <= k < m.len() implies first_seen_in(all, #[trigger] m[k]) by {
                if k < m0.len() {
                    assert(m[k] == m0[k]);
                    assert(first_seen_in(all0, m0[k]));
                    let j = choose|j: int|
                        0 <= j < all0.len() && all0[j] == m0[k] && forall|i: int|
                            0 <= i < j ==> !same_product(#[trigger] all0[i], m0[k]);
                    assert(all[j] == m[k]);
                    assert(forall|i: int| 0 <= i < j ==> all[i] == all0[i]);
                } else {
                    let j = all0.len() as int;
                    assert(all[j] == x);
                    assert forall|i: int| 0 <= i < j implies !same_product(#[trigger] all[i], x) by {
                        assert(all[i] == all0[i]);
                        if same_product(all0[i], x) {
                            assert(holds_product(m0, all0[i]));
                            let t = choose|t: int| 0 <= t < m0.len() && same_product(m0[t], all0[i]);
                            assert(same_product(m0[t], x));
                        }
                    }
                }
            }
        }
    }
}

} // verus!
