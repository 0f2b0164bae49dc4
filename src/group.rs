use vstd::prelude::*;
use crate::record::{ProductRecord, RecordView, record_views};

verus! {

/// The records that carry one discount label, in their original order.
pub struct DiscountGroup {
    pub discount: String,
    pub records: Vec<ProductRecord>,
}

pub struct GroupView {
    pub discount: Seq<char>,
    pub records: Seq<RecordView>,
}

impl View for DiscountGroup {
    type V = GroupView;

    open spec fn view(&self) -> GroupView {
        GroupView { discount: self.discount@, records: record_views(self.records@) }
    }
}

pub open spec fn group_views(v: Seq<DiscountGroup>) -> Seq<GroupView> {
    v.map_values(|g: DiscountGroup| g@)
}

/// The discount labels of `s`, each once, in order of first appearance.
pub open spec fn discount_keys(s: Seq<RecordView>) -> Seq<Seq<char>>
    decreases s.len(),
{
    if s.len() == 0 {
        Seq::empty()
    } else {
        let before = discount_keys(s.drop_last());
        if before.contains(s.last().discount) {
            before
        } else {
            before.push(s.last().discount)
        }
    }
}

pub open spec fn has_discount(k: Seq<char>) -> spec_fn(RecordView) -> bool {
    |r: RecordView| r.discount == k
}

/// `s` grouped by discount label: one group per label, labels in order of
/// first appearance, each group the records of `s` with that label in order.
pub open spec fn grouping(s: Seq<RecordView>) -> Seq<GroupView> {
    discount_keys(s).map_values(
        |k: Seq<char>| GroupView { discount: k, records: s.filter(has_discount(k)) },
    )
}

proof fn lemma_keys_distinct(s: Seq<RecordView>)
    ensures
        forall|i: int, j: int|
            0 <= i < j < discount_keys(s).len() ==> discount_keys(s)[i] != discount_keys(s)[j],
    decreases s.len(),
{
    if s.len() > 0 {
        let before = discount_keys(s.drop_last());
        lemma_keys_distinct(s.drop_last());
        if !before.contains(s.last().discount) {
            assert forall|i: int| 0 <= i < before.len() implies before[i] != s.last().discount by {
                if before[i] == s.last().discount {
                    assert(before.contains(s.last().discount));
                }
            }
        }
    }
}

proof fn lemma_absent_key(s: Seq<RecordView>, k: Seq<char>)
    requires
        !discount_keys(s).contains(k),
    ensures
        s.filter(has_discount(k)) == Seq::<RecordView>::empty(),
    decreases s.len(),
{
    reveal_with_fuel(Seq::filter, 1);
    if s.len() == 0 {
        assert(s.filter(has_discount(k)) =~= Seq::<RecordView>::empty());
    } else {
        let before = discount_keys(s.drop_last());
        if before.contains(k) {
            let t = choose|t: int| 0 <= t < before.len() && before[t] == k;
            assert(discount_keys(s)[t] == k);
        }
        lemma_absent_key(s.drop_last(), k);
        if s.last().discount == k {
            if !before.contains(k) {
                assert(discount_keys(s)[before.len() as int] == k);
            }
        }
    }
}

fn group_index(groups: &Vec<DiscountGroup>, key: &String) -> (r: Option<usize>)
    ensures
        match r {
            Some(j) => j < groups@.len() && groups@[j as int]@.discount == key@,
            None => forall|m: int| 0 <= m < groups@.len() ==> groups@[m]@.discount != key@,
        },
{
    let mut j: usize = 0;
    while j < groups.len()
        invariant
            j <= groups@.len(),
            forall|m: int| 0 <= m < j ==> groups@[m]@.discount != key@,
        decreases groups.len() - j,
    {
        if groups[j].discount == *key {
            return Some(j);
        }
        j += 1;
    }
    None
}

/// Groups `records` by discount label, the empty label included.
pub fn group_by_discount(records: &Vec<ProductRecord>) -> (r: Vec<DiscountGroup>)
    ensures
        group_views(r@) == grouping(record_views(records@)),
{
    let ghost s = record_views(records@);
    let mut groups: Vec<DiscountGroup> = Vec::new();
    let mut i: usize = 0;
    while i < records.len()
        invariant
            i <= records@.len(),
            s == record_views(records@),
            group_views(groups@) == grouping(s.take(i as int)),
        decreases records.len() - i,
    {
        let ghost before = s.take(i as int);
        let ghost after = s.take(i + 1);
        let ghost x = s[i as int];
        let ghost old_groups = group_views(groups@);
        proof {
            assert(after.drop_last() =~= before);
            assert(after.last() == x);
            lemma_keys_distinct(before);
            reveal_with_fuel(Seq::filter, 1);
            assert forall|k: Seq<char>| #[trigger]
                after.filter(has_discount(k)) == (if x.discount == k {
                    before.filter(has_discount(k)).push(x)
                } else {
                    before.filter(has_discount(k))
                }) by {}
        }
        assert(x == records@[i as int]@);
        assert(old_groups.len() == discount_keys(before).len());
        let rec = records[i].duplicate();
        match group_index(&groups, &records[i].discount) {
            Some(j) => {
                let mut g = DiscountGroup { discount: String::new(), records: Vec::new() };
                std::mem::swap(&mut g, &mut groups[j]);
                g.records.push(rec);
                std::mem::swap(&mut g, &mut groups[j]);
                proof {
                    let keys = discount_keys(before);
                    assert(old_groups[j as int] == grouping(before)[j as int]);
                    assert(keys[j as int] == x.discount);
                    assert(keys.contains(x.discount));
                    assert(discount_keys(after) == keys);
                    assert(record_views(groups@[j as int].records@) =~= old_groups[j as int].records.push(x));
                    assert forall|m: int| 0 <= m < keys.len() implies #[trigger] group_views(groups@)[m]
                        == grouping(after)[m] by {
                        assert(old_groups[m] == grouping(before)[m]);
                        assert(after.filter(has_discount(keys[m])) == (if x.discount == keys[m] {
                            before.filter(has_discount(keys[m])).push(x)
                        } else {
                            before.filter(has_discount(keys[m]))
                        }));
                        if m != j {
                            assert(keys[m] != keys[j as int]);
                        }
                    }
                    assert(group_views(groups@) =~= grouping(after));
                }
            },
            None => {
                let g = DiscountGroup { discount: records[i].discount.clone(), records: vec![rec] };
                groups.push(g);
                proof {
                    let keys = discount_keys(before);
                    assert forall|m: int| 0 <= m < keys.len() implies keys[m] != x.discount by {
                        assert(old_groups[m] == grouping(before)[m]);
                    }
                    assert(!keys.contains(x.discount));
                    lemma_absent_key(before, x.discount);
                    assert(discount_keys(after) == keys.push(x.discount));
                    assert(record_views(groups@.last().records@) =~= seq![x]);
                    assert(after.filter(has_discount(x.discount)) =~= seq![x]);
                    assert forall|m: int| 0 <= m < keys.len() implies #[trigger] group_views(groups@)[m]
                        == grouping(after)[m] by {
                        assert(old_groups[m] == grouping(before)[m]);
                        assert(after.filter(has_discount(keys[m])) == before.filter(
                            has_discount(keys[m]),
                        ));
                    }
                    assert(group_views(groups@) =~= grouping(after));
                }
            },
        }
        i += 1;
    }
    assert(s.take(records.len() as int) =~= s);
    groups
}

/// Grouping is a function of the records alone: two groupings of the same
/// collection are identical.
pub proof fn lemma_grouping_repeatable(
    s: Seq<RecordView>,
    first: Seq<GroupView>,
    second: Seq<GroupView>,
)
    requires
        first == grouping(s),
        second == grouping(s),
    ensures
        first == second,
{
}

/// The records of the groups, group after group.
pub open spec fn flatten_groups(g: Seq<GroupView>) -> Seq<RecordView>
    decreases g.len(),
{
    if g.len() == 0 {
        Seq::empty()
    } else {
        flatten_groups(g.drop_last()) + g.last().records
    }
}

proof fn lemma_present_key(s: Seq<RecordView>, k: Seq<char>)
    requires
        discount_keys(s).contains(k),
    ensures
        s.filter(has_discount(k)).len() > 0,
    decreases s.len(),
{
    reveal_with_fuel(Seq::filter, 1);
    let before = discount_keys(s.drop_last());
    if s.last().discount != k {
        assert(before.contains(k)) by {
            let t = choose|t: int| 0 <= t < discount_keys(s).len() && #[trigger] discount_keys(s)[t] == k;
            if !before.contains(s.last().discount) && t == before.len() {
            } else {
                assert(before[t] == k);
            }
        }
        lemma_present_key(s.drop_last(), k);
    }
}

proof fn lemma_filter_keeps_all(t: Seq<RecordView>, k: Seq<char>)
    requires
        forall|i: int| 0 <= i < t.len() ==> (#[trigger] t[i]).discount == k,
    ensures
        t.filter(has_discount(k)) == t,
    decreases t.len(),
{
    reveal_with_fuel(Seq::filter, 1);
    if t.len() > 0 {
        lemma_filter_keeps_all(t.drop_last(), k);
        assert(t.drop_last().push(t.last()) =~= t);
    } else {
        assert(t =~= Seq::<RecordView>::empty());
    }
}

proof fn lemma_filter_drops_all(t: Seq<RecordView>, k: Seq<char>)
    requires
        forall|i: int| 0 <= i < t.len() ==> (#[trigger] t[i]).discount != k,
    ensures
        t.filter(has_discount(k)) == Seq::<RecordView>::empty(),
    decreases t.len(),
{
    reveal_with_fuel(Seq::filter, 1);
    if t.len() > 0 {
        lemma_filter_drops_all(t.drop_last(), k);
    } else {
        assert(t.filter(has_discount(k)) =~= Seq::<RecordView>::empty());
    }
}

proof fn lemma_keys_of_uniform_suffix(a: Seq<RecordView>, b: Seq<RecordView>, k: Seq<char>)
    requires
        b.len() > 0,
        forall|i: int| 0 <= i < b.len() ==> (#[trigger] b[i]).discount == k,
    ensures
        discount_keys(a + b) == (if discount_keys(a).contains(k) {
            discount_keys(a)
        } else {
            discount_keys(a).push(k)
        }),
    decreases b.len(),
{
    let ab = a + b;
    assert(ab.last() == b.last());
    if b.len() == 1 {
        assert(ab.drop_last() =~= a);
    } else {
        assert(ab.drop_last() =~= a + b.drop_last());
        lemma_keys_of_uniform_suffix(a, b.drop_last(), k);
        let before = discount_keys(a + b.drop_last());
        if discount_keys(a).contains(k) {
        } else {
            assert(before[before.len() - 1] == k);
        }
        assert(before.contains(k));
    }
}

proof fn lemma_regroup_prefix(s: Seq<RecordView>, j: int)
    requires
        0 <= j <= discount_keys(s).len(),
    ensures
        discount_keys(flatten_groups(grouping(s).take(j))) == discount_keys(s).take(j),
        forall|k: Seq<char>| #[trigger]
            flatten_groups(grouping(s).take(j)).filter(has_discount(k)) == (if discount_keys(
                s,
            ).take(j).contains(k) {
                s.filter(has_discount(k))
            } else {
                Seq::<RecordView>::empty()
            }),
    decreases j,
{
    let keys = discount_keys(s);
    let g = grouping(s);
    if j == 0 {
        reveal_with_fuel(Seq::filter, 1);
        assert(g.take(0) =~= Seq::<GroupView>::empty());
        assert(keys.take(0) =~= Seq::<Seq<char>>::empty());
        assert(discount_keys(Seq::<RecordView>::empty()) =~= Seq::<Seq<char>>::empty());
    } else {
        lemma_regroup_prefix(s, j - 1);
        lemma_keys_distinct(s);
        let kj = keys[j - 1];
        let prev = flatten_groups(g.take(j - 1));
        let part = s.filter(has_discount(kj));
        assert(g.take(j).drop_last() =~= g.take(j - 1));
        assert(g.take(j).last() == g[j - 1]);
        assert(flatten_groups(g.take(j)) == prev + part);
        assert(keys.contains(kj));
        lemma_present_key(s, kj);
        assert forall|i: int| 0 <= i < part.len() implies (#[trigger] part[i]).discount == kj by {
            s.lemma_filter_pred(has_discount(kj), i);
        }
        assert(!keys.take(j - 1).contains(kj)) by {
            if keys.take(j - 1).contains(kj) {
                let t = choose|t: int| 0 <= t < j - 1 && #[trigger] keys.take(j - 1)[t] == kj;
                assert(keys[t] == kj);
            }
        }
        lemma_keys_of_uniform_suffix(prev, part, kj);
        assert(keys.take(j) =~= keys.take(j - 1).push(kj));
        assert forall|k: Seq<char>| #[trigger]
            flatten_groups(g.take(j)).filter(has_discount(k)) == (if keys.take(j).contains(k) {
                s.filter(has_discount(k))
            } else {
                Seq::<RecordView>::empty()
            }) by {
            Seq::filter_distributes_over_add(prev, part, has_discount(k));
            assert(prev.filter(has_discount(k)) == (if keys.take(j - 1).contains(k) {
                s.filter(has_discount(k))
            } else {
                Seq::<RecordView>::empty()
            }));
            if k == kj {
                lemma_filter_keeps_all(part, kj);
                assert(keys.take(j)[j - 1] == kj);
                assert(Seq::<RecordView>::empty() + part =~= part);
            } else {
                lemma_filter_drops_all(part, k);
                assert(keys.take(j).contains(k) == keys.take(j - 1).contains(k)) by {
                    if keys.take(j).contains(k) {
                        let t = choose|t: int| 0 <= t < j && #[trigger] keys.take(j)[t] == k;
                        assert(keys.take(j - 1)[t] == k);
                    }
                    if keys.take(j - 1).contains(k) {
                        let t = choose|t: int| 0 <= t < j - 1 && #[trigger] keys.take(j - 1)[t] == k;
                        assert(keys.take(j)[t] == k);
                    }
                }
                assert(prev.filter(has_discount(k)) + Seq::<RecordView>::empty() =~= prev.filter(
                    has_discount(k),
                ));
            }
        }
    }
}

/// Grouping is idempotent: grouping again the records of a grouping, taken group
/// after group, gives back the same grouping.
pub proof fn lemma_regrouping_is_identity(s: Seq<RecordView>)
    ensures
        grouping(flatten_groups(grouping(s))) == grouping(s),
{
    let keys = discount_keys(s);
    let g = grouping(s);
    lemma_regroup_prefix(s, keys.len() as int);
    assert(g.take(keys.len() as int) =~= g);
    assert(keys.take(keys.len() as int) =~= keys);
    let t = flatten_groups(g);
    assert forall|m: int| 0 <= m < keys.len() implies #[trigger] grouping(t)[m] == g[m] by {
        assert(keys.contains(keys[m]));
        assert(t.filter(has_discount(keys[m])) == s.filter(has_discount(keys[m])));
    }
    assert(grouping(t) =~= g);
}

} // verus!
