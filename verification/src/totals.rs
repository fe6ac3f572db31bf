//! Per-category running totals: an association list keyed by category
//! name, the sums over it, and a descending sort by total.

use vstd::prelude::*;
use vstd::seq_lib::group_to_multiset_ensures;
use vstd::relations::sorted_by;

verus! {

/// One category's accumulated spending, in cents.
#[derive(Debug, Clone)]
pub struct CategoryTotal {
    pub category: String,
    pub total: u64,
}

/// No two entries share a category.
pub open spec fn distinct_keys(s: Seq<CategoryTotal>) -> bool {
    forall|i: int, j: int|
        0 <= i < j < s.len() ==> #[trigger] s[i].category@ != #[trigger] s[j].category@
}

/// The total recorded for `c`: the first matching entry's, or 0.
pub open spec fn val_of(s: Seq<CategoryTotal>, c: Seq<char>) -> int
    decreases s.len(),
{
    if s.len() == 0 {
        0
    } else if s[0].category@ == c {
        s[0].total as int
    } else {
        val_of(s.drop_first(), c)
    }
}

/// Whether some entry carries `c`.
pub open spec fn has_key(s: Seq<CategoryTotal>, c: Seq<char>) -> bool {
    exists|k: int| 0 <= k < s.len() && #[trigger] s[k].category@ == c
}

/// The sum of all entries' totals.
pub open spec fn pair_sum(s: Seq<CategoryTotal>) -> int
    decreases s.len(),
{
    if s.len() == 0 {
        0
    } else {
        pair_sum(s.drop_last()) + s.last().total
    }
}

pub proof fn lemma_pair_sum_nonneg(s: Seq<CategoryTotal>)
    ensures
        pair_sum(s) >= 0,
    decreases s.len(),
{
    if s.len() > 0 {
        lemma_pair_sum_nonneg(s.drop_last());
    }
}

pub proof fn lemma_entry_le_pair_sum(s: Seq<CategoryTotal>, i: int)
    requires
        0 <= i < s.len(),
    ensures
        s[i].total <= pair_sum(s),
    decreases s.len(),
{
    if i == s.len() - 1 {
        lemma_pair_sum_nonneg(s.drop_last());
    } else {
        lemma_entry_le_pair_sum(s.drop_last(), i);
    }
}

pub proof fn lemma_pair_sum_remove(s: Seq<CategoryTotal>, i: int)
    requires
        0 <= i < s.len(),
    ensures
        pair_sum(s.remove(i)) == pair_sum(s) - s[i].total,
    decreases s.len(),
{
    if i == s.len() - 1 {
        assert(s.remove(i) =~= s.drop_last());
    } else {
        assert(s.remove(i).drop_last() =~= s.drop_last().remove(i));
        assert(s.remove(i).last() == s.last());
        lemma_pair_sum_remove(s.drop_last(), i);
    }
}

/// A prefix of the entries sums to no more than all of them.
pub proof fn lemma_pair_sum_prefix_le(s: Seq<CategoryTotal>, k: int)
    requires
        0 <= k <= s.len(),
    ensures
        pair_sum(s.subrange(0, k)) <= pair_sum(s),
    decreases s.len(),
{
    if k == s.len() {
        assert(s.subrange(0, k) =~= s);
    } else {
        assert(s.drop_last().subrange(0, k) =~= s.subrange(0, k));
        lemma_pair_sum_prefix_le(s.drop_last(), k);
    }
}

/// The sum does not depend on the order of the entries.
pub proof fn lemma_pair_sum_multiset(a: Seq<CategoryTotal>, b: Seq<CategoryTotal>)
    requires
        a.to_multiset() == b.to_multiset(),
    ensures
        pair_sum(a) == pair_sum(b),
    decreases a.len(),
{
    broadcast use group_to_multiset_ensures;

    if a.len() == 0 {
        assert(a.len() == a.to_multiset().len());
        assert(b.len() == b.to_multiset().len());
        assert(b.len() == 0);
    } else {
        let x = a.last();
        assert(a.contains(x));
        assert(b.to_multiset().count(x) > 0);
        assert(b.contains(x));
        let j = choose|j: int| 0 <= j < b.len() && b[j] == x;
        assert(a.drop_last() =~= a.remove(a.len() - 1));
        assert(a.remove(a.len() - 1).to_multiset() =~= a.to_multiset().remove(x));
        assert(b.remove(j).to_multiset() =~= b.to_multiset().remove(x));
        lemma_pair_sum_multiset(a.drop_last(), b.remove(j));
        lemma_pair_sum_remove(b, j);
    }
}

/// Every entry of a rearrangement already stood in the original.
pub proof fn lemma_multiset_entries(a: Seq<CategoryTotal>, b: Seq<CategoryTotal>, k: int)
    requires
        a.to_multiset() == b.to_multiset(),
        0 <= k < b.len(),
    ensures
        exists|i: int| 0 <= i < a.len() && a[i] == b[k],
{
    broadcast use group_to_multiset_ensures;

    assert(b.contains(b[k]));
    assert(a.to_multiset().count(b[k]) > 0);
    assert(a.contains(b[k]));
}

/// With a key's first occurrence unique, `val_of` reads any entry back.
pub proof fn lemma_val_of_at(s: Seq<CategoryTotal>, k: int)
    requires
        distinct_keys(s),
        0 <= k < s.len(),
    ensures
        val_of(s, s[k].category@) == s[k].total,
    decreases s.len(),
{
    if k > 0 {
        assert(s[0].category@ != s[k].category@);
        assert(s.drop_first()[k - 1] == s[k]);
        lemma_val_of_at(s.drop_first(), k - 1);
    }
}

/// A key no entry carries reads back as 0.
pub proof fn lemma_val_of_absent(s: Seq<CategoryTotal>, c: Seq<char>)
    requires
        !has_key(s, c),
    ensures
        val_of(s, c) == 0,
    decreases s.len(),
{
    if s.len() > 0 {
        assert(s[0].category@ != c);
        assert(!has_key(s.drop_first(), c)) by {
            if has_key(s.drop_first(), c) {
                let k = choose|k: int|
                    0 <= k < s.drop_first().len() && #[trigger] s.drop_first()[k].category@ == c;
                assert(s[k + 1].category@ == c);
            }
        }
        lemma_val_of_absent(s.drop_first(), c);
    }
}

proof fn lemma_val_of_pointwise(a: Seq<CategoryTotal>, b: Seq<CategoryTotal>, c: Seq<char>, add: int)
    requires
        a.len() == b.len(),
        forall|k: int| 0 <= k < a.len() ==> #[trigger] b[k].category@ == #[trigger] a[k].category@,
        forall|k: int|
            0 <= k < a.len() ==> b[k].total == a[k].total + (if a[k].category@ == c {
                add
            } else {
                0int
            }),
    ensures
        forall|cc: Seq<char>| #[trigger] val_of(b, cc) == val_of(a, cc) + (if cc == c && has_key(
            a,
            cc,
        ) {
            add
        } else {
            0int
        }),
        forall|cc: Seq<char>| has_key(b, cc) == has_key(a, cc),
    decreases a.len(),
{
    if a.len() > 0 {
        assert(forall|k: int|
            0 <= k < a.drop_first().len() ==> #[trigger] b.drop_first()[k] == b[k + 1]
                && #[trigger] a.drop_first()[k] == a[k + 1]);
        lemma_val_of_pointwise(a.drop_first(), b.drop_first(), c, add);
        assert forall|cc: Seq<char>| #[trigger] val_of(b, cc) == val_of(a, cc) + (if cc == c
            && has_key(a, cc) {
            add
        } else {
            0int
        }) by {
            assert(b[0].category@ == a[0].category@);
            assert(b[0].total == a[0].total + (if a[0].category@ == c {
                add
            } else {
                0int
            }));
            if a[0].category@ == cc {
                assert(has_key(a, cc)) by {
                    assert(a[0].category@ == cc);
                }
                assert(val_of(a, cc) == a[0].total);
                assert(val_of(b, cc) == b[0].total);
            } else {
                assert(val_of(a, cc) == val_of(a.drop_first(), cc));
                assert(val_of(b, cc) == val_of(b.drop_first(), cc));
                assert(has_key(a, cc) == has_key(a.drop_first(), cc)) by {
                    if has_key(a, cc) {
                        let k = choose|k: int|
                            0 <= k < a.len() && #[trigger] a[k].category@ == cc;
                        assert(a.drop_first()[k - 1].category@ == cc);
                    } else {
                        if has_key(a.drop_first(), cc) {
                            let k = choose|k: int|
                                0 <= k < a.drop_first().len()
                                    && #[trigger] a.drop_first()[k].category@ == cc;
                            assert(a[k + 1].category@ == cc);
                        }
                    }
                }
            }
        }
        assert forall|cc: Seq<char>| has_key(b, cc) == has_key(a, cc) by {
            if has_key(b, cc) {
                let k = choose|k: int| 0 <= k < b.len() && #[trigger] b[k].category@ == cc;
                assert(a[k].category@ == cc);
            }
            if has_key(a, cc) {
                let k = choose|k: int| 0 <= k < a.len() && #[trigger] a[k].category@ == cc;
                assert(b[k].category@ == cc);
            }
        }
    }
}

proof fn lemma_pair_sum_pointwise(
    a: Seq<CategoryTotal>,
    b: Seq<CategoryTotal>,
    c: Seq<char>,
    add: int,
)
    requires
        distinct_keys(a),
        a.len() == b.len(),
        forall|k: int| 0 <= k < a.len() ==> #[trigger] b[k].category@ == #[trigger] a[k].category@,
        forall|k: int|
            0 <= k < a.len() ==> b[k].total == a[k].total + (if a[k].category@ == c {
                add
            } else {
                0int
            }),
    ensures
        pair_sum(b) == pair_sum(a) + (if has_key(a, c) {
            add
        } else {
            0int
        }),
    decreases a.len(),
{
    if a.len() > 0 {
        assert(forall|k: int|
            0 <= k < a.drop_last().len() ==> #[trigger] b.drop_last()[k] == b[k]
                && #[trigger] a.drop_last()[k] == a[k]);
        lemma_pair_sum_pointwise(a.drop_last(), b.drop_last(), c, add);
        if a.last().category@ == c {
            assert(has_key(a, c));
            assert(!has_key(a.drop_last(), c)) by {
                if has_key(a.drop_last(), c) {
                    let k = choose|k: int|
                        0 <= k < a.drop_last().len() && #[trigger] a.drop_last()[k].category@ == c;
                    assert(a[k].category@ == a[a.len() - 1].category@);
                }
            }
        } else {
            assert(has_key(a, c) == has_key(a.drop_last(), c)) by {
                if has_key(a, c) {
                    let k = choose|k: int| 0 <= k < a.len() && #[trigger] a[k].category@ == c;
                    assert(a.drop_last()[k].category@ == c);
                }
                if has_key(a.drop_last(), c) {
                    let k = choose|k: int|
                        0 <= k < a.drop_last().len() && #[trigger] a.drop_last()[k].category@ == c;
                    assert(a[k].category@ == c);
                }
            }
        }
    }
}

proof fn lemma_val_of_push(s: Seq<CategoryTotal>, e: CategoryTotal, c: Seq<char>)
    ensures
        val_of(s.push(e), c) == (if has_key(s, c) {
            val_of(s, c)
        } else if e.category@ == c {
            e.total as int
        } else {
            0int
        }),
        has_key(s.push(e), c) == (has_key(s, c) || e.category@ == c),
    decreases s.len(),
{
    if s.len() == 0 {
        assert(s.push(e)[0] == e);
        if e.category@ == c {
            assert(has_key(s.push(e), c)) by {
                assert(s.push(e)[0].category@ == c);
            }
        } else {
            assert(!has_key(s.push(e), c)) by {
                if has_key(s.push(e), c) {
                    let k = choose|k: int|
                        0 <= k < s.push(e).len() && #[trigger] s.push(e)[k].category@ == c;
                    assert(s.push(e)[k] == e);
                }
            }
        }
        assert(!has_key(s, c));
        assert(s.push(e).drop_first() =~= Seq::<CategoryTotal>::empty());
        assert(val_of(s.push(e), c) == (if has_key(s, c) {
            val_of(s, c)
        } else if e.category@ == c {
            e.total as int
        } else {
            0int
        })) by {
            assert(val_of(Seq::<CategoryTotal>::empty(), c) == 0);
        }
    } else {
        assert(s.push(e)[0] == s[0]);
        assert(s.push(e).drop_first() =~= s.drop_first().push(e));
        lemma_val_of_push(s.drop_first(), e, c);
        if s[0].category@ == c {
            assert(has_key(s, c)) by {
                assert(s[0].category@ == c);
            }
            assert(val_of(s, c) == s[0].total);
            assert(val_of(s.push(e), c) == s.push(e)[0].total);
        } else {
            assert(val_of(s, c) == val_of(s.drop_first(), c));
            assert(val_of(s.push(e), c) == val_of(s.drop_first().push(e), c));
        }
        assert(has_key(s, c) == (s[0].category@ == c || has_key(s.drop_first(), c))) by {
            if has_key(s, c) && s[0].category@ != c {
                let k = choose|k: int| 0 <= k < s.len() && #[trigger] s[k].category@ == c;
                assert(s.drop_first()[k - 1].category@ == c);
            }
            if has_key(s.drop_first(), c) {
                let k = choose|k: int|
                    0 <= k < s.drop_first().len() && #[trigger] s.drop_first()[k].category@ == c;
                assert(s[k + 1].category@ == c);
            }
        }
        assert(has_key(s.push(e), c) == (s.push(e)[0].category@ == c || has_key(
            s.push(e).drop_first(),
            c,
        ))) by {
            if has_key(s.push(e), c) && s.push(e)[0].category@ != c {
                let k = choose|k: int|
                    0 <= k < s.push(e).len() && #[trigger] s.push(e)[k].category@ == c;
                assert(s.push(e).drop_first()[k - 1].category@ == c);
            }
            if has_key(s.push(e).drop_first(), c) {
                let k = choose|k: int|
                    0 <= k < s.push(e).drop_first().len() && #[trigger] s.push(e).drop_first()[
                        k
                    ].category@ == c;
                assert(s.push(e)[k + 1].category@ == c);
            }
        }
        if s[0].category@ == c {
            assert(val_of(s.push(e), c) == val_of(s, c));
        } else if has_key(s, c) {
            assert(has_key(s.drop_first(), c));
            assert(val_of(s.push(e), c) == val_of(s.drop_first().push(e), c));
            assert(val_of(s.drop_first().push(e), c) == val_of(s.drop_first(), c));
            assert(val_of(s, c) == val_of(s.drop_first(), c));
        } else {
            assert(!has_key(s.drop_first(), c));
            assert(val_of(s.push(e), c) == val_of(s.drop_first().push(e), c));
            assert(val_of(s.drop_first().push(e), c) == (if e.category@ == c {
                e.total as int
            } else {
                0int
            }));
        }
    }
}

proof fn lemma_pair_sum_push(s: Seq<CategoryTotal>, e: CategoryTotal)
    ensures
        pair_sum(s.push(e)) == pair_sum(s) + e.total,
{
    assert(s.push(e).drop_last() =~= s);
}

/// Adds `add` cents to `c`'s entry, creating it at the back when absent.
pub fn upsert_add(v: &mut Vec<CategoryTotal>, c: &String, add: u64)
    requires
        distinct_keys(old(v)@),
        pair_sum(old(v)@) + add <= u64::MAX,
    ensures
        distinct_keys(final(v)@),
        pair_sum(final(v)@) == pair_sum(old(v)@) + add,
        forall|cc: Seq<char>|
            #[trigger] val_of(final(v)@, cc) == val_of(old(v)@, cc) + (if cc == c@ {
                add as int
            } else {
                0int
            }),
        forall|cc: Seq<char>|
            #[trigger] has_key(final(v)@, cc) == (has_key(old(v)@, cc) || cc == c@),
        final(v)@.len() <= old(v)@.len() + 1,
{
    let n = v.len();
    let mut out: Vec<CategoryTotal> = Vec::new();
    let mut found = false;
    let mut k: usize = 0;
    while k < n
        invariant
            n == v@.len(),
            0 <= k <= n,
            out@.len() == k,
            distinct_keys(v@),
            pair_sum(v@) + add <= u64::MAX,
            forall|i: int| 0 <= i < k ==> #[trigger] out@[i].category@ == v@[i].category@,
            forall|i: int|
                0 <= i < k ==> out@[i].total == v@[i].total + (if v@[i].category@ == c@ {
                    add as int
                } else {
                    0int
                }),
            found == has_key(v@.subrange(0, k as int), c@),
        decreases n - k,
    {
        let e = &v[k];
        proof {
            lemma_entry_le_pair_sum(v@, k as int);
            lemma_pair_sum_nonneg(v@);
        }
        if e.category.eq(c) {
            out.push(CategoryTotal { category: e.category.clone(), total: e.total + add });
            found = true;
        } else {
            out.push(CategoryTotal { category: e.category.clone(), total: e.total });
        }
        k = k + 1;
        proof {
            let pre = v@.subrange(0, k as int);
            let prev = v@.subrange(0, k - 1);
            assert(pre[k - 1] == v@[k - 1]);
            assert(found == has_key(pre, c@)) by {
                if has_key(pre, c@) {
                    let j = choose|j: int| 0 <= j < pre.len() && #[trigger] pre[j].category@ == c@;
                    if j < k - 1 {
                        assert(prev[j].category@ == c@);
                        assert(has_key(prev, c@));
                    } else {
                        assert(v@[k - 1].category@ == c@);
                    }
                } else {
                    assert(pre[k - 1].category@ != c@);
                    if has_key(prev, c@) {
                        let j = choose|j: int|
                            0 <= j < prev.len() && #[trigger] prev[j].category@ == c@;
                        assert(pre[j].category@ == c@);
                        assert(has_key(pre, c@));
                    }
                }
            }
        }
    }
    proof {
        assert(v@.subrange(0, n as int) =~= v@);
        lemma_val_of_pointwise(v@, out@, c@, add as int);
        lemma_pair_sum_pointwise(v@, out@, c@, add as int);
    }
    if !found {
        let e = CategoryTotal { category: c.clone(), total: add };
        proof {
            lemma_val_of_push(out@, e, c@);
        }
        let ghost pre_push = out@;
        out.push(e);
        proof {
            lemma_pair_sum_push(pre_push, e);
            assert forall|cc: Seq<char>| #[trigger] val_of(out@, cc) == val_of(old(v)@, cc) + (
            if cc == c@ {
                add as int
            } else {
                0int
            }) by {
                lemma_val_of_push(pre_push, e, cc);
                if !has_key(pre_push, cc) {
                    lemma_val_of_absent(pre_push, cc);
                    lemma_val_of_absent(old(v)@, cc);
                }
            }
            assert forall|cc: Seq<char>| #[trigger] has_key(out@, cc) == (has_key(old(v)@, cc)
                || cc == c@) by {
                lemma_val_of_push(pre_push, e, cc);
            }
            assert(distinct_keys(out@)) by {
                assert forall|i: int, j: int|
                    0 <= i < j < out@.len() implies #[trigger] out@[i].category@
                    != #[trigger] out@[j].category@ by {
                    if j == out@.len() - 1 {
                        assert(!has_key(pre_push, c@));
                        assert(pre_push[i].category@ == v@[i].category@);
                    }
                }
            }
        }
    }
    *v = out;
}

/// Descending order by total, the order report tables are shown in.
pub open spec fn total_desc_le(a: CategoryTotal, b: CategoryTotal) -> bool {
    a.total >= b.total
}

/// The same order as a relation value, for `sorted_by`.
pub open spec fn by_total_desc() -> spec_fn(CategoryTotal, CategoryTotal) -> bool {
    |a: CategoryTotal, b: CategoryTotal| total_desc_le(a, b)
}

proof fn lemma_insert_multiset(s: Seq<CategoryTotal>, i: int, e: CategoryTotal)
    requires
        0 <= i <= s.len(),
    ensures
        s.insert(i, e).to_multiset() == s.to_multiset().insert(e),
{
    broadcast use group_to_multiset_ensures;

    let t = s.insert(i, e);
    assert(t.remove(i) =~= s);
    assert(t.remove(i).to_multiset() =~= t.to_multiset().remove(t[i]));
    assert(t[i] == e);
    assert(t.to_multiset().count(e) > 0) by {
        assert(t.contains(e));
    }
    assert(t.to_multiset() =~= s.to_multiset().insert(e)) by {
        assert(t.to_multiset().remove(e).insert(e) =~= t.to_multiset());
    }
}

/// Sorts entries by descending total; ties keep no promised order.
pub fn sort_totals_desc(v: Vec<CategoryTotal>) -> (r: Vec<CategoryTotal>)
    ensures
        r@.to_multiset() == v@.to_multiset(),
        sorted_by(r@, by_total_desc()),
        r@.len() == v@.len(),
{
    broadcast use group_to_multiset_ensures;

    let n = v.len();
    let mut out: Vec<CategoryTotal> = Vec::new();
    proof {
        assert(v@.subrange(0, 0) =~= Seq::<CategoryTotal>::empty());
        assert(v@.subrange(0, 0).to_multiset() =~= out@.to_multiset());
    }
    let mut k: usize = 0;
    while k < n
        invariant
            n == v@.len(),
            0 <= k <= n,
            out@.to_multiset() == v@.subrange(0, k as int).to_multiset(),
            sorted_by(out@, by_total_desc()),
            out@.len() == k,
        decreases n - k,
    {
        let e = &v[k];
        let item = CategoryTotal { category: e.category.clone(), total: e.total };
        let mut pos: usize = 0;
        while pos < out.len() && out[pos].total >= item.total
            invariant
                0 <= pos <= out@.len(),
                forall|i: int| 0 <= i < pos ==> #[trigger] out@[i].total >= item.total,
            decreases out@.len() - pos,
        {
            pos = pos + 1;
        }
        let ghost pre = out@;
        out.insert(pos, item);
        k = k + 1;
        proof {
            assert(item == v@[k - 1]);
            lemma_insert_multiset(pre, pos as int, item);
            pre.insert_ensures(pos as int, item);
            assert(v@.subrange(0, k as int) =~= v@.subrange(0, k - 1).push(v@[k - 1]));
            vstd::seq_lib::to_multiset_build(v@.subrange(0, k - 1), v@[k - 1]);
            assert(sorted_by(out@, by_total_desc())) by {
                assert forall|i: int, j: int|
                    0 <= i < j < out@.len() implies #[trigger] by_total_desc()(
                    out@[i],
                    out@[j],
                ) by {
                    if j < pos {
                        assert(out@[i] == pre[i] && out@[j] == pre[j]);
                        assert(by_total_desc()(pre[i], pre[j]));
                    } else if i < pos && j == pos {
                        assert(out@[i] == pre[i]);
                        assert(out@[j] == item);
                        assert(pre[i].total >= item.total);
                    } else if i < pos && j > pos {
                        assert(out@[i] == pre[i] && out@[j] == pre[j - 1]);
                        assert(pre[i].total >= item.total);
                        if j - 1 >= pos {
                            if pos < pre.len() {
                                assert(pre[pos as int].total < item.total);
                                assert(by_total_desc()(pre[pos as int], pre[j - 1]));
                            }
                        }
                    } else if i == pos {
                        assert(out@[i] == item);
                        assert(out@[j] == pre[j - 1]);
                        assert(pre[pos as int].total < item.total);
                        assert(by_total_desc()(pre[pos as int], pre[j - 1]));
                    } else {
                        assert(out@[i] == pre[i - 1] && out@[j] == pre[j - 1]);
                        assert(by_total_desc()(pre[i - 1], pre[j - 1]));
                    }
                }
            }
        }
    }
    proof {
        assert(v@.subrange(0, n as int) =~= v@);
    }
    out
}

} // verus!
