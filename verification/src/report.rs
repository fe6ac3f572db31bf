//! The aggregation engine: partitions a record snapshot into fixed-width
//! time buckets and sums absolute expense amounts per category, per bucket
//! and overall.

use vstd::prelude::*;
use vstd::relations::sorted_by;
use crate::amount::{abs_cents_spec, AMOUNT_LIMIT_CENTS};
use crate::date::{date_le, day_number, Date};
use crate::model::{all_valid, Transaction, TransactionType};
use crate::text::{dec_str, lex_lt};
use crate::totals::{
    by_total_desc, distinct_keys, has_key, pair_sum, val_of, CategoryTotal,
};
use vstd::string::StringExecFns;

verus! {

/// The bucket width, in days, chosen for a range of `total_days` days:
/// daily up to a week, weekly up to a quarter, fortnightly up to a year,
/// then wide enough to keep the count near twenty.
pub open spec fn auto_bucket_days_spec(total_days: int) -> int {
    if total_days <= 7 {
        1
    } else if total_days <= 90 {
        7
    } else if total_days <= 365 {
        14
    } else {
        (total_days + 19) / 20
    }
}

pub fn auto_bucket_days(total_days: u32) -> (r: u32)
    requires
        total_days >= 1,
    ensures
        r == auto_bucket_days_spec(total_days as int),
        1 <= r,
{
    if total_days <= 7 {
        1
    } else if total_days <= 90 {
        7
    } else if total_days <= 365 {
        14
    } else {
        (((total_days as u64) + 19) / 20) as u32
    }
}

/// How many buckets cover `total_days` days at `w` days each: the rounded-up
/// quotient.
pub open spec fn bucket_count_spec(total_days: int, w: int) -> int {
    (total_days + w - 1) / w
}

/// The bucket a record lands in: by its day distance from the range start,
/// clamped into range at both ends rather than discarded.
pub open spec fn bucket_index_spec(sd: int, day: int, w: int, count: int) -> int {
    if day < sd {
        0
    } else if (day - sd) / w > count - 1 {
        count - 1
    } else {
        (day - sd) / w
    }
}

pub fn bucket_index(sd: u32, day: u32, w: u32, count: u32) -> (r: u32)
    requires
        w >= 1,
        count >= 1,
    ensures
        r == bucket_index_spec(sd as int, day as int, w as int, count as int),
        r < count,
{
    if day < sd {
        0
    } else {
        let idx = (day - sd) / w;
        if idx > count - 1 {
            count - 1
        } else {
            idx
        }
    }
}

/// Whether a record contributes to bucket `i`: expenses only.
pub open spec fn contributes(t: Transaction, sd: int, w: int, count: int, i: int) -> bool {
    t.transaction_type is Expense && bucket_index_spec(sd, day_number(t.date), w, count) == i
}

/// Total spending of category `c` inside bucket `i`.
pub open spec fn cat_bucket_sum(
    records: Seq<Transaction>,
    sd: int,
    w: int,
    count: int,
    i: int,
    c: Seq<char>,
) -> int
    decreases records.len(),
{
    if records.len() == 0 {
        0
    } else {
        cat_bucket_sum(records.drop_last(), sd, w, count, i, c) + (if contributes(
            records.last(),
            sd,
            w,
            count,
            i,
        ) && records.last().category@ == c {
            abs_cents_spec(records.last().amount)
        } else {
            0int
        })
    }
}

/// Total spending inside bucket `i`, over all categories.
pub open spec fn bucket_total_sum(
    records: Seq<Transaction>,
    sd: int,
    w: int,
    count: int,
    i: int,
) -> int
    decreases records.len(),
{
    if records.len() == 0 {
        0
    } else {
        bucket_total_sum(records.drop_last(), sd, w, count, i) + (if contributes(
            records.last(),
            sd,
            w,
            count,
            i,
        ) {
            abs_cents_spec(records.last().amount)
        } else {
            0int
        })
    }
}

/// Total spending of category `c` over the whole snapshot.
pub open spec fn cat_total_sum(records: Seq<Transaction>, c: Seq<char>) -> int
    decreases records.len(),
{
    if records.len() == 0 {
        0
    } else {
        cat_total_sum(records.drop_last(), c) + (if records.last().transaction_type is Expense
            && records.last().category@ == c {
            abs_cents_spec(records.last().amount)
        } else {
            0int
        })
    }
}

/// Total spending over the whole snapshot.
pub open spec fn expense_total(records: Seq<Transaction>) -> int
    decreases records.len(),
{
    if records.len() == 0 {
        0
    } else {
        expense_total(records.drop_last()) + (if records.last().transaction_type is Expense {
            abs_cents_spec(records.last().amount)
        } else {
            0int
        })
    }
}

/// Some expense record of bucket `i` carries category `c`.
pub open spec fn cat_in_bucket(
    records: Seq<Transaction>,
    sd: int,
    w: int,
    count: int,
    i: int,
    c: Seq<char>,
) -> bool {
    exists|k: int|
        0 <= k < records.len() && contributes(#[trigger] records[k], sd, w, count, i)
            && records[k].category@ == c
}

/// Some expense record carries category `c`.
pub open spec fn cat_present(records: Seq<Transaction>, c: Seq<char>) -> bool {
    exists|k: int|
        0 <= k < records.len() && (#[trigger] records[k]).transaction_type is Expense
            && records[k].category@ == c
}

proof fn lemma_bucket_total_bound(records: Seq<Transaction>, sd: int, w: int, count: int, i: int)
    requires
        all_valid(records),
    ensures
        0 <= bucket_total_sum(records, sd, w, count, i) <= records.len() * AMOUNT_LIMIT_CENTS,
    decreases records.len(),
{
    if records.len() > 0 {
        assert(all_valid(records.drop_last())) by {
            assert(forall|k: int|
                0 <= k < records.len() - 1 ==> #[trigger] records.drop_last()[k] == records[k]);
        }
        lemma_bucket_total_bound(records.drop_last(), sd, w, count, i);
        assert(records[records.len() - 1].valid());
    }
}

proof fn lemma_expense_total_bound(records: Seq<Transaction>)
    requires
        all_valid(records),
    ensures
        0 <= expense_total(records) <= records.len() * AMOUNT_LIMIT_CENTS,
    decreases records.len(),
{
    if records.len() > 0 {
        assert(all_valid(records.drop_last())) by {
            assert(forall|k: int|
                0 <= k < records.len() - 1 ==> #[trigger] records.drop_last()[k] == records[k]);
        }
        lemma_expense_total_bound(records.drop_last());
        assert(records[records.len() - 1].valid());
    }
}

/// Accumulates bucket `i`'s per-category totals and its overall total.
fn bucket_assoc(records: &Vec<Transaction>, sd: u32, w: u32, count: u32, i: u32) -> (r: (
    Vec<CategoryTotal>,
    u64,
))
    requires
        w >= 1,
        count >= 1,
        records@.len() <= 1_000_000,
        all_valid(records@),
    ensures
        distinct_keys(r.0@),
        pair_sum(r.0@) == r.1,
        r.1 == bucket_total_sum(records@, sd as int, w as int, count as int, i as int),
        forall|c: Seq<char>|
            #[trigger] val_of(r.0@, c) == cat_bucket_sum(
                records@,
                sd as int,
                w as int,
                count as int,
                i as int,
                c,
            ),
        forall|c: Seq<char>|
            #[trigger] has_key(r.0@, c) == cat_in_bucket(
                records@,
                sd as int,
                w as int,
                count as int,
                i as int,
                c,
            ),
        r.0@.len() <= records@.len(),
{
    let ghost gsd = sd as int;
    let ghost gw = w as int;
    let ghost gcount = count as int;
    let ghost gi = i as int;
    let mut assoc: Vec<CategoryTotal> = Vec::new();
    let mut acc: u64 = 0;
    let mut k: usize = 0;
    let n = records.len();
    proof {
        assert(records@.subrange(0, 0) =~= Seq::<Transaction>::empty());
    }
    while k < n
        invariant
            0 <= k <= n,
            n == records@.len() <= 1_000_000,
            w >= 1,
            count >= 1,
            all_valid(records@),
            distinct_keys(assoc@),
            acc == bucket_total_sum(records@.subrange(0, k as int), gsd, gw, gcount, gi),
            pair_sum(assoc@) == acc,
            forall|c: Seq<char>|
                #[trigger] val_of(assoc@, c) == cat_bucket_sum(
                    records@.subrange(0, k as int),
                    gsd,
                    gw,
                    gcount,
                    gi,
                    c,
                ),
            forall|c: Seq<char>|
                #[trigger] has_key(assoc@, c) == cat_in_bucket(
                    records@.subrange(0, k as int),
                    gsd,
                    gw,
                    gcount,
                    gi,
                    c,
                ),
            assoc@.len() <= k,
            gsd == sd as int && gw == w as int && gcount == count as int && gi == i as int,
        decreases n - k,
    {
        let ghost pre = records@.subrange(0, k as int);
        let ghost post = records@.subrange(0, k + 1);
        proof {
            assert(post.drop_last() =~= pre);
            assert(post.last() == records@[k as int]);
            lemma_bucket_total_bound(pre, gsd, gw, gcount, gi);
            assert(pre.len() * AMOUNT_LIMIT_CENTS <= 1_000_000 * AMOUNT_LIMIT_CENTS) by (nonlinear_arith)
                requires
                    0 <= pre.len() <= 1_000_000,
            ;
            assert(records@[k as int].valid());
        }
        let tx = &records[k];
        let is_expense = match tx.transaction_type {
            TransactionType::Expense => true,
            TransactionType::Income => false,
        };
        if is_expense {
            let day = tx.date.day_number();
            let idx = bucket_index(sd, day, w, count);
            if idx == i {
                let add = tx.amount.abs_cents();
                crate::totals::upsert_add(&mut assoc, &tx.category, add);
                acc = acc + add;
            }
        }
        k = k + 1;
        proof {
            assert forall|c: Seq<char>|
                #[trigger] cat_in_bucket(post, gsd, gw, gcount, gi, c) == (cat_in_bucket(
                pre,
                gsd,
                gw,
                gcount,
                gi,
                c,
            ) || (contributes(records@[k - 1], gsd, gw, gcount, gi) && records@[k - 1].category@
                == c)) by {
                if cat_in_bucket(post, gsd, gw, gcount, gi, c) {
                    let j = choose|j: int|
                        0 <= j < post.len() && contributes(#[trigger] post[j], gsd, gw, gcount, gi)
                            && post[j].category@ == c;
                    if j < k - 1 {
                        assert(pre[j] == post[j]);
                        assert(cat_in_bucket(pre, gsd, gw, gcount, gi, c));
                    } else {
                        assert(post[j] == records@[k - 1]);
                    }
                }
                if cat_in_bucket(pre, gsd, gw, gcount, gi, c) {
                    let j = choose|j: int|
                        0 <= j < pre.len() && contributes(#[trigger] pre[j], gsd, gw, gcount, gi)
                            && pre[j].category@ == c;
                    assert(post[j] == pre[j]);
                    assert(cat_in_bucket(post, gsd, gw, gcount, gi, c));
                }
                if contributes(records@[k - 1], gsd, gw, gcount, gi) && records@[k - 1].category@
                    == c {
                    assert(post[k - 1] == records@[k - 1]);
                    assert(cat_in_bucket(post, gsd, gw, gcount, gi, c));
                }
            }
        }
    }
    proof {
        assert(records@.subrange(0, n as int) =~= records@);
    }
    (assoc, acc)
}

/// Accumulates the snapshot-wide per-category totals and the grand total.
fn global_assoc(records: &Vec<Transaction>) -> (r: (Vec<CategoryTotal>, u64))
    requires
        records@.len() <= 1_000_000,
        all_valid(records@),
    ensures
        distinct_keys(r.0@),
        pair_sum(r.0@) == r.1,
        r.1 == expense_total(records@),
        forall|c: Seq<char>| #[trigger] val_of(r.0@, c) == cat_total_sum(records@, c),
        forall|c: Seq<char>| #[trigger] has_key(r.0@, c) == cat_present(records@, c),
        r.0@.len() <= records@.len(),
{
    let mut assoc: Vec<CategoryTotal> = Vec::new();
    let mut acc: u64 = 0;
    let mut k: usize = 0;
    let n = records.len();
    proof {
        assert(records@.subrange(0, 0) =~= Seq::<Transaction>::empty());
    }
    while k < n
        invariant
            0 <= k <= n,
            n == records@.len() <= 1_000_000,
            all_valid(records@),
            distinct_keys(assoc@),
            acc == expense_total(records@.subrange(0, k as int)),
            pair_sum(assoc@) == acc,
            forall|c: Seq<char>|
                #[trigger] val_of(assoc@, c) == cat_total_sum(records@.subrange(0, k as int), c),
            forall|c: Seq<char>|
                #[trigger] has_key(assoc@, c) == cat_present(records@.subrange(0, k as int), c),
            assoc@.len() <= k,
        decreases n - k,
    {
        let ghost pre = records@.subrange(0, k as int);
        let ghost post = records@.subrange(0, k + 1);
        proof {
            assert(post.drop_last() =~= pre);
            assert(post.last() == records@[k as int]);
            lemma_expense_total_bound(pre);
            assert(pre.len() * AMOUNT_LIMIT_CENTS <= 1_000_000 * AMOUNT_LIMIT_CENTS) by (nonlinear_arith)
                requires
                    0 <= pre.len() <= 1_000_000,
            ;
            assert(records@[k as int].valid());
        }
        let tx = &records[k];
        let is_expense = match tx.transaction_type {
            TransactionType::Expense => true,
            TransactionType::Income => false,
        };
        if is_expense {
            let add = tx.amount.abs_cents();
            crate::totals::upsert_add(&mut assoc, &tx.category, add);
            acc = acc + add;
        }
        k = k + 1;
        proof {
            assert forall|c: Seq<char>|
                #[trigger] cat_present(post, c) == (cat_present(pre, c) || (records@[
                k - 1
            ].transaction_type is Expense && records@[k - 1].category@ == c)) by {
                if cat_present(post, c) {
                    let j = choose|j: int|
                        0 <= j < post.len() && (#[trigger] post[j]).transaction_type is Expense
                            && post[j].category@ == c;
                    if j < k - 1 {
                        assert(pre[j] == post[j]);
                        assert(cat_present(pre, c));
                    } else {
                        assert(post[j] == records@[k - 1]);
                    }
                }
                if cat_present(pre, c) {
                    let j = choose|j: int|
                        0 <= j < pre.len() && (#[trigger] pre[j]).transaction_type is Expense
                            && pre[j].category@ == c;
                    assert(post[j] == pre[j]);
                    assert(cat_present(post, c));
                }
                if records@[k - 1].transaction_type is Expense && records@[k - 1].category@ == c {
                    assert(post[k - 1] == records@[k - 1]);
                    assert(cat_present(post, c));
                }
            }
        }
    }
    proof {
        assert(records@.subrange(0, n as int) =~= records@);
    }
    (assoc, acc)
}

/// A time bucket of the report: its date span and its per-category totals,
/// descending by amount.
#[derive(Debug, Clone)]
pub struct Bucket {
    pub start: Date,
    pub end: Date,
    pub totals: Vec<CategoryTotal>,
    pub total: u64,
}

/// The palette slot a category is drawn with.
#[derive(Debug, Clone)]
pub struct CategoryColor {
    pub category: String,
    pub color: u32,
}

/// The number of distinct colors cycled through.
pub const PALETTE_SIZE: u32 = 11;

/// The finished report: buckets, snapshot-wide category totals, a stable
/// color for every category, and the grand total.
#[derive(Debug, Clone)]
pub struct ReportData {
    pub buckets: Vec<Bucket>,
    pub category_totals: Vec<CategoryTotal>,
    pub category_colors: Vec<CategoryColor>,
    pub total_spend: u64,
}

proof fn lemma_bucket_count_bounds(td: int, w: int)
    requires
        td >= 1,
        w >= 1,
    ensures
        1 <= bucket_count_spec(td, w) <= td,
        (bucket_count_spec(td, w) - 1) * w < td,
{
    let x = td + w - 1;
    let q = x / w;
    let r = x % w;
    vstd::arithmetic::div_mod::lemma_fundamental_div_mod(x, w);
    vstd::arithmetic::div_mod::lemma_mod_bound(x, w);
    assert(q >= 1) by (nonlinear_arith)
        requires
            x == w * q + r,
            0 <= r < w,
            x >= w,
    ;
    assert((q - 1) * w < td) by (nonlinear_arith)
        requires
            x == w * q + r,
            0 <= r,
            x == td + w - 1,
    ;
    assert(q <= td) by (nonlinear_arith)
        requires
            x == w * q + r,
            0 <= r < w,
            td >= 1,
            w >= 1,
            x == td + w - 1,
    ;
}

/// Sorts an association list by descending total, carrying its reading as
/// the ghost functions `m` (value per key) and `p` (key presence).
fn sort_assoc(
    assoc: Vec<CategoryTotal>,
    Ghost(m): Ghost<spec_fn(Seq<char>) -> int>,
    Ghost(p): Ghost<spec_fn(Seq<char>) -> bool>,
) -> (r: Vec<CategoryTotal>)
    requires
        distinct_keys(assoc@),
        forall|c: Seq<char>| #[trigger] val_of(assoc@, c) == m(c),
        forall|c: Seq<char>| #[trigger] has_key(assoc@, c) == p(c),
    ensures
        sorted_by(r@, by_total_desc()),
        pair_sum(r@) == pair_sum(assoc@),
        r@.len() == assoc@.len(),
        forall|k: int| 0 <= k < r@.len() ==> (#[trigger] r@[k]).total == m(r@[k].category@),
        forall|c: Seq<char>| #[trigger] has_key(r@, c) == p(c),
{
    let ghost orig = assoc@;
    let r = crate::totals::sort_totals_desc(assoc);
    proof {
        crate::totals::lemma_pair_sum_multiset(orig, r@);
        assert forall|k: int| 0 <= k < r@.len() implies (#[trigger] r@[k]).total == m(
            r@[k].category@,
        ) by {
            crate::totals::lemma_multiset_entries(orig, r@, k);
            let i = choose|i: int| 0 <= i < orig.len() && orig[i] == r@[k];
            crate::totals::lemma_val_of_at(orig, i);
        }
        assert forall|c: Seq<char>| #[trigger] has_key(r@, c) == p(c) by {
            if has_key(r@, c) {
                let k = choose|k: int| 0 <= k < r@.len() && #[trigger] r@[k].category@ == c;
                crate::totals::lemma_multiset_entries(orig, r@, k);
                let i = choose|i: int| 0 <= i < orig.len() && orig[i] == r@[k];
                assert(has_key(orig, c)) by {
                    assert(orig[i].category@ == c);
                }
            }
            if p(c) {
                assert(has_key(orig, c));
                let i = choose|i: int| 0 <= i < orig.len() && #[trigger] orig[i].category@ == c;
                crate::totals::lemma_multiset_entries(r@, orig, i);
                let k = choose|k: int| 0 <= k < r@.len() && r@[k] == orig[i];
                assert(has_key(r@, c)) by {
                    assert(r@[k].category@ == c);
                }
            }
        }
    }
    r
}

/// How many entries carry a category name strictly below `c`: the rank that
/// decides `c`'s palette slot.
pub open spec fn count_keys_lt(s: Seq<CategoryTotal>, c: Seq<char>) -> int
    decreases s.len(),
{
    if s.len() == 0 {
        0
    } else {
        count_keys_lt(s.drop_last(), c) + (if lex_lt(s.last().category@, c) {
            1int
        } else {
            0int
        })
    }
}

proof fn lemma_count_keys_lt_bound(s: Seq<CategoryTotal>, c: Seq<char>)
    ensures
        0 <= count_keys_lt(s, c) <= s.len(),
    decreases s.len(),
{
    if s.len() > 0 {
        lemma_count_keys_lt_bound(s.drop_last(), c);
    }
}

/// Gives every category its palette slot: its alphabetical rank among the
/// listed categories, modulo the palette size.
pub fn assign_colors(cats: &Vec<CategoryTotal>) -> (r: Vec<CategoryColor>)
    requires
        cats@.len() <= 1_000_000,
    ensures
        r@.len() == cats@.len(),
        forall|k: int|
            0 <= k < r@.len() ==> (#[trigger] r@[k]).category@ == cats@[k].category@ && r@[
                k
            ].color == count_keys_lt(cats@, cats@[k].category@) % (PALETTE_SIZE as int),
{
    let n = cats.len();
    let mut out: Vec<CategoryColor> = Vec::new();
    let mut k: usize = 0;
    while k < n
        invariant
            0 <= k <= n,
            n == cats@.len() <= 1_000_000,
            out@.len() == k,
            forall|j: int|
                0 <= j < k ==> (#[trigger] out@[j]).category@ == cats@[j].category@ && out@[
                    j
                ].color == count_keys_lt(cats@, cats@[j].category@) % (PALETTE_SIZE as int),
        decreases n - k,
    {
        let mut rank: u32 = 0;
        let mut j: usize = 0;
        while j < n
            invariant
                0 <= j <= n,
                n == cats@.len() <= 1_000_000,
                0 <= k < n,
                rank == count_keys_lt(cats@.subrange(0, j as int), cats@[k as int].category@),
                rank <= j,
            decreases n - j,
        {
            proof {
                lemma_count_keys_lt_bound(
                    cats@.subrange(0, j as int),
                    cats@[k as int].category@,
                );
                assert(cats@.subrange(0, j + 1).drop_last() =~= cats@.subrange(0, j as int));
                assert(cats@.subrange(0, j + 1).last() == cats@[j as int]);
            }
            if crate::text::str_lt(cats[j].category.as_str(), cats[k].category.as_str()) {
                rank = rank + 1;
            }
            j = j + 1;
        }
        proof {
            assert(cats@.subrange(0, n as int) =~= cats@);
        }
        out.push(CategoryColor { category: cats[k].category.clone(), color: rank % PALETTE_SIZE });
        k = k + 1;
    }
    out
}

/// Everything `build_report` promises of one bucket.
pub open spec fn bucket_ok(
    b: Bucket,
    records: Seq<Transaction>,
    sd: int,
    ed: int,
    w: int,
    count: int,
    i: int,
) -> bool {
    &&& b.start.valid() && day_number(b.start) == sd + i * w
    &&& b.end.valid() && day_number(b.end) == vstd::math::min(sd + i * w + w - 1, ed)
    &&& b.total == bucket_total_sum(records, sd, w, count, i)
    &&& pair_sum(b.totals@) == b.total
    &&& sorted_by(b.totals@, by_total_desc())
    &&& forall|k: int|
        0 <= k < b.totals@.len() ==> (#[trigger] b.totals@[k]).total == cat_bucket_sum(
            records,
            sd,
            w,
            count,
            i,
            b.totals@[k].category@,
        )
    &&& forall|c: Seq<char>|
        #[trigger] has_key(b.totals@, c) == cat_in_bucket(records, sd, w, count, i, c)
}

/// Everything `build_report` promises of a report.
pub open spec fn report_ok(
    r: ReportData,
    records: Seq<Transaction>,
    start: Date,
    end: Date,
    w: int,
) -> bool {
    let sd = day_number(start);
    let ed = day_number(end);
    let count = bucket_count_spec(ed - sd + 1, w);
    &&& r.buckets@.len() == count
    &&& forall|i: int| 0 <= i < count ==> bucket_ok(#[trigger] r.buckets@[i], records, sd, ed, w, count, i)
    &&& r.total_spend == expense_total(records)
    &&& pair_sum(r.category_totals@) == expense_total(records)
    &&& sorted_by(r.category_totals@, by_total_desc())
    &&& forall|k: int|
        0 <= k < r.category_totals@.len() ==> (#[trigger] r.category_totals@[k]).total
            == cat_total_sum(records, r.category_totals@[k].category@)
    &&& forall|c: Seq<char>| #[trigger] has_key(r.category_totals@, c) == cat_present(records, c)
    &&& r.category_colors@.len() == r.category_totals@.len()
    &&& forall|k: int|
        0 <= k < r.category_colors@.len() ==> (#[trigger] r.category_colors@[k]).category@
            == r.category_totals@[k].category@ && r.category_colors@[k].color == count_keys_lt(
            r.category_totals@,
            r.category_colors@[k].category@,
        ) % (PALETTE_SIZE as int)
}

/// Builds the full report for a closed date range and a bucket width.
pub fn build_report(records: &Vec<Transaction>, start: Date, end: Date, bucket_days: u32) -> (r:
    ReportData)
    requires
        start.valid(),
        end.valid(),
        date_le(start, end),
        bucket_days >= 1,
        records@.len() <= 1_000_000,
        all_valid(records@),
    ensures
        report_ok(r, records@, start, end, bucket_days as int),
{
    let sd = start.day_number();
    let ed = end.day_number();
    proof {
        crate::date::lemma_day_number_in_range(start);
        crate::date::lemma_day_number_in_range(end);
    }
    let td = ed - sd + 1;
    let w = bucket_days;
    proof {
        lemma_bucket_count_bounds(td as int, w as int);
    }
    let count = (((td as u64) + (w as u64) - 1) / (w as u64)) as u32;
    let ghost gcount = bucket_count_spec(td as int, w as int);
    proof {
        assert(count == gcount);
    }
    let mut buckets: Vec<Bucket> = Vec::new();
    let mut i: u32 = 0;
    while i < count
        invariant
            0 <= i <= count,
            count == gcount,
            gcount == bucket_count_spec(ed - sd + 1, w as int),
            1 <= gcount <= td,
            td == ed - sd + 1,
            1 <= td,
            (gcount - 1) * (w as int) < td,
            sd == day_number(start),
            ed == day_number(end),
            ed <= crate::date::max_day_number() < 3_660_000,
            w >= 1,
            records@.len() <= 1_000_000,
            all_valid(records@),
            buckets@.len() == i,
            forall|j: int|
                0 <= j < i ==> bucket_ok(
                    #[trigger] buckets@[j],
                    records@,
                    sd as int,
                    ed as int,
                    w as int,
                    gcount,
                    j,
                ),
        decreases count - i,
    {
        let (assoc, total) = bucket_assoc(records, sd, w, count, i);
        let sorted = sort_assoc(
            assoc,
            Ghost(
                |c: Seq<char>|
                    cat_bucket_sum(records@, sd as int, w as int, gcount, i as int, c),
            ),
            Ghost(|c: Seq<char>| cat_in_bucket(records@, sd as int, w as int, gcount, i as int, c)),
        );
        proof {
            assert((i as int) * (w as int) <= (gcount - 1) * (w as int)) by (nonlinear_arith)
                requires
                    0 <= i as int <= gcount - 1,
                    w as int >= 1,
            ;
        }
        let bs64: u64 = (sd as u64) + (i as u64) * (w as u64);
        let be64: u64 = if bs64 + (w as u64) - 1 < (ed as u64) {
            bs64 + (w as u64) - 1
        } else {
            ed as u64
        };
        let bstart = crate::date::date_from_day_number(bs64 as u32);
        let bend = crate::date::date_from_day_number(be64 as u32);
        buckets.push(Bucket { start: bstart, end: bend, totals: sorted, total });
        i = i + 1;
    }
    let (gassoc, grand) = global_assoc(records);
    let cat_sorted = sort_assoc(
        gassoc,
        Ghost(|c: Seq<char>| cat_total_sum(records@, c)),
        Ghost(|c: Seq<char>| cat_present(records@, c)),
    );
    let colors = assign_colors(&cat_sorted);
    ReportData {
        buckets,
        category_totals: cat_sorted,
        category_colors: colors,
        total_spend: grand,
    }
}

/// Running sum of the first `lim` buckets' totals.
pub open spec fn buckets_sum(
    records: Seq<Transaction>,
    sd: int,
    w: int,
    count: int,
    lim: int,
) -> int
    decreases lim,
{
    if lim <= 0 {
        0
    } else {
        buckets_sum(records, sd, w, count, lim - 1) + bucket_total_sum(
            records,
            sd,
            w,
            count,
            lim - 1,
        )
    }
}

proof fn lemma_buckets_sum_empty(sd: int, w: int, count: int, lim: int)
    ensures
        buckets_sum(Seq::<Transaction>::empty(), sd, w, count, lim) == 0,
    decreases lim,
{
    if lim > 0 {
        lemma_buckets_sum_empty(sd, w, count, lim - 1);
    }
}

proof fn lemma_buckets_sum_drop(records: Seq<Transaction>, sd: int, w: int, count: int, lim: int)
    requires
        records.len() > 0,
        w >= 1,
        count >= 1,
    ensures
        buckets_sum(records, sd, w, count, lim) == buckets_sum(records.drop_last(), sd, w, count, lim)
            + (if records.last().transaction_type is Expense && bucket_index_spec(
            sd,
            day_number(records.last().date),
            w,
            count,
        ) < lim {
            abs_cents_spec(records.last().amount)
        } else {
            0int
        }),
    decreases lim,
{
    lemma_bucket_index_in_range(sd, day_number(records.last().date), w, count);
    if lim > 0 {
        lemma_buckets_sum_drop(records, sd, w, count, lim - 1);
    }
}

/// The clamped bucket index always lands inside the report.
proof fn lemma_bucket_index_in_range(sd: int, day: int, w: int, count: int)
    requires
        w >= 1,
        count >= 1,
    ensures
        0 <= bucket_index_spec(sd, day, w, count) < count,
{
    if day >= sd {
        vstd::arithmetic::div_mod::lemma_div_pos_is_pos(day - sd, w);
    }
}

/// Law: the bucket totals of a report partition its expense total — summing
/// every bucket gives exactly the summed absolute amounts of the expense
/// records handed to the aggregation, no cents gained or lost. Fed with the
/// records of the closed date range, as `prepare_report` feeds it, this is
/// the statement that bucketing loses no in-range expense.
pub proof fn lemma_bucket_totals_partition(
    records: Seq<Transaction>,
    sd: int,
    w: int,
    count: int,
)
    requires
        w >= 1,
        count >= 1,
    ensures
        buckets_sum(records, sd, w, count, count) == expense_total(records),
    decreases records.len(),
{
    if records.len() == 0 {
        assert(records =~= Seq::<Transaction>::empty());
        lemma_buckets_sum_empty(sd, w, count, count);
    } else {
        lemma_bucket_totals_partition(records.drop_last(), sd, w, count);
        lemma_buckets_sum_drop(records, sd, w, count, count);
        lemma_bucket_index_in_range(sd, day_number(records.last().date), w, count);
        assert(expense_total(records) == expense_total(records.drop_last()) + (
        if records.last().transaction_type is Expense {
            abs_cents_spec(records.last().amount)
        } else {
            0int
        }));
    }
}

/// Exactly the expense records dated within `[start, end]`, in their
/// original order.
pub open spec fn in_range_expenses_spec(
    records: Seq<Transaction>,
    start: Date,
    end: Date,
) -> Seq<Transaction>
    decreases records.len(),
{
    if records.len() == 0 {
        Seq::<Transaction>::empty()
    } else {
        let rest = in_range_expenses_spec(records.drop_last(), start, end);
        if records.last().transaction_type is Expense && date_le(start, records.last().date)
            && date_le(records.last().date, end) {
            rest.push(records.last())
        } else {
            rest
        }
    }
}

proof fn lemma_in_range_len(records: Seq<Transaction>, start: Date, end: Date)
    ensures
        in_range_expenses_spec(records, start, end).len() <= records.len(),
    decreases records.len(),
{
    if records.len() > 0 {
        lemma_in_range_len(records.drop_last(), start, end);
    }
}

/// Keeps only the expense records dated within the closed range.
pub fn expense_records_in_range(records: &Vec<Transaction>, start: Date, end: Date) -> (r: Vec<
    Transaction,
>)
    requires
        start.valid(),
        end.valid(),
        all_valid(records@),
    ensures
        r@ == in_range_expenses_spec(records@, start, end),
        all_valid(r@),
        r@.len() <= records@.len(),
{
    let mut out: Vec<Transaction> = Vec::new();
    let mut k: usize = 0;
    let n = records.len();
    proof {
        assert(records@.subrange(0, 0) =~= Seq::<Transaction>::empty());
    }
    while k < n
        invariant
            0 <= k <= n,
            n == records@.len(),
            start.valid(),
            end.valid(),
            all_valid(records@),
            out@ == in_range_expenses_spec(records@.subrange(0, k as int), start, end),
            out@.len() <= k,
            all_valid(out@),
        decreases n - k,
    {
        let ghost pre = records@.subrange(0, k as int);
        let ghost post = records@.subrange(0, k + 1);
        proof {
            assert(post.drop_last() =~= pre);
            assert(post.last() == records@[k as int]);
            assert(records@[k as int].valid());
        }
        let tx = &records[k];
        let is_expense = match tx.transaction_type {
            TransactionType::Expense => true,
            TransactionType::Income => false,
        };
        if is_expense && start.le(&tx.date) && tx.date.le(&end) {
            let copy = tx.duplicate();
            proof {
                assert(copy == records@[k as int]);
            }
            out.push(copy);
        }
        k = k + 1;
        proof {
            assert(all_valid(out@)) by {
                assert(forall|j: int|
                    0 <= j < out@.len() ==> (#[trigger] out@[j])
                        == in_range_expenses_spec(post, start, end)[j]);
            }
        }
    }
    proof {
        assert(records@.subrange(0, n as int) =~= records@);
    }
    out
}

/// The heading text of a report view.
pub open spec fn report_title_spec(start: Date, end: Date, w: int) -> Seq<char> {
    crate::date::dot_str(start) + " - "@ + crate::date::dot_str(end) + " ("@ + dec_str(w)
        + "-day buckets)"@
}

/// Renders the report heading: the range's ends and the bucket width.
pub fn report_title(start: Date, end: Date, bucket_days: u32) -> (r: String)
    requires
        start.valid(),
        end.valid(),
    ensures
        r@ == report_title_spec(start, end, bucket_days as int),
{
    let mut out = start.to_dotted_text();
    crate::text::append_str(&mut out, " - ");
    let end_text = end.to_dotted_text();
    crate::text::append_str(&mut out, end_text.as_str());
    crate::text::append_str(&mut out, " (");
    crate::text::append_dec(&mut out, bucket_days as u64);
    crate::text::append_str(&mut out, "-day buckets)");
    proof {
        assert(out@ =~= report_title_spec(start, end, bucket_days as int));
    }
    out
}

/// Validates the range, keeps the in-range expenses, picks the bucket
/// width, and builds the report; the returned width feeds the heading.
pub fn prepare_report(records: &Vec<Transaction>, start: Date, end: Date) -> (r: Result<
    (ReportData, u32),
    String,
>)
    requires
        start.valid(),
        end.valid(),
        records@.len() <= 1_000_000,
        all_valid(records@),
    ensures
        r is Ok <==> date_le(start, end),
        r matches Ok(p) ==> {
            let kept = in_range_expenses_spec(records@, start, end);
            &&& p.1 == auto_bucket_days_spec(day_number(end) - day_number(start) + 1)
            &&& report_ok(p.0, kept, start, end, p.1 as int)
        },
        r matches Err(e) ==> e@ == "Start date must be before end date."@,
{
    if !start.le(&end) {
        return Err(String::from_str("Start date must be before end date."));
    }
    let sd = start.day_number();
    let ed = end.day_number();
    proof {
        crate::date::lemma_day_number_in_range(start);
        crate::date::lemma_day_number_in_range(end);
    }
    let td = ed - sd + 1;
    let w = auto_bucket_days(td);
    let kept = expense_records_in_range(records, start, end);
    proof {
        lemma_in_range_len(records@, start, end);
    }
    let report = build_report(&kept, start, end, w);
    Ok((report, w))
}

} // verus!
