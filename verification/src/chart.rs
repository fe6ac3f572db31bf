//! The proportional renderer: integer bar heights by largest-remainder
//! apportionment, the painted bar grid, column labels, and pie spans.

use vstd::prelude::*;
use crate::totals::{pair_sum, CategoryTotal, lemma_entry_le_pair_sum, lemma_pair_sum_nonneg};

verus! {

/// One category's share of a bar column, in character rows.
#[derive(Debug, Clone)]
pub struct CategoryHeight {
    pub category: String,
    pub height: usize,
}

/// The whole rows a share covers exactly.
pub open spec fn floor_share(a: int, total: int, bar_height: int) -> int {
    (a * bar_height) / total
}

/// What a share leaves over below one row, scaled by the total.
pub open spec fn rem_share(a: int, total: int, bar_height: int) -> int {
    (a * bar_height) % total
}

pub open spec fn sum_heights(s: Seq<CategoryHeight>) -> int
    decreases s.len(),
{
    if s.len() == 0 {
        0
    } else {
        sum_heights(s.drop_last()) + s.last().height
    }
}

spec fn count_true(s: Seq<bool>) -> int
    decreases s.len(),
{
    if s.len() == 0 {
        0
    } else {
        count_true(s.drop_last()) + (if s.last() {
            1int
        } else {
            0int
        })
    }
}

proof fn lemma_count_true_all(s: Seq<bool>)
    requires
        forall|j: int| 0 <= j < s.len() ==> s[j],
    ensures
        count_true(s) == s.len(),
    decreases s.len(),
{
    if s.len() > 0 {
        assert(forall|j: int| 0 <= j < s.len() - 1 ==> #[trigger] s.drop_last()[j] == s[j]);
        lemma_count_true_all(s.drop_last());
    }
}

proof fn lemma_count_true_update(s: Seq<bool>, b: int)
    requires
        0 <= b < s.len(),
        !s[b],
    ensures
        count_true(s.update(b, true)) == count_true(s) + 1,
    decreases s.len(),
{
    let t = s.update(b, true);
    if b == s.len() - 1 {
        assert(t.drop_last() =~= s.drop_last());
        assert(t.last());
        assert(!s.last());
    } else {
        assert(t.drop_last() =~= s.drop_last().update(b, true));
        assert(t.last() == s.last());
        lemma_count_true_update(s.drop_last(), b);
    }
}

/// Apportions `bar_height` rows among the categories of one bucket by the
/// largest-remainder rule: every share gets its floored height, then the
/// leftover rows go one each to the largest fractional remainders, earlier
/// entries first on ties. With a positive total the heights sum to exactly
/// `bar_height`: no row is gained or lost to rounding.
pub fn compute_category_heights(totals: &Vec<CategoryTotal>, bucket_total: u64, bar_height: usize)
    -> (r: Vec<CategoryHeight>)
    requires
        pair_sum(totals@) == bucket_total,
    ensures
        r@.len() == totals@.len(),
        forall|k: int| 0 <= k < r@.len() ==> (#[trigger] r@[k]).category@ == totals@[k].category@,
        bucket_total == 0 ==> forall|k: int| 0 <= k < r@.len() ==> (#[trigger] r@[k]).height == 0,
        bucket_total > 0 ==> forall|k: int|
            0 <= k < r@.len() ==> floor_share(
                totals@[k].total as int,
                bucket_total as int,
                bar_height as int,
            ) <= (#[trigger] r@[k]).height <= floor_share(
                totals@[k].total as int,
                bucket_total as int,
                bar_height as int,
            ) + 1,
        bucket_total > 0 ==> sum_heights(r@) == bar_height,
        bucket_total > 0 ==> forall|j: int, l: int|
            0 <= j < r@.len() && 0 <= l < r@.len() && (#[trigger] r@[j]).height == floor_share(
                totals@[j].total as int,
                bucket_total as int,
                bar_height as int,
            ) + 1 && (#[trigger] r@[l]).height == floor_share(
                totals@[l].total as int,
                bucket_total as int,
                bar_height as int,
            ) ==> rem_share(totals@[j].total as int, bucket_total as int, bar_height as int)
                > rem_share(totals@[l].total as int, bucket_total as int, bar_height as int) || (
            rem_share(totals@[j].total as int, bucket_total as int, bar_height as int) == rem_share(
                totals@[l].total as int,
                bucket_total as int,
                bar_height as int,
            ) && j < l),
{
    let n = totals.len();
    let ghost gt = bucket_total as int;
    let ghost gh = bar_height as int;
    if bucket_total == 0 {
        let mut out: Vec<CategoryHeight> = Vec::new();
        let mut k: usize = 0;
        while k < n
            invariant
                0 <= k <= n,
                n == totals@.len(),
                out@.len() == k,
                forall|j: int|
                    0 <= j < k ==> (#[trigger] out@[j]).category@ == totals@[j].category@ && out@[
                        j
                    ].height == 0,
            decreases n - k,
        {
            out.push(CategoryHeight { category: totals[k].category.clone(), height: 0 });
            k = k + 1;
        }
        return out;
    }
    // first pass: floors and remainders
    let t128 = bucket_total as u128;
    let h128 = bar_height as u128;
    let mut floors: Vec<usize> = Vec::new();
    let mut rems: Vec<u128> = Vec::new();
    let mut used: u128 = 0;
    let ghost mut sumrem: int = 0;
    let mut k: usize = 0;
    proof {
        assert(totals@.subrange(0, 0) =~= Seq::<CategoryTotal>::empty());
    }
    while k < n
        invariant
            0 <= k <= n,
            n == totals@.len(),
            bucket_total > 0,
            t128 == bucket_total as int && h128 == bar_height as int,
            gt == bucket_total as int && gh == bar_height as int,
            pair_sum(totals@) == gt,
            floors@.len() == k && rems@.len() == k,
            forall|j: int|
                0 <= j < k ==> #[trigger] floors@[j] == floor_share(totals@[j].total as int, gt, gh)
                    && floors@[j] <= bar_height,
            forall|j: int|
                0 <= j < k ==> #[trigger] rems@[j] == rem_share(totals@[j].total as int, gt, gh)
                    && rems@[j] < gt,
            gt * used + sumrem == pair_sum(totals@.subrange(0, k as int)) * gh,
            0 <= sumrem <= k * (gt - 1),
            used <= gh,
            used == sum_usizes(floors@, k as int),
        decreases n - k,
    {
        let a = totals[k].total;
        proof {
            lemma_entry_le_pair_sum(totals@, k as int);
            assert(totals@.subrange(0, k + 1).drop_last() =~= totals@.subrange(0, k as int));
            assert(totals@.subrange(0, k + 1).last() == totals@[k as int]);
        }
        proof {
            assert((a as int) * (h128 as int)
                < 340_282_366_920_938_463_463_374_607_431_768_211_456int) by (nonlinear_arith)
                requires
                    0 <= (a as int) && (a as int) < 18_446_744_073_709_551_616int,
                    0 <= (h128 as int) && (h128 as int) < 18_446_744_073_709_551_616int,
            ;
        }
        let prod: u128 = (a as u128) * h128;
        let f: u128 = prod / t128;
        let rem: u128 = prod % t128;
        proof {
            vstd::arithmetic::div_mod::lemma_fundamental_div_mod(prod as int, gt);
            vstd::arithmetic::div_mod::lemma_mod_bound(prod as int, gt);
            assert(f <= h128) by (nonlinear_arith)
                requires
                    prod == (a as int) * (bar_height as int),
                    a as int <= gt,
                    gt > 0,
                    f == prod as int / gt,
                    h128 == bar_height as int,
            ;
            assert(gt * (used + f) + (sumrem + rem) == (pair_sum(totals@.subrange(0, k as int))
                + a) * gh) by (nonlinear_arith)
                requires
                    gt * used + sumrem == pair_sum(totals@.subrange(0, k as int)) * gh,
                    prod as int == gt * (f as int) + (rem as int),
                    prod == (a as int) * gh,
            ;
            assert((k + 1) * (gt - 1) == k * (gt - 1) + (gt - 1)) by (nonlinear_arith);
            crate::totals::lemma_pair_sum_prefix_le(totals@, k + 1);
            lemma_pair_sum_nonneg(totals@.subrange(0, k + 1));
            assert(used + f <= gh) by (nonlinear_arith)
                requires
                    gt * ((used + f) as int) + (sumrem + rem) == pair_sum(
                        totals@.subrange(0, k + 1),
                    ) * gh,
                    pair_sum(totals@.subrange(0, k + 1)) <= gt,
                    0 <= sumrem + rem,
                    gt > 0,
                    gh >= 0,
                    used + f >= 0,
            ;
        }
        let ghost floors_pre = floors@;
        floors.push(f as usize);
        rems.push(rem);
        used = used + f;
        proof {
            sumrem = sumrem + rem;
            lemma_sum_usizes_same_prefix(floors_pre, floors@, k as int);
        }
        k = k + 1;
    }
    proof {
        assert(totals@.subrange(0, n as int) =~= totals@);
    }
    // the leftover rows are exactly the summed remainders over the total
    proof {
        assert(used <= gh && gt * (gh - used) == sumrem) by (nonlinear_arith)
            requires
                gt * used + sumrem == gt * gh,
                0 <= sumrem,
                gt > 0,
                used >= 0,
        ;
        if n > 0 {
            assert(gh - used < n) by (nonlinear_arith)
                requires
                    gt * (gh - used) == sumrem,
                    sumrem <= n * (gt - 1),
                    gt > 0,
                    n > 0,
            ;
        } else {
            assert(pair_sum(totals@) == 0);
        }
    }
    let remaining: usize = bar_height - (used as usize);
    // second pass: hand the leftovers to the largest remainders
    let mut bumped: Vec<bool> = Vec::new();
    let mut k2: usize = 0;
    while k2 < n
        invariant
            0 <= k2 <= n,
            bumped@.len() == k2,
            forall|j: int| 0 <= j < k2 ==> !(#[trigger] bumped@[j]),
        decreases n - k2,
    {
        bumped.push(false);
        k2 = k2 + 1;
    }
    proof {
        lemma_count_true_none(bumped@);
    }
    let mut round: usize = 0;
    while round < remaining
        invariant
            0 <= round <= remaining,
            remaining < n,
            bumped@.len() == n,
            n == totals@.len(),
            rems@.len() == n,
            forall|j: int|
                0 <= j < n ==> #[trigger] rems@[j] == rem_share(totals@[j].total as int, gt, gh),
            gt == bucket_total as int && gh == bar_height as int,
            count_true(bumped@) == round,
            forall|j: int, l: int|
                0 <= j < n && 0 <= l < n && #[trigger] bumped@[j] && !(#[trigger] bumped@[l])
                    ==> rems@[j] > rems@[l] || (rems@[j] == rems@[l] && j < l),
        decreases remaining - round,
    {
        let mut best: usize = n;
        let mut j: usize = 0;
        while j < n
            invariant
                0 <= j <= n,
                bumped@.len() == n,
                rems@.len() == n,
                best == n || (best < j && !bumped@[best as int]),
                best == n ==> forall|l: int| 0 <= l < j ==> #[trigger] bumped@[l],
                best < n ==> forall|l: int|
                    0 <= l < j && !(#[trigger] bumped@[l]) ==> rems@[best as int] > rems@[l] || (
                    rems@[best as int] == rems@[l] && best <= l),
            decreases n - j,
        {
            if !bumped[j] {
                if best == n {
                    best = j;
                } else if rems[j] > rems[best] {
                    best = j;
                }
            }
            j = j + 1;
        }
        proof {
            if best == n {
                lemma_count_true_all(bumped@);
            }
        }
        let ghost pre_bumped = bumped@;
        bumped[best] = true;
        proof {
            lemma_count_true_update(pre_bumped, best as int);
        }
        round = round + 1;
    }
    // build the result
    let mut out: Vec<CategoryHeight> = Vec::new();
    let mut k3: usize = 0;
    let ghost final_bumped = bumped@;
    while k3 < n
        invariant
            0 <= k3 <= n,
            n == totals@.len(),
            floors@.len() == n && bumped@.len() == n,
            bumped@ == final_bumped,
            forall|j: int|
                0 <= j < n ==> #[trigger] floors@[j] == floor_share(totals@[j].total as int, gt, gh)
                    && floors@[j] <= bar_height,
            gt == bucket_total as int && gh == bar_height as int,
            count_true(final_bumped) == remaining,
            used == sum_usizes(floors@, n as int),
            used + remaining == gh,
            out@.len() == k3,
            forall|j: int|
                0 <= j < k3 ==> (#[trigger] out@[j]).category@ == totals@[j].category@ && out@[
                    j
                ].height == floors@[j] + (if final_bumped[j] {
                    1int
                } else {
                    0int
                }),
            sum_heights(out@) == sum_floors_bumped(floors@, final_bumped, k3 as int),
        decreases n - k3,
    {
        let h = if bumped[k3] {
            proof {
                lemma_count_true_at(final_bumped, k3 as int);
                lemma_usize_entry_le_sum(floors@, k3 as int, n as int);
            }
            floors[k3] + 1
        } else {
            floors[k3]
        };
        let ghost pre_out = out@;
        out.push(CategoryHeight { category: totals[k3].category.clone(), height: h });
        proof {
            assert(out@.drop_last() =~= pre_out);
            assert(out@.last().height == h);
        }
        k3 = k3 + 1;
    }
    proof {
        lemma_sum_floors_bumped(floors@, final_bumped, used as int, remaining as int, n as int);
        assert(sum_heights(out@) == used + remaining);
    }
    out
}

/// Sum of the first `lim` floors, plus one for each bumped entry.
spec fn sum_floors_bumped(floors: Seq<usize>, bumped: Seq<bool>, lim: int) -> int
    decreases lim,
{
    if lim <= 0 {
        0
    } else {
        sum_floors_bumped(floors, bumped, lim - 1) + floors[lim - 1] + (if bumped[lim - 1] {
            1int
        } else {
            0int
        })
    }
}

proof fn lemma_count_true_none(s: Seq<bool>)
    requires
        forall|j: int| 0 <= j < s.len() ==> !(#[trigger] s[j]),
    ensures
        count_true(s) == 0,
    decreases s.len(),
{
    if s.len() > 0 {
        assert(forall|j: int| 0 <= j < s.len() - 1 ==> #[trigger] s.drop_last()[j] == s[j]);
        lemma_count_true_none(s.drop_last());
    }
}

proof fn lemma_sum_floors_bumped(
    floors: Seq<usize>,
    bumped: Seq<bool>,
    used: int,
    remaining: int,
    n: int,
)
    requires
        floors.len() == n,
        bumped.len() == n,
        sum_usizes(floors, n) == used,
        count_true(bumped) == remaining,
    ensures
        sum_floors_bumped(floors, bumped, n) == used + remaining,
{
    lemma_sum_floors_bumped_split(floors, bumped, n);
    assert(bumped.subrange(0, n) =~= bumped);
}

proof fn lemma_usize_entry_le_sum(s: Seq<usize>, j: int, lim: int)
    requires
        0 <= j < lim <= s.len(),
    ensures
        s[j] <= sum_usizes(s, lim),
    decreases lim,
{
    if j == lim - 1 {
        lemma_sum_usizes_nonneg(s, lim - 1);
    } else {
        lemma_usize_entry_le_sum(s, j, lim - 1);
    }
}

proof fn lemma_sum_usizes_same_prefix(a: Seq<usize>, b: Seq<usize>, lim: int)
    requires
        0 <= lim <= a.len(),
        lim <= b.len(),
        forall|j: int| 0 <= j < lim ==> a[j] == b[j],
    ensures
        sum_usizes(a, lim) == sum_usizes(b, lim),
    decreases lim,
{
    if lim > 0 {
        lemma_sum_usizes_same_prefix(a, b, lim - 1);
    }
}

proof fn lemma_sum_usizes_nonneg(s: Seq<usize>, lim: int)
    requires
        lim <= s.len(),
    ensures
        sum_usizes(s, lim) >= 0,
    decreases lim,
{
    if lim > 0 {
        lemma_sum_usizes_nonneg(s, lim - 1);
    }
}

proof fn lemma_count_true_at(s: Seq<bool>, j: int)
    requires
        0 <= j < s.len(),
        s[j],
    ensures
        count_true(s) >= 1,
    decreases s.len(),
{
    lemma_count_true_nonneg(s.drop_last());
    if j < s.len() - 1 {
        assert(s.drop_last()[j] == s[j]);
        lemma_count_true_at(s.drop_last(), j);
    }
}

proof fn lemma_count_true_nonneg(s: Seq<bool>)
    ensures
        count_true(s) >= 0,
    decreases s.len(),
{
    if s.len() > 0 {
        lemma_count_true_nonneg(s.drop_last());
    }
}

spec fn sum_usizes(s: Seq<usize>, lim: int) -> int
    decreases lim,
{
    if lim <= 0 {
        0
    } else {
        sum_usizes(s, lim - 1) + s[lim - 1]
    }
}

proof fn lemma_sum_floors_bumped_split(floors: Seq<usize>, bumped: Seq<bool>, lim: int)
    requires
        floors.len() == bumped.len(),
        lim <= floors.len(),
    ensures
        sum_floors_bumped(floors, bumped, lim) == sum_usizes(floors, lim) + count_true(
            bumped.subrange(0, if lim >= 0 { lim } else { 0 }),
        ),
    decreases lim,
{
    if lim > 0 {
        lemma_sum_floors_bumped_split(floors, bumped, lim - 1);
        assert(bumped.subrange(0, lim).drop_last() =~= bumped.subrange(0, lim - 1));
        assert(bumped.subrange(0, lim).last() == bumped[lim - 1]);
    } else {
        assert(bumped.subrange(0, 0) =~= Seq::<bool>::empty());
    }
}

/// Width in cells of one bar column: an equal share of the chart, at
/// least one cell.
pub open spec fn cell_width_spec(chart_width: int, bucket_count: int) -> int {
    let w = chart_width / bucket_count;
    if w < 1 {
        1
    } else {
        w
    }
}

pub fn bucket_cell_width(chart_width: usize, bucket_count: usize) -> (r: usize)
    requires
        bucket_count >= 1,
    ensures
        r == cell_width_spec(chart_width as int, bucket_count as int),
        r >= 1,
{
    let w = chart_width / bucket_count;
    if w < 1 {
        1
    } else {
        w
    }
}

/// The rows a bar reaches when the tallest bucket spans the full height:
/// its total scaled against the maximum, rounded up.
pub open spec fn scaled_height_spec(total: int, max_total: int, bar_height: int) -> int {
    (total * bar_height + max_total - 1) / max_total
}

pub fn scaled_bar_height(total: u64, max_total: u64, bar_height: usize) -> (r: usize)
    requires
        max_total >= 1,
        total <= max_total,
    ensures
        r == scaled_height_spec(total as int, max_total as int, bar_height as int),
        r <= bar_height,
{
    proof {
        assert((total as int) * (bar_height as int)
            <= 340_282_366_920_938_463_426_481_119_284_349_108_225int) by (nonlinear_arith)
            requires
                0 <= (total as int) && (total as int) <= 18_446_744_073_709_551_615int,
                0 <= (bar_height as int) && (bar_height as int) <= 18_446_744_073_709_551_615int,
        ;
    }
    let prod: u128 = (total as u128) * (bar_height as u128);
    let num: u128 = prod + (max_total as u128) - 1;
    let r128: u128 = num / (max_total as u128);
    proof {
        vstd::arithmetic::div_mod::lemma_fundamental_div_mod(num as int, max_total as int);
        vstd::arithmetic::div_mod::lemma_mod_bound(num as int, max_total as int);
        assert(r128 <= bar_height as int) by (nonlinear_arith)
            requires
                num as int == (max_total as int) * (r128 as int) + (num as int) % (
                max_total as int),
                0 <= (num as int) % (max_total as int),
                num as int == (total as int) * (bar_height as int) + (max_total as int) - 1,
                total as int <= max_total as int,
                max_total as int >= 1,
                bar_height as int >= 0,
                r128 as int >= 0,
        ;
    }
    r128 as usize
}

/// The stacked entry whose cumulative height first reaches `level` rows
/// (counted from the bottom of the column).
pub open spec fn covering_spec(s: Seq<CategoryHeight>, level: int) -> Option<int>
    decreases s.len(),
{
    if s.len() == 0 {
        Option::<int>::None
    } else if level <= s[0].height {
        Some(0)
    } else {
        match covering_spec(s.drop_first(), level - s[0].height) {
            Some(i) => Some(i + 1),
            None => Option::<int>::None,
        }
    }
}

/// Finds which category's stacked span covers a row of the column.
pub fn covering_category(heights: &Vec<CategoryHeight>, level: usize) -> (r: Option<usize>)
    requires
        level >= 1,
    ensures
        match r {
            Some(i) => covering_spec(heights@, level as int) == Some(i as int) && i
                < heights@.len(),
            None => covering_spec(heights@, level as int) is None,
        },
{
    let n = heights.len();
    let mut cum: usize = 0;
    let mut k: usize = 0;
    proof {
        assert(heights@.subrange(0, n as int) =~= heights@);
    }
    while k < n
        invariant
            0 <= k <= n,
            n == heights@.len(),
            level >= 1,
            cum < level,
            covering_spec(heights@, level as int) == (match covering_spec(
                heights@.subrange(k as int, n as int),
                level - cum,
            ) {
                Some(i) => Some(i + k),
                None => Option::<int>::None,
            }),
        decreases n - k,
    {
        let h = heights[k].height;
        proof {
            let tail = heights@.subrange(k as int, n as int);
            assert(tail[0] == heights@[k as int]);
            assert(tail.drop_first() =~= heights@.subrange(k + 1, n as int));
        }
        if level - cum <= h {
            return Some(k);
        }
        if cum + h >= level {
            proof {
                assert(false);
            }
        }
        cum = cum + h;
        k = k + 1;
    }
    proof {
        assert(heights@.subrange(n as int, n as int) =~= Seq::<CategoryHeight>::empty());
    }
    None
}

/// The color recorded for a category, if any: the first matching entry's.
pub open spec fn color_val(s: Seq<crate::report::CategoryColor>, c: Seq<char>) -> Option<int>
    decreases s.len(),
{
    if s.len() == 0 {
        Option::<int>::None
    } else if s[0].category@ == c {
        Some(s[0].color as int)
    } else {
        color_val(s.drop_first(), c)
    }
}

/// Looks a category's color up in the report's color table.
pub fn lookup_color(colors: &Vec<crate::report::CategoryColor>, category: &String) -> (r: Option<
    u32,
>)
    ensures
        match r {
            Some(v) => color_val(colors@, category@) == Some(v as int),
            None => color_val(colors@, category@) is None,
        },
{
    let n = colors.len();
    let mut k: usize = 0;
    proof {
        assert(colors@.subrange(0, n as int) =~= colors@);
    }
    while k < n
        invariant
            0 <= k <= n,
            n == colors@.len(),
            color_val(colors@, category@) == color_val(
                colors@.subrange(k as int, n as int),
                category@,
            ),
        decreases n - k,
    {
        proof {
            let tail = colors@.subrange(k as int, n as int);
            assert(tail[0] == colors@[k as int]);
            assert(tail.drop_first() =~= colors@.subrange(k + 1, n as int));
        }
        if colors[k].category.eq(category) {
            return Some(colors[k].color);
        }
        k = k + 1;
    }
    proof {
        assert(colors@.subrange(n as int, n as int) =~= Seq::<crate::report::CategoryColor>::empty());
    }
    None
}

/// One bucket's column label: its start date as `MM-DD`, cut and padded to
/// the column width.
pub open spec fn label_cell_spec(b: crate::report::Bucket, w: int) -> Seq<char> {
    let label = crate::date::month_day_str(b.start);
    let cut = if label.len() > w {
        label.subrange(0, w)
    } else {
        label
    };
    cut + Seq::new((w - cut.len()) as nat, |i: int| ' ')
}

/// The label row under the chart: one cell per bucket, in order.
pub open spec fn labels_row_spec(buckets: Seq<crate::report::Bucket>, w: int) -> Seq<char>
    decreases buckets.len(),
{
    if buckets.len() == 0 {
        Seq::<char>::empty()
    } else {
        labels_row_spec(buckets.drop_last(), w) + label_cell_spec(buckets.last(), w)
    }
}

/// Builds the label row under the bar chart. Below four cells per column
/// the labels would be cut to nothing useful, so the row is left blank.
pub fn bucket_labels_row(report: &crate::report::ReportData, chart_width: usize, cell_width: usize)
    -> (r: String)
    requires
        cell_width >= 1,
        forall|i: int|
            0 <= i < report.buckets@.len() ==> (#[trigger] report.buckets@[i]).start.valid(),
    ensures
        cell_width < 4 ==> r@ == Seq::new(chart_width as nat, |i: int| ' '),
        cell_width >= 4 ==> r@ == labels_row_spec(report.buckets@, cell_width as int),
{
    let mut out = String::new();
    if cell_width < 4 {
        let mut i: usize = 0;
        while i < chart_width
            invariant
                0 <= i <= chart_width,
                out@ =~= Seq::new(i as nat, |j: int| ' '),
            decreases chart_width - i,
        {
            crate::text::push_char(&mut out, ' ');
            i = i + 1;
            proof {
                assert(out@ =~= Seq::new(i as nat, |j: int| ' '));
            }
        }
        proof {
            assert(out@ =~= Seq::new(chart_width as nat, |j: int| ' '));
        }
        return out;
    }
    let n = report.buckets.len();
    let mut k: usize = 0;
    while k < n
        invariant
            0 <= k <= n,
            n == report.buckets@.len(),
            cell_width >= 4,
            forall|i: int|
                0 <= i < report.buckets@.len() ==> (#[trigger] report.buckets@[i]).start.valid(),
            out@ == labels_row_spec(report.buckets@.subrange(0, k as int), cell_width as int),
        decreases n - k,
    {
        proof {
            assert(report.buckets@.subrange(0, k + 1).drop_last() =~= report.buckets@.subrange(
                0,
                k as int,
            ));
            assert(report.buckets@.subrange(0, k + 1).last() == report.buckets@[k as int]);
        }
        let label = report.buckets[k].start.to_month_day_text();
        let label_len = label.as_str().unicode_len();
        let cut = if label_len > cell_width {
            let t = label.as_str().substring_char(0, cell_width);
            t.to_owned()
        } else {
            label
        };
        crate::text::append_str(&mut out, cut.as_str());
        let cut_len = cut.as_str().unicode_len();
        let mut p: usize = cut_len;
        while p < cell_width
            invariant
                cut_len <= p <= cell_width || (cut_len > cell_width && p == cut_len),
                cut_len == cut@.len(),
                out@ =~= labels_row_spec(
                    report.buckets@.subrange(0, k as int),
                    cell_width as int,
                ) + cut@ + Seq::new((p - cut_len) as nat, |j: int| ' '),
            decreases cell_width - p,
        {
            crate::text::push_char(&mut out, ' ');
            p = p + 1;
            proof {
                assert(out@ =~= labels_row_spec(
                    report.buckets@.subrange(0, k as int),
                    cell_width as int,
                ) + cut@ + Seq::new((p - cut_len) as nat, |j: int| ' '));
            }
        }
        k = k + 1;
        proof {
            assert(out@ =~= labels_row_spec(
                report.buckets@.subrange(0, k as int),
                cell_width as int,
            ));
        }
    }
    proof {
        assert(report.buckets@.subrange(0, n as int) =~= report.buckets@);
    }
    out
}

/// One pie slice: the category's span as cumulative amounts out of the
/// grand total; the host maps it to angles.
#[derive(Debug, Clone)]
pub struct PieSlice {
    pub category: String,
    pub cum_start: u64,
    pub cum_end: u64,
}

/// Assigns every category a contiguous span proportional to its share,
/// accumulating from zero in the listed (descending-total) order.
pub fn pie_slices(cats: &Vec<CategoryTotal>, grand_total: u64) -> (r: Vec<PieSlice>)
    requires
        pair_sum(cats@) == grand_total,
    ensures
        r@.len() == cats@.len(),
        forall|k: int|
            0 <= k < r@.len() ==> {
                &&& (#[trigger] r@[k]).category@ == cats@[k].category@
                &&& r@[k].cum_start == pair_sum(cats@.subrange(0, k))
                &&& r@[k].cum_end == pair_sum(cats@.subrange(0, k + 1))
                &&& r@[k].cum_end <= grand_total
            },
{
    let n = cats.len();
    let mut out: Vec<PieSlice> = Vec::new();
    let mut cum: u64 = 0;
    let mut k: usize = 0;
    proof {
        assert(cats@.subrange(0, 0) =~= Seq::<CategoryTotal>::empty());
    }
    while k < n
        invariant
            0 <= k <= n,
            n == cats@.len(),
            pair_sum(cats@) == grand_total,
            cum == pair_sum(cats@.subrange(0, k as int)),
            cum <= grand_total,
            out@.len() == k,
            forall|j: int|
                0 <= j < k ==> {
                    &&& (#[trigger] out@[j]).category@ == cats@[j].category@
                    &&& out@[j].cum_start == pair_sum(cats@.subrange(0, j))
                    &&& out@[j].cum_end == pair_sum(cats@.subrange(0, j + 1))
                    &&& out@[j].cum_end <= grand_total
                },
        decreases n - k,
    {
        proof {
            assert(cats@.subrange(0, k + 1).drop_last() =~= cats@.subrange(0, k as int));
            assert(cats@.subrange(0, k + 1).last() == cats@[k as int]);
            crate::totals::lemma_pair_sum_prefix_le(cats@, k + 1);
        }
        let e = &cats[k];
        let end = cum + e.total;
        out.push(PieSlice { category: e.category.clone(), cum_start: cum, cum_end: end });
        cum = end;
        k = k + 1;
    }
    out
}

} // verus!
