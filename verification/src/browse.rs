//! The browse screen's state machine: filtering, sorting, selection,
//! paging, the details snapshot and the text-input modal, over one
//! immutable record snapshot.

use vstd::prelude::*;
use vstd::relations::{sorted_by, total_ordering};
use vstd::seq_lib::lemma_sorted_unique;
use crate::date::{day_number, iso_date_spec, iso_str, Date};
use crate::model::{all_valid, unique_ids, Transaction, TransactionType};
use crate::text::{
    lex_lt, lemma_lex_le_antisymmetric, lemma_lex_le_reflexive, lemma_lex_le_total,
    lemma_lex_le_transitive, lower_of, str_le, trim, trim_spec,
};

verus! {

/// Direction in which the browse screen orders its visible rows.
#[derive(Debug, Clone, Copy, PartialEq, Eq, Structural)]
pub enum SortOrder {
    DateDesc,
    DateAsc,
}

impl SortOrder {
    /// Flips the order, so that applying it twice restores the start value.
    pub fn toggle(self) -> (r: Self)
        ensures
            r == (match self {
                SortOrder::DateDesc => SortOrder::DateAsc,
                SortOrder::DateAsc => SortOrder::DateDesc,
            }),
    {
        match self {
            SortOrder::DateDesc => SortOrder::DateAsc,
            SortOrder::DateAsc => SortOrder::DateDesc,
        }
    }

    /// Short text shown in the browse header for this order.
    pub fn label(self) -> (r: &'static str)
        ensures
            self is DateDesc ==> r@ == "date \u{2193}"@,
            self is DateAsc ==> r@ == "date \u{2191}"@,
    {
        match self {
            SortOrder::DateDesc => "date \u{2193}",
            SortOrder::DateAsc => "date \u{2191}",
        }
    }
}

/// Which screen of the browse view is active.
#[derive(Debug, Clone, Copy, PartialEq, Eq, Structural)]
pub enum Mode {
    List,
    Details,
    Input(InputKind),
}

/// What the text-input modal is editing.
#[derive(Debug, Clone, Copy, PartialEq, Eq, Structural)]
pub enum InputKind {
    Category,
    DateRange,
}

/// Whether a record passes every active filter: kind equality, date within
/// the closed range, and case-insensitive exact category match.
pub open spec fn matches_spec(
    t: Transaction,
    fc: Option<String>,
    ft: Option<TransactionType>,
    from: Option<Date>,
    to: Option<Date>,
) -> bool {
    &&& (ft matches Some(k) ==> t.transaction_type == k)
    &&& (from matches Some(f) ==> day_number(f) <= day_number(t.date))
    &&& (to matches Some(u) ==> day_number(t.date) <= day_number(u))
    &&& (fc matches Some(c) ==> lower_of(t.category@) == lower_of(c@))
}

/// The indices below `n` whose records pass the filters, ascending.
pub open spec fn filtered_upto(
    records: Seq<Transaction>,
    fc: Option<String>,
    ft: Option<TransactionType>,
    from: Option<Date>,
    to: Option<Date>,
    n: int,
) -> Seq<usize>
    decreases n,
{
    if n <= 0 {
        Seq::<usize>::empty()
    } else {
        let rest = filtered_upto(records, fc, ft, from, to, n - 1);
        if matches_spec(records[n - 1], fc, ft, from, to) {
            rest.push((n - 1) as usize)
        } else {
            rest
        }
    }
}

/// The row order: by date in the chosen direction, then by id the same
/// way, then by index, which makes the relation a total order outright.
pub open spec fn idx_le(records: Seq<Transaction>, ord: SortOrder, i: usize, j: usize) -> bool {
    let di = day_number(records[i as int].date);
    let dj = day_number(records[j as int].date);
    let ai = records[i as int].id@;
    let aj = records[j as int].id@;
    match ord {
        SortOrder::DateDesc => di > dj || (di == dj && (lex_lt(aj, ai) || (ai == aj && i <= j))),
        SortOrder::DateAsc => di < dj || (di == dj && (lex_lt(ai, aj) || (ai == aj && i <= j))),
    }
}

/// The same order as a relation value, for `sorted_by`.
pub open spec fn idx_leq(records: Seq<Transaction>, ord: SortOrder) -> spec_fn(usize, usize) -> bool {
    |i: usize, j: usize| idx_le(records, ord, i, j)
}

/// The row order is a total order, whatever the records hold.
pub proof fn lemma_idx_leq_total_ordering(records: Seq<Transaction>, ord: SortOrder)
    ensures
        total_ordering(idx_leq(records, ord)),
{
    let leq = idx_leq(records, ord);
    assert forall|i: usize| #[trigger] leq(i, i) by {
        lemma_lex_le_reflexive(records[i as int].id@);
    }
    assert forall|i: usize, j: usize| #[trigger] leq(i, j) && #[trigger] leq(j, i) implies i
        == j by {
        let ai = records[i as int].id@;
        let aj = records[j as int].id@;
        if lex_lt(ai, aj) && lex_lt(aj, ai) {
            lemma_lex_le_antisymmetric(ai, aj);
        }
    }
    assert forall|i: usize, j: usize, k: usize|
        #[trigger] leq(i, j) && #[trigger] leq(j, k) implies leq(i, k) by {
        let ai = records[i as int].id@;
        let aj = records[j as int].id@;
        let ak = records[k as int].id@;
        if lex_lt(ai, aj) && lex_lt(aj, ak) {
            lemma_lex_le_transitive(ai, aj, ak);
            if ai == ak {
                lemma_lex_le_antisymmetric(ai, aj);
            }
        }
        if lex_lt(aj, ai) && lex_lt(ak, aj) {
            lemma_lex_le_transitive(ak, aj, ai);
            if ai == ak {
                lemma_lex_le_antisymmetric(aj, ai);
            }
        }
    }
    assert forall|i: usize, j: usize| #[trigger] leq(i, j) || #[trigger] leq(j, i) by {
        let ai = records[i as int].id@;
        let aj = records[j as int].id@;
        lemma_lex_le_total(ai, aj);
        if !lex_lt(ai, aj) && !lex_lt(aj, ai) {
            if ai != aj {
                lemma_lex_le_antisymmetric(ai, aj);
            }
        }
    }
}

/// Compares two rows in the chosen order.
fn idx_le_exec(records: &Vec<Transaction>, ord: SortOrder, i: usize, j: usize) -> (r: bool)
    requires
        i < records@.len(),
        j < records@.len(),
        all_valid(records@),
    ensures
        r == idx_le(records@, ord, i, j),
{
    proof {
        assert(records@[i as int].valid());
        assert(records@[j as int].valid());
    }
    let di = records[i].date.day_number();
    let dj = records[j].date.day_number();
    let le_ij = str_le(records[i].id.as_str(), records[j].id.as_str());
    let le_ji = str_le(records[j].id.as_str(), records[i].id.as_str());
    proof {
        let ai = records@[i as int].id@;
        let aj = records@[j as int].id@;
        lemma_lex_le_total(ai, aj);
        if le_ij && le_ji {
            lemma_lex_le_antisymmetric(ai, aj);
        }
        if ai == aj {
            lemma_lex_le_reflexive(ai);
        }
    }
    let id_eq = le_ij && le_ji;
    let id_lt_ij = le_ij && !le_ji;
    let id_lt_ji = le_ji && !le_ij;
    match ord {
        SortOrder::DateDesc => di > dj || (di == dj && (id_lt_ji || (id_eq && i <= j))),
        SortOrder::DateAsc => di < dj || (di == dj && (id_lt_ij || (id_eq && i <= j))),
    }
}

proof fn lemma_insert_multiset_usize(s: Seq<usize>, i: int, e: usize)
    requires
        0 <= i <= s.len(),
    ensures
        s.insert(i, e).to_multiset() == s.to_multiset().insert(e),
{
    broadcast use vstd::seq_lib::group_to_multiset_ensures;

    let t = s.insert(i, e);
    assert(t.remove(i) =~= s);
    assert(t.remove(i).to_multiset() =~= t.to_multiset().remove(t[i]));
    assert(t[i] == e);
    assert(t.to_multiset().count(e) > 0) by {
        assert(t.contains(e));
    }
    assert(t.to_multiset() =~= s.to_multiset().insert(e)) by {
        assert(t.to_multiset().remove(e).insert(e) =~= t.to_multiset());
    }
}

/// Sorts row indices by the chosen order.
fn sort_indices(records: &Vec<Transaction>, ord: SortOrder, v: Vec<usize>) -> (r: Vec<usize>)
    requires
        all_valid(records@),
        forall|k: int| 0 <= k < v@.len() ==> #[trigger] v@[k] < records@.len(),
    ensures
        r@.to_multiset() == v@.to_multiset(),
        sorted_by(r@, idx_leq(records@, ord)),
        r@.len() == v@.len(),
        forall|k: int| 0 <= k < r@.len() ==> #[trigger] r@[k] < records@.len(),
{
    broadcast use vstd::seq_lib::group_to_multiset_ensures;

    proof {
        lemma_idx_leq_total_ordering(records@, ord);
    }
    let ghost leq = idx_leq(records@, ord);
    let n = v.len();
    let mut out: Vec<usize> = Vec::new();
    proof {
        assert(v@.subrange(0, 0) =~= Seq::<usize>::empty());
        assert(v@.subrange(0, 0).to_multiset() =~= out@.to_multiset());
    }
    let mut k: usize = 0;
    while k < n
        invariant
            0 <= k <= n,
            n == v@.len(),
            all_valid(records@),
            forall|t: int| 0 <= t < v@.len() ==> #[trigger] v@[t] < records@.len(),
            leq == idx_leq(records@, ord),
            total_ordering(leq),
            out@.to_multiset() == v@.subrange(0, k as int).to_multiset(),
            sorted_by(out@, leq),
            out@.len() == k,
            forall|t: int| 0 <= t < out@.len() ==> #[trigger] out@[t] < records@.len(),
        decreases n - k,
    {
        let item = v[k];
        let mut pos: usize = 0;
        while pos < out.len() && idx_le_exec(records, ord, out[pos], item)
            invariant
                0 <= pos <= out@.len(),
                all_valid(records@),
                item < records@.len(),
                forall|t: int| 0 <= t < out@.len() ==> #[trigger] out@[t] < records@.len(),
                leq == idx_leq(records@, ord),
                forall|t: int| 0 <= t < pos ==> #[trigger] leq(out@[t], item),
            decreases out@.len() - pos,
        {
            pos = pos + 1;
        }
        let ghost pre = out@;
        out.insert(pos, item);
        k = k + 1;
        proof {
            assert(item == v@[k - 1]);
            lemma_insert_multiset_usize(pre, pos as int, item);
            pre.insert_ensures(pos as int, item);
            assert(v@.subrange(0, k as int) =~= v@.subrange(0, k - 1).push(v@[k - 1]));
            vstd::seq_lib::to_multiset_build(v@.subrange(0, k - 1), v@[k - 1]);
            assert(sorted_by(out@, leq)) by {
                assert forall|x: int, y: int| 0 <= x < y < out@.len() implies #[trigger] leq(
                    out@[x],
                    out@[y],
                ) by {
                    if y < pos {
                        assert(out@[x] == pre[x] && out@[y] == pre[y]);
                        assert(leq(pre[x], pre[y]));
                    } else if x < pos && y == pos {
                        assert(out@[x] == pre[x]);
                        assert(out@[y] == item);
                        assert(leq(pre[x], item));
                    } else if x < pos && y > pos {
                        assert(out@[x] == pre[x] && out@[y] == pre[y - 1]);
                        if pos < pre.len() {
                            assert(!leq(pre[pos as int], item));
                            assert(leq(item, pre[pos as int]));
                            assert(leq(pre[x], item));
                            assert(leq(pre[pos as int], pre[y - 1]));
                        }
                    } else if x == pos {
                        assert(out@[x] == item);
                        assert(out@[y] == pre[y - 1]);
                        assert(!leq(pre[pos as int], item));
                        assert(leq(item, pre[pos as int]));
                        assert(leq(pre[pos as int], pre[y - 1]));
                    } else {
                        assert(out@[x] == pre[x - 1] && out@[y] == pre[y - 1]);
                        assert(leq(pre[x - 1], pre[y - 1]));
                    }
                }
            }
        }
    }
    proof {
        assert(v@.subrange(0, n as int) =~= v@);
    }
    out
}

/// What it means for `visible` to be the browse view of `records` under
/// the given filters and order: the passing indices, sorted by the order.
pub open spec fn is_visible_for(
    visible: Seq<usize>,
    records: Seq<Transaction>,
    fc: Option<String>,
    ft: Option<TransactionType>,
    from: Option<Date>,
    to: Option<Date>,
    ord: SortOrder,
) -> bool {
    &&& sorted_by(visible, idx_leq(records, ord))
    &&& visible.to_multiset() == filtered_upto(
        records,
        fc,
        ft,
        from,
        to,
        records.len() as int,
    ).to_multiset()
}

/// Law: the visible rows are determined by the snapshot, the filters and
/// the order alone — any two sequences that both qualify are equal. So
/// re-deriving the view from scratch always reproduces the incrementally
/// maintained one, and any round trip of state changes that restores the
/// filters and the order restores the view.
pub proof fn lemma_visible_unique(
    v1: Seq<usize>,
    v2: Seq<usize>,
    records: Seq<Transaction>,
    fc: Option<String>,
    ft: Option<TransactionType>,
    from: Option<Date>,
    to: Option<Date>,
    ord: SortOrder,
)
    requires
        is_visible_for(v1, records, fc, ft, from, to, ord),
        is_visible_for(v2, records, fc, ft, from, to, ord),
    ensures
        v1 == v2,
{
    lemma_idx_leq_total_ordering(records, ord);
    lemma_sorted_unique(v1, v2, idx_leq(records, ord));
}

/// The whole browse-screen state.
#[derive(Debug, Clone)]
pub struct BrowseState {
    pub mode: Mode,
    pub transactions: Vec<Transaction>,
    pub filtered_indices: Vec<usize>,
    pub selected: Option<usize>,
    pub filter_category: Option<String>,
    pub filter_type: Option<TransactionType>,
    pub filter_from: Option<Date>,
    pub filter_to: Option<Date>,
    pub sort_order: SortOrder,
    pub input_buffer: String,
    pub input_error: Option<String>,
    pub details_tx: Option<Transaction>,
    pub last_page_size: usize,
}

impl BrowseState {
    /// The snapshot and filters the state may hold at all.
    pub open spec fn wf_data(self) -> bool {
        &&& unique_ids(self.transactions@)
        &&& all_valid(self.transactions@)
        &&& (self.filter_from matches Some(d) ==> d.valid())
        &&& (self.filter_to matches Some(d) ==> d.valid())
        &&& 1 <= self.last_page_size <= 1_000_000
    }

    /// The standing invariant: the visible rows are exactly the filtered,
    /// sorted view of the snapshot, and the selection sits inside them
    /// (absent exactly when nothing is visible).
    pub open spec fn wf(self) -> bool {
        &&& self.wf_data()
        &&& is_visible_for(
            self.filtered_indices@,
            self.transactions@,
            self.filter_category,
            self.filter_type,
            self.filter_from,
            self.filter_to,
            self.sort_order,
        )
        &&& (self.selected is None <==> self.filtered_indices@.len() == 0)
        &&& (self.selected matches Some(s) ==> s < self.filtered_indices@.len())
        &&& (forall|k: int|
            0 <= k < self.filtered_indices@.len() ==> #[trigger] self.filtered_indices@[k]
                < self.transactions@.len())
    }

    /// Whether a record passes this state's filters.
    pub open spec fn matches(self, t: Transaction) -> bool {
        matches_spec(t, self.filter_category, self.filter_type, self.filter_from, self.filter_to)
    }

    fn matches_exec(&self, k: usize) -> (r: bool)
        requires
            k < self.transactions@.len(),
            self.wf_data(),
        ensures
            r == self.matches(self.transactions@[k as int]),
    {
        proof {
            assert(self.transactions@[k as int].valid());
        }
        let tx = &self.transactions[k];
        let type_ok = match &self.filter_type {
            Some(t) => {
                let same = match (t, &tx.transaction_type) {
                    (TransactionType::Income, TransactionType::Income) => true,
                    (TransactionType::Expense, TransactionType::Expense) => true,
                    _ => false,
                };
                same
            },
            None => true,
        };
        if !type_ok {
            return false;
        }
        let from_ok = match &self.filter_from {
            Some(f) => f.le(&tx.date),
            None => true,
        };
        if !from_ok {
            return false;
        }
        let to_ok = match &self.filter_to {
            Some(u) => tx.date.le(u),
            None => true,
        };
        if !to_ok {
            return false;
        }
        let cat_ok = match &self.filter_category {
            Some(c) => crate::text::eq_ignore_case(tx.category.as_str(), c.as_str()),
            None => true,
        };
        cat_ok
    }

    /// Recomputes the visible rows from the snapshot and the filters, then
    /// clamps the selection back into range; run after every change.
    pub fn recompute(&mut self)
        requires
            old(self).wf_data(),
        ensures
            final(self).wf(),
            final(self).mode == old(self).mode,
            final(self).transactions == old(self).transactions,
            final(self).filter_category == old(self).filter_category,
            final(self).filter_type == old(self).filter_type,
            final(self).filter_from == old(self).filter_from,
            final(self).filter_to == old(self).filter_to,
            final(self).sort_order == old(self).sort_order,
            final(self).input_buffer == old(self).input_buffer,
            final(self).input_error == old(self).input_error,
            final(self).details_tx == old(self).details_tx,
            final(self).last_page_size == old(self).last_page_size,
            final(self).selected == (if final(self).filtered_indices@.len() == 0 {
                Option::<usize>::None
            } else {
                Some(
                    match old(self).selected {
                        Some(s) => (if s < final(self).filtered_indices@.len() {
                            s
                        } else {
                            (final(self).filtered_indices@.len() - 1) as usize
                        }),
                        None => 0usize,
                    },
                )
            }),
    {
        let n = self.transactions.len();
        let mut base: Vec<usize> = Vec::new();
        let mut k: usize = 0;
        while k < n
            invariant
                0 <= k <= n,
                n == self.transactions@.len(),
                self.wf_data(),
                base@ == filtered_upto(
                    self.transactions@,
                    self.filter_category,
                    self.filter_type,
                    self.filter_from,
                    self.filter_to,
                    k as int,
                ),
                forall|t: int| 0 <= t < base@.len() ==> #[trigger] base@[t] < n,
            decreases n - k,
        {
            if self.matches_exec(k) {
                base.push(k);
            }
            k = k + 1;
        }
        let sorted = sort_indices(&self.transactions, self.sort_order, base);
        self.filtered_indices = sorted;
        let len = self.filtered_indices.len();
        if len == 0 {
            self.selected = None;
        } else {
            let new_sel = match self.selected {
                Some(s) => {
                    if s < len {
                        s
                    } else {
                        len - 1
                    }
                },
                None => 0,
            };
            self.selected = Some(new_sel);
        }
    }

    /// Builds the initial state over a snapshot: list mode, no filters,
    /// newest dates first.
    pub fn new(transactions: Vec<Transaction>) -> (r: BrowseState)
        requires
            unique_ids(transactions@),
            all_valid(transactions@),
        ensures
            r.wf(),
            r.mode == Mode::List,
            r.transactions == transactions,
            r.filter_category is None,
            r.filter_type is None,
            r.filter_from is None,
            r.filter_to is None,
            r.sort_order == SortOrder::DateDesc,
            r.input_buffer@.len() == 0,
            r.input_error is None,
            r.details_tx is None,
            r.last_page_size == 10,
    {
        let mut state = BrowseState {
            mode: Mode::List,
            transactions,
            filtered_indices: Vec::new(),
            selected: None,
            filter_category: None,
            filter_type: None,
            filter_from: None,
            filter_to: None,
            sort_order: SortOrder::DateDesc,
            input_buffer: String::new(),
            input_error: None,
            details_tx: None,
            last_page_size: 10,
        };
        state.recompute();
        state
    }

    /// The record the cursor points at, if any.
    pub fn selected_transaction(&self) -> (r: Option<&Transaction>)
        requires
            self.wf(),
        ensures
            match r {
                Some(t) => self.selected matches Some(s) && *t == self.transactions@[
                    self.filtered_indices@[s as int] as int
                ],
                None => self.selected is None,
            },
    {
        match self.selected {
            Some(s) => {
                let idx = self.filtered_indices[s];
                Some(&self.transactions[idx])
            },
            None => None,
        }
    }

    /// Moves the cursor by `delta` rows, clamped into the visible range.
    pub fn move_selection(&mut self, delta: i64)
        requires
            old(self).wf(),
        ensures
            final(self).wf(),
            (*final(self) == BrowseState { selected: final(self).selected, ..*old(self) }),
            final(self).filtered_indices@.len() == 0 ==> final(self).selected is None,
            final(self).filtered_indices@.len() > 0 ==> final(self).selected == Some(
                clamp_index(
                    (match old(self).selected {
                        Some(s) => s as int,
                        None => 0int,
                    }) + delta,
                    old(self).filtered_indices@.len() as int,
                ),
            ),
    {
        let len = self.filtered_indices.len();
        if len == 0 {
            self.selected = None;
            return;
        }
        let current: i128 = match self.selected {
            Some(s) => s as i128,
            None => 0,
        };
        let target: i128 = current + (delta as i128);
        let max_index: i128 = (len - 1) as i128;
        let next: i128 = if target < 0 {
            0
        } else if target > max_index {
            max_index
        } else {
            target
        };
        self.selected = Some(next as usize);
    }

    /// Moves the cursor up one page.
    pub fn page_up(&mut self)
        requires
            old(self).wf(),
        ensures
            final(self).wf(),
            (*final(self) == BrowseState { selected: final(self).selected, ..*old(self) }),
            final(self).filtered_indices@.len() == 0 ==> final(self).selected is None,
            final(self).filtered_indices@.len() > 0 ==> final(self).selected == Some(
                clamp_index(
                    (match old(self).selected {
                        Some(s) => s as int,
                        None => 0int,
                    }) - old(self).last_page_size,
                    old(self).filtered_indices@.len() as int,
                ),
            ),
    {
        let page = self.last_page_size as i64;
        self.move_selection(-page);
    }

    /// Moves the cursor down one page.
    pub fn page_down(&mut self)
        requires
            old(self).wf(),
        ensures
            final(self).wf(),
            (*final(self) == BrowseState { selected: final(self).selected, ..*old(self) }),
            final(self).filtered_indices@.len() == 0 ==> final(self).selected is None,
            final(self).filtered_indices@.len() > 0 ==> final(self).selected == Some(
                clamp_index(
                    (match old(self).selected {
                        Some(s) => s as int,
                        None => 0int,
                    }) + old(self).last_page_size,
                    old(self).filtered_indices@.len() as int,
                ),
            ),
    {
        let page = self.last_page_size as i64;
        self.move_selection(page);
    }

    /// Remembers how many rows the last draw could show, at least one.
    pub fn set_page_size(&mut self, rows: usize)
        requires
            old(self).wf(),
        ensures
            final(self).wf(),
            (*final(self) == BrowseState {
                last_page_size: final(self).last_page_size,
                ..*old(self)
            }),
            final(self).last_page_size == (if rows < 1 {
                1usize
            } else if rows > 1_000_000 {
                1_000_000usize
            } else {
                rows
            }),
    {
        self.last_page_size = if rows < 1 {
            1
        } else if rows > 1_000_000 {
            1_000_000
        } else {
            rows
        };
    }

    /// Rotates the kind filter: all, expenses only, income only.
    pub fn cycle_type_filter(&mut self)
        requires
            old(self).wf(),
        ensures
            final(self).wf(),
            final(self).filter_type == (match old(self).filter_type {
                None => Some(TransactionType::Expense),
                Some(TransactionType::Expense) => Some(TransactionType::Income),
                Some(TransactionType::Income) => Option::<TransactionType>::None,
            }),
            final(self).mode == old(self).mode,
            final(self).transactions == old(self).transactions,
            final(self).filter_category == old(self).filter_category,
            final(self).filter_from == old(self).filter_from,
            final(self).filter_to == old(self).filter_to,
            final(self).sort_order == old(self).sort_order,
    {
        self.filter_type = match self.filter_type {
            None => Some(TransactionType::Expense),
            Some(TransactionType::Expense) => Some(TransactionType::Income),
            Some(TransactionType::Income) => None,
        };
        self.recompute();
    }

    /// Resets every filter to match-all.
    pub fn clear_filters(&mut self)
        requires
            old(self).wf(),
        ensures
            final(self).wf(),
            final(self).filter_category is None,
            final(self).filter_type is None,
            final(self).filter_from is None,
            final(self).filter_to is None,
            final(self).mode == old(self).mode,
            final(self).transactions == old(self).transactions,
            final(self).sort_order == old(self).sort_order,
    {
        self.filter_category = None;
        self.filter_type = None;
        self.filter_from = None;
        self.filter_to = None;
        self.recompute();
    }

    /// Flips the sort direction and re-sorts the view.
    pub fn toggle_sort(&mut self)
        requires
            old(self).wf(),
        ensures
            final(self).wf(),
            final(self).sort_order == (match old(self).sort_order {
                SortOrder::DateDesc => SortOrder::DateAsc,
                SortOrder::DateAsc => SortOrder::DateDesc,
            }),
            final(self).mode == old(self).mode,
            final(self).transactions == old(self).transactions,
            final(self).filter_category == old(self).filter_category,
            final(self).filter_type == old(self).filter_type,
            final(self).filter_from == old(self).filter_from,
            final(self).filter_to == old(self).filter_to,
    {
        self.sort_order = self.sort_order.toggle();
        self.recompute();
    }

    /// Replaces the snapshot with a fresh one and rebuilds the view, as on
    /// construction.
    pub fn refresh(&mut self, transactions: Vec<Transaction>)
        requires
            old(self).wf(),
            unique_ids(transactions@),
            all_valid(transactions@),
        ensures
            final(self).wf(),
            final(self).transactions == transactions,
            final(self).mode == old(self).mode,
            final(self).filter_category == old(self).filter_category,
            final(self).filter_type == old(self).filter_type,
            final(self).filter_from == old(self).filter_from,
            final(self).filter_to == old(self).filter_to,
            final(self).sort_order == old(self).sort_order,
    {
        self.transactions = transactions;
        self.recompute();
    }

    /// Snapshots the selected record and opens the details screen; with no
    /// selection nothing happens.
    pub fn open_details(&mut self)
        requires
            old(self).wf(),
        ensures
            final(self).wf(),
            old(self).selected is None ==> *final(self) == *old(self),
            old(self).selected matches Some(s) ==> ({
                &&& final(self).mode == Mode::Details
                &&& final(self).details_tx matches Some(t) && t == old(self).transactions@[
                    old(self).filtered_indices@[s as int] as int
                ]
                &&& (*final(self) == BrowseState {
                    mode: final(self).mode,
                    details_tx: final(self).details_tx,
                    ..*old(self)
                })
            }),
    {
        match self.selected {
            Some(s) => {
                let idx = self.filtered_indices[s];
                let snapshot = self.transactions[idx].duplicate();
                proof {
                    assert(snapshot == self.transactions@[
                        self.filtered_indices@[s as int] as int
                    ]);
                }
                self.details_tx = Some(snapshot);
                self.mode = Mode::Details;
            },
            None => {},
        }
    }

    /// Drops the details snapshot and returns to the list.
    pub fn close_details(&mut self)
        requires
            old(self).wf(),
        ensures
            final(self).wf(),
            final(self).mode == Mode::List,
            final(self).details_tx is None,
            (*final(self) == BrowseState {
                mode: Mode::List,
                details_tx: Option::<Transaction>::None,
                ..*old(self)
            }),
    {
        self.details_tx = None;
        self.mode = Mode::List;
    }
}

/// `value` clamped into `[0, len)`, as a row index.
pub open spec fn clamp_index(value: int, len: int) -> usize {
    if value < 0 {
        0usize
    } else if value > len - 1 {
        (len - 1) as usize
    } else {
        value as usize
    }
}

/// A description cell: cut to 39 characters plus an ellipsis once it
/// exceeds 42.
pub fn row_description(s: &str) -> (r: String)
    ensures
        s@.len() <= 42 ==> r@ == s@,
        s@.len() > 42 ==> r@ == s@.subrange(0, 39) + "..."@,
{
    let len = s.unicode_len();
    if len > 42 {
        let mut cut = crate::text::take_chars(s, 39);
        crate::text::append_str(&mut cut, "...");
        cut
    } else {
        s.to_owned()
    }
}

/// An id cell: at most the first eight characters.
pub fn short_id(s: &str) -> (r: String)
    ensures
        s@.len() <= 8 ==> r@ == s@,
        s@.len() > 8 ==> r@ == s@.subrange(0, 8),
{
    crate::text::take_chars(s, 8)
}

/// Index of the first `".."` in `s`, or `s.len()` if there is none.
pub open spec fn double_dot_pos(s: Seq<char>) -> int
    decreases s.len(),
{
    if s.len() < 2 {
        s.len() as int
    } else if s[0] == '.' && s[1] == '.' {
        0
    } else {
        1 + double_dot_pos(s.drop_first())
    }
}

proof fn lemma_double_dot_pos_at(s: Seq<char>, i: int)
    requires
        0 <= i <= s.len(),
        forall|k: int| 0 <= k < i && k + 1 < s.len() ==> !(#[trigger] s[k] == '.' && s[k + 1] == '.'),
        i + 1 < s.len() ==> s[i] == '.' && s[i + 1] == '.',
    ensures
        i + 1 < s.len() ==> double_dot_pos(s) == i,
        i + 1 >= s.len() ==> double_dot_pos(s) == s.len(),
    decreases i,
{
    if s.len() < 2 {
    } else if i == 0 {
    } else {
        assert(!(s[0] == '.' && s[1] == '.'));
        lemma_double_dot_pos_at(s.drop_first(), i - 1);
    }
}

/// The last `'-'` position in `s` at or below `i` where both sides trim to
/// at least ten characters, or -1 if there is none.
pub open spec fn dash_pos_from(s: Seq<char>, i: int) -> int
    decreases i + 1,
{
    if i < 0 || i >= s.len() {
        -1
    } else if s[i] == '-' && trim_spec(s.subrange(0, i)).len() >= 10 && trim_spec(
        s.subrange(i + 1, s.len() as int),
    ).len() >= 10 {
        i
    } else {
        dash_pos_from(s, i - 1)
    }
}

proof fn lemma_dash_pos_bounds(s: Seq<char>, i: int)
    ensures
        dash_pos_from(s, i) == -1 || (0 <= dash_pos_from(s, i) <= i && dash_pos_from(s, i)
            < s.len()),
    decreases i + 1,
{
    if !(i < 0 || i >= s.len()) {
        lemma_dash_pos_bounds(s, i - 1);
    }
}

/// Splits at the last `'-'` that leaves a ten-character date shape on both
/// sides, the fallback for ranges written `A-B` with full dates.
pub fn split_once_dash_range(s: &str) -> (r: Option<(&str, &str)>)
    ensures
        match r {
            Some(p) => {
                let i = dash_pos_from(s@, s@.len() - 1);
                &&& i >= 0
                &&& p.0@ == s@.subrange(0, i)
                &&& p.1@ == s@.subrange(i + 1, s@.len() as int)
            },
            None => dash_pos_from(s@, s@.len() - 1) == -1,
        },
{
    let len = s.unicode_len();
    let mut i: usize = len;
    while i > 0
        invariant
            0 <= i <= len,
            len == s@.len(),
            dash_pos_from(s@, s@.len() - 1) == dash_pos_from(s@, i - 1),
        decreases i,
    {
        i = i - 1;
        if s.get_char(i) == '-' {
            let left = s.substring_char(0, i);
            let right = s.substring_char(i + 1, len);
            let lt = trim(left);
            let rt = trim(right);
            if lt.unicode_len() >= 10 && rt.unicode_len() >= 10 {
                proof {
                    assert(dash_pos_from(s@, i as int) == i);
                }
                return Some((left, right));
            }
        }
        proof {
            assert(dash_pos_from(s@, i as int) == dash_pos_from(s@, i - 1));
        }
    }
    None
}

/// How a range text is cut in two: at the first `".."`, else at the first
/// comma, else at the dash heuristic; `None` when none applies.
pub open spec fn range_sides(s: Seq<char>) -> Option<(Seq<char>, Seq<char>)> {
    let dd = double_dot_pos(s);
    let cp = crate::text::char_pos(s, ',');
    let dp = dash_pos_from(s, s.len() - 1);
    if 0 <= dd && dd + 2 <= s.len() {
        Some((s.subrange(0, dd), s.subrange(dd + 2, s.len() as int)))
    } else if 0 <= cp < s.len() {
        Some((s.subrange(0, cp), s.subrange(cp + 1, s.len() as int)))
    } else if 0 <= dp < s.len() {
        Some((s.subrange(0, dp), s.subrange(dp + 1, s.len() as int)))
    } else {
        Option::<(Seq<char>, Seq<char>)>::None
    }
}

/// What a date-range input denotes: two optional bounds, either side left
/// open by emptiness, rejected if malformed or inverted.
pub open spec fn parse_date_range_spec(input: Seq<char>) -> Result<
    (Option<Date>, Option<Date>),
    Seq<char>,
> {
    let s = trim_spec(input);
    match range_sides(s) {
        None => Err("Invalid date range. Use YYYY-MM-DD..YYYY-MM-DD"@),
        Some(sides) => {
            let lt = trim_spec(sides.0);
            let rt = trim_spec(sides.1);
            if lt.len() > 0 && iso_date_spec(lt) is None {
                Err("Invalid date '"@ + lt + "'. Use YYYY-MM-DD."@)
            } else if rt.len() > 0 && iso_date_spec(rt) is None {
                Err("Invalid date '"@ + rt + "'. Use YYYY-MM-DD."@)
            } else {
                let from = if lt.len() == 0 {
                    Option::<Date>::None
                } else {
                    iso_date_spec(lt)
                };
                let to = if rt.len() == 0 {
                    Option::<Date>::None
                } else {
                    iso_date_spec(rt)
                };
                if from matches Some(f) && to matches Some(t) && day_number(f) > day_number(t) {
                    Err("Invalid range: start date must be <= end date"@)
                } else {
                    Ok((from, to))
                }
            }
        },
    }
}

/// Parses a date-range input such as `2025-01-01..2025-01-31`; an empty
/// side leaves that bound open.
pub fn parse_date_range(input: &str) -> (r: Result<(Option<Date>, Option<Date>), String>)
    ensures
        r is Ok <==> parse_date_range_spec(input@) is Ok,
        r matches Ok(p) ==> parse_date_range_spec(input@) == Ok::<
            (Option<Date>, Option<Date>),
            Seq<char>,
        >(p),
        r matches Ok(p) ==> {
            &&& (p.0 matches Some(d) ==> d.valid())
            &&& (p.1 matches Some(d) ==> d.valid())
        },
        r matches Err(e) ==> parse_date_range_spec(input@) == Err::<
            (Option<Date>, Option<Date>),
            Seq<char>,
        >(e@),
{
    let s = trim(input);
    let len = s.unicode_len();
    // first ".."
    let mut i: usize = 0;
    while i < len && i + 1 < len && !(s.get_char(i) == '.' && s.get_char(i + 1) == '.')
        invariant
            0 <= i <= len,
            len == s@.len(),
            forall|k: int| 0 <= k < i && k + 1 < len ==> !(#[trigger] s@[k] == '.' && s@[k + 1] == '.'),
        decreases len - i,
    {
        i = i + 1;
    }
    proof {
        lemma_double_dot_pos_at(s@, i as int);
    }
    let (left, right) = if i < len && i + 1 < len {
        (s.substring_char(0, i), s.substring_char(i + 2, len))
    } else {
        // first comma
        let mut j: usize = 0;
        while j < len && s.get_char(j) != ','
            invariant
                0 <= j <= len,
                len == s@.len(),
                forall|k: int| 0 <= k < j ==> s@[k] != ',',
            decreases len - j,
        {
            j = j + 1;
        }
        proof {
            crate::text::lemma_char_pos_at(s@, ',', j as int);
        }
        if j < len {
            (s.substring_char(0, j), s.substring_char(j + 1, len))
        } else {
            proof {
                lemma_dash_pos_bounds(s@, s@.len() - 1);
            }
            match split_once_dash_range(s) {
                Some(p) => p,
                None => {
                    return Err(String::from_str("Invalid date range. Use YYYY-MM-DD..YYYY-MM-DD"));
                },
            }
        }
    };
    let lt = trim(left);
    let rt = trim(right);
    let lt_len = lt.unicode_len();
    let rt_len = rt.unicode_len();
    let from = if lt_len == 0 {
        None
    } else {
        match crate::date::parse_iso_date(lt) {
            Some(d) => Some(d),
            None => {
                let mut msg = String::from_str("Invalid date '");
                crate::text::append_str(&mut msg, lt);
                crate::text::append_str(&mut msg, "'. Use YYYY-MM-DD.");
                return Err(msg);
            },
        }
    };
    let to = if rt_len == 0 {
        None
    } else {
        match crate::date::parse_iso_date(rt) {
            Some(d) => Some(d),
            None => {
                let mut msg = String::from_str("Invalid date '");
                crate::text::append_str(&mut msg, rt);
                crate::text::append_str(&mut msg, "'. Use YYYY-MM-DD.");
                return Err(msg);
            },
        }
    };
    if let (Some(f), Some(t)) = (&from, &to) {
        if !f.le(t) {
            return Err(String::from_str("Invalid range: start date must be <= end date"));
        }
    }
    Ok((from, to))
}

/// What the input modal is pre-filled with: the active filter of its kind,
/// so editing resumes rather than starts over.
pub open spec fn prefill_spec(state: BrowseState, kind: InputKind) -> Seq<char> {
    match kind {
        InputKind::Category => match state.filter_category {
            Some(c) => c@,
            None => Seq::<char>::empty(),
        },
        InputKind::DateRange => {
            let f = match state.filter_from {
                Some(d) => iso_str(d),
                None => Seq::<char>::empty(),
            };
            let t = match state.filter_to {
                Some(d) => iso_str(d),
                None => Seq::<char>::empty(),
            };
            if f.len() > 0 || t.len() > 0 {
                f + ".."@ + t
            } else {
                Seq::<char>::empty()
            }
        },
    }
}

impl BrowseState {
    /// Opens the input modal, pre-filled from the active filter.
    pub fn start_input(&mut self, kind: InputKind)
        requires
            old(self).wf(),
        ensures
            final(self).wf(),
            final(self).mode == Mode::Input(kind),
            final(self).input_buffer@ == prefill_spec(*old(self), kind),
            final(self).input_error is None,
            (*final(self) == BrowseState {
                mode: final(self).mode,
                input_buffer: final(self).input_buffer,
                input_error: Option::<String>::None,
                ..*old(self)
            }),
    {
        self.input_error = None;
        match kind {
            InputKind::Category => {
                self.input_buffer = match &self.filter_category {
                    Some(c) => c.clone(),
                    None => String::new(),
                };
            },
            InputKind::DateRange => {
                let f = match &self.filter_from {
                    Some(d) => d.to_iso_text(),
                    None => String::new(),
                };
                let t = match &self.filter_to {
                    Some(d) => d.to_iso_text(),
                    None => String::new(),
                };
                if f.as_str().unicode_len() > 0 || t.as_str().unicode_len() > 0 {
                    let mut buf = f;
                    crate::text::append_str(&mut buf, "..");
                    crate::text::append_str(&mut buf, t.as_str());
                    self.input_buffer = buf;
                } else {
                    self.input_buffer = String::new();
                }
            },
        }
        self.mode = Mode::Input(kind);
        proof {
            assert(self.input_buffer@ =~= prefill_spec(*old(self), kind));
        }
    }

    /// Closes the modal without touching the filters.
    pub fn cancel_input(&mut self)
        requires
            old(self).wf(),
        ensures
            final(self).wf(),
            final(self).mode == Mode::List,
            final(self).input_error is None,
            (*final(self) == BrowseState {
                mode: Mode::List,
                input_error: Option::<String>::None,
                ..*old(self)
            }),
    {
        self.input_error = None;
        self.mode = Mode::List;
    }

    /// Appends a typed character to the modal's buffer.
    pub fn input_char(&mut self, c: char)
        requires
            old(self).wf(),
        ensures
            final(self).wf(),
            final(self).input_buffer@ == old(self).input_buffer@.push(c),
            (*final(self) == BrowseState {
                input_buffer: final(self).input_buffer,
                ..*old(self)
            }),
    {
        crate::text::push_char(&mut self.input_buffer, c);
    }

    /// Removes the last character of the modal's buffer, if any.
    pub fn input_backspace(&mut self)
        requires
            old(self).wf(),
        ensures
            final(self).wf(),
            old(self).input_buffer@.len() == 0 ==> *final(self) == *old(self),
            old(self).input_buffer@.len() > 0 ==> (*final(self) == BrowseState {
                input_buffer: final(self).input_buffer,
                ..*old(self)
            }) && final(self).input_buffer@ == old(self).input_buffer@.drop_last(),
    {
        crate::text::pop_char(&mut self.input_buffer);
    }

    /// Applies the modal's text as the new filter of its kind. Valid input
    /// commits and returns to the list; invalid input sets the error and
    /// keeps the modal open with nothing committed.
    pub fn commit_input(&mut self, kind: InputKind)
        requires
            old(self).wf(),
        ensures
            final(self).wf(),
            ({
                let raw = trim_spec(old(self).input_buffer@);
                match kind {
                    InputKind::Category => {
                        &&& final(self).mode == Mode::List
                        &&& (raw.len() == 0 ==> final(self).filter_category is None)
                        &&& (raw.len() > 0 ==> (final(self).filter_category matches Some(c) && c@
                            == raw))
                        &&& final(self).filter_from == old(self).filter_from
                        &&& final(self).filter_to == old(self).filter_to
                        &&& final(self).filter_type == old(self).filter_type
                        &&& final(self).transactions == old(self).transactions
                        &&& final(self).sort_order == old(self).sort_order
                    },
                    InputKind::DateRange => {
                        if raw.len() == 0 {
                            &&& final(self).mode == Mode::List
                            &&& final(self).filter_from is None
                            &&& final(self).filter_to is None
                            &&& final(self).filter_category == old(self).filter_category
                            &&& final(self).filter_type == old(self).filter_type
                            &&& final(self).transactions == old(self).transactions
                            &&& final(self).sort_order == old(self).sort_order
                        } else {
                            match parse_date_range_spec(raw) {
                                Ok(p) => {
                                    &&& final(self).mode == Mode::List
                                    &&& final(self).filter_from == p.0
                                    &&& final(self).filter_to == p.1
                                    &&& final(self).input_error is None
                                    &&& final(self).filter_category == old(self).filter_category
                                    &&& final(self).filter_type == old(self).filter_type
                                    &&& final(self).transactions == old(self).transactions
                                    &&& final(self).sort_order == old(self).sort_order
                                },
                                Err(e) => {
                                    &&& final(self).input_error matches Some(msg) && msg@ == e
                                    &&& (*final(self) == BrowseState {
                                        input_error: final(self).input_error,
                                        ..*old(self)
                                    })
                                },
                            }
                        }
                    },
                }
            }),
    {
        let raw = trim(self.input_buffer.as_str()).to_owned();
        match kind {
            InputKind::Category => {
                if raw.as_str().unicode_len() == 0 {
                    self.filter_category = None;
                } else {
                    self.filter_category = Some(raw);
                }
                self.mode = Mode::List;
                self.recompute();
            },
            InputKind::DateRange => {
                if raw.as_str().unicode_len() == 0 {
                    self.filter_from = None;
                    self.filter_to = None;
                    self.mode = Mode::List;
                    self.recompute();
                    return;
                }
                match parse_date_range(raw.as_str()) {
                    Ok(bounds) => {
                        self.filter_from = bounds.0;
                        self.filter_to = bounds.1;
                        self.input_error = None;
                        self.mode = Mode::List;
                        self.recompute();
                    },
                    Err(e) => {
                        self.input_error = Some(e);
                    },
                }
            },
        }
    }
}

/// Law: toggling the sort order twice returns the visible rows to their
/// original sequence — two toggles restore the order, and with snapshot
/// and filters unchanged the view is determined by them alone.
pub proof fn lemma_toggle_sort_twice(s0: BrowseState, s1: BrowseState, s2: BrowseState)
    requires
        s0.wf(),
        s1.wf(),
        s2.wf(),
        s1.transactions == s0.transactions,
        s1.filter_category == s0.filter_category,
        s1.filter_type == s0.filter_type,
        s1.filter_from == s0.filter_from,
        s1.filter_to == s0.filter_to,
        s1.sort_order == (match s0.sort_order {
            SortOrder::DateDesc => SortOrder::DateAsc,
            SortOrder::DateAsc => SortOrder::DateDesc,
        }),
        s2.transactions == s1.transactions,
        s2.filter_category == s1.filter_category,
        s2.filter_type == s1.filter_type,
        s2.filter_from == s1.filter_from,
        s2.filter_to == s1.filter_to,
        s2.sort_order == (match s1.sort_order {
            SortOrder::DateDesc => SortOrder::DateAsc,
            SortOrder::DateAsc => SortOrder::DateDesc,
        }),
    ensures
        s2.filtered_indices@ == s0.filtered_indices@,
{
    assert(s2.sort_order == s0.sort_order);
    lemma_visible_unique(
        s2.filtered_indices@,
        s0.filtered_indices@,
        s0.transactions@,
        s0.filter_category,
        s0.filter_type,
        s0.filter_from,
        s0.filter_to,
        s0.sort_order,
    );
}

/// One key press as the host reports it.
#[derive(Debug, Clone, Copy, PartialEq, Eq, Structural)]
pub enum Key {
    Up,
    Down,
    PageUp,
    PageDown,
    Home,
    End,
    Enter,
    Backspace,
    Esc,
    Letter(char),
    Other,
}

/// A key event: the key, whether it is a press (not a release), and
/// whether Control is held.
#[derive(Debug, Clone, Copy, PartialEq, Eq, Structural)]
pub struct KeyInput {
    pub key: Key,
    pub is_press: bool,
    pub ctrl: bool,
}

/// What the host loop must do after a key: keep going, quit the view, or
/// fetch a fresh snapshot and hand it to `refresh`.
#[derive(Debug, Clone, Copy, PartialEq, Eq, Structural)]
pub enum KeyOutcome {
    Continue,
    Quit,
    Refresh,
}

/// Feeds one key event through the state machine and says what the host
/// loop should do next. Key releases change nothing; in list mode `q` and
/// Escape quit and `r` asks for a refresh.
pub fn handle_key(state: &mut BrowseState, input: KeyInput) -> (r: KeyOutcome)
    requires
        old(state).wf(),
    ensures
        final(state).wf(),
        !input.is_press ==> *final(state) == *old(state) && r == KeyOutcome::Continue,
        r == KeyOutcome::Quit <==> input.is_press && old(state).mode == Mode::List && (input.key
            == Key::Letter('q') || input.key == Key::Esc),
        r == KeyOutcome::Refresh <==> input.is_press && old(state).mode == Mode::List && input.key
            == Key::Letter('r'),
        input.is_press && old(state).mode == Mode::List && input.key == Key::Enter && old(state).selected is Some ==> final(state).mode == Mode::Details,
        input.is_press && old(state).mode == Mode::List && input.key == Key::Letter('s') ==> final(state).sort_order == (match old(state).sort_order {
            SortOrder::DateDesc => SortOrder::DateAsc,
            SortOrder::DateAsc => SortOrder::DateDesc,
        }),
        input.is_press && old(state).mode == Mode::Details && (input.key == Key::Esc || input.key
            == Key::Letter('q') || input.key == Key::Letter('b')) ==> final(state).mode
            == Mode::List && final(state).details_tx is None,
        input.is_press && old(state).mode == Mode::List && input.key == Key::Letter('c') ==> final(state).mode
            == Mode::Input(InputKind::Category),
        input.is_press && old(state).mode == Mode::List && input.key == Key::Letter('d') ==> final(state).mode
            == Mode::Input(InputKind::DateRange),
        input.is_press && old(state).mode == Mode::List && input.key == Key::Letter('t') ==> final(state).filter_type
            == (match old(state).filter_type {
            None => Some(TransactionType::Expense),
            Some(TransactionType::Expense) => Some(TransactionType::Income),
            Some(TransactionType::Income) => Option::<TransactionType>::None,
        }),
        input.is_press && old(state).mode == Mode::List && input.key == Key::Letter('x') ==> (final(state).filter_category is None
            && final(state).filter_type is None && final(state).filter_from is None
            && final(state).filter_to is None),
{
    if !input.is_press {
        return KeyOutcome::Continue;
    }
    match state.mode {
        Mode::List => {
            match input.key {
                Key::Esc => KeyOutcome::Quit,
                Key::Letter('q') => KeyOutcome::Quit,
                Key::Letter('r') => KeyOutcome::Refresh,
                Key::Up => {
                    state.move_selection(-1);
                    KeyOutcome::Continue
                },
                Key::Down => {
                    state.move_selection(1);
                    KeyOutcome::Continue
                },
                Key::PageUp => {
                    state.page_up();
                    KeyOutcome::Continue
                },
                Key::PageDown => {
                    state.page_down();
                    KeyOutcome::Continue
                },
                Key::Home => {
                    if state.filtered_indices.len() > 0 {
                        state.selected = Some(0);
                    }
                    KeyOutcome::Continue
                },
                Key::End => {
                    let len = state.filtered_indices.len();
                    if len > 0 {
                        state.selected = Some(len - 1);
                    }
                    KeyOutcome::Continue
                },
                Key::Enter => {
                    state.open_details();
                    KeyOutcome::Continue
                },
                Key::Letter('c') => {
                    state.start_input(InputKind::Category);
                    KeyOutcome::Continue
                },
                Key::Letter('d') => {
                    state.start_input(InputKind::DateRange);
                    KeyOutcome::Continue
                },
                Key::Letter('t') => {
                    state.cycle_type_filter();
                    KeyOutcome::Continue
                },
                Key::Letter('s') => {
                    state.toggle_sort();
                    KeyOutcome::Continue
                },
                Key::Letter('x') => {
                    state.clear_filters();
                    KeyOutcome::Continue
                },
                _ => KeyOutcome::Continue,
            }
        },
        Mode::Details => {
            match input.key {
                Key::Esc => {
                    state.close_details();
                    KeyOutcome::Continue
                },
                Key::Letter('q') => {
                    state.close_details();
                    KeyOutcome::Continue
                },
                Key::Letter('b') => {
                    state.close_details();
                    KeyOutcome::Continue
                },
                _ => KeyOutcome::Continue,
            }
        },
        Mode::Input(kind) => {
            if state.ctrl_cancels(input) {
                state.cancel_input();
                return KeyOutcome::Continue;
            }
            match input.key {
                Key::Esc => {
                    state.cancel_input();
                    KeyOutcome::Continue
                },
                Key::Enter => {
                    state.commit_input(kind);
                    KeyOutcome::Continue
                },
                Key::Backspace => {
                    state.input_backspace();
                    KeyOutcome::Continue
                },
                Key::Letter(ch) => {
                    state.input_char(ch);
                    KeyOutcome::Continue
                },
                _ => KeyOutcome::Continue,
            }
        },
    }
}

impl BrowseState {
    /// Whether a key event is the Control chord that cancels the modal.
    fn ctrl_cancels(&self, input: KeyInput) -> (r: bool)
        ensures
            r == (input.ctrl && (input.key == Key::Letter('c') || input.key == Key::Letter('q'))),
    {
        input.ctrl && (match input.key {
            Key::Letter(c) => c == 'c' || c == 'q',
            _ => false,
        })
    }
}

} // verus!
