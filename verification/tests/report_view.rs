use fino::amount::Amount;
use fino::chart::{
    bucket_cell_width, bucket_labels_row, compute_category_heights, covering_category,
    lookup_color, pie_slices, scaled_bar_height,
};
use fino::date::Date;
use fino::model::{Transaction, TransactionType};
use fino::report::{auto_bucket_days, build_report, prepare_report, report_title, PALETTE_SIZE};
use fino::totals::CategoryTotal;

fn expense(id: &str, date: Date, cents: i64, category: &str) -> Transaction {
    Transaction::new(
        id.to_string(),
        date,
        "test".to_string(),
        Amount::from_cents(cents),
        TransactionType::Expense,
        category.to_string(),
    )
}

#[test]
fn three_records_bucket_daily_over_one_week() {
    let records = vec![
        expense("a", Date::new(2025, 1, 2), 1000, "Food"),
        expense("b", Date::new(2025, 1, 5), 500, "Food"),
        expense("c", Date::new(2025, 1, 20), 800, "Transport"),
    ];
    let (report, width) =
        prepare_report(&records, Date::new(2025, 1, 1), Date::new(2025, 1, 7)).unwrap();
    assert_eq!(width, 1);
    assert_eq!(report.buckets.len(), 7);

    let day2 = &report.buckets[1];
    assert_eq!(day2.start, Date::new(2025, 1, 2));
    assert_eq!(day2.total, 1000);
    assert_eq!(day2.totals.len(), 1);
    assert_eq!(day2.totals[0].category, "Food");
    assert_eq!(day2.totals[0].total, 1000);

    let day5 = &report.buckets[4];
    assert_eq!(day5.total, 500);
    assert_eq!(day5.totals[0].category, "Food");

    // the out-of-range record is excluded from every total
    assert_eq!(report.total_spend, 1500);
    let bucket_sum: u64 = report.buckets.iter().map(|b| b.total).sum();
    assert_eq!(bucket_sum, 1500);
}

#[test]
fn income_records_never_count() {
    let mut records = vec![expense("a", Date::new(2025, 1, 2), 1000, "Food")];
    records.push(Transaction::new(
        "b".to_string(),
        Date::new(2025, 1, 3),
        "salary".to_string(),
        Amount::from_cents(99999),
        TransactionType::Income,
        "Job".to_string(),
    ));
    let (report, _) =
        prepare_report(&records, Date::new(2025, 1, 1), Date::new(2025, 1, 7)).unwrap();
    assert_eq!(report.total_spend, 1000);
    assert_eq!(report.category_totals.len(), 1);
    assert_eq!(report.category_totals[0].category, "Food");
}

#[test]
fn inverted_range_is_rejected_before_any_work() {
    let records: Vec<Transaction> = Vec::new();
    let result = prepare_report(&records, Date::new(2025, 2, 1), Date::new(2025, 1, 1));
    assert_eq!(result.unwrap_err(), "Start date must be before end date.");
}

#[test]
fn empty_records_give_zero_total_buckets() {
    let records: Vec<Transaction> = Vec::new();
    let (report, _) =
        prepare_report(&records, Date::new(2025, 1, 1), Date::new(2025, 1, 3)).unwrap();
    assert_eq!(report.buckets.len(), 3);
    assert!(report.buckets.iter().all(|b| b.total == 0));
    assert_eq!(report.total_spend, 0);
}

#[test]
fn bucket_width_policy_follows_the_range() {
    assert_eq!(auto_bucket_days(1), 1);
    assert_eq!(auto_bucket_days(7), 1);
    assert_eq!(auto_bucket_days(8), 7);
    assert_eq!(auto_bucket_days(90), 7);
    assert_eq!(auto_bucket_days(91), 14);
    assert_eq!(auto_bucket_days(365), 14);
    assert_eq!(auto_bucket_days(366), (366 + 19) / 20);
    assert_eq!(auto_bucket_days(1000), (1000 + 19) / 20);
}

#[test]
fn last_bucket_is_shorter_when_the_width_does_not_divide() {
    let records: Vec<Transaction> = Vec::new();
    let report = build_report(&records, Date::new(2025, 1, 1), Date::new(2025, 1, 10), 7);
    assert_eq!(report.buckets.len(), 2);
    assert_eq!(report.buckets[0].start, Date::new(2025, 1, 1));
    assert_eq!(report.buckets[0].end, Date::new(2025, 1, 7));
    assert_eq!(report.buckets[1].start, Date::new(2025, 1, 8));
    assert_eq!(report.buckets[1].end, Date::new(2025, 1, 10));
}

#[test]
fn records_before_the_start_land_in_the_first_bucket() {
    let records = vec![expense("a", Date::new(2024, 12, 25), 700, "Food")];
    let report = build_report(&records, Date::new(2025, 1, 1), Date::new(2025, 1, 7), 1);
    assert_eq!(report.buckets[0].total, 700);
    assert_eq!(report.total_spend, 700);
}

#[test]
fn records_after_the_end_land_in_the_last_bucket() {
    // the aggregation clamps out-of-range dates instead of discarding
    // them; the range-filtering entry point is what excludes them
    let records = vec![expense("a", Date::new(2025, 2, 15), 900, "Food")];
    let report = build_report(&records, Date::new(2025, 1, 1), Date::new(2025, 1, 7), 1);
    assert_eq!(report.buckets[6].total, 900);
    assert_eq!(report.total_spend, 900);
}

#[test]
fn category_totals_sort_descending_and_colors_follow_rank() {
    let records = vec![
        expense("a", Date::new(2025, 1, 2), 100, "Transport"),
        expense("b", Date::new(2025, 1, 3), 900, "Food"),
        expense("c", Date::new(2025, 1, 4), 500, "Books"),
    ];
    let report = build_report(&records, Date::new(2025, 1, 1), Date::new(2025, 1, 7), 7);
    let names: Vec<&str> = report
        .category_totals
        .iter()
        .map(|e| e.category.as_str())
        .collect();
    assert_eq!(names, vec!["Food", "Books", "Transport"]);
    // colors follow alphabetical rank: Books 0, Food 1, Transport 2
    for color in &report.category_colors {
        let expected = match color.category.as_str() {
            "Books" => 0,
            "Food" => 1,
            "Transport" => 2,
            _ => unreachable!(),
        };
        assert_eq!(color.color, expected % PALETTE_SIZE);
    }
    assert_eq!(lookup_color(&report.category_colors, &"Food".to_string()), Some(1));
    assert_eq!(lookup_color(&report.category_colors, &"Missing".to_string()), None);
}

#[test]
fn report_titles_show_range_and_width() {
    let title = report_title(Date::new(2025, 1, 1), Date::new(2025, 3, 31), 7);
    assert_eq!(title, "01.01.2025 - 31.03.2025 (7-day buckets)");
}

fn entry(category: &str, total: u64) -> CategoryTotal {
    CategoryTotal {
        category: category.to_string(),
        total,
    }
}

#[test]
fn apportioned_heights_sum_to_the_bar_height() {
    // three nearly equal shares over 10 rows: floors lose a row, the
    // largest remainder wins it back
    let totals = vec![entry("a", 333), entry("b", 333), entry("c", 334)];
    let heights = compute_category_heights(&totals, 1000, 10);
    let sum: usize = heights.iter().map(|h| h.height).sum();
    assert_eq!(sum, 10);

    // a skewed split over 7 rows
    let totals = vec![entry("a", 1), entry("b", 1), entry("c", 998)];
    let heights = compute_category_heights(&totals, 1000, 7);
    let sum: usize = heights.iter().map(|h| h.height).sum();
    assert_eq!(sum, 7);
    assert_eq!(heights[2].height, 7);

    // the largest remainder takes the leftover row
    let totals = vec![entry("a", 250), entry("b", 250), entry("c", 500)];
    let heights = compute_category_heights(&totals, 1000, 5);
    assert_eq!(heights[0].height, 1);
    assert_eq!(heights[1].height, 1);
    assert_eq!(heights[2].height, 3);

    // remainder ties break toward earlier entries
    let totals = vec![entry("a", 250), entry("b", 250), entry("c", 500)];
    let heights = compute_category_heights(&totals, 1000, 6);
    assert_eq!(heights[0].height, 2);
    assert_eq!(heights[1].height, 1);
    assert_eq!(heights[2].height, 3);
}

#[test]
fn zero_total_buckets_render_blank() {
    let totals = vec![entry("a", 0)];
    let heights = compute_category_heights(&totals, 0, 10);
    assert_eq!(heights.len(), 1);
    assert_eq!(heights[0].height, 0);
}

#[test]
fn stack_covering_walks_cumulative_heights() {
    let totals = vec![entry("a", 300), entry("b", 700)];
    let heights = compute_category_heights(&totals, 1000, 10);
    assert_eq!(heights[0].height, 3);
    assert_eq!(heights[1].height, 7);
    assert_eq!(covering_category(&heights, 1), Some(0));
    assert_eq!(covering_category(&heights, 3), Some(0));
    assert_eq!(covering_category(&heights, 4), Some(1));
    assert_eq!(covering_category(&heights, 10), Some(1));
    assert_eq!(covering_category(&heights, 11), None);
}

#[test]
fn cell_width_is_an_equal_share_at_least_one() {
    assert_eq!(bucket_cell_width(80, 7), 11);
    assert_eq!(bucket_cell_width(3, 7), 1);
    assert_eq!(bucket_cell_width(14, 7), 2);
}

#[test]
fn scaled_heights_round_up_against_the_tallest() {
    assert_eq!(scaled_bar_height(1000, 1000, 10), 10);
    assert_eq!(scaled_bar_height(1, 1000, 10), 1);
    assert_eq!(scaled_bar_height(0, 1000, 10), 0);
    assert_eq!(scaled_bar_height(500, 1000, 9), 5);
}

#[test]
fn labels_blank_out_below_four_cells() {
    let records = vec![expense("a", Date::new(2025, 1, 2), 100, "Food")];
    let report = build_report(&records, Date::new(2025, 1, 1), Date::new(2025, 1, 14), 7);
    let row = bucket_labels_row(&report, 20, 3);
    assert_eq!(row, " ".repeat(20));
    let row = bucket_labels_row(&report, 20, 7);
    assert_eq!(row, "01-01  01-08  ");
}

#[test]
fn pie_slices_accumulate_in_listed_order() {
    let cats = vec![entry("a", 600), entry("b", 300), entry("c", 100)];
    let slices = pie_slices(&cats, 1000);
    assert_eq!(slices.len(), 3);
    assert_eq!((slices[0].cum_start, slices[0].cum_end), (0, 600));
    assert_eq!((slices[1].cum_start, slices[1].cum_end), (600, 900));
    assert_eq!((slices[2].cum_start, slices[2].cum_end), (900, 1000));
}
