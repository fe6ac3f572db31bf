use fino::amount::Amount;
use fino::date::Date;
use fino::importer::transactions_from_csv_text;
use fino::model::TransactionType;

#[test]
fn csv_rows_become_records() {
    let csv_data = "2025-11-10,Salary,1500.00,income,Job\n2025-11-11,Coffee,3.50,expense,Food\n";
    let records = transactions_from_csv_text(csv_data).unwrap();
    assert_eq!(records.len(), 2);

    assert_eq!(records[0].date, Date::new(2025, 11, 10));
    assert_eq!(records[0].description, "Salary");
    assert_eq!(records[0].amount, Amount::from_cents(150000));
    assert_eq!(records[0].transaction_type, TransactionType::Income);
    assert_eq!(records[0].category, "Job");

    assert_eq!(records[1].date, Date::new(2025, 11, 11));
    assert_eq!(records[1].amount, Amount::from_cents(350));
    assert_eq!(records[1].transaction_type, TransactionType::Expense);
}

#[test]
fn csv_fields_are_trimmed_like_typed_input() {
    let csv_data = "2025-11-10 , Salary , 1500.00 , income , Job\n";
    let records = transactions_from_csv_text(csv_data).unwrap();
    assert_eq!(records[0].description, "Salary");
    assert_eq!(records[0].category, "Job");
}

#[test]
fn bad_rows_name_their_line() {
    let csv_data = "bad-date,Salary,1500.00,income,Job\n";
    let error = transactions_from_csv_text(csv_data).unwrap_err();
    assert!(error.contains("Line 1"));
    assert!(error.contains("Invalid date"));
}

#[test]
fn wrong_column_counts_are_rejected() {
    let csv_data = "2025-11-10,Salary,1500.00\n";
    let error = transactions_from_csv_text(csv_data).unwrap_err();
    assert_eq!(error, "Invalid number of columns on line 1: expected 5, got 3");
}

#[test]
fn empty_text_imports_nothing() {
    let records = transactions_from_csv_text("").unwrap();
    assert_eq!(records.len(), 0);
}
