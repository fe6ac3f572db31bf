use fino::add::create_transaction;
use fino::amount::Amount;
use fino::date::Date;
use fino::model::TransactionType;

#[test]
fn test_create_transaction_success() {
    let input = "2025-11-09,Test Description,100.50,income,Test Category";

    let transaction = create_transaction(input);
    assert!(transaction.is_ok());

    let transaction = transaction.unwrap();
    assert_eq!(transaction.date, Date::new(2025, 11, 9));
    assert_eq!(transaction.description, "Test Description");
    assert_eq!(transaction.amount, Amount::from_cents(10050));
    assert_eq!(transaction.transaction_type, TransactionType::Income);
    assert_eq!(transaction.category, "Test Category");
    assert_eq!(transaction.id.len(), 36);
}

#[test]
fn test_create_transaction_invalid_date() {
    let input = "invalid-date,Test Description,100.50,income,Test Category";
    let details = input.to_string();

    let transaction = create_transaction(&details);
    assert!(transaction.is_err());
    assert_eq!(
        transaction.unwrap_err(),
        "Invalid date format. Please use YYYY-MM-DD."
    );
}

#[test]
fn create_transaction_wrong_field_count() {
    let result = create_transaction("2025-11-09,only,three");
    assert_eq!(
        result.unwrap_err(),
        "Invalid number of details provided. Expected 5 details separated by commas but got 3"
    );
}

#[test]
fn create_transaction_invalid_amount() {
    let result = create_transaction("2025-11-09,Desc,not-a-number,income,Cat");
    assert_eq!(
        result.unwrap_err(),
        "Invalid amount format not-a-number. Please provide a valid decimal number."
    );
}

#[test]
fn create_transaction_invalid_type() {
    let result = create_transaction("2025-11-09,Desc,10.00,transfer,Cat");
    assert_eq!(
        result.unwrap_err(),
        "Invalid transaction type. Use 'income' or 'expense'."
    );
}

#[test]
fn create_transaction_description_too_long() {
    let long = "x".repeat(256);
    let input = format!("2025-11-09,{},10.00,income,Cat", long);
    let result = create_transaction(&input);
    assert_eq!(result.unwrap_err(), "Description too long");
}

#[test]
fn create_transaction_category_too_long() {
    let long = "x".repeat(51);
    let input = format!("2025-11-09,Desc,10.00,income,{}", long);
    let result = create_transaction(&input);
    assert_eq!(result.unwrap_err(), "Category too long");
}

#[test]
fn create_transaction_type_is_case_insensitive() {
    let tx = create_transaction("2025-11-09,Desc,10.00,EXPENSE,Cat").unwrap();
    assert_eq!(tx.transaction_type, TransactionType::Expense);
}

#[test]
fn create_transaction_trims_fields() {
    let tx = create_transaction("  2025-11-09 , Desc , 10.00 , income , Cat  ").unwrap();
    assert_eq!(tx.description, "Desc");
    assert_eq!(tx.category, "Cat");
    assert_eq!(tx.date, Date::new(2025, 11, 9));
}

#[test]
fn fresh_ids_differ_between_records() {
    let a = create_transaction("2025-11-09,Desc,10.00,income,Cat").unwrap();
    let b = create_transaction("2025-11-09,Desc,10.00,income,Cat").unwrap();
    assert_ne!(a.id, b.id);
}
