use fino::amount::{amount_from_str, Amount};
use fino::budget::{decreased_amount, increased_amount, validate_budget_input};
use fino::commands::{check_for_command, UserCommands};
use fino::date::{date_from_day_number, parse_iso_date, Date};
use fino::remove::parse_remove_id;
use fino::text::{eq_ignore_case, split_char, str_le, str_lt, trim};

#[test]
fn parse_iso_date_accepts_a_real_day() {
    assert_eq!(parse_iso_date("2025-11-09"), Some(Date::new(2025, 11, 9)));
}

#[test]
fn parse_iso_date_rejects_bad_shapes() {
    assert_eq!(parse_iso_date("2025-13-01"), None);
    assert_eq!(parse_iso_date("2025-02-30"), None);
    assert_eq!(parse_iso_date("2025-1-05"), None);
    assert_eq!(parse_iso_date("not-a-date"), None);
    assert_eq!(parse_iso_date(""), None);
}

#[test]
fn leap_years_have_february_29() {
    assert_eq!(parse_iso_date("2024-02-29"), Some(Date::new(2024, 2, 29)));
    assert_eq!(parse_iso_date("2025-02-29"), None);
    assert_eq!(parse_iso_date("1900-02-29"), None);
    assert_eq!(parse_iso_date("2000-02-29"), Some(Date::new(2000, 2, 29)));
}

#[test]
fn day_numbers_count_days() {
    let jan1 = Date::new(2025, 1, 1);
    let jan2 = Date::new(2025, 1, 2);
    let jan7 = Date::new(2025, 1, 7);
    assert_eq!(jan2.day_number() - jan1.day_number(), 1);
    assert_eq!(jan7.day_number() - jan1.day_number(), 6);
    assert_eq!(Date::new(1, 1, 1).day_number(), 0);
}

#[test]
fn day_number_round_trips() {
    let d = Date::new(2025, 11, 9);
    let n = d.day_number();
    assert_eq!(date_from_day_number(n), d);
}

#[test]
fn dates_format_back_to_text() {
    let d = Date::new(2025, 3, 7);
    assert_eq!(d.to_iso_text(), "2025-03-07");
    assert_eq!(d.to_month_day_text(), "03-07");
    assert_eq!(d.to_dotted_text(), "07.03.2025");
}

#[test]
fn amounts_parse_to_cents() {
    assert_eq!(amount_from_str("100.50"), Some(Amount::from_cents(10050)));
    assert_eq!(amount_from_str("10"), Some(Amount::from_cents(1000)));
    assert_eq!(amount_from_str("-3.5"), Some(Amount::from_cents(-350)));
    assert_eq!(amount_from_str("+7.25"), Some(Amount::from_cents(725)));
    assert_eq!(amount_from_str("0.05"), Some(Amount::from_cents(5)));
    assert_eq!(amount_from_str("not-a-number"), None);
    assert_eq!(amount_from_str(""), None);
    assert_eq!(amount_from_str("1.234"), None);
    assert_eq!(amount_from_str("."), None);
}

#[test]
fn amounts_format_with_two_decimals() {
    assert_eq!(Amount::from_cents(10050).to_text(), "100.50");
    assert_eq!(Amount::from_cents(-350).to_text(), "-3.50");
    assert_eq!(Amount::from_cents(0).to_text(), "0.00");
    assert_eq!(Amount::from_cents(5).to_text(), "0.05");
}

#[test]
fn trim_strips_whitespace_only_at_the_ends() {
    assert_eq!(trim("  a b  "), "a b");
    assert_eq!(trim("\t\nx\r "), "x");
    assert_eq!(trim(""), "");
    assert_eq!(trim("   "), "");
}

#[test]
fn split_char_keeps_empty_parts() {
    let parts = split_char("a,b,,c", ',');
    assert_eq!(parts, vec!["a", "b", "", "c"]);
    let whole = split_char("abc", ',');
    assert_eq!(whole, vec!["abc"]);
}

#[test]
fn string_order_is_lexicographic() {
    assert!(str_le("abc", "abd"));
    assert!(!str_le("abd", "abc"));
    assert!(str_le("ab", "abc"));
    assert!(str_lt("ab", "abc"));
    assert!(!str_lt("abc", "abc"));
    assert!(str_le("abc", "abc"));
}

#[test]
fn case_insensitive_match_is_exact_not_substring() {
    assert!(eq_ignore_case("FOOD", "food"));
    assert!(eq_ignore_case("Food", "fOOd"));
    assert!(!eq_ignore_case("foo", "Food"));
}

#[test]
fn commands_parse_by_word() {
    assert_eq!(check_for_command("add"), UserCommands::Add);
    assert_eq!(check_for_command("remove"), UserCommands::Remove);
    assert_eq!(check_for_command("exit"), UserCommands::Exit);
    assert_eq!(check_for_command("print"), UserCommands::Print);
    assert_eq!(check_for_command("import"), UserCommands::Import);
    assert_eq!(check_for_command("search"), UserCommands::Search);
    assert_eq!(check_for_command("frobnicate"), UserCommands::Exit);
}

#[test]
fn budget_input_checks_amount_then_category() {
    assert_eq!(
        validate_budget_input("Food", "100.50").unwrap(),
        Amount::from_cents(10050)
    );
    assert_eq!(
        validate_budget_input("Food", "not-a-number").unwrap_err(),
        "Invalid budget amount 'not-a-number'. Must be a valid number"
    );
    assert_eq!(
        validate_budget_input("", "100").unwrap_err(),
        "Category cannot be empty"
    );
    assert_eq!(
        validate_budget_input("  ", "not-a-number").unwrap_err(),
        "Invalid budget amount 'not-a-number'. Must be a valid number"
    );
}

#[test]
fn budget_arithmetic_is_exact() {
    let increased = increased_amount(None, Amount::from_cents(2500));
    assert_eq!(increased, Amount::from_cents(2500));
    let increased = increased_amount(Some(Amount::from_cents(1000)), Amount::from_cents(525));
    assert_eq!(increased, Amount::from_cents(1525));
    let decreased = decreased_amount(Some(Amount::from_cents(2000)), Amount::from_cents(750));
    assert_eq!(decreased.unwrap(), Amount::from_cents(1250));
    let negative = decreased_amount(Some(Amount::from_cents(500)), Amount::from_cents(1000));
    assert_eq!(negative.unwrap_err(), "Budget cannot be negative");
}

#[test]
fn remove_id_is_canonicalized() {
    let id = parse_remove_id("550E8400-E29B-41D4-A716-446655440999").unwrap();
    assert_eq!(id, "550e8400-e29b-41d4-a716-446655440999");
}

#[test]
fn remove_id_rejects_bad_input() {
    assert_eq!(
        parse_remove_id("").unwrap_err(),
        "Transaction ID cannot be empty."
    );
    assert_eq!(
        parse_remove_id("invalid-uuid").unwrap_err(),
        "Invalid transaction ID format. Please provide a valid UUID."
    );
}
