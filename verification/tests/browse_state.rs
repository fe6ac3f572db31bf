use fino::amount::Amount;
use fino::browse::{
    handle_key, parse_date_range, split_once_dash_range, BrowseState, InputKind, Key, KeyInput,
    KeyOutcome, Mode, SortOrder,
};
use fino::date::Date;
use fino::model::{Transaction, TransactionType};

fn record(id: &str, date: Date, kind: TransactionType, category: &str) -> Transaction {
    Transaction::new(
        id.to_string(),
        date,
        "test".to_string(),
        Amount::from_cents(100),
        kind,
        category.to_string(),
    )
}

fn press(key: Key) -> KeyInput {
    KeyInput { key, is_press: true, ctrl: false }
}

#[test]
fn category_filter_matches_case_insensitively_and_exactly() {
    let records = vec![
        record("a", Date::new(2025, 1, 1), TransactionType::Expense, "Food"),
        record("b", Date::new(2025, 1, 2), TransactionType::Expense, "Transport"),
    ];
    let mut state = BrowseState::new(records);
    assert_eq!(state.filtered_indices.len(), 2);

    state.filter_category = Some("food".to_string());
    state.recompute();
    assert_eq!(state.filtered_indices, vec![0]);

    state.filter_category = Some("foo".to_string());
    state.recompute();
    assert_eq!(state.filtered_indices.len(), 0);
    assert_eq!(state.selected, None);
}

#[test]
fn date_range_input_parses_and_inverted_ranges_are_rejected() {
    let parsed = parse_date_range("2025-01-01..2025-01-31").unwrap();
    assert_eq!(parsed.0, Some(Date::new(2025, 1, 1)));
    assert_eq!(parsed.1, Some(Date::new(2025, 1, 31)));

    let inverted = parse_date_range("2025-02-01..2025-01-01");
    assert_eq!(
        inverted.unwrap_err(),
        "Invalid range: start date must be <= end date"
    );
}

#[test]
fn date_range_accepts_comma_dash_and_open_sides() {
    let parsed = parse_date_range("2025-01-01,2025-01-31").unwrap();
    assert_eq!(parsed.0, Some(Date::new(2025, 1, 1)));
    assert_eq!(parsed.1, Some(Date::new(2025, 1, 31)));

    let parsed = parse_date_range("2025-01-01-2025-01-31").unwrap();
    assert_eq!(parsed.0, Some(Date::new(2025, 1, 1)));
    assert_eq!(parsed.1, Some(Date::new(2025, 1, 31)));

    let parsed = parse_date_range("..2025-01-31").unwrap();
    assert_eq!(parsed.0, None);
    assert_eq!(parsed.1, Some(Date::new(2025, 1, 31)));

    let parsed = parse_date_range("2025-01-01..").unwrap();
    assert_eq!(parsed.0, Some(Date::new(2025, 1, 1)));
    assert_eq!(parsed.1, None);

    assert_eq!(
        parse_date_range("nonsense").unwrap_err(),
        "Invalid date range. Use YYYY-MM-DD..YYYY-MM-DD"
    );
    assert_eq!(
        parse_date_range("2025-99-01..2025-01-31").unwrap_err(),
        "Invalid date '2025-99-01'. Use YYYY-MM-DD."
    );
}

#[test]
fn dash_heuristic_needs_ten_character_sides() {
    let split = split_once_dash_range("2025-01-01-2025-01-31").unwrap();
    assert_eq!(split.0, "2025-01-01");
    assert_eq!(split.1, "2025-01-31");
    assert!(split_once_dash_range("a-b").is_none());
    assert!(split_once_dash_range("2025-01-01").is_none());
}

#[test]
fn rejected_range_input_keeps_the_active_filter() {
    let records = vec![record(
        "a",
        Date::new(2025, 1, 15),
        TransactionType::Expense,
        "Food",
    )];
    let mut state = BrowseState::new(records);
    state.filter_from = Some(Date::new(2025, 1, 1));
    state.filter_to = Some(Date::new(2025, 1, 31));
    state.recompute();

    state.start_input(InputKind::DateRange);
    assert_eq!(state.input_buffer, "2025-01-01..2025-01-31");
    state.input_buffer = "2025-02-01..2025-01-01".to_string();
    state.commit_input(InputKind::DateRange);

    assert_eq!(state.mode, Mode::Input(InputKind::DateRange));
    assert_eq!(
        state.input_error,
        Some("Invalid range: start date must be <= end date".to_string())
    );
    assert_eq!(state.filter_from, Some(Date::new(2025, 1, 1)));
    assert_eq!(state.filter_to, Some(Date::new(2025, 1, 31)));
}

#[test]
fn page_down_moves_by_pages_and_clamps() {
    let mut records = Vec::new();
    for i in 0..25 {
        records.push(record(
            &format!("id-{:02}", i),
            Date::new(2025, 1, 1),
            TransactionType::Expense,
            "Food",
        ));
    }
    let mut state = BrowseState::new(records);
    state.set_page_size(10);
    assert_eq!(state.selected, Some(0));

    state.page_down();
    assert_eq!(state.selected, Some(10));
    state.page_down();
    assert_eq!(state.selected, Some(20));
    state.page_down();
    assert_eq!(state.selected, Some(24));
    state.page_up();
    assert_eq!(state.selected, Some(14));
}

#[test]
fn toggling_sort_twice_restores_the_view() {
    let records = vec![
        record("b", Date::new(2025, 1, 2), TransactionType::Expense, "Food"),
        record("a", Date::new(2025, 1, 2), TransactionType::Expense, "Food"),
        record("c", Date::new(2025, 1, 5), TransactionType::Income, "Job"),
    ];
    let mut state = BrowseState::new(records);
    let original = state.filtered_indices.clone();
    assert_eq!(original, vec![2, 0, 1]);

    state.toggle_sort();
    assert_eq!(state.sort_order, SortOrder::DateAsc);
    assert_eq!(state.filtered_indices, vec![1, 0, 2]);

    state.toggle_sort();
    assert_eq!(state.sort_order, SortOrder::DateDesc);
    assert_eq!(state.filtered_indices, original);
}

#[test]
fn type_filter_cycles_through_all_states() {
    let records = vec![
        record("a", Date::new(2025, 1, 1), TransactionType::Expense, "Food"),
        record("b", Date::new(2025, 1, 2), TransactionType::Income, "Job"),
    ];
    let mut state = BrowseState::new(records);
    assert_eq!(state.filtered_indices.len(), 2);

    state.cycle_type_filter();
    assert_eq!(state.filter_type, Some(TransactionType::Expense));
    assert_eq!(state.filtered_indices, vec![0]);

    state.cycle_type_filter();
    assert_eq!(state.filter_type, Some(TransactionType::Income));
    assert_eq!(state.filtered_indices, vec![1]);

    state.cycle_type_filter();
    assert_eq!(state.filter_type, None);
    assert_eq!(state.filtered_indices.len(), 2);
}

#[test]
fn clearing_filters_restores_everything() {
    let records = vec![
        record("a", Date::new(2025, 1, 1), TransactionType::Expense, "Food"),
        record("b", Date::new(2025, 2, 2), TransactionType::Income, "Job"),
    ];
    let mut state = BrowseState::new(records);
    state.filter_category = Some("Food".to_string());
    state.filter_type = Some(TransactionType::Expense);
    state.filter_from = Some(Date::new(2025, 1, 1));
    state.filter_to = Some(Date::new(2025, 1, 31));
    state.recompute();
    assert_eq!(state.filtered_indices, vec![0]);

    state.clear_filters();
    assert_eq!(state.filtered_indices.len(), 2);
}

#[test]
fn details_snapshot_follows_the_selection() {
    let records = vec![
        record("a", Date::new(2025, 1, 1), TransactionType::Expense, "Food"),
        record("b", Date::new(2025, 1, 2), TransactionType::Expense, "Fuel"),
    ];
    let mut state = BrowseState::new(records);
    // newest first: selection 0 is record "b"
    state.open_details();
    assert_eq!(state.mode, Mode::Details);
    assert_eq!(state.details_tx.as_ref().unwrap().id, "b");
    state.close_details();
    assert_eq!(state.mode, Mode::List);
    assert!(state.details_tx.is_none());
}

#[test]
fn keys_drive_the_state_machine() {
    let records = vec![
        record("a", Date::new(2025, 1, 1), TransactionType::Expense, "Food"),
        record("b", Date::new(2025, 1, 2), TransactionType::Expense, "Fuel"),
    ];
    let mut state = BrowseState::new(records);

    // releases are ignored
    let release = KeyInput { key: Key::Letter('q'), is_press: false, ctrl: false };
    assert_eq!(handle_key(&mut state, release), KeyOutcome::Continue);

    assert_eq!(handle_key(&mut state, press(Key::Down)), KeyOutcome::Continue);
    assert_eq!(state.selected, Some(1));
    assert_eq!(handle_key(&mut state, press(Key::Home)), KeyOutcome::Continue);
    assert_eq!(state.selected, Some(0));
    assert_eq!(handle_key(&mut state, press(Key::End)), KeyOutcome::Continue);
    assert_eq!(state.selected, Some(1));

    assert_eq!(handle_key(&mut state, press(Key::Letter('r'))), KeyOutcome::Refresh);

    assert_eq!(handle_key(&mut state, press(Key::Enter)), KeyOutcome::Continue);
    assert_eq!(state.mode, Mode::Details);
    assert_eq!(handle_key(&mut state, press(Key::Letter('b'))), KeyOutcome::Continue);
    assert_eq!(state.mode, Mode::List);

    // type a category filter through the modal
    assert_eq!(handle_key(&mut state, press(Key::Letter('c'))), KeyOutcome::Continue);
    assert_eq!(state.mode, Mode::Input(InputKind::Category));
    for c in "fuel".chars() {
        handle_key(&mut state, press(Key::Letter(c)));
    }
    assert_eq!(state.input_buffer, "fuel");
    assert_eq!(handle_key(&mut state, press(Key::Enter)), KeyOutcome::Continue);
    assert_eq!(state.mode, Mode::List);
    assert_eq!(state.filtered_indices, vec![1]);

    // Control chords cancel the modal without committing
    handle_key(&mut state, press(Key::Letter('c')));
    handle_key(&mut state, press(Key::Backspace));
    assert_eq!(state.input_buffer, "fue");
    let chord = KeyInput { key: Key::Letter('c'), is_press: true, ctrl: true };
    assert_eq!(handle_key(&mut state, chord), KeyOutcome::Continue);
    assert_eq!(state.mode, Mode::List);
    assert_eq!(state.filter_category, Some("fuel".to_string()));

    assert_eq!(handle_key(&mut state, press(Key::Esc)), KeyOutcome::Quit);
    assert_eq!(handle_key(&mut state, press(Key::Letter('q'))), KeyOutcome::Quit);
}

#[test]
fn refresh_replaces_the_snapshot() {
    let records = vec![record(
        "a",
        Date::new(2025, 1, 1),
        TransactionType::Expense,
        "Food",
    )];
    let mut state = BrowseState::new(records);
    assert_eq!(state.filtered_indices.len(), 1);

    let fresh = vec![
        record("b", Date::new(2025, 1, 2), TransactionType::Expense, "Food"),
        record("c", Date::new(2025, 1, 3), TransactionType::Expense, "Fuel"),
    ];
    state.refresh(fresh);
    assert_eq!(state.filtered_indices.len(), 2);
}

#[test]
fn sort_labels_match_the_direction() {
    assert_eq!(SortOrder::DateDesc.label(), "date \u{2193}");
    assert_eq!(SortOrder::DateAsc.label(), "date \u{2191}");
    assert_eq!(SortOrder::DateDesc.toggle(), SortOrder::DateAsc);
    assert_eq!(SortOrder::DateAsc.toggle(), SortOrder::DateDesc);
}
