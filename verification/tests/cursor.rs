use sol_accounts_plugin::block_printer::write_cursor;
use sol_accounts_plugin::cursor::CursorTracker;

/// Stands for the cursor file: overwritten whenever a report makes a slot durable.
fn report(tracker: &mut CursorTracker, content: &mut String, slot: u64) {
    if let Some(text) = write_cursor(tracker, slot) {
        *content = text;
    }
}

#[test]
fn test_write_cursor() {
    let mut tracker = CursorTracker::new();
    let mut content = String::new();

    // First pair - 1,1
    report(&mut tracker, &mut content, 1);
    assert_eq!(content, "");
    report(&mut tracker, &mut content, 1);
    assert_eq!(content, "1");

    // Second pair - 2,3
    report(&mut tracker, &mut content, 2);
    assert_eq!(content, "1");
    report(&mut tracker, &mut content, 3);
    assert_eq!(content, "1");

    // Third pair - 2,3
    report(&mut tracker, &mut content, 2);
    assert_eq!(content, "1");
    report(&mut tracker, &mut content, 3);
    assert_eq!(content, "3");

    // Fourth pair - 4,4
    report(&mut tracker, &mut content, 4);
    assert_eq!(content, "3");
    report(&mut tracker, &mut content, 4);
    assert_eq!(content, "4");
}

#[test]
fn advance_debounces_irregular_reports() {
    let mut tracker = CursorTracker::new();
    let mut durable = Vec::new();
    for slot in [1u64, 1, 2, 3, 2, 3, 4, 4] {
        if let Some(slot) = tracker.advance(slot) {
            durable.push(slot);
        }
    }
    assert_eq!(durable, vec![1, 3, 4]);
    assert!(!durable.contains(&2));
    assert_eq!(tracker.last(), Some(4));
}

#[test]
fn advance_ignores_an_older_slot() {
    let mut tracker = CursorTracker::new();
    assert_eq!(tracker.advance(7), None);
    assert_eq!(tracker.last(), Some(7));
    assert_eq!(tracker.advance(5), None);
    assert_eq!(tracker.last(), Some(7));
    assert_eq!(tracker.advance(5), None);
    assert_eq!(tracker.last(), Some(7));
    assert_eq!(tracker.advance(7), Some(7));
    assert_eq!(tracker.last(), Some(7));
}

#[test]
fn fresh_tracker_is_below_slot_zero() {
    let mut tracker = CursorTracker::new();
    assert_eq!(tracker.last(), None);
    assert_eq!(tracker.advance(0), None);
    assert_eq!(tracker.last(), Some(0));
    assert_eq!(tracker.advance(0), Some(0));
}

#[test]
fn a_third_report_of_the_same_slot_is_durable_again() {
    let mut tracker = CursorTracker::new();
    assert_eq!(tracker.advance(9), None);
    assert_eq!(tracker.advance(9), Some(9));
    assert_eq!(tracker.advance(9), Some(9));
}

#[test]
fn durable_slots_never_regress_and_were_reported_twice() {
    let reports: Vec<u64> = vec![3, 1, 3, 2, 5, 5, 4, 5, 8, 6, 8, 8, 0];
    let mut tracker = CursorTracker::new();
    let mut durable = Vec::new();
    for (at, slot) in reports.iter().enumerate() {
        if let Some(made) = tracker.advance(*slot) {
            let seen = reports[..=at].iter().filter(|s| **s == made).count();
            assert!(seen >= 2);
            durable.push(made);
        }
    }
    assert_eq!(durable, vec![3, 5, 5, 8, 8]);
    assert!(durable.windows(2).all(|pair| pair[0] <= pair[1]));
}

#[test]
fn write_cursor_gives_the_decimal_text() {
    let mut tracker = CursorTracker::new();
    assert_eq!(write_cursor(&mut tracker, 18_446_744_073_709_551_615), None);
    assert_eq!(
        write_cursor(&mut tracker, 18_446_744_073_709_551_615),
        Some(String::from("18446744073709551615"))
    );
    assert_eq!(write_cursor(&mut tracker, 10), None);
}
