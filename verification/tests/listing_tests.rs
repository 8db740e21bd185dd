use comhra::listing::{order_conversations, ConvEntry};

fn entry(name: &str, mtime: i64) -> ConvEntry {
    ConvEntry { name: name.to_string(), mtime }
}

fn names(entries: &[ConvEntry]) -> Vec<String> {
    entries.iter().map(|e| e.name.clone()).collect()
}

#[test]
fn scenario_listing_is_most_recent_first() {
    // files modified at 10:00, 10:05 and 10:02 come back 10:05, 10:02, 10:00
    let sorted = order_conversations(vec![
        entry("ten", 36000),
        entry("five-past", 36300),
        entry("two-past", 36120),
    ]);
    assert_eq!(names(&sorted), vec!["five-past", "two-past", "ten"]);
}

#[test]
fn distinct_times_order_descending() {
    let sorted = order_conversations(vec![entry("a", 1), entry("b", 3), entry("c", 2)]);
    assert_eq!(names(&sorted), vec!["b", "c", "a"]);
    assert_eq!(sorted[0].mtime, 3);
    assert_eq!(sorted[2].mtime, 1);
}

#[test]
fn ties_break_deterministically_by_name() {
    let sorted = order_conversations(vec![
        entry("zeta", 5),
        entry("alpha", 5),
        entry("mid", 5),
    ]);
    assert_eq!(names(&sorted), vec!["alpha", "mid", "zeta"]);
    // the same entries in another arrival order give the same listing
    let again = order_conversations(vec![
        entry("mid", 5),
        entry("zeta", 5),
        entry("alpha", 5),
    ]);
    assert_eq!(names(&again), names(&sorted));
}

#[test]
fn empty_listing_stays_empty() {
    assert!(order_conversations(Vec::new()).is_empty());
}
