use genericbot::date::DateTime;
use genericbot::store::ReminderStore;

fn at(day: u8, hour: u8) -> DateTime {
    DateTime::new(2023, 7, day, hour, 0, 0).unwrap()
}

#[test]
fn list_is_sorted_by_target_time() {
    let mut store = ReminderStore::new();
    let created = at(1, 0);
    store.insert(7, 100, "second", created, at(20, 0));
    store.insert(7, 100, "first", created, at(10, 0));
    store.insert(7, 100, "third", created, at(25, 0));
    let listed = store.list(7);
    let bodies: Vec<&str> = listed.iter().map(|(_, b)| b.as_str()).collect();
    assert_eq!(bodies, vec!["first", "second", "third"]);
    assert!(listed[0].0.timestamp() <= listed[1].0.timestamp());
    assert!(listed[1].0.timestamp() <= listed[2].0.timestamp());
}

#[test]
fn delete_removes_exactly_the_kth_row() {
    let mut store = ReminderStore::new();
    let created = at(1, 0);
    for (body, day) in [("a", 10u8), ("b", 12), ("c", 14), ("d", 16)] {
        store.insert(1, 5, body, created, at(day, 0));
    }
    assert!(store.delete(1, 2));
    let bodies: Vec<String> = store.list(1).into_iter().map(|(_, b)| b).collect();
    assert_eq!(bodies, vec!["a", "c", "d"]);
    // Out-of-range positions remove nothing and report false.
    assert!(!store.delete(1, 4));
    assert!(!store.delete(1, 0));
    assert_eq!(store.list(1).len(), 3);
}

#[test]
fn delete_only_touches_that_owner() {
    let mut store = ReminderStore::new();
    let created = at(1, 0);
    store.insert(1, 5, "mine", created, at(10, 0));
    store.insert(2, 5, "theirs", created, at(10, 0));
    assert!(store.delete(1, 1));
    assert_eq!(store.list(1).len(), 0);
    let other = store.list(2);
    assert_eq!(other.len(), 1);
    assert_eq!(other[0].1, "theirs");
}

#[test]
fn equal_targets_keep_insertion_order() {
    let mut store = ReminderStore::new();
    let created = at(1, 0);
    let when = at(15, 12);
    store.insert(3, 5, "earlier insert", created, when);
    store.insert(3, 5, "later insert", created, when);
    let bodies: Vec<String> = store.list(3).into_iter().map(|(_, b)| b).collect();
    assert_eq!(bodies, vec!["earlier insert", "later insert"]);
    assert!(store.delete(3, 1));
    let bodies: Vec<String> = store.list(3).into_iter().map(|(_, b)| b).collect();
    assert_eq!(bodies, vec!["later insert"]);
}

#[test]
fn single_reminder_deleted_exactly_once() {
    // Two positional deletes of the same last reminder: the first
    // succeeds, the second finds nothing.
    let mut store = ReminderStore::new();
    store.insert(9, 5, "only", at(1, 0), at(2, 0));
    assert!(store.delete(9, 1));
    assert!(!store.delete(9, 1));
    assert_eq!(store.list(9).len(), 0);
}

#[test]
fn interleaved_inserts_and_deletes_stay_sorted() {
    let mut store = ReminderStore::new();
    let created = at(1, 0);
    store.insert(4, 5, "late", created, at(28, 0));
    store.insert(4, 5, "early", created, at(2, 0));
    assert!(store.delete(4, 1));
    store.insert(4, 5, "middle", created, at(15, 0));
    store.insert(4, 5, "earliest", created, at(1, 1));
    let bodies: Vec<String> = store.list(4).into_iter().map(|(_, b)| b).collect();
    assert_eq!(bodies, vec!["earliest", "middle", "late"]);
    let times = store.list(4);
    for w in times.windows(2) {
        assert!(w[0].0.timestamp() <= w[1].0.timestamp());
    }
}

#[test]
fn delete_for_unknown_owner_reports_false() {
    let mut store = ReminderStore::new();
    assert!(!store.delete(42, 1));
    assert_eq!(store.list(42).len(), 0);
}
