use mouzi::model::WatchedFolder;
use mouzi::watcher::{folders_to_watch, on_file_event, BatchReport, IgnoreList, PendingQueue};

const SEC: u64 = 1_000_000_000;

#[test]
fn rescheduling_keeps_one_entry() {
    let mut q = PendingQueue::new();
    q.schedule("a".to_string(), 0);
    q.schedule("b".to_string(), SEC);
    q.schedule("a".to_string(), SEC);
    assert_eq!(q.len(), 2);
    // "a" was rescheduled at 1s, so at 2.5s only nothing has settled yet
    assert!(q.take_ready(SEC * 2 + SEC / 2).is_empty());
    assert_eq!(q.take_ready(3 * SEC), vec!["b", "a"]);
    assert_eq!(q.len(), 0);
}

#[test]
fn settle_time_is_two_seconds() {
    let mut q = PendingQueue::new();
    q.schedule("a".to_string(), 10 * SEC);
    assert!(q.take_ready(12 * SEC - 1).is_empty());
    assert_eq!(q.len(), 1);
    assert_eq!(q.take_ready(12 * SEC), vec!["a"]);
}

#[test]
fn clock_before_schedule_counts_as_no_time() {
    let mut q = PendingQueue::new();
    q.schedule("a".to_string(), 10 * SEC);
    assert!(q.take_ready(0).is_empty());
    assert_eq!(q.len(), 1);
}

#[test]
fn restored_file_is_ignored_for_five_seconds() {
    let mut ig = IgnoreList::new();
    ig.insert("C:/d/a.txt".to_string(), 100 * SEC);
    assert!(ig.check_event("C:/d/a.txt", 104 * SEC));
    assert!(!ig.check_event("C:/d/b.txt", 104 * SEC));
    assert!(!ig.check_event("C:/d/a.txt", 105 * SEC));
    // the record ran out and was removed
    assert!(!ig.check_event("C:/d/a.txt", 101 * SEC));
}

#[test]
fn reinserting_refreshes_the_window() {
    let mut ig = IgnoreList::new();
    ig.insert("a".to_string(), 0);
    ig.insert("a".to_string(), 10 * SEC);
    assert!(ig.check_event("a", 12 * SEC));
}

#[test]
fn events_for_ignored_files_are_dropped() {
    let mut ig = IgnoreList::new();
    let mut q = PendingQueue::new();
    ig.insert("a".to_string(), 0);
    assert!(!on_file_event(&mut ig, &mut q, "a".to_string(), SEC));
    assert_eq!(q.len(), 0);
    assert!(on_file_event(&mut ig, &mut q, "b".to_string(), SEC));
    assert!(on_file_event(&mut ig, &mut q, "a".to_string(), 6 * SEC));
    assert_eq!(q.len(), 2);
}

#[test]
fn only_enabled_folders_are_watched() {
    let folders = vec![
        WatchedFolder { id: Some(1), path: "C:/Downloads".to_string(), enabled: true, mode: "silent".to_string() },
        WatchedFolder { id: Some(2), path: "C:/Desktop".to_string(), enabled: false, mode: "silent".to_string() },
        WatchedFolder { id: Some(3), path: "D:/Inbox".to_string(), enabled: true, mode: "suggest".to_string() },
    ];
    assert_eq!(folders_to_watch(&folders), vec!["C:/Downloads", "D:/Inbox"]);
}

#[test]
fn notification_for_nothing_one_and_many() {
    let mut report = BatchReport::new();
    assert_eq!(report.notification_body(), None);
    report.record("a.pdf".to_string(), "Documents".to_string());
    assert_eq!(report.notification_body().unwrap(), "a.pdf → Documents");
    report.record("b.jpg".to_string(), "Images".to_string());
    report.record("c.zip".to_string(), "Archives".to_string());
    assert_eq!(report.organized, 3);
    assert_eq!(report.last_file_name, "c.zip");
    assert_eq!(report.notification_body().unwrap(), "Organized 3 files");
}
