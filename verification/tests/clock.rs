use asthetic_clipboard::{default_kind, ClipboardStorage, HistoryItem, Timestamp};

#[test]
fn add_stamps_the_entry_with_the_current_time() {
    let mut storage = ClipboardStorage::new();
    storage.add("a".to_string(), "text".to_string(), None, 10);
    let stamp = storage.history[0].timestamp;
    // after 2020-01-01 and before 2200-01-01
    assert!(stamp.secs > 1_577_836_800);
    assert!(stamp.secs < 7_258_118_400);
    assert!(stamp.nanos < 2_000_000_000);
    let now = chrono::Utc::now().timestamp();
    assert!((now - stamp.secs).abs() <= 5);
}

#[test]
fn add_at_keeps_the_given_timestamp() {
    let mut storage = ClipboardStorage::new();
    let first = Timestamp { secs: 1_700_000_000, nanos: 7 };
    let second = Timestamp { secs: 1_600_000_000, nanos: 9 };
    storage.add_at("a".to_string(), "text".to_string(), None, 10, first);
    storage.add_at("b".to_string(), "text".to_string(), None, 10, second);
    assert_eq!(storage.history[0].timestamp, second);
    assert_eq!(storage.history[1].timestamp, first);
    // newest first goes by insertion, not by time
    assert_eq!(storage.history[0].content, "b");
}

#[test]
fn default_kind_is_text() {
    assert_eq!(default_kind(), "text");
}

#[test]
fn new_item_is_unpinned() {
    let at = Timestamp { secs: 1, nanos: 2 };
    let item = HistoryItem::new("c".to_string(), "image".to_string(), Some("h".to_string()), at);
    assert!(!item.pinned);
    assert_eq!(item.content, "c");
    assert_eq!(item.hash.as_deref(), Some("h"));
    assert_eq!(item.timestamp, at);
    assert!(item.is_image());
    assert!(!item.is_text());
    let item = HistoryItem::new("c".to_string(), default_kind(), None, at);
    assert!(item.is_text());
    assert!(!item.is_image());
}
