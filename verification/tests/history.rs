use asthetic_clipboard::ClipboardStorage;

#[test]
fn test_add_and_limit() {
    let mut storage = ClipboardStorage::default();
    for i in 0..60 {
        storage.add(format!("content {}", i), "text".to_string(), None, 50);
    }
    // Should be capped at 50 (unpinned)
    assert_eq!(storage.history.len(), 50);
    // Newest should be at 0
    assert_eq!(storage.history[0].content, "content 59");
}

#[test]
fn test_pinning_logic() {
    let mut storage = ClipboardStorage::default();

    // Add item and pin it
    storage.add("pinned item".to_string(), "text".to_string(), None, 50);
    storage.history[0].pinned = true;

    // Add 60 more items
    for i in 0..60 {
        storage.add(format!("content {}", i), "text".to_string(), None, 50);
    }

    // Pinned item should still be there
    assert!(storage.history.iter().any(|i| i.content == "pinned item"));

    // Size logic: the pinned item counts toward the capacity, so
    // 1 pinned + 49 unpinned = 50.
    assert_eq!(storage.history.len(), 50);

    let count_pinned = storage.history.iter().filter(|i| i.pinned).count();
    let count_unpinned = storage.history.iter().filter(|i| !i.pinned).count();
    assert_eq!(count_pinned, 1);
    assert_eq!(count_unpinned, 49);
}

fn text(storage: &mut ClipboardStorage, content: &str, max_history: usize) {
    storage.add(content.to_string(), "text".to_string(), None, max_history);
}

fn image(storage: &mut ClipboardStorage, path: &str, hash: &str, max_history: usize) {
    storage.add(path.to_string(), "image".to_string(), Some(hash.to_string()), max_history);
}

fn contents(storage: &ClipboardStorage) -> Vec<String> {
    storage.history.iter().map(|item| item.content.clone()).collect()
}

#[test]
fn new_store_is_empty() {
    let storage = ClipboardStorage::new();
    assert!(storage.is_empty());
    assert_eq!(storage.len(), 0);
    assert!(ClipboardStorage::default().history.is_empty());
}

#[test]
fn add_puts_newest_first() {
    let mut storage = ClipboardStorage::new();
    text(&mut storage, "a", 10);
    text(&mut storage, "b", 10);
    text(&mut storage, "c", 10);
    assert_eq!(contents(&storage), vec!["c", "b", "a"]);
    assert!(storage.history.iter().all(|item| !item.pinned));
    assert!(storage.history.iter().all(|item| item.kind == "text" && item.hash.is_none()));
}

#[test]
fn unique_texts_fill_to_capacity() {
    for max_history in 0..8usize {
        let mut storage = ClipboardStorage::new();
        for n in 0..12usize {
            assert_eq!(storage.len(), n.min(max_history));
            text(&mut storage, &format!("entry {}", n), max_history);
        }
        assert_eq!(storage.len(), max_history.min(12));
    }
}

#[test]
fn repeated_text_moves_to_front() {
    let mut storage = ClipboardStorage::new();
    text(&mut storage, "a", 10);
    text(&mut storage, "b", 10);
    text(&mut storage, "c", 10);
    text(&mut storage, "a", 10);
    assert_eq!(contents(&storage), vec!["a", "c", "b"]);
}

#[test]
fn repeated_text_replaces_pinned_entry() {
    let mut storage = ClipboardStorage::new();
    text(&mut storage, "a", 10);
    text(&mut storage, "b", 10);
    assert!(storage.set_pinned(1, true));
    text(&mut storage, "a", 10);
    assert_eq!(contents(&storage), vec!["a", "b"]);
    assert!(!storage.history[0].pinned);
}

#[test]
fn repeated_image_hash_moves_to_front() {
    let mut storage = ClipboardStorage::new();
    image(&mut storage, "/img/1.png", "h1", 10);
    image(&mut storage, "/img/2.png", "h2", 10);
    text(&mut storage, "note", 10);
    image(&mut storage, "/img/other.png", "h1", 10);
    assert_eq!(contents(&storage), vec!["/img/other.png", "note", "/img/2.png"]);
    assert_eq!(storage.history[0].hash.as_deref(), Some("h1"));
    assert_eq!(storage.history[0].kind, "image");
}

#[test]
fn image_without_hash_removes_nothing() {
    let mut storage = ClipboardStorage::new();
    image(&mut storage, "/img/1.png", "h1", 10);
    storage.add("/img/1.png".to_string(), "image".to_string(), None, 10);
    assert_eq!(storage.len(), 2);
}

#[test]
fn text_removes_entries_of_any_kind_with_its_content() {
    let mut storage = ClipboardStorage::new();
    image(&mut storage, "same", "h1", 10);
    text(&mut storage, "same", 10);
    assert_eq!(storage.len(), 1);
    assert_eq!(storage.history[0].kind, "text");
}

#[test]
fn unknown_kind_removes_nothing() {
    let mut storage = ClipboardStorage::new();
    text(&mut storage, "a", 10);
    storage.add("a".to_string(), "file".to_string(), Some("h".to_string()), 10);
    storage.add("a".to_string(), "file".to_string(), Some("h".to_string()), 10);
    assert_eq!(storage.len(), 3);
}

#[test]
fn eviction_keeps_order_and_pinned_entries() {
    let mut storage = ClipboardStorage::new();
    for name in ["a", "b", "c", "d", "e"] {
        text(&mut storage, name, 10);
    }
    // newest first: e d c b a
    assert!(storage.set_pinned(3, true)); // b
    assert!(storage.set_pinned(4, true)); // a
    text(&mut storage, "f", 4);
    // f e d c b a -> two pinned, room for two unpinned
    assert_eq!(contents(&storage), vec!["f", "e", "b", "a"]);
    assert!(storage.history[2].pinned && storage.history[3].pinned);
}

#[test]
fn eviction_keeps_pinned_entries_between_unpinned_ones() {
    let mut storage = ClipboardStorage::new();
    for name in ["a", "b", "c", "d"] {
        text(&mut storage, name, 10);
    }
    // d c b a
    assert!(storage.set_pinned(1, true)); // c
    assert!(storage.set_pinned(3, true)); // a
    text(&mut storage, "e", 3);
    // e d c b a with budget 1
    assert_eq!(contents(&storage), vec!["e", "c", "a"]);
}

#[test]
fn new_entry_is_dropped_when_pinned_entries_fill_the_capacity() {
    let mut storage = ClipboardStorage::new();
    text(&mut storage, "a", 10);
    text(&mut storage, "b", 10);
    assert!(storage.set_pinned(0, true));
    assert!(storage.set_pinned(1, true));
    text(&mut storage, "c", 2);
    assert_eq!(contents(&storage), vec!["b", "a"]);
    text(&mut storage, "d", 1);
    assert_eq!(contents(&storage), vec!["b", "a"]);
}

#[test]
fn repeated_text_is_lost_when_pinned_entries_fill_the_capacity() {
    let mut storage = ClipboardStorage::new();
    text(&mut storage, "b", 10);
    text(&mut storage, "a", 10);
    assert!(storage.set_pinned(0, true));
    // pinned a, unpinned b; capacity 1
    text(&mut storage, "b", 1);
    assert_eq!(contents(&storage), vec!["a"]);
}

#[test]
fn capacity_zero_keeps_only_pinned_entries() {
    let mut storage = ClipboardStorage::new();
    text(&mut storage, "a", 0);
    assert!(storage.is_empty());
    text(&mut storage, "a", 5);
    assert!(storage.set_pinned(0, true));
    text(&mut storage, "b", 0);
    assert_eq!(contents(&storage), vec!["a"]);
}

#[test]
fn history_at_capacity_is_left_alone() {
    let mut storage = ClipboardStorage::new();
    text(&mut storage, "a", 3);
    text(&mut storage, "b", 3);
    text(&mut storage, "c", 3);
    assert_eq!(contents(&storage), vec!["c", "b", "a"]);
    text(&mut storage, "d", 3);
    assert_eq!(contents(&storage), vec!["d", "c", "b"]);
}

#[test]
fn pinned_entries_outlive_any_number_of_adds() {
    let mut storage = ClipboardStorage::new();
    text(&mut storage, "keep 1", 5);
    text(&mut storage, "drop", 5);
    text(&mut storage, "keep 2", 5);
    assert!(storage.set_pinned(0, true));
    assert!(storage.set_pinned(2, true));
    for n in 0..200 {
        text(&mut storage, &format!("noise {}", n), 5);
        let pinned: Vec<String> = storage
            .history
            .iter()
            .filter(|item| item.pinned)
            .map(|item| item.content.clone())
            .collect();
        assert_eq!(pinned, vec!["keep 2", "keep 1"]);
        assert!(storage.len() <= 5);
    }
    assert_eq!(storage.len(), 5);
    assert_eq!(storage.history[0].content, "noise 199");
}

#[test]
fn enforce_limit_counts_pinned_entries() {
    let mut storage = ClipboardStorage::new();
    for name in ["a", "b", "c", "d", "e", "f"] {
        text(&mut storage, name, 10);
    }
    assert!(storage.set_pinned(5, true)); // a
    assert_eq!(storage.count_pinned(), 1);
    storage.enforce_limit(6);
    assert_eq!(storage.len(), 6);
    storage.enforce_limit(3);
    assert_eq!(contents(&storage), vec!["f", "e", "a"]);
}

#[test]
fn keep_within_budget_walks_from_the_front() {
    let mut storage = ClipboardStorage::new();
    for name in ["a", "b", "c", "d"] {
        text(&mut storage, name, 10);
    }
    assert!(storage.set_pinned(2, true)); // b
    storage.keep_within(1);
    assert_eq!(contents(&storage), vec!["d", "b"]);
    storage.keep_within(0);
    assert_eq!(contents(&storage), vec!["b"]);
}

#[test]
fn retain_pinned_is_the_capacity_pass_at_the_pinned_count() {
    let build = || {
        let mut storage = ClipboardStorage::new();
        for name in ["a", "b", "c", "d", "e"] {
            text(&mut storage, name, 10);
        }
        assert!(storage.set_pinned(1, true));
        assert!(storage.set_pinned(4, true));
        storage
    };
    let mut retained = build();
    retained.retain_pinned();
    let mut limited = build();
    let pinned = limited.count_pinned();
    limited.enforce_limit(pinned);
    assert_eq!(contents(&retained), vec!["d", "a"]);
    assert_eq!(contents(&retained), contents(&limited));
}

#[test]
fn remove_at_deletes_one_entry() {
    let mut storage = ClipboardStorage::new();
    for name in ["a", "b", "c"] {
        text(&mut storage, name, 10);
    }
    let removed = storage.remove_at(1);
    assert_eq!(removed.map(|item| item.content), Some("b".to_string()));
    assert_eq!(contents(&storage), vec!["c", "a"]);
    assert!(storage.remove_at(2).is_none());
    assert_eq!(storage.len(), 2);
}

#[test]
fn set_pinned_changes_one_flag() {
    let mut storage = ClipboardStorage::new();
    for name in ["a", "b", "c"] {
        text(&mut storage, name, 10);
    }
    assert!(storage.set_pinned(1, true));
    assert!(!storage.set_pinned(3, true));
    let flags: Vec<bool> = storage.history.iter().map(|item| item.pinned).collect();
    assert_eq!(flags, vec![false, true, false]);
    assert_eq!(contents(&storage), vec!["c", "b", "a"]);
    assert!(storage.set_pinned(1, false));
    assert_eq!(storage.count_pinned(), 0);
}

#[test]
fn toggle_pinned_flips_the_flag() {
    let mut storage = ClipboardStorage::new();
    text(&mut storage, "a", 10);
    assert!(storage.toggle_pinned(0));
    assert!(storage.history[0].pinned);
    assert!(storage.toggle_pinned(0));
    assert!(!storage.history[0].pinned);
    assert!(!storage.toggle_pinned(1));
}

#[test]
fn clear_drops_pinned_entries_too() {
    let mut storage = ClipboardStorage::new();
    text(&mut storage, "a", 10);
    assert!(storage.set_pinned(0, true));
    storage.clear();
    assert!(storage.is_empty());
}

#[test]
fn remove_repeats_keeps_the_rest_in_order() {
    let mut storage = ClipboardStorage::new();
    for name in ["a", "b", "c"] {
        text(&mut storage, name, 10);
    }
    storage.remove_repeats(&"b".to_string(), &"text".to_string(), &None);
    assert_eq!(contents(&storage), vec!["c", "a"]);
    storage.remove_repeats(&"c".to_string(), &"image".to_string(), &Some("c".to_string()));
    assert_eq!(contents(&storage), vec!["c", "a"]);
}

#[test]
fn add_text_and_add_image_make_well_formed_entries() {
    let mut storage = ClipboardStorage::new();
    storage.add_text("hello".to_string(), 10);
    storage.add_image("/img/h.png".to_string(), "h".to_string(), 10);
    storage.add_text("hello".to_string(), 10);
    storage.add_image("/img/again.png".to_string(), "h".to_string(), 10);
    assert_eq!(contents(&storage), vec!["/img/again.png", "hello"]);
    assert_eq!(storage.history[0].kind, "image");
    assert_eq!(storage.history[0].hash.as_deref(), Some("h"));
    assert_eq!(storage.history[1].kind, "text");
    assert_eq!(storage.history[1].hash, None);
}
