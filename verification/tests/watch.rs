use asthetic_clipboard::watch::Watcher;

#[test]
fn text_is_taken_once() {
    let mut watcher = Watcher::new();
    assert!(watcher.observe_text("hello"));
    assert!(!watcher.observe_text("hello"));
    assert!(watcher.observe_text("world"));
    assert_eq!(watcher.last_text, "world");
    assert_eq!(watcher.last_image_hash, "");
}

#[test]
fn blank_text_is_never_taken() {
    let mut watcher = Watcher::new();
    assert!(!watcher.observe_text(""));
    assert!(!watcher.observe_text("  \n"));
    assert_eq!(watcher.last_text, "");
}

#[test]
fn image_is_taken_once() {
    let mut watcher = Watcher::new();
    assert!(watcher.observe_image("h1"));
    assert!(!watcher.observe_image("h1"));
    assert!(!watcher.observe_image(""));
    assert!(watcher.observe_image("h2"));
    assert_eq!(watcher.last_image_hash, "h2");
}

#[test]
fn a_capture_of_the_other_kind_makes_the_watcher_forget() {
    let mut watcher = Watcher::new();
    assert!(watcher.observe_text("hello"));
    assert!(watcher.observe_image("h1"));
    assert_eq!(watcher.last_text, "");
    assert!(watcher.observe_text("hello"));
    assert_eq!(watcher.last_image_hash, "");
    assert!(watcher.observe_image("h1"));
}
