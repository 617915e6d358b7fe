//! What a clipboard watcher remembers between two looks at the clipboard,
//! and when it takes what it sees for a new capture.

use vstd::prelude::*;
use crate::text::{blank, is_blank};

verus! {

/// The pause between two looks at the clipboard, in milliseconds.
pub const POLL_INTERVAL_MS: u64 = 500;

/// What the watcher saw last. After a text capture the image hash is
/// forgotten and after an image capture the text, so that the same content
/// is taken again once something else was on the clipboard in between.
pub struct Watcher {
    pub last_text: String,
    pub last_image_hash: String,
}

impl Watcher {
    /// A watcher that has seen nothing yet.
    pub fn new() -> (watcher: Watcher)
        ensures
            watcher.last_text@.len() == 0,
            watcher.last_image_hash@.len() == 0,
    {
        Watcher { last_text: String::new(), last_image_hash: String::new() }
    }

    /// Looks at the text on the clipboard. It is a new capture when it is
    /// not blank and differs from the last text seen; the watcher then
    /// remembers it and forgets the last image.
    pub fn observe_text(&mut self, content: &str) -> (fresh: bool)
        ensures
            fresh == (content@ != old(self).last_text@ && !is_blank(content@)),
            fresh ==> final(self).last_text@ == content@ && final(self).last_image_hash@.len()
                == 0,
            !fresh ==> *final(self) == *old(self),
    {
        let seen = content.to_owned();
        if seen == self.last_text || blank(content) {
            false
        } else {
            self.last_text = seen;
            self.last_image_hash = String::new();
            true
        }
    }

    /// Looks at the hash of the image on the clipboard. It is a new capture
    /// when it is not empty and differs from the last hash seen; the watcher
    /// then remembers it and forgets the last text.
    pub fn observe_image(&mut self, hash: &str) -> (fresh: bool)
        ensures
            fresh == (hash@ != old(self).last_image_hash@ && hash@.len() != 0),
            fresh ==> final(self).last_image_hash@ == hash@ && final(self).last_text@.len() == 0,
            !fresh ==> *final(self) == *old(self),
    {
        let seen = hash.to_owned();
        if seen == self.last_image_hash || hash.is_empty() {
            false
        } else {
            self.last_image_hash = seen;
            self.last_text = String::new();
            true
        }
    }
}

} // verus!
