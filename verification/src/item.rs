//! One clipboard capture and its mathematical view.

use vstd::prelude::*;
use crate::clock::Timestamp;

verus! {

/// The kind tag of a text entry.
pub open spec fn text_tag() -> Seq<char> {
    "text"@
}

/// The kind tag of an image entry.
pub open spec fn image_tag() -> Seq<char> {
    "image"@
}

/// One clipboard capture.
///
/// `content` is the literal text, or the path of the saved payload for an
/// image. `hash` is the content-addressed identity of an image payload.
#[derive(Debug, Clone)]
pub struct HistoryItem {
    pub content: String,
    pub timestamp: Timestamp,
    pub pinned: bool,
    pub kind: String,
    pub hash: Option<String>,
}

/// What a [`HistoryItem`] holds, as plain mathematical values.
pub struct ItemView {
    pub content: Seq<char>,
    pub timestamp: Timestamp,
    pub pinned: bool,
    pub kind: Seq<char>,
    pub hash: Option<Seq<char>>,
}

/// The view of an optional string.
pub open spec fn view_of(s: Option<String>) -> Option<Seq<char>> {
    match s {
        Some(h) => Some(h@),
        None => None,
    }
}

impl View for HistoryItem {
    type V = ItemView;

    open spec fn view(&self) -> ItemView {
        ItemView {
            content: self.content@,
            timestamp: self.timestamp,
            pinned: self.pinned,
            kind: self.kind@,
            hash: view_of(self.hash),
        }
    }
}

impl ItemView {
    pub open spec fn is_text(self) -> bool {
        self.kind == text_tag()
    }

    pub open spec fn is_image(self) -> bool {
        self.kind == image_tag()
    }

    /// An entry is either text or an image, and carries a hash exactly when
    /// it is an image.
    pub open spec fn well_formed(self) -> bool {
        &&& self.is_text() || self.is_image()
        &&& self.hash is Some <==> self.is_image()
    }
}

/// The kind that an entry has when none is recorded for it: text.
pub fn default_kind() -> (kind: String)
    ensures
        kind@ == text_tag(),
{
    "text".to_owned()
}

/// Whether `kind` is the tag of a text entry.
pub fn is_text_kind(kind: &String) -> (b: bool)
    ensures
        b == (kind@ == text_tag()),
{
    let tag = "text".to_owned();
    *kind == tag
}

/// Whether `kind` is the tag of an image entry.
pub fn is_image_kind(kind: &String) -> (b: bool)
    ensures
        b == (kind@ == image_tag()),
{
    let tag = "image".to_owned();
    *kind == tag
}

impl HistoryItem {
    /// A fresh, unpinned entry.
    pub fn new(content: String, kind: String, hash: Option<String>, timestamp: Timestamp) -> (item: HistoryItem)
        ensures
            item@ == (ItemView {
                content: content@,
                timestamp,
                pinned: false,
                kind: kind@,
                hash: view_of(hash),
            }),
    {
        HistoryItem { content, timestamp, pinned: false, kind, hash }
    }

    /// Whether this entry is a text entry.
    pub fn is_text(&self) -> (b: bool)
        ensures
            b == self@.is_text(),
    {
        is_text_kind(&self.kind)
    }

    /// Whether this entry is an image entry.
    pub fn is_image(&self) -> (b: bool)
        ensures
            b == self@.is_image(),
    {
        is_image_kind(&self.kind)
    }
}

} // verus!
