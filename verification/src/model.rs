//! The history as a mathematical sequence, newest entry first, and what each
//! operation of the store makes of it.

use vstd::prelude::*;
use crate::clock::Timestamp;
use crate::item::{image_tag, text_tag, ItemView};

verus! {

/// The entries that capacity eviction never takes.
pub open spec fn pinned() -> spec_fn(ItemView) -> bool {
    |item: ItemView| item.pinned
}

/// The entries that capacity eviction may take.
pub open spec fn unpinned() -> spec_fn(ItemView) -> bool {
    |item: ItemView| !item.pinned
}

pub open spec fn pinned_count(s: Seq<ItemView>) -> nat {
    s.filter(pinned()).len()
}

pub open spec fn unpinned_count(s: Seq<ItemView>) -> nat {
    s.filter(unpinned()).len()
}

/// Whether `item` stands for the same capture as a new entry with the given
/// content, kind and hash: a text entry repeats every entry with its content,
/// an image entry with a hash repeats every entry with that hash.
pub open spec fn repeats(
    item: ItemView,
    content: Seq<char>,
    kind: Seq<char>,
    hash: Option<Seq<char>>,
) -> bool {
    if kind == text_tag() {
        item.content == content
    } else if kind == image_tag() {
        hash is Some && item.hash == hash
    } else {
        false
    }
}

/// The entries that a new entry with the given content, kind and hash does
/// not repeat.
pub open spec fn distinct_from(
    content: Seq<char>,
    kind: Seq<char>,
    hash: Option<Seq<char>>,
) -> spec_fn(ItemView) -> bool {
    |item: ItemView| !repeats(item, content, kind, hash)
}

/// The history without the entries that the new one repeats, in their order.
pub open spec fn without_repeats(
    s: Seq<ItemView>,
    content: Seq<char>,
    kind: Seq<char>,
    hash: Option<Seq<char>>,
) -> Seq<ItemView> {
    s.filter(distinct_from(content, kind, hash))
}

/// The entry that `add` makes: unpinned, stamped with the capture time.
pub open spec fn new_entry(
    content: Seq<char>,
    kind: Seq<char>,
    hash: Option<Seq<char>>,
    timestamp: Timestamp,
) -> ItemView {
    ItemView { content, timestamp, pinned: false, kind, hash }
}

/// The number of unpinned entries that fit beside the pinned ones.
pub open spec fn unpinned_budget(s: Seq<ItemView>, max_history: nat) -> nat {
    if max_history > pinned_count(s) {
        (max_history - pinned_count(s)) as nat
    } else {
        0
    }
}

/// Whether the entry at index `i` outlives an eviction pass with the given
/// budget: every pinned entry does, and an unpinned one does while fewer than
/// `budget` unpinned entries stand before it.
pub open spec fn survives(s: Seq<ItemView>, budget: nat, i: int) -> bool {
    s[i].pinned || unpinned_count(s.take(i)) < budget
}

/// The entries that outlive an eviction pass with the given budget, in their
/// order.
pub open spec fn survivors(s: Seq<ItemView>, budget: nat) -> Seq<ItemView>
    decreases s.len(),
{
    if s.len() == 0 {
        s
    } else if survives(s, budget, s.len() - 1) {
        survivors(s.drop_last(), budget).push(s.last())
    } else {
        survivors(s.drop_last(), budget)
    }
}

/// The indices of the entries that outlive an eviction pass with the given
/// budget, in rising order.
pub open spec fn survivor_indices(s: Seq<ItemView>, budget: nat) -> Seq<int>
    decreases s.len(),
{
    if s.len() == 0 {
        Seq::empty()
    } else if survives(s, budget, s.len() - 1) {
        survivor_indices(s.drop_last(), budget).push(s.len() - 1)
    } else {
        survivor_indices(s.drop_last(), budget)
    }
}

/// `sub` holds the entries of `s` at the indices `at`, which rise strictly:
/// `sub` is `s` with some entries left out and none moved.
pub open spec fn embeds(sub: Seq<ItemView>, s: Seq<ItemView>, at: Seq<int>) -> bool {
    &&& at.len() == sub.len()
    &&& forall|k: int| 0 <= k < at.len() ==> 0 <= #[trigger] at[k] < s.len() && sub[k] == s[at[k]]
    &&& forall|j: int, k: int| 0 <= j < k < at.len() ==> at[j] < at[k]
}

/// `sub` is `s` with some entries left out and none moved.
pub open spec fn is_subsequence(sub: Seq<ItemView>, s: Seq<ItemView>) -> bool {
    exists|at: Seq<int>| embeds(sub, s, at)
}

/// The capacity pass: a history longer than `max_history` keeps its pinned
/// entries and, of the unpinned ones, the newest that still fit.
pub open spec fn limited(s: Seq<ItemView>, max_history: nat) -> Seq<ItemView> {
    if s.len() > max_history {
        survivors(s, unpinned_budget(s, max_history))
    } else {
        s
    }
}

/// The history after a new entry was added: repeats removed, the new entry
/// in front, then the capacity pass.
pub open spec fn added(
    s: Seq<ItemView>,
    content: Seq<char>,
    kind: Seq<char>,
    hash: Option<Seq<char>>,
    timestamp: Timestamp,
    max_history: nat,
) -> Seq<ItemView> {
    limited(
        seq![new_entry(content, kind, hash, timestamp)] + without_repeats(s, content, kind, hash),
        max_history,
    )
}

/// One capture handed to `add`.
pub struct Capture {
    pub content: Seq<char>,
    pub kind: Seq<char>,
    pub hash: Option<Seq<char>>,
    pub timestamp: Timestamp,
}

/// The history after a run of captures was added one by one, the first of
/// `captures` first, each with the same capacity.
pub open spec fn added_all(s: Seq<ItemView>, captures: Seq<Capture>, max_history: nat) -> Seq<
    ItemView,
>
    decreases captures.len(),
{
    if captures.len() == 0 {
        s
    } else {
        let capture = captures.last();
        added(
            added_all(s, captures.drop_last(), max_history),
            capture.content,
            capture.kind,
            capture.hash,
            capture.timestamp,
            max_history,
        )
    }
}

/// Whether two entries stand for the same capture: two text entries with the
/// same content, or two image entries with the same hash.
pub open spec fn same_capture(a: ItemView, b: ItemView) -> bool {
    ||| a.is_text() && b.is_text() && a.content == b.content
    ||| a.is_image() && b.is_image() && a.hash is Some && a.hash == b.hash
}

/// No capture is held twice.
pub open spec fn holds_each_capture_once(s: Seq<ItemView>) -> bool {
    forall|i: int, j: int| 0 <= i < j < s.len() ==> !same_capture(s[i], s[j])
}

/// Every entry is text without a hash or an image with one.
pub open spec fn all_well_formed(s: Seq<ItemView>) -> bool {
    forall|i: int| 0 <= i < s.len() ==> (#[trigger] s[i]).well_formed()
}

} // verus!
