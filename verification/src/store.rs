//! The history store: an ordered sequence of entries, newest first.

use vstd::prelude::*;
use crate::clock::{now, Timestamp};
use crate::item::{
    image_tag, is_image_kind, is_text_kind, text_tag, view_of, HistoryItem, ItemView,
};
use crate::laws::{
    lemma_add_holds_capture_once, lemma_add_holds_each_capture_once, lemma_add_keeps_pinned,
    lemma_add_keeps_well_formed, lemma_add_preserves_order, lemma_capacity_bound,
    lemma_eviction_keeps_pinned, lemma_eviction_preserves_order, lemma_kinds_differ,
    lemma_only_pinned_left, lemma_retain_pinned_is_capacity_pass,
};
use crate::model::{
    added, all_well_formed, distinct_from, embeds, holds_each_capture_once, is_subsequence,
    limited, new_entry, pinned, pinned_count, repeats, survivor_indices, survivors,
    unpinned_count, without_repeats,
};

verus! {

/// The clipboard history, newest entry first.
#[derive(Debug)]
pub struct ClipboardStorage {
    pub history: Vec<HistoryItem>,
}

/// The views of a sequence of entries.
pub open spec fn views(items: Seq<HistoryItem>) -> Seq<ItemView> {
    items.map_values(|item: HistoryItem| item@)
}

impl View for ClipboardStorage {
    type V = Seq<ItemView>;

    open spec fn view(&self) -> Seq<ItemView> {
        views(self.history@)
    }
}

/// Whether `item` repeats a new entry with the given content, kind and hash.
fn item_repeats(
    item: &HistoryItem,
    content: &String,
    is_text: bool,
    is_image: bool,
    hash: &Option<String>,
) -> (b: bool)
    ensures
        is_text ==> b == (item@.content == content@),
        !is_text && is_image ==> b == (hash is Some && item@.hash == view_of(*hash)),
        !is_text && !is_image ==> !b,
{
    if is_text {
        item.content == *content
    } else if is_image {
        match hash {
            Some(h) => match &item.hash {
                Some(g) => *g == *h,
                None => false,
            },
            None => false,
        }
    } else {
        false
    }
}

impl Default for ClipboardStorage {
    /// The empty history.
    fn default() -> (storage: ClipboardStorage)
        ensures
            storage@ == Seq::<ItemView>::empty(),
    {
        ClipboardStorage::new()
    }
}

impl ClipboardStorage {
    /// The empty history.
    pub fn new() -> (storage: ClipboardStorage)
        ensures
            storage@ == Seq::<ItemView>::empty(),
    {
        let storage = ClipboardStorage { history: Vec::new() };
        assert(storage@ =~= Seq::<ItemView>::empty());
        storage
    }

    /// The number of entries.
    pub fn len(&self) -> (n: usize)
        ensures
            n == self@.len(),
    {
        self.history.len()
    }

    /// Whether the history holds no entry.
    pub fn is_empty(&self) -> (b: bool)
        ensures
            b == (self@.len() == 0),
    {
        self.history.len() == 0
    }

    /// Deletes the entry at `index` and hands it out. An index past the end
    /// deletes nothing.
    pub fn remove_at(&mut self, index: usize) -> (removed: Option<HistoryItem>)
        ensures
            index < old(self)@.len() ==> removed is Some && removed->0@ == old(self)@[index as int]
                && final(self)@ == old(self)@.remove(index as int),
            index >= old(self)@.len() ==> removed is None && final(self)@ == old(self)@,
    {
        if index < self.history.len() {
            let item = self.history.remove(index);
            assert(self@ =~= old(self)@.remove(index as int));
            Some(item)
        } else {
            None
        }
    }

    /// Sets the pin flag of the entry at `index` and says whether there is
    /// such an entry. Nothing else changes: no entry moves, none leaves.
    pub fn set_pinned(&mut self, index: usize, pinned: bool) -> (found: bool)
        ensures
            found == (index < old(self)@.len()),
            found ==> final(self)@ == old(self)@.update(
                index as int,
                (ItemView { pinned, ..old(self)@[index as int] }),
            ),
            !found ==> final(self)@ == old(self)@,
    {
        if index < self.history.len() {
            self.history[index].pinned = pinned;
            assert(self@ =~= old(self)@.update(
                index as int,
                (ItemView { pinned, ..old(self)@[index as int] }),
            ));
            true
        } else {
            false
        }
    }

    /// Flips the pin flag of the entry at `index` and says whether there is
    /// such an entry.
    pub fn toggle_pinned(&mut self, index: usize) -> (found: bool)
        ensures
            found == (index < old(self)@.len()),
            found ==> final(self)@ == old(self)@.update(
                index as int,
                (ItemView { pinned: !old(self)@[index as int].pinned, ..old(self)@[index as int] }),
            ),
            !found ==> final(self)@ == old(self)@,
    {
        if index < self.history.len() {
            let pinned = !self.history[index].pinned;
            self.set_pinned(index, pinned)
        } else {
            false
        }
    }

    /// Drops every unpinned entry and keeps the pinned ones in their order.
    /// That is the capacity pass with the number of pinned entries as the
    /// capacity.
    pub fn retain_pinned(&mut self)
        ensures
            final(self)@ == old(self)@.filter(pinned()),
            final(self)@ == limited(old(self)@, pinned_count(old(self)@)),
    {
        proof {
            lemma_retain_pinned_is_capacity_pass(old(self)@);
        }
        let mut taken: Vec<HistoryItem> = Vec::new();
        core::mem::swap(&mut taken, &mut self.history);
        let ghost before = views(taken@);
        for item in it: taken
            invariant
                before == views(it.seq()),
                views(self.history@) == before.take(it.index() as int).filter(pinned()),
        {
            proof {
                let k = it.index() as int;
                assert(before.take(k + 1).drop_last() =~= before.take(k));
                reveal(Seq::filter);
            }
            if item.pinned {
                self.history.push(item);
            }
        }
        assert(before.take(before.len() as int) =~= before);
    }

    /// Drops every entry, pinned or not.
    pub fn clear(&mut self)
        ensures
            final(self)@ == Seq::<ItemView>::empty(),
    {
        self.history.clear();
        assert(self@ =~= Seq::<ItemView>::empty());
    }

    /// Removes every entry that a new entry with the given content, kind and
    /// hash repeats, keeping the others in their order.
    pub fn remove_repeats(&mut self, content: &String, kind: &String, hash: &Option<String>)
        ensures
            final(self)@ == without_repeats(old(self)@, content@, kind@, view_of(*hash)),
    {
        let is_text = is_text_kind(kind);
        let is_image = is_image_kind(kind);
        let mut taken: Vec<HistoryItem> = Vec::new();
        core::mem::swap(&mut taken, &mut self.history);
        let ghost before = views(taken@);
        let ghost fresh = distinct_from(content@, kind@, view_of(*hash));
        for item in it: taken
            invariant
                is_text == (kind@ == text_tag()),
                is_image == (kind@ == image_tag()),
                fresh == distinct_from(content@, kind@, view_of(*hash)),
                before == views(it.seq()),
                views(self.history@) == before.take(it.index() as int).filter(fresh),
        {
            proof {
                let k = it.index() as int;
                assert(before.take(k + 1).drop_last() =~= before.take(k));
                reveal(Seq::filter);
            }
            if !item_repeats(&item, content, is_text, is_image, hash) {
                self.history.push(item);
            }
        }
        assert(before.take(before.len() as int) =~= before);
    }

    /// The number of pinned entries.
    pub fn count_pinned(&self) -> (n: usize)
        ensures
            n == pinned_count(self@),
    {
        let mut n: usize = 0;
        let mut i: usize = 0;
        while i < self.history.len()
            invariant
                i <= self.history.len(),
                n <= i,
                n == pinned_count(self@.take(i as int)),
            decreases self.history.len() - i,
        {
            proof {
                assert(self@.take(i + 1).drop_last() =~= self@.take(i as int));
                reveal(Seq::filter);
            }
            if self.history[i].pinned {
                n += 1;
            }
            i += 1;
        }
        assert(self@.take(i as int) =~= self@);
        n
    }

    /// One eviction pass: walks the history once from the newest entry,
    /// keeps every pinned entry and the first `budget` unpinned ones, and
    /// drops the rest.
    pub fn keep_within(&mut self, budget: usize)
        ensures
            final(self)@ == survivors(old(self)@, budget as nat),
            final(self)@.filter(pinned()) == old(self)@.filter(pinned()),
            embeds(final(self)@, old(self)@, survivor_indices(old(self)@, budget as nat)),
    {
        proof {
            lemma_eviction_keeps_pinned(old(self)@, budget as nat);
            lemma_eviction_preserves_order(old(self)@, budget as nat);
        }
        let mut taken: Vec<HistoryItem> = Vec::new();
        core::mem::swap(&mut taken, &mut self.history);
        let ghost before = views(taken@);
        let mut kept_unpinned: usize = 0;
        for item in it: taken
            invariant
                before == views(it.seq()),
                kept_unpinned <= budget,
                kept_unpinned < budget ==> kept_unpinned == unpinned_count(
                    before.take(it.index() as int),
                ),
                kept_unpinned == budget ==> unpinned_count(before.take(it.index() as int))
                    >= budget,
                views(self.history@) == survivors(before.take(it.index() as int), budget as nat),
        {
            proof {
                let k = it.index() as int;
                assert(before.take(k + 1).drop_last() =~= before.take(k));
                assert(before.take(k + 1).take(k) =~= before.take(k));
                reveal(Seq::filter);
            }
            if item.pinned {
                self.history.push(item);
            } else if kept_unpinned < budget {
                self.history.push(item);
                kept_unpinned += 1;
            }
        }
        assert(before.take(before.len() as int) =~= before);
    }

    /// The capacity pass: a history longer than `max_history` keeps its
    /// pinned entries and, of the unpinned ones, the newest that still fit.
    /// Afterwards the history fits, unless the pinned entries alone are more
    /// than fit; no pinned entry has left and no entry has moved.
    pub fn enforce_limit(&mut self, max_history: usize)
        ensures
            final(self)@ == limited(old(self)@, max_history as nat),
            final(self)@.len() == if old(self)@.len() <= max_history {
                old(self)@.len()
            } else if pinned_count(old(self)@) >= max_history {
                pinned_count(old(self)@)
            } else {
                max_history as nat
            },
            final(self)@.filter(pinned()) == old(self)@.filter(pinned()),
            is_subsequence(final(self)@, old(self)@),
    {
        proof {
            lemma_capacity_bound(old(self)@, max_history as nat);
        }
        if self.history.len() > max_history {
            let pinned_items = self.count_pinned();
            let budget = if max_history > pinned_items {
                max_history - pinned_items
            } else {
                0
            };
            self.keep_within(budget);
        }
    }

    /// Adds a capture made at `timestamp`: removes the entries that it
    /// repeats, puts it in front, unpinned, and runs the capacity pass.
    ///
    /// The first clause says exactly what the history is afterwards. The
    /// others spell out what follows from it: the history fits its capacity
    /// unless the pinned entries alone exceed it; no pinned entry leaves but
    /// those that the capture repeats; no entry is moved; the capture stands
    /// in front exactly when the pinned entries leave room for it, and no
    /// entry behind the front repeats it; a history that held no capture
    /// twice holds none twice.
    pub fn add_at(
        &mut self,
        content: String,
        kind: String,
        hash: Option<String>,
        max_history: usize,
        timestamp: Timestamp,
    )
        ensures
            final(self)@ == added(
                old(self)@,
                content@,
                kind@,
                view_of(hash),
                timestamp,
                max_history as nat,
            ),
            final(self)@.len() <= max_history || final(self)@.len() == pinned_count(final(self)@),
            final(self)@.filter(pinned()) == without_repeats(
                old(self)@,
                content@,
                kind@,
                view_of(hash),
            ).filter(pinned()),
            is_subsequence(
                final(self)@,
                seq![new_entry(content@, kind@, view_of(hash), timestamp)] + old(self)@,
            ),
            max_history > pinned_count(
                without_repeats(old(self)@, content@, kind@, view_of(hash)),
            ) <==> final(self)@.len() > 0 && final(self)@[0] == new_entry(
                content@,
                kind@,
                view_of(hash),
                timestamp,
            ),
            forall|i: int|
                0 < i < final(self)@.len() ==> !repeats(
                    #[trigger] final(self)@[i],
                    content@,
                    kind@,
                    view_of(hash),
                ),
            holds_each_capture_once(old(self)@) ==> holds_each_capture_once(final(self)@),
    {
        proof {
            let before = old(self)@;
            let limit = max_history as nat;
            lemma_add_keeps_pinned(before, content@, kind@, view_of(hash), timestamp, limit);
            lemma_add_preserves_order(before, content@, kind@, view_of(hash), timestamp, limit);
            lemma_add_holds_capture_once(before, content@, kind@, view_of(hash), timestamp, limit);
            if holds_each_capture_once(before) {
                lemma_add_holds_each_capture_once(
                    before,
                    content@,
                    kind@,
                    view_of(hash),
                    timestamp,
                    limit,
                );
            }
            lemma_capacity_bound(
                seq![new_entry(content@, kind@, view_of(hash), timestamp)] + without_repeats(
                    before,
                    content@,
                    kind@,
                    view_of(hash),
                ),
                limit,
            );
        }
        self.remove_repeats(&content, &kind, &hash);
        self.history.insert(0, HistoryItem::new(content, kind, hash, timestamp));
        assert(self@ =~= seq![new_entry(content@, kind@, view_of(hash), timestamp)]
            + without_repeats(old(self)@, content@, kind@, view_of(hash)));
        self.enforce_limit(max_history);
    }

    /// Adds a capture made now. The entry is stamped with the system clock;
    /// everything else is as in [`ClipboardStorage::add_at`], and the clauses
    /// after the first hold whatever the clock says.
    pub fn add(&mut self, content: String, kind: String, hash: Option<String>, max_history: usize)
        ensures
            exists|timestamp: Timestamp|
                timestamp.is_valid() && final(self)@ == #[trigger] added(
                    old(self)@,
                    content@,
                    kind@,
                    view_of(hash),
                    timestamp,
                    max_history as nat,
                ),
            final(self)@.len() <= max_history || final(self)@.len() == pinned_count(final(self)@),
            final(self)@.filter(pinned()) == without_repeats(
                old(self)@,
                content@,
                kind@,
                view_of(hash),
            ).filter(pinned()),
            max_history > pinned_count(
                without_repeats(old(self)@, content@, kind@, view_of(hash)),
            ) <==> final(self)@.len() > 0 && !final(self)@[0].pinned && final(self)@[0].content
                == content@ && final(self)@[0].kind == kind@ && final(self)@[0].hash == view_of(
                hash,
            ),
            forall|i: int|
                0 < i < final(self)@.len() ==> !repeats(
                    #[trigger] final(self)@[i],
                    content@,
                    kind@,
                    view_of(hash),
                ),
            holds_each_capture_once(old(self)@) ==> holds_each_capture_once(final(self)@),
    {
        let timestamp = now();
        self.add_at(content, kind, hash, max_history, timestamp);
        proof {
            if !(max_history > pinned_count(
                without_repeats(old(self)@, content@, kind@, view_of(hash)),
            )) && self@.len() > 0 {
                lemma_only_pinned_left(
                    old(self)@,
                    content@,
                    kind@,
                    view_of(hash),
                    timestamp,
                    max_history as nat,
                );
            }
        }
    }

    /// Adds a text capture made now: an entry of the text kind without a
    /// hash. Entries with the same content leave; a history of well-formed
    /// entries stays one.
    pub fn add_text(&mut self, content: String, max_history: usize)
        ensures
            exists|timestamp: Timestamp|
                timestamp.is_valid() && final(self)@ == #[trigger] added(
                    old(self)@,
                    content@,
                    text_tag(),
                    None,
                    timestamp,
                    max_history as nat,
                ),
            forall|i: int|
                0 < i < final(self)@.len() ==> (#[trigger] final(self)@[i]).content != content@,
            all_well_formed(old(self)@) ==> all_well_formed(final(self)@),
            holds_each_capture_once(old(self)@) ==> holds_each_capture_once(final(self)@),
    {
        self.add(content, "text".to_owned(), None, max_history);
        proof {
            let timestamp = choose|timestamp: Timestamp|
                timestamp.is_valid() && self@ == #[trigger] added(
                    old(self)@,
                    content@,
                    text_tag(),
                    None,
                    timestamp,
                    max_history as nat,
                );
            if all_well_formed(old(self)@) {
                lemma_kinds_differ();
                lemma_add_keeps_well_formed(
                    old(self)@,
                    content@,
                    text_tag(),
                    None,
                    timestamp,
                    max_history as nat,
                );
            }
        }
    }

    /// Adds an image capture made now: an entry of the image kind whose
    /// content is the path of the saved payload and whose hash is the
    /// payload's identity. Entries with the same hash leave; a history of
    /// well-formed entries stays one.
    pub fn add_image(&mut self, path: String, hash: String, max_history: usize)
        ensures
            exists|timestamp: Timestamp|
                timestamp.is_valid() && final(self)@ == #[trigger] added(
                    old(self)@,
                    path@,
                    image_tag(),
                    Some(hash@),
                    timestamp,
                    max_history as nat,
                ),
            forall|i: int|
                0 < i < final(self)@.len() ==> (#[trigger] final(self)@[i]).hash != Some(hash@),
            all_well_formed(old(self)@) ==> all_well_formed(final(self)@),
            holds_each_capture_once(old(self)@) ==> holds_each_capture_once(final(self)@),
    {
        proof {
            lemma_kinds_differ();
        }
        self.add(path, "image".to_owned(), Some(hash), max_history);
        proof {
            let timestamp = choose|timestamp: Timestamp|
                timestamp.is_valid() && self@ == #[trigger] added(
                    old(self)@,
                    path@,
                    image_tag(),
                    Some(hash@),
                    timestamp,
                    max_history as nat,
                );
            if all_well_formed(old(self)@) {
                lemma_add_keeps_well_formed(
                    old(self)@,
                    path@,
                    image_tag(),
                    Some(hash@),
                    timestamp,
                    max_history as nat,
                );
            }
        }
    }
}

} // verus!
