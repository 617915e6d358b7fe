//! What holds of the history model whatever the inputs: pinned entries
//! outlive eviction, eviction and deduplication never reorder, the history
//! stays within its capacity, and no capture is held twice.

use vstd::prelude::*;
use crate::clock::Timestamp;
use crate::item::{image_tag, text_tag, ItemView};
use crate::model::{
    added, added_all, all_well_formed, distinct_from, embeds, holds_each_capture_once,
    is_subsequence, limited, new_entry, pinned, pinned_count, repeats, same_capture, survives,
    survivor_indices, survivors, unpinned, unpinned_budget, unpinned_count, without_repeats,
    Capture,
};

verus! {

/// Every entry is either pinned or unpinned.
pub proof fn lemma_pinned_and_unpinned_partition(s: Seq<ItemView>)
    ensures
        pinned_count(s) + unpinned_count(s) == s.len(),
    decreases s.len(),
{
    reveal(Seq::filter);
    if s.len() > 0 {
        lemma_pinned_and_unpinned_partition(s.drop_last());
    }
}

/// Pinned entries are never evicted: an eviction pass keeps all of them, in
/// their order, whatever the budget.
pub proof fn lemma_eviction_keeps_pinned(s: Seq<ItemView>, budget: nat)
    ensures
        survivors(s, budget).filter(pinned()) == s.filter(pinned()),
        pinned_count(survivors(s, budget)) == pinned_count(s),
    decreases s.len(),
{
    broadcast use Seq::lemma_filter_push;

    reveal(Seq::filter);
    if s.len() > 0 {
        lemma_eviction_keeps_pinned(s.drop_last(), budget);
        assert(s =~= s.drop_last().push(s.last()));
    }
}

/// Of the unpinned entries an eviction pass keeps the first `budget`, or all
/// of them where there are fewer.
pub proof fn lemma_eviction_keeps_newest_unpinned(s: Seq<ItemView>, budget: nat)
    ensures
        survivors(s, budget).filter(unpinned()) == s.filter(unpinned()).take(
            if budget < unpinned_count(s) {
                budget as int
            } else {
                unpinned_count(s) as int
            },
        ),
    decreases s.len(),
{
    broadcast use Seq::lemma_filter_push;

    reveal(Seq::filter);
    if s.len() > 0 {
        let d = s.drop_last();
        let x = s.last();
        lemma_eviction_keeps_newest_unpinned(d, budget);
        assert(s =~= d.push(x));
        assert(s.take(s.len() - 1) =~= d);
        let kept = if budget < unpinned_count(s) {
            budget as int
        } else {
            unpinned_count(s) as int
        };
        assert(survivors(s, budget).filter(unpinned()) =~= s.filter(unpinned()).take(kept));
    } else {
        assert(survivors(s, budget).filter(unpinned()) =~= s.filter(unpinned()).take(0));
    }
}

/// An eviction pass leaves the pinned entries and as many unpinned ones as
/// the budget admits.
pub proof fn lemma_eviction_len(s: Seq<ItemView>, budget: nat)
    ensures
        survivors(s, budget).len() == pinned_count(s) + if budget < unpinned_count(s) {
            budget
        } else {
            unpinned_count(s)
        },
{
    lemma_pinned_and_unpinned_partition(survivors(s, budget));
    lemma_eviction_keeps_pinned(s, budget);
    lemma_eviction_keeps_newest_unpinned(s, budget);
}

/// Whether an entry outlives an eviction pass depends on what stands before
/// it only.
proof fn lemma_survives_in_prefix(s: Seq<ItemView>, budget: nat, i: int)
    requires
        0 <= i < s.len() - 1,
    ensures
        survives(s.drop_last(), budget, i) == survives(s, budget, i),
{
    assert(s.drop_last().take(i) =~= s.take(i));
}

/// Eviction never reorders: the survivors are the entries at the surviving
/// indices, taken in rising order, and an index is among them exactly when
/// its entry is pinned or fewer than `budget` unpinned entries stand before
/// it.
pub proof fn lemma_eviction_preserves_order(s: Seq<ItemView>, budget: nat)
    ensures
        embeds(survivors(s, budget), s, survivor_indices(s, budget)),
        forall|i: int|
            0 <= i < s.len() ==> (survivor_indices(s, budget).contains(i) <==> survives(
                s,
                budget,
                i,
            )),
        is_subsequence(survivors(s, budget), s),
    decreases s.len(),
{
    let at = survivor_indices(s, budget);
    if s.len() > 0 {
        let d = s.drop_last();
        let last = s.len() - 1;
        lemma_eviction_preserves_order(d, budget);
        let before = survivor_indices(d, budget);
        assert forall|i: int| 0 <= i < s.len() implies (at.contains(i) <==> survives(
            s,
            budget,
            i,
        )) by {
            if i < last {
                lemma_survives_in_prefix(s, budget, i);
                if before.contains(i) {
                    let k = choose|k: int| 0 <= k < before.len() && before[k] == i;
                    assert(at[k] == i);
                }
                if at.contains(i) {
                    let k = choose|k: int| 0 <= k < at.len() && at[k] == i;
                    assert(before[k] == i);
                }
            } else {
                if survives(s, budget, last) {
                    assert(at[at.len() - 1] == last);
                }
            }
        }
    }
    assert(embeds(survivors(s, budget), s, at));
}

/// The capacity pass leaves a history that fits, unless the pinned entries
/// alone are more than fit: then exactly they are left.
pub proof fn lemma_capacity_bound(s: Seq<ItemView>, max_history: nat)
    ensures
        limited(s, max_history).len() == if s.len() <= max_history {
            s.len()
        } else if pinned_count(s) >= max_history {
            pinned_count(s)
        } else {
            max_history
        },
        limited(s, max_history).len() <= max_history || limited(s, max_history).len()
            == pinned_count(limited(s, max_history)),
        pinned_count(limited(s, max_history)) == pinned_count(s),
        limited(s, max_history).filter(pinned()) == s.filter(pinned()),
        is_subsequence(limited(s, max_history), s),
{
    lemma_pinned_and_unpinned_partition(s);
    let budget = unpinned_budget(s, max_history);
    lemma_eviction_len(s, budget);
    lemma_eviction_keeps_pinned(s, budget);
    lemma_eviction_preserves_order(s, budget);
    lemma_subsequence_reflexive(s);
}

/// Every history is a subsequence of itself.
pub proof fn lemma_subsequence_reflexive(s: Seq<ItemView>)
    ensures
        is_subsequence(s, s),
{
    let at = Seq::new(s.len(), |i: int| i);
    assert(embeds(s, s, at));
}

/// A subsequence of a subsequence is a subsequence.
pub proof fn lemma_subsequence_transitive(a: Seq<ItemView>, b: Seq<ItemView>, c: Seq<ItemView>)
    requires
        is_subsequence(a, b),
        is_subsequence(b, c),
    ensures
        is_subsequence(a, c),
{
    let ab = choose|at: Seq<int>| embeds(a, b, at);
    let bc = choose|at: Seq<int>| embeds(b, c, at);
    let ac = Seq::new(a.len(), |k: int| bc[ab[k]]);
    assert forall|j: int, k: int| 0 <= j < k < ac.len() implies ac[j] < ac[k] by {
        assert(ab[j] < ab[k]);
    }
    assert(embeds(a, c, ac));
}

/// Dropping every unpinned entry is the capacity pass with the number of
/// pinned entries as the capacity.
pub proof fn lemma_retain_pinned_is_capacity_pass(s: Seq<ItemView>)
    ensures
        s.filter(pinned()) == limited(s, pinned_count(s)),
        s.filter(pinned()) == survivors(s, 0),
{
    lemma_without_budget_only_pinned_survive(s);
    lemma_pinned_and_unpinned_partition(s);
    if s.len() <= pinned_count(s) {
        s.lemma_filter_len(pinned());
        lemma_all_pinned(s);
    }
}

/// With no budget an eviction pass leaves exactly the pinned entries.
proof fn lemma_without_budget_only_pinned_survive(s: Seq<ItemView>)
    ensures
        survivors(s, 0) == s.filter(pinned()),
    decreases s.len(),
{
    reveal(Seq::filter);
    if s.len() > 0 {
        lemma_without_budget_only_pinned_survive(s.drop_last());
    }
}

/// A history with as many pinned entries as entries holds pinned entries
/// only.
proof fn lemma_all_pinned(s: Seq<ItemView>)
    requires
        pinned_count(s) == s.len(),
    ensures
        s.filter(pinned()) == s,
    decreases s.len(),
{
    reveal(Seq::filter);
    if s.len() > 0 {
        s.drop_last().lemma_filter_len(pinned());
        lemma_all_pinned(s.drop_last());
        assert(s =~= s.drop_last().push(s.last()));
    }
}

/// Leaving out the entries that fail a test never reorders the others.
pub proof fn lemma_filter_preserves_order(s: Seq<ItemView>, keep: spec_fn(ItemView) -> bool)
    ensures
        is_subsequence(s.filter(keep), s),
    decreases s.len(),
{
    reveal(Seq::filter);
    if s.len() == 0 {
        assert(embeds(s.filter(keep), s, Seq::<int>::empty()));
    } else {
        let d = s.drop_last();
        lemma_filter_preserves_order(d, keep);
        let at = choose|at: Seq<int>| embeds(d.filter(keep), d, at);
        if keep(s.last()) {
            assert(embeds(s.filter(keep), s, at.push(s.len() - 1)));
        } else {
            assert(embeds(s.filter(keep), s, at));
        }
    }
}

/// Putting one entry in front of a history and of a subsequence of it gives
/// a history and a subsequence of it.
pub proof fn lemma_subsequence_with_front(sub: Seq<ItemView>, s: Seq<ItemView>, front: ItemView)
    requires
        is_subsequence(sub, s),
    ensures
        is_subsequence(seq![front] + sub, seq![front] + s),
{
    let at = choose|at: Seq<int>| embeds(sub, s, at);
    let shifted = Seq::new(sub.len() + 1, |k: int| if k == 0 { 0 } else { at[k - 1] + 1 });
    assert forall|k: int| 0 <= k < shifted.len() implies 0 <= #[trigger] shifted[k] < (seq![front]
        + s).len() && (seq![front] + sub)[k] == (seq![front] + s)[shifted[k]] by {
        if k > 0 {
            assert(0 <= at[k - 1] < s.len());
        }
    }
    assert forall|j: int, k: int| 0 <= j < k < shifted.len() implies shifted[j] < shifted[k] by {
        if j > 0 {
            assert(at[j - 1] < at[k - 1]);
        } else {
            assert(0 <= at[k - 1]);
        }
    }
    assert(embeds(seq![front] + sub, seq![front] + s, shifted));
}

/// Adding a capture never reorders: what is left afterwards is the new entry
/// in front of the old history, with some entries left out and none moved.
pub proof fn lemma_add_preserves_order(
    s: Seq<ItemView>,
    content: Seq<char>,
    kind: Seq<char>,
    hash: Option<Seq<char>>,
    timestamp: Timestamp,
    max_history: nat,
)
    ensures
        is_subsequence(
            added(s, content, kind, hash, timestamp, max_history),
            seq![new_entry(content, kind, hash, timestamp)] + s,
        ),
{
    let entry = new_entry(content, kind, hash, timestamp);
    let rest = without_repeats(s, content, kind, hash);
    lemma_filter_preserves_order(s, distinct_from(content, kind, hash));
    lemma_subsequence_with_front(rest, s, entry);
    lemma_capacity_bound(seq![entry] + rest, max_history);
    lemma_subsequence_transitive(
        added(s, content, kind, hash, timestamp, max_history),
        seq![entry] + rest,
        seq![entry] + s,
    );
}

/// After a capture was added, no entry behind the front repeats it, and the
/// front entry is the new one exactly when the pinned entries that it does
/// not repeat leave room for it; where they leave none, no entry repeats it
/// at all.
pub proof fn lemma_add_holds_capture_once(
    s: Seq<ItemView>,
    content: Seq<char>,
    kind: Seq<char>,
    hash: Option<Seq<char>>,
    timestamp: Timestamp,
    max_history: nat,
)
    ensures
        ({
            let after = added(s, content, kind, hash, timestamp, max_history);
            let room = max_history > pinned_count(without_repeats(s, content, kind, hash));
            &&& room <==> after.len() > 0 && after[0] == new_entry(content, kind, hash, timestamp)
            &&& forall|i: int| 0 < i < after.len() ==> !repeats(#[trigger] after[i], content, kind, hash)
            &&& !room ==> forall|i: int|
                0 <= i < after.len() ==> !repeats(#[trigger] after[i], content, kind, hash)
        }),
{
    broadcast use Seq::lemma_filter_prepend;

    let entry = new_entry(content, kind, hash, timestamp);
    let rest = without_repeats(s, content, kind, hash);
    let all = seq![entry] + rest;
    let after = limited(all, max_history);
    let room = max_history > pinned_count(rest);
    let budget = unpinned_budget(all, max_history);
    assert(all.filter(pinned()) == rest.filter(pinned()));
    rest.lemma_filter_len(pinned());
    assert forall|j: int| 0 < j < all.len() implies !repeats(
        #[trigger] all[j],
        content,
        kind,
        hash,
    ) by {
        assert(all[j] == rest[j - 1]);
        s.lemma_filter_pred(distinct_from(content, kind, hash), j - 1);
    }
    if all.len() > max_history {
        lemma_eviction_preserves_order(all, budget);
        lemma_eviction_keeps_pinned(all, budget);
        let at = survivor_indices(all, budget);
        assert(all.take(0) =~= Seq::<ItemView>::empty());
        assert(unpinned_count(all.take(0)) == 0) by {
            reveal(Seq::filter);
        }
        assert(survives(all, budget, 0) == room);
        if room {
            let k = choose|k: int| 0 <= k < at.len() && at[k] == 0;
            assert(k == 0) by {
                if k > 0 {
                    assert(at[0] < at[k]);
                }
            }
            assert forall|i: int| 0 < i < after.len() implies !repeats(
                #[trigger] after[i],
                content,
                kind,
                hash,
            ) by {
                assert(at[0] < at[i]);
                assert(after[i] == all[at[i]]);
            }
        } else {
            assert forall|i: int| 0 <= i < after.len() implies !repeats(
                #[trigger] after[i],
                content,
                kind,
                hash,
            ) by {
                assert(at.contains(at[i]));
                assert(after[i] == all[at[i]]);
                assert(at[i] != 0);
            }
            if after.len() > 0 {
                assert(after[0] == all[at[0]]);
                assert(at.contains(at[0]));
                assert(survives(all, budget, at[0]));
                assert(after[0].pinned);
            }
        }
    }
}

/// Where the pinned entries that a capture does not repeat leave no room,
/// adding it leaves pinned entries only.
pub proof fn lemma_only_pinned_left(
    s: Seq<ItemView>,
    content: Seq<char>,
    kind: Seq<char>,
    hash: Option<Seq<char>>,
    timestamp: Timestamp,
    max_history: nat,
)
    requires
        max_history <= pinned_count(without_repeats(s, content, kind, hash)),
    ensures
        added(s, content, kind, hash, timestamp, max_history) == without_repeats(
            s,
            content,
            kind,
            hash,
        ).filter(pinned()),
        forall|i: int|
            0 <= i < added(s, content, kind, hash, timestamp, max_history).len() ==> (
            #[trigger] added(s, content, kind, hash, timestamp, max_history)[i]).pinned,
{
    broadcast use Seq::lemma_filter_prepend;

    let entry = new_entry(content, kind, hash, timestamp);
    let rest = without_repeats(s, content, kind, hash);
    let all = seq![entry] + rest;
    assert(all.filter(pinned()) == rest.filter(pinned()));
    rest.lemma_filter_len(pinned());
    lemma_retain_pinned_is_capacity_pass(all);
    assert forall|i: int| 0 <= i < rest.filter(pinned()).len() implies (
    #[trigger] rest.filter(pinned())[i]).pinned by {
        rest.lemma_filter_pred(pinned(), i);
    }
}

/// Where every entry that passes `second` passes `first` too, testing for
/// `first` beforehand changes nothing.
proof fn lemma_filter_of_kept(
    s: Seq<ItemView>,
    first: spec_fn(ItemView) -> bool,
    second: spec_fn(ItemView) -> bool,
)
    requires
        forall|i: int| 0 <= i < s.len() && second(s[i]) ==> first(s[i]),
    ensures
        s.filter(first).filter(second) == s.filter(second),
    decreases s.len(),
{
    broadcast use Seq::lemma_filter_push;

    reveal(Seq::filter);
    if s.len() > 0 {
        let d = s.drop_last();
        assert forall|i: int| 0 <= i < d.len() && second(d[i]) implies first(d[i]) by {
            assert(d[i] == s[i]);
        }
        lemma_filter_of_kept(d, first, second);
    }
}

/// Where every entry passes the test, none is left out.
proof fn lemma_filter_keeps_all(s: Seq<ItemView>, keep: spec_fn(ItemView) -> bool)
    requires
        forall|i: int| 0 <= i < s.len() ==> keep(s[i]),
    ensures
        s.filter(keep) == s,
    decreases s.len(),
{
    reveal(Seq::filter);
    if s.len() > 0 {
        let d = s.drop_last();
        assert forall|i: int| 0 <= i < d.len() implies keep(d[i]) by {
            assert(d[i] == s[i]);
        }
        lemma_filter_keeps_all(d, keep);
        assert(s =~= d.push(s.last()));
    }
}

/// Adding a capture takes no pinned entry but those that the capture
/// repeats: the capacity pass that follows never evicts one.
pub proof fn lemma_add_keeps_pinned(
    s: Seq<ItemView>,
    content: Seq<char>,
    kind: Seq<char>,
    hash: Option<Seq<char>>,
    timestamp: Timestamp,
    max_history: nat,
)
    ensures
        added(s, content, kind, hash, timestamp, max_history).filter(pinned()) == without_repeats(
            s,
            content,
            kind,
            hash,
        ).filter(pinned()),
        (forall|i: int| 0 <= i < s.len() && s[i].pinned ==> !repeats(s[i], content, kind, hash))
            ==> added(s, content, kind, hash, timestamp, max_history).filter(pinned())
            == s.filter(pinned()),
{
    broadcast use Seq::lemma_filter_prepend;

    let entry = new_entry(content, kind, hash, timestamp);
    let rest = without_repeats(s, content, kind, hash);
    lemma_capacity_bound(seq![entry] + rest, max_history);
    assert((seq![entry] + rest).filter(pinned()) == rest.filter(pinned()));
    if forall|i: int| 0 <= i < s.len() && s[i].pinned ==> !repeats(s[i], content, kind, hash) {
        lemma_filter_of_kept(s, distinct_from(content, kind, hash), pinned());
    }
}

/// Pinned entries outlive any run of captures that repeats none of them:
/// however many are added, and whatever the capacity, the pinned entries
/// afterwards are those from before, in their order.
pub proof fn lemma_adds_keep_pinned(s: Seq<ItemView>, captures: Seq<Capture>, max_history: nat)
    requires
        forall|i: int, k: int|
            0 <= i < s.len() && s[i].pinned && 0 <= k < captures.len() ==> !repeats(
                s[i],
                captures[k].content,
                captures[k].kind,
                captures[k].hash,
            ),
    ensures
        added_all(s, captures, max_history).filter(pinned()) == s.filter(pinned()),
    decreases captures.len(),
{
    if captures.len() > 0 {
        let capture = captures.last();
        let earlier = captures.drop_last();
        assert forall|i: int, k: int|
            0 <= i < s.len() && s[i].pinned && 0 <= k < earlier.len() implies !repeats(
            s[i],
            earlier[k].content,
            earlier[k].kind,
            earlier[k].hash,
        ) by {
            assert(earlier[k] == captures[k]);
        }
        lemma_adds_keep_pinned(s, earlier, max_history);
        let r = added_all(s, earlier, max_history);
        assert forall|j: int| 0 <= j < r.len() && r[j].pinned implies !repeats(
            r[j],
            capture.content,
            capture.kind,
            capture.hash,
        ) by {
            r.lemma_filter_contains(pinned(), j);
            s.lemma_filter_contains_rev(pinned(), r[j]);
            let i = choose|i: int| 0 <= i < s.len() && s[i] == r[j];
            assert(captures[captures.len() - 1] == capture);
        }
        lemma_add_keeps_pinned(
            r,
            capture.content,
            capture.kind,
            capture.hash,
            capture.timestamp,
            max_history,
        );
    }
}

/// What a run of text captures with pairwise different contents makes of the
/// empty history: no pinned entry, no content from elsewhere, and as many
/// entries as were added, up to the capacity.
proof fn lemma_unique_texts_from_empty(captures: Seq<Capture>, max_history: nat)
    requires
        forall|k: int| 0 <= k < captures.len() ==> (#[trigger] captures[k]).kind == text_tag(),
        forall|j: int, k: int|
            0 <= j < k < captures.len() ==> captures[j].content != captures[k].content,
    ensures
        ({
            let after = added_all(Seq::empty(), captures, max_history);
            &&& after.len() == if captures.len() <= max_history {
                captures.len()
            } else {
                max_history
            }
            &&& pinned_count(after) == 0
            &&& forall|i: int|
                0 <= i < after.len() ==> exists|k: int|
                    0 <= k < captures.len() && (#[trigger] after[i]).content
                        == (#[trigger] captures[k]).content
        }),
    decreases captures.len(),
{
    broadcast use Seq::lemma_filter_prepend;

    if captures.len() == 0 {
        assert(pinned_count(Seq::<ItemView>::empty()) == 0) by {
            reveal(Seq::filter);
        }
    } else {
        let capture = captures.last();
        let last = captures.len() - 1;
        let earlier = captures.drop_last();
        assert forall|k: int| 0 <= k < earlier.len() implies (#[trigger] earlier[k]).kind
            == text_tag() by {
            assert(earlier[k] == captures[k]);
        }
        lemma_unique_texts_from_empty(earlier, max_history);
        let r = added_all(Seq::empty(), earlier, max_history);
        let fresh = distinct_from(capture.content, capture.kind, capture.hash);
        assert forall|i: int| 0 <= i < r.len() implies fresh(r[i]) by {
            let k = choose|k: int| 0 <= k < earlier.len() && r[i].content == earlier[k].content;
            assert(earlier[k] == captures[k]);
            assert(captures[k].content != captures[last].content);
        }
        lemma_filter_keeps_all(r, fresh);
        let entry = new_entry(capture.content, capture.kind, capture.hash, capture.timestamp);
        let all = seq![entry] + r;
        let after = limited(all, max_history);
        assert(all.filter(pinned()) == r.filter(pinned()));
        lemma_capacity_bound(all, max_history);
        let at = choose|at: Seq<int>| embeds(after, all, at);
        assert forall|i: int| 0 <= i < after.len() implies exists|k: int|
            0 <= k < captures.len() && (#[trigger] after[i]).content
                == (#[trigger] captures[k]).content by {
            assert(after[i] == all[at[i]]);
            if at[i] == 0 {
                assert(after[i].content == captures[last].content);
            } else {
                let j = at[i] - 1;
                assert(all[at[i]] == r[j]);
                let k = choose|k: int| 0 <= k < earlier.len() && r[j].content == earlier[k].content;
                assert(earlier[k] == captures[k]);
            }
        }
    }
}

/// Text captures with pairwise different contents, added one by one to the
/// empty history with one capacity, leave as many entries as were added, or
/// as the capacity admits where that is fewer.
pub proof fn lemma_unique_texts_fill_to_capacity(captures: Seq<Capture>, max_history: nat)
    requires
        forall|k: int| 0 <= k < captures.len() ==> (#[trigger] captures[k]).kind == text_tag(),
        forall|j: int, k: int|
            0 <= j < k < captures.len() ==> captures[j].content != captures[k].content,
    ensures
        added_all(Seq::empty(), captures, max_history).len() == if captures.len() <= max_history {
            captures.len()
        } else {
            max_history
        },
{
    lemma_unique_texts_from_empty(captures, max_history);
}

/// A subsequence of a history that holds no capture twice holds none twice.
pub proof fn lemma_subsequence_holds_each_capture_once(sub: Seq<ItemView>, s: Seq<ItemView>)
    requires
        is_subsequence(sub, s),
        holds_each_capture_once(s),
    ensures
        holds_each_capture_once(sub),
{
    let at = choose|at: Seq<int>| embeds(sub, s, at);
    assert forall|i: int, j: int| 0 <= i < j < sub.len() implies !same_capture(sub[i], sub[j]) by {
        assert(at[i] < at[j]);
        assert(sub[i] == s[at[i]] && sub[j] == s[at[j]]);
    }
}

/// The tags of the two kinds differ.
pub proof fn lemma_kinds_differ()
    ensures
        text_tag() != image_tag(),
{
    reveal_strlit("text");
    reveal_strlit("image");
    assert(text_tag().len() == 4 && image_tag().len() == 5);
}

/// A history that holds no capture twice still holds none twice after a
/// capture was added.
pub proof fn lemma_add_holds_each_capture_once(
    s: Seq<ItemView>,
    content: Seq<char>,
    kind: Seq<char>,
    hash: Option<Seq<char>>,
    timestamp: Timestamp,
    max_history: nat,
)
    requires
        holds_each_capture_once(s),
    ensures
        holds_each_capture_once(added(s, content, kind, hash, timestamp, max_history)),
{
    let entry = new_entry(content, kind, hash, timestamp);
    let fresh = distinct_from(content, kind, hash);
    let rest = without_repeats(s, content, kind, hash);
    let all = seq![entry] + rest;
    lemma_kinds_differ();
    lemma_filter_preserves_order(s, fresh);
    lemma_subsequence_holds_each_capture_once(rest, s);
    assert forall|i: int, j: int| 0 <= i < j < all.len() implies !same_capture(all[i], all[j]) by {
        assert(all[j] == rest[j - 1]);
        if i == 0 {
            s.lemma_filter_pred(fresh, j - 1);
            assert(fresh(rest[j - 1]));
        } else {
            assert(all[i] == rest[i - 1]);
        }
    }
    lemma_capacity_bound(all, max_history);
    lemma_subsequence_holds_each_capture_once(limited(all, max_history), all);
}

/// A well-formed capture added to a history of well-formed entries leaves a
/// history of well-formed entries.
pub proof fn lemma_add_keeps_well_formed(
    s: Seq<ItemView>,
    content: Seq<char>,
    kind: Seq<char>,
    hash: Option<Seq<char>>,
    timestamp: Timestamp,
    max_history: nat,
)
    requires
        all_well_formed(s),
        new_entry(content, kind, hash, timestamp).well_formed(),
    ensures
        all_well_formed(added(s, content, kind, hash, timestamp, max_history)),
{
    let entry = new_entry(content, kind, hash, timestamp);
    let after = added(s, content, kind, hash, timestamp, max_history);
    let before = seq![entry] + s;
    lemma_add_preserves_order(s, content, kind, hash, timestamp, max_history);
    let at = choose|at: Seq<int>| embeds(after, before, at);
    assert forall|i: int| 0 <= i < after.len() implies (#[trigger] after[i]).well_formed() by {
        assert(after[i] == before[at[i]]);
        if at[i] > 0 {
            assert(before[at[i]] == s[at[i] - 1]);
        }
    }
}

} // verus!
