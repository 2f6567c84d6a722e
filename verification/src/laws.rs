//! Properties of the queue's state machine, stated over [`QueueView`] and
//! proved once and for all: what a fresh queue plays, that stepping forward
//! and back returns to the same item, how far the cursor can walk, that
//! shuffling keeps a permutation, and that the reported listing always
//! covers the store.

use vstd::prelude::*;

use crate::item::QueueableCollection;
use crate::item::QueueItem;
use crate::queue::initial_view;
use crate::queue::QueueError;
use crate::queue::QueueView;
use crate::util::is_permutation;
use crate::util::lemma_multiset_equal_permutation;
use crate::util::lemma_prefix_suffix_multiset;

verus! {

/// For any non-empty construction, the queue plays immediately, and the
/// current item is the item at raw index 0, since a fresh queue is
/// unshuffled.
pub proof fn lemma_initial_current<I, C: QueueableCollection>(items: Seq<QueueItem<I, C>>)
    requires
        items.len() > 0,
    ensures
        initial_view(items).wf(),
        initial_view(items).playing(),
        initial_view(items).current() == items[0],
{
}

/// `next()` then `previous()` from the live edge, wherever there is
/// somewhere to go, comes back to the same displayed item. Nothing is
/// touched but the history log, which grows by the one entry for the item
/// that was passed, and the viewing cursor, which ends standing on that
/// entry.
pub proof fn lemma_next_then_previous<I, C: QueueableCollection>(v: QueueView<I, C>)
    requires
        v.wf(),
        v.at_live_edge(),
        v.can_advance(),
    ensures
        v.next_result() == Ok::<(), QueueError>(()),
        !v.next_randomizes(),
        ({
            let v1 = v.next_view();
            let v2 = v1.prev_view();
            &&& v1.prev_result() == Ok::<(), QueueError>(())
            &&& v2.current() == v.current()
            &&& v2.items == v.items
            &&& v2.st_items == v.st_items
            &&& v2.order == v.order
            &&& v2.history == v.history.push(v.live_entry())
            &&& v2.hist_pos == Some(v.history.len() as int)
        }),
{
}

/// The state after `k` applications of `next_view`.
pub open spec fn next_iter<I, C: QueueableCollection>(
    v: QueueView<I, C>,
    k: nat,
) -> QueueView<I, C>
    decreases k,
{
    if k == 0 {
        v
    } else {
        next_iter(v, (k - 1) as nat).next_view()
    }
}

/// The state after `k` applications of `prev_view`.
pub open spec fn prev_iter<I, C: QueueableCollection>(
    v: QueueView<I, C>,
    k: nat,
) -> QueueView<I, C>
    decreases k,
{
    if k == 0 {
        v
    } else {
        prev_iter(v, (k - 1) as nat).prev_view()
    }
}

/// From the live edge, the `j`-th of `previous()` calls (for `j` up to the
/// history's length) succeeds, and leaves the cursor viewing position
/// `history.len() - j`: every logged position is reachable backwards, one
/// step at a time.
pub proof fn lemma_previous_walk<I, C: QueueableCollection>(v: QueueView<I, C>, j: int)
    requires
        v.wf(),
        v.at_live_edge(),
        1 <= j <= v.history.len(),
    ensures
        prev_iter(v, (j - 1) as nat).prev_result() == Ok::<(), QueueError>(()),
        prev_iter(v, j as nat) == (QueueView {
            hist_pos: Some(v.history.len() - j),
            ..v
        }),
    decreases j,
{
    if j == 1 {
        assert(prev_iter(v, 1) == v.prev_view());
        assert(v.prev_view() =~= (QueueView { hist_pos: Some(v.history.len() - 1), ..v }));
    } else {
        lemma_previous_walk(v, j - 1);
        assert(prev_iter(v, j as nat) =~= (QueueView {
            hist_pos: Some(v.history.len() - j),
            ..v
        }));
    }
}

/// After walking back through the whole history, one more `previous()`
/// fails with `ReachedBeginning`; in particular, from live position `h`
/// with a fully logged history, exactly `h` calls succeed and the next one
/// fails.
pub proof fn lemma_previous_exhausted<I, C: QueueableCollection>(v: QueueView<I, C>)
    requires
        v.wf(),
        v.at_live_edge(),
    ensures
        prev_iter(v, v.history.len()).prev_result() == Err::<(), QueueError>(
            QueueError::ReachedBeginning,
        ),
{
    if v.history.len() > 0 {
        lemma_previous_walk(v, v.history.len() as int);
    }
}

/// From the live edge with an exhausted short-term store, the `j`-th of
/// `next()` calls succeeds while positions remain, and the live edge moves
/// forward one logical position each time; nothing else of the stores, the
/// orders or the settings changes.
pub proof fn lemma_next_walk<I, C: QueueableCollection>(v: QueueView<I, C>, j: int)
    requires
        v.wf(),
        v.at_live_edge(),
        v.st_len() == 0,
        0 <= j,
        v.live->0 + j < v.eff_len(),
    ensures
        ({
            let u = next_iter(v, j as nat);
            &&& u.wf()
            &&& u.at_live_edge()
            &&& u.live == Some(v.live->0 + j)
            &&& u.items == v.items
            &&& u.order == v.order
            &&& u.st_items == v.st_items
            &&& u.st_order == v.st_order
            &&& u.st_played == v.st_played
            &&& !u.st_active
            &&& u.repeat == v.repeat
            &&& u.history.len() == v.history.len() + j
        }),
        j > 0 ==> next_iter(v, (j - 1) as nat).next_result() == Ok::<(), QueueError>(()),
    decreases j,
{
    if j > 0 {
        lemma_next_walk(v, j - 1);
        let u = next_iter(v, (j - 1) as nat);
        assert(u.can_advance());
        assert(next_iter(v, j as nat) == u.advanced());
    }
}

/// At the last position, with the short-term store exhausted and no repeat
/// policy, `next()` fails with `ReachedEnd`; in particular, from position 0
/// over `n` positions, exactly `n - 1` calls succeed and the `n`-th fails.
pub proof fn lemma_next_exhausted<I, C: QueueableCollection>(v: QueueView<I, C>)
    requires
        v.wf(),
        v.at_live_edge(),
        v.st_len() == 0,
        v.repeat is None,
    ensures
        next_iter(v, (v.eff_len() - 1 - v.live->0) as nat).next_result() == Err::<(), QueueError>(
            QueueError::ReachedEnd,
        ),
{
    let j = v.eff_len() - 1 - v.live->0;
    if j > 0 {
        lemma_next_walk(v, j);
    }
    let u = next_iter(v, j as nat);
    assert(!u.can_advance());
}

/// After `shuffle()` of a queue whose order, if present, was a permutation,
/// the resulting order is again a permutation of the store's positions, and
/// every position up to and including the live edge keeps the raw index it
/// had before the call.
pub proof fn lemma_shuffle_keeps_permutation<I, C: QueueableCollection>(
    pre: QueueView<I, C>,
    post: QueueView<I, C>,
)
    requires
        pre.wf(),
        post.shuffled_from(pre),
        (pre.order matches Some(o) ==> is_permutation(o, pre.items.len())),
    ensures
        post.order is Some ==> is_permutation(post.order->0, post.items.len()),
        pre.playing() && pre.order is Some ==> forall|i: int|
            0 <= i <= pre.live->0 ==> post.order->0[i] == pre.order->0[i],
        pre.playing() && pre.order is None && post.order is Some ==> forall|i: int|
            0 <= i <= pre.live->0 ==> post.order->0[i] == i,
{
    if pre.playing() {
        let e = pre.live->0;
        if e + 1 < pre.eff_len() {
            match pre.order {
                Some(o) => {
                    let o2 = post.order->0;
                    lemma_prefix_suffix_multiset(o, o2, e + 1);
                    lemma_multiset_equal_permutation(o, o2, pre.items.len());
                },
                None => {},
            }
        }
    }
}

/// The listing reported by `get_items` has one entry per store item in
/// every cursor state - stopped, at the live edge, or viewing - as long as
/// no short-term item has been consumed and the shuffle order, when
/// present, covers the store exactly.
pub proof fn lemma_listing_covers_store<I, C: QueueableCollection>(v: QueueView<I, C>)
    requires
        v.wf(),
        v.st_played == 0,
        !v.st_active,
        (v.order matches Some(o) ==> o.len() == v.items.len()),
    ensures
        v.listing().len() == v.items.len(),
{
}

} // verus!
