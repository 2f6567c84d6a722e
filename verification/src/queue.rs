//! The queue itself: an ordered store of items, a shuffle permutation, the
//! dual-pointer navigation state machine (live edge plus history view), the
//! short-term "play next" queue, and the repeat policy.

use vstd::prelude::*;

use crate::item::QueueItem;
use crate::item::QueueableCollection;
use crate::util::identity_order;
use crate::util::index_range;
use crate::util::is_permutation;
use crate::util::lemma_multiset_entries_bounded;
use crate::util::lemma_multiset_equal_permutation;
use crate::util::lemma_prefix_suffix_multiset;
use crate::util::prefix_of;
use crate::util::push_index_range;
use crate::util::shuffle_from;
use crate::util::shuffled_vec;
use crate::util::sort_indices;
use crate::util::sorted;

verus! {

/// The mode that is used to repeat the queue playback.
#[derive(Clone, Debug)]
pub enum RepeatMode {
    /// Repeat all the items in the queue when the queue reaches the end.
    All,
    /// Repeat the currently playing container when it ends.
    /// When the currently playing item is a song, this will behave like
    /// RepeatMode::Item.
    Container,
    /// Repeat the currently playing item when it ends.
    Item,
}

/// The strategy used to reconcile the unplayed part of a shuffled queue back
/// toward order when un-shuffling while playing.
#[derive(Clone, Debug)]
pub enum UnshuffleStrategy {
    /// Order all the unplayed songs in order. This doesn't preserve the
    /// original order, so songs might play out of order from how they were
    /// added, depending on if songs between them already played before.
    PlayUnplayed,
    /// Keep playing from the current interpreted index. This may skip a lot
    /// of songs if the current song happens to be at the end of the queue.
    KeepIndex,
    /// Keep playing from the current raw index (the amount of songs played).
    /// This may replay songs that already played, and may skip songs, if
    /// items before this index happened to be past the current index in the
    /// shuffled queue.
    KeepRawIndex,
    /// Restart the queue and pretend nothing happened.
    FromBeginning,
}

/// Errors specific to the queue.
#[derive(Debug)]
pub enum QueueError {
    /// Reached the beginning of the queue, can't go to the previous item.
    ReachedBeginning,
    /// Reached the end of the queue, can't go to the next item.
    ReachedEnd,
    /// The queue isn't playing; there is no current item.
    NotPlaying,
}

/// One entry of the history log: the store and raw index of an item that was
/// passed by the live edge.
#[derive(Clone, Copy, Debug)]
pub enum HistoryEntry {
    /// A raw index into the main store.
    Main(usize),
    /// A raw index into the short-term store.
    Short(usize),
}

/// The abstract state of a queue: the whole engine is specified as a state
/// machine over this view.
///
/// Logical positions run through `order` (when present) to raw indices into
/// `items`; the short-term store has the same structure. `history` records,
/// oldest first, one entry for every item the live edge has passed.
#[verifier::ext_equal]
#[verifier::reject_recursive_types(I)]
#[verifier::reject_recursive_types(C)]
pub ghost struct QueueView<I, C: QueueableCollection> {
    /// The main store, in insertion order.
    pub items: Seq<QueueItem<I, C>>,
    /// The shuffle order of the main store: logical position to raw index.
    pub order: Option<Seq<usize>>,
    /// The live edge: the forward-most logical position reached, if playing.
    pub live: Option<int>,
    /// One entry per position the live edge has passed, oldest first.
    pub history: Seq<HistoryEntry>,
    /// When present, the cursor is viewing this history position.
    pub hist_pos: Option<int>,
    /// The short-term ("play next") store, in insertion order.
    pub st_items: Seq<QueueItem<I, C>>,
    /// The shuffle order of the short-term store.
    pub st_order: Option<Seq<usize>>,
    /// How many short-term items have been consumed (logged in history).
    pub st_played: int,
    /// Whether the item at the live edge is the short-term item `st_played`.
    pub st_active: bool,
    /// The repeat policy; absence means "stop at end".
    pub repeat: Option<RepeatMode>,
    /// The strategy used when un-shuffling while playing.
    pub strategy: UnshuffleStrategy,
}

impl<I, C: QueueableCollection> QueueView<I, C> {
    /// The number of logical positions of the main store.
    pub open spec fn eff_len(self) -> int {
        match self.order {
            Some(o) => o.len() as int,
            None => self.items.len() as int,
        }
    }

    /// The number of logical positions of the short-term store.
    pub open spec fn st_len(self) -> int {
        match self.st_order {
            Some(o) => o.len() as int,
            None => self.st_items.len() as int,
        }
    }

    /// The queue is playing: it has a current item.
    pub open spec fn playing(self) -> bool {
        self.live is Some
    }

    /// The cursor is looking at a past position, not at the live edge.
    pub open spec fn viewing(self) -> bool {
        self.playing() && self.hist_pos is Some
    }

    /// The cursor is at the live edge.
    pub open spec fn at_live_edge(self) -> bool {
        self.playing() && self.hist_pos is None
    }

    /// The raw index of the main store's logical position `i`.
    pub open spec fn raw_at(self, i: int) -> usize {
        match self.order {
            Some(o) => o[i],
            None => i as usize,
        }
    }

    /// The item of the main store at logical position `i`.
    pub open spec fn item_at(self, i: int) -> QueueItem<I, C> {
        self.items[self.raw_at(i) as int]
    }

    /// The raw index of the short-term store's logical position `j`.
    pub open spec fn st_raw_at(self, j: int) -> usize {
        match self.st_order {
            Some(o) => o[j],
            None => j as usize,
        }
    }

    /// The entry names an existing item of its store.
    pub open spec fn entry_valid(self, e: HistoryEntry) -> bool {
        match e {
            HistoryEntry::Main(r) => (r as int) < self.items.len(),
            HistoryEntry::Short(r) => (r as int) < self.st_items.len(),
        }
    }

    /// The item a history entry stands for.
    pub open spec fn resolve(self, e: HistoryEntry) -> QueueItem<I, C> {
        match e {
            HistoryEntry::Main(r) => self.items[r as int],
            HistoryEntry::Short(r) => self.st_items[r as int],
        }
    }

    /// The entry that describes the item at the live edge: the active
    /// short-term item if one is playing, else the main store's item at the
    /// live position, resolved through the shuffle order.
    pub open spec fn live_entry(self) -> HistoryEntry {
        if self.st_active {
            HistoryEntry::Short(self.st_raw_at(self.st_played))
        } else {
            HistoryEntry::Main(self.raw_at(self.live->0))
        }
    }

    /// The currently playing (or viewed) item; meaningful while playing.
    pub open spec fn current(self) -> QueueItem<I, C> {
        if self.viewing() {
            self.resolve(self.history[self.hist_pos->0])
        } else {
            self.resolve(self.live_entry())
        }
    }

    /// A not-yet-played short-term item follows the one at the live edge.
    pub open spec fn st_more(self) -> bool {
        if self.st_active {
            self.st_played + 1 < self.st_len()
        } else {
            self.st_played < self.st_len()
        }
    }

    /// The live edge can move forward without a repeat policy.
    pub open spec fn can_advance(self) -> bool {
        self.st_more() || self.live->0 + 1 < self.eff_len()
    }

    /// Well-formedness: every index in the state addresses an existing
    /// element, and the history length accounts exactly for the positions the
    /// live edge has passed.
    pub open spec fn wf(self) -> bool {
        &&& match self.live {
            Some(e) => {
                &&& 0 <= e < self.eff_len()
                &&& self.history.len() == e + self.st_played + (if self.st_active {
                    1int
                } else {
                    0int
                })
            },
            None => {
                &&& self.hist_pos is None
                &&& !self.st_active
                &&& self.history.len() == 0
                &&& self.st_played == 0
            },
        }
        &&& match self.hist_pos {
            Some(k) => self.live is Some && 0 <= k < self.history.len(),
            None => true,
        }
        &&& match self.order {
            Some(o) => forall|i: int| 0 <= i < o.len() ==> (#[trigger] o[i]) < self.items.len(),
            None => true,
        }
        &&& match self.st_order {
            Some(o) => forall|i: int| 0 <= i < o.len() ==> (#[trigger] o[i]) < self.st_items.len(),
            None => true,
        }
        &&& 0 <= self.st_played <= self.st_len()
        &&& (self.st_active ==> self.st_played < self.st_len())
        &&& (self.st_active ==> self.live is Some)
        &&& forall|i: int|
            0 <= i < self.history.len() ==> self.entry_valid(#[trigger] self.history[i])
    }

    /// What `next` answers, in every state.
    pub open spec fn next_result(self) -> Result<(), QueueError> {
        if !self.playing() {
            Err(QueueError::NotPlaying)
        } else if self.viewing() {
            Ok(())
        } else if self.can_advance() {
            Ok(())
        } else if self.repeat is Some {
            Ok(())
        } else {
            Err(QueueError::ReachedEnd)
        }
    }

    /// The state after a successful forward step at the live edge: the item
    /// at the live edge is logged, and the edge moves to the next unplayed
    /// short-term item if there is one, else to the next main position.
    pub open spec fn advanced(self) -> Self {
        let logged = QueueView { history: self.history.push(self.live_entry()), ..self };
        if self.st_active {
            if self.st_played + 1 < self.st_len() {
                QueueView { st_played: self.st_played + 1, ..logged }
            } else {
                QueueView {
                    st_played: self.st_played + 1,
                    st_active: false,
                    live: Some(self.live->0 + 1),
                    ..logged
                }
            }
        } else {
            if self.st_played < self.st_len() {
                QueueView { st_active: true, ..logged }
            } else {
                QueueView { live: Some(self.live->0 + 1), ..logged }
            }
        }
    }

    /// The state after a restart from the beginning: playback starts over,
    /// the history and the short-term progress are reset, and the shuffle
    /// order becomes `new_order`.
    pub open spec fn restarted(self, new_order: Option<Seq<usize>>) -> Self {
        QueueView {
            live: Some(0),
            history: Seq::empty(),
            hist_pos: None,
            st_played: 0,
            st_active: false,
            order: new_order,
            ..self
        }
    }

    /// `next` draws a fresh random permutation: only at the end of the queue,
    /// under `RepeatMode::All`, while shuffled.
    pub open spec fn next_randomizes(self) -> bool {
        &&& self.at_live_edge()
        &&& !self.can_advance()
        &&& self.repeat == Some(RepeatMode::All)
        &&& self.order is Some
    }

    /// The state after `next`, in every state where it is deterministic
    /// (that is, unless `next_randomizes`).
    pub open spec fn next_view(self) -> Self {
        if !self.playing() {
            self
        } else if self.viewing() {
            let k = self.hist_pos->0;
            if k + 1 == self.history.len() {
                QueueView { hist_pos: None, ..self }
            } else {
                QueueView { hist_pos: Some(k + 1), ..self }
            }
        } else if self.can_advance() {
            self.advanced()
        } else {
            match self.repeat {
                None => self,
                Some(RepeatMode::Item) => self,
                Some(RepeatMode::Container) => self,
                Some(RepeatMode::All) => self.restarted(self.order),
            }
        }
    }

    /// What `previous` answers, in every state.
    pub open spec fn prev_result(self) -> Result<(), QueueError> {
        if !self.playing() {
            Err(QueueError::NotPlaying)
        } else if self.viewing() {
            if self.hist_pos->0 > 0 {
                Ok(())
            } else {
                Err(QueueError::ReachedBeginning)
            }
        } else {
            if self.history.len() > 0 {
                Ok(())
            } else {
                Err(QueueError::ReachedBeginning)
            }
        }
    }

    /// The state after `previous`: the cursor steps back into the history;
    /// nothing else moves.
    pub open spec fn prev_view(self) -> Self {
        if !self.playing() {
            self
        } else if self.viewing() {
            if self.hist_pos->0 > 0 {
                QueueView { hist_pos: Some(self.hist_pos->0 - 1), ..self }
            } else {
                self
            }
        } else {
            if self.history.len() > 0 {
                QueueView { hist_pos: Some(self.history.len() - 1), ..self }
            } else {
                self
            }
        }
    }

    /// The full effective sequence in "as will be/was played" order: the
    /// items named by the history, then the remaining logical positions from
    /// the live edge on. Independent of the viewing cursor.
    pub open spec fn listing(self) -> Seq<QueueItem<I, C>> {
        if self.playing() {
            self.history.map(|i: int, e: HistoryEntry| self.resolve(e)) + Seq::new(
                (self.eff_len() - self.live->0) as nat,
                |j: int| self.item_at(self.live->0 + j),
            )
        } else {
            Seq::new(self.eff_len() as nat, |j: int| self.item_at(j))
        }
    }
}

/// The state of a queue freshly built from `items`: playing from position 0
/// if there is anything to play, unshuffled, with an empty history and an
/// empty short-term store.
pub open spec fn initial_view<I, C: QueueableCollection>(
    items: Seq<QueueItem<I, C>>,
) -> QueueView<I, C> {
    QueueView {
        items,
        order: None,
        live: if items.len() > 0 {
            Some(0)
        } else {
            None
        },
        history: Seq::empty(),
        hist_pos: None,
        st_items: Seq::empty(),
        st_order: None,
        st_played: 0,
        st_active: false,
        repeat: None,
        strategy: UnshuffleStrategy::PlayUnplayed,
    }
}

/// An advanced, configurable music queue.
///
/// Features:
/// - Basic queue features
/// - Shuffle
/// - Container shuffle
/// - Unshuffle
/// - Repeat:
///     - Track
///     - Container
///     - All
///     - Off
#[derive(Clone, Debug)]
pub struct OldQueue<I, C: QueueableCollection> {
    /// Entries showing previously played items. The history before the
    /// current item can never change.
    history: Vec<HistoryEntry>,
    /// If the user went backwards, they are now in the history, and this
    /// index shows where in the history. Can move forwards and backwards!
    history_index: Option<usize>,
    /// The repeat mode of the queue.
    repeat_status: Option<RepeatMode>,
    /// The strategy applied when un-shuffling while playing.
    unshuffle_strat: UnshuffleStrategy,
    /// If the queue is shuffled, this contains the playback order.
    shuffle_order: Option<Vec<usize>>,
    /// How many short-term items have already been played.
    next_up_played: usize,
    /// Whether the currently playing item is the short-term item at position
    /// `next_up_played`.
    next_up_active: bool,
    /// The short term queue, used by the `queue_next` method. Items in this
    /// queue are always played before items in the main queue.
    next_up_items: Vec<QueueItem<I, C>>,
    /// If the short term queue is shuffled, this contains its playback order.
    next_up_order: Option<Vec<usize>>,
    /// The index of the currently playing item, if any. Can only move
    /// forwards!
    current_item: Option<usize>,
    /// Items is a collection of items that this queue can play.
    items: Vec<QueueItem<I, C>>,
}

impl<I, C: QueueableCollection> View for OldQueue<I, C> {
    type V = QueueView<I, C>;

    closed spec fn view(&self) -> QueueView<I, C> {
        QueueView {
            items: self.items@,
            order: match self.shuffle_order {
                Some(o) => Some(o@),
                None => None,
            },
            live: match self.current_item {
                Some(e) => Some(e as int),
                None => None,
            },
            history: self.history@,
            hist_pos: match self.history_index {
                Some(k) => Some(k as int),
                None => None,
            },
            st_items: self.next_up_items@,
            st_order: match self.next_up_order {
                Some(o) => Some(o@),
                None => None,
            },
            st_played: self.next_up_played as int,
            st_active: self.next_up_active,
            repeat: self.repeat_status,
            strategy: self.unshuffle_strat,
        }
    }
}

impl<I, C: QueueableCollection> OldQueue<I, C> {
    /// The queue's state is well-formed.
    pub open spec fn wf(&self) -> bool {
        self@.wf()
    }

    /// How many items the main store holds.
    pub fn len(&self) -> (n: usize)
        ensures
            n == self@.items.len(),
    {
        self.items.len()
    }

    /// Return whether the queue is playing: whether it has a current item.
    pub fn is_playing(&self) -> (b: bool)
        ensures
            b == self@.playing(),
    {
        self.current_item.is_some()
    }

    /// Return whether the queue is shuffled.
    pub fn is_shuffled(&self) -> (b: bool)
        ensures
            b == (self@.order is Some),
    {
        self.shuffle_order.is_some()
    }

    /// Append an item to the short term queue: it will play before the
    /// remaining items of the main store.
    pub fn queue_next(&mut self, item: QueueItem<I, C>)
        requires
            old(self).wf(),
        ensures
            final(self).wf(),
            final(self)@ == (QueueView {
                st_items: old(self)@.st_items.push(item),
                ..old(self)@
            }),
    {
        self.next_up_items.push(item);
        assert(self@ =~= (QueueView { st_items: old(self)@.st_items.push(item), ..old(self)@ }));
    }

    /// Set the repeat mode; `None` means "stop at end".
    pub fn set_repeat(&mut self, mode: Option<RepeatMode>)
        requires
            old(self).wf(),
        ensures
            final(self).wf(),
            final(self)@ == (QueueView { repeat: mode, ..old(self)@ }),
    {
        self.repeat_status = mode;
        assert(self@ =~= (QueueView { repeat: mode, ..old(self)@ }));
    }

    /// Set the strategy used when un-shuffling while playing.
    pub fn set_unshuffle_strategy(&mut self, strategy: UnshuffleStrategy)
        requires
            old(self).wf(),
        ensures
            final(self).wf(),
            final(self)@ == (QueueView { strategy, ..old(self)@ }),
    {
        self.unshuffle_strat = strategy;
        assert(self@ =~= (QueueView { strategy, ..old(self)@ }));
    }

    /// Clear the queue: empty both stores and stop playback. The repeat mode
    /// and the un-shuffle strategy are settings, not playback state, and are
    /// kept.
    pub fn clear(&mut self)
        requires
            old(self).wf(),
        ensures
            final(self).wf(),
            final(self)@ == initial_view::<I, C>(Seq::empty()).with_settings(
                old(self)@.repeat,
                old(self)@.strategy,
            ),
    {
        self.items = Vec::new();
        self.current_item = None;
        self.history = Vec::new();
        self.history_index = None;
        self.shuffle_order = None;
        self.next_up_items = Vec::new();
        self.next_up_order = None;
        self.next_up_played = 0;
        self.next_up_active = false;
        assert(self@ =~= initial_view::<I, C>(Seq::empty()).with_settings(
            old(self)@.repeat,
            old(self)@.strategy,
        ));
    }

    /// Start playing from the beginning of the store: the history, the
    /// viewing cursor and the short-term progress start over.
    pub fn play(&mut self)
        requires
            old(self).wf(),
        ensures
            final(self).wf(),
            final(self)@ == (QueueView {
                live: if old(self)@.eff_len() > 0 {
                    Some(0int)
                } else {
                    None
                },
                history: Seq::empty(),
                hist_pos: None,
                st_played: 0,
                st_active: false,
                ..old(self)@
            }),
    {
        let playable = match &self.shuffle_order {
            Some(o) => o.len() > 0,
            None => self.items.len() > 0,
        };
        self.current_item = if playable {
            Some(0)
        } else {
            None
        };
        self.history = Vec::new();
        self.history_index = None;
        self.next_up_played = 0;
        self.next_up_active = false;
        assert(self@ =~= (QueueView {
            live: if old(self)@.eff_len() > 0 {
                Some(0int)
            } else {
                None
            },
            history: Seq::empty(),
            hist_pos: None,
            st_played: 0,
            st_active: false,
            ..old(self)@
        }));
    }
}

impl<I, C: QueueableCollection> OldQueue<I, C> {
    /// Change the current item to the next one in the queue.
    ///
    /// While viewing the history this only moves the viewing cursor. At the
    /// live edge it logs the current item and advances: into the short-term
    /// queue while that has unplayed items, else to the next main position.
    /// At the end of the queue the repeat policy decides (see
    /// [`QueueView::next_result`]); without one, `ReachedEnd` is returned and
    /// nothing changes.
    pub fn next(&mut self) -> (r: Result<(), QueueError>)
        requires
            old(self).wf(),
        ensures
            final(self).wf(),
            r == old(self)@.next_result(),
            !old(self)@.next_randomizes() ==> final(self)@ == old(self)@.next_view(),
            old(self)@.next_randomizes() ==> final(self)@.order is Some && is_permutation(
                final(self)@.order->0,
                old(self)@.items.len() as nat,
            ) && final(self)@ == old(self)@.restarted(final(self)@.order),
    {
        let e = match self.current_item {
            Some(e) => e,
            None => {
                return Err(QueueError::NotPlaying);
            },
        };
        if let Some(k) = self.history_index {
            let h = self.history.len();
            if k + 1 == h {
                // Caught back up to the present.
                self.history_index = None;
            } else {
                // Still inside history.
                self.history_index = Some(k + 1);
            }
            assert(self@ =~= old(self)@.next_view());
            return Ok(());
        }
        // At the live edge.
        let n_eff = match &self.shuffle_order {
            Some(o) => o.len(),
            None => self.items.len(),
        };
        let st_len = match &self.next_up_order {
            Some(o) => o.len(),
            None => self.next_up_items.len(),
        };
        if self.next_up_active {
            let raw = match &self.next_up_order {
                Some(o) => o[self.next_up_played],
                None => self.next_up_played,
            };
            if self.next_up_played + 1 < st_len {
                self.history.push(HistoryEntry::Short(raw));
                self.next_up_played = self.next_up_played + 1;
                assert(self@ =~= old(self)@.next_view());
                return Ok(());
            }
            if e + 1 < n_eff {
                self.history.push(HistoryEntry::Short(raw));
                self.next_up_played = self.next_up_played + 1;
                self.next_up_active = false;
                self.current_item = Some(e + 1);
                assert(self@ =~= old(self)@.next_view());
                return Ok(());
            }
        } else {
            let raw = match &self.shuffle_order {
                Some(o) => o[e],
                None => e,
            };
            if self.next_up_played < st_len {
                self.history.push(HistoryEntry::Main(raw));
                self.next_up_active = true;
                assert(self@ =~= old(self)@.next_view());
                return Ok(());
            }
            if e + 1 < n_eff {
                self.history.push(HistoryEntry::Main(raw));
                self.current_item = Some(e + 1);
                assert(self@ =~= old(self)@.next_view());
                return Ok(());
            }
        }
        // At the end of the queue: the repeat policy decides.
        match &self.repeat_status {
            None => Err(QueueError::ReachedEnd),
            Some(RepeatMode::Item) => {
                // Restart the current item's position: no state change.
                Ok(())
            },
            Some(RepeatMode::Container) => {
                // Restarting a playing collection's children is the
                // collection's own, private state; the queue's state is
                // unchanged, as for RepeatMode::Item.
                Ok(())
            },
            Some(RepeatMode::All) => {
                proof {
                    // While playing, the store cannot be empty: the live
                    // position is a valid logical position.
                    let v = self@;
                    if v.order is Some {
                        assert(v.order->0[v.live->0] < v.items.len());
                    }
                }
                self.history = Vec::new();
                self.history_index = None;
                self.next_up_played = 0;
                self.next_up_active = false;
                self.current_item = Some(0);
                if self.shuffle_order.is_some() {
                    let n = self.items.len();
                    self.shuffle_order = Some(shuffled_vec(n));
                    assert(self@ =~= old(self)@.restarted(self@.order));
                } else {
                    assert(self@ =~= old(self)@.next_view());
                }
                Ok(())
            },
        }
    }

    /// Change the current item to the previous one in the queue: step the
    /// viewing cursor back into the history. The live edge, the history and
    /// the shuffle orders never move.
    pub fn previous(&mut self) -> (r: Result<(), QueueError>)
        requires
            old(self).wf(),
        ensures
            final(self).wf(),
            r == old(self)@.prev_result(),
            final(self)@ == old(self)@.prev_view(),
    {
        if self.current_item.is_none() {
            return Err(QueueError::NotPlaying);
        }
        if let Some(k) = self.history_index {
            // The user is already viewing the history.
            if k > 0 {
                self.history_index = Some(k - 1);
                assert(self@ =~= old(self)@.prev_view());
                Ok(())
            } else {
                Err(QueueError::ReachedBeginning)
            }
        } else {
            // The user went back for the first time.
            if self.history.len() > 0 {
                let k = self.history.len() - 1;
                self.history_index = Some(k);
                assert(self@ =~= old(self)@.prev_view());
                Ok(())
            } else {
                Err(QueueError::ReachedBeginning)
            }
        }
    }

    /// Gets the currently playing (or viewed) item.
    pub fn get_current_item(&self) -> (r: Result<&QueueItem<I, C>, QueueError>)
        requires
            self.wf(),
        ensures
            self@.playing() ==> (r matches Ok(it) && *it == self@.current()),
            !self@.playing() ==> (r matches Err(e) && e == QueueError::NotPlaying),
    {
        let e = match self.current_item {
            Some(e) => e,
            None => {
                return Err(QueueError::NotPlaying);
            },
        };
        if let Some(k) = self.history_index {
            // Viewing a past position.
            let entry = self.history[k];
            proof {
                assert(self@.entry_valid(self@.history[k as int]));
            }
            match entry {
                HistoryEntry::Main(raw) => Ok(&self.items[raw]),
                HistoryEntry::Short(raw) => Ok(&self.next_up_items[raw]),
            }
        } else if self.next_up_active {
            // The live edge is inside the short-term queue.
            let raw = match &self.next_up_order {
                Some(o) => o[self.next_up_played],
                None => self.next_up_played,
            };
            Ok(&self.next_up_items[raw])
        } else {
            // The live edge is in the main store.
            let raw = match &self.shuffle_order {
                Some(o) => o[e],
                None => e,
            };
            Ok(&self.items[raw])
        }
    }
}

impl<I, C: QueueableCollection> OldQueue<I, C> {
    /// The full effective sequence in "as will be/was played" order: the
    /// items named by the history, then the remaining logical positions from
    /// the live edge to the end. Browsing the history does not change what
    /// this reports; when stopped, the whole store is reported in its
    /// currently shuffled-or-not order.
    pub fn get_items(&self) -> (r: Vec<&QueueItem<I, C>>)
        requires
            self.wf(),
        ensures
            r@.len() == self@.listing().len(),
            forall|i: int| 0 <= i < r@.len() ==> *(#[trigger] r@[i]) == self@.listing()[i],
    {
        let mut out: Vec<&QueueItem<I, C>> = Vec::new();
        match self.current_item {
            Some(e) => {
                // Playing: first the items the live edge has passed.
                let h = self.history.len();
                let mut i: usize = 0;
                while i < h
                    invariant
                        self.wf(),
                        self@.playing(),
                        h == self@.history.len(),
                        i <= h,
                        out@.len() == i,
                        forall|j: int|
                            0 <= j < i ==> *(#[trigger] out@[j]) == self@.listing()[j],
                    decreases h - i,
                {
                    let entry = self.history[i];
                    proof {
                        assert(self@.entry_valid(self@.history[i as int]));
                    }
                    match entry {
                        HistoryEntry::Main(raw) => out.push(&self.items[raw]),
                        HistoryEntry::Short(raw) => out.push(&self.next_up_items[raw]),
                    }
                    i += 1;
                }
                // ... then the remaining logical positions.
                match &self.shuffle_order {
                    Some(o) => {
                        let mut j: usize = e;
                        while j < o.len()
                            invariant
                                self.wf(),
                                self@.playing(),
                                self@.order == Some(o@),
                                h == self@.history.len(),
                                e == self@.live->0,
                                e <= j <= o@.len(),
                                out@.len() == h + j - e,
                                forall|k: int|
                                    0 <= k < out@.len() ==> *(#[trigger] out@[k])
                                        == self@.listing()[k],
                            decreases o@.len() - j,
                        {
                            proof {
                                assert(self@.order->0[j as int] < self@.items.len());
                            }
                            out.push(&self.items[o[j]]);
                            j += 1;
                        }
                    },
                    None => {
                        let mut j: usize = e;
                        while j < self.items.len()
                            invariant
                                self.wf(),
                                self@.playing(),
                                self@.order is None,
                                h == self@.history.len(),
                                e == self@.live->0,
                                e <= j <= self@.items.len(),
                                out@.len() == h + j - e,
                                forall|k: int|
                                    0 <= k < out@.len() ==> *(#[trigger] out@[k])
                                        == self@.listing()[k],
                            decreases self@.items.len() - j,
                        {
                            out.push(&self.items[j]);
                            j += 1;
                        }
                    },
                }
            },
            None => {
                // Not playing: the whole store, in logical order.
                match &self.shuffle_order {
                    Some(o) => {
                        let mut j: usize = 0;
                        while j < o.len()
                            invariant
                                self.wf(),
                                !self@.playing(),
                                self@.order == Some(o@),
                                j <= o@.len(),
                                out@.len() == j,
                                forall|k: int|
                                    0 <= k < j ==> *(#[trigger] out@[k]) == self@.listing()[k],
                            decreases o@.len() - j,
                        {
                            proof {
                                assert(self@.order->0[j as int] < self@.items.len());
                            }
                            out.push(&self.items[o[j]]);
                            j += 1;
                        }
                    },
                    None => {
                        let mut j: usize = 0;
                        while j < self.items.len()
                            invariant
                                self.wf(),
                                !self@.playing(),
                                self@.order is None,
                                j <= self@.items.len(),
                                out@.len() == j,
                                forall|k: int|
                                    0 <= k < j ==> *(#[trigger] out@[k]) == self@.listing()[k],
                            decreases self@.items.len() - j,
                        {
                            out.push(&self.items[j]);
                            j += 1;
                        }
                    },
                }
            },
        }
        out
    }

    /// Replace the shuffle order by the given one. Every entry must name an
    /// existing item; while playing, the live position must stay a valid
    /// logical position of the new order.
    pub fn set_shuffle_order(&mut self, order: Vec<usize>)
        requires
            old(self).wf(),
            forall|i: int|
                0 <= i < order@.len() ==> (#[trigger] order@[i]) < old(self)@.items.len(),
            old(self)@.playing() ==> old(self)@.live->0 < order@.len(),
        ensures
            final(self).wf(),
            final(self)@ == (QueueView { order: Some(order@), ..old(self)@ }),
    {
        self.shuffle_order = Some(order);
        assert(self@ =~= (QueueView { order: self@.order, ..old(self)@ }));
    }

    /// The current shuffle order, if the queue is shuffled.
    pub fn get_shuffle_order(&self) -> (r: Option<Vec<usize>>)
        ensures
            match self@.order {
                Some(o) => r matches Some(v) && v@ == o,
                None => r is None,
            },
    {
        match &self.shuffle_order {
            Some(o) => {
                let mut copied: Vec<usize> = Vec::new();
                let mut i: usize = 0;
                while i < o.len()
                    invariant
                        i <= o@.len(),
                        copied@.len() == i,
                        forall|j: int| 0 <= j < i ==> (#[trigger] copied@[j]) == o@[j],
                    decreases o@.len() - i,
                {
                    copied.push(o[i]);
                    i += 1;
                }
                assert(copied@ =~= o@);
                Some(copied)
            },
            None => None,
        }
    }
}

impl<I, C: QueueableCollection> QueueView<I, C> {
    /// `self` is `pre` after `shuffle()`: only the main shuffle order
    /// differs. Not playing: a fresh permutation of the whole store. Playing
    /// with positions left: the already-played prefix and the current
    /// position keep their mapping (the identity one, if there was no order
    /// yet) and only the positions after the live edge are reordered.
    /// Playing at the last position: a no-op.
    pub open spec fn shuffled_from(self, pre: Self) -> bool {
        &&& self == (QueueView { order: self.order, ..pre })
        &&& if !pre.playing() {
            self.order is Some && is_permutation(self.order->0, pre.items.len())
        } else {
            let e = pre.live->0;
            if e + 1 < pre.eff_len() {
                match pre.order {
                    Some(o) => self.order is Some && {
                        let o2 = self.order->0;
                        &&& o2.len() == o.len()
                        &&& forall|i: int| 0 <= i <= e ==> o2[i] == o[i]
                        &&& o2.skip(e + 1).to_multiset() == o.skip(e + 1).to_multiset()
                    },
                    None => self.order is Some && {
                        let o2 = self.order->0;
                        &&& is_permutation(o2, pre.items.len())
                        &&& forall|i: int| 0 <= i <= e ==> o2[i] == i
                    },
                }
            } else {
                self.order == pre.order
            }
        }
    }

    /// `self` is `pre` after `unshuffle()`: only the main shuffle order
    /// differs. Not playing: the order is removed. Playing and shuffled: the
    /// already-played prefix and the current position keep their mapping and
    /// the rest is rebuilt by the strategy.
    pub open spec fn unshuffled_from(self, pre: Self) -> bool {
        &&& self == (QueueView { order: self.order, ..pre })
        &&& if !pre.playing() {
            self.order is None
        } else {
            match pre.order {
                None => self == pre,
                Some(o) => {
                    let e = pre.live->0;
                    let n = pre.items.len() as int;
                    match pre.strategy {
                        UnshuffleStrategy::PlayUnplayed => self.order is Some && {
                            let o2 = self.order->0;
                            &&& o2.len() == o.len()
                            &&& forall|i: int| 0 <= i <= e ==> o2[i] == o[i]
                            &&& sorted(o2.skip(e + 1))
                            &&& o2.skip(e + 1).to_multiset() == o.skip(e + 1).to_multiset()
                        },
                        UnshuffleStrategy::KeepIndex => self.order == Some(
                            o.take(e + 1) + index_range(o[e] + 1, n),
                        ),
                        UnshuffleStrategy::KeepRawIndex => self.order == Some(
                            o.take(e + 1) + index_range(e + 1, n),
                        ),
                        UnshuffleStrategy::FromBeginning => self.order == Some(
                            o.take(e + 1) + index_range(0, n),
                        ),
                    }
                },
            }
        }
    }

    /// `self` is `pre` after appending `item`: the item stands at the end of
    /// the main store; a shuffle order, if present, takes the new raw index
    /// in, and the positions after the live edge are reordered so that the
    /// new item is folded into the random order.
    pub open spec fn queued_from(self, pre: Self, item: QueueItem<I, C>) -> bool {
        &&& self == (QueueView { items: self.items, order: self.order, ..pre })
        &&& self.items == pre.items.push(item)
        &&& match pre.order {
            None => self.order is None,
            Some(o) => {
                let appended = o.push(pre.items.len() as usize);
                if pre.playing() {
                    let e = pre.live->0;
                    self.order is Some && {
                        let o2 = self.order->0;
                        &&& o2.len() == o.len() + 1
                        &&& forall|i: int| 0 <= i <= e ==> o2[i] == o[i]
                        &&& o2.skip(e + 1).to_multiset() == appended.skip(e + 1).to_multiset()
                    }
                } else {
                    self.order == Some(appended)
                }
            },
        }
    }
}

impl<I, C: QueueableCollection> OldQueue<I, C> {
    /// (Re)shuffle the queue.
    ///
    /// If not playing, draw a random permutation of the whole store. If
    /// playing and positions are left after the live edge, reorder exactly
    /// those (starting from the identity order if the queue was not
    /// shuffled); the played prefix and the current position never move. If
    /// the live edge is at the last position, nothing is left to reorder.
    pub fn shuffle(&mut self)
        requires
            old(self).wf(),
        ensures
            final(self).wf(),
            final(self)@.shuffled_from(old(self)@),
    {
        let e = match self.current_item {
            Some(e) => e,
            None => {
                // Not playing.
                let n = self.items.len();
                self.shuffle_order = Some(shuffled_vec(n));
                assert(self@ =~= (QueueView { order: self@.order, ..old(self)@ }));
                return ;
            },
        };
        let n_eff = match &self.shuffle_order {
            Some(o) => o.len(),
            None => self.items.len(),
        };
        let n_items = self.items.len();
        if e + 1 < n_eff {
            // Positions are left after the live edge.
            match &mut self.shuffle_order {
                Some(o) => {
                    let ghost before = o@;
                    let ghost n = n_items as int;
                    shuffle_from(o, e + 1);
                    proof {
                        assert forall|i: int|
                            0 <= i < before.skip(e + 1).len() implies (#[trigger] before.skip(
                            e + 1,
                        )[i]) < n by {
                            assert(before.skip(e + 1)[i] == before[e + 1 + i]);
                        }
                        lemma_multiset_entries_bounded(before.skip(e + 1), o@.skip(e + 1), n);
                        assert forall|i: int|
                            0 <= i < o@.len() implies (#[trigger] o@[i]) < n by {
                            if i > e {
                                assert(o@[i] == o@.skip(e + 1)[i - e - 1]);
                            } else {
                                assert(o@[i] == before[i]);
                            }
                        }
                    }
                },
                None => {
                    let mut o = identity_order(self.items.len());
                    let ghost before = o@;
                    shuffle_from(&mut o, e + 1);
                    proof {
                        lemma_prefix_suffix_multiset(before, o@, e + 1);
                        lemma_multiset_equal_permutation(before, o@, self@.items.len());
                    }
                    self.shuffle_order = Some(o);
                },
            }
            assert(self@ =~= (QueueView { order: self@.order, ..old(self)@ }));
        }
    }

    /// Unshuffle the queue.
    ///
    /// If not playing, remove the shuffle order: raw order is restored. If
    /// playing and shuffled, rebuild the positions after the live edge by
    /// the configured [`UnshuffleStrategy`]; the played prefix and the
    /// current position never move.
    pub fn unshuffle(&mut self)
        requires
            old(self).wf(),
        ensures
            final(self).wf(),
            final(self)@.unshuffled_from(old(self)@),
    {
        let e = match self.current_item {
            Some(e) => e,
            None => {
                // Not playing.
                self.shuffle_order = None;
                assert(self@ =~= (QueueView { order: None, ..old(self)@ }));
                return ;
            },
        };
        if self.shuffle_order.is_none() {
            return ;
        }
        let n = self.items.len();
        match &self.unshuffle_strat {
            UnshuffleStrategy::PlayUnplayed => {
                if let Some(o) = &mut self.shuffle_order {
                    let olen = o.len();
                    if e + 1 < olen {
                        let ghost before = o@;
                        let ghost n = n as int;
                        let mut tail = o.split_off(e + 1);
                        let ghost tail0 = tail@;
                        sort_indices(&mut tail);
                        let ghost tail1 = tail@;
                        o.append(&mut tail);
                        proof {
                            assert(before.skip(e + 1) =~= tail0);
                            assert(o@.skip(e + 1) =~= tail1);
                            assert(o@.len() == before.len());
                            assert forall|i: int|
                                0 <= i < before.skip(e + 1).len() implies (#[trigger] before.skip(
                                e + 1,
                            )[i]) < n by {
                                assert(before.skip(e + 1)[i] == before[e + 1 + i]);
                            }
                            lemma_multiset_entries_bounded(before.skip(e + 1), o@.skip(e + 1), n);
                            assert forall|i: int|
                                0 <= i < o@.len() implies (#[trigger] o@[i]) < n by {
                                if i > e {
                                    assert(o@[i] == o@.skip(e + 1)[i - e - 1]);
                                } else {
                                    assert(o@[i] == before[i]);
                                }
                            }
                        }
                    }
                }
                assert(self@ =~= (QueueView { order: self@.order, ..old(self)@ }));
            },
            UnshuffleStrategy::KeepIndex => {
                let (mut no, cur) = match &self.shuffle_order {
                    Some(o) => {
                        let olen = o.len();
                        assert(e < olen);
                        (prefix_of(o, e + 1), o[e])
                    },
                    None => {
                        unreached()
                    },
                };
                assert(cur < n);
                push_index_range(&mut no, cur + 1, n);
                self.shuffle_order = Some(no);
                assert(self@ =~= (QueueView { order: self@.order, ..old(self)@ }));
            },
            UnshuffleStrategy::KeepRawIndex => {
                let mut no = match &self.shuffle_order {
                    Some(o) => {
                        let olen = o.len();
                        assert(e < olen);
                        prefix_of(o, e + 1)
                    },
                    None => {
                        unreached()
                    },
                };
                push_index_range(&mut no, e + 1, n);
                self.shuffle_order = Some(no);
                assert(self@ =~= (QueueView { order: self@.order, ..old(self)@ }));
            },
            UnshuffleStrategy::FromBeginning => {
                let mut no = match &self.shuffle_order {
                    Some(o) => {
                        let olen = o.len();
                        assert(e < olen);
                        prefix_of(o, e + 1)
                    },
                    None => {
                        unreached()
                    },
                };
                push_index_range(&mut no, 0, n);
                self.shuffle_order = Some(no);
                assert(self@ =~= (QueueView { order: self@.order, ..old(self)@ }));
            },
        }
    }

    /// Toggle shuffle: unshuffle a shuffled queue, shuffle an unshuffled one.
    pub fn toggle_shuffle(&mut self)
        requires
            old(self).wf(),
        ensures
            final(self).wf(),
            old(self)@.order is Some ==> final(self)@.unshuffled_from(old(self)@),
            old(self)@.order is None ==> final(self)@.shuffled_from(old(self)@),
    {
        if self.shuffle_order.is_some() {
            self.unshuffle();
        } else {
            self.shuffle();
        }
    }

    /// Append an item to the main store. While shuffled, the new raw index
    /// is folded into the order: the positions after the live edge (the
    /// whole order, when stopped, is left in place with the new item last)
    /// are reshuffled so the new item need not play last.
    pub fn queue(&mut self, item: QueueItem<I, C>)
        requires
            old(self).wf(),
        ensures
            final(self).wf(),
            final(self)@.queued_from(old(self)@, item),
    {
        let n_before = self.items.len();
        self.items.push(item);
        match self.current_item {
            Some(e) => {
                if let Some(o) = &mut self.shuffle_order {
                    o.push(n_before);
                    let olen = o.len();
                    assert(e < olen);
                    let ghost appended = o@;
                    let ghost n = n_before + 1 as int;
                    shuffle_from(o, e + 1);
                    proof {
                        assert forall|i: int|
                            0 <= i < appended.len() implies (#[trigger] appended[i]) < n by {
                            if i < appended.len() - 1 {
                                assert(appended[i] == old(self)@.order->0[i]);
                            }
                        }
                        assert forall|i: int|
                            0 <= i < appended.skip(e + 1).len() implies (#[trigger] appended.skip(
                            e + 1,
                        )[i]) < n by {
                            assert(appended.skip(e + 1)[i] == appended[e + 1 + i]);
                        }
                        lemma_multiset_entries_bounded(appended.skip(e + 1), o@.skip(e + 1), n);
                        assert forall|i: int|
                            0 <= i < o@.len() implies (#[trigger] o@[i]) < n by {
                            if i > e {
                                assert(o@[i] == o@.skip(e + 1)[i - e - 1]);
                            } else {
                                assert(o@[i] == appended[i]);
                            }
                        }
                    }
                }
            },
            None => {
                if let Some(o) = &mut self.shuffle_order {
                    o.push(n_before);
                    proof {
                        assert forall|i: int|
                            0 <= i < o@.len() implies (#[trigger] o@[i]) < n_before + 1 by {
                            if i < o@.len() - 1 {
                                assert(o@[i] == old(self)@.order->0[i]);
                            }
                        }
                    }
                }
            },
        }
        assert(self@ =~= (QueueView {
            items: self@.items,
            order: self@.order,
            ..old(self)@
        }));
        assert(self@.items == old(self)@.items.push(item));
    }
}

impl<I, C: QueueableCollection> QueueView<I, C> {
    /// The same state with the given settings.
    pub open spec fn with_settings(
        self,
        repeat: Option<RepeatMode>,
        strategy: UnshuffleStrategy,
    ) -> Self {
        QueueView { repeat, strategy, ..self }
    }
}

impl<I, C: QueueableCollection> From<Vec<QueueItem<I, C>>> for OldQueue<I, C> {
    /// Build a queue over `items`, playing from position 0 if `items` is
    /// non-empty.
    fn from(items: Vec<QueueItem<I, C>>) -> (q: Self)
        ensures
            q@ == initial_view(items@),
            q.wf(),
    {
        let playable = items.len() > 0;
        let q = OldQueue {
            history: Vec::new(),
            history_index: None,
            repeat_status: None,
            unshuffle_strat: UnshuffleStrategy::PlayUnplayed,
            shuffle_order: None,
            next_up_played: 0,
            next_up_active: false,
            next_up_items: Vec::new(),
            next_up_order: None,
            current_item: if playable {
                Some(0)
            } else {
                None
            },
            items,
        };
        assert(q@ =~= initial_view(q@.items));
        q
    }
}

impl<I, C: QueueableCollection> vstd::std_specs::convert::FromSpecImpl<Vec<QueueItem<I, C>>> for OldQueue<I, C> {
    // `From::from` above carries its contract directly; no exact spec-level
    // queue value can stand in `from_spec`, since spec code cannot assemble
    // the empty vectors of a fresh queue.
    open spec fn obeys_from_spec() -> bool {
        false
    }

    closed spec fn from_spec(items: Vec<QueueItem<I, C>>) -> Self {
        arbitrary()
    }
}

impl<I, C: QueueableCollection> Default for OldQueue<I, C> {
    /// The empty, stopped queue.
    fn default() -> (q: Self)
        ensures
            q@ == initial_view::<I, C>(Seq::empty()),
            q.wf(),
    {
        let q = OldQueue {
            history: Vec::new(),
            history_index: None,
            repeat_status: None,
            unshuffle_strat: UnshuffleStrategy::PlayUnplayed,
            shuffle_order: None,
            next_up_played: 0,
            next_up_active: false,
            next_up_items: Vec::new(),
            next_up_order: None,
            current_item: None,
            items: Vec::new(),
        };
        assert(q@ =~= initial_view::<I, C>(Seq::empty()));
        q
    }
}

} // verus!
