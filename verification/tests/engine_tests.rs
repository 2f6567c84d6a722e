use media_queue::item::QueueItem;
use media_queue::item::QueueableCollection;
use media_queue::item::SimpleCollection;
use media_queue::queue::OldQueue;
use media_queue::queue::QueueError;
use media_queue::queue::RepeatMode;
use media_queue::queue::UnshuffleStrategy;
use media_queue::util::shuffled_vec;

type Q = OldQueue<u32, SimpleCollection<u32>>;

fn tracks(ids: &[u32]) -> Q {
    OldQueue::from(ids.iter().map(|id| QueueItem::Single(*id)).collect::<Vec<_>>())
}

fn current_id(queue: &Q) -> u32 {
    match queue.get_current_item() {
        Ok(QueueItem::Single(id)) => *id,
        _ => panic!("expected a single playing item"),
    }
}

#[test]
fn repeat_item_holds_position() {
    let mut queue = tracks(&[10, 20]);
    queue.set_repeat(Some(RepeatMode::Item));

    queue.next().unwrap();
    assert_eq!(current_id(&queue), 20);

    // At the end, RepeatMode::Item restarts the current item instead of
    // failing; the position does not move.
    queue.next().unwrap();
    assert_eq!(current_id(&queue), 20);
    queue.next().unwrap();
    assert_eq!(current_id(&queue), 20);
    assert_eq!(queue.get_items().len(), 2);
}

#[test]
fn repeat_container_at_end() {
    let mut queue: Q = OldQueue::from(vec![
        QueueItem::Single(1),
        QueueItem::Collection(SimpleCollection::from(vec![7, 8])),
    ]);
    queue.set_repeat(Some(RepeatMode::Container));

    queue.next().unwrap();
    assert!(matches!(queue.get_current_item(), Ok(QueueItem::Collection(_))));

    // At the end, the playing collection restarts internally; the queue's
    // own position does not move.
    queue.next().unwrap();
    assert!(matches!(queue.get_current_item(), Ok(QueueItem::Collection(_))));
}

#[test]
fn repeat_all_restarts() {
    let mut queue = tracks(&[1, 2, 3]);
    queue.set_repeat(Some(RepeatMode::All));

    queue.next().unwrap();
    queue.next().unwrap();
    assert_eq!(current_id(&queue), 3);

    // At the end, RepeatMode::All starts over from the beginning.
    queue.next().unwrap();
    assert_eq!(current_id(&queue), 1);
    assert!(matches!(queue.previous(), Err(QueueError::ReachedBeginning)));
}

#[test]
fn repeat_all_reshuffles() {
    let mut queue = tracks(&[1, 2, 3, 4]);
    queue.set_shuffle_order(vec![3, 2, 1, 0]);
    queue.set_repeat(Some(RepeatMode::All));

    queue.next().unwrap();
    queue.next().unwrap();
    queue.next().unwrap();
    assert!(queue.next().is_ok());

    // A fresh permutation of the whole store was drawn.
    let mut order = queue.get_shuffle_order().unwrap();
    order.sort();
    assert_eq!(order, vec![0, 1, 2, 3]);
}

#[test]
fn unshuffle_strat_keep_index() {
    let mut queue = tracks(&[0, 1, 2, 3, 4, 5, 6, 7]);
    queue.set_shuffle_order(vec![7, 3, 5, 1, 2, 0, 4, 6]);
    queue.set_unshuffle_strategy(UnshuffleStrategy::KeepIndex);

    queue.next().unwrap();
    queue.next().unwrap();
    assert_eq!(current_id(&queue), 5);

    // Continue from the current raw index 5: the rest of the order becomes
    // 6, 7 and the queue ends early.
    queue.unshuffle();
    assert_eq!(queue.get_shuffle_order(), Some(vec![7, 3, 5, 6, 7]));
    assert_eq!(current_id(&queue), 5);
    queue.next().unwrap();
    assert_eq!(current_id(&queue), 6);
    queue.next().unwrap();
    assert_eq!(current_id(&queue), 7);
    assert!(matches!(queue.next(), Err(QueueError::ReachedEnd)));
}

#[test]
fn unshuffle_strat_from_beginning() {
    let mut queue = tracks(&[0, 1, 2, 3, 4, 5, 6, 7]);
    queue.set_shuffle_order(vec![7, 3, 5, 1, 2, 0, 4, 6]);
    queue.set_unshuffle_strategy(UnshuffleStrategy::FromBeginning);

    queue.next().unwrap();
    queue.next().unwrap();
    assert_eq!(current_id(&queue), 5);

    // Replay the whole raw sequence after the current position.
    queue.unshuffle();
    assert_eq!(queue.get_shuffle_order(), Some(vec![7, 3, 5, 0, 1, 2, 3, 4, 5, 6, 7]));
    assert_eq!(current_id(&queue), 5);
    assert_eq!(queue.get_items().len(), 11);
    queue.next().unwrap();
    assert_eq!(current_id(&queue), 0);
    queue.next().unwrap();
    assert_eq!(current_id(&queue), 1);
}

#[test]
fn unshuffle_at_last_position_keeps_order() {
    let mut queue = tracks(&[1, 2, 3]);
    queue.set_shuffle_order(vec![2, 1, 0]);
    queue.next().unwrap();
    queue.next().unwrap();

    // Nothing is left to reorder after the last position.
    queue.unshuffle();
    assert_eq!(queue.get_shuffle_order(), Some(vec![2, 1, 0]));
}

#[test]
fn unshuffle_when_stopped_removes_order() {
    let mut queue: Q = OldQueue::default();
    queue.queue(QueueItem::Single(1));
    queue.queue(QueueItem::Single(2));
    assert!(!queue.is_playing());

    queue.set_shuffle_order(vec![1, 0]);
    assert!(queue.is_shuffled());
    queue.unshuffle();
    assert!(!queue.is_shuffled());
    assert_eq!(queue.get_shuffle_order(), None);
}

#[test]
fn shuffle_not_playing_gives_permutation() {
    let mut queue: Q = OldQueue::default();
    for id in 0..6u32 {
        queue.queue(QueueItem::Single(id));
    }
    assert!(!queue.is_playing());

    queue.shuffle();
    assert!(queue.is_shuffled());
    let mut order = queue.get_shuffle_order().unwrap();
    order.sort();
    assert_eq!(order, vec![0, 1, 2, 3, 4, 5]);
}

#[test]
fn shuffle_playing_keeps_played_prefix() {
    let mut queue = tracks(&[0, 1, 2, 3, 4, 5]);
    queue.next().unwrap();
    queue.next().unwrap();

    // The played prefix and the current position keep the identity mapping;
    // the rest is a permutation of the remaining raw indices.
    queue.shuffle();
    let order = queue.get_shuffle_order().unwrap();
    assert_eq!(&order[..3], &[0, 1, 2]);
    let mut rest = order[3..].to_vec();
    rest.sort();
    assert_eq!(rest, vec![3, 4, 5]);
    assert_eq!(current_id(&queue), 2);
}

#[test]
fn shuffle_at_last_position_is_noop() {
    let mut queue = tracks(&[1, 2, 3]);
    queue.next().unwrap();
    queue.next().unwrap();

    queue.shuffle();
    assert!(!queue.is_shuffled());
}

#[test]
fn toggle_shuffle_round_trip() {
    let mut queue: Q = OldQueue::default();
    for id in 0..5u32 {
        queue.queue(QueueItem::Single(id));
    }
    assert!(!queue.is_shuffled());
    queue.toggle_shuffle();
    assert!(queue.is_shuffled());
    queue.toggle_shuffle();
    assert!(!queue.is_shuffled());
}

#[test]
fn shuffled_vec_is_permutation() {
    let v = shuffled_vec(10);
    let mut sorted = v.clone();
    sorted.sort();
    assert_eq!(sorted, (0..10).collect::<Vec<usize>>());
}

#[test]
fn get_items_has_store_length_in_every_state() {
    // Stopped.
    let mut stopped: Q = OldQueue::default();
    for id in 0..5u32 {
        stopped.queue(QueueItem::Single(id));
    }
    assert_eq!(stopped.get_items().len(), 5);
    stopped.shuffle();
    assert_eq!(stopped.get_items().len(), 5);

    // At the live edge.
    let mut queue = tracks(&[0, 1, 2, 3, 4]);
    assert_eq!(queue.get_items().len(), 5);
    queue.next().unwrap();
    queue.next().unwrap();
    assert_eq!(queue.get_items().len(), 5);

    // Viewing the history: browsing does not change the report.
    queue.previous().unwrap();
    assert_eq!(queue.get_items().len(), 5);

    // Shuffled while playing.
    let mut shuffled = tracks(&[0, 1, 2, 3, 4]);
    shuffled.next().unwrap();
    shuffled.shuffle();
    assert_eq!(shuffled.get_items().len(), 5);

    // Empty store: no out-of-bounds access.
    let empty: Q = OldQueue::from(vec![]);
    assert_eq!(empty.get_items().len(), 0);
}

#[test]
fn get_items_after_unshuffle_play_unplayed() {
    let mut queue = tracks(&[0, 1, 2, 3, 4, 5, 6, 7]);
    queue.set_shuffle_order(vec![5, 2, 7, 1, 0, 3, 4, 6]);
    queue.unshuffle();

    // Position 0 unchanged, the rest ascending by raw id.
    let listed: Vec<u32> = queue
        .get_items()
        .iter()
        .map(|item| match item {
            QueueItem::Single(id) => *id,
            QueueItem::Collection(_) => panic!("no collections queued"),
        })
        .collect();
    assert_eq!(listed, vec![5, 0, 1, 2, 3, 4, 6, 7]);
}

#[test]
fn clear_resets_everything() {
    let mut queue = tracks(&[1, 2, 3]);
    queue.next().unwrap();
    queue.queue_next(QueueItem::Single(9));
    queue.next().unwrap();
    assert_eq!(current_id(&queue), 9);

    queue.clear();
    assert!(!queue.is_playing());
    assert_eq!(queue.len(), 0);
    assert_eq!(queue.get_items().len(), 0);
    assert!(matches!(queue.get_current_item(), Err(QueueError::NotPlaying)));
    assert!(matches!(queue.next(), Err(QueueError::NotPlaying)));
    assert!(matches!(queue.previous(), Err(QueueError::NotPlaying)));
}

#[test]
fn play_restarts_from_the_beginning() {
    let mut queue = tracks(&[1, 2, 3]);
    queue.next().unwrap();
    queue.next().unwrap();
    assert_eq!(current_id(&queue), 3);

    queue.play();
    assert_eq!(current_id(&queue), 1);
    assert!(matches!(queue.previous(), Err(QueueError::ReachedBeginning)));
}

#[test]
fn default_queue_is_stopped() {
    let mut queue: Q = OldQueue::default();
    assert!(!queue.is_playing());
    assert!(!queue.is_shuffled());
    assert_eq!(queue.len(), 0);
    assert_eq!(queue.get_items().len(), 0);
    assert!(matches!(queue.get_current_item(), Err(QueueError::NotPlaying)));
    assert!(matches!(queue.next(), Err(QueueError::NotPlaying)));
    assert!(matches!(queue.previous(), Err(QueueError::NotPlaying)));
}

#[test]
fn queue_while_shuffled_playing_folds_new_item_in() {
    let mut queue = tracks(&[0, 1, 2, 3]);
    queue.set_shuffle_order(vec![0, 1, 2, 3]);
    queue.next().unwrap();

    queue.queue(QueueItem::Single(4));
    assert_eq!(queue.len(), 5);
    let order = queue.get_shuffle_order().unwrap();
    assert_eq!(order.len(), 5);
    // The played prefix and the current position keep their mapping.
    assert_eq!(&order[..2], &[0, 1]);
    let mut rest = order[2..].to_vec();
    rest.sort();
    assert_eq!(rest, vec![2, 3, 4]);
}

#[test]
fn short_term_items_play_in_insertion_order() {
    let mut queue = tracks(&[1, 2, 3]);
    queue.queue_next(QueueItem::Single(8));
    queue.queue_next(QueueItem::Single(9));

    assert_eq!(current_id(&queue), 1);
    queue.next().unwrap();
    assert_eq!(current_id(&queue), 8);
    queue.next().unwrap();
    assert_eq!(current_id(&queue), 9);
    queue.next().unwrap();
    assert_eq!(current_id(&queue), 2);
    queue.next().unwrap();
    assert_eq!(current_id(&queue), 3);
    assert!(matches!(queue.next(), Err(QueueError::ReachedEnd)));

    // The short-term items are logged like any other played item.
    queue.previous().unwrap();
    assert_eq!(current_id(&queue), 2);
    queue.previous().unwrap();
    assert_eq!(current_id(&queue), 9);
    queue.previous().unwrap();
    assert_eq!(current_id(&queue), 8);
    queue.previous().unwrap();
    assert_eq!(current_id(&queue), 1);
    assert!(matches!(queue.previous(), Err(QueueError::ReachedBeginning)));
}

#[test]
fn simple_collection_children() {
    let mut collection = SimpleCollection::from(vec![10u32, 20, 30]);
    assert_eq!(*collection.get_at_index(0), 10);
    assert_eq!(*collection.get_at_index(1), 20);
    assert_eq!(*collection.get_at_index_raw(2), 30);
    collection.shuffle();
    assert_eq!(*collection.get_at_index(1), 20);
    collection.unshuffle();
    collection.toggle_shuffle();
    assert_eq!(*collection.get_at_index_raw(0), 10);
}
