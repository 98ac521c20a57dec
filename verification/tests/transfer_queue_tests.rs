use exchange_core::transfer_queue::TransferQueue;
use uuid::Uuid;

#[test]
fn test_transfer_queue() {
    let mut queue = TransferQueue::new(100);

    let id1 = Uuid::new_v4().as_u128();
    let id2 = Uuid::new_v4().as_u128();

    assert!(queue.try_push(id1));
    assert!(queue.try_push(id2));
    assert_eq!(queue.len(), 2);

    assert_eq!(queue.try_pop(), Some(id1));
    assert_eq!(queue.try_pop(), Some(id2));
    assert_eq!(queue.try_pop(), None);
    assert_eq!(queue.len(), 0);
}

#[test]
fn test_queue_backpressure() {
    let mut queue = TransferQueue::new(2);

    assert!(queue.try_push(Uuid::new_v4().as_u128()));
    assert!(queue.try_push(Uuid::new_v4().as_u128()));
    assert!(!queue.try_push(Uuid::new_v4().as_u128())); // Full
}

#[test]
fn a_full_queue_takes_again_after_a_pop() {
    let mut queue = TransferQueue::new(1);
    assert!(queue.is_empty());
    assert!(queue.try_push(7));
    assert!(!queue.try_push(8));
    assert!(!queue.is_empty());
    assert_eq!(queue.try_pop(), Some(7));
    assert!(queue.try_push(8));
    assert_eq!(queue.try_pop(), Some(8));
    assert!(queue.is_empty());
}
