use httpcore::worker::{Message, Worker};

#[test]
fn worker_keeps_its_id() {
    let w: Worker<u32> = Worker::new(3);
    assert_eq!(w.id(), 3);
}

#[test]
fn queue_drains_in_reverse_insertion_order() {
    let mut w: Worker<u32> = Worker::new(0);
    w.enqueue(1);
    w.enqueue(2);
    w.enqueue(3);
    assert_eq!(w.pending(), 3);
    assert_eq!(w.take_next(), Some(3));
    assert_eq!(w.take_next(), Some(2));
    assert_eq!(w.take_next(), Some(1));
    assert_eq!(w.take_next(), None);
    assert_eq!(w.pending(), 0);
}

#[test]
fn each_operation_is_taken_exactly_once() {
    let mut w: Worker<u32> = Worker::new(1);
    for i in 0..10 {
        w.enqueue(i);
    }
    let mut drained = Vec::new();
    while let Some(op) = w.take_next() {
        drained.push(op);
    }
    drained.sort();
    assert_eq!(drained, (0..10).collect::<Vec<u32>>());
}

#[test]
fn messages_carry_work_or_shutdown() {
    let m: Message<u32> = Message::Handle(5);
    match m {
        Message::Handle(x) => assert_eq!(x, 5),
        Message::Shutdown => panic!("expected work"),
    }
    let s: Message<u32> = Message::Shutdown;
    assert!(matches!(s, Message::Shutdown));
}
