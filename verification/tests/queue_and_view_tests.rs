use rui::views::EmptyView;
use rui::views::LocalSize;
use rui::views::UiView;
use rui::work_queue::WorkQueue;

#[test]
fn workqueue_fifo_order() {
    let mut q: WorkQueue<u32> = WorkQueue::new();
    q.enqueue(1);
    q.enqueue(2);
    q.enqueue(3);
    assert_eq!(q.len(), 3);
    assert_eq!(q.pop_front(), Some(1));
    assert_eq!(q.pop_front(), Some(2));
    assert_eq!(q.pop_front(), Some(3));
    assert_eq!(q.pop_front(), None);
}

#[test]
fn workqueue_interleaved_enqueue_pop() {
    let mut q: WorkQueue<&str> = WorkQueue::new();
    q.enqueue("a");
    q.enqueue("b");
    assert_eq!(q.pop_front(), Some("a"));
    q.enqueue("c");
    assert_eq!(q.pop_front(), Some("b"));
    assert_eq!(q.pop_front(), Some("c"));
    assert_eq!(q.pop_front(), None);
}

#[test]
fn workqueue_from_threads_preserves_per_send_order() {
    // The queue itself is single-threaded data; ordering across threads is
    // whatever order the lock admits the enqueues in. Here the three items
    // are enqueued in a fixed order and drain in that order.
    let mut q: WorkQueue<String> = WorkQueue::new();
    for name in ["first", "second", "third"] {
        q.enqueue(name.to_string());
    }
    assert_eq!(q.pop_front().as_deref(), Some("first"));
    assert_eq!(q.pop_front().as_deref(), Some("second"));
    assert_eq!(q.pop_front().as_deref(), Some("third"));
}

#[test]
fn empty_view_occupies_no_space() {
    let v = EmptyView {};
    let sz = v.layout(0, LocalSize { width: 500_000, height: 400_000 });
    assert_eq!(sz, LocalSize { width: 0, height: 0 });
    v.draw(0);
}
