use order_book_api::ring_buffer::{OrderEvent, RingBuffer};

#[test]
fn test_ring_buffer_creation() {
    let buffer: RingBuffer<i32> = RingBuffer::new(1024, 1);
    assert_eq!(buffer.capacity(), 1024);
    assert_eq!(buffer.num_consumers(), 1);
}

#[test]
fn test_batch_read() {
    let mut buffer = RingBuffer::new(1024, 1);
    for i in 0..50 {
        buffer.publish(i);
    }
    let items = buffer.read_batch(0, 25);
    assert_eq!(items.len(), 25);
    assert_eq!(items[0], 0);
    assert_eq!(items[24], 24);
    let items = buffer.read_batch(0, 25);
    assert_eq!(items.len(), 25);
    assert_eq!(items[0], 25);
    assert_eq!(items[24], 49);
}

#[test]
fn test_order_event() {
    let mut buffer = RingBuffer::new(1024, 1);
    let event = OrderEvent::NewOrder { order_id: 123, price: 50000, quantity: 100 };
    buffer.publish(event);
    let received = buffer.read(0, 0);
    assert_eq!(received, Some(event));
}

#[test]
fn test_available_count() {
    let mut buffer = RingBuffer::new(1024, 1);
    assert_eq!(buffer.available_count(0), 0);
    buffer.publish(42);
    buffer.publish(43);
    assert_eq!(buffer.available_count(0), 2);
    buffer.read(0, 0);
    assert_eq!(buffer.available_count(0), 1);
}

#[test]
fn test_has_available() {
    let mut buffer = RingBuffer::new(1024, 1);
    assert!(!buffer.has_available(0));
    buffer.publish(42);
    assert!(buffer.has_available(0));
    buffer.read(0, 0);
    assert!(!buffer.has_available(0));
}

#[test]
fn each_consumer_reads_every_item_in_order() {
    let mut buffer = RingBuffer::new(8, 2);
    for i in 0..6u32 {
        assert_eq!(buffer.publish(i), i as u64);
    }
    let first = buffer.read_batch(0, 10);
    let second = buffer.read_batch(1, 3);
    assert_eq!(first, vec![0, 1, 2, 3, 4, 5]);
    assert_eq!(second, vec![0, 1, 2]);
    assert_eq!(buffer.read_position(0), 6);
    assert_eq!(buffer.read_position(1), 3);
    assert_eq!(buffer.write_position(), 6);
    assert_eq!(buffer.read(1, 6), None);
    assert_eq!(buffer.read(1, 5), Some(5));
    assert_eq!(buffer.read_position(1), 6);
}
