use rust_exercises::circular_buffer::CircularBuffer;
use rust_exercises::circular_buffer::Error;

#[test]
fn new_buffer_is_empty_and_not_full() {
    let mut buffer: CircularBuffer<i32> = CircularBuffer::new(3);
    assert!(buffer.is_empty());
    assert!(!buffer.is_full());
    assert_eq!(buffer.read(), Err(Error::EmptyBuffer));
}

#[test]
fn writes_up_to_capacity_then_full() {
    let mut buffer: CircularBuffer<i32> = CircularBuffer::new(3);
    assert_eq!(buffer.write(1), Ok(()));
    assert_eq!(buffer.write(2), Ok(()));
    assert_eq!(buffer.write(3), Ok(()));
    assert!(buffer.is_full());
    assert_eq!(buffer.write(4), Err(Error::FullBuffer));
    assert_eq!(buffer.read(), Ok(1));
}

#[test]
fn reads_return_writes_in_fifo_order() {
    let mut buffer: CircularBuffer<i32> = CircularBuffer::new(5);
    assert_eq!(buffer.write(10), Ok(()));
    assert_eq!(buffer.write(20), Ok(()));
    assert_eq!(buffer.write(30), Ok(()));
    assert_eq!(buffer.read(), Ok(10));
    assert_eq!(buffer.read(), Ok(20));
    assert_eq!(buffer.read(), Ok(30));
    assert_eq!(buffer.read(), Err(Error::EmptyBuffer));
}

#[test]
fn interleaved_operations_reuse_freed_slots() {
    let mut buffer: CircularBuffer<i32> = CircularBuffer::new(3);
    assert_eq!(buffer.write(1), Ok(()));
    assert_eq!(buffer.write(2), Ok(()));
    assert_eq!(buffer.read(), Ok(1));
    assert_eq!(buffer.write(3), Ok(()));
    assert_eq!(buffer.write(4), Ok(()));
    assert_eq!(buffer.read(), Ok(2));
    assert_eq!(buffer.read(), Ok(3));
    assert_eq!(buffer.read(), Ok(4));
    assert_eq!(buffer.read(), Err(Error::EmptyBuffer));
}

#[test]
fn clear_resets_to_the_empty_state() {
    let mut buffer: CircularBuffer<i32> = CircularBuffer::new(2);
    assert_eq!(buffer.write(7), Ok(()));
    assert_eq!(buffer.write(8), Ok(()));
    assert_eq!(buffer.read(), Ok(7));
    buffer.clear();
    assert!(buffer.is_empty());
    assert_eq!(buffer.read(), Err(Error::EmptyBuffer));
    assert_eq!(buffer.write(9), Ok(()));
    assert_eq!(buffer.write(10), Ok(()));
    assert_eq!(buffer.write(11), Err(Error::FullBuffer));
    assert_eq!(buffer.read(), Ok(9));
    assert_eq!(buffer.read(), Ok(10));
}

#[test]
fn full_and_empty_are_exclusive_in_the_middle() {
    let mut buffer: CircularBuffer<i32> = CircularBuffer::new(2);
    assert!(buffer.is_empty() && !buffer.is_full());
    assert_eq!(buffer.write(1), Ok(()));
    assert!(!buffer.is_empty() && !buffer.is_full());
    assert_eq!(buffer.write(2), Ok(()));
    assert!(!buffer.is_empty() && buffer.is_full());
}

#[test]
fn capacity_one_round_trip() {
    let mut buffer: CircularBuffer<i32> = CircularBuffer::new(1);
    assert_eq!(buffer.write(42), Ok(()));
    assert_eq!(buffer.write(43), Err(Error::FullBuffer));
    assert_eq!(buffer.read(), Ok(42));
    assert!(buffer.is_empty());
    assert_eq!(buffer.write(44), Ok(()));
    assert_eq!(buffer.read(), Ok(44));
}

#[test]
fn capacity_zero_is_both_empty_and_full() {
    let mut buffer: CircularBuffer<i32> = CircularBuffer::new(0);
    assert!(buffer.is_empty());
    assert!(buffer.is_full());
    assert_eq!(buffer.write(1), Err(Error::FullBuffer));
    assert_eq!(buffer.read(), Err(Error::EmptyBuffer));
}

#[test]
fn buffer_of_strings() {
    let mut buffer: CircularBuffer<String> = CircularBuffer::new(2);
    assert_eq!(buffer.write(String::from("first")), Ok(()));
    assert_eq!(buffer.write(String::from("second")), Ok(()));
    assert_eq!(buffer.read(), Ok(String::from("first")));
    assert_eq!(buffer.write(String::from("third")), Ok(()));
    assert_eq!(buffer.read(), Ok(String::from("second")));
    assert_eq!(buffer.read(), Ok(String::from("third")));
}

#[test]
fn wrapping_many_times() {
    let mut buffer: CircularBuffer<u64> = CircularBuffer::new(4);
    for round in 0..10u64 {
        for k in 0..4u64 {
            assert_eq!(buffer.write(round * 4 + k), Ok(()));
        }
        assert!(buffer.is_full());
        for k in 0..4u64 {
            assert_eq!(buffer.read(), Ok(round * 4 + k));
        }
        assert!(buffer.is_empty());
    }
}
