use hydrogen::registry::Registry;
use hydrogen::stream::{ReadOutcome, Stream};

#[test]
fn an_empty_registry_holds_nothing() {
    let mut r = Registry::new();
    assert_eq!(r.len(), 0);
    assert!(!r.contains(0));
    assert!(r.take(0).is_none());
    assert!(!r.remove(0));
    assert_eq!(r.len(), 0);
}

#[test]
fn insert_and_take_by_descriptor() {
    let mut r = Registry::new();
    r.insert(Stream::new(4));
    r.insert(Stream::new(9));
    r.insert(Stream::new(6));
    assert_eq!(r.len(), 3);
    assert!(r.contains(4) && r.contains(9) && r.contains(6));
    assert!(!r.contains(5));

    let s = r.take(9).unwrap();
    assert_eq!(s.as_fd(), 9);
    assert_eq!(r.len(), 2);
    assert!(!r.contains(9));
    assert!(r.contains(4) && r.contains(6));
    assert!(r.take(9).is_none());
    assert_eq!(r.len(), 2);
}

#[test]
fn take_hands_out_the_stream_that_was_listed() {
    let mut r = Registry::new();
    let mut s = Stream::new(4);
    s.on_read(ReadOutcome::Data(vec![1, 2, 3]));
    r.insert(Stream::new(3));
    r.insert(s);
    r.insert(Stream::new(5));
    let t = r.take(4).unwrap();
    assert_eq!(t.as_fd(), 4);
    assert_eq!(t.buffer(), &vec![1, 2, 3]);
    assert_eq!(r.take(3).unwrap().buffered(), 0);
    assert_eq!(r.take(5).unwrap().buffered(), 0);
    assert_eq!(r.len(), 0);
}

#[test]
fn put_back_lists_the_stream_again() {
    let mut r = Registry::new();
    r.insert(Stream::new(1));
    r.insert(Stream::new(2));
    let mut s = r.take(1).unwrap();
    s.on_read(ReadOutcome::Data(vec![7]));
    r.put_back(s);
    assert_eq!(r.len(), 2);
    assert!(r.contains(1));
    assert_eq!(r.take(1).unwrap().buffer(), &vec![7]);
}

#[test]
fn remove_strikes_off_and_says_whether_it_found() {
    let mut r = Registry::new();
    r.insert(Stream::new(1));
    r.insert(Stream::new(2));
    assert!(r.remove(1));
    assert!(!r.remove(1));
    assert!(!r.contains(1));
    assert!(r.contains(2));
    assert_eq!(r.len(), 1);
    assert!(r.remove(2));
    assert_eq!(r.len(), 0);
}

#[test]
fn negative_descriptors_are_descriptors_too() {
    let mut r = Registry::new();
    r.insert(Stream::new(-1));
    r.insert(Stream::new(i32::MAX));
    r.insert(Stream::new(i32::MIN));
    assert!(r.contains(-1) && r.contains(i32::MAX) && r.contains(i32::MIN));
    assert_eq!(r.take(i32::MIN).unwrap().as_fd(), i32::MIN);
    assert_eq!(r.len(), 2);
}
