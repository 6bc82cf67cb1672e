use hydrogen::frame::encode_frame;
use hydrogen::stream::{ReadOutcome, RecvError, RecvStep, SendStep, Sending, Stream, WriteOutcome};

fn wire(payload: &[u8]) -> Vec<u8> {
    encode_frame(&payload.to_vec()).unwrap()
}

#[test]
fn a_new_stream_is_empty() {
    let s = Stream::new(11);
    assert_eq!(s.as_fd(), 11);
    assert_eq!(s.buffered(), 0);
    assert!(s.buffer().is_empty());
}

#[test]
fn bytes_ask_for_another_read_and_are_kept() {
    let mut s = Stream::new(3);
    assert_eq!(s.on_read(ReadOutcome::Data(vec![1, 2])), RecvStep::ReadAgain);
    assert_eq!(s.on_read(ReadOutcome::Data(vec![3])), RecvStep::ReadAgain);
    assert_eq!(s.buffer(), &vec![1, 2, 3]);
    assert_eq!(s.buffered(), 3);
    assert_eq!(s.on_read(ReadOutcome::WouldBlock), RecvStep::Done(Ok(())));
    assert_eq!(s.buffer(), &vec![1, 2, 3]);
}

#[test]
fn a_receive_that_reads_nothing_fails_with_would_block() {
    let mut s = Stream::new(3);
    assert_eq!(
        s.on_read(ReadOutcome::WouldBlock),
        RecvStep::Done(Err(RecvError::WouldBlock))
    );
}

#[test]
fn each_receive_starts_afresh() {
    let mut s = Stream::new(3);
    assert_eq!(s.on_read(ReadOutcome::Data(vec![1])), RecvStep::ReadAgain);
    assert_eq!(s.on_read(ReadOutcome::WouldBlock), RecvStep::Done(Ok(())));
    assert_eq!(
        s.on_read(ReadOutcome::WouldBlock),
        RecvStep::Done(Err(RecvError::WouldBlock))
    );
    assert_eq!(s.buffer(), &vec![1]);
}

#[test]
fn a_read_of_no_bytes_means_closed() {
    let mut s = Stream::new(3);
    assert_eq!(
        s.on_read(ReadOutcome::Data(vec![])),
        RecvStep::Done(Err(RecvError::Closed))
    );
    let mut t = Stream::new(4);
    assert_eq!(t.on_read(ReadOutcome::Data(vec![9])), RecvStep::ReadAgain);
    assert_eq!(
        t.on_read(ReadOutcome::Data(vec![])),
        RecvStep::Done(Err(RecvError::Closed))
    );
    assert_eq!(
        t.on_read(ReadOutcome::WouldBlock),
        RecvStep::Done(Err(RecvError::WouldBlock))
    );
}

#[test]
fn closed_and_failed_end_the_receive_with_their_error() {
    let mut s = Stream::new(3);
    assert_eq!(s.on_read(ReadOutcome::Data(vec![1])), RecvStep::ReadAgain);
    assert_eq!(
        s.on_read(ReadOutcome::Closed),
        RecvStep::Done(Err(RecvError::Closed))
    );
    let mut t = Stream::new(3);
    assert_eq!(t.on_read(ReadOutcome::Data(vec![1])), RecvStep::ReadAgain);
    assert_eq!(
        t.on_read(ReadOutcome::Failed),
        RecvStep::Done(Err(RecvError::Fatal))
    );
    let mut u = Stream::new(3);
    assert_eq!(
        u.on_read(ReadOutcome::Failed),
        RecvStep::Done(Err(RecvError::Fatal))
    );
}

#[test]
fn drain_hands_out_complete_messages_and_keeps_the_partial_one() {
    let mut s = Stream::new(5);
    let mut bytes = wire(&[1, 2, 3]);
    bytes.extend_from_slice(&wire(&[4]));
    bytes.extend_from_slice(&[0x01, 0x00, 0x02, 7]);
    assert_eq!(s.on_read(ReadOutcome::Data(bytes)), RecvStep::ReadAgain);
    assert_eq!(s.on_read(ReadOutcome::WouldBlock), RecvStep::Done(Ok(())));
    assert_eq!(s.drain_rx_queue(), vec![vec![1, 2, 3], vec![4]]);
    assert_eq!(s.buffer(), &vec![0x01, 0x00, 0x02, 7]);
    assert_eq!(s.as_fd(), 5);
}

#[test]
fn drain_is_idempotent_without_a_receive_in_between() {
    let mut s = Stream::new(5);
    let mut bytes = wire(&[1, 2, 3]);
    bytes.extend_from_slice(&[0x01, 0x00]);
    s.on_read(ReadOutcome::Data(bytes));
    s.on_read(ReadOutcome::WouldBlock);
    assert_eq!(s.drain_rx_queue(), vec![vec![1, 2, 3]]);
    assert_eq!(s.drain_rx_queue(), Vec::<Vec<u8>>::new());
    assert_eq!(s.drain_rx_queue(), Vec::<Vec<u8>>::new());
    assert_eq!(s.buffer(), &vec![0x01, 0x00]);
}

#[test]
fn a_frame_fed_byte_by_byte_is_handed_out_once_after_the_last_byte() {
    let mut s = Stream::new(5);
    let bytes = wire(&[10, 20, 30]);
    let mut handed = Vec::new();
    for (i, b) in bytes.iter().enumerate() {
        assert_eq!(s.on_read(ReadOutcome::Data(vec![*b])), RecvStep::ReadAgain);
        assert_eq!(s.on_read(ReadOutcome::WouldBlock), RecvStep::Done(Ok(())));
        let got = s.drain_rx_queue();
        if i + 1 < bytes.len() {
            assert!(got.is_empty(), "after byte {}", i);
        }
        handed.extend(got);
    }
    assert_eq!(handed, vec![vec![10, 20, 30]]);
    assert_eq!(s.buffered(), 0);
}

#[test]
fn a_burst_is_read_dry_in_one_receive() {
    let mut s = Stream::new(5);
    let mut expect = Vec::new();
    for i in 0..40u8 {
        let payload = vec![i, i.wrapping_mul(3)];
        let framed = wire(&payload);
        let (a, b) = framed.split_at(3);
        assert_eq!(s.on_read(ReadOutcome::Data(a.to_vec())), RecvStep::ReadAgain);
        assert_eq!(s.on_read(ReadOutcome::Data(b.to_vec())), RecvStep::ReadAgain);
        expect.push(payload);
    }
    assert_eq!(s.on_read(ReadOutcome::WouldBlock), RecvStep::Done(Ok(())));
    assert_eq!(s.drain_rx_queue(), expect);
    assert_eq!(s.buffered(), 0);
}

#[test]
fn a_send_offers_the_frame_until_it_is_written() {
    let mut s = Sending::new(&vec![1, 2, 3]).unwrap();
    assert_eq!(s.wire(), &vec![0x01, 0x00, 0x03, 1, 2, 3, 0x17]);
    assert_eq!(s.sent(), 0);
    assert_eq!(s.on_write(WriteOutcome::Wrote(2)), SendStep::Write { from: 2 });
    assert_eq!(s.sent(), 2);
    assert_eq!(s.on_write(WriteOutcome::Wrote(4)), SendStep::Write { from: 6 });
    assert_eq!(s.on_write(WriteOutcome::Wrote(1)), SendStep::Sent);
    assert_eq!(s.sent(), 7);
    assert_eq!(s.wire(), &vec![0x01, 0x00, 0x03, 1, 2, 3, 0x17]);
}

#[test]
fn a_send_in_one_write() {
    let mut s = Sending::new(&vec![]).unwrap();
    assert_eq!(s.wire().len(), 4);
    assert_eq!(s.on_write(WriteOutcome::Wrote(4)), SendStep::Sent);
    let mut t = Sending::new(&vec![9]).unwrap();
    assert_eq!(t.on_write(WriteOutcome::Wrote(usize::MAX)), SendStep::Sent);
    assert_eq!(t.sent(), 5);
}

#[test]
fn a_transport_that_would_block_is_offered_the_same_bytes() {
    let mut s = Sending::new(&vec![1, 2, 3]).unwrap();
    assert_eq!(s.on_write(WriteOutcome::WouldBlock), SendStep::Write { from: 0 });
    assert_eq!(s.on_write(WriteOutcome::Wrote(3)), SendStep::Write { from: 3 });
    assert_eq!(s.on_write(WriteOutcome::WouldBlock), SendStep::Write { from: 3 });
    assert_eq!(s.on_write(WriteOutcome::WouldBlock), SendStep::Write { from: 3 });
    assert_eq!(s.sent(), 3);
    assert_eq!(s.on_write(WriteOutcome::Wrote(4)), SendStep::Sent);
    assert_eq!(s.on_write(WriteOutcome::WouldBlock), SendStep::Sent);
}

#[test]
fn a_failed_or_empty_write_breaks_the_send() {
    let mut s = Sending::new(&vec![1, 2, 3]).unwrap();
    assert_eq!(s.on_write(WriteOutcome::Wrote(1)), SendStep::Write { from: 1 });
    assert_eq!(s.on_write(WriteOutcome::Failed), SendStep::Broken);
    assert_eq!(s.sent(), 1);
    let mut t = Sending::new(&vec![1, 2, 3]).unwrap();
    assert_eq!(t.on_write(WriteOutcome::Wrote(0)), SendStep::Broken);
    assert_eq!(t.sent(), 0);
}

#[test]
fn what_is_too_long_for_a_frame_is_not_sent() {
    assert!(Sending::new(&vec![0u8; 65531]).is_some());
    assert!(Sending::new(&vec![0u8; 65532]).is_none());
}
