use hydrogen::frame::{encode_frame, next_frame, split_frames, MAX_PAYLOAD};

fn wire(payload: &[u8]) -> Vec<u8> {
    encode_frame(&payload.to_vec()).unwrap()
}

#[test]
fn encoding_is_guard_length_payload_guard() {
    assert_eq!(wire(&[1, 2, 3]), vec![0x01, 0x00, 0x03, 1, 2, 3, 0x17]);
    assert_eq!(wire(&[]), vec![0x01, 0x00, 0x00, 0x17]);
}

#[test]
fn encoding_writes_the_length_high_byte_first() {
    let payload = vec![7u8; 0x0203];
    let framed = wire(&payload);
    assert_eq!(framed.len(), 0x0203 + 4);
    assert_eq!(&framed[0..3], &[0x01, 0x02, 0x03]);
    assert_eq!(framed[framed.len() - 1], 0x17);
    assert_eq!(&framed[3..framed.len() - 1], &payload[..]);
}

#[test]
fn encoding_refuses_what_no_frame_can_carry() {
    assert!(encode_frame(&vec![0u8; MAX_PAYLOAD]).is_some());
    assert!(encode_frame(&vec![0u8; MAX_PAYLOAD + 1]).is_none());
    assert!(encode_frame(&vec![0u8; 70000]).is_none());
}

#[test]
fn next_frame_cuts_one_frame_and_keeps_the_rest() {
    let mut buf = wire(&[9, 8, 7]);
    buf.extend_from_slice(&[0x01, 0x00]);
    assert_eq!(next_frame(&mut buf), Some(vec![9, 8, 7]));
    assert_eq!(buf, vec![0x01, 0x00]);
    assert_eq!(next_frame(&mut buf), None);
    assert_eq!(buf, vec![0x01, 0x00]);
}

#[test]
fn next_frame_waits_for_the_whole_frame() {
    let whole = wire(&[5, 6, 7, 8]);
    for cut in 0..whole.len() {
        let mut buf = whole[..cut].to_vec();
        assert_eq!(next_frame(&mut buf), None, "cut at {}", cut);
        assert_eq!(buf, whole[..cut].to_vec());
    }
    let mut buf = whole.clone();
    assert_eq!(next_frame(&mut buf), Some(vec![5, 6, 7, 8]));
    assert!(buf.is_empty());
}

#[test]
fn a_frame_without_payload_is_a_frame() {
    let mut buf = wire(&[]);
    assert_eq!(next_frame(&mut buf), Some(vec![]));
    assert!(buf.is_empty());

    let mut two = wire(&[]);
    two.extend_from_slice(&wire(&[]));
    assert_eq!(split_frames(&mut two), vec![Vec::<u8>::new(), Vec::<u8>::new()]);
    assert!(two.is_empty());
}

#[test]
fn a_wrong_closing_guard_holds_the_buffer_back() {
    let mut buf = vec![0x01, 0x00, 0x02, 10, 20, 0xFF];
    assert_eq!(next_frame(&mut buf), None);
    assert_eq!(buf, vec![0x01, 0x00, 0x02, 10, 20, 0xFF]);
    let mut short = vec![0x01, 0x00, 0x00, 0x80];
    assert_eq!(next_frame(&mut short), None);
    assert_eq!(short, vec![0x01, 0x00, 0x00, 0x80]);
}

#[test]
fn the_closing_guard_may_lack_bits_but_not_add_any() {
    for guard in 0u16..=255 {
        let guard = guard as u8;
        let mut buf = vec![0x01, 0x00, 0x01, 42, guard, 0x01];
        let got = next_frame(&mut buf);
        if guard & 0xE8 == 0 {
            assert_eq!(got, Some(vec![42]), "guard {:#x}", guard);
            assert_eq!(buf, vec![0x01]);
        } else {
            assert_eq!(got, None, "guard {:#x}", guard);
            assert_eq!(buf.len(), 6);
        }
    }
}

#[test]
fn the_opening_guard_is_not_examined() {
    let mut buf = vec![0xAA, 0x00, 0x01, 42, 0x17];
    assert_eq!(next_frame(&mut buf), Some(vec![42]));
    assert!(buf.is_empty());
}

#[test]
fn a_header_that_declares_too_much_is_no_frame() {
    for declared in [65532usize, 65533, 65534, 65535] {
        let mut buf = vec![0x01, (declared / 256) as u8, (declared % 256) as u8];
        buf.extend(std::iter::repeat(0u8).take(declared));
        buf.push(0x17);
        let before = buf.clone();
        assert_eq!(next_frame(&mut buf), None);
        assert_eq!(buf, before);
    }
}

#[test]
fn the_longest_payload_goes_round() {
    let payload: Vec<u8> = (0..MAX_PAYLOAD).map(|i| (i % 251) as u8).collect();
    let mut buf = encode_frame(&payload).unwrap();
    assert_eq!(buf.len(), 65535);
    buf.push(0x01);
    assert_eq!(split_frames(&mut buf), vec![payload]);
    assert_eq!(buf, vec![0x01]);
}

#[test]
fn round_trip_of_concatenated_frames() {
    let payloads: Vec<Vec<u8>> = vec![
        vec![1, 2, 3],
        vec![],
        vec![0x17, 0x01, 0x00],
        vec![0x04, 0x04, 0, 0, 0x80, 0x3F],
        (0..=255u8).collect(),
        vec![],
    ];
    let mut buf = Vec::new();
    for p in &payloads {
        buf.extend_from_slice(&wire(p));
    }
    assert_eq!(split_frames(&mut buf), payloads);
    assert!(buf.is_empty());
}

#[test]
fn splitting_twice_yields_nothing_new() {
    let mut buf = wire(&[1]);
    buf.extend_from_slice(&wire(&[2, 2]));
    buf.extend_from_slice(&[0x01, 0x00, 0x05, 9]);
    assert_eq!(split_frames(&mut buf), vec![vec![1], vec![2, 2]]);
    let left = buf.clone();
    assert_eq!(left, vec![0x01, 0x00, 0x05, 9]);
    assert_eq!(split_frames(&mut buf), Vec::<Vec<u8>>::new());
    assert_eq!(buf, left);
}

#[test]
fn chunking_does_not_matter() {
    let payloads: Vec<Vec<u8>> = vec![vec![1, 2, 3], vec![4], vec![], vec![5, 6]];
    let mut all = Vec::new();
    for p in &payloads {
        all.extend_from_slice(&wire(p));
    }
    for cut in 0..=all.len() {
        let mut buf = all[..cut].to_vec();
        let mut got = split_frames(&mut buf);
        buf.extend_from_slice(&all[cut..]);
        got.extend(split_frames(&mut buf));
        assert_eq!(got, payloads, "cut at {}", cut);
        assert!(buf.is_empty());
    }
}
