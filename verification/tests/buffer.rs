use medea_rtc::buffer::{Buffer, ReadAction, ReadEvent, Written, MAX_SIZE, PACKET_LIMIT};
use medea_rtc::error::Error;

fn written(len: usize) -> Result<Written, Error> {
    Ok(Written { len, notify: false })
}

fn read(b: &mut Buffer, room: usize) -> (ReadAction, Vec<u8>) {
    let mut packet = vec![0xee; room];
    let action = b.read(ReadEvent::Started, &mut packet);
    (action, packet)
}

#[test]
fn packets_come_back_one_by_one() {
    let mut b = Buffer::new(0, 0, "test");
    assert_eq!(b.write(&[0, 1]), written(2));
    assert_eq!(b.write(&[2, 3, 4]), written(3));
    assert_eq!(b.write(&[]), written(0));
    assert_eq!(b.count(), 3);
    assert_eq!(b.size(), 2 + 3);
    assert_eq!(read(&mut b, 4), (ReadAction::Return(Ok(2)), vec![0, 1, 0xee, 0xee]));
    assert_eq!(read(&mut b, 3), (ReadAction::Return(Ok(3)), vec![2, 3, 4]));
    assert_eq!(read(&mut b, 1), (ReadAction::Return(Ok(0)), vec![0xee]));
    assert_eq!(b.count(), 0);
    assert_eq!(b.size(), 0);
    assert_eq!(read(&mut b, 1), (ReadAction::Wait, vec![0xee]));
}

#[test]
fn short_reader_loses_the_rest() {
    let mut b = Buffer::new(0, 0, "test");
    assert_eq!(b.write(&[0, 1, 2, 3]), written(4));
    assert_eq!(b.write(&[9]), written(1));
    assert_eq!(read(&mut b, 3), (ReadAction::Return(Err(Error::ErrBufferShort)), vec![0, 1, 2]));
    assert_eq!(read(&mut b, 3), (ReadAction::Return(Ok(1)), vec![9, 0xee, 0xee]));
}

#[test]
fn waiting_reader_is_notified_once() {
    let mut b = Buffer::new(0, 0, "test");
    assert_eq!(read(&mut b, 2).0, ReadAction::Wait);
    assert_eq!(b.write(&[5]), Ok(Written { len: 1, notify: true }));
    assert_eq!(b.write(&[6]), written(1));
    let mut packet = [0; 1];
    assert_eq!(b.read(ReadEvent::Notified, &mut packet), ReadAction::Return(Ok(1)));
    assert_eq!(packet, [5]);
}

#[test]
fn reader_times_out() {
    let mut b = Buffer::new(0, 0, "test");
    assert_eq!(read(&mut b, 2).0, ReadAction::Wait);
    let mut packet = [1, 2];
    let action = b.read(ReadEvent::TimedOut, &mut packet);
    assert_eq!(action, ReadAction::Return(Err(Error::ErrTimeout)));
    assert_eq!(packet, [1, 2]);
    // the timed out reader leaves its mark
    assert_eq!(b.write(&[5]), Ok(Written { len: 1, notify: true }));
}

#[test]
fn closed_buffer_drains() {
    let mut b = Buffer::new(0, 0, "test");
    assert_eq!(b.write(&[1]), written(1));
    assert!(!b.is_closed());
    assert!(b.close());
    assert!(!b.close());
    assert!(b.is_closed());
    assert_eq!(b.write(&[2]), Err(Error::ErrBufferClosed));
    assert_eq!(read(&mut b, 1), (ReadAction::Return(Ok(1)), vec![1]));
    assert_eq!(read(&mut b, 1).0, ReadAction::Return(Err(Error::ErrBufferClosed)));
}

#[test]
fn count_limit_is_kept() {
    let mut b = Buffer::new(2, 0, "test");
    assert_eq!(b.write(&[1]), written(1));
    assert_eq!(b.write(&[2]), written(1));
    assert_eq!(b.write(&[3]), Err(Error::ErrBufferFull));
    assert_eq!(b.count(), 2);
    b.set_limit_count(3);
    assert_eq!(b.write(&[3]), written(1));
    b.set_limit_count(0);
    assert_eq!(b.write(&[4]), written(1));
    assert_eq!(b.count(), 4);
}

#[test]
fn size_limit_is_kept() {
    let mut b = Buffer::new(0, 11, "test");
    assert_eq!(b.write(&[1, 2, 3, 4]), written(4));
    assert_eq!(b.size(), 4);
    assert_eq!(b.write(&[1, 2, 3, 4]), Err(Error::ErrBufferFull));
    assert_eq!(b.write(&[1, 2, 3]), written(3));
    assert_eq!(b.size(), 7);
    b.set_limit_size(14);
    assert_eq!(b.write(&[7]), written(1));
    assert_eq!(b.write(&[]), Err(Error::ErrBufferFull));
}

#[test]
fn too_big_packet_is_refused() {
    let mut b = Buffer::new(0, 0, "test");
    assert_eq!(PACKET_LIMIT, 65536);
    assert_eq!(b.write(&vec![0; PACKET_LIMIT + 1]), Err(Error::ErrPacketTooBig));
    assert_eq!(b.count(), 0);
    assert_eq!(b.write(&vec![7; PACKET_LIMIT]), written(PACKET_LIMIT));
    assert_eq!(b.size(), PACKET_LIMIT);
    let (action, packet) = read(&mut b, PACKET_LIMIT + 1);
    assert_eq!(action, ReadAction::Return(Ok(PACKET_LIMIT)));
    assert_eq!(packet[PACKET_LIMIT - 1], 7);
    assert_eq!(packet[PACKET_LIMIT], 0xee);
}

#[test]
fn longest_packets_and_empty_ones_are_told_apart() {
    let mut b = Buffer::new(0, 0, "test");
    let lens = [0, PACKET_LIMIT, 0, PACKET_LIMIT - 1, PACKET_LIMIT, PACKET_LIMIT, 1, 0, 256];
    for _ in 0..20 {
        for (i, len) in lens.into_iter().enumerate() {
            assert_eq!(b.write(&vec![i as u8; len]), written(len));
        }
        for (i, len) in lens.into_iter().enumerate() {
            let (action, packet) = read(&mut b, PACKET_LIMIT);
            assert_eq!(action, ReadAction::Return(Ok(len)));
            assert_eq!(&packet[..len], &vec![i as u8; len][..]);
        }
    }
    assert_eq!(b.write(&vec![1; PACKET_LIMIT]), written(PACKET_LIMIT));
    assert_eq!(read(&mut b, 3), (ReadAction::Return(Err(Error::ErrBufferShort)), vec![1, 1, 1]));
    assert_eq!(b.count(), 0);
}

#[test]
fn storage_stops_at_four_megabytes() {
    let mut b = Buffer::new(0, 0, "test");
    let packet = vec![3; 0x8000 - 2];
    let mut stored = 0;
    while b.write(&packet).is_ok() {
        stored += 1;
    }
    // one byte always stays free
    assert_eq!(stored, MAX_SIZE / 0x8000 - 1);
    assert_eq!(b.size(), stored * packet.len());
    assert_eq!(b.write(&vec![3; 0x8000 - 3]), written(0x8000 - 3));
    assert_eq!(b.size(), stored * packet.len() + 0x8000 - 3);
    assert_eq!(b.write(&[]), Err(Error::ErrBufferFull));
}

#[test]
fn packets_survive_wrapping_and_growing() {
    let mut b = Buffer::new(0, 0, "test");
    let mut next = 0u32;
    let mut expected = 0u32;
    let packet_of = |k: u32| -> Vec<u8> {
        (0..(k * 37) % 700).map(|i| (i * 7 + k) as u8).collect()
    };
    for round in 0..400u32 {
        for _ in 0..(round % 7) {
            let packet = packet_of(next);
            assert_eq!(b.write(&packet), written(packet.len()));
            next += 1;
        }
        for _ in 0..(round % 5) {
            if expected == next {
                break;
            }
            let want = packet_of(expected);
            let (action, got) = read(&mut b, 700);
            assert_eq!(action, ReadAction::Return(Ok(want.len())));
            assert_eq!(&got[..want.len()], &want[..]);
            expected += 1;
        }
    }
    assert_eq!(b.count(), (next - expected) as usize);
    while expected < next {
        let want = packet_of(expected);
        let (action, got) = read(&mut b, 700);
        assert_eq!(action, ReadAction::Return(Ok(want.len())));
        assert_eq!(&got[..want.len()], &want[..]);
        expected += 1;
    }
    assert_eq!(b.size(), 0);
}

#[test]
fn endless_limit_overflows() {
    let mut b = Buffer::new(0, usize::MAX, "test");
    assert!(b.write_overflows(1));
    assert!(!b.write_overflows(PACKET_LIMIT + 1));
    assert!(b.write_overflows(PACKET_LIMIT));
    b.set_limit_size(usize::MAX - 1);
    assert!(!b.write_overflows(1));
    assert_eq!(b.write(&[1]), written(1));
    b.set_limit_size(usize::MAX);
    // there is room without growing
    assert!(!b.write_overflows(1));
    assert!(b.write_overflows(5000));
    b.close();
    assert!(!b.write_overflows(5000));
}

#[test]
fn every_waiting_reader_is_notified() {
    let mut b = Buffer::new(0, 0, "test");
    assert_eq!(read(&mut b, 2).0, ReadAction::Wait);
    assert_eq!(read(&mut b, 2).0, ReadAction::Wait);
    for byte in [5, 6] {
        assert_eq!(b.write(&[byte]), Ok(Written { len: 1, notify: true }));
    }
    assert_eq!(b.write(&[7]), written(1));
    for byte in [5, 6] {
        let mut packet = [0; 1];
        assert_eq!(b.read(ReadEvent::Notified, &mut packet), ReadAction::Return(Ok(1)));
        assert_eq!(packet, [byte]);
    }
}

#[test]
fn reader_that_came_too_late_waits_again() {
    let mut b = Buffer::new(0, 0, "test");
    assert_eq!(read(&mut b, 1).0, ReadAction::Wait);
    assert_eq!(b.write(&[5]), Ok(Written { len: 1, notify: true }));
    // somebody else takes the packet
    assert_eq!(read(&mut b, 1).0, ReadAction::Return(Ok(1)));
    assert_eq!(b.read(ReadEvent::Notified, &mut [0]), ReadAction::Wait);
    assert_eq!(b.write(&[6]), Ok(Written { len: 1, notify: true }));
}

#[test]
fn zero_limit_means_four_megabytes() {
    let mut b = Buffer::new(0, 2 * MAX_SIZE, "test");
    let packet = vec![3; 0x8000 - 2];
    for _ in 0..MAX_SIZE / 0x8000 + 5 {
        assert_eq!(b.write(&packet), written(packet.len()));
    }
    b.set_limit_size(0);
    assert_eq!(b.write(&[]), Err(Error::ErrBufferFull));
    for _ in 0..6 {
        assert_eq!(read(&mut b, 0x8000).0, ReadAction::Return(Ok(packet.len())));
    }
    assert_eq!(b.write(&[]), written(0));
}
