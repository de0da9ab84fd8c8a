use medea_rtc::nack::{extend_u16, NackRegister, PacketStatus, Recorder, MAX_NACKS};

/// A register that has received every packet of `range`.
fn receive(register: &mut NackRegister, range: impl Iterator<Item = u16>) {
    for seq in range {
        register.update_seq(seq);
    }
}

/// A stream that lacks the packets 107 and 108.
fn lossy_stream() -> NackRegister {
    let mut register = NackRegister::new(100);
    receive(&mut register, 100..=106);
    receive(&mut register, 109..=120);
    register
}

#[test]
fn extension_takes_the_nearest_number() {
    assert_eq!(extend_u16(0, 0), 0);
    assert_eq!(extend_u16(10, 11), 11);
    assert_eq!(extend_u16(65535, 0), 65536);
    assert_eq!(extend_u16(65536, 65535), 65535);
    assert_eq!(extend_u16(0x8000, 0), 0);
    assert_eq!(extend_u16(0x8001, 0), 65536);
    assert_eq!(extend_u16(0, 0x8000), 0x8000);
    assert_eq!(extend_u16(3 * 65536 + 5, 65000), 2 * 65536 + 65000);
    assert_eq!(extend_u16(3 * 65536 + 65000, 5), 4 * 65536 + 5);
}

#[test]
fn extension_wraps_at_the_ends() {
    assert_eq!(extend_u16(0, 0x8001), u64::MAX - 0xffff + 0x8001);
    assert_eq!(extend_u16(u64::MAX, 1), 1);
}

#[test]
fn status_asks_a_few_times() {
    assert!(PacketStatus { received: false, nack_count: 0 }.should_nack());
    assert!(PacketStatus { received: false, nack_count: MAX_NACKS - 1 }.should_nack());
    assert!(!PacketStatus { received: false, nack_count: MAX_NACKS }.should_nack());
    assert!(!PacketStatus { received: true, nack_count: 0 }.should_nack());
}

#[test]
fn no_feedback_on_probation() {
    let mut register = NackRegister::new(100);
    assert_eq!(register.nack_reports(), Ok(None));
    register.update_seq(100);
    register.update_seq(120);
    register.update_seq(140);
    assert_eq!(register.nack_reports(), Ok(None));
}

#[test]
fn two_packets_in_a_row_end_probation() {
    let mut register = NackRegister::new(100);
    register.update_seq(100);
    register.update_seq(120);
    register.update_seq(121);
    register.update_seq(127);
    assert_eq!(register.nack_reports(), Ok(Some(vec![vec![(122, 0)]])));
}

#[test]
fn missing_packets_are_asked_for_five_times() {
    let mut register = lossy_stream();
    for _ in 0..MAX_NACKS {
        assert_eq!(register.nack_reports(), Ok(Some(vec![vec![(107, 1)]])));
    }
    assert_eq!(register.nack_reports(), Ok(None));
}

#[test]
fn late_packet_is_not_asked_for_again() {
    let mut register = lossy_stream();
    register.update_seq(107);
    assert_eq!(register.nack_reports(), Ok(Some(vec![vec![(108, 0)]])));
    register.update_seq(108);
    assert_eq!(register.nack_reports(), Ok(None));
}

#[test]
fn clone_asks_for_the_same() {
    let register = lossy_stream();
    let mut copy = register.clone();
    copy.update_seq(107);
    let mut register = register;
    assert_eq!(register.nack_reports(), Ok(Some(vec![vec![(107, 1)]])));
    assert_eq!(copy.nack_reports(), Ok(Some(vec![vec![(108, 0)]])));
}

#[test]
fn last_packets_have_a_grace_period() {
    let mut register = NackRegister::new(10);
    receive(&mut register, 10..=13);
    register.update_seq(18);
    // 14 to 17 are missing, but too recent
    assert_eq!(register.nack_reports(), Ok(None));
    register.update_seq(19);
    assert_eq!(register.nack_reports(), Ok(Some(vec![vec![(14, 0)]])));
}

#[test]
fn pair_holds_seventeen_packets() {
    let mut register = NackRegister::new(10);
    register.update_seq(10);
    register.update_seq(11);
    register.update_seq(60);
    assert_eq!(
        register.nack_reports(),
        Ok(Some(vec![vec![(12, 0xffff), (29, 0xffff), (46, 0x1ff)]]))
    );
}

#[test]
fn report_holds_thirty_one_pairs() {
    let mut register = NackRegister::new(10);
    receive(&mut register, 10..=12);
    register.update_seq(2000);
    let reports = register.nack_reports().unwrap().unwrap();
    let lens: Vec<usize> = reports.iter().map(|pairs| pairs.len()).collect();
    assert_eq!(lens, vec![31, 31, 31, 24]);
    assert_eq!(reports[0][0], (13, 0xffff));
    assert_eq!(reports[1][0], (13 + 31 * 17, 0xffff));
    assert_eq!(reports[3][23], (1985, 0x3ff));
}

#[test]
fn old_gaps_are_given_up() {
    let mut register = NackRegister::new(10);
    register.update_seq(10);
    register.update_seq(11);
    register.update_seq(200);
    // only the last hundred before the grace period are looked at
    let reports = register.nack_reports().unwrap().unwrap();
    assert_eq!(reports[0][0], (96, 0xffff));
    assert_eq!(reports[0].len(), 6);
}

#[test]
fn numbers_wrap_around() {
    let mut register = NackRegister::new(65534);
    receive(&mut register, 65534..=65535);
    receive(&mut register, 0..=3);
    receive(&mut register, 5..=12);
    assert_eq!(register.nack_reports(), Ok(Some(vec![vec![(4, 0)]])));
}

#[test]
fn far_jump_needs_two_packets() {
    let mut register = lossy_stream();
    register.update_seq(20000);
    register.update_seq(121);
    assert_eq!(register.nack_reports(), Ok(Some(vec![vec![(107, 1)]])));
    register.update_seq(20000);
    register.update_seq(20001);
    assert_eq!(register.nack_reports(), Ok(None));
}

#[test]
fn restarted_stream_forgets_the_past() {
    let mut register = lossy_stream();
    receive(&mut register, 20000..=20002);
    register.update_seq(20010);
    assert_eq!(register.nack_reports(), Ok(Some(vec![vec![(20003, 0b11)]])));
}

#[test]
fn recorder_builds_feedback() {
    let mut recorder = Recorder::new(1);
    assert_eq!(recorder.build_feedback(), None);
    for seq in 100..=106 {
        recorder.record(7, seq);
    }
    assert_eq!(recorder.build_feedback(), None);
    for seq in 109..=120 {
        recorder.record(8, seq);
    }
    assert_eq!(recorder.build_feedback(), Some(vec![vec![(107, 1)]]));
}

#[test]
fn requests_are_counted_across_packets() {
    let mut register = lossy_stream();
    let mut asked = 0;
    for seq in 121..=140 {
        register.update_seq(seq);
        if let Some(reports) = register.nack_reports().unwrap() {
            assert_eq!(reports, vec![vec![(107, 1)]]);
            asked += 1;
        }
    }
    assert_eq!(asked, MAX_NACKS);
}

#[test]
fn received_packet_stays_received() {
    let mut register = lossy_stream();
    register.update_seq(108);
    for seq in 121..=160 {
        register.update_seq(seq);
        for pair in register.nack_reports().unwrap().unwrap_or_default().concat() {
            assert_eq!(pair, (107, 0));
        }
    }
}

#[test]
fn recorder_follows_a_jump() {
    let mut recorder = Recorder::new(1);
    for seq in [1000, 1001, 9000, 9001, 9009] {
        recorder.record(7, seq);
    }
    assert_eq!(recorder.build_feedback(), Some(vec![vec![(9002, 3)]]));
}

#[test]
fn stream_restarts_further_back() {
    let mut register = NackRegister::new(9000);
    for seq in [100, 101, 108] {
        register.update_seq(seq);
    }
    assert_eq!(register.nack_reports(), Ok(Some(vec![vec![(102, 1)]])));
}

#[test]
fn packet_keeps_its_mark_when_older_ones_are_given_up() {
    let mut register = NackRegister::new(100);
    for seq in [100, 101, 204, 3203] {
        register.update_seq(seq);
    }
    receive(&mut register, 3204..=3210);
    let mut named = Vec::new();
    for (first, mask) in register.nack_reports().unwrap().unwrap().concat() {
        named.push(first);
        named.extend((0..16).filter(|o| mask >> o & 1 == 1).map(|o| first + 1 + o));
    }
    assert_eq!(named, (3106..=3202).collect::<Vec<u16>>());
}

#[test]
fn recorder_is_its_register() {
    let numbers = [65530, 65531, 65532, 2, 1, 9, 14, 30000, 30001, 30009];
    let mut recorder = Recorder::new(1);
    let mut register = NackRegister::new(numbers[0]);
    for (i, seq) in numbers.into_iter().enumerate() {
        assert!(!recorder.exhausted(seq));
        recorder.record(i as u32, seq);
        register.update_seq(seq);
        assert_eq!(recorder.build_feedback(), register.nack_reports().unwrap());
    }
}

#[test]
fn numbers_before_the_first_one_exhaust() {
    let mut register = NackRegister::new(0);
    assert!(!register.exhausted(65535));
    receive(&mut register, 0..=1);
    assert!(register.exhausted(65535));
    assert!(!register.exhausted(65534));
    assert!(!register.exhausted(2));
    let mut recorder = Recorder::new(1);
    assert!(!recorder.exhausted(65535));
    recorder.record(7, 0);
    recorder.record(7, 1);
    assert!(recorder.exhausted(65535));
}

#[test]
fn packet_does_not_stand_for_an_older_one() {
    let mut register = NackRegister::new(100);
    for seq in [100, 101, 205, 3102] {
        register.update_seq(seq);
    }
    // 3102 is no sign of 102, so the search goes on near the newest packet
    let reports = register.nack_reports().unwrap().unwrap();
    assert_eq!(reports[0][0], (2998, 0xffff));
}

#[test]
fn packet_keeps_its_mark_when_others_follow() {
    let mut register = NackRegister::new(0);
    for seq in [0, 1, 2, 5, 3004, 3005] {
        register.update_seq(seq);
    }
    receive(&mut register, 3006..=3010);
    let mut named = Vec::new();
    for (first, mask) in register.nack_reports().unwrap().unwrap().concat() {
        named.push(first);
        named.extend((0..16).filter(|o| mask >> o & 1 == 1).map(|o| first + 1 + o));
    }
    assert_eq!(named, (2906..=3003).collect::<Vec<u16>>());
}

#[test]
fn received_neighbours_do_not_stand_for_later_packets() {
    let mut register = NackRegister::new(0);
    receive(&mut register, 0..=5);
    register.update_seq(3004);
    // 1 to 4 were received, 3001 to 3003 were not
    receive(&mut register, 3005..=3010);
    let reports = register.nack_reports().unwrap().unwrap();
    assert_eq!(reports[0].last(), Some(&(2991, 0xfff)));
}
