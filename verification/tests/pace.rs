use medea_rtc::pace::{ReceiveAction, ReceiveMeter, SendAction, SendPacer, PERIOD_NANOS};

#[test]
fn sender_keeps_its_limit() {
    let mut pacer = SendPacer::new(3);
    for _ in 0..4 {
        assert_eq!(pacer.step(0), SendAction::Send);
    }
    assert_eq!(pacer.step(10), SendAction::Pause);
    assert_eq!(pacer.step(PERIOD_NANOS), SendAction::Pause);
    assert_eq!(pacer.step(PERIOD_NANOS + 1), SendAction::Report(4));
    assert_eq!(pacer.step(0), SendAction::Send);
    assert_eq!(pacer.step(PERIOD_NANOS + 1), SendAction::Report(1));
}

#[test]
fn receiver_waits_for_its_track() {
    let mut meter = ReceiveMeter::new();
    assert_eq!(meter.step(0, 2 * PERIOD_NANOS), ReceiveAction::LookAgain);
    assert_eq!(meter.step(1, 2 * PERIOD_NANOS), ReceiveAction::Report(0));
    assert_eq!(meter.step(0, 1), ReceiveAction::Read);
    meter.packet_read();
    meter.packet_read();
    assert_eq!(meter.step(0, PERIOD_NANOS), ReceiveAction::Read);
    assert_eq!(meter.step(0, PERIOD_NANOS + 1), ReceiveAction::Report(2));
    assert_eq!(meter.pkt_cnt, 0);
}
