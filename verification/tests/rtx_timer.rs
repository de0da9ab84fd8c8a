use medea_rtc::rtx_timer::{
    calculate_next_timeout, RtoManager, RtxRun, RtxTimer, TimerAction, TimerEvent, VarianceStep,
    NO_MAX_RETRANS, PATH_MAX_RETRANS, RTO_BASE, RTO_BETA, RTO_INITIAL, RTO_MAX, RTO_MIN,
};

/// Applies a measurement, with the variation kept by the caller.
fn measure(m: &mut RtoManager, rttvar: &mut f64, rtt: u64) -> u64 {
    match m.plan_new_rtt(rtt) {
        VarianceStep::Keep => {}
        VarianceStep::First => *rttvar = rtt as f64 / 2.0,
        VarianceStep::Blend { deviation } => {
            *rttvar = ((RTO_BASE - RTO_BETA) as f64 * *rttvar + RTO_BETA as f64 * deviation as f64)
                / RTO_BASE as f64
        }
    }
    m.set_new_rtt(rtt, (4.0 * *rttvar) as u64)
}

#[test]
fn timeout_doubles_up_to_its_maximum() {
    assert_eq!(calculate_next_timeout(3000, 0), 3000);
    assert_eq!(calculate_next_timeout(3000, 1), 6000);
    assert_eq!(calculate_next_timeout(3000, 4), 48000);
    assert_eq!(calculate_next_timeout(3000, 5), 60000);
    assert_eq!(calculate_next_timeout(1, 15), 32768);
    assert_eq!(calculate_next_timeout(1, 16), RTO_MAX);
    assert_eq!(calculate_next_timeout(0, 30), 0);
    assert_eq!(calculate_next_timeout(0, 31), RTO_MAX);
    assert_eq!(calculate_next_timeout(1, usize::MAX), RTO_MAX);
}

#[test]
fn huge_timeout_is_capped() {
    assert_eq!(calculate_next_timeout(u64::MAX, 0), RTO_MAX);
    assert_eq!(calculate_next_timeout(1 << 63, 1), RTO_MAX);
    assert_eq!(calculate_next_timeout((1 << 63) + 5, 1), RTO_MAX);
    assert_eq!(calculate_next_timeout(59_999, 30), RTO_MAX);
}

#[test]
fn steady_measurements_settle() {
    let mut m = RtoManager::new();
    let mut rttvar = 0.0;
    assert_eq!(m.get_rto(), RTO_INITIAL);
    for rto in [1800, 1500, 1275, 1106, 1000, 1000] {
        assert_eq!(measure(&mut m, &mut rttvar, 600), 600);
        assert_eq!(m.get_rto(), rto);
    }
}

#[test]
fn measurements_are_smoothed() {
    let mut m = RtoManager::new();
    assert_eq!(m.plan_new_rtt(800), VarianceStep::First);
    assert_eq!(m.set_new_rtt(800, 1600), 800);
    assert_eq!(m.plan_new_rtt(1600), VarianceStep::Blend { deviation: 800 });
    assert_eq!(m.plan_new_rtt(0), VarianceStep::Blend { deviation: 800 });
    assert_eq!(m.set_new_rtt(1600, 2000), 900);
    assert_eq!(m.get_rto(), 2900);
}

#[test]
fn measured_timeout_is_clamped() {
    let mut m = RtoManager::new();
    let mut rttvar = 0.0;
    measure(&mut m, &mut rttvar, 60000);
    assert_eq!(m.get_rto(), RTO_MAX);
    assert!(m.reset());
    assert_eq!(m, RtoManager::new());
    measure(&mut m, &mut rttvar, 1);
    assert_eq!(m.get_rto(), RTO_MIN);
}

#[test]
fn fixed_timeout_stays() {
    let mut m = RtoManager::new();
    m.set_new_rtt(700, 0);
    m.set_rto(5000, true);
    assert_eq!(m.plan_new_rtt(900), VarianceStep::Keep);
    assert_eq!(m.set_new_rtt(900, 1), 700);
    assert!(!m.reset());
    assert_eq!(m, RtoManager { srtt: 700, rto: 5000, no_update: true });
}

#[test]
fn run_retransmits_and_fails() {
    let mut timer = RtxTimer::new(3, PATH_MAX_RETRANS);
    assert!(!timer.is_running());
    let mut run: RtxRun = timer.start(1000).unwrap();
    assert!(timer.is_running());
    assert!(timer.start(1000).is_none());
    let mut intervals = Vec::new();
    for n in 1..=PATH_MAX_RETRANS {
        intervals.push(run.interval());
        let action = run.step(TimerEvent::Expired { observed: true });
        assert_eq!(action, TimerAction::Timeout { n });
        assert!(!timer.conclude(action));
        assert!(timer.is_running());
    }
    assert_eq!(intervals, vec![1000, 2000, 4000, 8000, 16000]);
    let action = run.step(TimerEvent::Expired { observed: true });
    assert_eq!(action, TimerAction::Failure);
    assert!(timer.conclude(action));
    assert!(!timer.is_running());
    assert!(timer.start(1000).is_some());
}

#[test]
fn run_without_limit_never_fails() {
    let mut run = RtxTimer::new((), NO_MAX_RETRANS).start(10).unwrap();
    for n in 1..=100 {
        let action = run.step(TimerEvent::Expired { observed: true });
        assert_eq!(action, TimerAction::Timeout { n });
    }
    assert_eq!(run.interval(), RTO_MAX);
}

#[test]
fn run_ends_with_its_observer() {
    let mut timer = RtxTimer::new('a', 3);
    let mut run = timer.start(10).unwrap();
    let action = run.step(TimerEvent::Expired { observed: false });
    assert_eq!(action, TimerAction::Orphaned);
    assert!(timer.conclude(action));
    assert!(!timer.is_running());
}

#[test]
fn stopped_timer_can_start_again() {
    let mut timer = RtxTimer::new(0u8, 3);
    let mut run = timer.start(10).unwrap();
    timer.stop();
    assert!(!timer.is_running());
    let action = run.step(TimerEvent::Stopped);
    assert_eq!(action, TimerAction::End);
    let second = timer.start(20).unwrap();
    assert_eq!(second, RtxRun { rto: 20, max_retrans: 3, n_rtos: 0 });
    // the end of the first run leaves the second alone
    assert!(timer.conclude(action));
    assert!(timer.is_running());
}
