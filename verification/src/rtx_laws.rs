//! What holds of retransmission timeouts and of the runs of a timer.

use vstd::prelude::*;

use crate::rtx_timer::{
    RtoManager, RtxRun, RtxTimer, TimerAction, TimerEvent, VarianceStep, RTO_INITIAL, RTO_MAX,
    RTO_MIN,
};

verus! {

/// Each expiration doubles the timeout, up to [`RTO_MAX`]. Left out is a zero
/// timeout that has expired 31 times, which is [`RTO_MAX`] from there on.
pub proof fn law_backoff_is_exponential(rto: u64, n: nat)
    requires
        n >= 31 ==> rto > 0,
    ensures
        crate::rtx_timer::next_timeout(rto, n as int) == (if rto
            * vstd::arithmetic::power2::pow2(n) < RTO_MAX {
            rto * vstd::arithmetic::power2::pow2(n)
        } else {
            RTO_MAX as int
        }),
{
    let p = vstd::arithmetic::power2::pow2(n) as int;
    if n >= 31 {
        vstd::arithmetic::power2::lemma2_to64();
        if n > 31 {
            vstd::arithmetic::power2::lemma_pow2_strictly_increases(31, n);
        }
        assert(rto * p >= p) by (nonlinear_arith)
            requires
                rto >= 1,
                p >= 0,
        ;
    } else {
        assert(rto * p >= 0) by (nonlinear_arith)
            requires
                p >= 0,
        ;
    }
}

/// No timeout is longer than a minute, and from 31 expirations on every timeout
/// is that long.
pub proof fn law_timeout_is_capped(rto: u64, n: nat)
    ensures
        crate::rtx_timer::next_timeout(rto, n as int) <= 60000,
        n >= 31 ==> crate::rtx_timer::next_timeout(rto, n as int) == 60000,
{
}

/// A timeout that has not expired is used as it is, up to a minute. Each of the
/// first 30 expirations then doubles the timeout, unless that is more than a
/// minute.
pub proof fn law_expiration_doubles_the_timeout(rto: u64, n: nat)
    requires
        n < 30,
    ensures
        crate::rtx_timer::next_timeout(rto, 0) == (if rto <= 60000 {
            rto
        } else {
            60000
        }),
        ({
            let now = crate::rtx_timer::next_timeout(rto, n as int);
            let next = crate::rtx_timer::next_timeout(rto, n as int + 1);
            next == (if 2 * now <= 60000 {
                2 * now
            } else {
                60000
            })
        }),
{
    vstd::arithmetic::power2::lemma2_to64();
    vstd::arithmetic::power2::lemma_pow2_unfold((n + 1) as nat);
    let p = vstd::arithmetic::power2::pow2(n) as int;
    let q = vstd::arithmetic::power2::pow2(0) as int;
    assert(rto * q == rto) by (nonlinear_arith)
        requires
            q == 1,
    ;
    assert(rto * (2 * p) == 2 * (rto * p)) by (nonlinear_arith);
    assert(rto * p >= 0) by (nonlinear_arith)
        requires
            p >= 0,
    ;
}

/// The timeout starts within [`RTO_MIN`] and [`RTO_MAX`], and no measurement
/// and no reset takes it out of there.
pub proof fn law_measured_timeout_stays_in_range(m: RtoManager, rtt: u64, spread: u64)
    requires
        RTO_MIN <= m.rto <= RTO_MAX,
    ensures
        RTO_MIN <= RTO_INITIAL <= RTO_MAX,
        RTO_MIN <= m.after_rtt(rtt, spread).rto <= RTO_MAX,
        RTO_MIN <= m.after_reset().rto <= RTO_MAX,
{
}

/// A measurement moves the smoothed round-trip time towards it, never past it.
pub proof fn law_smoothing_stays_between(m: RtoManager, rtt: u64)
    requires
        !m.no_update,
        m.srtt > 0,
    ensures
        m.srtt <= rtt ==> m.srtt <= m.smoothed(rtt) <= rtt,
        rtt <= m.srtt ==> rtt <= m.smoothed(rtt) <= m.srtt,
        rtt + 8 <= m.srtt ==> m.smoothed(rtt) < m.srtt,
        m.srtt + 8 <= rtt ==> m.srtt < m.smoothed(rtt),
{
}

/// The first measurement is taken as it is. Every later one, above or below the
/// smoothed round-trip time, counts for an eighth of the new one, which is
/// rounded down.
pub proof fn law_measurement_counts_for_an_eighth(m: RtoManager, rtt: u64)
    requires
        !m.no_update,
    ensures
        m.srtt == 0 ==> m.smoothed(rtt) == rtt,
        m.srtt > 0 ==> 8 * m.smoothed(rtt) <= 7 * m.srtt + rtt < 8 * m.smoothed(rtt) + 8,
{
}

/// Longer measurements never lead to a shorter smoothed round-trip time, or to a
/// shorter timeout.
pub proof fn law_longer_measurements_lengthen_the_timeout(
    m: RtoManager,
    short: u64,
    long: u64,
    spread: u64,
)
    requires
        short <= long,
    ensures
        m.smoothed(short) <= m.smoothed(long),
        m.after_rtt(short, spread).rto <= m.after_rtt(long, spread).rto,
{
}

/// A measurement sets the timeout to the smoothed round-trip time and the spread
/// together, moved into the range from one second to one minute.
pub proof fn law_timeout_covers_the_spread(m: RtoManager, rtt: u64, spread: u64)
    requires
        !m.no_update,
        m.smoothed(rtt) <= u64::MAX,
    ensures
        ({
            let after = m.after_rtt(rtt, spread);
            let sum = m.smoothed(rtt) + spread;
            &&& after.srtt == m.smoothed(rtt)
            &&& !after.no_update
            &&& 1000 <= sum <= 60000 ==> after.rto == sum
            &&& sum < 1000 ==> after.rto == 1000
            &&& sum > 60000 ==> after.rto == 60000
        }),
{
}

/// A later measurement changes the variation by its distance from the smoothed
/// round-trip time, on whichever side it lies. The first one is halved for it.
pub proof fn law_variation_follows_the_distance(m: RtoManager, rtt: u64)
    requires
        m.srtt <= i64::MAX,
        rtt <= i64::MAX,
    ensures
        m.no_update <==> m.variance_step(rtt) == VarianceStep::Keep,
        m.srtt == 0 && !m.no_update <==> m.variance_step(rtt) == VarianceStep::First,
        m.srtt > 0 && !m.no_update ==> (m.variance_step(rtt) matches VarianceStep::Blend {
            deviation,
        } && (m.srtt == rtt + deviation || rtt == m.srtt + deviation)),
{
}

/// A reset makes values that are not fixed what they were at first. Setting the
/// timeout keeps the smoothed round-trip time, and can fix the values and let
/// them go again.
pub proof fn law_values_can_be_set_and_reset(m: RtoManager, rto: u64, no_update: bool)
    ensures
        RtoManager::initial().srtt == 0,
        RtoManager::initial().rto == 3000,
        !RtoManager::initial().no_update,
        !m.no_update ==> m.after_reset() == RtoManager::initial(),
        m.after_set(rto, no_update).rto == rto,
        m.after_set(rto, no_update).no_update == no_update,
        m.after_set(rto, no_update).srtt == m.srtt,
{
}

/// Fixed values change by no measurement and no reset.
pub proof fn law_fixed_values_stay(m: RtoManager, rtt: u64, spread: u64)
    requires
        m.no_update,
    ensures
        m.after_rtt(rtt, spread) == m,
        m.after_reset() == m,
        m.smoothed(rtt) == m.srtt,
{
}

/// The run after `n` expirations.
pub open spec fn after_expirations(run: RtxRun, n: nat) -> RtxRun
    decreases n,
{
    if n == 0 {
        run
    } else {
        after_expirations(run, (n - 1) as nat).after(TimerEvent::Expired { observed: true })
    }
}

proof fn lemma_after_expirations(run: RtxRun, n: nat)
    requires
        run.n_rtos == 0,
        n <= usize::MAX,
    ensures
        after_expirations(run, n) == (RtxRun { n_rtos: n as usize, ..run }),
    decreases n,
{
    if n > 0 {
        lemma_after_expirations(run, (n - 1) as nat);
    }
}

/// A run with a limit reports that many timeouts, numbered from 1, and then a
/// failure. A run without a limit reports timeouts and never a failure.
pub proof fn law_run_retransmits_then_fails(run: RtxRun, n: nat)
    requires
        run.n_rtos == 0,
        n < usize::MAX,
    ensures
        after_expirations(run, n).action(TimerEvent::Expired { observed: true }) == (
        if run.max_retrans == 0 || n < run.max_retrans {
            TimerAction::Timeout { n: (n + 1) as usize }
        } else {
            TimerAction::Failure
        }),
{
    lemma_after_expirations(run, n);
}

/// A run ends when its timer is stopped, or when nobody is left to be told, and
/// at no other time than these and its failure. Its timeout and its limit stay.
pub proof fn law_run_ends_when_it_is_stopped(run: RtxRun, event: TimerEvent)
    requires
        run.n_rtos < usize::MAX,
    ensures
        run.action(event) == TimerAction::End <==> event == TimerEvent::Stopped,
        run.action(event) == TimerAction::Orphaned <==> event == (TimerEvent::Expired {
            observed: false,
        }),
        run.after(event).rto == run.rto,
        run.after(event).max_retrans == run.max_retrans,
        run.after(event).n_rtos == run.n_rtos + (if event == TimerEvent::Stopped {
            0int
        } else {
            1
        }),
{
}

/// A timer that is not running starts a run, which has its limit and nothing
/// expired; a running timer starts none. A timer runs from its start until it is
/// stopped, or until its run fails or has nobody to tell. It never changes its
/// ID or its limit.
pub proof fn law_timer_runs_until_its_end<Id>(
    t: RtxTimer<Id>,
    id: Id,
    max_retrans: usize,
    rto: u64,
    action: TimerAction,
)
    ensures
        !RtxTimer::idle(id, max_retrans).running,
        RtxTimer::idle(id, max_retrans).id == id,
        RtxTimer::idle(id, max_retrans).max_retrans == max_retrans,
        t.start_result(rto) is Some <==> !t.running,
        t.start_result(rto) matches Some(run) ==> run.rto == rto && run.n_rtos == 0
            && run.max_retrans == t.max_retrans,
        t.after_start().running,
        t.after_start().start_result(rto) is None,
        t.after_stop().start_result(rto) is Some,
        t.after_start().after_action(action).start_result(rto) is Some <==> action
            == TimerAction::Failure || action == TimerAction::Orphaned,
        t.after_stop().after_action(action) == t.after_stop(),
        t.after_start().id == t.id && t.after_start().max_retrans == t.max_retrans,
        t.after_stop().id == t.id && t.after_stop().max_retrans == t.max_retrans,
        t.after_action(action).id == t.id && t.after_action(action).max_retrans == t.max_retrans,
{
}

/// A run waits for its timeout at first, and twice as long after each of the
/// first 30 expirations, up to a minute. After 31 expirations it always waits a
/// minute.
pub proof fn law_run_backs_off(run: RtxRun, n: nat)
    requires
        run.n_rtos == 0,
        n < usize::MAX,
    ensures
        run.wait() == (if run.rto <= 60000 {
            run.rto
        } else {
            60000
        }),
        n < 30 ==> after_expirations(run, n + 1).wait() == (if 2 * after_expirations(run, n).wait()
            <= 60000 {
            2 * after_expirations(run, n).wait()
        } else {
            60000
        }),
        n >= 31 ==> after_expirations(run, n).wait() == 60000,
{
    lemma_after_expirations(run, n);
    lemma_after_expirations(run, n + 1);
    if n < 30 {
        law_expiration_doubles_the_timeout(run.rto, n);
    }
    law_expiration_doubles_the_timeout(run.rto, 0);
}

/// A run goes on after a timeout, and after nothing else.
pub proof fn law_run_goes_on_after_timeouts(run: RtxRun, event: TimerEvent)
    ensures
        !run.action(event).ends_the_run() <==> event == (TimerEvent::Expired { observed: true })
            && (run.max_retrans == 0 || run.n_rtos < run.max_retrans),
{
}

} // verus!
