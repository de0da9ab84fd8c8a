//! Retransmission timeouts and the retransmission timer of an association, as
//! in RFC 4960, sections 6.3.1 and 6.3.3.

use vstd::prelude::*;

verus! {

/// Retransmission timeout before anything was measured, in msec.
pub const RTO_INITIAL: u64 = 3000;

/// Smallest measured retransmission timeout, in msec.
pub const RTO_MIN: u64 = 1000;

/// Greatest retransmission timeout, in msec.
pub const RTO_MAX: u64 = 60000;

/// Weight of a new measurement in the smoothed round-trip time.
pub const RTO_ALPHA: u64 = 1;

/// Weight of a new deviation in the round-trip time variation.
pub const RTO_BETA: u64 = 2;

/// What the weights are fractions of.
pub const RTO_BASE: u64 = 8;

/// Retransmissions of an initiation.
pub const MAX_INIT_RETRANS: usize = 8;

/// Retransmissions on a path.
pub const PATH_MAX_RETRANS: usize = 5;

/// Retransmissions without end.
pub const NO_MAX_RETRANS: usize = 0;

// ---------------------------------------------------------------------------
// Back-off
// ---------------------------------------------------------------------------
/// The timeout after `n_rtos` expirations in a row: `rto` doubled as often, and
/// at most [`RTO_MAX`]. From 31 expirations on it is [`RTO_MAX`].
pub open spec fn next_timeout(rto: u64, n_rtos: int) -> u64 {
    let doubled = rto * vstd::arithmetic::power2::pow2(n_rtos as nat);
    if n_rtos < 31 && doubled < RTO_MAX {
        doubled as u64
    } else {
        RTO_MAX
    }
}

/// The timeout after `n_rtos` expirations in a row.
pub fn calculate_next_timeout(rto: u64, n_rtos: usize) -> (timeout: u64)
    ensures
        timeout == next_timeout(rto, n_rtos as int),
{
    // RFC 4096 sec 6.3.3.  Handle T3-rtx Expiration
    //   E2)  For the destination address for which the timer expires, set RTO
    //        <- RTO * 2 ("back off the timer").  The maximum value discussed
    //        in rule C7 above (RTO.max) may be used to provide an upper bound
    //        to this doubling operation.
    if n_rtos >= 31 || rto >= RTO_MAX {
        proof {
            let p = vstd::arithmetic::power2::pow2(n_rtos as nat) as int;
            vstd::arithmetic::power2::lemma_pow2_pos(n_rtos as nat);
            assert(rto * p >= rto) by (nonlinear_arith)
                requires
                    p >= 1,
            ;
        }
        return RTO_MAX;
    }
    proof {
        let p = vstd::arithmetic::power2::pow2(n_rtos as nat) as int;
        vstd::arithmetic::power2::lemma2_to64();
        vstd::arithmetic::power2::lemma_pow2_strictly_increases(n_rtos as nat, 31);
        assert(0 <= rto * p <= RTO_MAX * 0x8000_0000) by (nonlinear_arith)
            requires
                rto < RTO_MAX,
                0 <= p <= 0x8000_0000,
        ;
        vstd::bits::lemma_u64_shl_is_mul(rto, n_rtos as u64);
    }
    let doubled: u64 = rto << (n_rtos as u64);
    if doubled < RTO_MAX {
        doubled
    } else {
        RTO_MAX
    }
}

// ---------------------------------------------------------------------------
// Measured timeouts
// ---------------------------------------------------------------------------
/// How a new measurement changes the round-trip time variation.
#[derive(Clone, Copy, Debug, PartialEq, Eq, Structural)]
pub enum VarianceStep {
    /// Not at all.
    Keep,
    /// First measurement: half of it.
    First,
    /// Subsequent measurement: the old variation and this deviation, weighted
    /// with [`RTO_BASE`]` - `[`RTO_BETA`] and [`RTO_BETA`] parts of
    /// [`RTO_BASE`].
    Blend {
        /// Distance of the measurement from the smoothed round-trip time.
        deviation: u64,
    },
}

/// Manages retransmission timeout values, all but the round-trip time
/// variation, which is a fraction.
#[derive(Clone, Copy, Debug, PartialEq, Eq, Structural)]
pub struct RtoManager {
    /// Smoothed round-trip time, 0 before the first measurement.
    pub srtt: u64,
    /// Current retransmission timeout.
    pub rto: u64,
    /// The values are fixed.
    pub no_update: bool,
}

/// `n` as a signed number with the same 64 bits.
pub open spec fn signed(n: u64) -> int {
    if n <= i64::MAX {
        n as int
    } else {
        n - 0x1_0000_0000_0000_0000
    }
}

/// `value` moved into the range `low..=high`.
pub open spec fn clamped(value: int, low: int, high: int) -> int {
    if value < low {
        low
    } else if value > high {
        high
    } else {
        value
    }
}

impl RtoManager {
    /// How a measurement of `rtt` changes the variation.
    pub open spec fn variance_step(self, rtt: u64) -> VarianceStep {
        if self.no_update {
            VarianceStep::Keep
        } else if self.srtt == 0 {
            VarianceStep::First
        } else {
            let distance = signed(self.srtt) - signed(rtt);
            VarianceStep::Blend {
                deviation: (if distance < 0 {
                    -distance
                } else {
                    distance
                }) as u64,
            }
        }
    }

    /// The smoothed round-trip time after a measurement of `rtt`.
    pub open spec fn smoothed(self, rtt: u64) -> int {
        if self.no_update {
            self.srtt as int
        } else if self.srtt == 0 {
            rtt as int
        } else {
            ((RTO_BASE - RTO_ALPHA) * self.srtt + RTO_ALPHA * rtt) / RTO_BASE as int
        }
    }

    /// The values after a measurement of `rtt` that left four times the
    /// variation at `spread`.
    pub open spec fn after_rtt(self, rtt: u64, spread: u64) -> RtoManager {
        if self.no_update {
            self
        } else {
            RtoManager {
                srtt: self.smoothed(rtt) as u64,
                rto: clamped(
                    self.smoothed(rtt) + spread,
                    RTO_MIN as int,
                    RTO_MAX as int,
                ) as u64,
                no_update: false,
            }
        }
    }

    /// The values after a reset.
    pub open spec fn after_reset(self) -> RtoManager {
        if self.no_update {
            self
        } else {
            RtoManager { srtt: 0, rto: RTO_INITIAL, no_update: false }
        }
    }

    /// The initial values.
    pub open spec fn initial() -> RtoManager {
        RtoManager { srtt: 0, rto: RTO_INITIAL, no_update: false }
    }

    /// The values after the timeout was set.
    pub open spec fn after_set(self, rto: u64, no_update: bool) -> RtoManager {
        RtoManager { srtt: self.srtt, rto, no_update }
    }

    /// The initial values.
    pub fn new() -> (m: Self)
        ensures
            m == RtoManager::initial(),
    {
        RtoManager { srtt: 0, rto: RTO_INITIAL, no_update: false }
    }

    /// What a newly measured round-trip time does to the variation. The result
    /// is meant to be applied before [`RtoManager::set_new_rtt`] is called.
    pub fn plan_new_rtt(&self, rtt: u64) -> (step: VarianceStep)
        requires
            !self.no_update && self.srtt != 0 ==> -i64::MAX <= signed(self.srtt) - signed(rtt)
                <= i64::MAX,
        ensures
            step == self.variance_step(rtt),
    {
        if self.no_update {
            return VarianceStep::Keep;
        }
        if self.srtt == 0 {
            return VarianceStep::First;
        }
        let srtt: u64 = self.srtt;
        assert(srtt as i64 == if srtt <= 0x7fff_ffff_ffff_ffff {
            srtt as int
        } else {
            srtt - 0x1_0000_0000_0000_0000
        }) by (bit_vector);
        assert(rtt as i64 == if rtt <= 0x7fff_ffff_ffff_ffff {
            rtt as int
        } else {
            rtt - 0x1_0000_0000_0000_0000
        }) by (bit_vector);
        let distance: i64 = srtt as i64 - rtt as i64;
        let deviation: u64 = if distance < 0 {
            (-distance) as u64
        } else {
            distance as u64
        };
        VarianceStep::Blend { deviation }
    }

    /// Takes a newly measured round-trip time, and four times the variation
    /// that came of it, then adjusts the timeout. Returns the smoothed
    /// round-trip time.
    pub fn set_new_rtt(&mut self, rtt: u64, spread: u64) -> (srtt: u64)
        requires
            !old(self).no_update && old(self).srtt != 0 ==> (RTO_BASE - RTO_ALPHA) * old(self).srtt
                + RTO_ALPHA * rtt <= u64::MAX,
            !old(self).no_update ==> old(self).smoothed(rtt) + spread <= u64::MAX,
        ensures
            *final(self) == old(self).after_rtt(rtt, spread),
            srtt == old(self).smoothed(rtt),
    {
        if self.no_update {
            return self.srtt;
        }
        if self.srtt == 0 {
            // First measurement
            self.srtt = rtt;
        } else {
            // Subsequent rtt measurement
            self.srtt = ((RTO_BASE - RTO_ALPHA) * self.srtt + RTO_ALPHA * rtt) / RTO_BASE;
        }
        let rto: u64 = self.srtt + spread;
        self.rto = if rto < RTO_MIN {
            RTO_MIN
        } else if rto > RTO_MAX {
            RTO_MAX
        } else {
            rto
        };
        self.srtt
    }

    /// The current timeout in msec.
    pub fn get_rto(&self) -> (rto: u64)
        ensures
            rto == self.rto,
    {
        self.rto
    }

    /// Resets the values to the initial ones. Tells whether the variation is to
    /// be reset as well.
    pub fn reset(&mut self) -> (done: bool)
        ensures
            *final(self) == old(self).after_reset(),
            done == !old(self).no_update,
    {
        if self.no_update {
            return false;
        }
        self.srtt = 0;
        self.rto = RTO_INITIAL;
        true
    }

    /// Sets the timeout, and whether it is fixed.
    pub fn set_rto(&mut self, rto: u64, no_update: bool)
        ensures
            *final(self) == old(self).after_set(rto, no_update),
    {
        self.rto = rto;
        self.no_update = no_update;
    }
}

// ---------------------------------------------------------------------------
// The timer
// ---------------------------------------------------------------------------
/// What happened to a running timer.
#[derive(Clone, Copy, Debug, PartialEq, Eq, Structural)]
pub enum TimerEvent {
    /// The interval is over.
    Expired {
        /// Somebody is still there to be told.
        observed: bool,
    },
    /// The timer was stopped.
    Stopped,
}

/// What a running timer asks for.
#[derive(Clone, Copy, Debug, PartialEq, Eq, Structural)]
pub enum TimerAction {
    /// Tell the observer of the timeout number `n`, then wait again.
    Timeout {
        /// Timeouts so far.
        n: usize,
    },
    /// Tell the observer that it failed, mark the timer as not running, end.
    Failure,
    /// Mark the timer as not running, end.
    Orphaned,
    /// End.
    End,
}

impl TimerAction {
    /// The run is over.
    pub open spec fn ends_the_run(self) -> bool {
        !(self is Timeout)
    }
}

/// One run of a timer, from its start on.
#[derive(Clone, Copy, Debug, PartialEq, Eq, Structural)]
pub struct RtxRun {
    /// First interval, in msec.
    pub rto: u64,
    /// Timeouts before the run fails, or 0 for no end.
    pub max_retrans: usize,
    /// Expirations so far.
    pub n_rtos: usize,
}

impl RtxRun {
    /// What the run asks for on `event`.
    pub open spec fn action(self, event: TimerEvent) -> TimerAction {
        match event {
            TimerEvent::Stopped => TimerAction::End,
            TimerEvent::Expired { observed } => if !observed {
                TimerAction::Orphaned
            } else if self.max_retrans == 0 || self.n_rtos + 1 <= self.max_retrans {
                TimerAction::Timeout { n: (self.n_rtos + 1) as usize }
            } else {
                TimerAction::Failure
            },
        }
    }

    /// The run after `event`.
    pub open spec fn after(self, event: TimerEvent) -> RtxRun {
        match event {
            TimerEvent::Stopped => self,
            TimerEvent::Expired { .. } => RtxRun { n_rtos: (self.n_rtos + 1) as usize, ..self },
        }
    }

    /// How long to wait for the next expiration, in msec.
    pub open spec fn wait(self) -> u64 {
        next_timeout(self.rto, self.n_rtos as int)
    }

    /// How long to wait for the next expiration, in msec.
    pub fn interval(&self) -> (msec: u64)
        ensures
            msec == self.wait(),
    {
        calculate_next_timeout(self.rto, self.n_rtos)
    }

    /// Takes note of an event and tells what to do.
    pub fn step(&mut self, event: TimerEvent) -> (action: TimerAction)
        requires
            event is Expired ==> old(self).n_rtos < usize::MAX,
        ensures
            action == old(self).action(event),
            *final(self) == old(self).after(event),
    {
        match event {
            TimerEvent::Stopped => TimerAction::End,
            TimerEvent::Expired { observed } => {
                self.n_rtos += 1;
                if !observed {
                    TimerAction::Orphaned
                } else if self.max_retrans == 0 || self.n_rtos <= self.max_retrans {
                    TimerAction::Timeout { n: self.n_rtos }
                } else {
                    TimerAction::Failure
                }
            },
        }
    }
}

/// A retransmission timer.
#[derive(Debug)]
pub struct RtxTimer<Id> {
    /// What the observer knows the timer by.
    pub id: Id,
    /// Timeouts before a run fails. If it is 0, a run goes on until the timer
    /// is stopped.
    pub max_retrans: usize,
    /// Whether a run was started, and neither failed nor was stopped.
    pub running: bool,
}

impl<Id> RtxTimer<Id> {
    /// A new timer.
    pub open spec fn idle(id: Id, max_retrans: usize) -> Self {
        RtxTimer { id, max_retrans, running: false }
    }

    /// The run that a start begins, if it begins one.
    pub open spec fn start_result(self, rto: u64) -> Option<RtxRun> {
        if self.running {
            None
        } else {
            Some(RtxRun { rto, max_retrans: self.max_retrans, n_rtos: 0 })
        }
    }

    /// The timer after a start.
    pub open spec fn after_start(self) -> Self {
        RtxTimer { running: true, ..self }
    }

    /// The timer after its run asked for `action`.
    pub open spec fn after_action(self, action: TimerAction) -> Self {
        RtxTimer {
            running: self.running && !(action is Failure || action is Orphaned),
            ..self
        }
    }

    /// The timer after it was stopped.
    pub open spec fn after_stop(self) -> Self {
        RtxTimer { running: false, ..self }
    }

    /// Creates a new retransmission timer, not running.
    pub fn new(id: Id, max_retrans: usize) -> (t: Self)
        ensures
            t == RtxTimer::idle(id, max_retrans),
    {
        RtxTimer { id, max_retrans, running: false }
    }

    /// Starts the timer, unless it is running.
    ///
    /// The first interval is intentionally not capped by [`RTO_MIN`].
    pub fn start(&mut self, rto: u64) -> (run: Option<RtxRun>)
        ensures
            *final(self) == old(self).after_start(),
            run == old(self).start_result(rto),
    {
        if self.running {
            return None;
        }
        self.running = true;
        Some(RtxRun { rto, max_retrans: self.max_retrans, n_rtos: 0 })
    }

    /// Carries out what a run asked for, as far as the timer itself is
    /// concerned. Tells whether the run is over.
    pub fn conclude(&mut self, action: TimerAction) -> (over: bool)
        ensures
            *final(self) == old(self).after_action(action),
            over == action.ends_the_run(),
    {
        match action {
            TimerAction::Timeout { .. } => false,
            TimerAction::Failure | TimerAction::Orphaned => {
                self.running = false;
                true
            },
            TimerAction::End => true,
        }
    }

    /// Stops the timer.
    pub fn stop(&mut self)
        ensures
            *final(self) == old(self).after_stop(),
    {
        self.running = false;
    }

    /// Whether the timer is running.
    pub fn is_running(&self) -> (running: bool)
        ensures
            running == self.running,
    {
        self.running
    }
}

} // verus!
