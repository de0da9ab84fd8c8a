//! How fast test packets are sent, and how the speed is reported.

use vstd::prelude::*;

verus! {

/// How long the packets are counted for one report, in nanoseconds.
pub const PERIOD_NANOS: u128 = 1_000_000_000;

/// How long a sender pauses at its limit, in microseconds.
pub const PAUSE_MICROS: u64 = 500;

/// What a sender does next.
#[derive(Clone, Copy, Debug, PartialEq, Eq, Structural)]
pub enum SendAction {
    /// Report how many packets were sent in the period, which then starts anew.
    Report(u32),
    /// Pause for [`PAUSE_MICROS`].
    Pause,
    /// Send a packet.
    Send,
}

/// Counts the packets of a sender and holds it back at its limit.
#[derive(Clone, Copy, Debug, PartialEq, Eq, Structural)]
pub struct SendPacer {
    /// The sender pauses once it sent more packets than this in one period.
    pub limit_per_second: u32,
    /// Packets sent in this period.
    pub pkt_cnt: u32,
}

impl SendPacer {
    /// What the sender does when the period is `elapsed` nanoseconds old.
    pub open spec fn action(self, elapsed: u128) -> SendAction {
        if elapsed > PERIOD_NANOS {
            SendAction::Report(self.pkt_cnt)
        } else if self.pkt_cnt > self.limit_per_second {
            SendAction::Pause
        } else {
            SendAction::Send
        }
    }

    /// The pacer after `action`.
    pub open spec fn after(self, action: SendAction) -> SendPacer {
        match action {
            SendAction::Report(_) => SendPacer { pkt_cnt: 0, ..self },
            SendAction::Pause => self,
            SendAction::Send => SendPacer { pkt_cnt: (self.pkt_cnt + 1) as u32, ..self },
        }
    }

    /// A sender that has sent nothing.
    pub fn new(limit_per_second: u32) -> (p: Self)
        ensures
            p == (SendPacer { limit_per_second, pkt_cnt: 0 }),
    {
        SendPacer { limit_per_second, pkt_cnt: 0 }
    }

    /// Decides what to do when the period is `elapsed` nanoseconds old.
    pub fn step(&mut self, elapsed: u128) -> (action: SendAction)
        requires
            old(self).action(elapsed) == SendAction::Send ==> old(self).pkt_cnt < u32::MAX,
        ensures
            action == old(self).action(elapsed),
            *final(self) == old(self).after(action),
    {
        if elapsed > PERIOD_NANOS {
            let sent: u32 = self.pkt_cnt;
            self.pkt_cnt = 0;
            return SendAction::Report(sent);
        }
        if self.pkt_cnt > self.limit_per_second {
            return SendAction::Pause;
        }
        self.pkt_cnt += 1;
        SendAction::Send
    }
}

/// What a receiver does next.
#[derive(Clone, Copy, Debug, PartialEq, Eq, Structural)]
pub enum ReceiveAction {
    /// Look for a track again.
    LookAgain,
    /// Report how many packets came in the period, which then starts anew.
    Report(i32),
    /// Wait for a packet of the first track.
    Read,
}

/// Counts the packets of a receiver.
#[derive(Clone, Copy, Debug, PartialEq, Eq, Structural)]
pub struct ReceiveMeter {
    /// The receiver has found its track.
    pub has_track: bool,
    /// Packets received in this period.
    pub pkt_cnt: i32,
}

impl ReceiveMeter {
    /// What the receiver does when there are `tracks` tracks and the period is
    /// `elapsed` nanoseconds old.
    pub open spec fn action(self, tracks: usize, elapsed: u128) -> ReceiveAction {
        if !self.has_track && tracks == 0 {
            ReceiveAction::LookAgain
        } else if elapsed > PERIOD_NANOS {
            ReceiveAction::Report(self.pkt_cnt)
        } else {
            ReceiveAction::Read
        }
    }

    /// The receiver after it was told to do `action`.
    pub open spec fn after(self, tracks: usize, action: ReceiveAction) -> ReceiveMeter {
        ReceiveMeter {
            has_track: self.has_track || tracks > 0,
            pkt_cnt: if action is Report {
                0
            } else {
                self.pkt_cnt
            },
        }
    }

    /// The receiver after one more packet.
    pub open spec fn after_packet(self) -> ReceiveMeter {
        ReceiveMeter { has_track: self.has_track, pkt_cnt: (self.pkt_cnt + 1) as i32 }
    }

    /// A receiver without a track.
    pub fn new() -> (m: Self)
        ensures
            m == (ReceiveMeter { has_track: false, pkt_cnt: 0 }),
    {
        ReceiveMeter { has_track: false, pkt_cnt: 0 }
    }

    /// Decides what to do when there are `tracks` tracks and the period is
    /// `elapsed` nanoseconds old.
    pub fn step(&mut self, tracks: usize, elapsed: u128) -> (action: ReceiveAction)
        ensures
            action == old(self).action(tracks, elapsed),
            *final(self) == old(self).after(tracks, action),
    {
        if !self.has_track {
            if tracks == 0 {
                return ReceiveAction::LookAgain;
            }
            self.has_track = true;
        }
        if elapsed > PERIOD_NANOS {
            let received: i32 = self.pkt_cnt;
            self.pkt_cnt = 0;
            return ReceiveAction::Report(received);
        }
        ReceiveAction::Read
    }

    /// Counts a packet that was received.
    pub fn packet_read(&mut self)
        requires
            old(self).pkt_cnt < i32::MAX,
        ensures
            *final(self) == old(self).after_packet(),
    {
        self.pkt_cnt += 1;
    }
}

/// The pacer after a row of steps, each at its own age of the period.
pub open spec fn after_steps(p: SendPacer, elapsed: Seq<u128>) -> SendPacer
    decreases elapsed.len(),
{
    if elapsed.len() == 0 {
        p
    } else {
        let before = after_steps(p, elapsed.drop_last());
        before.after(before.action(elapsed.last()))
    }
}

/// How many packets were sent since the last report.
pub open spec fn sent_since_report(p: SendPacer, elapsed: Seq<u128>) -> int
    decreases elapsed.len(),
{
    if elapsed.len() == 0 {
        0
    } else {
        let before = after_steps(p, elapsed.drop_last());
        match before.action(elapsed.last()) {
            SendAction::Report(_) => 0,
            SendAction::Pause => sent_since_report(p, elapsed.drop_last()),
            SendAction::Send => sent_since_report(p, elapsed.drop_last()) + 1,
        }
    }
}

/// However the time passes, a sender that starts with nothing sent counts its
/// packets rightly and sends at most one more than its limit in one period.
pub proof fn law_sender_keeps_its_limit(limit_per_second: u32, elapsed: Seq<u128>)
    requires
        limit_per_second < u32::MAX,
    ensures
        ({
            let start = SendPacer { limit_per_second, pkt_cnt: 0 };
            &&& sent_since_report(start, elapsed) == after_steps(start, elapsed).pkt_cnt
            &&& sent_since_report(start, elapsed) <= limit_per_second + 1
            &&& after_steps(start, elapsed).limit_per_second == limit_per_second
        }),
    decreases elapsed.len(),
{
    if elapsed.len() > 0 {
        law_sender_keeps_its_limit(limit_per_second, elapsed.drop_last());
    }
}

/// A sender reports once more than a second has passed, and then at once. Until
/// then it sends as long as it sent no more than its limit, and pauses after
/// that. A report tells all the packets since the last one.
pub proof fn law_sender_reports_every_second(p: SendPacer, elapsed: u128)
    requires
        p.pkt_cnt < u32::MAX,
    ensures
        p.action(elapsed) is Report <==> elapsed > 1_000_000_000,
        p.action(elapsed) matches SendAction::Report(n) ==> n == p.pkt_cnt,
        p.action(elapsed) is Send <==> elapsed <= 1_000_000_000 && p.pkt_cnt <= p.limit_per_second,
        p.after(p.action(elapsed)).limit_per_second == p.limit_per_second,
        p.after(p.action(elapsed)).pkt_cnt == (match p.action(elapsed) {
            SendAction::Report(_) => 0int,
            SendAction::Pause => p.pkt_cnt as int,
            SendAction::Send => p.pkt_cnt + 1,
        }),
{
}

/// A receiver looks for a track until there is one, and keeps it. With a track
/// it reports once more than a second has passed, and reads packets until then.
/// A report tells all the packets since the last one.
pub proof fn law_receiver_reports_every_second(m: ReceiveMeter, tracks: usize, elapsed: u128)
    requires
        m.pkt_cnt < i32::MAX,
    ensures
        m.action(tracks, elapsed) is LookAgain <==> !m.has_track && tracks == 0,
        m.action(tracks, elapsed) is Report <==> (m.has_track || tracks > 0) && elapsed
            > 1_000_000_000,
        m.action(tracks, elapsed) matches ReceiveAction::Report(n) ==> n == m.pkt_cnt,
        m.after(tracks, m.action(tracks, elapsed)).has_track <==> m.has_track || tracks > 0,
        m.after(tracks, m.action(tracks, elapsed)).pkt_cnt == (if m.action(
            tracks,
            elapsed,
        ) is Report {
            0
        } else {
            m.pkt_cnt
        }),
        m.after_packet().pkt_cnt == m.pkt_cnt + 1,
        m.after_packet().has_track == m.has_track,
{
}

} // verus!
