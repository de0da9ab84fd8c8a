//! Register of information from received packets for generating [NACK]s.
//!
//! [NACK]: https://webrtcglossary.com/nack

use std::num::TryFromIntError;

use vstd::prelude::*;

verus! {

/// Range of packets we are gathering feedback for.
pub const MAX_DROPOUT: usize = 3000;

/// Range of packets we consider OK to be disordered.
pub const MAX_DISORDER: u64 = 100;

/// Minimal number of sequential packets to let us consider it's a consistent
/// stream.
pub const MIN_SEQUENTIAL: u64 = 2;

/// Range of packets before the last one that has a "grace period": NACKs are
/// not generated for them.
pub const MISORDER_DELAY: u64 = 4;

/// The max number of NACKs we might send for a single packet.
pub const MAX_NACKS: u8 = 5;

/// The greatest number of NACK pairs in one report.
pub const MAX_PAIRS: usize = 31;

// ---------------------------------------------------------------------------
// Extended sequence numbers
// ---------------------------------------------------------------------------
/// Signed distance from the low 16 bits `prev` to `seq` along the shorter way
/// around the circle of 16-bit numbers. The two ways are equally long for
/// opposite numbers: these are ahead of a `prev` in the lower half, and behind
/// one in the upper half.
pub open spec fn nearest_step(prev: int, seq: int) -> int {
    let step = seq - prev;
    if prev < 0x8000 && step > 0x8000 {
        step - 0x10000
    } else if prev >= 0x8000 && step < -0x8000 {
        step + 0x10000
    } else {
        step
    }
}

/// The 64-bit number (modulo 2^64) with the low bits `seq` that is nearest to
/// `prev`.
pub open spec fn extended(prev: u64, seq: u16) -> u64 {
    ((prev + nearest_step(prev as int % 0x10000, seq as int)) % 0x1_0000_0000_0000_0000) as u64
}

/// "extend"s a less than 64 bit sequence number into a 64 bit by using the
/// knowledge of the previous such sequence number.
pub fn extend_u16(prev_ext_seq: u64, seq: u16) -> (ext: u64)
    ensures
        ext == extended(prev_ext_seq, seq),
{
    let max: u64 = 0x10000;
    let half: u64 = 0x8000;
    let roc_mask: i64 = 0xffff_ffff_ffff;
    let seq: u64 = u64::from(seq);
    assert(prev_ext_seq >> 16 == prev_ext_seq / 0x10000 && prev_ext_seq & 0xffff == prev_ext_seq
        % 0x10000 && prev_ext_seq >> 16 <= 0xffff_ffff_ffff) by (bit_vector);
    let roc: i64 = (prev_ext_seq >> 16) as i64;
    let prev_seq: u64 = prev_ext_seq & (max - 1);
    let v: i64 = if prev_seq < half {
        if seq > half + prev_seq {
            let back: i64 = roc - 1;
            assert(back & roc_mask == if back < 0 {
                roc_mask
            } else {
                back
            }) by (bit_vector)
                requires
                    roc_mask == 0xffff_ffff_ffffi64,
                    -1 <= back <= 0xffff_ffff_ffff,
            ;
            back & roc_mask
        } else {
            roc
        }
    } else if prev_seq > seq + half {
        let next: i64 = roc + 1;
        assert(next & roc_mask == if next > roc_mask {
            0
        } else {
            next
        }) by (bit_vector)
            requires
                roc_mask == 0xffff_ffff_ffffi64,
                0 <= next <= 0x1_0000_0000_0000,
        ;
        next & roc_mask
    } else {
        roc
    };
    assert(prev_ext_seq == roc * 0x10000 + prev_seq);
    v as u64 * max + seq
}

// ---------------------------------------------------------------------------
// What the register holds
// ---------------------------------------------------------------------------
/// Status of a packet.
#[derive(Clone, Copy, Debug, PartialEq, Eq, Structural)]
pub struct PacketStatus {
    /// Indicator whether this packet is received.
    pub received: bool,
    /// Quantity of NACKs sent for this packet.
    pub nack_count: u8,
}

/// Status of a packet that nothing is known of.
pub open spec fn fresh() -> PacketStatus {
    PacketStatus { received: false, nack_count: 0 }
}

impl Default for PacketStatus {
    fn default() -> (status: Self)
        ensures
            status == fresh(),
    {
        PacketStatus { received: false, nack_count: 0 }
    }
}

impl PacketStatus {
    /// Indicates whether we should generate a NACK for this packet.
    pub fn should_nack(self) -> (b: bool)
        ensures
            b == self.wants_nack(),
    {
        !self.received && self.nack_count < MAX_NACKS
    }

    /// The packet is missing and was not asked for too often.
    pub open spec fn wants_nack(self) -> bool {
        !self.received && self.nack_count < MAX_NACKS
    }
}

/// The place of the packet `seq` among the statuses.
pub open spec fn slot(seq: int) -> int {
    seq % (MAX_DROPOUT as int)
}

/// Some packet in `start..end` has the place `k`.
pub open spec fn in_slots(k: int, start: int, end: int) -> bool {
    exists|seq: int| start <= seq < end && #[trigger] slot(seq) == k
}

/// The statuses with those of the packets in `start..end` forgotten.
pub open spec fn cleared(st: Seq<PacketStatus>, start: int, end: int) -> Seq<PacketStatus> {
    Seq::new(
        st.len(),
        |k: int|
            if in_slots(k, start, end) {
                fresh()
            } else {
                st[k]
            },
    )
}

/// The statuses with the packet `seq` marked as received.
pub open spec fn marked(st: Seq<PacketStatus>, seq: int) -> Seq<PacketStatus> {
    st.update(slot(seq), PacketStatus { received: true, ..st[slot(seq)] })
}

/// How many packets in a row from `from` on, and up to `up_to`, are received,
/// now that `seq` is.
pub open spec fn run_len(st: Seq<PacketStatus>, seq: int, from: int, up_to: int) -> int
    decreases up_to - from + 1,
{
    if from > up_to || !(from == seq || st[slot(from)].received) {
        0
    } else {
        1 + run_len(st, seq, from + 1, up_to)
    }
}

/// Where the search for missing packets begins next, now that `seq` is
/// received: at the last packet of a run of received ones, or else not too far
/// behind `up_to`.
pub open spec fn settled_up_to(st: Seq<PacketStatus>, seq: int, from: int, up_to: int) -> int {
    let run = run_len(st, seq, from, up_to);
    if run >= 2 {
        from + run - 1
    } else if up_to - from > MAX_DISORDER {
        up_to - MAX_DISORDER
    } else {
        from
    }
}

/// The statuses where nothing is known of any packet.
pub open spec fn nothing_known() -> Seq<PacketStatus> {
    Seq::new(MAX_DROPOUT as nat, |k: int| fresh())
}

/// What a [`NackRegister`] holds.
#[verifier::ext_equal]
pub struct RegisterView {
    /// Status of each packet, found by its [`slot`].
    pub statuses: Seq<PacketStatus>,
    /// Max ever registered sequence number.
    pub max_seq: u64,
    /// Sequence number that would confirm a jump of the stream.
    pub jump_seq: Option<u64>,
    /// Sequential packets remaining until source is valid.
    pub probation: u64,
    /// The sequence number from which the next feedback starts.
    pub check_from: u64,
}

impl RegisterView {
    /// The register of a stream whose first packet is to be `base_seq`.
    pub open spec fn starting(base_seq: u16) -> RegisterView {
        RegisterView {
            statuses: nothing_known(),
            max_seq: if base_seq == 0 {
                0
            } else {
                (base_seq - 1) as u64
            },
            jump_seq: None,
            probation: MIN_SEQUENTIAL,
            check_from: base_seq as u64,
        }
    }

    /// Where the search for missing packets begins once `seq` is received: see
    /// [`settled_up_to`], and not so far back that two packets share a slot.
    pub open spec fn next_check_from(self, seq: u64) -> int {
        let from = settled_up_to(
            self.statuses,
            seq as int,
            self.check_from as int,
            self.check_up_to(),
        );
        if self.max_seq - from < MAX_DROPOUT {
            from
        } else {
            self.max_seq - MAX_DROPOUT + 1
        }
    }

    /// The first packet of the grace period, counted down from the newest one.
    pub open spec fn check_up_to(self) -> int {
        if self.max_seq < MISORDER_DELAY {
            0
        } else {
            self.max_seq - MISORDER_DELAY
        }
    }

    /// The register after the packet `seq` was received. The packet is marked
    /// unless it is settled; a settled packet leaves its place to a later one.
    pub open spec fn after_record(self, seq: u64) -> RegisterView {
        if seq < self.check_from {
            self
        } else {
            let from = self.next_check_from(seq);
            let unsettled = cleared(self.statuses, self.check_from as int, from);
            RegisterView {
                statuses: if from <= seq {
                    marked(unsettled, seq as int)
                } else {
                    unsettled
                },
                check_from: from as u64,
                ..self
            }
        }
    }

    /// The register after the stream starts anew at `seq`, the only packet that
    /// is known.
    pub open spec fn after_init(self, seq: u64) -> RegisterView {
        RegisterView {
            statuses: nothing_known().update(
                slot(seq as int),
                PacketStatus { received: true, nack_count: 0 },
            ),
            max_seq: seq,
            jump_seq: None,
            probation: self.probation,
            check_from: seq,
        }
    }

    /// The register after `seq` turned up far from the others.
    pub open spec fn after_jump(self, seq: u64) -> RegisterView {
        if self.jump_seq == Some(seq) {
            self.after_init(seq)
        } else {
            RegisterView { jump_seq: Some((seq + 1) as u64), ..self }
        }
    }

    /// `seq` is near enough to the newest packet to be a packet of the stream.
    pub open spec fn in_stream(self, seq: u64) -> bool {
        if self.max_seq < seq {
            seq - self.max_seq < MAX_DROPOUT
        } else {
            self.max_seq - seq < MAX_DISORDER
        }
    }

    /// The register after the extended sequence number `seq`.
    pub open spec fn after_seq(self, seq: u64) -> RegisterView {
        if self.probation > 0 {
            if seq == (self.max_seq + 1) % 0x1_0000_0000_0000_0000 {
                let next = RegisterView {
                    probation: (self.probation - 1) as u64,
                    max_seq: seq,
                    ..self
                };
                if next.probation == 0 {
                    next.after_init(seq)
                } else {
                    next
                }
            } else {
                RegisterView { probation: (MIN_SEQUENTIAL - 1) as u64, max_seq: seq, ..self }
            }
        } else if !self.in_stream(seq) {
            self.after_jump(seq)
        } else if self.max_seq < seq {
            RegisterView { max_seq: seq, jump_seq: None, ..self }.after_record(seq)
        } else {
            self.after_record(seq)
        }
    }

    /// The extended sequence number of a packet with the number `seq`.
    pub open spec fn extend(self, seq: u16) -> u64 {
        extended(self.max_seq, seq)
    }

    /// Whether the last extended sequence number there is was reached where its
    /// successor is needed.
    pub open spec fn exhausted(self, seq: u16) -> bool {
        let ext = self.extend(seq);
        &&& ext == u64::MAX
        &&& self.probation == 0
        &&& if self.in_stream(ext) {
            &&& self.check_from <= ext
            &&& self.max_seq < ext
            &&& ext as int / MAX_DROPOUT as int != self.max_seq as int / MAX_DROPOUT as int
        } else {
            self.jump_seq != Some(ext)
        }
    }
}

// ---------------------------------------------------------------------------
// What a feedback report asks for
// ---------------------------------------------------------------------------
/// The statuses with one more NACK counted for the packet `seq`.
pub open spec fn asked_once(st: Seq<PacketStatus>, seq: int) -> Seq<PacketStatus> {
    st.update(
        slot(seq),
        PacketStatus { nack_count: (st[slot(seq)].nack_count + 1) as u8, ..st[slot(seq)] },
    )
}

/// The statuses after each packet in `start..stop` that wants a NACK got one,
/// in ascending order.
pub open spec fn asked(st: Seq<PacketStatus>, start: int, stop: int) -> Seq<PacketStatus>
    decreases stop - start,
{
    if stop <= start {
        st
    } else {
        let before = asked(st, start, stop - 1);
        if before[slot(stop - 1)].wants_nack() {
            asked_once(before, stop - 1)
        } else {
            before
        }
    }
}

/// The packets in `start..stop` that want a NACK, in ascending order.
pub open spec fn missing(st: Seq<PacketStatus>, start: int, stop: int) -> Seq<int>
    decreases stop - start,
{
    if stop <= start {
        Seq::empty()
    } else {
        let before = missing(st, start, stop - 1);
        if asked(st, start, stop - 1)[slot(stop - 1)].wants_nack() {
            before.push(stop - 1)
        } else {
            before
        }
    }
}

/// Missing packets as pairs of a first packet and a mask, of which the bit `o`
/// stands for the packet `o + 1` after the first: each packet joins the latest
/// pair if that reaches up to it, and opens a pair of its own otherwise.
pub open spec fn pairs(packets: Seq<int>) -> Seq<(int, u16)>
    decreases packets.len(),
{
    if packets.len() == 0 {
        Seq::empty()
    } else {
        let before = pairs(packets.drop_last());
        let packet = packets.last();
        if before.len() > 0 && packet - before.last().0 <= 16 {
            let (first, mask) = before.last();
            before.drop_last().push((first, mask | (1u16 << ((packet - first - 1) as u16))))
        } else {
            before.push((packet, 0))
        }
    }
}

/// A pair as it is sent, with the first packet's low 16 bits.
pub open spec fn wire_pair(pair: (int, u16)) -> (u16, u16) {
    ((pair.0 % 0x10000) as u16, pair.1)
}

/// A pair list cut into reports of [`MAX_PAIRS`] pairs, the last of which may
/// be shorter.
pub open spec fn reports(wire: Seq<(u16, u16)>) -> Seq<Seq<(u16, u16)>> {
    Seq::new(
        ((wire.len() + MAX_PAIRS - 1) / MAX_PAIRS as int) as nat,
        |k: int|
            wire.subrange(
                k * MAX_PAIRS,
                if (k + 1) * MAX_PAIRS <= wire.len() {
                    (k + 1) * MAX_PAIRS
                } else {
                    wire.len() as int
                },
            ),
    )
}

impl RegisterView {
    /// The packets that the next feedback asks for: none while the stream is on
    /// probation, and none in the grace period.
    pub open spec fn wanted(self) -> Seq<int> {
        if self.probation > 0 {
            Seq::empty()
        } else {
            missing(self.statuses, self.check_from as int, self.check_up_to())
        }
    }

    /// The next feedback.
    pub open spec fn feedback(self) -> Option<Seq<Seq<(u16, u16)>>> {
        if self.wanted().len() == 0 {
            None
        } else {
            Some(reports(pairs(self.wanted()).map_values(|p: (int, u16)| wire_pair(p))))
        }
    }

    /// The register after a feedback.
    pub open spec fn after_reports(self) -> RegisterView {
        if self.probation > 0 {
            self
        } else {
            RegisterView {
                statuses: asked(self.statuses, self.check_from as int, self.check_up_to()),
                ..self
            }
        }
    }
}

/// The reports in a vector of vectors.
pub open spec fn reports_view(reports: Option<Vec<Vec<(u16, u16)>>>) -> Option<
    Seq<Seq<(u16, u16)>>,
> {
    match reports {
        Some(v) => Some(v@.map_values(|r: Vec<(u16, u16)>| r@)),
        None => None,
    }
}

/// Register of information from received packets for generating NACKs.
#[derive(Debug)]
pub struct NackRegister {
    packet_statuses: Vec<PacketStatus>,
    max_seq: u64,
    jump_seq: Option<u64>,
    probation: u64,
    check_from: u64,
}

impl View for NackRegister {
    type V = RegisterView;

    closed spec fn view(&self) -> RegisterView {
        RegisterView {
            statuses: self.packet_statuses@,
            max_seq: self.max_seq,
            jump_seq: self.jump_seq,
            probation: self.probation,
            check_from: self.check_from,
        }
    }
}

impl Clone for NackRegister {
    fn clone(&self) -> (r: Self)
        ensures
            r@ == self@,
    {
        let packet_statuses: Vec<PacketStatus> = self.packet_statuses.clone();
        assert(packet_statuses@ =~= self.packet_statuses@);
        NackRegister {
            packet_statuses,
            max_seq: self.max_seq,
            jump_seq: self.jump_seq,
            probation: self.probation,
            check_from: self.check_from,
        }
    }
}

impl RegisterView {
    /// Nothing is known of packets before the first unsettled one or after the
    /// newest one.
    pub open spec fn others_free(self) -> bool {
        forall|k: int|
            0 <= k < MAX_DROPOUT && !in_slots(k, self.check_from as int, self.max_seq + 1)
                ==> #[trigger] self.statuses[k] == fresh()
    }

    /// One status per slot, no packet asked for too often, and the search for
    /// missing packets behind the newest one, with a slot for each of them. The
    /// other slots are free.
    pub open spec fn wf(self) -> bool {
        &&& self.statuses.len() == MAX_DROPOUT
        &&& forall|k: int| 0 <= k < MAX_DROPOUT ==> (#[trigger] self.statuses[k]).nack_count
            <= MAX_NACKS
        &&& self.probation <= MIN_SEQUENTIAL
        &&& self.probation == 0 ==> self.check_from <= self.max_seq < self.check_from + MAX_DROPOUT
        &&& self.probation == 0 ==> self.others_free()
    }
}

proof fn lemma_run_len(st: Seq<PacketStatus>, seq: int, from: int, up_to: int)
    ensures
        0 <= run_len(st, seq, from, up_to),
        from <= up_to + 1 ==> run_len(st, seq, from, up_to) <= up_to - from + 1,
        from > up_to ==> run_len(st, seq, from, up_to) == 0,
    decreases up_to - from + 1,
{
    if from <= up_to && (from == seq || st[slot(from)].received) {
        lemma_run_len(st, seq, from + 1, up_to);
    }
}

/// Looking one packet further continues the run or ends it.
proof fn lemma_run_extends(st: Seq<PacketStatus>, seq: int, from: int, mid: int, up_to: int)
    requires
        from <= mid <= up_to + 1,
        forall|i: int| from <= i < mid ==> i == seq || st[#[trigger] slot(i)].received,
    ensures
        run_len(st, seq, from, up_to) == mid - from + run_len(st, seq, mid, up_to),
    decreases mid - from,
{
    if from < mid {
        assert(from == seq || st[slot(from)].received);
        lemma_run_extends(st, seq, from + 1, mid, up_to);
    }
}

impl NackRegister {
    /// See [`RegisterView::wf`].
    pub open spec fn wf(&self) -> bool {
        self@.wf()
    }

    /// Create a new [`NackRegister`].
    pub fn new(base_seq: u16) -> (r: Self)
        ensures
            r.wf(),
            r@ == RegisterView::starting(base_seq),
    {
        let r: NackRegister = NackRegister {
            packet_statuses: vec![PacketStatus::default();MAX_DROPOUT],
            max_seq: base_seq.saturating_sub(1).into(),
            jump_seq: None,
            probation: MIN_SEQUENTIAL,
            check_from: u64::from(base_seq),
        };
        assert(r.packet_statuses@ =~= nothing_known());
        r
    }

    /// Returns an index of [`PacketStatus`] for the provided sequence number.
    fn packet_index(&self, seq: u64) -> (k: usize)
        requires
            self.packet_statuses@.len() == MAX_DROPOUT,
        ensures
            k == slot(seq as int),
            k < MAX_DROPOUT,
    {
        (seq % self.packet_statuses.len() as u64) as usize
    }

    /// Resets packet statuses in the provided range.
    fn reset_receceived(&mut self, start: u64, end: u64)
        requires
            old(self).packet_statuses@.len() == MAX_DROPOUT,
        ensures
            final(self)@ == (RegisterView {
                statuses: cleared(old(self)@.statuses, start as int, end as int),
                ..old(self)@
            }),
    {
        let mut seq: u64 = start;
        assert(self.packet_statuses@ =~= cleared(
            old(self).packet_statuses@,
            start as int,
            start as int,
        ));
        while seq < end
            invariant
                start <= seq,
                if start <= end {
                    seq <= end
                } else {
                    seq == start
                },
                old(self).packet_statuses@.len() == MAX_DROPOUT,
                self.packet_statuses@.len() == MAX_DROPOUT,
                self@ == (RegisterView {
                    statuses: cleared(old(self)@.statuses, start as int, seq as int),
                    ..old(self)@
                }),
            decreases end - seq,
        {
            let index: usize = self.packet_index(seq);
            let ghost before = self.packet_statuses@;
            self.packet_statuses[index] = PacketStatus::default();
            proof {
                let st = old(self)@.statuses;
                assert forall|k: int| 0 <= k < MAX_DROPOUT implies self.packet_statuses@[k]
                    == cleared(st, start as int, seq + 1)[k] by {
                    if k == slot(seq as int) {
                        assert(in_slots(k, start as int, seq + 1));
                    } else if in_slots(k, start as int, seq as int) {
                        let i = choose|i: int| start <= i < seq && #[trigger] slot(i) == k;
                        assert(start <= i < seq + 1 && slot(i) == k);
                    } else if in_slots(k, start as int, seq + 1) {
                        let i = choose|i: int| start <= i < seq + 1 && #[trigger] slot(i) == k;
                        assert(i == seq);
                    }
                    assert(before[k] == cleared(st, start as int, seq as int)[k]);
                }
                assert(self.packet_statuses@ =~= cleared(st, start as int, seq + 1));
            }
            seq += 1;
        }
        if start > end {
            assert(cleared(old(self)@.statuses, start as int, end as int) =~= cleared(
                old(self)@.statuses,
                start as int,
                start as int,
            ));
        }
    }

    /// Marks the packet with the provided sequence number as received.
    fn mark_received(&mut self, seq: u64)
        requires
            old(self).packet_statuses@.len() == MAX_DROPOUT,
        ensures
            final(self)@ == (RegisterView {
                statuses: marked(old(self)@.statuses, seq as int),
                ..old(self)@
            }),
    {
        let pos: usize = self.packet_index(seq);
        let mut status: PacketStatus = self.packet_statuses[pos];
        status.received = true;
        self.packet_statuses[pos] = status;
        assert(self.packet_statuses@ =~= marked(old(self)@.statuses, seq as int));
    }

    /// Sets an indication that the packet was received with the provided
    /// sequence number and `forward_delta`.
    fn record_received(&mut self, seq: u64, forward_delta: u64)
        requires
            old(self).packet_statuses@.len() == MAX_DROPOUT,
            seq == u64::MAX && old(self).check_from <= seq ==> seq as int / MAX_DROPOUT as int == (
            seq - forward_delta) / MAX_DROPOUT as int,
        ensures
            final(self)@ == old(self)@.after_record(seq),
    {
        if seq < self.check_from {
            return;
        }
        let len: u64 = self.packet_statuses.len() as u64;
        let did_wrap: bool = (seq / len) != (seq.saturating_sub(forward_delta) / len);
        let ghost st = self.packet_statuses@;
        if did_wrap {
            let start: u64 = seq + 1;
            let end: u64 = self.check_from;
            self.reset_receceived(start, end);
            // `seq` is not behind `check_from`
            assert(cleared(st, start as int, end as int) =~= st);
        }
        let check_up_to: u64 = self.max_seq.saturating_sub(MISORDER_DELAY);
        let from: u64 = self.check_from;
        let ghost up_to = check_up_to as int;
        proof {
            lemma_run_len(st, seq as int, from as int, up_to);
        }
        let mut sn: u64 = from;
        while sn <= check_up_to && (sn == seq || self.packet_statuses[self.packet_index(sn)].received)
            invariant
                self.packet_statuses@ == st,
                st.len() == MAX_DROPOUT,
                check_up_to <= u64::MAX - MISORDER_DELAY,
                from <= sn,
                sn <= check_up_to + 1 || sn == from,
                forall|i: int| from <= i < sn ==> i == seq || st[#[trigger] slot(i)].received,
            decreases check_up_to + 1 - sn,
        {
            sn += 1;
        }
        proof {
            if from <= check_up_to {
                lemma_run_extends(st, seq as int, from as int, sn as int, up_to);
            }
        }
        let mut new: u64 = if sn > from && sn - 1 != from {
            // the last packet of the run
            sn - 1
        } else if check_up_to.saturating_sub(from) > MAX_DISORDER {
            // No consecutive run, make sure we don't let check_from fall too
            // far behind: bring it forward by discarding older packets.
            check_up_to - MAX_DISORDER
        } else {
            from
        };
        // no two packets that are looked at share a place
        let oldest: u64 = self.max_seq.saturating_sub(MAX_DROPOUT as u64 - 1);
        if new < oldest {
            new = oldest;
        }
        self.reset_receceived(from, new);
        self.check_from = new;
        // an older packet may have had the same place until now
        if self.check_from <= seq {
            self.mark_received(seq);
        }
    }

    /// Resets this [`NackRegister`] and inits with the provided sequence
    /// number.
    fn init_seq(&mut self, seq: u64)
        requires
            old(self).packet_statuses@.len() == MAX_DROPOUT,
        ensures
            final(self)@ == old(self)@.after_init(seq),
    {
        self.max_seq = seq;
        self.jump_seq = None;
        self.packet_statuses = vec![PacketStatus::default();MAX_DROPOUT];
        assert(self.packet_statuses@ =~= nothing_known());
        self.check_from = seq;
        proof {
            let up_to = self@.check_up_to();
            reveal_with_fuel(run_len, 3);
            assert(settled_up_to(nothing_known(), seq as int, seq as int, up_to) == seq);
            assert(cleared(nothing_known(), seq as int, seq as int) =~= nothing_known());
        }
        self.record_received(seq, 0);
    }

    /// Register the provided sequence number as "jump" and calls
    /// [`NackRegister::init_seq()`], if needed.
    fn maybe_seq_jump(&mut self, seq: u64)
        requires
            old(self).packet_statuses@.len() == MAX_DROPOUT,
            old(self).jump_seq != Some(seq) ==> seq < u64::MAX,
        ensures
            final(self)@ == old(self)@.after_jump(seq),
    {
        let confirmed: bool = match self.jump_seq {
            Some(jump) => jump == seq,
            None => false,
        };
        if confirmed {
            self.init_seq(seq);
        } else {
            self.jump_seq = Some(seq + 1);
        }
    }

    /// Tells whether the last extended sequence number there is was reached, so
    /// that [`NackRegister::update_seq`] cannot be asked for `seq`.
    pub fn exhausted(&self, seq: u16) -> (b: bool)
        ensures
            b == self@.exhausted(seq),
    {
        let ext: u64 = extend_u16(self.max_seq, seq);
        if ext != u64::MAX || self.probation != 0 {
            return false;
        }
        let in_stream: bool = if self.max_seq < ext {
            ext - self.max_seq < MAX_DROPOUT as u64
        } else {
            self.max_seq - ext < MAX_DISORDER
        };
        if in_stream {
            self.max_seq < ext && ext / MAX_DROPOUT as u64 != self.max_seq / MAX_DROPOUT as u64
        } else {
            match self.jump_seq {
                Some(jump) => jump != ext,
                None => true,
            }
        }
    }

    /// Register the last received packet.
    pub fn update_seq(&mut self, seq: u16)
        requires
            old(self).wf(),
            !old(self)@.exhausted(seq),
        ensures
            final(self).wf(),
            final(self)@ == old(self)@.after_seq(old(self)@.extend(seq)),
    {
        let seq: u64 = extend_u16(self.max_seq, seq);
        proof {
            lemma_after_seq_wf(self@, seq);
        }
        if self.probation > 0 {
            if seq == self.max_seq.wrapping_add(1) {
                self.probation -= 1;
                self.max_seq = seq;
                if self.probation == 0 {
                    self.init_seq(seq);
                }
            } else {
                self.probation = MIN_SEQUENTIAL - 1;
                self.max_seq = seq;
            }
        } else if self.max_seq < seq {
            let udelta: u64 = seq - self.max_seq;
            if udelta < MAX_DROPOUT as u64 {
                self.max_seq = seq;
                self.jump_seq = None;
                self.record_received(seq, udelta);
            } else {
                self.maybe_seq_jump(seq);
            }
        } else {
            let udelta: u64 = self.max_seq - seq;
            if udelta < MAX_DISORDER {
                self.record_received(seq, 0);
            } else {
                self.maybe_seq_jump(seq);
            }
        }
    }

    /// Tries to generate NACK reports.
    pub fn nack_reports(&mut self) -> (r: Result<
        Option<Vec<Vec<(u16, u16)>>>,
        TryFromIntError,
    >)
        requires
            old(self).wf(),
        ensures
            final(self).wf(),
            final(self)@ == old(self)@.after_reports(),
            r is Ok,
            reports_view(r->Ok_0) == old(self)@.feedback(),
    {
        if self.probation > 0 {
            return Ok(None);
        }
        let start: u64 = self.check_from;
        let stop: u64 = self.max_seq.saturating_sub(MISORDER_DELAY);
        let u16max: u64 = u64::from(u16::MAX) + 1;
        if stop < start {
            return Ok(None);
        }
        let mut nacks: Vec<(u16, u16)> = Vec::new();
        let mut first_missing: Option<u64> = None;
        let mut bitmask: u16 = 0;
        let ghost st = self.packet_statuses@;
        let ghost mut closed: Seq<(int, u16)> = Seq::empty();
        let mut i: u64 = start;
        while i < stop
            invariant
                start <= i <= stop <= old(self)@.max_seq,
                start == old(self)@.check_from,
                u16max == 0x10000,
                st == old(self).packet_statuses@,
                self@ == (RegisterView {
                    statuses: asked(st, start as int, i as int),
                    ..old(self)@
                }),
                self.wf(),
                nacks@ == closed.map_values(|p: (int, u16)| wire_pair(p)),
                match first_missing {
                    Some(first) => {
                        &&& start <= first < i <= first + 16
                        &&& pairs(missing(st, start as int, i as int)) == closed.push(
                            (first as int, bitmask),
                        )
                    },
                    None => {
                        &&& bitmask == 0
                        &&& pairs(missing(st, start as int, i as int)) == closed
                        &&& closed.len() > 0 ==> closed.last().0 + 16 < i
                    },
                },
            decreases stop - i,
        {
            let j: usize = self.packet_index(i);
            let ghost m0 = missing(st, start as int, i as int);
            let ghost m1 = missing(st, start as int, i + 1);
            let should_nack: bool = self.packet_statuses[j].should_nack();
            if should_nack {
                let mut status: PacketStatus = self.packet_statuses[j];
                status.nack_count += 1;
                self.packet_statuses[j] = status;
                assert(in_slots(j as int, self.check_from as int, self.max_seq + 1)) by {
                    assert(slot(i as int) == j);
                }
                assert(m1 == m0.push(i as int));
                assert(m1.drop_last() =~= m0);
            }
            assert(self.packet_statuses@ =~= asked(st, start as int, i + 1));
            match first_missing {
                Some(first) => {
                    if should_nack {
                        let o: u16 = match u16::try_from(i - (first + 1)) {
                            Ok(o) => o,
                            Err(e) => {
                                return Err(e);
                            },
                        };
                        assert(closed.push((first as int, bitmask)).drop_last() =~= closed);
                        bitmask = bitmask | (1u16 << o);
                        assert(pairs(m1) =~= closed.push((first as int, bitmask)));
                    }
                    if i - first == 16 {
                        let low: u16 = match u16::try_from(first % u16max) {
                            Ok(low) => low,
                            Err(e) => {
                                return Err(e);
                            },
                        };
                        nacks.push((low, bitmask));
                        proof {
                            closed = closed.push((first as int, bitmask));
                        }
                        assert(nacks@ =~= closed.map_values(|p: (int, u16)| wire_pair(p)));
                        bitmask = 0;
                        first_missing = None;
                    }
                },
                None => {
                    if should_nack {
                        first_missing = Some(i);
                        assert(pairs(m1) =~= closed.push((i as int, 0)));
                    }
                },
            }
            i += 1;
        }
        match first_missing {
            Some(first) => {
                let low: u16 = match u16::try_from(first % u16max) {
                    Ok(low) => low,
                    Err(e) => {
                        return Err(e);
                    },
                };
                nacks.push((low, bitmask));
                proof {
                    closed = closed.push((first as int, bitmask));
                }
                assert(nacks@ =~= closed.map_values(|p: (int, u16)| wire_pair(p)));
            },
            None => {},
        }
        proof {
            lemma_pairs_empty(old(self)@.wanted());
        }
        if nacks.is_empty() {
            return Ok(None);
        }
        Ok(Some(into_reports(nacks)))
    }
}

/// Cuts a pair list into reports.
fn into_reports(nacks: Vec<(u16, u16)>) -> (result: Vec<Vec<(u16, u16)>>)
    ensures
        result@.map_values(|r: Vec<(u16, u16)>| r@) == reports(nacks@),
{
    let mut result: Vec<Vec<(u16, u16)>> = Vec::new();
    let mut current: Vec<(u16, u16)> = Vec::new();
    let mut i: usize = 0;
    while i < nacks.len()
        invariant
            i <= nacks@.len(),
            current@.len() <= MAX_PAIRS,
            i > 0 ==> current@.len() > 0,
            i == result@.len() * MAX_PAIRS + current@.len(),
            current@ == nacks@.subrange(result@.len() * MAX_PAIRS, i as int),
            forall|k: int|
                0 <= k < result@.len() ==> (#[trigger] result@[k])@ == nacks@.subrange(
                    k * MAX_PAIRS,
                    (k + 1) * MAX_PAIRS,
                ),
        decreases nacks@.len() - i,
    {
        if i % MAX_PAIRS == 0 && i != 0 {
            result.push(current);
            current = Vec::new();
        }
        current.push(nacks[i]);
        i += 1;
        assert(current@ =~= nacks@.subrange(result@.len() * MAX_PAIRS, i as int));
    }
    if !current.is_empty() {
        result.push(current);
    }
    assert(result@.map_values(|r: Vec<(u16, u16)>| r@) =~= reports(nacks@));
    result
}

/// There is a pair as soon as there is a packet.
proof fn lemma_pairs_empty(packets: Seq<int>)
    ensures
        pairs(packets).len() == 0 <==> packets.len() == 0,
{
}

/// A received packet changes statuses and moves the search forward, no more.
pub proof fn lemma_after_record_wf(r: RegisterView, seq: u64)
    requires
        r.statuses.len() == MAX_DROPOUT,
        forall|k: int| 0 <= k < MAX_DROPOUT ==> (#[trigger] r.statuses[k]).nack_count <= MAX_NACKS,
    ensures
        ({
            let s = r.after_record(seq);
            &&& s.statuses.len() == MAX_DROPOUT
            &&& forall|k: int| 0 <= k < MAX_DROPOUT ==> (#[trigger] s.statuses[k]).nack_count
                <= MAX_NACKS
            &&& s == (RegisterView { statuses: s.statuses, check_from: s.check_from, ..r })
            &&& r.check_from <= s.check_from
            &&& s.check_from == r.check_from || s.check_from <= r.check_up_to()
            &&& r.check_from <= seq ==> s.check_from == r.next_check_from(seq)
        }),
{
    if seq >= r.check_from {
        lemma_run_len(r.statuses, seq as int, r.check_from as int, r.check_up_to());
    }
}

/// Every step keeps the register well-formed.
pub proof fn lemma_after_seq_wf(r: RegisterView, seq: u64)
    requires
        r.wf(),
    ensures
        r.after_seq(seq).wf(),
{
    let moved = RegisterView { max_seq: seq, jump_seq: None, ..r };
    lemma_after_record_wf(moved, seq);
    lemma_after_record_wf(r, seq);
    if r.probation == 0 && r.in_stream(seq) {
        if r.max_seq < seq {
            lemma_slots_grow(r, seq);
            lemma_others_stay_free(moved, seq);
        } else {
            lemma_others_stay_free(r, seq);
        }
    }
    assert forall|k: int|
        0 <= k < MAX_DROPOUT && !in_slots(k, seq as int, seq + 1) implies #[trigger] r.after_init(
        seq,
    ).statuses[k] == fresh() by {
        assert(k != slot(seq as int)) by {
            if k == slot(seq as int) {
                assert(in_slots(k, seq as int, seq + 1));
            }
        }
    }
}

/// Slots that are free stay so when the newest packet moves on.
proof fn lemma_slots_grow(r: RegisterView, seq: u64)
    requires
        r.others_free(),
        r.max_seq < seq,
    ensures
        (RegisterView { max_seq: seq, jump_seq: None, ..r }).others_free(),
{
    assert forall|k: int|
        0 <= k < MAX_DROPOUT && !in_slots(k, r.check_from as int, seq + 1)
            implies #[trigger] r.statuses[k] == fresh() by {
        if in_slots(k, r.check_from as int, r.max_seq + 1) {
            let i = choose|i: int| r.check_from <= i < r.max_seq + 1 && #[trigger] slot(i) == k;
            assert(r.check_from <= i < seq + 1 && slot(i) == k);
        }
    }
}

/// Slots of settled packets become free.
proof fn lemma_others_stay_free(r: RegisterView, seq: u64)
    requires
        r.statuses.len() == MAX_DROPOUT,
        forall|k: int| 0 <= k < MAX_DROPOUT ==> (#[trigger] r.statuses[k]).nack_count <= MAX_NACKS,
        r.check_from <= r.max_seq,
        seq <= r.max_seq,
        r.others_free(),
    ensures
        r.after_record(seq).others_free(),
{
    lemma_after_record_wf(r, seq);
    let s = r.after_record(seq);
    if r.check_from <= seq {
        let from = s.check_from as int;
        assert forall|k: int|
            0 <= k < MAX_DROPOUT && !in_slots(k, from, s.max_seq + 1)
                implies #[trigger] s.statuses[k] == fresh() by {
            if from <= seq {
                assert(slot(seq as int) != k) by {
                    if slot(seq as int) == k {
                        assert(in_slots(k, from, s.max_seq + 1));
                    }
                }
            }
            if !in_slots(k, r.check_from as int, from) {
                if in_slots(k, r.check_from as int, r.max_seq + 1) {
                    let i = choose|i: int|
                        r.check_from <= i < r.max_seq + 1 && #[trigger] slot(i) == k;
                    if i < from {
                        assert(in_slots(k, r.check_from as int, from));
                    } else {
                        assert(in_slots(k, from, s.max_seq + 1));
                    }
                }
                assert(r.statuses[k] == fresh());
            }
        }
    }
}

// ---------------------------------------------------------------------------
// The recorder
// ---------------------------------------------------------------------------
/// What a [`Recorder`] holds.
pub struct RecorderView {
    /// SSRC of the sender of the feedback.
    pub sender_ssrc: u32,
    /// SSRC of the media source, known with the first packet.
    pub media_ssrc: Option<u32>,
    /// The register of its packets.
    pub register: Option<RegisterView>,
}

impl RecorderView {
    /// The register that a packet with the number `seq` is entered in.
    pub open spec fn register_for(self, seq: u16) -> RegisterView {
        match self.register {
            Some(register) => register,
            None => RegisterView::starting(seq),
        }
    }

    /// The next feedback: that of the register, once there is one.
    pub open spec fn feedback(self) -> Option<Seq<Seq<(u16, u16)>>> {
        match (self.media_ssrc, self.register) {
            (Some(_), Some(register)) => register.feedback(),
            _ => None,
        }
    }

    /// The recorder after a feedback.
    pub open spec fn after_feedback(self) -> RecorderView {
        match (self.media_ssrc, self.register) {
            (Some(_), Some(register)) => RecorderView {
                register: Some(register.after_reports()),
                ..self
            },
            _ => self,
        }
    }

    /// The recorder after a packet of the source `media_ssrc` with the number
    /// `seq`. The source of the first packet stays.
    pub open spec fn after_record(self, media_ssrc: u32, seq: u16) -> RecorderView {
        let register = self.register_for(seq);
        RecorderView {
            sender_ssrc: self.sender_ssrc,
            media_ssrc: match self.media_ssrc {
                Some(ssrc) => Some(ssrc),
                None => Some(media_ssrc),
            },
            register: Some(register.after_seq(register.extend(seq))),
        }
    }
}

/// Recorder for NACK stats.
#[derive(Debug)]
pub struct Recorder {
    sender_ssrc: u32,
    media_ssrc: Option<u32>,
    nack_register: Option<NackRegister>,
}

impl View for Recorder {
    type V = RecorderView;

    closed spec fn view(&self) -> RecorderView {
        RecorderView {
            sender_ssrc: self.sender_ssrc,
            media_ssrc: self.media_ssrc,
            register: match self.nack_register {
                Some(register) => Some(register@),
                None => None,
            },
        }
    }
}

impl Recorder {
    /// The register, where there is one, is well-formed.
    pub open spec fn wf(&self) -> bool {
        self@.register matches Some(register) ==> register.wf()
    }

    /// Creates a new [`Recorder`] which uses the given `sender_ssrc` in the
    /// created feedback packets.
    #[must_use]
    pub fn new(sender_ssrc: u32) -> (r: Self)
        ensures
            r.wf(),
            r@ == (RecorderView { sender_ssrc, media_ssrc: None, register: None }),
    {
        Recorder { sender_ssrc, media_ssrc: None, nack_register: None }
    }

    /// Tells whether the last extended sequence number there is was reached, so
    /// that [`Recorder::record`] cannot be asked for `seq`.
    pub fn exhausted(&self, seq: u16) -> (b: bool)
        ensures
            b == self@.register_for(seq).exhausted(seq),
    {
        match &self.nack_register {
            Some(register) => register.exhausted(seq),
            None => false,
        }
    }

    /// Marks a packet with the provided `media_ssrc` and transport wide
    /// sequence number as received.
    pub fn record(&mut self, media_ssrc: u32, seq: u16)
        requires
            old(self).wf(),
            !old(self)@.register_for(seq).exhausted(seq),
        ensures
            final(self).wf(),
            final(self)@ == old(self)@.after_record(media_ssrc, seq),
    {
        let mut register: NackRegister = match self.nack_register.take() {
            Some(register) => register,
            None => NackRegister::new(seq),
        };
        register.update_seq(seq);
        self.nack_register = Some(register);
        if self.media_ssrc.is_none() {
            self.media_ssrc = Some(media_ssrc);
        }
    }

    /// Creates the NACK pairs of a new feedback report.
    pub fn build_feedback(&mut self) -> (r: Option<Vec<Vec<(u16, u16)>>>)
        requires
            old(self).wf(),
        ensures
            final(self).wf(),
            reports_view(r) == old(self)@.feedback(),
            final(self)@ == old(self)@.after_feedback(),
    {
        if self.media_ssrc.is_none() {
            return None;
        }
        match self.nack_register.take() {
            Some(mut register) => {
                let reports: Option<Vec<Vec<(u16, u16)>>> = match register.nack_reports() {
                    Ok(reports) => reports,
                    Err(_) => None,
                };
                self.nack_register = Some(register);
                reports
            },
            None => None,
        }
    }
}

} // verus!
