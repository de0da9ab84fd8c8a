//! What holds of a row of packets and feedbacks of a
//! [`NackRegister`](crate::nack::NackRegister).

use vstd::prelude::*;

use crate::nack::{
    PacketStatus, RecorderView, RegisterView, MAX_DROPOUT, MAX_NACKS, MAX_PAIRS, MIN_SEQUENTIAL, MISORDER_DELAY,
};

verus! {

// ---------------------------------------------------------------------------
// Sequence numbers
// ---------------------------------------------------------------------------
/// Extending a sequence number keeps its bits and leads to the nearest number
/// that has them, at most half a round away (modulo 2^64).
pub proof fn law_extension_is_nearest(prev: u64, seq: u16)
    ensures
        crate::nack::extended(prev, seq) as int % 0x10000 == seq,
        exists|step: int|
            -0x8000 <= step <= 0x8000 && crate::nack::extended(prev, seq) as int == #[trigger] (
            prev + step) % 0x1_0000_0000_0000_0000,
{
    let low = prev as int % 0x10000;
    let step = crate::nack::nearest_step(low, seq as int);
    assert(-0x8000 <= step <= 0x8000);
    let x = prev + step;
    let ext = crate::nack::extended(prev, seq) as int;
    assert(ext == x % 0x1_0000_0000_0000_0000);
    assert(ext == x || ext == x + 0x1_0000_0000_0000_0000 || ext == x - 0x1_0000_0000_0000_0000);
    let round = prev as int / 0x10000;
    assert(prev == 0x10000 * round + low);
    assert(step == seq - low || step == seq - low + 0x10000 || step == seq - low - 0x10000);
    assert(ext % 0x10000 == seq);
}

/// A number extends to the packet that it was taken from, as long as that is
/// less than half a round away. Of two packets exactly half a round away it
/// extends to the later one from the lower half of the numbers, and to the
/// earlier one from the upper half.
pub proof fn law_extension_finds_the_packet(prev: u64, packet: u64)
    requires
        -0x8000 <= packet - prev <= 0x8000,
        packet - prev == 0x8000 ==> prev as int % 0x10000 < 0x8000,
        packet - prev == -0x8000 ==> prev as int % 0x10000 >= 0x8000,
    ensures
        crate::nack::extended(prev, (packet as int % 0x10000) as u16) == packet,
{
}

/// The number of the newest packet extends to that packet, and the next number
/// to the next packet.
pub proof fn law_extension_follows_the_stream(prev: u64)
    ensures
        crate::nack::extended(prev, (prev as int % 0x10000) as u16) == prev,
        prev < u64::MAX ==> crate::nack::extended(
            prev,
            ((prev + 1) % 0x10000) as u16,
        ) == prev + 1,
{
}

// ---------------------------------------------------------------------------
// What is asked for
// ---------------------------------------------------------------------------
proof fn lemma_slots_differ(i: int, j: int)
    requires
        i != j,
        -MAX_DROPOUT < i - j < MAX_DROPOUT,
    ensures
        crate::nack::slot(i) != crate::nack::slot(j),
{
}

/// A feedback never changes what was received and never lowers a count.
proof fn lemma_asked(st: Seq<PacketStatus>, start: int, stop: int)
    requires
        st.len() == MAX_DROPOUT,
        forall|k: int| 0 <= k < MAX_DROPOUT ==> (#[trigger] st[k]).nack_count <= MAX_NACKS,
    ensures
        crate::nack::asked(st, start, stop).len() == MAX_DROPOUT,
        forall|k: int|
            0 <= k < MAX_DROPOUT ==> {
                let now = #[trigger] crate::nack::asked(st, start, stop)[k];
                &&& now.received == st[k].received
                &&& st[k].nack_count <= now.nack_count <= MAX_NACKS
            },
    decreases stop - start,
{
    if start < stop {
        lemma_asked(st, start, stop - 1);
    }
}

/// A feedback leaves the slots alone that it does not look at.
proof fn lemma_asked_elsewhere(st: Seq<PacketStatus>, start: int, stop: int, k: int)
    requires
        st.len() == MAX_DROPOUT,
        0 <= k < MAX_DROPOUT,
        !crate::nack::in_slots(k, start, stop),
    ensures
        crate::nack::asked(st, start, stop).len() == MAX_DROPOUT,
        crate::nack::asked(st, start, stop)[k] == st[k],
    decreases stop - start,
{
    if start < stop {
        if crate::nack::in_slots(k, start, stop - 1) {
            let i = choose|i: int| start <= i < stop - 1 && #[trigger] crate::nack::slot(i) == k;
            assert(start <= i < stop && crate::nack::slot(i) == k);
        }
        lemma_asked_elsewhere(st, start, stop - 1, k);
        assert(crate::nack::slot(stop - 1) != k);
    }
}

/// Where no two packets share a slot, each status is asked for its own packet
/// alone.
proof fn lemma_asked_apart(st: Seq<PacketStatus>, start: int, stop: int, i: int)
    requires
        st.len() == MAX_DROPOUT,
        forall|k: int| 0 <= k < MAX_DROPOUT ==> (#[trigger] st[k]).nack_count <= MAX_NACKS,
        start <= i,
        start <= stop <= start + MAX_DROPOUT,
        i < start + MAX_DROPOUT,
    ensures
        crate::nack::asked(st, start, stop)[crate::nack::slot(i)] == (if i < stop
            && st[crate::nack::slot(i)].wants_nack() {
            PacketStatus {
                nack_count: (st[crate::nack::slot(i)].nack_count + 1) as u8,
                ..st[crate::nack::slot(i)]
            }
        } else {
            st[crate::nack::slot(i)]
        }),
    decreases stop - start,
{
    if start < stop {
        lemma_asked(st, start, stop - 1);
        lemma_asked_apart(st, start, stop - 1, i);
        if i != stop - 1 {
            lemma_slots_differ(i, stop - 1);
        }
    }
}

proof fn lemma_missing(st: Seq<PacketStatus>, start: int, stop: int)
    ensures
        forall|k: int|
            0 <= k < crate::nack::missing(st, start, stop).len() ==> start
                <= #[trigger] crate::nack::missing(st, start, stop)[k] < stop,
        ascending(crate::nack::missing(st, start, stop)),
    decreases stop - start,
{
    if start < stop {
        lemma_missing(st, start, stop - 1);
    }
}

proof fn lemma_missing_member(st: Seq<PacketStatus>, start: int, stop: int, i: int)
    ensures
        crate::nack::missing(st, start, stop).contains(i) <==> (start <= i < stop
            && crate::nack::asked(st, start, i)[crate::nack::slot(i)].wants_nack()),
    decreases stop - start,
{
    if start < stop {
        lemma_missing_member(st, start, stop - 1, i);
        let before = crate::nack::missing(st, start, stop - 1);
        let now = crate::nack::missing(st, start, stop);
        if before.contains(i) {
            let k = choose|k: int| 0 <= k < before.len() && before[k] == i;
            assert(now[k] == i);
        }
        if now.contains(i) && i != stop - 1 {
            let k = choose|k: int| 0 <= k < now.len() && now[k] == i;
            assert(before[k] == i);
        }
        if i == stop - 1 && now.len() > before.len() {
            assert(now[now.len() - 1] == i);
        }
    }
}

/// Strictly ascending numbers.
pub open spec fn ascending(packets: Seq<int>) -> bool {
    forall|j: int, k: int| 0 <= j < k < packets.len() ==> packets[j] < packets[k]
}

/// A feedback asks for packets in ascending order, none of them before the
/// first unsettled one, and none in the grace period of the newest packet.
pub proof fn law_feedback_spares_grace_period(r: RegisterView)
    ensures
        ascending(r.wanted()),
        forall|k: int|
            0 <= k < r.wanted().len() ==> r.check_from <= #[trigger] r.wanted()[k] && r.wanted()[k]
                + MISORDER_DELAY < r.max_seq,
{
    lemma_missing(r.statuses, r.check_from as int, r.check_up_to());
}

/// No feedback is given before the stream has proved consistent.
pub proof fn law_no_feedback_on_probation(r: RegisterView)
    requires
        r.probation > 0,
    ensures
        r.feedback() is None,
        r.after_reports() == r,
{
}

/// A feedback asks for exactly those packets that are missing and were not asked
/// for too often.
pub proof fn law_feedback_is_exact(r: RegisterView, packet: int)
    requires
        r.wf(),
        r.probation == 0,
    ensures
        r.wanted().contains(packet) <==> {
            let status = r.statuses[crate::nack::slot(packet)];
            r.check_from <= packet && packet + 4 < r.max_seq && !status.received
                && status.nack_count < 5
        },
{
    let start = r.check_from as int;
    lemma_missing_member(r.statuses, start, r.check_up_to(), packet);
    if start <= packet < r.check_up_to() {
        lemma_asked_apart(r.statuses, start, packet, packet);
    }
}

// ---------------------------------------------------------------------------
// How often a packet is asked for
// ---------------------------------------------------------------------------
/// The register after `n` feedbacks with no packet in between.
pub open spec fn after_feedbacks(r: RegisterView, n: nat) -> RegisterView
    decreases n,
{
    if n == 0 {
        r
    } else {
        after_feedbacks(r, (n - 1) as nat).after_reports()
    }
}

proof fn lemma_after_reports_wf(r: RegisterView)
    requires
        r.wf(),
    ensures
        r.after_reports().wf(),
        forall|k: int|
            0 <= k < MAX_DROPOUT ==> {
                let now = #[trigger] r.after_reports().statuses[k];
                &&& now.received == r.statuses[k].received
                &&& r.statuses[k].nack_count <= now.nack_count
            },
{
    let start = r.check_from as int;
    let stop = r.check_up_to();
    lemma_asked(r.statuses, start, stop);
    if r.probation == 0 {
        assert forall|k: int|
            0 <= k < MAX_DROPOUT && !crate::nack::in_slots(k, start, r.max_seq + 1)
                implies #[trigger] r.after_reports().statuses[k] == crate::nack::fresh() by {
            if crate::nack::in_slots(k, start, stop) {
                let i = choose|i: int| start <= i < stop && #[trigger] crate::nack::slot(i) == k;
                assert(start <= i < r.max_seq + 1 && crate::nack::slot(i) == k);
            }
            lemma_asked_elsewhere(r.statuses, start, stop, k);
            assert(r.statuses[k] == crate::nack::fresh());
        }
    }
}

proof fn lemma_wanted_is_counted(r: RegisterView, packet: int)
    requires
        r.wf(),
        r.wanted().contains(packet),
    ensures
        r.after_reports().statuses[crate::nack::slot(packet)].nack_count
            > r.statuses[crate::nack::slot(packet)].nack_count,
{
    let start = r.check_from as int;
    let stop = r.check_up_to();
    lemma_missing_member(r.statuses, start, stop, packet);
    lemma_asked(r.statuses, start, packet);
    lemma_asked_keeps_growing(r.statuses, start, packet + 1, stop, crate::nack::slot(packet));
}

proof fn lemma_asked_keeps_growing(st: Seq<PacketStatus>, start: int, mid: int, stop: int, k: int)
    requires
        st.len() == MAX_DROPOUT,
        forall|k: int| 0 <= k < MAX_DROPOUT ==> (#[trigger] st[k]).nack_count <= MAX_NACKS,
        start <= mid <= stop,
        0 <= k < MAX_DROPOUT,
    ensures
        crate::nack::asked(st, start, mid)[k].nack_count <= crate::nack::asked(
            st,
            start,
            stop,
        )[k].nack_count,
    decreases stop - mid,
{
    if mid < stop {
        lemma_asked(st, start, stop - 1);
        lemma_asked_keeps_growing(st, start, mid, stop - 1, k);
    }
}

/// Something that happens to a register: a packet with this extended sequence
/// number, or a feedback.
pub enum Happening {
    Packet(u64),
    Feedback,
}

/// The register after a row of happenings.
pub open spec fn after_happenings(r: RegisterView, row: Seq<Happening>) -> RegisterView
    decreases row.len(),
{
    if row.len() == 0 {
        r
    } else {
        let before = after_happenings(r, row.drop_last());
        match row.last() {
            Happening::Packet(seq) => before.after_seq(seq),
            Happening::Feedback => before.after_reports(),
        }
    }
}

/// In how many feedbacks of a row `packet` is asked for.
pub open spec fn times_asked(r: RegisterView, packet: int, row: Seq<Happening>) -> nat
    decreases row.len(),
{
    if row.len() == 0 {
        0
    } else {
        let before = after_happenings(r, row.drop_last());
        times_asked(r, packet, row.drop_last()) + if row.last() is Feedback
            && before.wanted().contains(packet) {
            1nat
        } else {
            0
        }
    }
}

/// No packet of the row restarts a stream that was trusted further back.
pub open spec fn undisturbed(r: RegisterView, row: Seq<Happening>) -> bool
    decreases row.len(),
{
    row.len() == 0 || {
        let before = after_happenings(r, row.drop_last());
        &&& undisturbed(r, row.drop_last())
        &&& row.last() matches Happening::Packet(seq) ==> before.probation > 0
            || before.in_stream(seq) || before.jump_seq != Some(seq) || before.max_seq < seq
    }
}

/// However packets and feedbacks are interleaved, no packet is asked for more
/// than [`MAX_NACKS`] times, as long as the stream is not restarted further back.
pub proof fn law_no_packet_is_asked_too_often(r: RegisterView, packet: int, row: Seq<Happening>)
    requires
        r.wf(),
        undisturbed(r, row),
    ensures
        times_asked(r, packet, row) <= MAX_NACKS,
{
    lemma_times_asked(r, packet, row);
}

/// A packet that was asked for is settled, or its status counts the requests.
proof fn lemma_times_asked(r: RegisterView, packet: int, row: Seq<Happening>)
    requires
        r.wf(),
        undisturbed(r, row),
    ensures
        after_happenings(r, row).wf(),
        times_asked(r, packet, row) <= MAX_NACKS,
        times_asked(r, packet, row) > 0 ==> {
            let s = after_happenings(r, row);
            &&& s.probation == 0
            &&& packet < s.check_up_to()
            &&& packet < s.check_from || times_asked(r, packet, row)
                <= s.statuses[crate::nack::slot(packet)].nack_count
        },
    decreases row.len(),
{
    if row.len() > 0 {
        let before = after_happenings(r, row.drop_last());
        lemma_times_asked(r, packet, row.drop_last());
        match row.last() {
            Happening::Feedback => {
                lemma_after_reports_wf(before);
                if before.wanted().contains(packet) {
                    lemma_missing_member(
                        before.statuses,
                        before.check_from as int,
                        before.check_up_to(),
                        packet,
                    );
                    lemma_wanted_is_counted(before, packet);
                }
            },
            Happening::Packet(seq) => {
                crate::nack::lemma_after_seq_wf(before, seq);
                if times_asked(r, packet, row.drop_last()) > 0 && before.in_stream(seq) {
                    lemma_count_is_kept(before, seq, packet);
                }
            },
        }
    }
}

/// A packet of the stream keeps the count of every packet in the range of the
/// next feedback that it does not settle.
proof fn lemma_count_is_kept(r: RegisterView, seq: u64, packet: int)
    requires
        r.wf(),
        r.probation == 0,
        r.in_stream(seq),
        packet < r.check_up_to(),
    ensures
        packet < r.after_seq(seq).check_up_to(),
        packet < r.check_from ==> packet < r.after_seq(seq).check_from,
        packet < r.after_seq(seq).check_from || r.after_seq(seq).statuses[crate::nack::slot(
            packet,
        )].nack_count == r.statuses[crate::nack::slot(packet)].nack_count,
{
    law_stream_moves_forward(r, seq);
    let moved = RegisterView { max_seq: seq, jump_seq: None, ..r };
    crate::nack::lemma_after_record_wf(r, seq);
    crate::nack::lemma_after_record_wf(moved, seq);
    let from = r.after_seq(seq).check_from as int;
    if from <= packet {
        assert forall|i: int| r.check_from <= i < from implies #[trigger] crate::nack::slot(i)
            != crate::nack::slot(packet) by {
            lemma_slots_differ(i, packet);
        }
        assert(!crate::nack::in_slots(crate::nack::slot(packet), r.check_from as int, from));
    }
}

/// A packet that stays missing is asked for in each feedback, until it was
/// asked for [`MAX_NACKS`] times.
pub proof fn law_missing_packet_is_asked_again(r: RegisterView, packet: int, n: nat)
    requires
        r.wf(),
        r.probation == 0,
        r.check_from <= packet < r.check_up_to(),
        !r.statuses[crate::nack::slot(packet)].received,
    ensures
        after_feedbacks(r, n).wanted().contains(packet) <==> r.statuses[crate::nack::slot(
            packet,
        )].nack_count + n < MAX_NACKS,
{
    lemma_missing_stays(r, packet, n);
    law_feedback_is_exact(after_feedbacks(r, n), packet);
}

proof fn lemma_missing_stays(r: RegisterView, packet: int, n: nat)
    requires
        r.wf(),
        r.probation == 0,
        r.check_from <= packet < r.check_up_to(),
        !r.statuses[crate::nack::slot(packet)].received,
    ensures
        ({
            let s = after_feedbacks(r, n);
            let count = r.statuses[crate::nack::slot(packet)].nack_count;
            &&& s.wf()
            &&& s == (RegisterView { statuses: s.statuses, ..r })
            &&& !s.statuses[crate::nack::slot(packet)].received
            &&& s.statuses[crate::nack::slot(packet)].nack_count == (if count + n < MAX_NACKS {
                count + n
            } else {
                MAX_NACKS as int
            })
        }),
    decreases n,
{
    if n > 0 {
        let before = after_feedbacks(r, (n - 1) as nat);
        lemma_missing_stays(r, packet, (n - 1) as nat);
        lemma_after_reports_wf(before);
        lemma_asked_apart(before.statuses, r.check_from as int, r.check_up_to(), packet);
    }
}

// ---------------------------------------------------------------------------
// Pairs and reports
// ---------------------------------------------------------------------------
/// The bit number `o` of a mask.
pub open spec fn has_bit(mask: u16, o: int) -> bool {
    0 <= o < 16 && mask & (1u16 << (o as u16)) != 0
}

/// A pair stands for its first packet and for those in its mask.
pub open spec fn names(pair: (int, u16), packet: int) -> bool {
    packet == pair.0 || has_bit(pair.1, packet - pair.0 - 1)
}

proof fn lemma_set_bit(mask: u16, a: int, b: int)
    requires
        0 <= a < 16,
    ensures
        has_bit(mask | (1u16 << (a as u16)), b) <==> has_bit(mask, b) || a == b,
{
    let x = a as u16;
    let y = b as u16;
    if 0 <= b < 16 {
        assert((mask | (1u16 << x)) & (1u16 << y) != 0 <==> mask & (1u16 << y) != 0 || x == y)
            by (bit_vector)
            requires
                x < 16,
                y < 16,
        ;
    }
}

/// The pairs of a feedback stand for exactly the packets that are asked for.
pub proof fn law_pairs_name_the_packets(packets: Seq<int>, packet: int)
    requires
        ascending(packets),
    ensures
        packets.contains(packet) <==> exists|k: int|
            0 <= k < crate::nack::pairs(packets).len() && #[trigger] names(
                crate::nack::pairs(packets)[k],
                packet,
            ),
    decreases packets.len(),
{
    let all = crate::nack::pairs(packets);
    if packets.len() > 0 {
        let less = packets.drop_last();
        let before = crate::nack::pairs(less);
        let last = packets.last();
        law_pairs_name_the_packets(less, packet);
        lemma_pairs_start(less);
        if packets.contains(packet) && packet != last {
            let j = choose|j: int| 0 <= j < packets.len() && packets[j] == packet;
            assert(less[j] == packet);
        }
        if less.contains(packet) {
            let j = choose|j: int| 0 <= j < less.len() && less[j] == packet;
            assert(packets[j] == packet);
        }
        assert(packets[packets.len() - 1] == last);
        assert(packets.contains(packet) <==> less.contains(packet) || packet == last);
        if before.len() > 0 && last - before.last().0 <= 16 {
            let (first, mask) = before.last();
            let o = last - first - 1;
            let n = before.len() - 1;
            assert(less.contains(first));
            let j = choose|j: int| 0 <= j < less.len() && less[j] == first;
            assert(packets[j] == first);
            assert(first < last);
            lemma_set_bit(mask, o, packet - first - 1);
            assert(all[n] == (first, mask | (1u16 << (o as u16))));
            assert(forall|k: int| 0 <= k < n ==> all[k] == before[k]);
            assert(names(all[n], packet) <==> names(before[n], packet) || packet == last);
            if exists|k: int| 0 <= k < before.len() && #[trigger] names(before[k], packet) {
                let k = choose|k: int|
                    0 <= k < before.len() && #[trigger] names(before[k], packet);
                assert(names(all[k], packet));
            }
            if exists|k: int| 0 <= k < all.len() && #[trigger] names(all[k], packet) {
                let k = choose|k: int| 0 <= k < all.len() && #[trigger] names(all[k], packet);
                assert(names(before[k], packet) || packet == last);
            }
        } else {
            let n = before.len() as int;
            assert(all[n] == (last, 0u16));
            assert(forall|k: int| 0 <= k < n ==> all[k] == before[k]);
            let y = (packet - last - 1) as u16;
            assert(0u16 & (1u16 << y) == 0) by (bit_vector);
            assert(names(all[n], packet) <==> packet == last);
            if exists|k: int| 0 <= k < before.len() && #[trigger] names(before[k], packet) {
                let k = choose|k: int|
                    0 <= k < before.len() && #[trigger] names(before[k], packet);
                assert(names(all[k], packet));
            }
            if exists|k: int| 0 <= k < all.len() && #[trigger] names(all[k], packet) {
                let k = choose|k: int| 0 <= k < all.len() && #[trigger] names(all[k], packet);
                assert(k == n || names(before[k], packet));
            }
        }
    }
}

/// Every pair starts at a packet that is asked for.
proof fn lemma_pairs_start(packets: Seq<int>)
    ensures
        forall|k: int|
            0 <= k < crate::nack::pairs(packets).len() ==> packets.contains(
                (#[trigger] crate::nack::pairs(packets)[k]).0,
            ),
    decreases packets.len(),
{
    if packets.len() > 0 {
        let less = packets.drop_last();
        lemma_pairs_start(less);
        assert forall|k: int| 0 <= k < crate::nack::pairs(packets).len() implies packets.contains(
            (#[trigger] crate::nack::pairs(packets)[k]).0,
        ) by {
            let first = crate::nack::pairs(packets)[k].0;
            if k < crate::nack::pairs(less).len() {
                assert(first == crate::nack::pairs(less)[k].0);
                let j = choose|j: int| 0 <= j < less.len() && less[j] == first;
                assert(packets[j] == first);
            } else {
                assert(packets[packets.len() - 1] == first);
            }
        }
    }
}

/// The reports hold the pairs in order and nothing else. All of them hold 31
/// pairs but the last one, which holds at least one.
pub proof fn law_reports_hold_the_pairs(wire: Seq<(u16, u16)>, k: int, j: int)
    ensures
        0 <= k < crate::nack::reports(wire).len() ==> 1 <= crate::nack::reports(wire)[k].len()
            <= MAX_PAIRS,
        0 <= k < crate::nack::reports(wire).len() - 1 ==> crate::nack::reports(wire)[k].len() == 31,
        0 <= k < crate::nack::reports(wire).len() && 0 <= j - 31 * k
            < crate::nack::reports(wire)[k].len() ==> j < wire.len()
            && crate::nack::reports(wire)[k][j - 31 * k] == wire[j],
        0 <= j < wire.len() ==> j / 31 < crate::nack::reports(wire).len() && j % 31
            < crate::nack::reports(wire)[j / 31].len() && crate::nack::reports(wire)[j / 31][j % 31]
            == wire[j],
{
}

/// Reports are known by their view: each vector stands for its pairs.
pub proof fn law_views_show_all_reports(reports: Option<Vec<Vec<(u16, u16)>>>, k: int)
    ensures
        reports is None <==> crate::nack::reports_view(reports) is None,
        reports matches Some(v) ==> {
            let shown = crate::nack::reports_view(reports)->Some_0;
            &&& shown.len() == v@.len()
            &&& 0 <= k < v@.len() ==> shown[k] == v@[k]@
        },
{
}

/// Number `n` is asked for by a pair as it is sent: it is the pair's first
/// number, or lies one more than `o` after it, for a bit `o` of the mask.
pub open spec fn names_number(pair: (u16, u16), n: int) -> bool {
    n == pair.0 || exists|o: int|
        0 <= o < 16 && #[trigger] has_bit(pair.1, o) && n == (pair.0 + 1 + o) % 0x10000
}

/// Number `n` is asked for by some pair of a feedback.
pub open spec fn asks_for(feedback: Option<Seq<Seq<(u16, u16)>>>, n: int) -> bool {
    feedback matches Some(reports) && exists|k: int, j: int|
        0 <= k < reports.len() && 0 <= j < reports[k].len() && #[trigger] names_number(
            reports[k][j],
            n,
        )
}

/// The reports of a feedback list its pairs in order, 31 to a report, each with
/// its mask and the low 16 bits of its first number.
pub proof fn law_feedback_lists_the_pairs(r: RegisterView, m: int)
    requires
        0 <= m < crate::nack::pairs(r.wanted()).len(),
    ensures
        r.feedback() is Some,
        ({
            let reports = r.feedback()->Some_0;
            let (first, mask) = crate::nack::pairs(r.wanted())[m];
            &&& m / 31 < reports.len()
            &&& m % 31 < reports[m / 31].len()
            &&& reports[m / 31][m % 31].0 as int == first % 0x10000
            &&& reports[m / 31][m % 31].1 == mask
        }),
{
    let wire = crate::nack::pairs(r.wanted()).map_values(
        |p: (int, u16)| crate::nack::wire_pair(p),
    );
    law_reports_hold_the_pairs(wire, m / 31, m);
    lemma_pairs_start(r.wanted());
    assert(r.wanted().len() > 0) by {
        if r.wanted().len() == 0 {
            assert(crate::nack::pairs(r.wanted()).len() == 0);
        }
    }
}

/// A feedback is given only where there is something to ask for, and holds no
/// more pairs than there are.
pub proof fn law_feedback_is_never_empty(r: RegisterView, k: int, j: int)
    ensures
        r.feedback() is Some <==> r.wanted().len() > 0,
        r.feedback() matches Some(reports) ==> {
            &&& reports.len() > 0
            &&& 0 <= k < reports.len() ==> 1 <= reports[k].len() <= 31
            &&& 0 <= k < reports.len() && 0 <= j < reports[k].len() ==> 31 * k + j
                < crate::nack::pairs(r.wanted()).len()
        },
{
    if r.wanted().len() > 0 {
        let wire = crate::nack::pairs(r.wanted()).map_values(
            |p: (int, u16)| crate::nack::wire_pair(p),
        );
        law_reports_hold_the_pairs(wire, k, 31 * k + j);
        assert(crate::nack::pairs(r.wanted()).len() > 0);
        law_reports_hold_the_pairs(wire, 0, 0);
    }
}

/// A wanted packet is asked for by its low 16 bits.
proof fn lemma_wanted_is_named(r: RegisterView, packet: int)
    requires
        r.wanted().contains(packet),
    ensures
        asks_for(r.feedback(), packet % 0x10000),
{
    law_feedback_spares_grace_period(r);
    law_pairs_name_the_packets(r.wanted(), packet);
    let all = crate::nack::pairs(r.wanted());
    let m = choose|m: int| 0 <= m < all.len() && #[trigger] names(all[m], packet);
    law_feedback_lists_the_pairs(r, m);
    let reports = r.feedback()->Some_0;
    let pair = reports[m / 31][m % 31];
    let o = packet - all[m].0 - 1;
    if packet != all[m].0 {
        assert(has_bit(pair.1, o));
        assert(packet % 0x10000 == (pair.0 + 1 + o) % 0x10000);
    }
    assert(names_number(pair, packet % 0x10000));
}

/// Whatever number is asked for belongs to a wanted packet.
proof fn lemma_named_is_wanted(r: RegisterView, n: u16)
    requires
        r.wf(),
        r.probation == 0,
        asks_for(r.feedback(), n as int),
    ensures
        r.wanted().contains(crate::nack::extended(r.max_seq, n) as int),
{
    let all = crate::nack::pairs(r.wanted());
    let wire = all.map_values(|p: (int, u16)| crate::nack::wire_pair(p));
    let reports = r.feedback()->Some_0;
    let (k, j) = choose|k: int, j: int|
        0 <= k < reports.len() && 0 <= j < reports[k].len() && #[trigger] names_number(
            reports[k][j],
            n as int,
        );
    let pair = reports[k][j];
    let m = k * 31 + j;
    law_reports_hold_the_pairs(wire, k, m);
    assert(pair == wire[m]);
    assert(pair == crate::nack::wire_pair(all[m]));
    let packet = if n == pair.0 {
        all[m].0
    } else {
        let o = choose|o: int|
            0 <= o < 16 && #[trigger] has_bit(pair.1, o) && n == (pair.0 + 1 + o) % 0x10000;
        all[m].0 + 1 + o
    };
    assert(names(all[m], packet));
    law_feedback_spares_grace_period(r);
    law_pairs_name_the_packets(r.wanted(), packet);
    let i = choose|i: int| 0 <= i < r.wanted().len() && r.wanted()[i] == packet;
    assert(r.check_from <= r.wanted()[i]);
    assert(packet % 0x10000 == n);
    law_extension_finds_the_packet(r.max_seq, packet as u64);
}

/// A feedback asks for a packet, by the 16 bits of its number that are sent,
/// exactly if the packet is missing, is old enough and was asked for less than
/// five times. This holds of every packet from the first unsettled one to the
/// newest.
pub proof fn law_lost_packets_are_asked_for(r: RegisterView, packet: int)
    requires
        r.wf(),
        r.probation == 0,
        r.check_from <= packet <= r.max_seq,
    ensures
        asks_for(r.feedback(), packet % 0x10000) <==> {
            let status = r.statuses[crate::nack::slot(packet)];
            packet + 4 < r.max_seq && !status.received && status.nack_count < 5
        },
{
    law_feedback_is_exact(r, packet);
    if r.wanted().contains(packet) {
        lemma_wanted_is_named(r, packet);
    }
    if asks_for(r.feedback(), packet % 0x10000) {
        lemma_named_is_wanted(r, (packet % 0x10000) as u16);
        law_extension_finds_the_packet(r.max_seq, packet as u64);
    }
}

/// A feedback asks for nothing but packets of the stream: every number in it
/// leads back, from the newest packet, to a packet that is missing.
pub proof fn law_only_lost_packets_are_asked_for(r: RegisterView, n: u16)
    requires
        r.wf(),
        asks_for(r.feedback(), n as int),
    ensures
        r.probation == 0,
        ({
            let packet = crate::nack::extended(r.max_seq, n) as int;
            &&& packet % 0x10000 == n
            &&& r.check_from <= packet
            &&& packet + 4 < r.max_seq
            &&& !r.statuses[crate::nack::slot(packet)].received
            &&& r.statuses[crate::nack::slot(packet)].nack_count < 5
        }),
{
    if r.probation == 0 {
        lemma_named_is_wanted(r, n);
        law_feedback_is_exact(r, crate::nack::extended(r.max_seq, n) as int);
        law_extension_is_nearest(r.max_seq, n);
    }
}

/// The pairs of a feedback come in ascending order, and none could have been
/// part of the one before it.
pub proof fn law_pairs_ascend(packets: Seq<int>, j: int, k: int)
    requires
        ascending(packets),
        0 <= j < k < crate::nack::pairs(packets).len(),
    ensures
        crate::nack::pairs(packets)[j].0 + 16 < crate::nack::pairs(packets)[k].0,
    decreases packets.len(),
{
    let less = packets.drop_last();
    let before = crate::nack::pairs(less);
    let all = crate::nack::pairs(packets);
    if k < before.len() {
        law_pairs_ascend(less, j, k);
    } else {
        assert(all[k].0 == packets.last());
        assert(k == before.len());
        if j < k - 1 {
            law_pairs_ascend(less, j, k - 1);
        }
    }
}

/// A feedback counts one request for each packet that it asks for, and changes
/// nothing else.
pub proof fn law_feedback_counts_its_requests(r: RegisterView, packet: int)
    requires
        r.wf(),
        r.probation == 0,
        r.check_from <= packet <= r.max_seq,
    ensures
        ({
            let s = r.after_reports();
            let before = r.statuses[crate::nack::slot(packet)];
            let after = s.statuses[crate::nack::slot(packet)];
            &&& after.received == before.received
            &&& after.nack_count == before.nack_count + (if asks_for(
                r.feedback(),
                packet % 0x10000,
            ) {
                1int
            } else {
                0
            })
            &&& s.max_seq == r.max_seq
            &&& s.jump_seq == r.jump_seq
            &&& s.probation == r.probation
            &&& s.check_from == r.check_from
            &&& s.wf()
        }),
{
    law_lost_packets_are_asked_for(r, packet);
    law_feedback_is_exact(r, packet);
    lemma_after_reports_wf(r);
    if r.check_from <= r.check_up_to() {
        lemma_asked_apart(r.statuses, r.check_from as int, r.check_up_to(), packet);
    }
}

// ---------------------------------------------------------------------------
// The recorder
// ---------------------------------------------------------------------------
/// The recorder after a row of packets, each with its source and number.
pub open spec fn after_records(r: RecorderView, row: Seq<(u32, u16)>) -> RecorderView
    decreases row.len(),
{
    if row.len() == 0 {
        r
    } else {
        after_records(r, row.drop_last()).after_record(row.last().0, row.last().1)
    }
}

/// The register after the numbers of a row of packets.
pub open spec fn after_numbers(r: RegisterView, row: Seq<(u32, u16)>) -> RegisterView
    decreases row.len(),
{
    if row.len() == 0 {
        r
    } else {
        let before = after_numbers(r, row.drop_last());
        before.after_seq(before.extend(row.last().1))
    }
}

/// A recorder is the register that starts at its first number and is fed the
/// same numbers. It keeps its sender, and the source of its first packet.
pub proof fn law_recorder_is_its_register(sender_ssrc: u32, row: Seq<(u32, u16)>)
    requires
        row.len() > 0,
    ensures
        after_records(RecorderView { sender_ssrc, media_ssrc: None, register: None }, row) == (
        RecorderView {
            sender_ssrc,
            media_ssrc: Some(row[0].0),
            register: Some(after_numbers(RegisterView::starting(row[0].1), row)),
        }),
    decreases row.len(),
{
    if row.len() == 1 {
        reveal_with_fuel(after_records, 2);
        reveal_with_fuel(after_numbers, 2);
        assert(row.drop_last() =~= Seq::empty());
    } else {
        law_recorder_is_its_register(sender_ssrc, row.drop_last());
    }
}

/// A recorder of any packets gives the feedback of its register, which counts
/// the requests. A recorder of no packets gives none.
pub proof fn law_recorder_asks_for_its_register(sender_ssrc: u32, row: Seq<(u32, u16)>)
    ensures
        ({
            let new = RecorderView { sender_ssrc, media_ssrc: None, register: None };
            let r = after_records(new, row);
            if row.len() == 0 {
                r.feedback() is None && r.after_feedback() == new
            } else {
                let register = after_numbers(RegisterView::starting(row[0].1), row);
                &&& r.feedback() == register.feedback()
                &&& r.after_feedback().register == Some(register.after_reports())
                &&& r.after_feedback().sender_ssrc == sender_ssrc
                &&& r.after_feedback().media_ssrc == Some(row[0].0)
            }
        }),
{
    if row.len() > 0 {
        law_recorder_is_its_register(sender_ssrc, row);
    }
}

// ---------------------------------------------------------------------------
// Packets
// ---------------------------------------------------------------------------
/// A packet of the stream that was received is not asked for.
pub proof fn law_received_packet_is_not_asked_for(r: RegisterView, seq: u64)
    requires
        r.wf(),
        r.probation == 0,
        r.in_stream(seq),
    ensures
        !r.after_seq(seq).wanted().contains(seq as int),
{
    let s = r.after_seq(seq);
    let start = s.check_from as int;
    lemma_missing_member(s.statuses, start, s.check_up_to(), seq as int);
    if start <= seq {
        law_stream_moves_forward(r, seq);
        crate::nack::lemma_after_seq_wf(r, seq);
        crate::nack::lemma_after_record_wf(r, seq);
        crate::nack::lemma_after_record_wf(
            RegisterView { max_seq: seq, jump_seq: None, ..r },
            seq,
        );
        assert(s.statuses[crate::nack::slot(seq as int)].received);
        lemma_asked(s.statuses, start, seq as int);
    }
}

/// A number belongs to a packet of the stream if it is less than 100 behind the
/// newest packet or less than 3000 ahead of it.
pub proof fn law_range_of_the_stream(r: RegisterView, seq: u64)
    ensures
        r.in_stream(seq) <==> r.max_seq - 100 < seq < r.max_seq + 3000,
{
}

/// The number of a packet leads the register back to that packet, as long as it
/// is less than half a round away from the newest one.
pub proof fn law_numbers_lead_to_their_packets(r: RegisterView, packet: u64)
    requires
        -0x8000 < packet - r.max_seq < 0x8000,
    ensures
        r.extend((packet as int % 0x10000) as u16) == packet,
{
    law_extension_finds_the_packet(r.max_seq, packet);
}

/// Whatever number comes, the register takes it for a packet that has it, and
/// that is at most half a round away from the newest one (modulo 2^64).
pub proof fn law_register_extends_to_the_nearest(r: RegisterView, n: u16)
    ensures
        r.extend(n) == crate::nack::extended(r.max_seq, n),
        r.extend(n) as int % 0x10000 == n,
{
    law_extension_is_nearest(r.max_seq, n);
}

/// A packet of the stream is marked, unless it was settled already, and it marks
/// no packet but itself: of every other packet that is still looked at, as much
/// is known as before, and nothing of those that it left out.
pub proof fn law_packet_marks_itself_alone(r: RegisterView, seq: u64, packet: int)
    requires
        r.wf(),
        r.probation == 0,
        r.in_stream(seq),
        r.after_seq(seq).check_from <= packet <= r.after_seq(seq).max_seq,
    ensures
        ({
            let before = r.statuses[crate::nack::slot(packet)];
            let after = r.after_seq(seq).statuses[crate::nack::slot(packet)];
            &&& packet == seq ==> after.received
            &&& packet != seq && packet <= r.max_seq ==> after.received == before.received
            &&& packet != seq && packet > r.max_seq ==> !after.received
            &&& after.nack_count == (if packet <= r.max_seq {
                before.nack_count
            } else {
                0
            })
        }),
{
    law_stream_moves_forward(r, seq);
    let s = r.after_seq(seq);
    let from = s.check_from as int;
    let start = r.check_from as int;
    crate::nack::lemma_after_record_wf(r, seq);
    crate::nack::lemma_after_record_wf(
        RegisterView { max_seq: seq, jump_seq: None, ..r },
        seq,
    );
    if packet != seq {
        lemma_slots_differ(packet, seq as int);
    }
    if packet <= r.max_seq {
        assert forall|i: int| start <= i < from implies #[trigger] crate::nack::slot(i)
            != crate::nack::slot(packet) by {
            lemma_slots_differ(i, packet);
        }
    } else {
        let k = crate::nack::slot(packet);
        if crate::nack::in_slots(k, start, r.max_seq + 1) {
            let i = choose|i: int| start <= i < r.max_seq + 1 && #[trigger] crate::nack::slot(i)
                == k;
            if i >= from {
                lemma_slots_differ(i, packet);
            }
            assert(crate::nack::in_slots(k, start, from));
        } else {
            assert(r.statuses[k] == crate::nack::fresh());
        }
    }
}

/// A packet that is missing and was not given up stays missing, whatever other
/// packet of the stream comes: it is asked for as soon as it is old enough, if
/// it was not asked for five times.
pub proof fn law_lost_packet_stays_wanted(r: RegisterView, seq: u64, packet: int)
    requires
        r.wf(),
        r.probation == 0,
        r.in_stream(seq),
        packet != seq,
        r.after_seq(seq).check_from <= packet,
        packet + 4 < r.after_seq(seq).max_seq,
        packet <= r.max_seq ==> !r.statuses[crate::nack::slot(packet)].received
            && r.statuses[crate::nack::slot(packet)].nack_count < 5,
    ensures
        asks_for(r.after_seq(seq).feedback(), packet % 0x10000),
{
    law_packet_marks_itself_alone(r, seq, packet);
    crate::nack::lemma_after_seq_wf(r, seq);
    law_stream_moves_forward(r, seq);
    law_lost_packets_are_asked_for(r.after_seq(seq), packet);
}

/// A packet of the stream is received, whether it was known or not.
pub open spec fn is_received(r: RegisterView, seq: u64, packet: int) -> bool {
    packet == seq || r.statuses[crate::nack::slot(packet)].received
}

/// What settles packets: a run of at least two received ones, from the first
/// unsettled packet on and up to four packets before the newest, is settled but
/// for its last packet. Without such a run, packets are given up that are more
/// than 104 behind the newest. In any case packets are given up that are 3000
/// behind it. A packet that was settled before changes nothing.
pub proof fn law_packets_are_settled(r: RegisterView, seq: u64)
    requires
        r.wf(),
        r.probation == 0,
        r.in_stream(seq),
    ensures
        seq < r.check_from ==> r.after_seq(seq) == r,
        seq >= r.check_from ==> {
            let s = r.after_seq(seq);
            let from = r.check_from as int;
            let newest = s.max_seq as int;
            if from + 1 <= newest - 4 && is_received(r, seq, from) && is_received(r, seq, from + 1) {
                ||| {
                    &&& from < s.check_from <= newest - 4
                    &&& newest - s.check_from < 3000
                    &&& forall|i: int| from <= i <= s.check_from ==> #[trigger] is_received(r, seq, i)
                    &&& s.check_from == newest - 4 || !is_received(r, seq, s.check_from + 1)
                }
                ||| {
                    &&& s.check_from == newest - 2999
                    &&& from < newest - 2999
                    &&& exists|i: int|
                        from <= i <= newest - 2999 && !#[trigger] is_received(r, seq, i)
                }
            } else if newest - from > 104 {
                s.check_from == newest - 104
            } else {
                s.check_from == from
            }
        },
{
    law_stream_moves_forward(r, seq);
    let moved = if r.max_seq < seq {
        RegisterView { max_seq: seq, jump_seq: None, ..r }
    } else {
        r
    };
    crate::nack::lemma_after_record_wf(moved, seq);
    if r.check_from <= seq {
        let from = r.check_from as int;
        let up_to = moved.check_up_to();
        reveal_with_fuel(crate::nack::run_len, 3);
        if from <= up_to {
            lemma_run(r, seq, from, up_to);
        }
        let run = crate::nack::run_len(r.statuses, seq as int, from, up_to);
        if run >= 2 && moved.max_seq - (from + run - 1) >= 3000 {
            assert(!is_received(r, seq, from + run));
        }
    }
}

/// A run of received packets ends at a packet that is not.
proof fn lemma_run(r: RegisterView, seq: u64, from: int, up_to: int)
    requires
        from <= up_to + 1,
    ensures
        ({
            let run = crate::nack::run_len(r.statuses, seq as int, from, up_to);
            &&& 0 <= run <= up_to - from + 1
            &&& forall|i: int| from <= i < from + run ==> #[trigger] is_received(r, seq, i)
            &&& run == up_to - from + 1 || !is_received(r, seq, from + run)
        }),
    decreases up_to - from + 1,
{
    if from <= up_to && is_received(r, seq, from) {
        lemma_run(r, seq, from + 1, up_to);
    }
}

/// A packet that is known as received is not asked for later either, as long as
/// the stream is not restarted further back.
pub proof fn law_received_packet_stays_received(
    r: RegisterView,
    packet: int,
    row: Seq<Happening>,
)
    requires
        r.wf(),
        r.probation == 0,
        r.check_from <= packet <= r.max_seq,
        r.statuses[crate::nack::slot(packet)].received,
        undisturbed(r, row),
    ensures
        !after_happenings(r, row).wanted().contains(packet),
{
    lemma_stays_received(r, packet, row);
    let s = after_happenings(r, row);
    lemma_missing_member(s.statuses, s.check_from as int, s.check_up_to(), packet);
    lemma_asked(s.statuses, s.check_from as int, packet);
}

proof fn lemma_stays_received(r: RegisterView, packet: int, row: Seq<Happening>)
    requires
        r.wf(),
        r.probation == 0,
        r.check_from <= packet <= r.max_seq,
        r.statuses[crate::nack::slot(packet)].received,
        undisturbed(r, row),
    ensures
        ({
            let s = after_happenings(r, row);
            &&& s.wf()
            &&& s.probation == 0
            &&& packet <= s.max_seq
            &&& packet < s.check_from || s.statuses[crate::nack::slot(packet)].received
        }),
    decreases row.len(),
{
    if row.len() > 0 {
        let before = after_happenings(r, row.drop_last());
        lemma_stays_received(r, packet, row.drop_last());
        match row.last() {
            Happening::Feedback => {
                lemma_after_reports_wf(before);
            },
            Happening::Packet(seq) => {
                crate::nack::lemma_after_seq_wf(before, seq);
                if before.in_stream(seq) {
                    law_stream_moves_forward(before, seq);
                    let moved = RegisterView { max_seq: seq, jump_seq: None, ..before };
                    crate::nack::lemma_after_record_wf(before, seq);
                    crate::nack::lemma_after_record_wf(moved, seq);
                    let from = before.after_seq(seq).check_from as int;
                    if from <= packet {
                        assert forall|i: int|
                            before.check_from <= i < from implies #[trigger] crate::nack::slot(i)
                            != crate::nack::slot(packet) by {
                            lemma_slots_differ(i, packet);
                        }
                        assert(!crate::nack::in_slots(
                            crate::nack::slot(packet),
                            before.check_from as int,
                            from,
                        ));
                    }
                }
            },
        }
    }
}

/// A packet of the stream never moves the newest packet or the first unsettled
/// one back, and never ends the stream. All that is unsettled lies within
/// [`MAX_DROPOUT`] packets.
pub proof fn law_stream_moves_forward(r: RegisterView, seq: u64)
    requires
        r.wf(),
        r.probation == 0,
        r.in_stream(seq),
    ensures
        r.after_seq(seq).probation == 0,
        r.after_seq(seq).max_seq == (if r.max_seq < seq {
            seq
        } else {
            r.max_seq
        }),
        r.after_seq(seq).jump_seq == (if r.max_seq < seq {
            None
        } else {
            r.jump_seq
        }),
        r.check_from <= r.after_seq(seq).check_from <= r.after_seq(seq).max_seq,
        r.after_seq(seq).max_seq < r.after_seq(seq).check_from + MAX_DROPOUT,
{
    crate::nack::lemma_after_seq_wf(r, seq);
    crate::nack::lemma_after_record_wf(r, seq);
    crate::nack::lemma_after_record_wf(
        RegisterView { max_seq: seq, jump_seq: None, ..r },
        seq,
    );
}

/// Two packets in a row are enough for a stream to be trusted.
pub proof fn law_sequential_packets_end_probation(r: RegisterView, seq: u64)
    requires
        r.wf(),
        r.probation > 0,
        seq < u64::MAX,
    ensures
        MIN_SEQUENTIAL == 2,
        r.after_seq(seq).after_seq((seq + 1) as u64).probation == 0,
        r.after_seq(seq).after_seq((seq + 1) as u64).max_seq == seq + 1,
{
    let s = r.after_seq(seq);
    crate::nack::lemma_after_seq_wf(r, seq);
    if s.probation == 0 {
        law_stream_moves_forward(s, (seq + 1) as u64);
    }
}

/// A stream that starts anew knows of no packet but the one that it starts at,
/// and that one is received.
pub proof fn law_restart_forgets_the_past(r: RegisterView, seq: u64, k: int)
    requires
        0 <= k < MAX_DROPOUT,
    ensures
        r.after_init(seq).max_seq == seq,
        r.after_init(seq).check_from == seq,
        r.after_init(seq).jump_seq is None,
        r.after_init(seq).statuses[k] == (PacketStatus {
            received: k == crate::nack::slot(seq as int),
            nack_count: 0,
        }),
{
}

/// On probation a packet that follows the last one brings the stream one step
/// nearer to trust, and any other packet starts the count over at one. Either
/// way the packet is the newest, and nothing else changes before the end of the
/// probation.
pub proof fn law_probation_counts_packets_in_a_row(r: RegisterView, seq: u64)
    requires
        r.wf(),
        r.probation > 0,
    ensures
        ({
            let s = r.after_seq(seq);
            &&& s.max_seq == seq
            &&& s.probation == (if seq == r.max_seq + 1 || (seq == 0 && r.max_seq == u64::MAX) {
                r.probation - 1
            } else {
                1
            })
            &&& s.probation > 0 ==> s == (RegisterView {
                max_seq: seq,
                probation: s.probation,
                ..r
            })
            &&& s.probation == 0 ==> s.check_from == seq && s.jump_seq is None && forall|k: int|
                0 <= k < MAX_DROPOUT ==> (#[trigger] s.statuses[k]).received == (k
                    == crate::nack::slot(seq as int)) && s.statuses[k].nack_count == 0
        }),
{
}

/// A new stream is trusted once its first two packets came, and not before. It
/// then starts at the second of them.
pub proof fn law_new_stream_needs_two_packets(base: u16)
    requires
        base < u16::MAX,
    ensures
        ({
            let new = RegisterView::starting(base);
            let one = new.after_seq(new.extend(base));
            let two = one.after_seq(one.extend((base + 1) as u16));
            &&& new.wf() && one.wf() && two.wf()
            &&& new.probation > 0
            &&& one.probation > 0
            &&& one.max_seq == base
            &&& two.probation == 0
            &&& two.max_seq == base + 1
            &&& two.check_from == base + 1
            &&& two.feedback() is None
        }),
{
    let new = RegisterView::starting(base);
    let one = new.after_seq(new.extend(base));
    let two = one.after_seq(one.extend((base + 1) as u16));
    crate::nack::lemma_after_seq_wf(new, new.extend(base));
    crate::nack::lemma_after_seq_wf(one, one.extend((base + 1) as u16));
    law_feedback_spares_grace_period(two);
    if two.wanted().len() > 0 {
        assert(two.check_from <= two.wanted()[0]);
    }
}

/// A packet that confirms a jump starts the stream anew: it is the newest packet
/// and the first unsettled one, and the only one that is known.
pub proof fn law_confirmed_jump_restarts_the_stream(r: RegisterView, seq: u64, k: int)
    requires
        r.wf(),
        r.probation == 0,
        !r.in_stream(seq),
        r.jump_seq == Some(seq),
        0 <= k < MAX_DROPOUT,
    ensures
        ({
            let s = r.after_seq(seq);
            &&& s.max_seq == seq
            &&& s.check_from == seq
            &&& s.jump_seq is None
            &&& s.probation == 0
            &&& s.statuses[k].received == (k == crate::nack::slot(seq as int))
            &&& s.statuses[k].nack_count == 0
        }),
{
}

/// Only the very last extended number there is can be one too many.
pub proof fn law_only_the_last_number_exhausts(r: RegisterView, seq: u16)
    requires
        r.exhausted(seq),
    ensures
        crate::nack::extended(r.max_seq, seq) == u64::MAX,
        r.probation == 0,
        r.max_seq < u64::MAX,
{
}

/// One packet far from the stream only leaves a note; if the packet after it
/// comes next, and is far from the stream too, the stream starts anew there.
pub proof fn law_jump_needs_two_packets(r: RegisterView, seq: u64)
    requires
        r.wf(),
        r.probation == 0,
        seq < u64::MAX,
        !r.in_stream(seq),
        r.jump_seq != Some(seq),
    ensures
        r.after_seq(seq) == (RegisterView { jump_seq: Some((seq + 1) as u64), ..r }),
        !r.in_stream((seq + 1) as u64) ==> {
            let s = r.after_seq(seq).after_seq((seq + 1) as u64);
            &&& s.max_seq == seq + 1
            &&& s.check_from == seq + 1
            &&& s.jump_seq is None
            &&& s.probation == 0
            &&& s.statuses[crate::nack::slot(seq + 1)].received
        },
{
}

} // verus!
