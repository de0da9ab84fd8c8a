//! What a row of writes and reads does to a [`Buffer`](crate::buffer::Buffer).

use vstd::prelude::*;

use crate::buffer::{BufferView, ReadAction, ReadEvent, Written, CUTOFF_SIZE, MAX_SIZE, PACKET_LIMIT};
use crate::error::Error;

verus! {

// ---------------------------------------------------------------------------
// One step
// ---------------------------------------------------------------------------
/// How long some packets are together.
pub open spec fn bytes_in(packets: Seq<Seq<u8>>) -> int
    decreases packets.len(),
{
    if packets.len() == 0 {
        0
    } else {
        bytes_in(packets.drop_last()) + packets.last().len()
    }
}

/// The size of a buffer is the length of all its packets together, and each of
/// them takes up two bytes more in storage.
pub proof fn law_size_is_all_packets(b: BufferView)
    ensures
        b.size() == bytes_in(b.packets),
        b.stored_size() == bytes_in(b.packets) + 2 * b.packets.len(),
{
    lemma_sizes(b.packets);
}

proof fn lemma_sizes(packets: Seq<Seq<u8>>)
    ensures
        crate::buffer::total_len(packets) == bytes_in(packets),
        crate::buffer::framed_len(packets) == bytes_in(packets) + 2 * packets.len(),
    decreases packets.len(),
{
    if packets.len() > 0 {
        lemma_sizes(packets.drop_last());
        law_size_adds_up(packets.drop_last(), packets.last());
        assert(packets.drop_last().push(packets.last()) =~= packets);
    }
}

/// A packet of up to 65536 bytes gets into an open buffer exactly if there are
/// fewer packets than the limit of packets allows, and if all the packets and
/// this one, with two bytes each, keep to the limit of bytes, or stay below 4 MB
/// where there is none. A zero limit of packets allows any number.
pub proof fn law_limits_decide_what_is_accepted(b: BufferView, len: int)
    requires
        0 <= len,
    ensures
        len > 65536 <==> b.write_result(len) == Err::<Written, Error>(Error::ErrPacketTooBig),
        len <= 65536 && b.closed <==> b.write_result(len) == Err::<Written, Error>(
            Error::ErrBufferClosed,
        ),
        b.write_result(len) is Ok <==> {
            let stored = bytes_in(b.packets) + 2 * b.packets.len() + 2 + len;
            &&& len <= 65536
            &&& !b.closed
            &&& b.limit_count == 0 || b.packets.len() < b.limit_count
            &&& if b.limit_size == 0 {
                stored < 4 * 1024 * 1024
            } else {
                stored <= b.limit_size
            }
        },
        b.write_result(len) matches Ok(w) ==> w.len == len && w.notify == (b.waiting > 0),
        b.write_result(len) matches Err(e) ==> e == Error::ErrPacketTooBig || e
            == Error::ErrBufferClosed || e == Error::ErrBufferFull,
{
    lemma_sizes(b.packets);
}

/// An accepted packet comes last, behind all the others. Apart from that only
/// the storage, the count of writes and the waiting readers change.
pub proof fn law_accepted_packet_comes_last(b: BufferView, packet: Seq<u8>)
    requires
        b.write_result(packet.len() as int) is Ok,
    ensures
        ({
            let after = b.after_write(packet);
            &&& after.packets.len() == b.packets.len() + 1
            &&& after.packets.drop_last() == b.packets
            &&& after.packets.last() == packet
            &&& after.closed == b.closed
            &&& after.limit_count == b.limit_count
            &&& after.limit_size == b.limit_size
            &&& after.name == b.name
            &&& after.read_cnt == b.read_cnt
            &&& after.waiting <= b.waiting <= after.waiting + 1
            &&& after.waiting == b.waiting <==> b.waiting == 0
        }),
{
    assert(b.after_write(packet).packets.drop_last() =~= b.packets);
}

/// Every write is counted, and so is every read when it starts.
pub proof fn law_reads_and_writes_are_counted(b: BufferView, packet: Seq<u8>)
    ensures
        b.after_write(packet).write_cnt as int == (b.write_cnt + 1) % 0x1_0000_0000_0000_0000,
        b.after_write(packet).read_cnt == b.read_cnt,
        b.after_read(ReadEvent::Started).read_cnt as int == (b.read_cnt + 1)
            % 0x1_0000_0000_0000_0000,
        b.after_read(ReadEvent::Notified).read_cnt == b.read_cnt,
        b.after_read(ReadEvent::Started).write_cnt == b.write_cnt,
        b.after_read(ReadEvent::Notified).write_cnt == b.write_cnt,
{
}

/// A reader gets the oldest packet, byte by byte, and no other byte of its slice
/// changes. It learns how long the packet was, or that there was no room for all
/// of it. Either way that packet is gone, and the others stay.
pub proof fn law_reader_gets_the_oldest_packet(
    b: BufferView,
    event: ReadEvent,
    bytes: Seq<u8>,
    i: int,
)
    requires
        event == ReadEvent::Started || event == ReadEvent::Notified,
        b.packets.len() > 0,
        b.packets[0].len() <= usize::MAX,
    ensures
        b.read_action(event, bytes.len() as int) == (if b.packets[0].len() <= bytes.len() {
            ReadAction::Return(Ok(b.packets[0].len() as usize))
        } else {
            ReadAction::Return(Err(Error::ErrBufferShort))
        }),
        b.read_bytes(event, bytes).len() == bytes.len(),
        0 <= i < bytes.len() ==> b.read_bytes(event, bytes)[i] == (if i < b.packets[0].len() {
            b.packets[0][i]
        } else {
            bytes[i]
        }),
        seq![b.packets[0]] + b.after_read(event).packets == b.packets,
        b.after_read(event) == (BufferView {
            packets: b.after_read(event).packets,
            read_cnt: b.after_read(event).read_cnt,
            ..b
        }),
{
    assert(seq![b.packets[0]] + b.after_read(event).packets =~= b.packets);
}

/// A reader of an empty buffer gets no bytes. It is sent away if the buffer is
/// closed, and told to wait otherwise. No reader is told to wait while there is
/// a packet.
pub proof fn law_reader_waits_for_a_packet(b: BufferView, event: ReadEvent, bytes: Seq<u8>)
    requires
        event == ReadEvent::Started || event == ReadEvent::Notified,
    ensures
        b.read_action(event, bytes.len() as int) == ReadAction::Wait <==> b.packets.len() == 0
            && !b.closed,
        b.packets.len() == 0 ==> {
            &&& b.read_bytes(event, bytes) == bytes
            &&& b.closed ==> b.read_action(event, bytes.len() as int) == ReadAction::Return(
                Err(Error::ErrBufferClosed),
            )
            &&& b.after_read(event).packets == b.packets
            &&& b.after_read(event).closed == b.closed
            &&& b.after_read(event).limit_count == b.limit_count
            &&& b.after_read(event).limit_size == b.limit_size
            &&& b.after_read(event).capacity == b.capacity
            &&& b.after_read(event).name == b.name
        },
        b.packets.len() == 0 && !b.closed && b.waiting < usize::MAX ==> b.after_read(event).waiting
            == b.waiting + 1,
        b.packets.len() > 0 || b.closed ==> b.after_read(event).waiting == b.waiting,
{
}

/// A reader that waited too long is told so, gets no bytes and takes no packet.
pub proof fn law_timed_out_reader_takes_nothing(b: BufferView, bytes: Seq<u8>)
    ensures
        b.read_action(ReadEvent::TimedOut, bytes.len() as int) == ReadAction::Return(
            Err(Error::ErrTimeout),
        ),
        b.read_bytes(ReadEvent::TimedOut, bytes) == bytes,
        b.after_read(ReadEvent::TimedOut) == b,
{
}

/// A new buffer is open and empty: its first reader waits, and its first packet
/// gets in if it keeps to the limits.
pub proof fn law_new_buffer_is_empty(
    limit_count: usize,
    limit_size: usize,
    name: Seq<char>,
    len: int,
    room: int,
)
    requires
        0 <= len <= 65536,
    ensures
        ({
            let b = BufferView::empty(limit_count, limit_size, name);
            &&& b.packets.len() == 0
            &&& b.size() == 0
            &&& b.name == name
            &&& b.limit_count == limit_count
            &&& b.limit_size == limit_size
            &&& b.read_cnt == 0 && b.write_cnt == 0 && b.waiting == 0
            &&& b.read_action(ReadEvent::Started, room) == ReadAction::Wait
            &&& b.write_result(len) is Ok <==> limit_size == 0 || len + 2 <= limit_size
        }),
{
    lemma_sizes(BufferView::empty(limit_count, limit_size, name).packets);
}

/// Closing takes no packet away and lets no more in. It keeps the limits, and
/// nobody is left waiting: the first closing notifies all readers. Closing twice
/// is closing once.
pub proof fn law_closing_keeps_the_packets(b: BufferView, len: int)
    requires
        0 <= len,
    ensures
        b.after_close().packets == b.packets,
        b.after_close().write_result(len) is Err,
        b.after_close().limit_count == b.limit_count,
        b.after_close().limit_size == b.limit_size,
        b.after_close().capacity == b.capacity,
        b.after_close().name == b.name,
        b.after_close().read_cnt == b.read_cnt,
        b.after_close().write_cnt == b.write_cnt,
        b.after_close().waiting == 0,
        b.after_close().closed,
        b.after_close().after_close() == b.after_close(),
        !b.closed ==> b.close_notifies(),
        !b.after_close().close_notifies(),
{
}

/// A new limit takes no packet away and changes nothing else, whether the
/// packets keep to it or not.
pub proof fn law_new_limits_keep_the_packets(b: BufferView, limit: usize)
    ensures
        b.with_limit_count(limit).limit_count == limit,
        b.with_limit_count(limit).with_limit_count(b.limit_count) == b,
        b.with_limit_count(limit).packets == b.packets,
        b.with_limit_count(limit).limit_size == b.limit_size,
        b.with_limit_count(limit).closed == b.closed,
        b.with_limit_size(limit).limit_size == limit,
        b.with_limit_size(limit).with_limit_size(b.limit_size) == b,
        b.with_limit_size(limit).packets == b.packets,
        b.with_limit_size(limit).limit_count == b.limit_count,
        b.with_limit_size(limit).closed == b.closed,
{
}

// ---------------------------------------------------------------------------
// Rows of steps
// ---------------------------------------------------------------------------
/// The buffer after writing `packets` one by one.
pub open spec fn after_writes(b: BufferView, packets: Seq<Seq<u8>>) -> BufferView
    decreases packets.len(),
{
    if packets.len() == 0 {
        b
    } else {
        after_writes(b, packets.drop_last()).after_write(packets.last())
    }
}

/// Every one of these writes succeeds.
pub open spec fn all_accepted(b: BufferView, packets: Seq<Seq<u8>>) -> bool
    decreases packets.len(),
{
    packets.len() == 0 || (all_accepted(b, packets.drop_last()) && after_writes(
        b,
        packets.drop_last(),
    ).write_result(packets.last().len() as int) is Ok)
}

/// The buffer after `n` reads, none of which had to wait.
pub open spec fn after_reads(b: BufferView, n: nat) -> BufferView
    decreases n,
{
    if n == 0 {
        b
    } else {
        after_reads(b, (n - 1) as nat).after_read(ReadEvent::Started)
    }
}

proof fn lemma_after_reads(b: BufferView, n: nat)
    requires
        n <= b.packets.len(),
    ensures
        after_reads(b, n).packets == b.packets.skip(n as int),
        after_reads(b, n).closed == b.closed,
    decreases n,
{
    if n == 0 {
        assert(b.packets.skip(0) =~= b.packets);
    } else {
        lemma_after_reads(b, (n - 1) as nat);
        assert(b.packets.skip(n - 1).drop_first() =~= b.packets.skip(n as int));
    }
}

/// Accepted packets wait behind those that were there before, in the order of
/// the writes.
pub proof fn law_writes_queue_up(b: BufferView, packets: Seq<Seq<u8>>)
    requires
        all_accepted(b, packets),
    ensures
        after_writes(b, packets).packets == b.packets + packets,
    decreases packets.len(),
{
    if packets.len() == 0 {
        assert(b.packets + packets =~= b.packets);
    } else {
        law_writes_queue_up(b, packets.drop_last());
        assert((b.packets + packets.drop_last()).push(packets.last()) =~= b.packets + packets);
    }
}

/// Reads give back exactly what was written, packet by packet and in the order
/// of the writes: the read number `i` after any accepted writes to an empty
/// buffer returns the packet number `i`, given room for it.
pub proof fn law_reads_give_back_writes(
    b: BufferView,
    packets: Seq<Seq<u8>>,
    i: int,
    room: Seq<u8>,
)
    requires
        b.packets.len() == 0,
        all_accepted(b, packets),
        0 <= i < packets.len(),
        packets[i].len() <= room.len(),
    ensures
        ({
            let at = after_reads(after_writes(b, packets), i as nat);
            &&& at.read_action(ReadEvent::Started, room.len() as int) == ReadAction::Return(
                Ok(packets[i].len() as usize),
            )
            &&& at.read_bytes(ReadEvent::Started, room).take(packets[i].len() as int) == packets[i]
            &&& at.read_bytes(ReadEvent::Started, room).len() == room.len()
        }),
{
    law_writes_queue_up(b, packets);
    assert(b.packets + packets =~= packets);
    lemma_after_reads(after_writes(b, packets), i as nat);
    let at = after_reads(after_writes(b, packets), i as nat);
    assert(at.packets[0] == packets[i]);
    assert(at.read_bytes(ReadEvent::Started, room).take(packets[i].len() as int) =~= packets[i]);
}

/// Something that is done to a buffer.
pub enum Operation {
    Write(Seq<u8>),
    Read(ReadEvent),
    Close,
    SetLimitCount(usize),
    SetLimitSize(usize),
}

/// The buffer after `op`.
pub open spec fn after_operation(b: BufferView, op: Operation) -> BufferView {
    match op {
        Operation::Write(packet) => b.after_write(packet),
        Operation::Read(event) => b.after_read(event),
        Operation::Close => b.after_close(),
        Operation::SetLimitCount(limit) => b.with_limit_count(limit),
        Operation::SetLimitSize(limit) => b.with_limit_size(limit),
    }
}

/// The buffer after a row of operations.
pub open spec fn after_operations(b: BufferView, ops: Seq<Operation>) -> BufferView
    decreases ops.len(),
{
    if ops.len() == 0 {
        b
    } else {
        after_operation(after_operations(b, ops.drop_last()), ops.last())
    }
}

/// The packets that a row of operations put in.
pub open spec fn packets_in(b: BufferView, ops: Seq<Operation>) -> Seq<Seq<u8>>
    decreases ops.len(),
{
    if ops.len() == 0 {
        Seq::empty()
    } else {
        let earlier = packets_in(b, ops.drop_last());
        match ops.last() {
            Operation::Write(packet) => if after_operations(b, ops.drop_last()).write_result(
                packet.len() as int,
            ) is Ok {
                earlier.push(packet)
            } else {
                earlier
            },
            _ => earlier,
        }
    }
}

/// The packets that a row of operations handed out, or cut off for want of
/// room.
pub open spec fn packets_out(b: BufferView, ops: Seq<Operation>) -> Seq<Seq<u8>>
    decreases ops.len(),
{
    if ops.len() == 0 {
        Seq::empty()
    } else {
        let earlier = packets_out(b, ops.drop_last());
        let before = after_operations(b, ops.drop_last());
        match ops.last() {
            Operation::Read(event) => if event != ReadEvent::TimedOut && before.packets.len() > 0 {
                earlier.push(before.packets[0])
            } else {
                earlier
            },
            _ => earlier,
        }
    }
}

/// However writes, reads and the rest are interleaved, no packet is lost,
/// doubled, changed or overtaken: what came out, followed by what is still
/// there, is what was there at first, followed by what went in.
pub proof fn law_packets_keep_their_order(b: BufferView, ops: Seq<Operation>)
    ensures
        packets_out(b, ops) + after_operations(b, ops).packets == b.packets + packets_in(b, ops),
    decreases ops.len(),
{
    if ops.len() == 0 {
        assert(packets_out(b, ops) + b.packets =~= b.packets + packets_in(b, ops));
    } else {
        law_packets_keep_their_order(b, ops.drop_last());
        let before = after_operations(b, ops.drop_last());
        let out = packets_out(b, ops.drop_last());
        match ops.last() {
            Operation::Write(packet) => {
                assert(out + before.packets.push(packet) =~= (out + before.packets).push(packet));
                assert((b.packets + packets_in(b, ops.drop_last())).push(packet) =~= b.packets
                    + packets_in(b, ops.drop_last()).push(packet));
            },
            Operation::Read(event) => {
                if before.packets.len() > 0 {
                    assert(out.push(before.packets[0]) + before.packets.drop_first() =~= out
                        + before.packets);
                }
            },
            _ => {},
        }
    }
}

/// A refused write is counted and changes nothing else.
pub proof fn law_refused_write_changes_nothing(b: BufferView, packet: Seq<u8>)
    requires
        b.write_result(packet.len() as int) is Err,
    ensures
        b.after_write(packet) == (BufferView {
            write_cnt: b.after_write(packet).write_cnt,
            ..b
        }),
{
}

/// The bytes add up: a packet adds its own length, and takes up two bytes more
/// than that.
pub proof fn law_size_adds_up(packets: Seq<Seq<u8>>, packet: Seq<u8>)
    ensures
        crate::buffer::total_len(packets.push(packet)) == crate::buffer::total_len(packets)
            + packet.len(),
        crate::buffer::framed_len(packets.push(packet)) == crate::buffer::framed_len(packets) + 2
            + packet.len(),
    decreases packets.len(),
{
    if packets.len() == 0 {
        reveal_with_fuel(crate::buffer::framed_len, 2);
        reveal_with_fuel(crate::buffer::total_len, 2);
        assert(packets.push(packet).drop_first() =~= Seq::empty());
    } else {
        law_size_adds_up(packets.drop_first(), packet);
        assert(packets.push(packet).drop_first() =~= packets.drop_first().push(packet));
    }
}

/// No accepted write goes past a limit, nor past [`MAX_SIZE`] where there is
/// no size limit. Storage that was within its limit stays there.
pub proof fn law_limits_hold(b: BufferView, packet: Seq<u8>)
    requires
        0 <= b.capacity,
        b.write_result(packet.len() as int) is Ok,
    ensures
        b.limit_count > 0 ==> b.after_write(packet).packets.len() <= b.limit_count,
        b.limit_size > 0 ==> b.after_write(packet).stored_size() <= b.limit_size,
        b.limit_size == 0 ==> b.after_write(packet).stored_size() < MAX_SIZE,
        b.limit_size == 0 && b.capacity <= MAX_SIZE ==> b.after_write(packet).capacity <= MAX_SIZE,
        b.limit_size > 0 && b.capacity <= b.limit_size + 1 ==> b.after_write(packet).capacity
            <= b.limit_size + 1,
{
    law_size_adds_up(b.packets, packet);
    crate::buffer::lemma_grown_capacity(
        b.capacity,
        b.limit_size as int,
        b.size_with(packet.len() as int),
    );
}

/// A closed buffer accepts nothing, never makes a reader wait, and hands out
/// what it still holds before it reports that it is closed.
pub proof fn law_closed_buffer_drains(b: BufferView, packet: Seq<u8>, n: nat, room: int)
    requires
        b.closed,
        n <= b.packets.len(),
    ensures
        b.write_result(packet.len() as int) is Err,
        b.after_write(packet).packets == b.packets,
        after_reads(b, n).read_action(ReadEvent::Started, room) == (if n == b.packets.len() {
            ReadAction::Return(Err(Error::ErrBufferClosed))
        } else if b.packets[n as int].len() > room {
            ReadAction::Return(Err(Error::ErrBufferShort))
        } else {
            ReadAction::Return(Ok(b.packets[n as int].len() as usize))
        }),
{
    lemma_after_reads(b, n);
}

/// A reader that was told to wait is not forgotten: the next write that is
/// accepted asks for a notification. If nobody else waits, the write after it
/// does not.
pub proof fn law_waiting_reader_is_notified(
    b: BufferView,
    event: ReadEvent,
    room: int,
    first: Seq<u8>,
    second: Seq<u8>,
)
    requires
        b.read_action(event, room) == ReadAction::Wait,
        b.after_read(event).write_result(first.len() as int) is Ok,
        b.after_read(event).after_write(first).write_result(second.len() as int) is Ok,
    ensures
        b.after_read(event).write_result(first.len() as int) == Ok::<Written, Error>(
            Written { len: first.len() as usize, notify: true },
        ),
        b.waiting == 0 ==> b.after_read(event).after_write(first).write_result(
            second.len() as int,
        ) == Ok::<Written, Error>(Written { len: second.len() as usize, notify: false }),
{
}

/// After two readers were told to wait, two accepted writes both ask for a
/// notification.
pub proof fn law_two_waiting_readers_are_notified(
    b: BufferView,
    events: (ReadEvent, ReadEvent),
    rooms: (int, int),
    first: Seq<u8>,
    second: Seq<u8>,
)
    requires
        b.read_action(events.0, rooms.0) == ReadAction::Wait,
        b.after_read(events.0).read_action(events.1, rooms.1) == ReadAction::Wait,
        b.after_read(events.0).after_read(events.1).write_result(first.len() as int) is Ok,
        b.after_read(events.0).after_read(events.1).after_write(first).write_result(
            second.len() as int,
        ) is Ok,
    ensures
        ({
            let waiting = b.after_read(events.0).after_read(events.1);
            &&& waiting.write_result(first.len() as int) == Ok::<Written, Error>(
                Written { len: first.len() as usize, notify: true },
            )
            &&& waiting.after_write(first).write_result(second.len() as int) == Ok::<
                Written,
                Error,
            >(Written { len: second.len() as usize, notify: true })
        }),
{
}

/// How many steps of a row told a reader to wait.
pub open spec fn waits(b: BufferView, ops: Seq<Operation>) -> nat
    decreases ops.len(),
{
    if ops.len() == 0 {
        0
    } else {
        let before = after_operations(b, ops.drop_last());
        waits(b, ops.drop_last()) + match ops.last() {
            Operation::Read(event) => if before.read_action(event, 0) == ReadAction::Wait {
                1nat
            } else {
                0
            },
            _ => 0,
        }
    }
}

/// How many steps of a row asked for a notification of one reader.
pub open spec fn notifications(b: BufferView, ops: Seq<Operation>) -> nat
    decreases ops.len(),
{
    if ops.len() == 0 {
        0
    } else {
        let before = after_operations(b, ops.drop_last());
        notifications(b, ops.drop_last()) + match ops.last() {
            Operation::Write(packet) => if before.write_result(packet.len() as int) matches Ok(w)
                && w.notify {
                1nat
            } else {
                0
            },
            _ => 0,
        }
    }
}

/// However waits, writes and the rest are interleaved, an accepted write asks
/// for a notification exactly if more readers were told to wait than were
/// notified, as long as the buffer stays open.
pub proof fn law_no_waiting_reader_is_forgotten(
    b: BufferView,
    ops: Seq<Operation>,
    packet: Seq<u8>,
)
    requires
        b.waiting + ops.len() <= usize::MAX,
        !after_operations(b, ops).closed,
    ensures
        after_operations(b, ops).waiting == b.waiting + waits(b, ops) - notifications(b, ops),
        after_operations(b, ops).write_result(packet.len() as int) matches Ok(w) ==> (w.notify
            <==> b.waiting + waits(b, ops) > notifications(b, ops)),
    decreases ops.len(),
{
    if ops.len() > 0 {
        law_no_waiting_reader_is_forgotten(b, ops.drop_last(), packet);
        lemma_waits_bounded(b, ops.drop_last());
    }
}

proof fn lemma_waits_bounded(b: BufferView, ops: Seq<Operation>)
    ensures
        waits(b, ops) <= ops.len(),
    decreases ops.len(),
{
    if ops.len() > 0 {
        lemma_waits_bounded(b, ops.drop_last());
    }
}

/// No write can overflow the size of the storage as long as that is at most an
/// eighth of the address range and the size limit is not `usize::MAX`.
pub proof fn law_growth_in_range(b: BufferView, len: int)
    requires
        0 <= len <= PACKET_LIMIT,
        0 <= b.stored_size() <= b.capacity <= usize::MAX / 8,
        b.limit_size < usize::MAX,
    ensures
        !b.write_overflows(len),
{
    reveal_with_fuel(crate::buffer::growth_overflows, 16);
    assert(usize::MAX >= 0xffff_ffff);
    assert(CUTOFF_SIZE == 131072);
}

} // verus!
