//! A ring buffer that keeps the boundaries of the packets written to it.
//!
//! Packets are stored back to back, each behind a two-byte big-endian length,
//! so that every read gives back exactly one write. The longest packet there may
//! be has a length that two bytes cannot hold: its length reads as zero, and it
//! is told apart from an empty packet by a mark beside the ring.

use std::collections::VecDeque;

use vstd::prelude::*;

use crate::error::Error;

verus! {

/// Smallest storage that is ever allocated.
pub const MIN_SIZE: usize = 2048;

/// Below this size the storage doubles, from it on it grows by a quarter.
pub const CUTOFF_SIZE: usize = 128 * 1024;

/// Largest storage of a buffer without a size limit.
pub const MAX_SIZE: usize = 4 * 1024 * 1024;

/// Length of the longest packet.
pub const PACKET_LIMIT: usize = 0x10000;

// ---------------------------------------------------------------------------
// The stored format
// ---------------------------------------------------------------------------
/// The length that a frame's first two bytes announce, given whether it is the
/// longest there may be.
pub open spec fn frame_len(bytes: Seq<u8>, long: bool) -> int {
    if long {
        PACKET_LIMIT as int
    } else {
        bytes[0] * 256 + bytes[1]
    }
}

/// A packet as it is stored: the low 16 bits of its length, high byte first,
/// then its bytes.
pub open spec fn frame(packet: Seq<u8>) -> Seq<u8> {
    seq![(packet.len() / 256 % 256) as u8, (packet.len() % 256) as u8] + packet
}

/// Whether `bytes` is a row of complete frames, with `long` telling which of
/// them are the longest there may be.
pub open spec fn well_framed(bytes: Seq<u8>, long: Seq<bool>) -> bool
    decreases long.len(),
{
    if long.len() == 0 {
        bytes.len() == 0
    } else {
        &&& bytes.len() >= 2
        &&& bytes.len() >= 2 + frame_len(bytes, long[0])
        &&& well_framed(bytes.skip(2 + frame_len(bytes, long[0])), long.drop_first())
    }
}

/// The packets in a row of frames, oldest first.
pub open spec fn frames(bytes: Seq<u8>, long: Seq<bool>) -> Seq<Seq<u8>>
    decreases long.len(),
{
    if long.len() == 0 {
        Seq::empty()
    } else {
        let n = frame_len(bytes, long[0]);
        seq![bytes.subrange(2, 2 + n)] + frames(bytes.skip(2 + n), long.drop_first())
    }
}

/// The bytes that `packets` take up, the length prefixes among them.
pub open spec fn framed_len(packets: Seq<Seq<u8>>) -> int
    decreases packets.len(),
{
    if packets.len() == 0 {
        0
    } else {
        2 + packets[0].len() + framed_len(packets.drop_first())
    }
}

/// The bytes of `packets` themselves.
pub open spec fn total_len(packets: Seq<Seq<u8>>) -> int
    decreases packets.len(),
{
    if packets.len() == 0 {
        0
    } else {
        packets[0].len() + total_len(packets.drop_first())
    }
}

/// Each packet takes up two bytes besides its own.
proof fn lemma_prefixes(packets: Seq<Seq<u8>>)
    ensures
        framed_len(packets) == total_len(packets) + 2 * packets.len(),
        total_len(packets) >= 0,
    decreases packets.len(),
{
    if packets.len() > 0 {
        lemma_prefixes(packets.drop_first());
    }
}

proof fn lemma_frame_len(packet: Seq<u8>, rest: Seq<u8>)
    requires
        packet.len() <= PACKET_LIMIT,
    ensures
        frame_len(frame(packet) + rest, packet.len() == PACKET_LIMIT) == packet.len(),
        (frame(packet) + rest).skip(2 + packet.len() as int) == rest,
        (frame(packet) + rest).subrange(2, 2 + packet.len() as int) == packet,
{
    let bytes = frame(packet) + rest;
    assert(bytes[0] == (packet.len() / 256 % 256) as u8);
    assert(bytes[1] == (packet.len() % 256) as u8);
    assert(bytes.skip(2 + packet.len() as int) =~= rest);
    assert(bytes.subrange(2, 2 + packet.len() as int) =~= packet);
}

/// Appending a frame appends its packet.
proof fn lemma_frames_push(bytes: Seq<u8>, long: Seq<bool>, packet: Seq<u8>)
    requires
        well_framed(bytes, long),
        packet.len() <= PACKET_LIMIT,
    ensures
        well_framed(bytes + frame(packet), long.push(packet.len() == PACKET_LIMIT)),
        frames(bytes + frame(packet), long.push(packet.len() == PACKET_LIMIT)) == frames(
            bytes,
            long,
        ).push(packet),
    decreases long.len(),
{
    let all = bytes + frame(packet);
    let marks = long.push(packet.len() == PACKET_LIMIT);
    if long.len() == 0 {
        assert(all =~= frame(packet) + Seq::<u8>::empty());
        lemma_frame_len(packet, Seq::empty());
        assert(marks.drop_first() =~= Seq::empty());
        reveal_with_fuel(well_framed, 2);
        reveal_with_fuel(frames, 2);
        assert(frames(all, marks) =~= seq![packet]);
        assert(frames(bytes, long) =~= Seq::empty());
        assert(frames(all, marks) =~= frames(bytes, long).push(packet));
    } else {
        let n = frame_len(bytes, long[0]);
        assert(frame_len(all, marks[0]) == n);
        assert(all.skip(2 + n) =~= bytes.skip(2 + n) + frame(packet));
        assert(all.subrange(2, 2 + n) =~= bytes.subrange(2, 2 + n));
        assert(marks.drop_first() =~= long.drop_first().push(packet.len() == PACKET_LIMIT));
        lemma_frames_push(bytes.skip(2 + n), long.drop_first(), packet);
        assert(frames(all, marks) =~= frames(bytes, long).push(packet));
    }
}

/// The frames take up exactly the stored bytes, and none is too long.
proof fn lemma_framed_len(bytes: Seq<u8>, long: Seq<bool>)
    requires
        well_framed(bytes, long),
    ensures
        framed_len(frames(bytes, long)) == bytes.len(),
        frames(bytes, long).len() == long.len(),
        long.len() * 2 <= bytes.len(),
        bytes.len() > 0 ==> long.len() > 0,
        forall|k: int|
            0 <= k < long.len() ==> (#[trigger] frames(bytes, long)[k]).len() <= PACKET_LIMIT,
    decreases long.len(),
{
    if long.len() > 0 {
        let rest = bytes.skip(2 + frame_len(bytes, long[0]));
        lemma_framed_len(rest, long.drop_first());
        assert(frames(bytes, long).drop_first() =~= frames(rest, long.drop_first()));
        assert(forall|k: int|
            0 < k < long.len() ==> #[trigger] frames(bytes, long)[k] == frames(
                rest,
                long.drop_first(),
            )[k - 1]);
    }
}

// ---------------------------------------------------------------------------
// Growth of the storage
// ---------------------------------------------------------------------------
/// The size that storage of `capacity` bytes grows to. No growth is possible
/// when this is not more than `capacity`.
pub open spec fn next_capacity(capacity: int, limit_size: int) -> int {
    let grown = if capacity < CUTOFF_SIZE {
        2 * capacity
    } else {
        5 * capacity / 4
    };
    let enough = if grown < MIN_SIZE {
        MIN_SIZE as int
    } else {
        grown
    };
    if limit_size == 0 {
        if enough > MAX_SIZE {
            MAX_SIZE as int
        } else {
            enough
        }
    } else if enough > limit_size + 1 {
        limit_size + 1
    } else {
        enough
    }
}

/// Whether one growth step leaves the range of `usize`.
pub open spec fn step_overflows(capacity: int, limit_size: int) -> bool {
    limit_size == usize::MAX || (capacity >= CUTOFF_SIZE && 5 * capacity > usize::MAX)
}

/// The size that storage of `capacity` bytes grows to.
fn next_size(capacity: usize, limit_size: usize) -> (newsize: usize)
    requires
        !step_overflows(capacity as int, limit_size as int),
    ensures
        newsize == next_capacity(capacity as int, limit_size as int),
{
    let mut newsize: usize = if capacity < CUTOFF_SIZE {
        2 * capacity
    } else {
        5 * capacity / 4
    };
    if newsize < MIN_SIZE {
        newsize = MIN_SIZE;
    }
    if limit_size == 0 && newsize > MAX_SIZE {
        newsize = MAX_SIZE;
    }
    // one byte slack
    if limit_size > 0 && newsize > limit_size + 1 {
        newsize = limit_size + 1;
    }
    newsize
}

/// The storage after it grew until more than `need` bytes fit, or until it
/// could grow no more.
pub open spec fn grown_capacity(capacity: int, limit_size: int, need: int) -> int
    decreases
            (if need < capacity {
                0
            } else {
                need - capacity + 1
            }),
{
    if need < capacity || next_capacity(capacity, limit_size) <= capacity {
        capacity
    } else {
        grown_capacity(next_capacity(capacity, limit_size), limit_size, need)
    }
}

/// Whether growing until more than `need` bytes fit leaves the range of
/// `usize` on the way.
pub open spec fn growth_overflows(capacity: int, limit_size: int, need: int) -> bool
    decreases
            (if need < capacity {
                0
            } else {
                need - capacity + 1
            }),
{
    need >= capacity && (step_overflows(capacity, limit_size) || (next_capacity(
        capacity,
        limit_size,
    ) > capacity && growth_overflows(next_capacity(capacity, limit_size), limit_size, need)))
}

/// Tells whether growing until more than `need` bytes fit leaves the range of
/// `usize` on the way.
fn growing_overflows(capacity: usize, limit_size: usize, need: usize) -> (b: bool)
    ensures
        b == growth_overflows(capacity as int, limit_size as int, need as int),
    decreases
            (if need < capacity {
                0
            } else {
                need - capacity + 1
            }),
{
    if need < capacity {
        return false;
    }
    if limit_size == usize::MAX || (capacity >= CUTOFF_SIZE && capacity > usize::MAX / 5) {
        return true;
    }
    let next: usize = next_size(capacity, limit_size);
    next > capacity && growing_overflows(next, limit_size, need)
}

/// Where the growth ends: a size limit that admits the packet always leaves
/// room for it, and without a limit the storage stops at [`MAX_SIZE`].
pub proof fn lemma_grown_capacity(capacity: int, limit_size: int, need: int)
    requires
        0 <= capacity,
        0 <= limit_size,
        limit_size > 0 ==> need <= limit_size,
    ensures
        grown_capacity(capacity, limit_size, need) >= capacity,
        need < grown_capacity(capacity, limit_size, need) <==> (limit_size > 0 || need < MAX_SIZE
            || need < capacity),
        limit_size == 0 && capacity <= MAX_SIZE ==> grown_capacity(capacity, limit_size, need)
            <= MAX_SIZE,
        limit_size > 0 && capacity <= limit_size + 1 ==> grown_capacity(capacity, limit_size, need)
            <= limit_size + 1,
    decreases
            (if need < capacity {
                0
            } else {
                need - capacity + 1
            }),
{
    if need >= capacity && next_capacity(capacity, limit_size) > capacity {
        lemma_grown_capacity(next_capacity(capacity, limit_size), limit_size, need);
    }
}

// ---------------------------------------------------------------------------
// The ring
// ---------------------------------------------------------------------------
/// Ring storage of the packets, with the flags and limits of the buffer.
#[derive(Debug)]
pub struct BufferInternal {
    data: Vec<u8>,
    head: usize,
    tail: usize,
    closed: bool,
    waiting: usize,
    count: usize,
    long: VecDeque<bool>,
    limit_count: usize,
    limit_size: usize,
}

impl BufferInternal {
    /// The stored bytes, oldest first. `head == tail` means that there are
    /// none.
    pub closed spec fn stored(&self) -> Seq<u8> {
        if self.head <= self.tail {
            self.data@.subrange(self.head as int, self.tail as int)
        } else {
            self.data@.skip(self.head as int) + self.data@.take(self.tail as int)
        }
    }

    /// Both ends lie inside the storage.
    closed spec fn ring_wf(&self) -> bool {
        &&& self.data@.len() <= isize::MAX
        &&& if self.data@.len() == 0 {
            self.head == 0 && self.tail == 0
        } else {
            self.head < self.data@.len() && self.tail < self.data@.len()
        }
    }

    /// The stored bytes are complete frames, the counter counts them, and
    /// nobody waits for a closed buffer.
    pub closed spec fn wf(&self) -> bool {
        &&& self.ring_wf()
        &&& self.closed ==> self.waiting == 0
        &&& well_framed(self.stored(), self.long@)
        &&& self.count == self.long@.len()
    }

    /// Everything but the bytes and the two ends of the ring.
    closed spec fn same_flags(&self, other: &Self) -> bool {
        &&& self.closed == other.closed
        &&& self.waiting == other.waiting
        &&& self.count == other.count
        &&& self.long == other.long
        &&& self.limit_count == other.limit_count
        &&& self.limit_size == other.limit_size
    }

    /// Whether a packet of `size` bytes fits behind its length. One byte
    /// always stays free, since equal ends mean that the ring is empty.
    fn available(&self, size: usize) -> (fits: bool)
        requires
            self.ring_wf(),
            size + 2 <= isize::MAX,
        ensures
            fits == (self.stored().len() + size + 2 < self.data@.len()),
    {
        let mut available: isize = self.head as isize - self.tail as isize;
        if available <= 0 {
            available += self.data.len() as isize;
        }
        size as isize + 2 < available
    }

    /// Number of stored bytes, the length prefixes among them.
    fn size(&self) -> (n: usize)
        requires
            self.ring_wf(),
        ensures
            n == self.stored().len(),
    {
        let mut size: isize = self.tail as isize - self.head as isize;
        if size < 0 {
            size += self.data.len() as isize;
        }
        size as usize
    }

    /// New storage of `newsize` bytes with the stored ones at its front.
    fn unrolled(&self, newsize: usize) -> (newdata: Vec<u8>)
        requires
            self.ring_wf(),
            newsize > self.data@.len(),
        ensures
            newdata@.len() == newsize,
            newdata@.take(self.stored().len() as int) == self.stored(),
    {
        let mut newdata: Vec<u8> = vec![0u8; newsize];
        if self.head <= self.tail {
            // data was contiguous
            let n: usize = self.tail - self.head;
            copy_bytes(newdata.as_mut_slice(), 0, &self.data, self.head, n);
        } else {
            // data was discontiguous
            let n: usize = self.data.len() - self.head;
            copy_bytes(newdata.as_mut_slice(), 0, &self.data, self.head, n);
            copy_bytes(newdata.as_mut_slice(), n, &self.data, 0, self.tail);
        }
        assert(newdata@.take(self.stored().len() as int) =~= self.stored());
        newdata
    }

    /// Enlarges the storage, or reports that a limit was reached.
    fn grow(&mut self) -> (r: Result<(), Error>)
        requires
            old(self).ring_wf(),
            !step_overflows(old(self).data@.len() as int, old(self).limit_size as int),
        ensures
            final(self).ring_wf(),
            final(self).stored() == old(self).stored(),
            final(self).same_flags(old(self)),
            match r {
                Ok(()) => {
                    &&& next_capacity(old(self).data@.len() as int, old(self).limit_size as int)
                        > old(self).data@.len()
                    &&& final(self).data@.len() == next_capacity(
                        old(self).data@.len() as int,
                        old(self).limit_size as int,
                    )
                    &&& final(self).head == 0
                    &&& final(self).tail == old(self).stored().len()
                },
                Err(e) => {
                    &&& e == Error::ErrBufferFull
                    &&& next_capacity(old(self).data@.len() as int, old(self).limit_size as int)
                        <= old(self).data@.len()
                    &&& *final(self) == *old(self)
                },
            },
    {
        let newsize: usize = next_size(self.data.len(), self.limit_size);
        if newsize <= self.data.len() {
            return Err(Error::ErrBufferFull);
        }
        let n: usize = self.size();
        let newdata: Vec<u8> = self.unrolled(newsize);
        let ghost kept = self.stored();
        self.head = 0;
        self.tail = n;
        self.data = newdata;
        assert(self.stored() =~= kept);
        Ok(())
    }

    /// Puts one byte behind the newest.
    fn put_byte(&mut self, byte: u8)
        requires
            old(self).ring_wf(),
            old(self).stored().len() + 1 < old(self).data@.len(),
        ensures
            final(self).ring_wf(),
            final(self).stored() == old(self).stored().push(byte),
            final(self).data@.len() == old(self).data@.len(),
            final(self).same_flags(old(self)),
    {
        let tail: usize = self.tail;
        self.data[tail] = byte;
        self.tail += 1;
        if self.tail >= self.data.len() {
            self.tail = 0;
        }
        assert(self.stored() =~= old(self).stored().push(byte));
    }

    /// Puts `packet` behind the newest byte, wrapping around at the end of the
    /// storage.
    fn put_packet(&mut self, packet: &[u8])
        requires
            old(self).ring_wf(),
            old(self).stored().len() + packet@.len() < old(self).data@.len(),
        ensures
            final(self).ring_wf(),
            final(self).stored() == old(self).stored() + packet@,
            final(self).data@.len() == old(self).data@.len(),
            final(self).same_flags(old(self)),
    {
        let len: usize = self.data.len();
        let room: usize = len - self.tail;
        let n: usize = if packet.len() < room {
            packet.len()
        } else {
            room
        };
        let tail: usize = self.tail;
        copy_bytes(self.data.as_mut_slice(), tail, packet, 0, n);
        self.tail += n;
        if self.tail >= len {
            // we reached the end, wrap around
            let m: usize = packet.len() - n;
            copy_bytes(self.data.as_mut_slice(), 0, packet, n, m);
            self.tail = m;
        }
        assert(self.stored() =~= old(self).stored() + packet@);
    }

    /// Takes the oldest byte.
    fn take_byte(&mut self) -> (byte: u8)
        requires
            old(self).ring_wf(),
            old(self).stored().len() > 0,
        ensures
            final(self).ring_wf(),
            byte == old(self).stored()[0],
            final(self).stored() == old(self).stored().skip(1),
            final(self).data@ == old(self).data@,
            final(self).same_flags(old(self)),
    {
        let byte: u8 = self.data[self.head];
        self.head += 1;
        if self.head >= self.data.len() {
            self.head = 0;
        }
        assert(self.stored() =~= old(self).stored().skip(1));
        byte
    }

    /// Copies the `copied` oldest bytes over the front of `packet`.
    fn copy_out(&self, packet: &mut [u8], copied: usize)
        requires
            self.ring_wf(),
            copied <= self.stored().len(),
            copied <= old(packet)@.len(),
        ensures
            final(packet)@ == self.stored().take(copied as int) + old(packet)@.skip(
                copied as int,
            ),
    {
        if copied < self.data.len() - self.head {
            copy_bytes(packet, 0, &self.data, self.head, copied);
        } else {
            let k: usize = self.data.len() - self.head;
            copy_bytes(packet, 0, &self.data, self.head, k);
            copy_bytes(packet, k, &self.data, 0, copied - k);
        }
        assert(packet@ =~= self.stored().take(copied as int) + old(packet)@.skip(copied as int));
    }

    /// Drops the `n` oldest bytes.
    fn skip_bytes(&mut self, n: usize)
        requires
            old(self).ring_wf(),
            n <= old(self).stored().len(),
        ensures
            final(self).ring_wf(),
            final(self).stored() == old(self).stored().skip(n as int),
            final(self).data@ == old(self).data@,
            final(self).same_flags(old(self)),
    {
        self.head += n;
        if self.head >= self.data.len() {
            self.head -= self.data.len();
        }
        if self.head == self.tail {
            // the buffer is empty, reset to beginning
            // in order to improve cache locality.
            self.head = 0;
            self.tail = 0;
        }
        assert(self.stored() =~= old(self).stored().skip(n as int));
    }
}

/// Copies `n` bytes of `src`, from `from` on, over those of `dst`, from `at` on.
fn copy_bytes(dst: &mut [u8], at: usize, src: &[u8], from: usize, n: usize)
    requires
        at + n <= old(dst)@.len(),
        from + n <= src@.len(),
    ensures
        final(dst)@ == old(dst)@.take(at as int) + src@.subrange(from as int, from + n)
            + old(dst)@.skip(at + n),
{
    assert(at + n <= dst.len() && from + n <= src.len());
    let mut i: usize = 0;
    while i < n
        invariant
            i <= n,
            at + n <= old(dst)@.len() <= usize::MAX,
            from + n <= src@.len() <= usize::MAX,
            dst@ == old(dst)@.take(at as int) + src@.subrange(from as int, from + i)
                + old(dst)@.skip(at + i),
        decreases n - i,
    {
        dst[at + i] = src[from + i];
        i += 1;
        assert(dst@ =~= old(dst)@.take(at as int) + src@.subrange(from as int, from + i) + old(
            dst,
        )@.skip(at + i));
    }
}

// ---------------------------------------------------------------------------
// The buffer
// ---------------------------------------------------------------------------
/// What a [`Buffer`] is, apart from how its ring is laid out.
#[verifier::ext_equal]
pub struct BufferView {
    /// The packets that were written and not yet read, oldest first.
    pub packets: Seq<Seq<u8>>,
    /// No more packets are accepted.
    pub closed: bool,
    /// Readers that were told to wait and not notified since, up to
    /// `usize::MAX`.
    pub waiting: usize,
    /// Greatest number of packets, or 0 for no limit.
    pub limit_count: usize,
    /// Greatest number of stored bytes, or 0 for the default.
    pub limit_size: usize,
    /// Size of the storage.
    pub capacity: int,
    /// Label of the buffer.
    pub name: Seq<char>,
    /// Number of reads that were started, modulo 2^64.
    pub read_cnt: u64,
    /// Number of writes that were started, modulo 2^64.
    pub write_cnt: u64,
}

/// What a successful write asks its caller to do.
#[derive(Clone, Copy, Debug, PartialEq, Eq, Structural)]
pub struct Written {
    /// Number of bytes that were written.
    pub len: usize,
    /// Whether one waiting reader is to be notified.
    pub notify: bool,
}

/// Why a read goes on.
#[derive(Clone, Copy, Debug, PartialEq, Eq, Structural)]
pub enum ReadEvent {
    /// The read begins.
    Started,
    /// The reader waited and was notified.
    Notified,
    /// The reader waited as long as it was told to.
    TimedOut,
}

/// What a read asks its caller to do.
#[derive(Clone, Copy, Debug, PartialEq, Eq)]
pub enum ReadAction {
    /// The read is over, with this result.
    Return(Result<usize, Error>),
    /// Wait for a notification, then go on.
    Wait,
}

impl BufferView {
    /// A new buffer.
    pub open spec fn empty(limit_count: usize, limit_size: usize, name: Seq<char>) -> BufferView {
        BufferView {
            packets: Seq::empty(),
            closed: false,
            waiting: 0,
            limit_count,
            limit_size,
            capacity: 0,
            name,
            read_cnt: 0,
            write_cnt: 0,
        }
    }

    /// Whether closing the buffer notifies all the waiting readers.
    pub open spec fn close_notifies(self) -> bool {
        !self.closed
    }

    /// The buffer after it was closed.
    pub open spec fn after_close(self) -> BufferView {
        BufferView { closed: true, waiting: 0, ..self }
    }

    /// The buffer with another limit of packets.
    pub open spec fn with_limit_count(self, limit_count: usize) -> BufferView {
        BufferView { limit_count, ..self }
    }

    /// The buffer with another limit of bytes.
    pub open spec fn with_limit_size(self, limit_size: usize) -> BufferView {
        BufferView { limit_size, ..self }
    }

    /// Number of bytes in the packets.
    pub open spec fn size(self) -> int {
        total_len(self.packets)
    }

    /// Number of stored bytes, the length prefixes among them.
    pub open spec fn stored_size(self) -> int {
        framed_len(self.packets)
    }

    /// Bytes in storage once a packet of `len` bytes joins the others.
    pub open spec fn size_with(self, len: int) -> int {
        self.stored_size() + 2 + len
    }

    /// A limit that was set keeps out a packet of `len` bytes.
    pub open spec fn over_limit(self, len: int) -> bool {
        ||| self.limit_count > 0 && self.packets.len() >= self.limit_count
        ||| self.limit_size > 0 && self.size_with(len) > self.limit_size
    }

    /// Without a size limit the packets have to fit in [`MAX_SIZE`] bytes, one
    /// of which stays free.
    pub open spec fn over_storage(self, len: int) -> bool {
        self.limit_size == 0 && self.size_with(len) >= MAX_SIZE
    }

    /// A write of `len` bytes gets as far as looking for storage.
    pub open spec fn seeks_storage(self, len: int) -> bool {
        len <= PACKET_LIMIT && !self.closed && !self.over_limit(len) && !self.over_storage(len)
    }

    /// A write of `len` bytes would grow the storage beyond the range of
    /// `usize`.
    pub open spec fn write_overflows(self, len: int) -> bool {
        self.seeks_storage(len) && growth_overflows(
            self.capacity,
            self.limit_size as int,
            self.size_with(len),
        )
    }

    /// What a write of `len` bytes returns.
    pub open spec fn write_result(self, len: int) -> Result<Written, Error> {
        if len > PACKET_LIMIT {
            Err(Error::ErrPacketTooBig)
        } else if self.closed {
            Err(Error::ErrBufferClosed)
        } else if self.over_limit(len) || self.over_storage(len) {
            Err(Error::ErrBufferFull)
        } else {
            Ok(Written { len: len as usize, notify: self.waiting > 0 })
        }
    }

    /// The buffer after a write of `packet`.
    pub open spec fn after_write(self, packet: Seq<u8>) -> BufferView {
        let counted = BufferView { write_cnt: wrapping_next(self.write_cnt), ..self };
        let len = packet.len() as int;
        if !self.seeks_storage(len) {
            counted
        } else {
            BufferView {
                packets: self.packets.push(packet),
                capacity: grown_capacity(
                    self.capacity,
                    self.limit_size as int,
                    self.size_with(len),
                ),
                waiting: if self.waiting > 0 {
                    (self.waiting - 1) as usize
                } else {
                    0
                },
                ..counted
            }
        }
    }

    /// What one step of a read into `room` bytes asks for.
    pub open spec fn read_action(self, event: ReadEvent, room: int) -> ReadAction {
        if event == ReadEvent::TimedOut {
            ReadAction::Return(Err(Error::ErrTimeout))
        } else if self.packets.len() > 0 {
            if self.packets[0].len() > room {
                ReadAction::Return(Err(Error::ErrBufferShort))
            } else {
                ReadAction::Return(Ok(self.packets[0].len() as usize))
            }
        } else if self.closed {
            ReadAction::Return(Err(Error::ErrBufferClosed))
        } else {
            ReadAction::Wait
        }
    }

    /// The buffer after one step of a read.
    pub open spec fn after_read(self, event: ReadEvent) -> BufferView {
        let counted = if event == ReadEvent::Started {
            BufferView { read_cnt: wrapping_next(self.read_cnt), ..self }
        } else {
            self
        };
        if event == ReadEvent::TimedOut {
            counted
        } else if self.packets.len() > 0 {
            BufferView { packets: self.packets.drop_first(), ..counted }
        } else if self.closed {
            counted
        } else {
            BufferView {
                waiting: if self.waiting < usize::MAX {
                    (self.waiting + 1) as usize
                } else {
                    usize::MAX
                },
                ..counted
            }
        }
    }

    /// The reader's bytes after one step of a read: the front of the oldest
    /// packet, as far as there is room for it, over the old bytes.
    pub open spec fn read_bytes(self, event: ReadEvent, bytes: Seq<u8>) -> Seq<u8> {
        if event == ReadEvent::TimedOut || self.packets.len() == 0 {
            bytes
        } else if self.packets[0].len() > bytes.len() {
            self.packets[0].take(bytes.len() as int)
        } else {
            self.packets[0] + bytes.skip(self.packets[0].len() as int)
        }
    }
}

/// The counter value after `n`.
pub open spec fn wrapping_next(n: u64) -> u64 {
    if n == u64::MAX {
        0
    } else {
        (n + 1) as u64
    }
}

/// Buffer of packets between a writer and its readers.
#[derive(Debug)]
pub struct Buffer {
    buffer: BufferInternal,
    name: &'static str,
    read_cnt: u64,
    write_cnt: u64,
}

impl View for Buffer {
    type V = BufferView;

    closed spec fn view(&self) -> BufferView {
        BufferView {
            packets: frames(self.buffer.stored(), self.buffer.long@),
            closed: self.buffer.closed,
            waiting: self.buffer.waiting,
            limit_count: self.buffer.limit_count,
            limit_size: self.buffer.limit_size,
            capacity: self.buffer.data@.len() as int,
            name: self.name@,
            read_cnt: self.read_cnt,
            write_cnt: self.write_cnt,
        }
    }
}

impl Buffer {
    /// The ring holds complete packets, and the counter counts them.
    pub closed spec fn wf(&self) -> bool {
        self.buffer.wf()
    }

    /// The storage is large enough for the packets, with a byte to spare, and
    /// no packet is longer than [`PACKET_LIMIT`].
    pub proof fn law_storage_holds_the_packets(&self)
        requires
            self.wf(),
        ensures
            0 <= self@.stored_size() <= self@.capacity,
            self@.stored_size() == self@.capacity ==> self@.capacity == 0,
            self@.stored_size() == self@.size() + 2 * self@.packets.len(),
            self@.capacity <= isize::MAX,
            forall|k: int|
                0 <= k < self@.packets.len() ==> (#[trigger] self@.packets[k]).len()
                    <= PACKET_LIMIT,
    {
        lemma_framed_len(self.buffer.stored(), self.buffer.long@);
        lemma_prefixes(self@.packets);
    }

    /// An empty, open buffer.
    pub fn new(limit_count: usize, limit_size: usize, name: &'static str) -> (b: Self)
        ensures
            b.wf(),
            b@ == BufferView::empty(limit_count, limit_size, name@),
    {
        let b: Buffer = Buffer {
            buffer: BufferInternal {
                data: Vec::new(),
                head: 0,
                tail: 0,
                closed: false,
                waiting: 0,
                count: 0,
                long: VecDeque::new(),
                limit_count,
                limit_size,
            },
            name,
            read_cnt: 0,
            write_cnt: 0,
        };
        assert(b.buffer.stored() =~= Seq::empty());
        b
    }

    /// Tells whether a write of `len` bytes would grow the storage beyond the
    /// range of `usize`, so that [`Buffer::write`] cannot be asked for it.
    pub fn write_overflows(&self, len: usize) -> (b: bool)
        requires
            self.wf(),
        ensures
            b == self@.write_overflows(len as int),
    {
        proof {
            lemma_framed_len(self.buffer.stored(), self.buffer.long@);
        }
        if len > PACKET_LIMIT || self.buffer.closed {
            return false;
        }
        let need: usize = self.buffer.size() + 2 + len;
        if (self.buffer.limit_count > 0 && self.buffer.count >= self.buffer.limit_count) || (
        self.buffer.limit_size > 0 && need > self.buffer.limit_size) || (self.buffer.limit_size == 0
            && need >= MAX_SIZE) {
            return false;
        }
        growing_overflows(self.buffer.data.len(), self.buffer.limit_size, need)
    }

    /// Appends a copy of the packet, growing the storage where it has to.
    pub fn write(&mut self, packet: &[u8]) -> (r: Result<Written, Error>)
        requires
            old(self).wf(),
            !old(self)@.write_overflows(packet@.len() as int),
        ensures
            final(self).wf(),
            r == old(self)@.write_result(packet@.len() as int),
            final(self)@ == old(self)@.after_write(packet@),
    {
        proof {
            lemma_framed_len(self.buffer.stored(), self.buffer.long@);
        }
        self.write_cnt = self.write_cnt.wrapping_add(1);
        if packet.len() > PACKET_LIMIT {
            return Err(Error::ErrPacketTooBig);
        }
        if self.buffer.closed {
            return Err(Error::ErrBufferClosed);
        }
        let stored: usize = self.buffer.size() + 2 + packet.len();
        if (self.buffer.limit_count > 0 && self.buffer.count >= self.buffer.limit_count) || (
        self.buffer.limit_size > 0 && stored > self.buffer.limit_size) || (self.buffer.limit_size
            == 0 && stored >= MAX_SIZE) {
            return Err(Error::ErrBufferFull);
        }
        let ghost need = old(self)@.size_with(packet@.len() as int);
        let ghost limit = self.buffer.limit_size as int;
        proof {
            lemma_grown_capacity(self.buffer.data@.len() as int, limit, need);
        }
        // grow the buffer until the packet fits
        while !self.buffer.available(packet.len())
            invariant
                packet@.len() <= PACKET_LIMIT,
                self.buffer.ring_wf(),
                self.buffer.stored() == old(self).buffer.stored(),
                self.buffer.same_flags(&old(self).buffer),
                self.name == old(self).name,
                self.read_cnt == old(self).read_cnt,
                self.write_cnt == wrapping_next(old(self).write_cnt),
                limit == self.buffer.limit_size,
                need == self.buffer.stored().len() + 2 + packet@.len(),
                !growth_overflows(self.buffer.data@.len() as int, limit, need),
                grown_capacity(self.buffer.data@.len() as int, limit, need) == grown_capacity(
                    old(self).buffer.data@.len() as int,
                    limit,
                    need,
                ),
                old(self).wf(),
                old(self)@.seeks_storage(packet@.len() as int),
                need == old(self)@.size_with(packet@.len() as int),
                need < grown_capacity(old(self).buffer.data@.len() as int, limit, need),
            decreases
                    (if need < self.buffer.data@.len() {
                        0
                    } else {
                        need - self.buffer.data@.len() + 1
                    }),
        {
            match self.buffer.grow() {
                Ok(()) => {},
                Err(e) => {
                    return Err(e);
                },
            }
        }
        proof {
            lemma_frames_push(old(self).buffer.stored(), old(self).buffer.long@, packet@);
        }
        // store the length of the packet
        let len: usize = packet.len();
        assert((len >> 8) & 0xff == len / 256 % 256 && len & 0xff == len % 256) by (bit_vector);
        let high: u8 = ((len >> 8) & 0xff) as u8;
        let low: u8 = (len & 0xff) as u8;
        self.buffer.put_byte(high);
        self.buffer.put_byte(low);
        // store the packet
        self.buffer.put_packet(packet);
        self.buffer.long.push_back(len == PACKET_LIMIT);
        assert(self.buffer.stored() =~= old(self).buffer.stored() + frame(packet@));
        proof {
            lemma_framed_len(self.buffer.stored(), self.buffer.long@);
        }
        self.buffer.count += 1;
        let notify: bool = self.buffer.waiting > 0;
        if notify {
            // a reader is waiting for data
            self.buffer.waiting -= 1;
        }
        Ok(Written { len: packet.len(), notify })
    }

    /// One step of a read into `packet`: hands out the oldest packet, or tells
    /// the caller to wait for one. A packet that is longer than `packet` is cut
    /// off and lost.
    pub fn read(&mut self, event: ReadEvent, packet: &mut [u8]) -> (action: ReadAction)
        requires
            old(self).wf(),
        ensures
            final(self).wf(),
            action == old(self)@.read_action(event, old(packet)@.len() as int),
            final(self)@ == old(self)@.after_read(event),
            final(packet)@ == old(self)@.read_bytes(event, old(packet)@),
    {
        let ghost before = self.buffer.stored();
        match event {
            ReadEvent::Started => {
                self.read_cnt = self.read_cnt.wrapping_add(1);
            },
            ReadEvent::Notified => {},
            ReadEvent::TimedOut => {
                return ReadAction::Return(Err(Error::ErrTimeout));
            },
        }
        let ghost marks = self.buffer.long@;
        proof {
            lemma_framed_len(before, marks);
        }
        if self.buffer.head != self.buffer.tail {
            // decode the packet size
            let n1: u8 = self.buffer.take_byte();
            let n2: u8 = self.buffer.take_byte();
            assert(((n1 as usize) << 8) | (n2 as usize) == (n1 as usize) * 256 + (n2 as usize))
                by (bit_vector);
            let long: bool = match self.buffer.long.pop_front() {
                Some(long) => long,
                None => false,
            };
            assert(self.buffer.long@ =~= marks.drop_first());
            let count: usize = if long {
                PACKET_LIMIT
            } else {
                ((n1 as usize) << 8) | (n2 as usize)
            };
            assert(count == frame_len(before, marks[0]));
            assert(self.buffer.stored() =~= before.skip(2));
            // determine the number of bytes we'll actually copy
            let mut copied: usize = count;
            if copied > packet.len() {
                copied = packet.len();
            }
            // copy the data
            self.buffer.copy_out(packet, copied);
            let ghost first = before.subrange(2, 2 + count);
            assert(before.skip(2).take(copied as int) =~= first.take(copied as int));
            assert(first.take(count as int) =~= first);
            assert(frames(before, marks)[0] == first);
            assert(packet@ =~= old(self)@.read_bytes(event, old(packet)@));
            // advance head, discarding any data that wasn't copied
            self.buffer.skip_bytes(count);
            assert(self.buffer.stored() =~= before.skip(2 + count));
            assert(frames(before, marks).drop_first() =~= frames(
                before.skip(2 + count),
                marks.drop_first(),
            ));
            self.buffer.count -= 1;
            if copied < count {
                return ReadAction::Return(Err(Error::ErrBufferShort));
            }
            return ReadAction::Return(Ok(copied));
        }
        if self.buffer.closed {
            return ReadAction::Return(Err(Error::ErrBufferClosed));
        }
        // no data, so the reader has to wait
        self.buffer.waiting = self.buffer.waiting.saturating_add(1);
        ReadAction::Wait
    }

    /// Prevents future writes. Data in the buffer can still be read. Tells
    /// whether all the waiting readers are to be notified.
    pub fn close(&mut self) -> (notify: bool)
        requires
            old(self).wf(),
        ensures
            final(self).wf(),
            notify == old(self)@.close_notifies(),
            final(self)@ == old(self)@.after_close(),
    {
        if self.buffer.closed {
            return false;
        }
        self.buffer.closed = true;
        self.buffer.waiting = 0;
        true
    }

    /// Whether the buffer was closed.
    pub fn is_closed(&self) -> (closed: bool)
        ensures
            closed == self@.closed,
    {
        self.buffer.closed
    }

    /// Number of packets in the buffer.
    pub fn count(&self) -> (n: usize)
        requires
            self.wf(),
        ensures
            n == self@.packets.len(),
    {
        proof {
            lemma_framed_len(self.buffer.stored(), self.buffer.long@);
        }
        self.buffer.count
    }

    /// Sets the greatest number of packets; 0 disables the limit.
    pub fn set_limit_count(&mut self, limit: usize)
        requires
            old(self).wf(),
        ensures
            final(self).wf(),
            final(self)@ == old(self)@.with_limit_count(limit),
    {
        self.buffer.limit_count = limit;
    }

    /// Number of bytes in the packets of the buffer.
    pub fn size(&self) -> (n: usize)
        requires
            self.wf(),
        ensures
            n == self@.size(),
    {
        proof {
            lemma_framed_len(self.buffer.stored(), self.buffer.long@);
            lemma_prefixes(self@.packets);
        }
        self.buffer.size() - 2 * self.buffer.count
    }

    /// Sets the greatest number of bytes, the two-byte lengths of the packets
    /// among them; 0 means [`MAX_SIZE`].
    pub fn set_limit_size(&mut self, limit: usize)
        requires
            old(self).wf(),
        ensures
            final(self).wf(),
            final(self)@ == old(self)@.with_limit_size(limit),
    {
        self.buffer.limit_size = limit;
    }
}

} // verus!
