//! Raw bytes as an RTP header extension, and the payload of a test packet.

use bytes::Bytes;
use vstd::prelude::*;

verus! {

// ---------------------------------------------------------------------------
// Shared byte strings
// ---------------------------------------------------------------------------
/// The shared, immutable byte string of the `bytes` crate.
#[verifier::external_type_specification]
#[verifier::external_body]
pub struct ExBytes(Bytes);

/// The bytes in a [`Bytes`].
pub uninterp spec fn bytes_contents(b: Bytes) -> Seq<u8>;

/// `Bytes::from_iter` holds the items in their order.
#[verifier::external_body]
fn bytes_from_iter(items: Vec<u8>) -> (b: Bytes)
    ensures
        bytes_contents(b) == items@,
{
    Bytes::from_iter(items)
}

/// `Bytes::copy_from_slice` holds a copy of the slice.
#[verifier::external_body]
fn bytes_copy_from_slice(data: &[u8]) -> (b: Bytes)
    ensures
        bytes_contents(b) == data@,
{
    Bytes::copy_from_slice(data)
}

/// `Bytes::len` counts the bytes.
#[verifier::external_body]
fn bytes_len(b: &Bytes) -> (n: usize)
    ensures
        n == bytes_contents(*b).len(),
{
    b.len()
}

/// `<Bytes as AsRef<[u8]>>::as_ref` gives the bytes as a slice.
#[verifier::external_body]
fn bytes_as_ref(b: &Bytes) -> (s: &[u8])
    ensures
        s@ == bytes_contents(*b),
{
    b.as_ref()
}

// ---------------------------------------------------------------------------
// Header extension
// ---------------------------------------------------------------------------
/// A header extension that is sent as it is.
#[derive(Debug)]
pub struct MarshalBytes {
    buf: Bytes,
}

impl View for MarshalBytes {
    type V = Seq<u8>;

    closed spec fn view(&self) -> Seq<u8> {
        bytes_contents(self.buf)
    }
}

/// `buf` with `data` written to its front.
pub open spec fn written_over(data: Seq<u8>, buf: Seq<u8>) -> Seq<u8> {
    data + buf.skip(data.len() as int)
}

impl MarshalBytes {
    /// An extension with the given bytes.
    pub fn new(data: &[u8]) -> (m: Self)
        ensures
            m@ == data@,
    {
        MarshalBytes { buf: bytes_copy_from_slice(data) }
    }

    /// Number of bytes that [`MarshalBytes::marshal_to`] writes.
    pub fn marshal_size(&self) -> (n: usize)
        ensures
            n == self@.len(),
    {
        bytes_len(&self.buf)
    }

    /// Writes the bytes to the front of `buf`, and returns their number.
    pub fn marshal_to(&self, buf: &mut [u8]) -> (n: usize)
        requires
            self@.len() <= old(buf)@.len(),
        ensures
            n == self@.len(),
            final(buf)@ == written_over(self@, old(buf)@),
    {
        let data: &[u8] = bytes_as_ref(&self.buf);
        let mut i: usize = 0;
        while i < data.len()
            invariant
                i <= data@.len() <= old(buf)@.len(),
                data@ == self@,
                buf@ == self@.take(i as int) + old(buf)@.skip(i as int),
            decreases data@.len() - i,
        {
            buf[i] = data[i];
            i += 1;
            assert(buf@ =~= self@.take(i as int) + old(buf)@.skip(i as int));
        }
        assert(self@.take(i as int) =~= self@);
        self.marshal_size()
    }
}

// ---------------------------------------------------------------------------
// Payload
// ---------------------------------------------------------------------------
/// Number of bytes in a test packet.
pub const PAYLOAD_LEN: usize = 1000;

/// The bytes of a test packet: they count up and start over after 254.
pub open spec fn payload() -> Seq<u8> {
    Seq::new(PAYLOAD_LEN as nat, |i: int| (i % 255) as u8)
}

/// The payload of a test packet.
pub fn test_payload() -> (b: Bytes)
    ensures
        bytes_contents(b) == payload(),
{
    let mut data: Vec<u8> = Vec::new();
    let mut i: usize = 0;
    while i < PAYLOAD_LEN
        invariant
            i <= PAYLOAD_LEN,
            data@ == payload().take(i as int),
        decreases PAYLOAD_LEN - i,
    {
        data.push((i % 255) as u8);
        i += 1;
        assert(data@ =~= payload().take(i as int));
    }
    assert(payload().take(PAYLOAD_LEN as int) =~= payload());
    bytes_from_iter(data)
}

/// The media identification that the test packets carry: the character `0`.
pub fn mid_extension() -> (m: MarshalBytes)
    ensures
        m@ == seq![0x30u8],
{
    let id: [u8; 1] = [0x30];
    MarshalBytes::new(&id)
}

/// Writing bytes to the front of a buffer changes as many bytes as there are, to
/// just these, and no other byte.
pub proof fn law_bytes_go_to_the_front(data: Seq<u8>, buf: Seq<u8>, i: int)
    requires
        data.len() <= buf.len(),
        0 <= i < buf.len(),
    ensures
        written_over(data, buf).len() == buf.len(),
        written_over(data, buf)[i] == (if i < data.len() {
            data[i]
        } else {
            buf[i]
        }),
{
}

/// The payload has 1000 bytes. It starts with a zero, and each byte is one more
/// than the one before it, but a zero again after 254.
pub proof fn law_payload_counts_up(i: int)
    requires
        0 <= i < 999,
    ensures
        payload().len() == 1000,
        payload()[0] == 0,
        payload()[i] <= 254,
        payload()[i + 1] == (if payload()[i] == 254 {
            0
        } else {
            payload()[i] + 1
        }),
{
}

} // verus!
