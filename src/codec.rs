//! Framing over a byte stream: packets are cut from a growable receive
//! buffer, and appended to a send buffer.

use vstd::prelude::*;
use bytes::BytesMut;
use crate::packet::{lemma_decoded_frame, spec_decode, Decoded, DecodeError, MuPacket, PacketView};

verus! {

/// `bytes::BytesMut`, a growable byte buffer; what it holds is `bytes_of`.
#[verifier::external_type_specification]
#[verifier::external_body]
pub struct ExBytesMut(BytesMut);

/// The bytes a `BytesMut` holds, in order.
pub uninterp spec fn bytes_of(b: BytesMut) -> Seq<u8>;

/// Relies on `bytes::BytesMut::new`: a buffer of length 0.
pub assume_specification[ BytesMut::new ]() -> (r: BytesMut)
    ensures
        bytes_of(r) == Seq::<u8>::empty(),
;

/// Relies on `bytes::BytesMut::len`: the number of bytes held.
pub assume_specification[ BytesMut::len ](b: &BytesMut) -> (r: usize)
    ensures
        r == bytes_of(*b).len(),
;

/// Relies on `bytes::BytesMut::split_to`: the first `at` bytes move to the
/// result and the rest stay; it panics where `at` exceeds the length.
pub assume_specification[ BytesMut::split_to ](b: &mut BytesMut, at: usize) -> (r: BytesMut)
    requires
        at <= bytes_of(*old(b)).len(),
    ensures
        bytes_of(r) == bytes_of(*old(b)).subrange(0, at as int),
        bytes_of(*final(b)) == bytes_of(*old(b)).subrange(at as int, bytes_of(*old(b)).len() as int),
;

/// Relies on `bytes::BytesMut::extend_from_slice`: appends the slice,
/// growing the buffer; it panics where the new capacity overflows.
pub assume_specification[ BytesMut::extend_from_slice ](b: &mut BytesMut, extend: &[u8])
    requires
        bytes_of(*old(b)).len() + extend@.len() <= usize::MAX,
    ensures
        bytes_of(*final(b)) == bytes_of(*old(b)) + extend@,
;

/// Relies on `BytesMut`'s `Deref<Target = [u8]>`: a view of the bytes held.
#[verifier::external_body]
fn held(b: &BytesMut) -> (r: &[u8])
    ensures
        r@ == bytes_of(*b),
{
    &b[..]
}

/// Cuts `s` into the frames it starts with: the packets, the bytes left
/// over, and whether those start with bytes that no frame can start with.
pub open spec fn split_frames(s: Seq<u8>) -> (Seq<PacketView>, Seq<u8>, bool)
    decreases s.len(),
{
    match spec_decode(s) {
        Decoded::Frame(v) => if 0 < v.len() <= s.len() {
            let t = split_frames(s.subrange(v.len() as int, s.len() as int));
            (seq![v] + t.0, t.1, t.2)
        } else {
            (Seq::empty(), s, false)
        },
        Decoded::NeedMoreData => (Seq::empty(), s, false),
        Decoded::InvalidHeader => (Seq::empty(), s, true),
    }
}

pub open spec fn views_of(ps: Seq<MuPacket>) -> Seq<PacketView> {
    ps.map_values(|p: MuPacket| p@)
}

/// The packet codec over `BytesMut` buffers.
pub struct MuCodec;

impl MuCodec {
    /// Takes the frame at the start of `buf` out of it. While the frame is
    /// incomplete nothing is taken and `Ok(None)` comes back.
    pub fn decode(&mut self, buf: &mut BytesMut) -> (r: Result<Option<MuPacket>, DecodeError>)
        ensures
            match spec_decode(bytes_of(*old(buf))) {
                Decoded::NeedMoreData => r is Ok && r->Ok_0 is None && bytes_of(*final(buf))
                    == bytes_of(*old(buf)),
                Decoded::InvalidHeader => r == Err::<Option<MuPacket>, DecodeError>(
                    DecodeError::InvalidHeader,
                ) && bytes_of(*final(buf)) == bytes_of(*old(buf)),
                Decoded::Frame(v) => {
                    &&& r is Ok && r->Ok_0 is Some && r->Ok_0->Some_0@ == v
                    &&& 0 < v.len() <= bytes_of(*old(buf)).len()
                    &&& bytes_of(*final(buf)) == bytes_of(*old(buf)).subrange(
                        v.len() as int,
                        bytes_of(*old(buf)).len() as int,
                    )
                },
            },
    {
        proof {
            lemma_decoded_frame(bytes_of(*buf));
        }
        match MuPacket::decode(held(buf)) {
            Ok(Some(p)) => {
                let n = p.len();
                let _ = buf.split_to(n);
                Ok(Some(p))
            },
            Ok(None) => Ok(None),
            Err(e) => Err(e),
        }
    }

    /// Appends the frame of `msg` to `buf`.
    pub fn encode(&mut self, msg: MuPacket, buf: &mut BytesMut)
        requires
            bytes_of(*old(buf)).len() + msg@.len() <= usize::MAX,
        ensures
            bytes_of(*final(buf)) == bytes_of(*old(buf)) + msg@.encode(),
    {
        let bytes = msg.to_bytes();
        buf.extend_from_slice(bytes.as_slice());
    }
}

/// The reading half of a connection, with the bytes received so far that
/// do not yet make a whole frame.
pub struct TcpSessionReader<T> {
    pub io: T,
    pub id: u32,
    /// Bytes received and not yet taken as frames.
    pub pending: BytesMut,
}

impl<T> TcpSessionReader<T> {
    pub open spec fn pending(&self) -> Seq<u8> {
        bytes_of(self.pending)
    }

    pub fn new(io: T, id: u32) -> (r: TcpSessionReader<T>)
        ensures
            r.io == io,
            r.id == id,
            r.pending() == Seq::<u8>::empty(),
    {
        TcpSessionReader { io, id, pending: BytesMut::new() }
    }

    /// Takes in the bytes of one read and returns every packet that is now
    /// complete, in order; a frame split across reads is kept until its
    /// last byte comes. Bytes that cannot start a frame end the stream
    /// with an error.
    pub fn receive(&mut self, data: &[u8]) -> (r: Result<Vec<MuPacket>, DecodeError>)
        requires
            old(self).pending().len() + data@.len() <= usize::MAX,
        ensures
            final(self).id == old(self).id,
            ({
                let t = split_frames(old(self).pending() + data@);
                &&& t.2 ==> r == Err::<Vec<MuPacket>, DecodeError>(DecodeError::InvalidHeader)
                &&& !t.2 ==> r is Ok && views_of(r->Ok_0@) == t.0 && final(self).pending() == t.1
            }),
    {
        let ghost all = self.pending() + data@;
        self.pending.extend_from_slice(data);
        let mut codec = MuCodec;
        let mut out: Vec<MuPacket> = Vec::new();
        loop
            invariant
                ({
                    let t = split_frames(all);
                    let u = split_frames(bytes_of(self.pending));
                    t == (views_of(out@) + u.0, u.1, u.2)
                }),
                self.id == old(self).id,
                all == old(self).pending() + data@,
            decreases bytes_of(self.pending).len(),
        {
            let ghost before = bytes_of(self.pending);
            match codec.decode(&mut self.pending) {
                Ok(Some(p)) => {
                    let ghost v = p@;
                    proof {
                        let u = split_frames(before);
                        let w = split_frames(bytes_of(self.pending));
                        assert(u == (seq![v] + w.0, w.1, w.2));
                        assert(views_of(out@.push(p)) =~= views_of(out@).push(v));
                        assert(views_of(out@) + u.0 =~= views_of(out@).push(v) + w.0);
                    }
                    out.push(p);
                },
                Ok(None) => {
                    proof {
                        assert(spec_decode(before) is NeedMoreData);
                        assert(split_frames(before) == (Seq::<PacketView>::empty(), before, false));
                        assert(views_of(out@) + Seq::<PacketView>::empty() =~= views_of(out@));
                    }
                    return Ok(out);
                },
                Err(e) => {
                    proof {
                        assert(spec_decode(before) is InvalidHeader);
                        assert(split_frames(before).2);
                    }
                    return Err(e);
                },
            }
        }
    }
}

} // verus!
