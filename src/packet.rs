//! Framing of one protocol message: a header of marker, length, code and
//! optional sub-code, followed by the payload.

use vstd::prelude::*;
use vstd::slice::{slice_subrange, slice_to_vec};
use crate::wire::{be16, copy_into, get_u16, lemma_be16_of_bytes, u16_bytes};

verus! {

/// Marker byte of a frame whose length field is one byte.
pub const SHORT_FRAME: u8 = 0xC1;

/// Marker byte of a frame whose length field is two bytes.
pub const LONG_FRAME: u8 = 0xC2;

/// The one message code whose frames carry a sub-code byte.
pub const SUB_CODE_PKT: u8 = 0xF4;

/// Code of the connect-result message; with an empty payload it is the
/// local close signal that is never written out.
pub const CLOSE_SIGNAL_CODE: u8 = 0x00;

/// Width of a frame's length field.
#[derive(Clone, Copy, Debug, PartialEq, Eq, Structural)]
pub enum FrameKind {
    Short,
    Long,
}

impl FrameKind {
    pub open spec fn spec_marker(self) -> u8 {
        match self {
            FrameKind::Short => SHORT_FRAME,
            FrameKind::Long => LONG_FRAME,
        }
    }

    /// Bytes taken by the length field.
    pub open spec fn width(self) -> nat {
        match self {
            FrameKind::Short => 1,
            FrameKind::Long => 2,
        }
    }

    /// Largest total frame length the length field can state.
    pub open spec fn max_len(self) -> nat {
        match self {
            FrameKind::Short => 0xFF,
            FrameKind::Long => 0xFFFF,
        }
    }

    /// The marker byte that opens a frame of this kind.
    pub fn marker(&self) -> (r: u8)
        ensures
            r == self.spec_marker(),
    {
        match self {
            FrameKind::Short => SHORT_FRAME,
            FrameKind::Long => LONG_FRAME,
        }
    }
}

pub open spec fn spec_has_sub_code(code: u8) -> bool {
    code == SUB_CODE_PKT
}

/// Bytes before the payload: marker, length field, code, and the sub-code
/// byte where the code has one.
pub open spec fn spec_header_len(kind: FrameKind, code: u8) -> nat {
    1 + kind.width() + 1 + if spec_has_sub_code(code) {
        1nat
    } else {
        0nat
    }
}

/// What a packet is: its framing, code, sub-code and payload.
pub struct PacketView {
    pub kind: FrameKind,
    pub code: u8,
    pub sub_code: Option<u8>,
    pub payload: Seq<u8>,
}

impl PacketView {
    /// Total length of the encoded frame.
    pub open spec fn len(self) -> nat {
        spec_header_len(self.kind, self.code) + self.payload.len()
    }

    /// A packet that can be put on the wire: the sub-code is there exactly
    /// for the codes that have one, and the length fits the length field.
    pub open spec fn wf(self) -> bool {
        &&& (self.sub_code is Some <==> spec_has_sub_code(self.code))
        &&& self.len() <= self.kind.max_len()
    }

    pub open spec fn length_field(self) -> Seq<u8> {
        match self.kind {
            FrameKind::Short => seq![self.len() as u8],
            FrameKind::Long => u16_bytes(self.len() as u16),
        }
    }

    pub open spec fn sub_code_field(self) -> Seq<u8> {
        match self.sub_code {
            Some(s) => seq![s],
            None => Seq::empty(),
        }
    }

    pub open spec fn header(self) -> Seq<u8> {
        seq![self.kind.spec_marker()] + self.length_field() + seq![self.code]
            + self.sub_code_field()
    }

    /// The bytes of the frame.
    pub open spec fn encode(self) -> Seq<u8> {
        self.header() + self.payload
    }

    /// The local close signal: connect-result code and nothing in the payload.
    pub open spec fn is_close_signal(self) -> bool {
        self.code == CLOSE_SIGNAL_CODE && self.payload.len() == 0
    }
}

/// The local close signal that `MuPacket::empty` makes.
pub open spec fn close_signal() -> PacketView {
    PacketView {
        kind: FrameKind::Short,
        code: CLOSE_SIGNAL_CODE,
        sub_code: None,
        payload: Seq::empty(),
    }
}

/// Outcome of reading the frame at the start of a byte sequence.
pub enum Decoded {
    /// The bytes so far are a prefix of a frame, or too few to read a header.
    NeedMoreData,
    /// The bytes cannot start a frame.
    InvalidHeader,
    /// A complete frame; it takes the first `len()` bytes.
    Frame(PacketView),
}

pub open spec fn frame_kind_of(marker: u8) -> Option<FrameKind> {
    if marker == SHORT_FRAME {
        Some(FrameKind::Short)
    } else if marker == LONG_FRAME {
        Some(FrameKind::Long)
    } else {
        None
    }
}

/// The total length stated by the length field of a frame of `kind`.
pub open spec fn declared_len(buf: Seq<u8>, kind: FrameKind) -> nat {
    match kind {
        FrameKind::Short => buf[1] as nat,
        FrameKind::Long => be16(buf[1], buf[2]),
    }
}

/// Reads the frame at the start of `buf`. Three bytes are needed to read
/// the marker and the length field; the frame is taken only once all the
/// bytes that the length field states are there.
pub open spec fn spec_decode(buf: Seq<u8>) -> Decoded {
    if buf.len() < 3 {
        Decoded::NeedMoreData
    } else {
        match frame_kind_of(buf[0]) {
            None => Decoded::InvalidHeader,
            Some(kind) => {
                let declared = declared_len(buf, kind);
                let at = 1 + kind.width();
                if buf.len() < declared {
                    Decoded::NeedMoreData
                } else if declared <= at {
                    Decoded::InvalidHeader
                } else {
                    let code = buf[at as int];
                    let hl = spec_header_len(kind, code);
                    if declared < hl {
                        Decoded::InvalidHeader
                    } else {
                        Decoded::Frame(
                            PacketView {
                                kind,
                                code,
                                sub_code: if spec_has_sub_code(code) {
                                    Some(buf[at + 1int])
                                } else {
                                    None
                                },
                                payload: buf.subrange(hl as int, declared as int),
                            },
                        )
                    }
                }
            },
        }
    }
}

/// A frame that cannot be read.
#[derive(Clone, Copy, Debug, PartialEq, Eq, Structural)]
pub enum DecodeError {
    /// The marker byte is not a known one, or the stated length is shorter
    /// than the header.
    InvalidHeader,
}

#[derive(Clone, Copy, Debug, PartialEq, Eq, Structural)]
pub enum MuPacketError {
    BufferTooSmall,
}

/// The packet type under its shorter name.
pub type Packet = MuPacket;

pub type PacketError = MuPacketError;

/// One protocol message as framed on the wire.
#[derive(Debug)]
pub struct MuPacket {
    kind: FrameKind,
    code: u8,
    sub_code: Option<u8>,
    data: Vec<u8>,
}

impl View for MuPacket {
    type V = PacketView;

    closed spec fn view(&self) -> PacketView {
        PacketView { kind: self.kind, code: self.code, sub_code: self.sub_code, payload: self.data@ }
    }
}

impl Clone for MuPacket {
    fn clone(&self) -> (r: MuPacket)
        ensures
            r@ == self@,
    {
        proof {
            use_type_invariant(self);
        }
        MuPacket {
            kind: self.kind,
            code: self.code,
            sub_code: self.sub_code,
            data: self.data.clone(),
        }
    }
}

impl MuPacket {
    #[verifier::type_invariant]
    spec fn well_framed(&self) -> bool {
        self@.wf()
    }

    /// Builds a packet from its parts, which must make a frame that fits.
    pub(crate) fn from_parts(kind: FrameKind, code: u8, sub_code: Option<u8>, data: Vec<u8>) -> (r:
        MuPacket)
        requires
            (PacketView { kind, code, sub_code, payload: data@ }).wf(),
        ensures
            r@ == (PacketView { kind, code, sub_code, payload: data@ }),
    {
        MuPacket { kind, code, sub_code, data }
    }

    pub fn has_sub_code(code: u8) -> (r: bool)
        ensures
            r == spec_has_sub_code(code),
    {
        code == SUB_CODE_PKT
    }

    pub fn header_len(kind: FrameKind, code: u8) -> (r: u16)
        ensures
            r == spec_header_len(kind, code),
    {
        let base: u16 = match kind {
            FrameKind::Short => 2,
            FrameKind::Long => 3,
        };
        if MuPacket::has_sub_code(code) {
            base + 2
        } else {
            base + 1
        }
    }

    /// Length of the encoded frame.
    pub fn len(&self) -> (r: usize)
        ensures
            r == self@.len(),
            self@.wf(),
    {
        proof {
            use_type_invariant(self);
        }
        MuPacket::header_len(self.kind, self.code) as usize + self.data.len()
    }

    pub fn kind(&self) -> (r: FrameKind)
        ensures
            r == self@.kind,
    {
        self.kind
    }

    pub fn code(&self) -> (r: u8)
        ensures
            r == self@.code,
    {
        self.code
    }

    pub fn sub_code(&self) -> (r: Option<u8>)
        ensures
            r == self@.sub_code,
    {
        self.sub_code
    }

    pub fn data(&self) -> (r: &[u8])
        ensures
            r@ == self@.payload,
    {
        self.data.as_slice()
    }

    /// The local close signal, never put on the wire.
    pub fn empty() -> (r: MuPacket)
        ensures
            r@ == close_signal(),
            r@.is_close_signal(),
    {
        MuPacket { kind: FrameKind::Short, code: CLOSE_SIGNAL_CODE, sub_code: None, data: Vec::new() }
    }

    pub fn is_empty(&self) -> (r: bool)
        ensures
            r == self@.is_close_signal(),
    {
        self.code == CLOSE_SIGNAL_CODE && self.data.len() == 0
    }

    /// Reads the frame at the start of `buf`: `Ok(None)` while more bytes
    /// are needed, an error where the bytes cannot start a frame.
    pub fn decode(buf: &[u8]) -> (r: Result<Option<MuPacket>, DecodeError>)
        ensures
            match spec_decode(buf@) {
                Decoded::NeedMoreData => r is Ok && r->Ok_0 is None,
                Decoded::InvalidHeader => r == Err::<Option<MuPacket>, DecodeError>(
                    DecodeError::InvalidHeader,
                ),
                Decoded::Frame(v) => r is Ok && r->Ok_0 is Some && r->Ok_0->Some_0@ == v,
            },
    {
        if buf.len() < 3 {
            return Ok(None);
        }
        let kind = if buf[0] == SHORT_FRAME {
            FrameKind::Short
        } else if buf[0] == LONG_FRAME {
            FrameKind::Long
        } else {
            return Err(DecodeError::InvalidHeader);
        };
        let declared: usize = match kind {
            FrameKind::Short => buf[1] as usize,
            FrameKind::Long => get_u16(slice_subrange(buf, 1, 3)) as usize,
        };
        if buf.len() < declared {
            return Ok(None);
        }
        let at: usize = match kind {
            FrameKind::Short => 2,
            FrameKind::Long => 3,
        };
        if declared <= at {
            return Err(DecodeError::InvalidHeader);
        }
        let code = buf[at];
        let hl = MuPacket::header_len(kind, code) as usize;
        if declared < hl {
            return Err(DecodeError::InvalidHeader);
        }
        let sub_code = if MuPacket::has_sub_code(code) {
            Some(buf[at + 1])
        } else {
            None
        };
        let data = slice_to_vec(slice_subrange(buf, hl, declared));
        proof {
            lemma_decoded_frame(buf@);
        }
        Ok(Some(MuPacket { kind, code, sub_code, data }))
    }

    /// The packet framed by the whole of `buffer`, or its first frame where
    /// more bytes follow; `None` where no complete frame starts it.
    pub fn new(buffer: &[u8]) -> (r: Option<MuPacket>)
        ensures
            match spec_decode(buffer@) {
                Decoded::Frame(v) => r is Some && r->Some_0@ == v,
                _ => r is None,
            },
    {
        match MuPacket::decode(buffer) {
            Ok(Some(p)) => Some(p),
            _ => None,
        }
    }

    /// The bytes of the frame, with the length field computed from the
    /// payload.
    pub fn to_bytes(&self) -> (r: Vec<u8>)
        ensures
            r@ == self@.encode(),
            self@.wf(),
    {
        proof {
            use_type_invariant(self);
        }
        let total = self.len();
        let mut out: Vec<u8> = Vec::with_capacity(total);
        out.push(self.kind.marker());
        match self.kind {
            FrameKind::Short => out.push(total as u8),
            FrameKind::Long => {
                out.push((total / 256) as u8);
                out.push((total % 256) as u8);
            },
        }
        out.push(self.code);
        match self.sub_code {
            Some(s) => out.push(s),
            None => {},
        }
        out.extend_from_slice(self.data.as_slice());
        proof {
            assert(out@ =~= self@.encode());
        }
        out
    }

    /// Writes the frame into the start of `buf` and returns its length.
    pub fn serialize(&self, buf: &mut [u8]) -> (r: Result<usize, MuPacketError>)
        ensures
            old(buf)@.len() < self@.len() ==> r == Err::<usize, MuPacketError>(
                MuPacketError::BufferTooSmall,
            ) && final(buf)@ == old(buf)@,
            old(buf)@.len() >= self@.len() ==> r == Ok::<usize, MuPacketError>(self@.len() as usize)
                && final(buf)@ == self@.encode() + old(buf)@.subrange(
                self@.len() as int,
                old(buf)@.len() as int,
            ),
    {
        let bytes = self.to_bytes();
        if buf.len() < bytes.len() {
            return Err(MuPacketError::BufferTooSmall);
        }
        copy_into(buf, &bytes);
        Ok(bytes.len())
    }
}

/// A frame that is read back is well formed, takes as many bytes as its
/// length states, and those bytes are exactly its encoding. In particular a
/// packet read from the wire has a sub-code exactly when its code is the one
/// that carries one, whatever the payload holds.
pub proof fn lemma_decoded_frame(buf: Seq<u8>)
    ensures
        spec_decode(buf) matches Decoded::Frame(v) ==> {
            &&& v.wf()
            &&& (v.sub_code is Some <==> v.code == SUB_CODE_PKT)
            &&& v.len() <= buf.len()
            &&& buf.subrange(0, v.len() as int) == v.encode()
        },
{
    if let Decoded::Frame(v) = spec_decode(buf) {
        let kind = frame_kind_of(buf[0]).unwrap();
        let declared = declared_len(buf, kind);
        assert(v.len() == declared);
        if kind == FrameKind::Long {
            let h = buf[1];
            let l = buf[2];
            assert(((h as nat * 256 + l as nat) as u16) / 256 == h && ((h as nat * 256
                + l as nat) as u16) % 256 == l) by (nonlinear_arith)
                requires
                    h < 256,
                    l < 256,
            ;
            assert(v.length_field() =~= seq![buf[1], buf[2]]);
        } else {
            assert(v.length_field() =~= seq![buf[1]]);
        }
        assert(buf.subrange(0, v.len() as int) =~= v.encode());
    }
}

/// Framing round trip: the encoding of a well-formed packet reads back as
/// that packet, whatever bytes follow it.
pub proof fn lemma_decode_encode(v: PacketView, rest: Seq<u8>)
    requires
        v.wf(),
    ensures
        spec_decode(v.encode() + rest) == Decoded::Frame(v),
        spec_decode(v.encode()) == Decoded::Frame(v),
{
    lemma_decode_encode_one(v, rest);
    lemma_decode_encode_one(v, Seq::empty());
    assert(v.encode() + Seq::<u8>::empty() =~= v.encode());
}

proof fn lemma_decode_encode_one(v: PacketView, rest: Seq<u8>)
    requires
        v.wf(),
    ensures
        spec_decode(v.encode() + rest) == Decoded::Frame(v),
{
    let b = v.encode() + rest;
    let kind = v.kind;
    let at = 1 + kind.width();
    assert(b[0] == kind.spec_marker());
    assert(b[at as int] == v.code);
    if kind == FrameKind::Long {
        lemma_be16_of_bytes(v.len() as u16);
        assert(b[1] == u16_bytes(v.len() as u16)[0]);
        assert(b[2] == u16_bytes(v.len() as u16)[1]);
    } else {
        assert(b[1] == v.len() as u8);
    }
    assert(declared_len(b, kind) == v.len());
    if spec_has_sub_code(v.code) {
        assert(b[at + 1int] == v.sub_code.unwrap());
    }
    let hl = spec_header_len(kind, v.code);
    assert(b.subrange(hl as int, v.len() as int) =~= v.payload);
    match spec_decode(b) {
        Decoded::Frame(w) => {
            assert(w.sub_code == v.sub_code);
            assert(w.payload == v.payload);
        },
        _ => {},
    }
}

/// A frame cut short anywhere reads as "need more data": never as a packet,
/// never as an error.
pub proof fn lemma_truncated_frame(v: PacketView, k: nat)
    requires
        v.wf(),
        k < v.len(),
    ensures
        spec_decode(v.encode().subrange(0, k as int)) == Decoded::NeedMoreData,
{
    let e = v.encode();
    let b = e.subrange(0, k as int);
    if k >= 3 {
        let kind = v.kind;
        assert(b[0] == kind.spec_marker());
        if kind == FrameKind::Long {
            lemma_be16_of_bytes(v.len() as u16);
            assert(b[1] == u16_bytes(v.len() as u16)[0]);
            assert(b[2] == u16_bytes(v.len() as u16)[1]);
        } else {
            assert(b[1] == v.len() as u8);
        }
        assert(declared_len(b, kind) == v.len());
    }
}

/// Relies on `String::push`: appends the character at the end.
#[verifier::external_body]
fn push_char(s: &mut String, c: char)
    ensures
        final(s)@ == old(s)@.push(c),
{
    s.push(c)
}

/// Uppercase hexadecimal digit of `n` (below 16).
pub open spec fn hex_digit(n: u8) -> char {
    if n < 10 {
        ((0x30 + n) as u8) as char
    } else {
        ((0x37 + n) as u8) as char
    }
}

/// The two hexadecimal digits of a byte.
pub open spec fn byte_text(b: u8) -> Seq<char> {
    seq![hex_digit(b / 16), hex_digit(b % 16)]
}

/// Bytes as two-digit uppercase hexadecimal, separated by single spaces.
pub open spec fn hex_text(s: Seq<u8>) -> Seq<char>
    decreases s.len(),
{
    if s.len() == 0 {
        Seq::empty()
    } else if s.len() == 1 {
        byte_text(s[0])
    } else {
        hex_text(s.drop_last()) + seq![' '] + byte_text(s.last())
    }
}

fn hex_char(n: u8) -> (r: char)
    requires
        n < 16,
    ensures
        r == hex_digit(n),
{
    if n < 10 {
        (0x30 + n) as char
    } else {
        (0x37 + n) as char
    }
}

impl MuPacket {
    /// The frame's bytes, header included, for logs: two uppercase
    /// hexadecimal digits each, separated by spaces.
    pub fn to_hex(&self) -> (r: String)
        ensures
            r@ == hex_text(self@.encode()),
    {
        let bytes = self.to_bytes();
        let mut text = String::new();
        let mut i: usize = 0;
        while i < bytes.len()
            invariant
                0 <= i <= bytes@.len(),
                bytes@ == self@.encode(),
                text@ == hex_text(bytes@.subrange(0, i as int)),
            decreases bytes@.len() - i,
        {
            let b = bytes[i];
            proof {
                assert(bytes@.subrange(0, i + 1).drop_last() =~= bytes@.subrange(0, i as int));
                assert(bytes@.subrange(0, i + 1)[0] == bytes@[0]);
            }
            if i > 0 {
                push_char(&mut text, ' ');
            }
            push_char(&mut text, hex_char(b / 16));
            push_char(&mut text, hex_char(b % 16));
            i += 1;
            proof {
                if i == 1 {
                    assert(text@ =~= byte_text(b));
                } else {
                    assert(text@ =~= hex_text(bytes@.subrange(0, i - 1)) + seq![' '] + byte_text(b));
                }
            }
        }
        proof {
            assert(bytes@.subrange(0, bytes@.len() as int) =~= bytes@);
        }
        text
    }
}

} // verus!
