//! The message catalog: the payload layout of each message type and the
//! framing it is sent with.

use vstd::prelude::*;
use vstd::slice::slice_subrange;
use crate::packet::{FrameKind, MuPacket, PacketView, SUB_CODE_PKT};
use crate::wire::{
    be16,
    be32,
    copy_into,
    get_u16,
    get_u32,
    lemma_be16_of_bytes,
    lemma_be32_of_bytes,
    push_u16,
    push_u32,
    u16_bytes,
    u32_bytes,
};

verus! {

/// Most entries a server list can hold: its frame, five header bytes and a
/// two-byte count, must stay within a two-byte length field.
pub const MAX_SERVER_LIST_ENTRIES: usize = 16382;

/// The message types of the catalog.
#[derive(Clone, Copy, Debug, PartialEq, Eq, Structural)]
pub enum ProtoMsg {
    ServerInfo,
    JoinServerStat,
    ConnectResult,
    ServerList,
}

impl ProtoMsg {
    pub open spec fn spec_parse(self) -> (FrameKind, u8, Option<u8>) {
        match self {
            ProtoMsg::ServerInfo => (FrameKind::Short, 0x01, None),
            ProtoMsg::JoinServerStat => (FrameKind::Short, 0x02, None),
            ProtoMsg::ConnectResult => (FrameKind::Short, 0x00, None),
            ProtoMsg::ServerList => (FrameKind::Long, 0xF4, Some(0x06)),
        }
    }

    /// The framing, code and sub-code the message is sent with.
    pub fn parse(&self) -> (r: (FrameKind, u8, Option<u8>))
        ensures
            r == self.spec_parse(),
    {
        match self {
            ProtoMsg::ServerInfo => (FrameKind::Short, 0x01, None),
            ProtoMsg::JoinServerStat => (FrameKind::Short, 0x02, None),
            ProtoMsg::ConnectResult => (FrameKind::Short, 0x00, None),
            ProtoMsg::ServerList => (FrameKind::Long, SUB_CODE_PKT, Some(0x06)),
        }
    }

    /// The packet that carries `payload` as a message of this type.
    pub open spec fn packet_of(self, payload: Seq<u8>) -> PacketView {
        PacketView {
            kind: self.spec_parse().0,
            code: self.spec_parse().1,
            sub_code: self.spec_parse().2,
            payload,
        }
    }
}

/// A message of the catalog: its payload layout and its framing.
pub trait Protocol: Sized {
    /// The payload bytes of the message.
    spec fn wire(&self) -> Seq<u8>;

    /// `buf` starts with the payload of `m`, read field by field.
    spec fn decodes_to(buf: Seq<u8>, m: Self) -> bool;

    /// `buf` is long enough to hold a payload of this type.
    spec fn readable(buf: Seq<u8>) -> bool;

    /// The message type.
    spec fn message() -> ProtoMsg;

    /// Reads a message from the start of a payload.
    fn parse(buf: &[u8]) -> (r: Option<Self>)
        ensures
            r is Some <==> Self::readable(buf@),
            r matches Some(m) ==> Self::decodes_to(buf@, m),
    ;

    /// The payload bytes, in a new vector.
    fn to_wire(&self) -> (r: Vec<u8>)
        ensures
            r@ == self.wire(),
    ;

    /// Writes the payload over the start of `buf`.
    fn serialize(&self, buf: &mut [u8])
        requires
            self.wire().len() <= old(buf)@.len(),
        ensures
            final(buf)@ == self.wire() + old(buf)@.subrange(
                self.wire().len() as int,
                old(buf)@.len() as int,
            ),
    ;

    /// Length of the payload.
    fn size(&self) -> (r: u16)
        requires
            self.wire().len() <= u16::MAX,
        ensures
            r == self.wire().len(),
    ;

    /// The message framed as a packet.
    fn to_packet(&self) -> (r: MuPacket)
        requires
            Self::message().packet_of(self.wire()).len() <= Self::message().spec_parse().0.max_len(),
        ensures
            r@ == Self::message().packet_of(self.wire()),
    ;
}

impl MuPacket {
    /// Frames the payload of `proto` as a message of type `msg`.
    pub fn from_protocol<T: Protocol>(msg: &ProtoMsg, proto: &T) -> (r: MuPacket)
        requires
            msg.packet_of(proto.wire()).len() <= msg.spec_parse().0.max_len(),
        ensures
            r@ == msg.packet_of(proto.wire()),
    {
        let (kind, code, sub_code) = msg.parse();
        let data = proto.to_wire();
        MuPacket::from_parts(kind, code, sub_code, data)
    }
}

/// A game server's report of itself and its load.
#[derive(Clone, Copy, Debug, PartialEq, Eq)]
pub struct ServerInfo {
    pub svr_code: u16,
    /// Address as text, padded with zero bytes.
    pub ip: [u8; 16],
    pub port: u16,
    pub perc: u8,
    pub usr_cnt: u16,
    pub acc_cnt: u16,
    pub mx_usr_cnt: u16,
}

/// Payload bytes of a server report.
pub const SERVER_INFO_SIZE: usize = 27;

impl Protocol for ServerInfo {
    open spec fn wire(&self) -> Seq<u8> {
        u16_bytes(self.svr_code) + self.ip@ + u16_bytes(self.port) + seq![self.perc] + u16_bytes(
            self.usr_cnt,
        ) + u16_bytes(self.acc_cnt) + u16_bytes(self.mx_usr_cnt)
    }

    open spec fn decodes_to(buf: Seq<u8>, m: ServerInfo) -> bool {
        &&& buf.len() >= 27
        &&& m.svr_code == be16(buf[0], buf[1])
        &&& m.ip@ == buf.subrange(2, 18)
        &&& m.port == be16(buf[18], buf[19])
        &&& m.perc == buf[20]
        &&& m.usr_cnt == be16(buf[21], buf[22])
        &&& m.acc_cnt == be16(buf[23], buf[24])
        &&& m.mx_usr_cnt == be16(buf[25], buf[26])
    }

    open spec fn readable(buf: Seq<u8>) -> bool {
        buf.len() >= 27
    }

    open spec fn message() -> ProtoMsg {
        ProtoMsg::ServerInfo
    }

    fn parse(buf: &[u8]) -> (r: Option<ServerInfo>) {
        if buf.len() < SERVER_INFO_SIZE {
            return None;
        }
        let mut ip = [0u8; 16];
        let mut i: usize = 0;
        while i < 16
            invariant
                buf@.len() >= 27,
                0 <= i <= 16,
                forall|j: int| 0 <= j < i ==> ip@[j] == buf@[2 + j],
            decreases 16 - i,
        {
            ip[i] = buf[2 + i];
            i += 1;
        }
        proof {
            assert(ip@ =~= buf@.subrange(2, 18));
        }
        Some(
            ServerInfo {
                svr_code: get_u16(slice_subrange(buf, 0, 2)),
                ip,
                port: get_u16(slice_subrange(buf, 18, 20)),
                perc: buf[20],
                usr_cnt: get_u16(slice_subrange(buf, 21, 23)),
                acc_cnt: get_u16(slice_subrange(buf, 23, 25)),
                mx_usr_cnt: get_u16(slice_subrange(buf, 25, 27)),
            },
        )
    }

    fn to_wire(&self) -> (r: Vec<u8>) {
        let mut out: Vec<u8> = Vec::with_capacity(SERVER_INFO_SIZE);
        push_u16(&mut out, self.svr_code);
        let mut i: usize = 0;
        while i < 16
            invariant
                0 <= i <= 16,
                out@ == u16_bytes(self.svr_code) + self.ip@.subrange(0, i as int),
            decreases 16 - i,
        {
            out.push(self.ip[i]);
            i += 1;
            proof {
                assert(out@ =~= u16_bytes(self.svr_code) + self.ip@.subrange(0, i as int));
            }
        }
        proof {
            assert(self.ip@.subrange(0, 16) =~= self.ip@);
        }
        push_u16(&mut out, self.port);
        out.push(self.perc);
        push_u16(&mut out, self.usr_cnt);
        push_u16(&mut out, self.acc_cnt);
        push_u16(&mut out, self.mx_usr_cnt);
        proof {
            assert(out@ =~= self.wire());
        }
        out
    }

    fn serialize(&self, buf: &mut [u8]) {
        let bytes = self.to_wire();
        copy_into(buf, &bytes);
    }

    fn size(&self) -> (r: u16) {
        SERVER_INFO_SIZE as u16
    }

    fn to_packet(&self) -> (r: MuPacket) {
        let (kind, code, sub_code) = ProtoMsg::ServerInfo.parse();
        MuPacket::from_parts(kind, code, sub_code, self.to_wire())
    }
}

/// A client's request for its place in the join queue.
#[derive(Clone, Copy, Debug, PartialEq, Eq, Structural)]
pub struct JoinServerStat {
    pub queue_cnt: u32,
}

impl Protocol for JoinServerStat {
    open spec fn wire(&self) -> Seq<u8> {
        u32_bytes(self.queue_cnt)
    }

    open spec fn decodes_to(buf: Seq<u8>, m: JoinServerStat) -> bool {
        &&& buf.len() >= 4
        &&& m.queue_cnt == be32(buf[0], buf[1], buf[2], buf[3])
    }

    open spec fn readable(buf: Seq<u8>) -> bool {
        buf.len() >= 4
    }

    open spec fn message() -> ProtoMsg {
        ProtoMsg::JoinServerStat
    }

    fn parse(buf: &[u8]) -> (r: Option<JoinServerStat>) {
        if buf.len() < 4 {
            return None;
        }
        Some(JoinServerStat { queue_cnt: get_u32(buf) })
    }

    fn to_wire(&self) -> (r: Vec<u8>) {
        let mut out: Vec<u8> = Vec::with_capacity(4);
        push_u32(&mut out, self.queue_cnt);
        proof {
            assert(out@ =~= self.wire());
        }
        out
    }

    fn serialize(&self, buf: &mut [u8]) {
        let bytes = self.to_wire();
        copy_into(buf, &bytes);
    }

    fn size(&self) -> (r: u16) {
        4
    }

    fn to_packet(&self) -> (r: MuPacket) {
        let (kind, code, sub_code) = ProtoMsg::JoinServerStat.parse();
        MuPacket::from_parts(kind, code, sub_code, self.to_wire())
    }
}

/// The connect server's answer to a new client; 1 means accepted.
#[derive(Clone, Copy, Debug, PartialEq, Eq, Structural)]
pub struct ConnectResult {
    pub res: u8,
}

impl Protocol for ConnectResult {
    open spec fn wire(&self) -> Seq<u8> {
        seq![self.res]
    }

    open spec fn decodes_to(buf: Seq<u8>, m: ConnectResult) -> bool {
        &&& buf.len() >= 1
        &&& m.res == buf[0]
    }

    open spec fn readable(buf: Seq<u8>) -> bool {
        buf.len() >= 1
    }

    open spec fn message() -> ProtoMsg {
        ProtoMsg::ConnectResult
    }

    fn parse(buf: &[u8]) -> (r: Option<ConnectResult>) {
        if buf.len() < 1 {
            return None;
        }
        Some(ConnectResult { res: buf[0] })
    }

    fn to_wire(&self) -> (r: Vec<u8>) {
        let mut out: Vec<u8> = Vec::with_capacity(1);
        out.push(self.res);
        proof {
            assert(out@ =~= self.wire());
        }
        out
    }

    fn serialize(&self, buf: &mut [u8]) {
        let bytes = self.to_wire();
        copy_into(buf, &bytes);
    }

    fn size(&self) -> (r: u16) {
        1
    }

    fn to_packet(&self) -> (r: MuPacket) {
        let (kind, code, sub_code) = ProtoMsg::ConnectResult.parse();
        MuPacket::from_parts(kind, code, sub_code, self.to_wire())
    }
}

/// Byte that follows each entry of a server list on the wire.
pub const SERVER_LIST_FILLER: u8 = 0xFF;

/// The four bytes of one server-list entry.
pub open spec fn entry_bytes(e: (u16, u8)) -> Seq<u8> {
    u16_bytes(e.0) + seq![e.1, SERVER_LIST_FILLER]
}

pub open spec fn entries_wire(s: Seq<(u16, u8)>) -> Seq<u8>
    decreases s.len(),
{
    if s.len() == 0 {
        Seq::empty()
    } else {
        entries_wire(s.drop_last()) + entry_bytes(s.last())
    }
}

/// Entry `j` of a server-list payload: code and load; the filler byte is
/// not read.
pub open spec fn entry_at(buf: Seq<u8>, j: int) -> (u16, u8) {
    (be16(buf[2 + 4 * j], buf[3 + 4 * j]) as u16, buf[4 + 4 * j])
}

/// The list of live game servers, as `(server code, load percent)` pairs.
#[derive(Debug)]
pub struct ServerList {
    data: Vec<(u16, u8)>,
}

impl View for ServerList {
    type V = Seq<(u16, u8)>;

    closed spec fn view(&self) -> Seq<(u16, u8)> {
        self.data@
    }
}

impl ServerList {
    #[verifier::type_invariant]
    spec fn fits_frame(&self) -> bool {
        self.data@.len() <= MAX_SERVER_LIST_ENTRIES
    }

    /// An empty list with room reserved for `cnt` entries.
    pub fn new(cnt: u16) -> (r: ServerList)
        ensures
            r@ == Seq::<(u16, u8)>::empty(),
    {
        ServerList { data: Vec::with_capacity(cnt as usize) }
    }

    pub fn add(&mut self, idx: u16, load: u8)
        requires
            old(self)@.len() < MAX_SERVER_LIST_ENTRIES,
        ensures
            final(self)@ == old(self)@.push((idx, load)),
    {
        let mut data: Vec<(u16, u8)> = Vec::new();
        std::mem::swap(&mut data, &mut self.data);
        data.push((idx, load));
        self.data = data;
    }

    /// Number of entries, as the count field states it.
    pub fn cnt(&self) -> (r: u16)
        ensures
            r == self@.len(),
            self@.len() <= MAX_SERVER_LIST_ENTRIES,
    {
        proof {
            use_type_invariant(self);
        }
        self.data.len() as u16
    }

    pub fn entries(&self) -> (r: &Vec<(u16, u8)>)
        ensures
            r@ == self@,
    {
        &self.data
    }

    pub proof fn lemma_entries_wire(s: Seq<(u16, u8)>)
        ensures
            entries_wire(s).len() == 4 * s.len(),
            forall|j: int|
                0 <= j < s.len() ==> {
                    &&& #[trigger] entries_wire(s)[4 * j] == u16_bytes(s[j].0)[0]
                    &&& entries_wire(s)[4 * j + 1] == u16_bytes(s[j].0)[1]
                    &&& entries_wire(s)[4 * j + 2] == s[j].1
                },
        decreases s.len(),
    {
        if s.len() > 0 {
            ServerList::lemma_entries_wire(s.drop_last());
            let p = entries_wire(s.drop_last());
            assert forall|j: int| 0 <= j < s.len() implies {
                &&& #[trigger] entries_wire(s)[4 * j] == u16_bytes(s[j].0)[0]
                &&& entries_wire(s)[4 * j + 1] == u16_bytes(s[j].0)[1]
                &&& entries_wire(s)[4 * j + 2] == s[j].1
            } by {
                let w = entries_wire(s);
                let e = entry_bytes(s.last());
                assert(w == p + e);
                if j < s.len() - 1 {
                    assert(s.drop_last()[j] == s[j]);
                    assert(w[4 * j] == p[4 * j]);
                    assert(w[4 * j + 1] == p[4 * j + 1]);
                    assert(w[4 * j + 2] == p[4 * j + 2]);
                } else {
                    assert(4 * j == p.len());
                    assert(w[4 * j] == e[0]);
                    assert(w[4 * j + 1] == e[1]);
                    assert(w[4 * j + 2] == e[2]);
                }
            }
        }
    }
}

impl Protocol for ServerList {
    open spec fn wire(&self) -> Seq<u8> {
        u16_bytes(self@.len() as u16) + entries_wire(self@)
    }

    open spec fn decodes_to(buf: Seq<u8>, m: ServerList) -> bool {
        let n = be16(buf[0], buf[1]);
        &&& buf.len() >= 2 + 4 * n
        &&& m@.len() == n
        &&& forall|j: int| 0 <= j < n ==> #[trigger] m@[j] == entry_at(buf, j)
    }

    open spec fn readable(buf: Seq<u8>) -> bool {
        &&& buf.len() >= 2
        &&& be16(buf[0], buf[1]) <= MAX_SERVER_LIST_ENTRIES
        &&& buf.len() >= 2 + 4 * be16(buf[0], buf[1])
    }

    open spec fn message() -> ProtoMsg {
        ProtoMsg::ServerList
    }

    fn parse(buf: &[u8]) -> (r: Option<ServerList>) {
        if buf.len() < 2 {
            return None;
        }
        let n = get_u16(buf) as usize;
        if n > MAX_SERVER_LIST_ENTRIES || buf.len() < 2 + 4 * n {
            return None;
        }
        let mut data: Vec<(u16, u8)> = Vec::with_capacity(n);
        let mut j: usize = 0;
        while j < n
            invariant
                n == be16(buf@[0], buf@[1]),
                n <= MAX_SERVER_LIST_ENTRIES,
                buf@.len() >= 2 + 4 * n,
                0 <= j <= n,
                data@.len() == j,
                forall|k: int| 0 <= k < j ==> #[trigger] data@[k] == entry_at(buf@, k),
            decreases n - j,
        {
            let at = 2 + 4 * j;
            let code = get_u16(slice_subrange(buf, at, at + 2));
            data.push((code, buf[at + 2]));
            j += 1;
        }
        Some(ServerList { data })
    }

    fn to_wire(&self) -> (r: Vec<u8>) {
        proof {
            use_type_invariant(self);
        }
        let n = self.data.len();
        let mut out: Vec<u8> = Vec::with_capacity(2 + 4 * n);
        push_u16(&mut out, n as u16);
        let mut i: usize = 0;
        while i < n
            invariant
                n == self@.len(),
                0 <= i <= n,
                out@ == u16_bytes(n as u16) + entries_wire(self@.subrange(0, i as int)),
            decreases n - i,
        {
            let (code, load) = self.data[i];
            push_u16(&mut out, code);
            out.push(load);
            out.push(SERVER_LIST_FILLER);
            proof {
                let s = self@.subrange(0, i + 1);
                assert(s.drop_last() =~= self@.subrange(0, i as int));
                assert(out@ =~= u16_bytes(n as u16) + entries_wire(s));
            }
            i += 1;
        }
        proof {
            assert(self@.subrange(0, n as int) =~= self@);
        }
        out
    }

    fn serialize(&self, buf: &mut [u8]) {
        let bytes = self.to_wire();
        copy_into(buf, &bytes);
    }

    fn size(&self) -> (r: u16) {
        proof {
            use_type_invariant(self);
            ServerList::lemma_entries_wire(self@);
        }
        (2 + 4 * self.data.len()) as u16
    }

    fn to_packet(&self) -> (r: MuPacket) {
        let (kind, code, sub_code) = ProtoMsg::ServerList.parse();
        MuPacket::from_parts(kind, code, sub_code, self.to_wire())
    }
}

/// A server report's payload reads back as that report.
pub proof fn lemma_server_info_round_trip(m: ServerInfo)
    ensures
        ServerInfo::decodes_to(m.wire(), m),
{
    let w = m.wire();
    lemma_be16_of_bytes(m.svr_code);
    lemma_be16_of_bytes(m.port);
    lemma_be16_of_bytes(m.usr_cnt);
    lemma_be16_of_bytes(m.acc_cnt);
    lemma_be16_of_bytes(m.mx_usr_cnt);
    assert(w[0] == u16_bytes(m.svr_code)[0] && w[1] == u16_bytes(m.svr_code)[1]);
    assert(w.subrange(2, 18) =~= m.ip@);
    assert(w[18] == u16_bytes(m.port)[0] && w[19] == u16_bytes(m.port)[1]);
    assert(w[20] == m.perc);
    assert(w[21] == u16_bytes(m.usr_cnt)[0] && w[22] == u16_bytes(m.usr_cnt)[1]);
    assert(w[23] == u16_bytes(m.acc_cnt)[0] && w[24] == u16_bytes(m.acc_cnt)[1]);
    assert(w[25] == u16_bytes(m.mx_usr_cnt)[0] && w[26] == u16_bytes(m.mx_usr_cnt)[1]);
}

/// A join-queue request's payload reads back as that request.
pub proof fn lemma_join_server_stat_round_trip(m: JoinServerStat)
    ensures
        JoinServerStat::decodes_to(m.wire(), m),
{
    lemma_be32_of_bytes(m.queue_cnt);
}

/// A server list's payload reads back as that list, whatever the entries.
pub proof fn lemma_server_list_round_trip(m: ServerList)
    requires
        m@.len() <= MAX_SERVER_LIST_ENTRIES,
    ensures
        ServerList::decodes_to(m.wire(), m),
{
    let w = m.wire();
    let n = m@.len();
    lemma_be16_of_bytes(n as u16);
    ServerList::lemma_entries_wire(m@);
    let e = entries_wire(m@);
    assert(w[0] == u16_bytes(n as u16)[0] && w[1] == u16_bytes(n as u16)[1]);
    assert forall|j: int| 0 <= j < n implies #[trigger] m@[j] == entry_at(w, j) by {
        assert(w[2 + 4 * j] == e[4 * j]);
        assert(w[3 + 4 * j] == e[4 * j + 1]);
        assert(w[4 + 4 * j] == e[4 * j + 2]);
        lemma_be16_of_bytes(m@[j].0);
    }
}

} // verus!
