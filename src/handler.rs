//! The connect server's logic: the table of game servers and their load,
//! the set of connected clients, and the server list pushed to them.

use vstd::prelude::*;
use crate::packet::{close_signal, MuPacket, PacketView};
use crate::protocol::{
    entries_wire,
    ConnectResult,
    ProtoMsg,
    Protocol,
    ServerInfo,
    ServerList,
    MAX_SERVER_LIST_ENTRIES,
};
use crate::config::{ConfigError, GsEntry};
use crate::seq_facts::{lemma_push_fresh, lemma_remove_at};
use crate::session::{NetworkError, OriginKind, SessionRegistry};
use crate::wire::u16_bytes;

verus! {

/// A game server counts as alive while its last report is younger than
/// this many milliseconds.
pub const LIVENESS_WINDOW_MS: u64 = 10_000;

/// Most game servers the table holds: as many as one server list can carry.
pub const MAX_GAME_SERVERS: usize = MAX_SERVER_LIST_ENTRIES;

/// Code of a game server's report.
pub const SERVER_INFO_CODE: u8 = 0x01;

/// Code of a client's join-queue request.
pub const JOIN_SERVER_STAT_CODE: u8 = 0x02;

/// Users as a whole percentage of capacity, rounded down; 0 where the
/// capacity is 0, and at most 255.
pub open spec fn spec_load(usr_cnt: u16, mx_usr_cnt: u16) -> u8 {
    if mx_usr_cnt == 0 {
        0
    } else if usr_cnt as nat * 100 / mx_usr_cnt as nat > 255 {
        255
    } else {
        (usr_cnt as nat * 100 / mx_usr_cnt as nat) as u8
    }
}

/// Whether a server last heard from at `last_seen` (milliseconds; `None`
/// for never) is alive at time `now`.
pub open spec fn spec_alive(last_seen: Option<u64>, now: u64) -> bool {
    match last_seen {
        None => false,
        Some(t) => (now as int - t as int) < (LIVENESS_WINDOW_MS as int),
    }
}

/// What the connect server knows of one game server.
#[derive(Clone, Copy, Debug)]
pub struct GSInstance {
    pub svr_code: u16,
    pub ip: [u8; 16],
    pub port: u16,
    pub perc: u8,
    pub usr_cnt: u16,
    pub acc_cnt: u16,
    pub mx_usr_cnt: u16,
    /// Time of the last report, in milliseconds; `None` until the first.
    pub last_seen: Option<u64>,
}

impl GSInstance {
    pub open spec fn spec_entry(self) -> (u16, u8) {
        (self.svr_code, spec_load(self.usr_cnt, self.mx_usr_cnt))
    }

    /// A server first heard of through `msg` at `now`.
    pub open spec fn from_info(msg: ServerInfo, now: u64) -> GSInstance {
        GSInstance {
            svr_code: msg.svr_code,
            ip: msg.ip,
            port: msg.port,
            perc: msg.perc,
            usr_cnt: msg.usr_cnt,
            acc_cnt: msg.acc_cnt,
            mx_usr_cnt: msg.mx_usr_cnt,
            last_seen: Some(now),
        }
    }

    /// This server after its report `msg` at `now`: load and user fields
    /// replaced, address kept.
    pub open spec fn refreshed(self, msg: ServerInfo, now: u64) -> GSInstance {
        GSInstance {
            svr_code: self.svr_code,
            ip: self.ip,
            port: self.port,
            perc: msg.perc,
            usr_cnt: msg.usr_cnt,
            acc_cnt: msg.acc_cnt,
            mx_usr_cnt: msg.mx_usr_cnt,
            last_seen: Some(now),
        }
    }

    pub fn load(&self) -> (r: u8)
        ensures
            r == spec_load(self.usr_cnt, self.mx_usr_cnt),
    {
        if self.mx_usr_cnt == 0 {
            return 0;
        }
        let pct = (self.usr_cnt as u32) * 100 / (self.mx_usr_cnt as u32);
        if pct > 255 {
            255
        } else {
            pct as u8
        }
    }

    pub fn alive(&self, now: u64) -> (r: bool)
        ensures
            r == spec_alive(self.last_seen, now),
    {
        match self.last_seen {
            None => false,
            Some(t) => t > now || now - t < LIVENESS_WINDOW_MS,
        }
    }
}

/// The `(code, load)` entries of the alive servers, in table order.
pub open spec fn live_entries(gs: Seq<GSInstance>, now: u64) -> Seq<(u16, u8)>
    decreases gs.len(),
{
    if gs.len() == 0 {
        Seq::empty()
    } else {
        let rest = live_entries(gs.drop_last(), now);
        if spec_alive(gs.last().last_seen, now) {
            rest.push(gs.last().spec_entry())
        } else {
            rest
        }
    }
}

/// The server list for the table at time `now`; none where no server is
/// alive.
pub open spec fn server_list_packet(gs: Seq<GSInstance>, now: u64) -> Option<PacketView> {
    let e = live_entries(gs, now);
    if e.len() == 0 {
        None
    } else {
        Some(ProtoMsg::ServerList.packet_of(u16_bytes(e.len() as u16) + entries_wire(e)))
    }
}

/// The accepted answer to a new client.
pub open spec fn connect_accepted() -> PacketView {
    ProtoMsg::ConnectResult.packet_of(seq![1u8])
}

pub open spec fn codes_unique(gs: Seq<GSInstance>) -> bool {
    forall|i: int, j: int|
        0 <= i < gs.len() && 0 <= j < gs.len() && i != j ==> gs[i].svr_code != gs[j].svr_code
}

/// Whether the table takes a report from `msg`: its server is known, or
/// there is room for one more.
pub open spec fn info_taken(gs: Seq<GSInstance>, msg: ServerInfo) -> bool {
    (exists|i: int| 0 <= i < gs.len() && gs[i].svr_code == msg.svr_code) || gs.len()
        < MAX_GAME_SERVERS
}

/// The table after the report `msg` at `now`: the server's entry is
/// refreshed, or a new one is added at the end; a report that the table
/// cannot take leaves it as it was.
pub open spec fn gs_after_info(gs: Seq<GSInstance>, msg: ServerInfo, now: u64) -> Seq<GSInstance> {
    if exists|i: int| 0 <= i < gs.len() && gs[i].svr_code == msg.svr_code {
        let i = choose|i: int| 0 <= i < gs.len() && gs[i].svr_code == msg.svr_code;
        gs.update(i, gs[i].refreshed(msg, now))
    } else if gs.len() < MAX_GAME_SERVERS {
        gs.push(GSInstance::from_info(msg, now))
    } else {
        gs
    }
}

/// A configured server that has not reported yet.
pub open spec fn configured(svr_code: u16, ip: [u8; 16], port: u16) -> GSInstance {
    GSInstance {
        svr_code,
        ip,
        port,
        perc: 0,
        usr_cnt: 0,
        acc_cnt: 0,
        mx_usr_cnt: 0,
        last_seen: None,
    }
}

/// The table after configuring a server: an entry with the same code is
/// reset, else one is added where there is room.
pub open spec fn gs_after_register(gs: Seq<GSInstance>, g: GSInstance) -> Seq<GSInstance> {
    if exists|i: int| 0 <= i < gs.len() && gs[i].svr_code == g.svr_code {
        let i = choose|i: int| 0 <= i < gs.len() && gs[i].svr_code == g.svr_code;
        gs.update(i, g)
    } else if gs.len() < MAX_GAME_SERVERS {
        gs.push(g)
    } else {
        gs
    }
}

/// The table after configuring each of `entries` in turn.
pub open spec fn gs_after_setup(gs: Seq<GSInstance>, entries: Seq<GsEntry>) -> Seq<GSInstance>
    decreases entries.len(),
{
    if entries.len() == 0 {
        gs
    } else {
        let e = entries.last();
        gs_after_register(gs_after_setup(gs, entries.drop_last()), configured(e.svr_code, e.ip, e.port))
    }
}

/// What a new client is sent, in order: the accepted answer, then the
/// server list where one is due.
pub open spec fn onboarding(gs: Seq<GSInstance>, now: u64) -> Seq<PacketView> {
    match server_list_packet(gs, now) {
        None => seq![connect_accepted()],
        Some(p) => seq![connect_accepted(), p],
    }
}

/// What the queue of a client that was refused took: the onboarding
/// packets up to, not including, the first one it refused, then at most
/// the close signal.
pub open spec fn onboarding_cut_short(
    before: Seq<PacketView>,
    after: Seq<PacketView>,
    gs: Seq<GSInstance>,
    now: u64,
) -> bool {
    exists|k: int|
        0 <= k < onboarding(gs, now).len() && (after == before + #[trigger] onboarding(
            gs,
            now,
        ).take(k) || after == (before + onboarding(gs, now).take(k)).push(close_signal()))
}

/// The registry went from `before` to `after` without any queue taking
/// a packet.
pub open spec fn nothing_sent(before: SessionRegistry, after: SessionRegistry) -> bool {
    &&& after.ids() == before.ids()
    &&& forall|x: u32| #[trigger] after.accepted(x) == before.accepted(x)
}

/// What the event bus delivers: a session of some origin connected, sent a
/// packet, or went away.
#[derive(Debug)]
pub enum Event {
    ClientConnected(u32, OriginKind),
    ClientDisconnected(u32, OriginKind),
    ClientPacket(u32, OriginKind, MuPacket),
}

/// The connect server's state: known game servers, keyed by server code,
/// and the ids of the connected game clients.
pub struct Handler {
    gs_map: Vec<GSInstance>,
    clients: Vec<u32>,
}

impl Handler {
    #[verifier::type_invariant]
    spec fn consistent(&self) -> bool {
        &&& codes_unique(self.gs_map@)
        &&& self.gs_map@.len() <= MAX_GAME_SERVERS
        &&& self.clients@.no_duplicates()
    }

    /// The known game servers, in the order they became known.
    pub closed spec fn gs(&self) -> Seq<GSInstance> {
        self.gs_map@
    }

    /// The connected clients.
    pub closed spec fn clients(&self) -> Seq<u32> {
        self.clients@
    }

    pub fn new() -> (r: Handler)
        ensures
            r.gs() == Seq::<GSInstance>::empty(),
            r.clients() == Seq::<u32>::empty(),
    {
        Handler { gs_map: Vec::new(), clients: Vec::new() }
    }

    pub fn gs_count(&self) -> (r: usize)
        ensures
            r == self.gs().len(),
    {
        self.gs_map.len()
    }

    pub fn get_gs(&self, i: usize) -> (r: GSInstance)
        requires
            i < self.gs().len(),
        ensures
            r == self.gs()[i as int],
    {
        self.gs_map[i]
    }

    pub fn client_ids(&self) -> (r: &Vec<u32>)
        ensures
            r@ == self.clients(),
    {
        &self.clients
    }

    fn find_gs(&self, code: u16) -> (r: Option<usize>)
        ensures
            r matches Some(i) ==> i < self.gs().len() && self.gs()[i as int].svr_code == code,
            r is None ==> forall|i: int| 0 <= i < self.gs().len() ==> self.gs()[i].svr_code != code,
    {
        let mut i: usize = 0;
        while i < self.gs_map.len()
            invariant
                0 <= i <= self.gs_map@.len(),
                forall|j: int| 0 <= j < i ==> self.gs_map@[j].svr_code != code,
            decreases self.gs_map@.len() - i,
        {
            if self.gs_map[i].svr_code == code {
                return Some(i);
            }
            i += 1;
        }
        None
    }

    /// Adds a game server known from configuration. It starts with no
    /// report, so it is not alive until it sends one. A server already in
    /// the table is reset the same way; a new one is refused (`false`) when
    /// the table is full.
    pub fn register_gs(&mut self, svr_code: u16, ip: [u8; 16], port: u16) -> (r: bool)
        ensures
            final(self).gs() == gs_after_register(old(self).gs(), configured(svr_code, ip, port)),
            r == (final(self).gs() != old(self).gs() || exists|i: int|
                0 <= i < old(self).gs().len() && old(self).gs()[i].svr_code == svr_code),
            final(self).clients() == old(self).clients(),
    {
        proof {
            use_type_invariant(&*self);
        }
        let g = GSInstance {
            svr_code,
            ip,
            port,
            perc: 0,
            usr_cnt: 0,
            acc_cnt: 0,
            mx_usr_cnt: 0,
            last_seen: None,
        };
        match self.find_gs(svr_code) {
            Some(i) => {
                let mut gs_map: Vec<GSInstance> = Vec::new();
                std::mem::swap(&mut gs_map, &mut self.gs_map);
                proof {
                    let j = choose|j: int| 0 <= j < gs_map@.len() && gs_map@[j].svr_code == svr_code;
                    assert(j == i);
                }
                gs_map.set(i, g);
                self.gs_map = gs_map;
                true
            },
            None => {
                if self.gs_map.len() >= MAX_GAME_SERVERS {
                    return false;
                }
                let mut gs_map: Vec<GSInstance> = Vec::new();
                std::mem::swap(&mut gs_map, &mut self.gs_map);
                gs_map.push(g);
                self.gs_map = gs_map;
                proof {
                    assert(self.gs_map@.len() == old(self).gs().len() + 1);
                }
                true
            },
        }
    }

    /// Loads the configured game servers, in order. A configuration that
    /// names none is refused and loads nothing.
    pub fn setup(&mut self, entries: &Vec<GsEntry>) -> (r: Result<(), ConfigError>)
        ensures
            entries@.len() == 0 ==> r == Err::<(), ConfigError>(ConfigError::NoGameServers)
                && final(self).gs() == old(self).gs(),
            entries@.len() > 0 ==> r is Ok && final(self).gs() == gs_after_setup(
                old(self).gs(),
                entries@,
            ),
            final(self).clients() == old(self).clients(),
    {
        if entries.len() == 0 {
            return Err(ConfigError::NoGameServers);
        }
        let mut i: usize = 0;
        while i < entries.len()
            invariant
                0 <= i <= entries@.len(),
                self.gs() == gs_after_setup(old(self).gs(), entries@.subrange(0, i as int)),
                self.clients() == old(self).clients(),
            decreases entries@.len() - i,
        {
            let e = entries[i];
            proof {
                assert(entries@.subrange(0, i + 1).drop_last() =~= entries@.subrange(0, i as int));
            }
            self.register_gs(e.svr_code, e.ip, e.port);
            i += 1;
        }
        proof {
            assert(entries@.subrange(0, entries@.len() as int) =~= entries@);
        }
        Ok(())
    }

    /// The server list for time `now`, or `None` where no server is alive.
    pub fn new_server_list_pkt(&self, now: u64) -> (r: Option<MuPacket>)
        ensures
            match server_list_packet(self.gs(), now) {
                None => r is None,
                Some(p) => r is Some && r->Some_0@ == p,
            },
    {
        proof {
            use_type_invariant(self);
        }
        let mut list = ServerList::new(self.gs_map.len() as u16);
        let mut i: usize = 0;
        while i < self.gs_map.len()
            invariant
                0 <= i <= self.gs_map@.len(),
                self.gs_map@.len() <= MAX_GAME_SERVERS,
                list@ == live_entries(self.gs_map@.subrange(0, i as int), now),
                list@.len() <= i,
            decreases self.gs_map@.len() - i,
        {
            let g = self.gs_map[i];
            proof {
                assert(self.gs_map@.subrange(0, i + 1).drop_last() =~= self.gs_map@.subrange(
                    0,
                    i as int,
                ));
            }
            if g.alive(now) {
                list.add(g.svr_code, g.load());
            }
            i += 1;
        }
        proof {
            assert(self.gs_map@.subrange(0, self.gs_map@.len() as int) =~= self.gs_map@);
            ServerList::lemma_entries_wire(list@);
        }
        if list.cnt() == 0 {
            None
        } else {
            Some(list.to_packet())
        }
    }

    /// Queues `pkt` for every connected client and returns the clients
    /// whose queue refused it.
    pub fn broadcast(&self, pkt: &MuPacket, svr: &mut SessionRegistry) -> (failed: Vec<u32>)
        ensures
            final(svr).ids() == old(svr).ids(),
            failed@.no_duplicates(),
            forall|x: u32| #[trigger] failed@.contains(x) ==> self.clients().contains(x),
            forall|x: u32|
                self.clients().contains(x) && !old(svr).has(x) ==> #[trigger] failed@.contains(x),
            forall|x: u32|
                #[trigger] final(svr).accepted(x) == if self.clients().contains(x)
                    && !failed@.contains(x) {
                    old(svr).accepted(x).push(pkt@)
                } else {
                    old(svr).accepted(x)
                },
    {
        proof {
            use_type_invariant(self);
        }
        let mut failed: Vec<u32> = Vec::new();
        let mut i: usize = 0;
        while i < self.clients.len()
            invariant
                0 <= i <= self.clients@.len(),
                self.clients@.no_duplicates(),
                svr.ids() == old(svr).ids(),
                failed@.no_duplicates(),
                forall|x: u32|
                    #[trigger] failed@.contains(x) ==> self.clients@.subrange(0, i as int).contains(x),
                forall|x: u32|
                    self.clients@.subrange(0, i as int).contains(x) && !old(svr).has(x)
                        ==> #[trigger] failed@.contains(x),
                forall|x: u32|
                    #[trigger] svr.accepted(x) == if self.clients@.subrange(0, i as int).contains(x)
                        && !failed@.contains(x) {
                        old(svr).accepted(x).push(pkt@)
                    } else {
                        old(svr).accepted(x)
                    },
            decreases self.clients@.len() - i,
        {
            let id = self.clients[i];
            let ghost before = self.clients@.subrange(0, i as int);
            proof {
                assert(self.clients@.subrange(0, i + 1) =~= before.push(id));
                assert(!before.contains(id)) by {
                    if before.contains(id) {
                        let k = before.index_of(id);
                        assert(self.clients@[k] == id);
                    }
                }
            }
            let ghost failed_before = failed@;
            proof {
                assert(!failed_before.contains(id));
                assert forall|x: u32| before.contains(x) implies #[trigger] before.push(id).contains(
                    x,
                ) by {
                    let k = before.index_of(x);
                    assert(before.push(id)[k] == x);
                }
                assert(before.push(id)[before.len() as int] == id);
            }
            let r = svr.send(id, pkt.clone());
            if r.is_err() {
                failed.push(id);
                proof {
                    lemma_push_fresh(failed_before, id);
                }
            }
            i += 1;
        }
        proof {
            assert(self.clients@.subrange(0, self.clients@.len() as int) =~= self.clients@);
        }
        failed
    }

    /// Sends the server list to one session, where one is due.
    pub fn send_server_list(&self, id: u32, now: u64, svr: &mut SessionRegistry) -> (r: Result<
        (),
        NetworkError,
    >)
        ensures
            final(svr).ids() == old(svr).ids(),
            server_list_packet(self.gs(), now) is None ==> r is Ok && forall|x: u32|
                #[trigger] final(svr).accepted(x) == old(svr).accepted(x),
            server_list_packet(self.gs(), now) matches Some(p) ==> (!old(svr).has(id) ==> r
                == Err::<(), NetworkError>(NetworkError::SessionNotFound)) && (old(svr).has(id) ==> r
                != Err::<(), NetworkError>(NetworkError::SessionNotFound)) && forall|x: u32|
                #[trigger] final(svr).accepted(x) == if r is Ok && x == id {
                    old(svr).accepted(id).push(p)
                } else {
                    old(svr).accepted(x)
                },
    {
        match self.new_server_list_pkt(now) {
            None => Ok(()),
            Some(pkt) => svr.send(id, pkt),
        }
    }

    /// Asks each listed session to close; a session whose queue refuses
    /// the close signal is left to its reader's end.
    fn close_all(ids: &Vec<u32>, svr: &mut SessionRegistry)
        requires
            ids@.no_duplicates(),
        ensures
            final(svr).ids() == old(svr).ids(),
            forall|x: u32|
                !ids@.contains(x) ==> #[trigger] final(svr).accepted(x) == old(svr).accepted(x),
            forall|x: u32|
                ids@.contains(x) ==> #[trigger] final(svr).accepted(x) == old(svr).accepted(x)
                    || final(svr).accepted(x) == old(svr).accepted(x).push(close_signal()),
    {
        let mut k: usize = 0;
        while k < ids.len()
            invariant
                0 <= k <= ids@.len(),
                ids@.no_duplicates(),
                svr.ids() == old(svr).ids(),
                forall|x: u32|
                    !ids@.subrange(0, k as int).contains(x) ==> #[trigger] svr.accepted(x) == old(svr).accepted(x),
                forall|x: u32|
                    ids@.subrange(0, k as int).contains(x) ==> #[trigger] svr.accepted(x) == old(svr).accepted(x) || svr.accepted(x) == old(svr).accepted(x).push(close_signal()),
            decreases ids@.len() - k,
        {
            let id = ids[k];
            let ghost before = ids@.subrange(0, k as int);
            proof {
                assert(ids@.subrange(0, k + 1) =~= before.push(id));
                assert(!before.contains(id)) by {
                    if before.contains(id) {
                        let j = before.index_of(id);
                        assert(ids@[j] == id);
                    }
                }
            }
            proof {
                assert forall|x: u32| before.contains(x) implies #[trigger] before.push(id).contains(
                    x,
                ) by {
                    let j = before.index_of(x);
                    assert(before.push(id)[j] == x);
                }
                assert(before.push(id)[before.len() as int] == id);
                assert forall|x: u32| #[trigger] before.push(id).contains(x) implies (before.contains(
                    x,
                ) || x == id) by {
                    let j = before.push(id).index_of(x);
                    if j < before.len() {
                        assert(before[j] == x);
                    }
                }
            }
            let _ = svr.close(id);
            k += 1;
        }
        proof {
            assert(ids@.subrange(0, ids@.len() as int) =~= ids@);
        }
    }

    /// Pushes the current server list to every client, closing those whose
    /// queue refuses it; returns the ids it asked to close.
    pub fn broadcast_server_list_upd(&self, now: u64, svr: &mut SessionRegistry) -> (closed: Vec<
        u32,
    >)
        ensures
            final(svr).ids() == old(svr).ids(),
            server_list_packet(self.gs(), now) is None ==> closed@.len() == 0 && forall|x: u32|
                #[trigger] final(svr).accepted(x) == old(svr).accepted(x),
            server_list_packet(self.gs(), now) matches Some(p) ==> {
                &&& forall|x: u32| #[trigger] closed@.contains(x) ==> self.clients().contains(x)
                &&& forall|x: u32|
                    self.clients().contains(x) && !old(svr).has(x) ==> #[trigger] closed@.contains(x)
                &&& forall|x: u32|
                    !self.clients().contains(x) ==> #[trigger] final(svr).accepted(x) == old(svr).accepted(x)
                &&& forall|x: u32|
                    self.clients().contains(x) && !closed@.contains(x) ==> #[trigger] final(svr).accepted(x) == old(svr).accepted(x).push(p)
                &&& forall|x: u32|
                    closed@.contains(x) ==> #[trigger] final(svr).accepted(x) == old(svr).accepted(x) || final(svr).accepted(x) == old(svr).accepted(x).push(close_signal())
            },
    {
        match self.new_server_list_pkt(now) {
            None => Vec::new(),
            Some(pkt) => {
                let failed = self.broadcast(&pkt, svr);
                Handler::close_all(&failed, svr);
                failed
            },
        }
    }

    /// A game server's report: its entry is created or refreshed and
    /// stamped with `now`, then every client gets the new list. A report
    /// from a server not in a full table is dropped.
    pub fn on_server_info(&mut self, msg: ServerInfo, now: u64, svr: &mut SessionRegistry) -> (closed:
        Vec<u32>)
        ensures
            final(self).clients() == old(self).clients(),
            final(self).gs() == gs_after_info(old(self).gs(), msg, now),
            final(svr).ids() == old(svr).ids(),
            info_taken(old(self).gs(), msg) ==> Handler::fanned_out(
                final(self).gs(),
                final(self).clients(),
                now,
                *old(svr),
                *final(svr),
                closed@,
            ),
            !info_taken(old(self).gs(), msg) ==> closed@.len() == 0 && nothing_sent(
                *old(svr),
                *final(svr),
            ),
    {
        proof {
            use_type_invariant(&*self);
        }
        match self.find_gs(msg.svr_code) {
            Some(i) => {
                let mut gs_map: Vec<GSInstance> = Vec::new();
                std::mem::swap(&mut gs_map, &mut self.gs_map);
                let mut g = gs_map[i];
                g.perc = msg.perc;
                g.usr_cnt = msg.usr_cnt;
                g.acc_cnt = msg.acc_cnt;
                g.mx_usr_cnt = msg.mx_usr_cnt;
                g.last_seen = Some(now);
                proof {
                    let j = choose|j: int|
                        0 <= j < gs_map@.len() && gs_map@[j].svr_code == msg.svr_code;
                    assert(j == i);
                }
                gs_map.set(i, g);
                self.gs_map = gs_map;
                proof {
                    assert(self.gs_map@ =~= gs_after_info(old(self).gs(), msg, now));
                }
            },
            None => {
                if self.gs_map.len() >= MAX_GAME_SERVERS {
                    return Vec::new();
                }
                let mut gs_map: Vec<GSInstance> = Vec::new();
                std::mem::swap(&mut gs_map, &mut self.gs_map);
                gs_map.push(
                    GSInstance {
                        svr_code: msg.svr_code,
                        ip: msg.ip,
                        port: msg.port,
                        perc: msg.perc,
                        usr_cnt: msg.usr_cnt,
                        acc_cnt: msg.acc_cnt,
                        mx_usr_cnt: msg.mx_usr_cnt,
                        last_seen: Some(now),
                    },
                );
                self.gs_map = gs_map;
                proof {
                    assert(self.gs_map@ =~= gs_after_info(old(self).gs(), msg, now));
                }
            },
        }
        self.broadcast_server_list_upd(now, svr)
    }

    fn has_client(&self, id: u32) -> (r: Option<usize>)
        ensures
            r is Some <==> self.clients().contains(id),
            r matches Some(i) ==> i < self.clients().len() && self.clients()[i as int] == id,
    {
        let mut i: usize = 0;
        while i < self.clients.len()
            invariant
                0 <= i <= self.clients@.len(),
                forall|j: int| 0 <= j < i ==> self.clients@[j] != id,
            decreases self.clients@.len() - i,
        {
            if self.clients[i] == id {
                return Some(i);
            }
            i += 1;
        }
        None
    }

    /// A client connected: it is sent the accepted answer and then the
    /// server list where one is due, and joins the clients. Where either
    /// send fails it is asked to close instead and is not kept; its id is
    /// returned.
    pub fn on_client_connected(&mut self, id: u32, now: u64, svr: &mut SessionRegistry) -> (closed:
        Vec<u32>)
        ensures
            final(self).gs() == old(self).gs(),
            Handler::onboarded(
                old(self).gs(),
                old(self).clients(),
                final(self).clients(),
                id,
                now,
                *old(svr),
                *final(svr),
                closed@,
            ),
    {
        proof {
            use_type_invariant(&*self);
        }
        let res = ConnectResult { res: 1 };
        proof {
            assert(res.wire() =~= seq![1u8]);
        }
        if svr.send(id, res.to_packet()).is_err() {
            let _ = svr.close(id);
            let closed = vec![id];
            proof {
                assert(closed@ =~= seq![id]);
                let b = old(svr).accepted(id);
                assert(b + onboarding(old(self).gs(), now).take(0) =~= b);
                assert(onboarding_cut_short(b, svr.accepted(id), old(self).gs(), now));
            }
            return closed;
        }
        let ghost mid = *svr;
        if self.send_server_list(id, now, svr).is_err() {
            let _ = svr.close(id);
            let closed = vec![id];
            proof {
                assert(closed@ =~= seq![id]);
                let b = old(svr).accepted(id);
                assert(server_list_packet(old(self).gs(), now) is Some);
                assert(b + onboarding(old(self).gs(), now).take(1) =~= b.push(connect_accepted()));
                assert(onboarding_cut_short(b, svr.accepted(id), old(self).gs(), now));
            }
            return closed;
        }
        proof {
            assert forall|x: u32| #[trigger] svr.accepted(x) == if x == id {
                old(svr).accepted(id) + onboarding(old(self).gs(), now)
            } else {
                old(svr).accepted(x)
            } by {
                if x == id {
                    match server_list_packet(self.gs(), now) {
                        None => {
                            assert(old(svr).accepted(id).push(connect_accepted()) =~= old(
                                svr,
                            ).accepted(id) + onboarding(old(self).gs(), now));
                        },
                        Some(p) => {
                            assert(old(svr).accepted(id).push(connect_accepted()).push(p) =~= old(
                                svr,
                            ).accepted(id) + onboarding(old(self).gs(), now));
                        },
                    }
                }
            }
        }
        if self.has_client(id).is_none() {
            let mut clients: Vec<u32> = Vec::new();
            std::mem::swap(&mut clients, &mut self.clients);
            clients.push(id);
            proof {
                lemma_push_fresh(old(self).clients(), id);
            }
            self.clients = clients;
        }
        Vec::new()
    }

    /// What connecting client `id` did: either it was sent its onboarding
    /// packets and joined the clients, or it was asked to close and left
    /// out. A client with no registered session is always left out. No
    /// other session's queue is touched.
    pub open spec fn onboarded(
        gs: Seq<GSInstance>,
        clients_before: Seq<u32>,
        clients_after: Seq<u32>,
        id: u32,
        now: u64,
        before: SessionRegistry,
        after: SessionRegistry,
        closed: Seq<u32>,
    ) -> bool {
        &&& after.ids() == before.ids()
        &&& forall|x: u32| x != id ==> #[trigger] after.accepted(x) == before.accepted(x)
        &&& (closed.len() == 0 || closed == seq![id])
        &&& !before.has(id) ==> closed == seq![id]
        &&& closed.len() == 0 ==> {
            &&& after.accepted(id) == before.accepted(id) + onboarding(gs, now)
            &&& clients_after == if clients_before.contains(id) {
                clients_before
            } else {
                clients_before.push(id)
            }
        }
        &&& closed == seq![id] ==> {
            &&& clients_after == clients_before
            &&& onboarding_cut_short(before.accepted(id), after.accepted(id), gs, now)
        }
    }

    /// A client went away: it leaves the clients.
    pub fn on_client_disconnected(&mut self, id: u32)
        ensures
            final(self).gs() == old(self).gs(),
            !final(self).clients().contains(id),
            forall|x: u32|
                x != id ==> (final(self).clients().contains(x) <==> old(self).clients().contains(x)),
    {
        proof {
            use_type_invariant(&*self);
        }
        if let Some(i) = self.has_client(id) {
            let ghost old_clients = self.clients@;
            let mut clients: Vec<u32> = Vec::new();
            std::mem::swap(&mut clients, &mut self.clients);
            clients.remove(i);
            proof {
                assert(clients@ =~= old_clients.remove(i as int));
                lemma_remove_at(old_clients, i as int);
            }
            self.clients = clients;
        }
    }

    /// A packet from a client. Only the join-queue request is known, and it
    /// asks for nothing yet; anything else is dropped.
    pub fn on_client_received(&self, _id: u32, _pkt: &MuPacket) {
    }

    /// A game server connected. It counts only once it reports itself.
    pub fn on_server_connected(&self, _id: u32) {
    }

    /// A game server went away. Its entry stays and ages out of the list
    /// unless it reports again, so clients do not see it drop and return
    /// across a reconnect.
    pub fn on_server_disconnected(&self, _id: u32) {
    }

    /// A packet from a game server: a readable report is applied as
    /// `on_server_info` says; anything else is dropped.
    pub fn on_server_received(&mut self, pkt: &MuPacket, now: u64, svr: &mut SessionRegistry) -> (closed:
        Vec<u32>)
        ensures
            final(self).clients() == old(self).clients(),
            Handler::report_applied(
                pkt@,
                old(self).gs(),
                final(self).gs(),
                final(self).clients(),
                now,
                *old(svr),
                *final(svr),
                closed@,
            ),
    {
        if pkt.code() == SERVER_INFO_CODE {
            match ServerInfo::parse(pkt.data()) {
                Some(msg) => {
                    return self.on_server_info(msg, now, svr);
                },
                None => {},
            }
        }
        Vec::new()
    }

    /// What a game server's packet `pkt` did to the table and the clients'
    /// queues.
    pub open spec fn report_applied(
        pkt: PacketView,
        gs_before: Seq<GSInstance>,
        gs_after: Seq<GSInstance>,
        clients: Seq<u32>,
        now: u64,
        before: SessionRegistry,
        after: SessionRegistry,
        closed: Seq<u32>,
    ) -> bool {
        if pkt.code == SERVER_INFO_CODE && ServerInfo::readable(pkt.payload) {
            exists|msg: ServerInfo|
                {
                    &&& #[trigger] ServerInfo::decodes_to(pkt.payload, msg)
                    &&& gs_after == gs_after_info(gs_before, msg, now)
                    &&& after.ids() == before.ids()
                    &&& info_taken(gs_before, msg) ==> Handler::fanned_out(
                        gs_after,
                        clients,
                        now,
                        before,
                        after,
                        closed,
                    )
                    &&& !info_taken(gs_before, msg) ==> closed.len() == 0 && nothing_sent(
                        before,
                        after,
                    )
                }
        } else {
            &&& gs_after == gs_before
            &&& closed.len() == 0
            &&& nothing_sent(before, after)
        }
    }

    /// Handles one event of the bus at time `now` and returns the ids of
    /// the sessions it asked to close.
    pub fn handle(&mut self, evt: Event, now: u64, svr: &mut SessionRegistry) -> (closed: Vec<u32>)
        ensures
            match evt {
                Event::ClientConnected(id, OriginKind::Client) => {
                    &&& final(self).gs() == old(self).gs()
                    &&& Handler::onboarded(
                        old(self).gs(),
                        old(self).clients(),
                        final(self).clients(),
                        id,
                        now,
                        *old(svr),
                        *final(svr),
                        closed@,
                    )
                },
                Event::ClientDisconnected(id, OriginKind::Client) => {
                    &&& final(self).gs() == old(self).gs()
                    &&& !final(self).clients().contains(id)
                    &&& forall|x: u32|
                        x != id ==> (final(self).clients().contains(x) <==> old(
                            self,
                        ).clients().contains(x))
                    &&& closed@.len() == 0
                    &&& nothing_sent(*old(svr), *final(svr))
                },
                Event::ClientPacket(_, OriginKind::GameServer, pkt) => {
                    &&& final(self).clients() == old(self).clients()
                    &&& Handler::report_applied(
                        pkt@,
                        old(self).gs(),
                        final(self).gs(),
                        final(self).clients(),
                        now,
                        *old(svr),
                        *final(svr),
                        closed@,
                    )
                },
                _ => {
                    &&& final(self).gs() == old(self).gs()
                    &&& final(self).clients() == old(self).clients()
                    &&& closed@.len() == 0
                    &&& nothing_sent(*old(svr), *final(svr))
                },
            },
    {
        match evt {
            Event::ClientConnected(id, OriginKind::Client) => self.on_client_connected(id, now, svr),
            Event::ClientConnected(id, OriginKind::GameServer) => {
                self.on_server_connected(id);
                Vec::new()
            },
            Event::ClientDisconnected(id, OriginKind::Client) => {
                self.on_client_disconnected(id);
                Vec::new()
            },
            Event::ClientDisconnected(id, OriginKind::GameServer) => {
                self.on_server_disconnected(id);
                Vec::new()
            },
            Event::ClientPacket(id, OriginKind::Client, pkt) => {
                self.on_client_received(id, &pkt);
                Vec::new()
            },
            Event::ClientPacket(_, OriginKind::GameServer, pkt) => self.on_server_received(
                &pkt,
                now,
                svr,
            ),
        }
    }

    /// What pushing the list of `gs` at `now` to `clients` did to the
    /// registry, going from `before` to `after` and closing `closed`.
    pub open spec fn fanned_out(
        gs: Seq<GSInstance>,
        clients: Seq<u32>,
        now: u64,
        before: SessionRegistry,
        after: SessionRegistry,
        closed: Seq<u32>,
    ) -> bool {
        match server_list_packet(gs, now) {
            None => closed.len() == 0 && forall|x: u32|
                #[trigger] after.accepted(x) == before.accepted(x),
            Some(p) => {
                &&& forall|x: u32| #[trigger] closed.contains(x) ==> clients.contains(x)
                &&& forall|x: u32|
                    clients.contains(x) && !before.has(x) ==> #[trigger] closed.contains(x)
                &&& forall|x: u32|
                    !clients.contains(x) ==> #[trigger] after.accepted(x) == before.accepted(x)
                &&& forall|x: u32|
                    clients.contains(x) && !closed.contains(x) ==> #[trigger] after.accepted(x)
                        == before.accepted(x).push(p)
                &&& forall|x: u32|
                    closed.contains(x) ==> #[trigger] after.accepted(x) == before.accepted(x)
                        || after.accepted(x) == before.accepted(x).push(close_signal())
            },
        }
    }
}

/// `e` is the entry of some alive server of `gs`.
pub open spec fn from_alive_server(gs: Seq<GSInstance>, now: u64, e: (u16, u8)) -> bool {
    exists|k: int| 0 <= k < gs.len() && spec_alive(gs[k].last_seen, now) && e == gs[k].spec_entry()
}

/// Every entry of the list comes from an alive server of the table.
pub proof fn lemma_live_entries_source(gs: Seq<GSInstance>, now: u64)
    ensures
        forall|j: int|
            0 <= j < live_entries(gs, now).len() ==> #[trigger] from_alive_server(
                gs,
                now,
                live_entries(gs, now)[j],
            ),
    decreases gs.len(),
{
    if gs.len() > 0 {
        let rest = gs.drop_last();
        lemma_live_entries_source(rest, now);
        let e = live_entries(gs, now);
        let re = live_entries(rest, now);
        assert forall|j: int| 0 <= j < e.len() implies #[trigger] from_alive_server(
            gs,
            now,
            e[j],
        ) by {
            if j < re.len() {
                assert(from_alive_server(rest, now, re[j]));
                let k = choose|k: int|
                    0 <= k < rest.len() && spec_alive(rest[k].last_seen, now) && re[j]
                        == rest[k].spec_entry();
                assert(gs[k] == rest[k]);
                assert(e[j] == re[j]);
            } else {
                let k = gs.len() - 1;
                assert(spec_alive(gs.last().last_seen, now));
                assert(e == re.push(gs.last().spec_entry()));
                assert(gs[k] == gs.last());
                assert(e[j] == gs[k].spec_entry());
            }
        }
    }
}

/// Liveness filter: a server whose last report is older than the liveness
/// window gets no entry in the server list, although it keeps its place in
/// the table.
pub proof fn lemma_stale_server_excluded(gs: Seq<GSInstance>, now: u64, i: int)
    requires
        codes_unique(gs),
        0 <= i < gs.len(),
        !spec_alive(gs[i].last_seen, now),
    ensures
        forall|j: int|
            0 <= j < live_entries(gs, now).len() ==> #[trigger] live_entries(gs, now)[j].0
                != gs[i].svr_code,
{
    lemma_live_entries_source(gs, now);
    assert forall|j: int| 0 <= j < live_entries(gs, now).len() implies #[trigger] live_entries(
        gs,
        now,
    )[j].0 != gs[i].svr_code by {
        assert(from_alive_server(gs, now, live_entries(gs, now)[j]));
        let k = choose|k: int|
            0 <= k < gs.len() && spec_alive(gs[k].last_seen, now) && live_entries(gs, now)[j]
                == gs[k].spec_entry();
        assert(k != i);
    }
}

/// Each alive server of the table has its `(code, load)` entry in the list.
pub proof fn lemma_alive_server_listed(gs: Seq<GSInstance>, now: u64, i: int)
    requires
        0 <= i < gs.len(),
        spec_alive(gs[i].last_seen, now),
    ensures
        live_entries(gs, now).contains(gs[i].spec_entry()),
    decreases gs.len(),
{
    let rest = gs.drop_last();
    if i == gs.len() - 1 {
        let e = live_entries(gs, now);
        assert(e[e.len() - 1] == gs[i].spec_entry());
    } else {
        assert(rest[i] == gs[i]);
        lemma_alive_server_listed(rest, now, i);
        let r = live_entries(rest, now);
        let k = r.index_of(gs[i].spec_entry());
        assert(live_entries(gs, now)[k] == r[k]);
    }
}

/// Reports never drop a server from the table: every entry keeps its
/// place and its code, however stale it is.
pub proof fn lemma_report_keeps_table(gs: Seq<GSInstance>, msg: ServerInfo, now: u64)
    ensures
        gs_after_info(gs, msg, now).len() >= gs.len(),
        forall|i: int|
            0 <= i < gs.len() ==> #[trigger] gs_after_info(gs, msg, now)[i].svr_code
                == gs[i].svr_code,
{
}

/// Empty-list suppression: with no server alive there is no server list,
/// so a new client gets the accepted answer alone and a report sends
/// nothing to anyone.
pub proof fn lemma_no_live_server_no_list(
    gs: Seq<GSInstance>,
    now: u64,
    clients: Seq<u32>,
    before: SessionRegistry,
    after: SessionRegistry,
    closed: Seq<u32>,
)
    requires
        forall|i: int| 0 <= i < gs.len() ==> !spec_alive(#[trigger] gs[i].last_seen, now),
    ensures
        server_list_packet(gs, now) is None,
        onboarding(gs, now) == seq![connect_accepted()],
        Handler::fanned_out(gs, clients, now, before, after, closed) ==> closed.len() == 0
            && forall|x: u32| #[trigger] after.accepted(x) == before.accepted(x),
{
    lemma_live_entries_source(gs, now);
    if live_entries(gs, now).len() > 0 {
        assert(from_alive_server(gs, now, live_entries(gs, now)[0]));
        let k = choose|k: int|
            0 <= k < gs.len() && spec_alive(gs[k].last_seen, now) && live_entries(gs, now)[0]
                == gs[k].spec_entry();
        assert(!spec_alive(gs[k].last_seen, now));
    }
}

/// A client that connects while no server is alive and is kept gets the
/// accepted answer and nothing else; no server list goes out.
pub proof fn lemma_onboarding_without_live_servers(
    gs: Seq<GSInstance>,
    clients_before: Seq<u32>,
    clients_after: Seq<u32>,
    id: u32,
    now: u64,
    before: SessionRegistry,
    after: SessionRegistry,
    closed: Seq<u32>,
)
    requires
        forall|i: int| 0 <= i < gs.len() ==> !spec_alive(#[trigger] gs[i].last_seen, now),
        Handler::onboarded(gs, clients_before, clients_after, id, now, before, after, closed),
        closed.len() == 0,
    ensures
        after.accepted(id) == before.accepted(id).push(connect_accepted()),
{
    lemma_no_live_server_no_list(gs, now, clients_before, before, after, closed);
    assert(before.accepted(id) + seq![connect_accepted()] =~= before.accepted(id).push(
        connect_accepted(),
    ));
}

/// Client onboarding: a client that connects while some server is alive
/// and is kept gets the accepted answer, then one server list whose entries
/// are exactly the `(code, load)` pairs of the alive servers.
pub proof fn lemma_onboarding_lists_live_servers(
    gs: Seq<GSInstance>,
    clients_before: Seq<u32>,
    clients_after: Seq<u32>,
    id: u32,
    now: u64,
    before: SessionRegistry,
    after: SessionRegistry,
    closed: Seq<u32>,
    alive: int,
)
    requires
        0 <= alive < gs.len(),
        spec_alive(gs[alive].last_seen, now),
        Handler::onboarded(gs, clients_before, clients_after, id, now, before, after, closed),
        closed.len() == 0,
    ensures
        ({
            let e = live_entries(gs, now);
            &&& after.accepted(id) == before.accepted(id).push(connect_accepted()).push(
                ProtoMsg::ServerList.packet_of(u16_bytes(e.len() as u16) + entries_wire(e)),
            )
            &&& forall|i: int|
                0 <= i < gs.len() && spec_alive(gs[i].last_seen, now) ==> e.contains(
                    #[trigger] gs[i].spec_entry(),
                )
            &&& forall|j: int| 0 <= j < e.len() ==> #[trigger] from_alive_server(gs, now, e[j])
        }),
{
    let e = live_entries(gs, now);
    lemma_alive_server_listed(gs, now, alive);
    lemma_live_entries_source(gs, now);
    assert forall|i: int| 0 <= i < gs.len() && spec_alive(gs[i].last_seen, now) implies e.contains(
        #[trigger] gs[i].spec_entry(),
    ) by {
        lemma_alive_server_listed(gs, now, i);
    }
    let p = ProtoMsg::ServerList.packet_of(u16_bytes(e.len() as u16) + entries_wire(e));
    assert(e.len() > 0);
    assert(before.accepted(id) + seq![connect_accepted(), p] =~= before.accepted(id).push(
        connect_accepted(),
    ).push(p));
}

/// A report that the table takes puts its server in the list at once:
/// the list is due, and it holds the server's code with the load the
/// report gives.
pub proof fn lemma_report_listed(gs: Seq<GSInstance>, msg: ServerInfo, now: u64)
    requires
        info_taken(gs, msg),
    ensures
        live_entries(gs_after_info(gs, msg, now), now).contains(
            (msg.svr_code, spec_load(msg.usr_cnt, msg.mx_usr_cnt)),
        ),
        server_list_packet(gs_after_info(gs, msg, now), now) is Some,
{
    let g2 = gs_after_info(gs, msg, now);
    if exists|i: int| 0 <= i < gs.len() && gs[i].svr_code == msg.svr_code {
        let i = choose|i: int| 0 <= i < gs.len() && gs[i].svr_code == msg.svr_code;
        assert(g2[i] == gs[i].refreshed(msg, now));
        lemma_alive_server_listed(g2, now, i);
    } else {
        assert(g2[gs.len() as int] == GSInstance::from_info(msg, now));
        lemma_alive_server_listed(g2, now, gs.len() as int);
    }
}

} // verus!
