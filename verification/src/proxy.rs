//! The proxy's decisions: which datagrams open a session, which are forwarded to
//! the server, and in what form.
use vstd::prelude::*;
use crate::packet::{packet, spec_packet, DataPacket, DataView, ParseResult};
use crate::serializer::{packet_bytes, serialize};
use crate::roundtrip::law_packet_serialize_parse;
use vstd::utf8::is_ascii_chars;
use vstd::slice::slice_to_vec;

verus! {

/// A socket address as plain values: the IP address as a number (IPv4 in the
/// low 32 bits), the port, and for IPv6 the flow information and scope id.
#[derive(Debug, Clone, Copy, PartialEq, Eq, Structural)]
pub struct Endpoint {
    pub ip: u128,
    pub is_v6: bool,
    pub port: u16,
    pub flowinfo: u32,
    pub scope_id: u32,
}

/// A client of the proxy, known by the address its datagrams come from.
#[derive(Debug)]
pub struct Client {
    pub source_addr: Endpoint,
    pub player_name: String,
}

impl Client {
    /// A client seen for the first time; its player name is not known yet.
    pub fn new(source_addr: Endpoint) -> (c: Client)
        ensures
            c.source_addr == source_addr,
            c.player_name@ == Seq::<char>::empty(),
    {
        Client { source_addr, player_name: String::new() }
    }

    /// Records the name the player joined with.
    pub fn set_player_name(&mut self, player_name: &String)
        ensures
            final(self).source_addr == old(self).source_addr,
            final(self).player_name@ == player_name@,
    {
        self.player_name = player_name.clone();
    }
}

/// What a forwarded datagram was, as far as the proxy looked into it.
#[derive(Debug)]
pub enum Event {
    /// A player joined with this name.
    PlayerJoined { player_name: String },
    /// A player said something in chat.
    ChatMessage { player_name: String, message: String },
    /// Anything else.
    Other,
}

/// What to do with a datagram from a client.
#[derive(Debug)]
pub enum Route {
    /// The sender was new: a session was opened for it; then send these bytes
    /// to the server for it, as for any client.
    NewClient { payload: Vec<u8>, event: Event },
    /// The sender was new but the player limit is reached: no session, and the
    /// datagram goes no further.
    Refused,
    /// Send these bytes to the server for the sender's session.
    Forward { payload: Vec<u8>, event: Event },
}

/// Abstract value of an `Event`.
pub enum EventView {
    PlayerJoined { player_name: Seq<char> },
    ChatMessage { player_name: Seq<char>, message: Seq<char> },
    Other,
}

/// Abstract value of a `Route`.
pub enum RouteView {
    NewClient { payload: Seq<u8>, event: EventView },
    Refused,
    Forward { payload: Seq<u8>, event: EventView },
}

impl View for Event {
    type V = EventView;

    open spec fn view(&self) -> EventView {
        match self {
            Event::PlayerJoined { player_name } => EventView::PlayerJoined {
                player_name: player_name@,
            },
            Event::ChatMessage { player_name, message } => EventView::ChatMessage {
                player_name: player_name@,
                message: message@,
            },
            Event::Other => EventView::Other,
        }
    }
}

impl View for Route {
    type V = RouteView;

    open spec fn view(&self) -> RouteView {
        match self {
            Route::NewClient { payload, event } => RouteView::NewClient {
                payload: payload@,
                event: event@,
            },
            Route::Refused => RouteView::Refused,
            Route::Forward { payload, event } => RouteView::Forward {
                payload: payload@,
                event: event@,
            },
        }
    }
}

/// A session: the address a client sends from and its player name.
pub type Session = (Endpoint, Seq<char>);

/// Whether one more player may connect when `count` are connected: a negative
/// limit means no limit.
pub open spec fn admits(player_limit: i32, count: int) -> bool {
    player_limit < 0 || count < player_limit
}

/// No two sessions share an address.
pub open spec fn sources_distinct(sessions: Seq<Session>) -> bool {
    forall|i: int, j: int|
        0 <= i < sessions.len() && 0 <= j < sessions.len() && i != j ==> #[trigger] sessions[i].0
            != #[trigger] sessions[j].0
}

/// There are no more sessions than the limit allows.
pub open spec fn within_limit(player_limit: i32, count: int) -> bool {
    player_limit < 0 || count <= player_limit
}

/// Whether some session has the address `source`.
pub open spec fn has_session(sessions: Seq<Session>, source: Endpoint) -> bool {
    exists|i: int| 0 <= i < sessions.len() && #[trigger] sessions[i].0 == source
}

/// The session with the address `source`, where there is one.
pub open spec fn session_of(sessions: Seq<Session>, source: Endpoint) -> int {
    choose|i: int| 0 <= i < sessions.len() && #[trigger] sessions[i].0 == source
}

/// What is sent on for a datagram `msg` from the client of session `i`, and the
/// sessions afterwards: a join renames the session and goes as it came; a chat
/// message goes re-encoded; anything else, readable or not, goes as it came.
pub open spec fn spec_forward(sessions: Seq<Session>, i: int, source: Endpoint, msg: Seq<u8>) -> (
    Seq<Session>,
    Seq<u8>,
    EventView,
) {
    match spec_packet(msg) {
        ParseResult::Done(_, p) => match p.data_packet {
            Some(DataView::Init(d)) => (
                sessions.update(i, (source, d.player_name)),
                msg,
                EventView::PlayerJoined { player_name: d.player_name },
            ),
            Some(DataView::Chat(c)) => (
                sessions,
                packet_bytes(p),
                EventView::ChatMessage { player_name: sessions[i].1, message: c.message },
            ),
            None => (sessions, msg, EventView::Other),
        },
        _ => (sessions, msg, EventView::Other),
    }
}

/// The decision on a datagram `msg` from `source`: the sessions afterwards and
/// the route. A new address opens a session, if the limit admits one more, and
/// its datagram is then sent on as any client's is; an address the limit does
/// not admit gets no session and its datagram goes no further. For a known
/// address the datagram is sent on.
pub open spec fn spec_handle(
    sessions: Seq<Session>,
    player_limit: i32,
    source: Endpoint,
    msg: Seq<u8>,
) -> (Seq<Session>, RouteView) {
    if !has_session(sessions, source) {
        if admits(player_limit, sessions.len() as int) {
            let (after, payload, event) = spec_forward(
                sessions.push((source, Seq::empty())),
                sessions.len() as int,
                source,
                msg,
            );
            (after, RouteView::NewClient { payload, event })
        } else {
            (sessions, RouteView::Refused)
        }
    } else {
        let (after, payload, event) = spec_forward(
            sessions,
            session_of(sessions, source),
            source,
            msg,
        );
        (after, RouteView::Forward { payload, event })
    }
}

/// The proxy's clients and its player limit.
pub struct ProxyState {
    clients: Vec<Client>,
    player_limit: i32,
}

impl ProxyState {
    /// The sessions, in the order they were opened.
    pub closed spec fn sessions(&self) -> Seq<Session> {
        self.clients@.map_values(|c: Client| (c.source_addr, c.player_name@))
    }

    /// The player limit; negative for none.
    pub closed spec fn player_limit(&self) -> i32 {
        self.player_limit
    }

    #[verifier::type_invariant]
    closed spec fn inv(&self) -> bool {
        &&& sources_distinct(self.sessions())
        &&& within_limit(self.player_limit, self.sessions().len() as int)
    }

    /// A proxy without clients.
    pub fn new(player_limit: i32) -> (s: ProxyState)
        ensures
            s.sessions() == Seq::<Session>::empty(),
            s.player_limit() == player_limit,
    {
        let s = ProxyState { clients: Vec::new(), player_limit };
        assert(s.sessions() =~= Seq::<Session>::empty());
        s
    }

    /// The number of clients.
    pub fn client_count(&self) -> (n: usize)
        ensures
            n == self.sessions().len(),
    {
        self.clients.len()
    }

    /// The index of the client sending from `source`, if any.
    fn find(&self, source: Endpoint) -> (r: Option<usize>)
        ensures
            r is Some <==> has_session(self.sessions(), source),
            r matches Some(i) ==> i < self.sessions().len() && self.sessions()[i as int].0 == source,
    {
        let mut i: usize = 0;
        while i < self.clients.len()
            invariant
                i <= self.clients@.len(),
                forall|j: int| 0 <= j < i ==> #[trigger] self.sessions()[j].0 != source,
            decreases self.clients@.len() - i,
        {
            if self.clients[i].source_addr == source {
                assert(self.sessions()[i as int].0 == source);
                return Some(i);
            }
            i = i + 1;
        }
        None
    }

    /// Sends on the datagram `msg` from the client of session `i`.
    fn forward(&mut self, i: usize, source: Endpoint, msg: &[u8]) -> (r: (Vec<u8>, Event))
        requires
            i < old(self).sessions().len(),
            old(self).sessions()[i as int].0 == source,
        ensures
            (final(self).sessions(), r.0@, r.1@) == spec_forward(
                old(self).sessions(),
                i as int,
                source,
                msg@,
            ),
            final(self).player_limit() == old(self).player_limit(),
    {
        proof {
            use_type_invariant(&*self);
        }
        let ghost sessions = self.sessions();
        match packet(msg) {
            ParseResult::Done(_, p) => match &p.data_packet {
                Some(DataPacket::TOSERVER_INIT(d)) => {
                    let player_name = d.player_name.clone();
                    let mut clients: Vec<Client> = Vec::new();
                    std::mem::swap(&mut clients, &mut self.clients);
                    let mut client = clients.remove(i);
                    client.set_player_name(&player_name);
                    clients.insert(i, client);
                    proof {
                        let renamed = clients@.map_values(
                            |c: Client| (c.source_addr, c.player_name@),
                        );
                        assert(renamed =~= sessions.update(i as int, (source, d.player_name@)));
                        assert forall|a: int, b: int|
                            0 <= a < renamed.len() && 0 <= b < renamed.len() && a
                                != b implies #[trigger] renamed[a].0 != #[trigger] renamed[b].0 by {
                            assert(renamed[a].0 == sessions[a].0);
                            assert(renamed[b].0 == sessions[b].0);
                        }
                    }
                    self.clients = clients;
                    assert(self.sessions() =~= sessions.update(i as int, (source, d.player_name@)));
                    (slice_to_vec(msg), Event::PlayerJoined { player_name })
                },
                Some(DataPacket::TOSERVER_CHAT_MESSAGE(d)) => {
                    let player_name = self.clients[i].player_name.clone();
                    let message = d.message.clone();
                    let payload = match serialize(&p) {
                        Ok(bytes) => bytes,
                        Err(_) => slice_to_vec(msg),
                    };
                    (payload, Event::ChatMessage { player_name, message })
                },
                None => (slice_to_vec(msg), Event::Other),
            },
            _ => (slice_to_vec(msg), Event::Other),
        }
    }

    /// Decides what to do with the datagram `msg` from `source`, and records a
    /// new client or a player's name.
    pub fn handle_datagram(&mut self, source: Endpoint, msg: &[u8]) -> (r: Route)
        ensures
            (final(self).sessions(), r@) == spec_handle(
                old(self).sessions(),
                old(self).player_limit(),
                source,
                msg@,
            ),
            final(self).player_limit() == old(self).player_limit(),
            sources_distinct(final(self).sessions()),
            within_limit(final(self).player_limit(), final(self).sessions().len() as int),
    {
        proof {
            use_type_invariant(&*self);
        }
        let ghost sessions = self.sessions();
        let r = match self.find(source) {
            None => {
                if self.player_limit < 0 || (self.clients.len() as i64) < (self.player_limit as i64) {
                    let mut clients: Vec<Client> = Vec::new();
                    std::mem::swap(&mut clients, &mut self.clients);
                    clients.push(Client::new(source));
                    proof {
                        let grown = clients@.map_values(
                            |c: Client| (c.source_addr, c.player_name@),
                        );
                        assert(grown =~= sessions.push((source, Seq::empty())));
                        assert forall|a: int, b: int|
                            0 <= a < grown.len() && 0 <= b < grown.len() && a
                                != b implies #[trigger] grown[a].0 != #[trigger] grown[b].0 by {
                            if a < sessions.len() && b < sessions.len() {
                                assert(sessions[a].0 != sessions[b].0);
                            } else if a < sessions.len() {
                                assert(sessions[a].0 != source);
                            } else {
                                assert(sessions[b].0 != source);
                            }
                        }
                    }
                    self.clients = clients;
                    let ghost opened = sessions.push((source, Seq::empty()));
                    assert(self.sessions() =~= opened);
                    let last = self.clients.len() - 1;
                    assert(opened[last as int].0 == source);
                    let (payload, event) = self.forward(last, source, msg);
                    Route::NewClient { payload, event }
                } else {
                    Route::Refused
                }
            },
            Some(i) => {
                proof {
                    let k = session_of(sessions, source);
                    assert(sessions[k].0 == source);
                    assert(k == i);
                }
                let (payload, event) = self.forward(i, source, msg);
                Route::Forward { payload, event }
            },
        };
        proof {
            use_type_invariant(&*self);
        }
        r
    }
}

/// A chat line from a known client is forwarded exactly as it was received, up
/// to the end of the chat packet, when its text is ASCII and its code units
/// decoded (then the re-encoding has the length of what was read).
pub proof fn law_chat_forwarded_as_received(
    sessions: Seq<Session>,
    player_limit: i32,
    source: Endpoint,
    msg: Seq<u8>,
)
    requires
        msg.len() <= usize::MAX,
        has_session(sessions, source),
        spec_packet(msg) matches ParseResult::Done(n, p) && p.data_packet matches Some(
            DataView::Chat(c),
        ) && is_ascii_chars(c.message) && packet_bytes(p).len() == n,
    ensures
        spec_packet(msg) matches ParseResult::Done(n, _) && spec_handle(
            sessions,
            player_limit,
            source,
            msg,
        ).1 matches RouteView::Forward { payload, .. } && payload == msg.take(n as int),
{
    law_packet_serialize_parse(msg);
}


/// Where no two sessions share an address, the session of `source` is the one
/// holding that address.
proof fn lemma_session_of_index(sessions: Seq<Session>, source: Endpoint, i: int)
    requires
        sources_distinct(sessions),
        0 <= i < sessions.len(),
        sessions[i].0 == source,
    ensures
        has_session(sessions, source),
        session_of(sessions, source) == i,
{
    assert(has_session(sessions, source));
    let k = session_of(sessions, source);
    assert(sessions[k].0 == source);
    if k != i {
        assert(sessions[k].0 != sessions[i].0);
    }
}

/// Renaming a session keeps the addresses distinct.
proof fn lemma_rename_keeps_sources_distinct(
    sessions: Seq<Session>,
    i: int,
    name: Seq<char>,
)
    requires
        sources_distinct(sessions),
        0 <= i < sessions.len(),
    ensures
        sources_distinct(sessions.update(i, (sessions[i].0, name))),
{
    let renamed = sessions.update(i, (sessions[i].0, name));
    assert forall|a: int, b: int|
        0 <= a < renamed.len() && 0 <= b < renamed.len() && a != b implies #[trigger] renamed[a].0
        != #[trigger] renamed[b].0 by {
        assert(renamed[a].0 == sessions[a].0);
        assert(renamed[b].0 == sessions[b].0);
    }
}

/// A chat line from an address that has a session is reported under the name
/// recorded in that address's own session, whatever other sessions there are;
/// no session changes, and the line is sent on re-encoded.
pub proof fn law_chat_reported_under_sender_name(
    sessions: Seq<Session>,
    player_limit: i32,
    source: Endpoint,
    msg: Seq<u8>,
    i: int,
)
    requires
        sources_distinct(sessions),
        0 <= i < sessions.len(),
        sessions[i].0 == source,
        spec_packet(msg) matches ParseResult::Done(_, p) && p.data_packet matches Some(
            DataView::Chat(_),
        ),
    ensures
        spec_packet(msg) matches ParseResult::Done(_, p) && p.data_packet matches Some(
            DataView::Chat(c),
        ) && spec_handle(sessions, player_limit, source, msg) == (
            sessions,
            (RouteView::Forward {
                payload: packet_bytes(p),
                event: (EventView::ChatMessage { player_name: sessions[i].1, message: c.message }),
            }),
        ),
{
    lemma_session_of_index(sessions, source, i);
}

/// A join from an address that has a session names that session, and only it:
/// every other session is left as it was. The join is sent on as it came and
/// reported with the joined name.
pub proof fn law_join_names_sender_session(
    sessions: Seq<Session>,
    player_limit: i32,
    source: Endpoint,
    msg: Seq<u8>,
    i: int,
)
    requires
        sources_distinct(sessions),
        0 <= i < sessions.len(),
        sessions[i].0 == source,
        spec_packet(msg) matches ParseResult::Done(_, p) && p.data_packet matches Some(
            DataView::Init(_),
        ),
    ensures
        spec_packet(msg) matches ParseResult::Done(_, p) && p.data_packet matches Some(
            DataView::Init(d),
        ) && spec_handle(sessions, player_limit, source, msg) == (
            sessions.update(i, (source, d.player_name)),
            (RouteView::Forward {
                payload: msg,
                event: (EventView::PlayerJoined { player_name: d.player_name }),
            }),
        ),
{
    lemma_session_of_index(sessions, source, i);
}

/// A datagram from an address that has a session and that is neither a join
/// nor a chat line (unreadable, incomplete, or without a data packet the proxy
/// reads) is sent on exactly as it came, reported as nothing in particular, and
/// changes no session.
pub proof fn law_other_datagram_forwarded_unchanged(
    sessions: Seq<Session>,
    player_limit: i32,
    source: Endpoint,
    msg: Seq<u8>,
    i: int,
)
    requires
        sources_distinct(sessions),
        0 <= i < sessions.len(),
        sessions[i].0 == source,
        !(spec_packet(msg) matches ParseResult::Done(_, p) && p.data_packet is Some),
    ensures
        spec_handle(sessions, player_limit, source, msg) == (
            sessions,
            (RouteView::Forward { payload: msg, event: EventView::Other }),
        ),
{
    lemma_session_of_index(sessions, source, i);
}

/// A datagram from an address without a session, when the player limit admits
/// one more client, is not lost: a session is opened for the address after all
/// the others, and the datagram is handled exactly as it would be had that
/// session already been open and unnamed (the same sessions afterwards, the same
/// bytes sent on, the same event), only announced as coming from a new client.
pub proof fn law_new_address_handled_as_its_own_session(
    sessions: Seq<Session>,
    player_limit: i32,
    source: Endpoint,
    msg: Seq<u8>,
)
    requires
        sources_distinct(sessions),
        !has_session(sessions, source),
        admits(player_limit, sessions.len() as int),
    ensures
        sources_distinct(sessions.push((source, Seq::<char>::empty()))),
        spec_handle(sessions, player_limit, source, msg).0 == spec_handle(
            sessions.push((source, Seq::<char>::empty())),
            player_limit,
            source,
            msg,
        ).0,
        spec_handle(sessions, player_limit, source, msg).1 matches RouteView::NewClient {
            payload,
            event,
        } && spec_handle(
            sessions.push((source, Seq::<char>::empty())),
            player_limit,
            source,
            msg,
        ).1 == (RouteView::Forward { payload, event }),
{
    let opened = sessions.push((source, Seq::<char>::empty()));
    assert forall|a: int, b: int|
        0 <= a < opened.len() && 0 <= b < opened.len() && a != b implies #[trigger] opened[a].0
        != #[trigger] opened[b].0 by {
        if a < sessions.len() && b < sessions.len() {
            assert(sessions[a].0 != sessions[b].0);
        } else if a < sessions.len() {
            assert(sessions[a].0 != source);
        } else {
            assert(sessions[b].0 != source);
        }
    }
    assert(opened[sessions.len() as int].0 == source);
    lemma_session_of_index(opened, source, sessions.len() as int);
}

/// A datagram from an address without a session, when the player limit is
/// reached, opens no session and goes nowhere.
pub proof fn law_full_proxy_refuses_new_address(
    sessions: Seq<Session>,
    player_limit: i32,
    source: Endpoint,
    msg: Seq<u8>,
)
    requires
        !has_session(sessions, source),
        !admits(player_limit, sessions.len() as int),
    ensures
        spec_handle(sessions, player_limit, source, msg) == (sessions, RouteView::Refused),
{
}

/// A chat line that follows a join from the same address is reported under the
/// joined name, whatever other sessions there are, when the address had a
/// session or the player limit admitted one for it.
pub proof fn law_chat_after_join_carries_joined_name(
    sessions: Seq<Session>,
    player_limit: i32,
    source: Endpoint,
    join: Seq<u8>,
    chat: Seq<u8>,
)
    requires
        sources_distinct(sessions),
        has_session(sessions, source) || admits(player_limit, sessions.len() as int),
        spec_packet(join) matches ParseResult::Done(_, p) && p.data_packet matches Some(
            DataView::Init(_),
        ),
        spec_packet(chat) matches ParseResult::Done(_, p) && p.data_packet matches Some(
            DataView::Chat(_),
        ),
    ensures
        spec_packet(join) matches ParseResult::Done(_, p) && p.data_packet matches Some(
            DataView::Init(d),
        ) && spec_handle(
            spec_handle(sessions, player_limit, source, join).0,
            player_limit,
            source,
            chat,
        ).1 matches RouteView::Forward {
            event: EventView::ChatMessage { player_name, .. },
            ..
        } && player_name == d.player_name,
{
    let (before, i) = if has_session(sessions, source) {
        let k = session_of(sessions, source);
        assert(sessions[k].0 == source);
        (sessions, k)
    } else {
        law_new_address_handled_as_its_own_session(sessions, player_limit, source, join);
        let opened = sessions.push((source, Seq::<char>::empty()));
        (opened, sessions.len() as int)
    };
    assert(sources_distinct(before) && 0 <= i < before.len() && before[i].0 == source);
    law_join_names_sender_session(before, player_limit, source, join, i);
    if let ParseResult::Done(_, p) = spec_packet(join) {
        if let Some(DataView::Init(d)) = p.data_packet {
            let after = before.update(i, (source, d.player_name));
            assert(spec_handle(sessions, player_limit, source, join).0 == after);
            lemma_rename_keeps_sources_distinct(before, i, d.player_name);
            assert(after[i].0 == source && after[i].1 == d.player_name);
            law_chat_reported_under_sender_name(after, player_limit, source, chat, i);
        }
    }
}

} // verus!
