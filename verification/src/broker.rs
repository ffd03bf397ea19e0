//! The bookkeeping of the message broker: which connections are live, which
//! kinds of message have a handler, what a frame from a connection leads to
//! and whom a packet goes to.
//!
//! The broker's caller owns the sockets and the handlers. It asks here what
//! to do and tells here what happened.

use crate::codec::{
    decode_envelope, encode_envelope, envelope_bytes, parse_envelope, DecodeError, NetworkPacket,
};
use crate::messages::ConnectionId;
use crate::text::{decimal, decimal_string};
use std::collections::HashSet;
use vstd::prelude::*;
use vstd::std_specs::iter::IteratorSpec;

verus! {

/// What happens to a connection in its life.
#[derive(Clone, Copy, Debug, PartialEq, Eq, Structural)]
pub enum NetworkEvent {
    Connected(ConnectionId),
    Disconnected(ConnectionId),
}

/// An envelope on its way out: to one connection, or to all of them.
#[derive(Debug)]
pub struct EventWorkPacket {
    pub id: usize,
    pub broadcast: bool,
    pub serialized_packet: Vec<u8>,
}

pub struct PacketView {
    pub id: usize,
    pub broadcast: bool,
    pub serialized_packet: Seq<u8>,
}

impl View for EventWorkPacket {
    type V = PacketView;

    open spec fn view(&self) -> PacketView {
        PacketView {
            id: self.id,
            broadcast: self.broadcast,
            serialized_packet: self.serialized_packet@,
        }
    }
}

impl Clone for EventWorkPacket {
    fn clone(&self) -> (r: Self)
        ensures
            r@ == self@,
    {
        EventWorkPacket {
            id: self.id,
            broadcast: self.broadcast,
            serialized_packet: self.serialized_packet.clone(),
        }
    }
}

/// The packet that carries a message of the given kind.
pub open spec fn routed_packet(id: usize, broadcast: bool, kind: Seq<char>, payload: Seq<u8>)
    -> PacketView {
    PacketView { id, broadcast, serialized_packet: envelope_bytes(kind, payload) }
}

/// Sending, as the broker and the handle of a handler both offer it: each
/// call yields the packet that the caller puts on the wire.
pub trait EventWorkSendMessages {
    /// A message for one connection.
    fn send_message(&self, connection_id: usize, kind: &str, payload: &Vec<u8>) -> (packet:
        EventWorkPacket)
        ensures
            packet@ == routed_packet(connection_id, false, kind@, payload@),
    ;

    /// A message for every live connection.
    fn broadcast(&self, kind: &str, payload: &Vec<u8>) -> (packet: EventWorkPacket)
        ensures
            packet@ == routed_packet(0, true, kind@, payload@),
    ;
}

/// What a handler gets for one message: the envelope that came in and the
/// connection that it came from.
#[derive(Debug)]
pub struct EventWorkSender {
    pub packet_input: NetworkPacket,
    pub connection_id: usize,
}

impl EventWorkSender {
    /// The message that came in, as bytes.
    pub fn get_network_data(&self) -> (data: &Vec<u8>)
        ensures
            data@ == self.packet_input@.1,
    {
        &self.packet_input.data
    }

    /// Wraps a message into the packet that carries it.
    pub fn from_message_to_packet(
        connection_id: usize,
        broadcast: bool,
        kind: &str,
        payload: &Vec<u8>,
    ) -> (packet: EventWorkPacket)
        ensures
            packet@ == routed_packet(connection_id, broadcast, kind@, payload@),
    {
        EventWorkPacket {
            id: connection_id,
            broadcast,
            serialized_packet: encode_envelope(kind, payload),
        }
    }
}

impl EventWorkSendMessages for EventWorkSender {
    fn send_message(&self, connection_id: usize, kind: &str, payload: &Vec<u8>) -> (packet:
        EventWorkPacket) {
        EventWorkSender::from_message_to_packet(connection_id, false, kind, payload)
    }

    fn broadcast(&self, kind: &str, payload: &Vec<u8>) -> (packet: EventWorkPacket) {
        EventWorkSender::from_message_to_packet(0, true, kind, payload)
    }
}

/// What the transport hands over for one read.
#[derive(Debug)]
pub enum Frame {
    /// The read failed.
    Failed,
    /// A binary frame.
    Binary(Vec<u8>),
    /// A frame of another sort.
    Other,
}

/// What the read loop of a connection does with a frame.
#[derive(Debug)]
pub enum ReadStep {
    /// Call the handler of the envelope's kind with this handle, then read
    /// on, whatever the handler returns.
    Dispatch(EventWorkSender),
    /// End the loop: the connection is over.
    Close,
}

/// The kinds of a list of kinds.
pub open spec fn kinds_of(registered: Seq<String>) -> Set<Seq<char>> {
    Set::new(|k: Seq<char>| exists|i: int| 0 <= i < registered.len() && registered[i]@ == k)
}

/// What `recipients` says of a connection that is not live.
pub open spec fn no_connection_message(id: usize) -> Seq<char> {
    "Failed to find connection with id: "@ + decimal(id as nat)
}

/// The broker's books.
pub struct EventWorkServer {
    registered: Vec<String>,
    connection_counter: usize,
    active_connections: HashSet<usize>,
}

impl EventWorkServer {
    /// Ids are handed out in rising order, so every live connection has an
    /// id below the next one.
    pub closed spec fn wf(self) -> bool {
        forall|id: usize| self.active_connections@.contains(id) ==> id < self.connection_counter
    }

    /// The kinds that have a handler.
    pub closed spec fn kinds(self) -> Set<Seq<char>> {
        kinds_of(self.registered@)
    }

    /// The id that the next connection gets.
    pub closed spec fn next_id(self) -> usize {
        self.connection_counter
    }

    /// The ids of the live connections.
    pub closed spec fn live(self) -> Set<usize> {
        self.active_connections@
    }

    /// A broker with no connection and no handler.
    pub fn default() -> (server: Self)
        ensures
            server.wf(),
            server.kinds() == Set::<Seq<char>>::empty(),
            server.next_id() == 0,
            server.live() == Set::<usize>::empty(),
    {
        let server = EventWorkServer {
            registered: Vec::new(),
            connection_counter: 0,
            active_connections: HashSet::new(),
        };
        assert(server.kinds() =~= Set::<Seq<char>>::empty());
        server
    }

    /// The id that the next connection gets.
    pub fn next_connection_id(&self) -> (id: usize)
        ensures
            id == self.next_id(),
    {
        self.connection_counter
    }

    /// Whether messages of this kind have a handler.
    pub fn is_registered(&self, kind: &str) -> (b: bool)
        ensures
            b == self.kinds().contains(kind@),
    {
        let wanted = kind.to_owned();
        let mut i: usize = 0;
        while i < self.registered.len()
            invariant
                0 <= i <= self.registered.len(),
                wanted@ == kind@,
                forall|j: int| 0 <= j < i ==> (#[trigger] self.registered@[j])@ != kind@,
            decreases self.registered.len() - i,
        {
            if self.registered[i] == wanted {
                return true;
            }
            i += 1;
        }
        false
    }

    /// Notes that messages of this kind have a handler. To note it a second
    /// time changes nothing.
    pub fn register_message(&mut self, kind: &str)
        ensures
            old(self).wf() ==> final(self).wf(),
            final(self).kinds() == old(self).kinds().insert(kind@),
            final(self).next_id() == old(self).next_id(),
            final(self).live() == old(self).live(),
    {
        if !self.is_registered(kind) {
            self.registered.push(kind.to_owned());
            assert(self.kinds() =~= old(self).kinds().insert(kind@)) by {
                assert forall|k: Seq<char>| old(self).kinds().insert(kind@).contains(
                    k,
                ) implies self.kinds().contains(k) by {
                    if k == kind@ {
                        assert(self.registered@[self.registered.len() - 1]@ == k);
                    } else {
                        let i = choose|i: int|
                            0 <= i < old(self).registered.len() && old(self).registered[i]@ == k;
                        assert(self.registered@[i]@ == k);
                    }
                }
            }
        } else {
            assert(self.kinds() =~= old(self).kinds().insert(kind@));
        }
    }

    /// Takes a new connection into the books and says which id it has and
    /// what is to be announced. The id has never been live before.
    pub fn handle_new_connection(&mut self) -> (r: (usize, NetworkEvent))
        requires
            old(self).wf(),
            old(self).next_id() < usize::MAX,
        ensures
            final(self).wf(),
            r.0 == old(self).next_id(),
            !old(self).live().contains(r.0),
            r.1 == NetworkEvent::Connected(ConnectionId { id: r.0 as u32 }),
            final(self).next_id() == old(self).next_id() + 1,
            final(self).live() == old(self).live().insert(r.0),
            final(self).kinds() == old(self).kinds(),
    {
        broadcast use vstd::std_specs::hash::group_hash_axioms;

        let connection_id = self.connection_counter;
        self.connection_counter += 1;
        self.active_connections.insert(connection_id);
        let id = #[verifier::truncate]
        (connection_id as u32);
        (connection_id, NetworkEvent::Connected(ConnectionId { id }))
    }

    /// What is to be announced when the read loop of a connection has
    /// ended.
    pub fn connection_closed(connection_id: usize) -> (event: NetworkEvent)
        ensures
            event == NetworkEvent::Disconnected(ConnectionId { id: connection_id as u32 }),
    {
        let id = #[verifier::truncate]
        (connection_id as u32);
        NetworkEvent::Disconnected(ConnectionId { id })
    }

    /// Brings the books up to date with an event: a connection that is
    /// announced as gone leaves them, if it is still there.
    pub fn on_network_event(&mut self, event: &NetworkEvent)
        ensures
            old(self).wf() ==> final(self).wf(),
            final(self).live() == match *event {
                NetworkEvent::Disconnected(c) => old(self).live().remove(c.id as usize),
                NetworkEvent::Connected(_) => old(self).live(),
            },
            final(self).next_id() == old(self).next_id(),
            final(self).kinds() == old(self).kinds(),
    {
        broadcast use vstd::std_specs::hash::group_hash_axioms;

        match event {
            NetworkEvent::Disconnected(c) => {
                let connection_id = c.id as usize;
                self.active_connections.remove(&connection_id);
            },
            NetworkEvent::Connected(_) => {},
        }
    }

    /// What the read loop of `connection_id` does with a frame: a binary
    /// frame that holds an envelope of a kind with a handler goes to that
    /// handler, and anything else ends the loop.
    pub fn read_step(&self, connection_id: usize, frame: Frame) -> (step: ReadStep)
        ensures
            match step {
                ReadStep::Dispatch(sender) => {
                    &&& frame matches Frame::Binary(bytes)
                    &&& parse_envelope(bytes@) == Ok::<_, DecodeError>(sender.packet_input@)
                    &&& self.kinds().contains(sender.packet_input@.0)
                    &&& sender.connection_id == connection_id
                },
                ReadStep::Close => frame matches Frame::Binary(bytes) ==> match parse_envelope(
                    bytes@,
                ) {
                    Ok((kind, _)) => !self.kinds().contains(kind),
                    Err(_) => true,
                },
            },
    {
        match frame {
            Frame::Binary(bytes) => {
                match decode_envelope(bytes.as_slice()) {
                    Ok(packet) => {
                        if self.is_registered(packet.kind.as_str()) {
                            ReadStep::Dispatch(
                                EventWorkSender { packet_input: packet, connection_id },
                            )
                        } else {
                            ReadStep::Close
                        }
                    },
                    Err(_) => ReadStep::Close,
                }
            },
            _ => ReadStep::Close,
        }
    }

    /// The connections that a packet goes to: all that are live for a
    /// broadcast, each once, in no particular order; else the one that the
    /// packet names, which must be live.
    pub fn recipients(&self, packet: &EventWorkPacket) -> (r: Result<Vec<usize>, String>)
        ensures
            match r {
                Ok(ids) => if packet.broadcast {
                    ids@.to_set() == self.live() && ids@.no_duplicates()
                } else {
                    ids@ == seq![packet.id] && self.live().contains(packet.id)
                },
                Err(e) => !packet.broadcast && !self.live().contains(packet.id) && e@
                    == no_connection_message(packet.id),
            },
    {
        broadcast use vstd::std_specs::hash::group_hash_axioms;

        if packet.broadcast {
            let mut ids: Vec<usize> = Vec::new();
            for id in it: self.active_connections.iter()
                invariant
                    ids@.len() == it.index(),
                    forall|j: int| 0 <= j < ids@.len() ==> ids@[j] == *(#[trigger] it.seq()[j]),
            {
                ids.push(*id);
            }
            proof {
                let seq = self.active_connections.iter().remaining();
                assert(ids@ =~= seq.unref()) by {
                    assert forall|j: int| 0 <= j < ids@.len() implies ids@[j] == seq.unref()[j] by {
                        assert(ids@[j] == *seq[j]);
                    }
                }
                assert(ids@.no_duplicates()) by {
                    assert forall|a: int, b: int|
                        0 <= a < ids@.len() && 0 <= b < ids@.len() && a != b implies ids@[a]
                        != ids@[b] by {
                        assert(seq[a] != seq[b]);
                    }
                }
            }
            Ok(ids)
        } else if self.active_connections.contains(&packet.id) {
            let mut ids: Vec<usize> = Vec::new();
            ids.push(packet.id);
            assert(ids@ =~= seq![packet.id]);
            Ok(ids)
        } else {
            let mut e = String::from_str("Failed to find connection with id: ");
            let n = decimal_string(packet.id as u64);
            e.append(n.as_str());
            Err(e)
        }
    }
}

impl EventWorkSendMessages for EventWorkServer {
    fn send_message(&self, connection_id: usize, kind: &str, payload: &Vec<u8>) -> (packet:
        EventWorkPacket) {
        EventWorkSender::from_message_to_packet(connection_id, false, kind, payload)
    }

    fn broadcast(&self, kind: &str, payload: &Vec<u8>) -> (packet: EventWorkPacket) {
        EventWorkSender::from_message_to_packet(0, true, kind, payload)
    }
}

} // verus!
