//! The registry of rooms: every room of the server under the id that the
//! registry gave it, and what joining, leaving and looking up do to it.

use crate::messages::{
    empty_bid, new_player, ArtBidInfo, GameState, Player, PlayerView, GAME_VERSION,
};
use crate::room::{find_player, lemma_find_player, player_index, RoomState, RoomView};
use crate::text::{decimal, decimal_string};
use std::collections::HashMap;
use vstd::prelude::*;
use vstd::std_specs::iter::IteratorSpec;

verus! {

/// Prompts per player of a room whose game has not started.
pub const PROMPTS_PER_PLAYER_UNSET: u32 = 100;

/// The rooms of the server and the number of ids given out so far.
#[derive(Debug)]
pub struct RoomList {
    rooms: HashMap<usize, RoomState>,
    id_count: usize,
}

pub struct RegistryView {
    pub rooms: Map<usize, RoomView>,
    pub id_count: usize,
}

/// The views of the rooms of a map.
pub open spec fn rooms_view(rooms: Map<usize, RoomState>) -> Map<usize, RoomView> {
    Map::new(|id: usize| rooms.contains_key(id), |id: usize| rooms[id]@)
}

impl View for RoomList {
    type V = RegistryView;

    closed spec fn view(&self) -> RegistryView {
        RegistryView { rooms: rooms_view(self.rooms@), id_count: self.id_count }
    }
}

/// The room that a player who finds none to join opens.
pub open spec fn fresh_room(id: usize, player: PlayerView, code: Seq<char>) -> RoomView {
    RoomView {
        room_id: id as u32,
        players: seq![player],
        game_state: GameState::WaitingRoom,
        current_art_bid: empty_bid(),
        prompts_per_player: PROMPTS_PER_PLAYER_UNSET as int,
        remaining_prompts: Seq::empty(),
        used_prompts: Seq::empty(),
        room_code: code,
        version_number: GAME_VERSION,
    }
}

/// Whether a request with this code may enter the room: the codes agree,
/// and a request without a code enters only a room that still waits for
/// its game.
pub open spec fn joinable(room: RoomView, code: Seq<char>) -> bool {
    room.room_code == code && (code.len() > 0 || room.game_state == GameState::WaitingRoom)
}

/// The players without any that has this id.
pub open spec fn without_player(players: Seq<PlayerView>, id: u32) -> Seq<PlayerView>
    decreases players.len(),
{
    let i = find_player(players, id);
    if 0 <= i < players.len() {
        without_player(players.remove(i), id)
    } else {
        players
    }
}

impl RoomView {
    /// The room with one more player, behind those that are there.
    pub open spec fn with_player(self, player: PlayerView) -> RoomView {
        RoomView { players: self.players.push(player), ..self }
    }

    /// The room without the connection.
    pub open spec fn without_connection(self, id: u32) -> RoomView {
        RoomView { players: without_player(self.players, id), ..self }
    }
}

impl RegistryView {
    /// Every room stands under the id that it carries, every id in use has
    /// been given out, every room has a player, and no two rooms share a
    /// code other than the empty one.
    pub open spec fn wf(self) -> bool {
        &&& self.id_count <= u32::MAX
        &&& forall|id: usize| #[trigger]
            self.rooms.contains_key(id) ==> 1 <= id <= self.id_count && self.rooms[id].room_id
                == id && self.rooms[id].players.len() > 0
        &&& forall|a: usize, b: usize|
            #![trigger self.rooms[a], self.rooms[b]]
            self.rooms.contains_key(a) && self.rooms.contains_key(b) && self.rooms[a].room_code
                == self.rooms[b].room_code && self.rooms[a].room_code.len() > 0 ==> a == b
    }

    /// Whether some room has this code.
    pub open spec fn has_code(self, code: Seq<char>) -> bool {
        exists|id: usize| #[trigger] self.rooms.contains_key(id) && self.rooms[id].room_code == code
    }

    /// Whether a request with this code finds a room to enter.
    pub open spec fn has_joinable(self, code: Seq<char>) -> bool {
        exists|id: usize| #[trigger] self.rooms.contains_key(id) && joinable(self.rooms[id], code)
    }

    /// Whether some room holds a player with this id.
    pub open spec fn has_connection(self, id: u32) -> bool {
        exists|room: usize| #[trigger]
            self.rooms.contains_key(room) && self.rooms[room].has_player(id)
    }

    /// The id that the next new room gets.
    pub open spec fn next_room_id(self) -> usize {
        (self.id_count + 1) as usize
    }

    /// The registry with a new room, under the next id and carrying it.
    pub open spec fn insert_room(self, room: RoomView) -> RegistryView {
        RegistryView {
            rooms: self.rooms.insert(
                self.next_room_id(),
                RoomView { room_id: self.next_room_id() as u32, ..room },
            ),
            id_count: self.next_room_id(),
        }
    }

    /// The registry with another room in the place of one.
    pub open spec fn with_room(self, id: usize, room: RoomView) -> RegistryView {
        RegistryView { rooms: self.rooms.insert(id, room), ..self }
    }

    /// The registry without a room.
    pub open spec fn without_room(self, id: usize) -> RegistryView {
        RegistryView { rooms: self.rooms.remove(id), ..self }
    }

    /// The registry after a player has entered the room `id`: an existing
    /// room gains the player, and a room that is not there yet is opened
    /// for the player.
    pub open spec fn join(self, id: usize, player: PlayerView, code: Seq<char>) -> RegistryView {
        if self.rooms.contains_key(id) {
            self.with_room(id, self.rooms[id].with_player(player))
        } else {
            self.insert_room(fresh_room(0, player, code))
        }
    }

    /// The registry after a connection has left the room `id`: the room
    /// loses the player, and a room that is empty then is removed.
    pub open spec fn leave(self, id: usize, connection: u32) -> RegistryView {
        let room = self.rooms[id].without_connection(connection);
        if room.players.len() == 0 {
            self.without_room(id)
        } else {
            self.with_room(id, room)
        }
    }
}

/// What became of a request to join.
#[derive(Clone, Copy, Debug, PartialEq, Eq, Structural)]
pub struct JoinOutcome {
    /// The room that the player is in now.
    pub room_id: usize,
    /// Whether the room was opened for the player.
    pub created: bool,
}

/// What became of a connection that went away.
#[derive(Clone, Copy, Debug, PartialEq, Eq, Structural)]
pub enum DisconnectOutcome {
    /// The room lives on without the player: tell the others.
    RoomUpdated(usize),
    /// The player was the last: the room is gone.
    RoomRemoved(usize),
}

/// What `disconnect` says of a connection that is in no room.
pub open spec fn no_room_with_player_message(id: u32) -> Seq<char> {
    "Failed to find room with player: "@ + decimal(id as nat)
}

pub fn make_no_room_with_player_message(id: u32) -> (s: String)
    ensures
        s@ == no_room_with_player_message(id),
{
    let mut s = String::from_str("Failed to find room with player: ");
    let n = decimal_string(id as u64);
    s.append(n.as_str());
    s
}

/// Removing the first player with an id, again and again, ends with no
/// player of that id.
pub proof fn lemma_without_player(players: Seq<PlayerView>, id: u32)
    ensures
        find_player(without_player(players, id), id) == without_player(players, id).len(),
        without_player(players, id).len() <= players.len(),
        find_player(players, id) == players.len() ==> without_player(players, id) == players,
    decreases players.len(),
{
    lemma_find_player(players, id);
    let i = find_player(players, id);
    if 0 <= i < players.len() {
        lemma_without_player(players.remove(i), id);
    }
}

impl RoomList {
    /// A registry without rooms, with no id given out.
    pub fn new() -> (list: Self)
        ensures
            list@.wf(),
            list@.rooms == Map::<usize, RoomView>::empty(),
            list@.id_count == 0,
    {
        let list = RoomList { rooms: HashMap::new(), id_count: 0 };
        assert(list@.rooms =~= Map::<usize, RoomView>::empty());
        list
    }

    /// Number of ids given out so far.
    pub fn id_count(&self) -> (n: usize)
        ensures
            n == self@.id_count,
    {
        self.id_count
    }

    /// Number of rooms.
    pub fn len(&self) -> (n: usize)
        ensures
            n == self@.rooms.len(),
    {
        broadcast use vstd::std_specs::hash::group_hash_axioms;

        assert(self@.rooms.dom() =~= self.rooms@.dom());
        self.rooms.len()
    }

    /// The room under an id.
    pub fn get(&self, id: &usize) -> (r: Option<&RoomState>)
        ensures
            match r {
                Some(room) => self@.rooms.contains_key(*id) && room@ == self@.rooms[*id],
                None => !self@.rooms.contains_key(*id),
            },
    {
        broadcast use vstd::std_specs::hash::group_hash_axioms;

        self.rooms.get(id)
    }

    /// Puts a room under an id, in the place of the room that was there, if
    /// any, which is handed back.
    pub fn insert(&mut self, id: usize, room: RoomState) -> (r: Option<RoomState>)
        ensures
            final(self)@ == old(self)@.with_room(id, room@),
            match r {
                Some(before) => old(self)@.rooms.contains_key(id) && before@ == old(self)@.rooms[id],
                None => !old(self)@.rooms.contains_key(id),
            },
    {
        broadcast use vstd::std_specs::hash::group_hash_axioms;

        let r = self.rooms.insert(id, room);
        assert(self@.rooms =~= old(self)@.rooms.insert(id, room@));
        r
    }

    /// Takes the room under an id out of the registry.
    pub fn remove(&mut self, id: &usize) -> (r: Option<RoomState>)
        ensures
            final(self)@ == old(self)@.without_room(*id),
            match r {
                Some(before) => old(self)@.rooms.contains_key(*id) && before@ == old(
                    self,
                )@.rooms[*id],
                None => !old(self)@.rooms.contains_key(*id),
            },
    {
        broadcast use vstd::std_specs::hash::group_hash_axioms;

        let r = self.rooms.remove(id);
        assert(self@.rooms =~= old(self)@.rooms.remove(*id));
        r
    }

    /// Takes a new room in: gives it the next id, writes the id into the
    /// room, whatever id the room came with, and hands the id back. The
    /// caller never chooses the id, and no id is given twice: in a registry
    /// in order the id is in use by no room, and every room that was there
    /// stays as it was. Only where the ids have run out, nothing is taken
    /// in and nothing handed back.
    pub fn room_state_insert(&mut self, room: RoomState) -> (r: Option<usize>)
        ensures
            r is Some <==> old(self)@.id_count < u32::MAX,
            match r {
                Some(id) => {
                    &&& id == old(self)@.id_count + 1
                    &&& final(self)@ == old(self)@.insert_room(room@)
                    &&& final(self)@.id_count == id
                    &&& final(self)@.rooms[id] == (RoomView { room_id: id as u32, ..room@ })
                    &&& old(self)@.wf() ==> !old(self)@.rooms.contains_key(id)
                    &&& forall|other: usize|
                        other != id ==> final(self)@.rooms.contains_key(other) == old(
                            self,
                        )@.rooms.contains_key(other) && final(self)@.rooms[other] == old(
                            self,
                        )@.rooms[other]
                },
                None => final(self)@ == old(self)@,
            },
    {
        if self.id_count >= u32::MAX as usize {
            return None;
        }
        let mut room = room;
        self.id_count += 1;
        room.room_id = self.id_count as u32;
        let room_id = room.room_id as usize;
        self.insert(room_id, room);
        Some(room_id)
    }

    /// Looks for a room that a request with this code may enter. The rooms
    /// are walked in the order of the hash map, so which of several such
    /// rooms is found is open.
    pub fn find_joinable(&self, room_code: &String) -> (r: Option<usize>)
        ensures
            match r {
                Some(id) => self@.rooms.contains_key(id) && joinable(self@.rooms[id], room_code@),
                None => !self@.has_joinable(room_code@),
            },
    {
        broadcast use vstd::std_specs::hash::group_hash_axioms;

        let matchmaking = room_code.as_str().is_empty();
        for entry in it: self.rooms.iter()
            invariant
                matchmaking == (room_code@.len() == 0),
                forall|n: int|
                    0 <= n < it.index() ==> !joinable((#[trigger] it.seq()[n]).1@, room_code@),
        {
            let (id, room) = entry;
            if room.room_code == *room_code && (!matchmaking || room.game_state
                == GameState::WaitingRoom) {
                return Some(*id);
            }
        }
        assert(!self@.has_joinable(room_code@)) by {
            assert forall|id: usize| #[trigger] self@.rooms.contains_key(id) implies !joinable(
                self@.rooms[id],
                room_code@,
            ) by {
                let seq = self.rooms.iter().remaining();
                assert(seq.contains((&id, &self.rooms@[id])));
                let n = choose|n: int| 0 <= n < seq.len() && seq[n] == (&id, &self.rooms@[id]);
                assert(!joinable(seq[n].1@, room_code@));
            }
        }
        None
    }

    /// Looks for a room that holds a player with this id. The rooms are
    /// walked in the order of the hash map, so which of several such rooms
    /// is found is open.
    pub fn find_room_of(&self, connection_id: u32) -> (r: Option<usize>)
        ensures
            match r {
                Some(id) => self@.rooms.contains_key(id) && self@.rooms[id].has_player(
                    connection_id,
                ),
                None => !self@.has_connection(connection_id),
            },
    {
        broadcast use vstd::std_specs::hash::group_hash_axioms;

        for entry in it: self.rooms.iter()
            invariant
                forall|n: int|
                    0 <= n < it.index() ==> !(#[trigger] it.seq()[n]).1@.has_player(connection_id),
        {
            let (id, room) = entry;
            if player_index(&room.players, connection_id).is_some() {
                return Some(*id);
            }
        }
        assert(!self@.has_connection(connection_id)) by {
            assert forall|id: usize| #[trigger]
                self@.rooms.contains_key(id) implies !self@.rooms[id].has_player(
                connection_id,
            ) by {
                let seq = self.rooms.iter().remaining();
                assert(seq.contains((&id, &self.rooms@[id])));
                let n = choose|n: int| 0 <= n < seq.len() && seq[n] == (&id, &self.rooms@[id]);
                assert(!seq[n].1@.has_player(connection_id));
            }
        }
        None
    }

    /// Lets a connection into a room: into one that its code may enter, if
    /// there is one, else into a new room with that code. Nothing happens,
    /// and nothing is handed back, only where a new room is due and the
    /// ids have run out.
    pub fn join_room(&mut self, connection_id: u32, username: String, room_code: String) -> (r:
        Option<JoinOutcome>)
        requires
            old(self)@.wf(),
        ensures
            final(self)@.wf(),
            match r {
                Some(outcome) => {
                    &&& final(self)@ == old(self)@.join(
                        outcome.room_id,
                        new_player(connection_id, username@),
                        room_code@,
                    )
                    &&& outcome.created == !old(self)@.rooms.contains_key(outcome.room_id)
                    &&& if outcome.created {
                        !old(self)@.has_joinable(room_code@) && outcome.room_id == old(
                            self,
                        )@.next_room_id()
                    } else {
                        joinable(old(self)@.rooms[outcome.room_id], room_code@)
                    }
                },
                None => {
                    &&& final(self)@ == old(self)@
                    &&& !old(self)@.has_joinable(room_code@)
                    &&& old(self)@.id_count == u32::MAX
                },
            },
    {
        let player = Player::new(connection_id, username);
        match self.find_joinable(&room_code) {
            Some(id) => {
                let mut room = match self.remove(&id) {
                    Some(room) => room,
                    None => {
                        return None;
                    },
                };
                room.players.push(player);
                assert(room@ == old(self)@.rooms[id].with_player(player@)) by {
                    assert(room@.players =~= old(self)@.rooms[id].players.push(player@));
                }
                self.insert(id, room);
                assert(self@.rooms =~= old(self)@.rooms.insert(
                    id,
                    old(self)@.rooms[id].with_player(player@),
                ));
                Some(JoinOutcome { room_id: id, created: false })
            },
            None => {
                if self.id_count >= u32::MAX as usize {
                    return None;
                }
                let mut players: Vec<Player> = Vec::new();
                players.push(player);
                let new_room_state = RoomState {
                    room_id: 0,
                    players,
                    game_state: GameState::WaitingRoom,
                    current_art_bid: ArtBidInfo::default(),
                    prompts_per_player: PROMPTS_PER_PLAYER_UNSET,
                    remaining_prompts: Vec::new(),
                    used_prompts: Vec::new(),
                    room_code,
                    version_number: GAME_VERSION,
                };
                assert(new_room_state@ == fresh_room(0, player@, room_code@)) by {
                    assert(new_room_state@.players =~= seq![player@]);
                    assert(new_room_state@.remaining_prompts =~= Seq::empty());
                    assert(new_room_state@.used_prompts =~= Seq::empty());
                }
                let id = match self.room_state_insert(new_room_state) {
                    Some(id) => id,
                    None => {
                        return None;
                    },
                };
                proof {
                    if room_code@.len() > 0 {
                        assert forall|a: usize| #[trigger]
                            old(self)@.rooms.contains_key(a) implies old(self)@.rooms[a].room_code
                            != room_code@ by {
                            assert(!joinable(old(self)@.rooms[a], room_code@));
                        }
                    }
                }
                Some(JoinOutcome { room_id: id, created: true })
            },
        }
    }

    /// Takes a connection out of a room that holds it. Where the room is
    /// empty then, it leaves the registry.
    pub fn disconnect(&mut self, connection_id: u32) -> (r: Result<DisconnectOutcome, String>)
        requires
            old(self)@.wf(),
        ensures
            final(self)@.wf(),
            match r {
                Ok(DisconnectOutcome::RoomUpdated(id)) => {
                    &&& old(self)@.rooms.contains_key(id)
                    &&& old(self)@.rooms[id].has_player(connection_id)
                    &&& final(self)@ == old(self)@.leave(id, connection_id)
                    &&& final(self)@.rooms.contains_key(id)
                },
                Ok(DisconnectOutcome::RoomRemoved(id)) => {
                    &&& old(self)@.rooms.contains_key(id)
                    &&& old(self)@.rooms[id].has_player(connection_id)
                    &&& final(self)@ == old(self)@.leave(id, connection_id)
                    &&& !final(self)@.rooms.contains_key(id)
                },
                Err(e) => {
                    &&& final(self)@ == old(self)@
                    &&& !old(self)@.has_connection(connection_id)
                    &&& e@ == no_room_with_player_message(connection_id)
                },
            },
    {
        let id = match self.find_room_of(connection_id) {
            Some(id) => id,
            None => {
                return Err(make_no_room_with_player_message(connection_id));
            },
        };
        let mut room = match self.remove(&id) {
            Some(room) => room,
            None => {
                return Err(make_no_room_with_player_message(connection_id));
            },
        };
        let ghost before = room@;
        loop
            invariant
                without_player(room@.players, connection_id) == without_player(
                    before.players,
                    connection_id,
                ),
                room@ == (RoomView { players: room@.players, ..before }),
            ensures
                room@ == before.without_connection(connection_id),
            decreases room.players.len(),
        {
            match player_index(&room.players, connection_id) {
                Some(i) => {
                    let ghost prior = room@.players;
                    room.players.remove(i);
                    assert(room@.players =~= prior.remove(i as int));
                },
                None => {
                    proof {
                        lemma_without_player(room@.players, connection_id);
                    }
                    break ;
                },
            }
        }
        if room.players.len() == 0 {
            Ok(DisconnectOutcome::RoomRemoved(id))
        } else {
            self.insert(id, room);
            assert(self@.rooms =~= old(self)@.rooms.insert(
                id,
                old(self)@.rooms[id].without_connection(connection_id),
            ));
            Ok(DisconnectOutcome::RoomUpdated(id))
        }
    }
}

} // verus!
