//! What the requests of players and the expiry of timers do to the
//! registry: the start of a game, the actions of a bidding round, and the
//! step that a timer brings.

use crate::messages::{
    GameAction, GameActionRequest, GamePlayerNotificationRequest, GameState, NotificationView,
};
use crate::phase::{can_progress, progress_round_with, ProgressView, RoundProgress};
use crate::registry::{RegistryView, RoomList};
use crate::room::{
    find_player, lemma_credit_keeps_ids, lemma_find_player, lemma_spend_force_keeps_ids,
    player_index, RoomState, RoomView,
};
use crate::text::bid_message;
use vstd::prelude::*;

verus! {

/// Prompts that each player answers, by the number of players.
pub open spec fn prompts_per_player_for(players: int) -> int {
    if players <= 5 {
        2
    } else {
        1
    }
}

/// Two rooms that are the same room at different times: same id, same
/// code, as many players.
pub open spec fn same_identity(a: RoomView, b: RoomView) -> bool {
    a.room_id == b.room_id && a.room_code == b.room_code && a.players.len() == b.players.len()
}

/// A registry stays in order when a room changes but keeps its identity.
pub proof fn lemma_with_room_wf(registry: RegistryView, id: usize, room: RoomView)
    requires
        registry.wf(),
        registry.rooms.contains_key(id),
        same_identity(registry.rooms[id], room),
    ensures
        registry.with_room(id, room).wf(),
{
    let after = registry.with_room(id, room);
    assert forall|a: usize, b: usize|
        #![trigger after.rooms[a], after.rooms[b]]
        after.rooms.contains_key(a) && after.rooms.contains_key(b) && after.rooms[a].room_code
            == after.rooms[b].room_code && after.rooms[a].room_code.len() > 0 implies a == b by {
        let x = registry.rooms[a];
        let y = registry.rooms[b];
        assert(x.room_code == y.room_code);
    }
}

/// A registry stays in order when a room leaves it.
pub proof fn lemma_without_room_wf(registry: RegistryView, id: usize)
    requires
        registry.wf(),
    ensures
        registry.without_room(id).wf(),
{
    let after = registry.without_room(id);
    assert forall|a: usize, b: usize|
        #![trigger after.rooms[a], after.rooms[b]]
        after.rooms.contains_key(a) && after.rooms.contains_key(b) && after.rooms[a].room_code
            == after.rooms[b].room_code && after.rooms[a].room_code.len() > 0 implies a == b by {
        let x = registry.rooms[a];
        let y = registry.rooms[b];
        assert(x.room_code == y.room_code);
    }
}

/// No step of the phase machine, no bid and no forced bid changes the
/// identity of a room.
pub proof fn lemma_rules_keep_identity(room: RoomView, pick: int, requestor: u32, target: u32)
    ensures
        same_identity(room, room.progress(pick)),
        same_identity(room, room.bid(requestor)),
        same_identity(room, room.force_bid(requestor, target)),
{
    let ending = room.in_phase(GameState::BiddingRoundEnd);
    if ending.has_sale() {
        lemma_find_player(ending.players, ending.leader_id());
        let paid = ending.pay_winner();
        lemma_credit_keeps_ids(
            ending,
            find_player(ending.players, ending.leader_id()),
            ending.current_art_bid.prompt_info.art_value - ending.current_art_bid.max_bid,
            ending.artist_id(),
        );
        lemma_find_player(paid.players, paid.artist_id());
    }
    if room.can_force(requestor) {
        lemma_find_player(room.players, requestor);
        lemma_spend_force_keeps_ids(room, requestor, target);
    }
}

impl RoomView {
    /// A game starts from the waiting room, at the word of the player who
    /// joined first.
    pub open spec fn can_start(self, requestor: u32) -> bool {
        &&& self.game_state == GameState::WaitingRoom
        &&& self.players.len() > 0
        &&& self.players[0].id == requestor
    }

    /// The room after its game has started: the number of prompts per
    /// player is set, and the room waits for its prompts.
    pub open spec fn start(self) -> RoomView {
        RoomView {
            prompts_per_player: prompts_per_player_for(self.players.len() as int),
            game_state: GameState::PromptGenerationWaiting,
            ..self
        }
    }

    /// Number of prompts of the game.
    pub open spec fn prompts_wanted(self) -> int {
        self.players.len() * self.prompts_per_player
    }
}

/// Why a game did not start.
#[derive(Clone, Copy, Debug, PartialEq, Eq, Structural)]
pub enum StartError {
    /// There is no room with this id.
    RoomNotFound,
    /// The room is not in the waiting room.
    NotWaiting,
    /// The request does not come from the player who joined first.
    NotFirstPlayer,
    /// The room has more players than prompts can be counted for.
    TooManyPlayers,
}

/// A game that has started.
#[derive(Clone, Copy, Debug, PartialEq, Eq, Structural)]
pub struct GameStart {
    pub room_id: usize,
    /// Number of prompts to generate.
    pub number_of_prompts: u32,
}

/// Why an action had no effect.
#[derive(Clone, Copy, Debug, PartialEq, Eq, Structural)]
pub enum ActionError {
    /// The requestor is in no room.
    PlayerNotInRoom,
    /// A bid is to be forced on somebody who is not in the room.
    TargetNotInRoom,
    /// A round is to be ended where none is on.
    NoRoundToEnd,
    /// The payout of the round cannot be stored.
    PayoutTooLarge,
}

/// What an action led to, for the players of the room `room_id`.
#[derive(Debug)]
pub struct ActionOutcome {
    pub room_id: usize,
    /// The line that announces a bid.
    pub notification: Option<GamePlayerNotificationRequest>,
    /// What the end of the round asks for.
    pub progress: Option<RoundProgress>,
    /// Whether the action counted. One that did not has changed nothing,
    /// and the players are told nothing.
    pub counted: bool,
}

/// The view of a line that may be there.
pub open spec fn notification_view(n: Option<GamePlayerNotificationRequest>) -> Option<
    NotificationView,
> {
    match n {
        Some(n) => Some(n@),
        None => None,
    }
}

/// The view of a step that may have been taken.
pub open spec fn progress_view(p: Option<RoundProgress>) -> Option<ProgressView> {
    match p {
        Some(p) => Some(p@),
        None => None,
    }
}

impl RoomView {
    /// Why the action has no effect on the room, if it has none.
    pub open spec fn action_error(self, request: GameActionRequest) -> Option<ActionError> {
        match request.action {
            GameAction::Bid => None,
            GameAction::ForceBid => if self.can_force(request.requestor_player_id)
                && !self.has_player(request.target_player_id) {
                Some(ActionError::TargetNotInRoom)
            } else {
                None
            },
            GameAction::EndRound => if self.game_state != GameState::BiddingRound {
                Some(ActionError::NoRoundToEnd)
            } else if !self.payout_fits() {
                Some(ActionError::PayoutTooLarge)
            } else {
                None
            },
        }
    }

    /// The room after the action.
    pub open spec fn act(self, request: GameActionRequest, pick: int) -> RoomView {
        match request.action {
            GameAction::Bid => self.bid(request.requestor_player_id),
            GameAction::ForceBid => self.force_bid(
                request.requestor_player_id,
                request.target_player_id,
            ),
            GameAction::EndRound => self.progress(pick),
        }
    }

    /// The line that the action makes, if it makes one.
    pub open spec fn action_notice(self, request: GameActionRequest) -> Option<NotificationView> {
        match request.action {
            GameAction::Bid => if self.can_bid(request.requestor_player_id) {
                Some(
                    NotificationView {
                        target_player_id: request.requestor_player_id,
                        message: bid_message(
                            self.player(request.requestor_player_id).username,
                            self.next_bid() as nat,
                        ),
                        action: GameAction::Bid,
                    },
                )
            } else {
                None
            },
            GameAction::ForceBid => if self.can_force_on(
                request.requestor_player_id,
                request.target_player_id,
            ) {
                Some(self.force_bid_notice(request.requestor_player_id, request.target_player_id))
            } else {
                None
            },
            GameAction::EndRound => None,
        }
    }

    /// Whether the action counts: a bid that counts, a forced bid that is
    /// attempted, the end of a round.
    pub open spec fn action_counts(self, request: GameActionRequest) -> bool {
        match request.action {
            GameAction::Bid => self.can_bid(request.requestor_player_id),
            GameAction::ForceBid => self.can_force_on(
                request.requestor_player_id,
                request.target_player_id,
            ),
            GameAction::EndRound => true,
        }
    }

    /// What the action asks of the caller beyond telling the players.
    pub open spec fn action_progress(self, request: GameActionRequest) -> Option<ProgressView> {
        match request.action {
            GameAction::EndRound => Some(self.progress_effects()),
            _ => None,
        }
    }
}

/// An action that does not count leaves the room exactly as it was.
pub proof fn lemma_rejected_action_changes_nothing(room: RoomView, request: GameActionRequest, pick: int)
    requires
        !room.action_counts(request),
    ensures
        room.act(request, pick) == room,
        room.action_notice(request) is None,
        room.action_progress(request) is None,
{
}

/// Applies an action to a room that holds its requestor.
pub fn act_in_room(room: &mut RoomState, request: &GameActionRequest, pick: u32) -> (r: Result<
    (Option<GamePlayerNotificationRequest>, Option<RoundProgress>),
    ActionError,
>)
    ensures
        match r {
            Ok((notification, progress)) => {
                &&& old(room)@.action_error(*request) is None
                &&& final(room)@ == old(room)@.act(*request, pick as int)
                &&& notification_view(notification) == old(room)@.action_notice(*request)
                &&& progress_view(progress) == old(room)@.action_progress(*request)
            },
            Err(e) => old(room)@.action_error(*request) == Some(e) && final(room)@ == old(room)@,
        },
{
    match request.action {
        GameAction::Bid => {
            let notification = room.player_bid(request.requestor_player_id);
            Ok((notification, None))
        },
        GameAction::ForceBid => {
            let allowed = match player_index(&room.players, request.requestor_player_id) {
                Some(i) => room.game_state == GameState::BiddingRound
                    && room.players[i].force_bids_left > 0,
                None => false,
            };
            if allowed && player_index(&room.players, request.target_player_id).is_none() {
                return Err(ActionError::TargetNotInRoom);
            }
            let notification = room.player_force_bid(
                request.requestor_player_id,
                request.target_player_id,
            );
            Ok((notification, None))
        },
        GameAction::EndRound => {
            if room.game_state != GameState::BiddingRound {
                return Err(ActionError::NoRoundToEnd);
            }
            if !room.payout_fits() {
                return Err(ActionError::PayoutTooLarge);
            }
            let progress = progress_round_with(room, pick);
            Ok((None, Some(progress)))
        },
    }
}

impl RoomList {
    /// Starts the game of a room at the request of a player.
    pub fn start_game(&mut self, room_id: u32, requestor: u32) -> (r: Result<GameStart, StartError>)
        requires
            old(self)@.wf(),
        ensures
            final(self)@.wf(),
            match r {
                Ok(start) => {
                    let room = old(self)@.rooms[start.room_id];
                    &&& start.room_id == room_id
                    &&& old(self)@.rooms.contains_key(start.room_id)
                    &&& room.can_start(requestor)
                    &&& final(self)@ == old(self)@.with_room(start.room_id, room.start())
                    &&& start.number_of_prompts == room.start().prompts_wanted()
                },
                Err(e) => {
                    let id = room_id as usize;
                    &&& final(self)@ == old(self)@
                    &&& e == if !old(self)@.rooms.contains_key(id) {
                        StartError::RoomNotFound
                    } else if old(self)@.rooms[id].game_state != GameState::WaitingRoom {
                        StartError::NotWaiting
                    } else if old(self)@.rooms[id].players[0].id != requestor {
                        StartError::NotFirstPlayer
                    } else {
                        StartError::TooManyPlayers
                    }
                    &&& e == StartError::TooManyPlayers ==> old(self)@.rooms[id].start().prompts_wanted()
                        > u32::MAX
                },
            },
    {
        let id = room_id as usize;
        let (players, first) = match self.get(&id) {
            None => {
                return Err(StartError::RoomNotFound);
            },
            Some(room) => {
                if room.game_state != GameState::WaitingRoom {
                    return Err(StartError::NotWaiting);
                }
                assert(room@.players.len() > 0);
                (room.players.len(), room.players[0].id)
            },
        };
        if first != requestor {
            return Err(StartError::NotFirstPlayer);
        }
        let per_player: u32 = if players <= 3 {
            2
        } else if players <= 5 {
            2
        } else {
            1
        };
        assert(players * per_player <= 2 * players) by (nonlinear_arith)
            requires
                per_player <= 2,
        ;
        let wanted: u128 = players as u128 * per_player as u128;
        if wanted > u32::MAX as u128 {
            return Err(StartError::TooManyPlayers);
        }
        let mut room = match self.remove(&id) {
            Some(room) => room,
            None => {
                return Err(StartError::RoomNotFound);
            },
        };
        room.prompts_per_player = per_player;
        room.game_state = GameState::PromptGenerationWaiting;
        proof {
            lemma_with_room_wf(old(self)@, id, room@);
        }
        self.insert(id, room);
        assert(self@.rooms =~= old(self)@.rooms.insert(id, old(self)@.rooms[id].start()));
        Ok(GameStart { room_id: id, number_of_prompts: wanted as u32 })
    }

    /// Applies the action of a player to a room that holds the player.
    /// `pick` selects the prompt of a round that the action starts.
    pub fn apply_action(&mut self, request: &GameActionRequest, pick: u32) -> (r: Result<
        ActionOutcome,
        ActionError,
    >)
        requires
            old(self)@.wf(),
        ensures
            final(self)@.wf(),
            match r {
                Ok(outcome) => {
                    let room = old(self)@.rooms[outcome.room_id];
                    &&& old(self)@.rooms.contains_key(outcome.room_id)
                    &&& room.has_player(request.requestor_player_id)
                    &&& room.action_error(*request) is None
                    &&& final(self)@ == old(self)@.with_room(
                        outcome.room_id,
                        room.act(*request, pick as int),
                    )
                    &&& notification_view(outcome.notification) == room.action_notice(*request)
                    &&& progress_view(outcome.progress) == room.action_progress(*request)
                    &&& outcome.counted == room.action_counts(*request)
                },
                Err(e) => {
                    &&& final(self)@ == old(self)@
                    &&& if e == ActionError::PlayerNotInRoom {
                        !old(self)@.has_connection(request.requestor_player_id)
                    } else {
                        exists|id: usize| #[trigger]
                            old(self)@.rooms.contains_key(id) && old(self)@.rooms[id].has_player(
                                request.requestor_player_id,
                            ) && old(self)@.rooms[id].action_error(*request) == Some(e)
                    }
                },
            },
    {
        let id = match self.find_room_of(request.requestor_player_id) {
            Some(id) => id,
            None => {
                return Err(ActionError::PlayerNotInRoom);
            },
        };
        let mut room = match self.remove(&id) {
            Some(room) => room,
            None => {
                return Err(ActionError::PlayerNotInRoom);
            },
        };
        let ghost before = room@;
        let result = act_in_room(&mut room, request, pick);
        proof {
            lemma_rules_keep_identity(
                before,
                pick as int,
                request.requestor_player_id,
                request.target_player_id,
            );
            lemma_with_room_wf(old(self)@, id, room@);
        }
        self.insert(id, room);
        match result {
            Ok((notification, progress)) => {
                assert(self@.rooms =~= old(self)@.rooms.insert(
                    id,
                    before.act(*request, pick as int),
                ));
                let counted = notification.is_some() || progress.is_some();
                Ok(ActionOutcome { room_id: id, notification, progress, counted })
            },
            Err(e) => {
                assert(self@.rooms =~= old(self)@.rooms);
                Err(e)
            },
        }
    }

    /// Takes the step that a timer of a room brings. The timer was set when
    /// the room entered the phase `expected`; a room that has left that
    /// phase, or is gone, ignores it, as does a room whose payout cannot
    /// be stored. A step that ends the room takes it out of the registry.
    pub fn timer_expired(&mut self, room_id: usize, expected: GameState, pick: u32) -> (r: Option<
        RoundProgress,
    >)
        requires
            old(self)@.wf(),
        ensures
            final(self)@.wf(),
            match r {
                Some(progress) => {
                    let room = old(self)@.rooms[room_id];
                    &&& old(self)@.rooms.contains_key(room_id)
                    &&& room.game_state == expected
                    &&& room.can_progress()
                    &&& progress@ == room.progress_effects()
                    &&& final(self)@ == if progress.remove_room {
                        old(self)@.without_room(room_id)
                    } else {
                        old(self)@.with_room(room_id, room.progress(pick as int))
                    }
                },
                None => {
                    &&& final(self)@ == old(self)@
                    &&& !(old(self)@.rooms.contains_key(room_id) && old(
                        self,
                    )@.rooms[room_id].game_state == expected && old(
                        self,
                    )@.rooms[room_id].can_progress())
                },
            },
    {
        let due = match self.get(&room_id) {
            Some(room) => room.game_state == expected && can_progress(room),
            None => false,
        };
        if !due {
            return None;
        }
        let mut room = match self.remove(&room_id) {
            Some(room) => room,
            None => {
                return None;
            },
        };
        let ghost before = room@;
        let progress = progress_round_with(&mut room, pick);
        if progress.remove_room {
            proof {
                lemma_without_room_wf(old(self)@, room_id);
            }
        } else {
            proof {
                lemma_rules_keep_identity(before, pick as int, 0, 0);
                lemma_with_room_wf(old(self)@, room_id, room@);
            }
            self.insert(room_id, room);
            assert(self@.rooms =~= old(self)@.rooms.insert(room_id, before.progress(pick as int)));
        }
        Some(progress)
    }
}

} // verus!
