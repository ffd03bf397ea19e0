//! The client's side of the conversation: the requests that a client
//! sends, and the list in which it keeps the prompts that the server sends.

use crate::messages::{
    GameAction, GameActionRequest, GameState, PromptInfoDataRequest, PromptRequestView,
    PromptState, RoomJoinRequest, StartGameRequest,
};
use crate::room::RoomState;
use vstd::prelude::*;

verus! {

/// What the player has chosen for themselves.
#[derive(Debug)]
pub struct PlayerSettings {
    pub username: String,
}

/// Who the player is to the server.
#[derive(Clone, Copy, Debug, PartialEq, Eq, Structural)]
pub struct CurrentPlayerData {
    pub player_id: u32,
}

/// The prompts of the player, in the order in which the server proposed
/// them.
#[derive(Debug)]
pub struct FrontEndPromptList {
    pub prompt_data_list: Vec<PromptInfoDataRequest>,
}

/// The views of a list of prompts on their way.
pub open spec fn requests_view(v: Seq<PromptInfoDataRequest>) -> Seq<PromptRequestView> {
    v.map_values(|r: PromptInfoDataRequest| r@)
}

impl View for FrontEndPromptList {
    type V = Seq<PromptRequestView>;

    open spec fn view(&self) -> Seq<PromptRequestView> {
        requests_view(self.prompt_data_list@)
    }
}

impl Default for FrontEndPromptList {
    fn default() -> (r: Self)
        ensures
            r@ == Seq::<PromptRequestView>::empty(),
    {
        let r = FrontEndPromptList { prompt_data_list: Vec::new() };
        assert(r@ =~= Seq::empty());
        r
    }
}

/// The list after a prompt has come from the server: a proposal is added
/// at the end, and anything else takes the place that its index names, if
/// the list has that place.
pub open spec fn list_after(list: Seq<PromptRequestView>, message: PromptRequestView) -> Seq<
    PromptRequestView,
> {
    if message.state == PromptState::Proposed {
        list.push(message)
    } else {
        match message.front_end_prompt_index {
            Some(i) => if i < list.len() {
                list.update(i as int, message)
            } else {
                list
            },
            None => list,
        }
    }
}

impl FrontEndPromptList {
    /// Takes in a prompt that has come from the server, and says whether
    /// the list had a place for it.
    pub fn prompt_info_response(&mut self, message: &PromptInfoDataRequest) -> (placed: bool)
        ensures
            final(self)@ == list_after(old(self)@, message@),
            placed == (message.state == PromptState::Proposed || (
            message.front_end_prompt_index matches Some(i) && i < old(self)@.len())),
    {
        if message.state == PromptState::Proposed {
            self.prompt_data_list.push(message.additional_clone());
            assert(self@ =~= old(self)@.push(message@));
            true
        } else {
            match message.front_end_prompt_index {
                Some(i) => {
                    if i < self.prompt_data_list.len() {
                        self.prompt_data_list[i] = message.additional_clone();
                        assert(self@ =~= old(self)@.update(i as int, message@));
                        true
                    } else {
                        false
                    }
                },
                None => false,
            }
        }
    }
}

/// The request to enter any open room.
pub fn random_room_request(username: &str) -> (r: RoomJoinRequest)
    ensures
        r.username@ == username@,
        r.room_code@ == Seq::<char>::empty(),
{
    RoomJoinRequest { username: username.to_owned(), room_code: String::new() }
}

/// The request to enter the room with a code.
pub fn private_room_request(username: &str, room_code: &str) -> (r: RoomJoinRequest)
    ensures
        r.username@ == username@,
        r.room_code@ == room_code@,
{
    RoomJoinRequest { username: username.to_owned(), room_code: room_code.to_owned() }
}

/// The request to start the game of a room.
pub fn start_game_message(room_id: u32) -> (r: StartGameRequest)
    ensures
        r.room_id == room_id,
{
    StartGameRequest { room_id }
}

/// Makes a prompt ready to be submitted from the place `prompt_index` of
/// the list.
pub fn completed_prompt(prompt_info_data: &mut PromptInfoDataRequest, prompt_index: usize)
    ensures
        final(prompt_info_data)@ == (PromptRequestView {
            state: PromptState::SentForFeedback,
            front_end_prompt_index: Some(prompt_index),
            ..old(prompt_info_data)@
        }),
{
    prompt_info_data.state = PromptState::SentForFeedback;
    prompt_info_data.front_end_prompt_index = Some(prompt_index);
}

/// The request to bid.
pub fn bid_action(requestor_player_id: u32, room_id: u32) -> (r: GameActionRequest)
    ensures
        r.requestor_player_id == requestor_player_id,
        r.target_player_id == 0,
        r.room_id == room_id,
        r.action == GameAction::Bid,
{
    GameActionRequest { requestor_player_id, target_player_id: 0, room_id, action: GameAction::Bid }
}

/// The request to force a bid on another player.
pub fn force_bid_action(requestor_player_id: u32, target_player_id: u32, room_id: u32) -> (r:
    GameActionRequest)
    ensures
        r.requestor_player_id == requestor_player_id,
        r.target_player_id == target_player_id,
        r.room_id == room_id,
        r.action == GameAction::ForceBid,
{
    GameActionRequest { requestor_player_id, target_player_id, room_id, action: GameAction::ForceBid }
}

/// Whether the bidding screen is shown in this phase.
pub fn in_bidding_round(state: GameState) -> (b: bool)
    ensures
        b == (state == GameState::BiddingRound || state == GameState::BiddingRoundEnd),
{
    match state {
        GameState::BiddingRound => true,
        GameState::BiddingRoundEnd => true,
        _ => false,
    }
}

/// Who the player is, read from the first room that the server sends: the
/// player who joined last.
pub fn joined_as(room: &RoomState) -> (r: Option<CurrentPlayerData>)
    ensures
        match r {
            Some(data) => room@.players.len() > 0 && data.player_id == room@.players.last().id,
            None => room@.players.len() == 0,
        },
{
    if room.players.len() == 0 {
        None
    } else {
        Some(CurrentPlayerData { player_id: room.players[room.players.len() - 1].id })
    }
}

} // verus!
