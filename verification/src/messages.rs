//! The message catalogue: plain records exchanged between server and clients,
//! each with the mathematical view that the contracts of the crate speak of.

use vstd::prelude::*;

verus! {

pub const DEBUG_MODE: bool = false;

pub const LOCAL_CONNECTION_MODE: bool = false;

pub const GAME_VERSION: u8 = 3;

/// Seconds a bidding round lasts.
pub const BIDDING_ROUND_TIME: u64 = 50;

/// Seconds the result of a round stays on screen.
pub const BIDDING_ROUND_END_TIME: u64 = 9;

/// Seconds the final scoreboard stays on screen.
pub const END_SCORE_SCREEN_TIME: u64 = 30;

pub const MIN_ART_VALUE: u32 = 100;

pub const MAX_ART_VALUE: u32 = 3500;

pub const MAX_PLAYERS: usize = 8;

pub const MIN_PLAYERS: usize = 2;

pub const IMAGE_GEN_TIMEOUT_SECS: u64 = 10;

pub const PROMPT_GEN_TIMEOUT_SECS: u64 = 1;

/// Money every player starts with.
pub const STARTING_MONEY: i32 = 3000;

/// Forced bids every player starts with.
pub const STARTING_FORCE_BIDS: u32 = 2;

/// Step by which each bid raises the leading bid.
pub const BID_INCREASE_AMOUNT: u32 = 100;

/// The views of a sequence of strings.
pub open spec fn strings_view(v: Seq<String>) -> Seq<Seq<char>> {
    v.map_values(|s: String| s@)
}

/// A copy of a list of strings.
pub fn clone_strings(v: &Vec<String>) -> (r: Vec<String>)
    ensures
        strings_view(r@) == strings_view(v@),
{
    let r = v.clone();
    assert(strings_view(r@) =~= strings_view(v@));
    r
}

/// Identifier the broker gives a connection when it is accepted.
#[derive(Clone, Copy, Debug, PartialEq, Eq, Structural, Hash)]
pub struct ConnectionId {
    pub id: u32,
}

/// Messages that travel in an envelope: each type has the tag by which
/// the broker finds its handler.
pub trait NetworkMessage {
    spec fn spec_name() -> Seq<char>;

    fn name() -> (s: &'static str)
        ensures
            s@ == Self::spec_name(),
    ;
}

/// Messages that are addressed to one room.
pub trait HasRoomId {
    spec fn spec_room_id(&self) -> u32;

    fn room_id(&self) -> (id: u32)
        ensures
            id == self.spec_room_id(),
    ;
}

/// Phase of a room.
#[derive(Clone, Copy, Debug, PartialEq, Eq, Structural, Hash)]
pub enum GameState {
    Intro,
    WaitingRoom,
    PromptGenerationWaiting,
    ImageCreation,
    BiddingRound,
    BiddingRoundEnd,
    EndScoreScreen,
}

impl Default for GameState {
    fn default() -> (s: Self)
        ensures
            s == GameState::Intro,
    {
        GameState::Intro
    }
}

#[derive(Debug)]
pub struct Player {
    pub username: String,
    pub money: i32,
    pub id: u32,
    pub force_bids_left: u32,
    pub hints: Vec<String>,
}

/// What a player is: name, purse, connection, quota of forced bids, hints.
pub struct PlayerView {
    pub username: Seq<char>,
    pub money: int,
    pub id: u32,
    pub force_bids_left: int,
    pub hints: Seq<Seq<char>>,
}

impl View for Player {
    type V = PlayerView;

    open spec fn view(&self) -> PlayerView {
        PlayerView {
            username: self.username@,
            money: self.money as int,
            id: self.id,
            force_bids_left: self.force_bids_left as int,
            hints: strings_view(self.hints@),
        }
    }
}

impl Clone for Player {
    fn clone(&self) -> (p: Self)
        ensures
            p@ == self@,
    {
        Player {
            username: self.username.clone(),
            money: self.money,
            id: self.id,
            force_bids_left: self.force_bids_left,
            hints: clone_strings(&self.hints),
        }
    }
}

impl Default for Player {
    fn default() -> (p: Self)
        ensures
            p@ == (PlayerView {
                username: Seq::empty(),
                money: 0,
                id: 0,
                force_bids_left: 0,
                hints: Seq::empty(),
            }),
    {
        let p = Player {
            username: String::new(),
            money: 0,
            id: 0,
            force_bids_left: 0,
            hints: Vec::new(),
        };
        assert(p@.hints =~= Seq::empty());
        p
    }
}

/// The player that `Player::new` makes.
pub open spec fn new_player(id: u32, username: Seq<char>) -> PlayerView {
    PlayerView {
        username,
        money: STARTING_MONEY as int,
        id,
        force_bids_left: STARTING_FORCE_BIDS as int,
        hints: Seq::empty(),
    }
}

impl Player {
    /// A player who has just joined: full purse, full quota, no hints.
    pub fn new(id: u32, username: String) -> (p: Self)
        ensures
            p@ == new_player(id, username@),
    {
        let p = Player {
            username,
            money: STARTING_MONEY,
            id,
            force_bids_left: STARTING_FORCE_BIDS,
            hints: Vec::new(),
        };
        assert(p@.hints =~= Seq::empty());
        p
    }
}

/// The views of a sequence of players.
pub open spec fn players_view(v: Seq<Player>) -> Seq<PlayerView> {
    v.map_values(|p: Player| p@)
}

/// A copy of a list of players.
pub fn clone_players(v: &Vec<Player>) -> (r: Vec<Player>)
    ensures
        players_view(r@) == players_view(v@),
{
    let r = v.clone();
    assert(players_view(r@) =~= players_view(v@));
    r
}

/// State of one prompt on its way from proposal to finished picture.
#[derive(Clone, Copy, Debug, PartialEq, Eq, Structural)]
pub enum PromptState {
    Proposed,
    SentForFeedback,
    PromptCompleted,
    FullyCompleted,
    Error,
}

impl Default for PromptState {
    fn default() -> (s: Self)
        ensures
            s == PromptState::Proposed,
    {
        PromptState::Proposed
    }
}

#[derive(Debug)]
pub struct PromptInfoData {
    pub prompt_text: String,
    pub prompt_answer: String,
    pub image_url: String,
    pub owner_id: u32,
    pub art_value: u32,
}

/// What a prompt is: the challenge, the author's answer, the picture made
/// from it, the author and the hidden value.
pub struct PromptView {
    pub prompt_text: Seq<char>,
    pub prompt_answer: Seq<char>,
    pub image_url: Seq<char>,
    pub owner_id: u32,
    pub art_value: int,
}

/// The prompt that `PromptInfoData::default` makes.
pub open spec fn empty_prompt() -> PromptView {
    PromptView {
        prompt_text: Seq::empty(),
        prompt_answer: Seq::empty(),
        image_url: Seq::empty(),
        owner_id: 0,
        art_value: 0,
    }
}

impl View for PromptInfoData {
    type V = PromptView;

    open spec fn view(&self) -> PromptView {
        PromptView {
            prompt_text: self.prompt_text@,
            prompt_answer: self.prompt_answer@,
            image_url: self.image_url@,
            owner_id: self.owner_id,
            art_value: self.art_value as int,
        }
    }
}

impl Clone for PromptInfoData {
    fn clone(&self) -> (p: Self)
        ensures
            p@ == self@,
    {
        PromptInfoData {
            prompt_text: self.prompt_text.clone(),
            prompt_answer: self.prompt_answer.clone(),
            image_url: self.image_url.clone(),
            owner_id: self.owner_id,
            art_value: self.art_value,
        }
    }
}

impl Default for PromptInfoData {
    fn default() -> (p: Self)
        ensures
            p@ == empty_prompt(),
    {
        PromptInfoData {
            prompt_text: String::new(),
            prompt_answer: String::new(),
            image_url: String::new(),
            owner_id: 0,
            art_value: 0,
        }
    }
}

/// The views of a sequence of prompts.
pub open spec fn prompts_view(v: Seq<PromptInfoData>) -> Seq<PromptView> {
    v.map_values(|p: PromptInfoData| p@)
}

/// A copy of a list of prompts.
pub fn clone_prompts(v: &Vec<PromptInfoData>) -> (r: Vec<PromptInfoData>)
    ensures
        prompts_view(r@) == prompts_view(v@),
{
    let r = v.clone();
    assert(prompts_view(r@) =~= prompts_view(v@));
    r
}

/// The bidding of the current round.
#[derive(Debug)]
pub struct ArtBidInfo {
    pub prompt_info: PromptInfoData,
    pub max_bid: u32,
    pub max_bid_player_id: u32,
    pub bid_increase_amount: u32,
}

pub struct ArtBidView {
    pub prompt_info: PromptView,
    pub max_bid: int,
    pub max_bid_player_id: u32,
    pub bid_increase_amount: int,
}

/// The bidding that `ArtBidInfo::default` makes.
pub open spec fn empty_bid() -> ArtBidView {
    ArtBidView {
        prompt_info: empty_prompt(),
        max_bid: 0,
        max_bid_player_id: 0,
        bid_increase_amount: 0,
    }
}

impl View for ArtBidInfo {
    type V = ArtBidView;

    open spec fn view(&self) -> ArtBidView {
        ArtBidView {
            prompt_info: self.prompt_info@,
            max_bid: self.max_bid as int,
            max_bid_player_id: self.max_bid_player_id,
            bid_increase_amount: self.bid_increase_amount as int,
        }
    }
}

impl Clone for ArtBidInfo {
    fn clone(&self) -> (b: Self)
        ensures
            b@ == self@,
    {
        ArtBidInfo {
            prompt_info: self.prompt_info.clone(),
            max_bid: self.max_bid,
            max_bid_player_id: self.max_bid_player_id,
            bid_increase_amount: self.bid_increase_amount,
        }
    }
}

impl Default for ArtBidInfo {
    fn default() -> (b: Self)
        ensures
            b@ == empty_bid(),
    {
        ArtBidInfo {
            prompt_info: PromptInfoData::default(),
            max_bid: 0,
            max_bid_player_id: 0,
            bid_increase_amount: 0,
        }
    }
}

/// Summary of a finished round, sent to every player of the room.
#[derive(Debug)]
pub struct RoundEndInfo {
    pub artist_name: String,
    pub bid_winner_name: String,
    pub winning_bid_amount: u32,
    pub art_value: u32,
}

pub struct RoundEndView {
    pub artist_name: Seq<char>,
    pub bid_winner_name: Seq<char>,
    pub winning_bid_amount: int,
    pub art_value: int,
}

impl View for RoundEndInfo {
    type V = RoundEndView;

    open spec fn view(&self) -> RoundEndView {
        RoundEndView {
            artist_name: self.artist_name@,
            bid_winner_name: self.bid_winner_name@,
            winning_bid_amount: self.winning_bid_amount as int,
            art_value: self.art_value as int,
        }
    }
}

impl Clone for RoundEndInfo {
    fn clone(&self) -> (r: Self)
        ensures
            r@ == self@,
    {
        RoundEndInfo {
            artist_name: self.artist_name.clone(),
            bid_winner_name: self.bid_winner_name.clone(),
            winning_bid_amount: self.winning_bid_amount,
            art_value: self.art_value,
        }
    }
}

/// Name that stands for an artist nobody could find.
pub open spec fn unknown_artist() -> Seq<char> {
    "Unknown Artist"@
}

/// Name that stands for a round without a winner.
pub open spec fn no_winner() -> Seq<char> {
    "No one"@
}

impl Default for RoundEndInfo {
    fn default() -> (r: Self)
        ensures
            r@ == (RoundEndView {
                artist_name: unknown_artist(),
                bid_winner_name: no_winner(),
                winning_bid_amount: 0,
                art_value: 0,
            }),
    {
        RoundEndInfo {
            artist_name: String::from_str("Unknown Artist"),
            bid_winner_name: String::from_str("No one"),
            winning_bid_amount: 0,
            art_value: 0,
        }
    }
}

impl RoundEndInfo {
    pub fn additional_clone(&self) -> (r: Self)
        ensures
            r@ == self@,
    {
        self.clone()
    }
}

/// One line of the final ranking.
#[derive(Debug)]
pub struct GameEndPlayerInfo {
    pub username: String,
    pub money: i32,
}

pub struct GameEndPlayerView {
    pub username: Seq<char>,
    pub money: int,
}

impl View for GameEndPlayerInfo {
    type V = GameEndPlayerView;

    open spec fn view(&self) -> GameEndPlayerView {
        GameEndPlayerView { username: self.username@, money: self.money as int }
    }
}

impl Clone for GameEndPlayerInfo {
    fn clone(&self) -> (r: Self)
        ensures
            r@ == self@,
    {
        GameEndPlayerInfo { username: self.username.clone(), money: self.money }
    }
}

/// The views of a ranking.
pub open spec fn ranking_view(v: Seq<GameEndPlayerInfo>) -> Seq<GameEndPlayerView> {
    v.map_values(|p: GameEndPlayerInfo| p@)
}

/// The final ranking, richest player first.
#[derive(Debug)]
pub struct GameEndInfo {
    pub players: Vec<GameEndPlayerInfo>,
}

impl View for GameEndInfo {
    type V = Seq<GameEndPlayerView>;

    open spec fn view(&self) -> Seq<GameEndPlayerView> {
        ranking_view(self.players@)
    }
}

impl Clone for GameEndInfo {
    fn clone(&self) -> (r: Self)
        ensures
            r@ == self@,
    {
        let players = self.players.clone();
        assert(ranking_view(players@) =~= ranking_view(self.players@));
        GameEndInfo { players }
    }
}

impl Default for GameEndInfo {
    fn default() -> (r: Self)
        ensures
            r@ == Seq::<GameEndPlayerView>::empty(),
    {
        let r = GameEndInfo { players: Vec::new() };
        assert(r@ =~= Seq::empty());
        r
    }
}

impl GameEndInfo {
    pub fn additional_clone(&self) -> (r: Self)
        ensures
            r@ == self@,
    {
        self.clone()
    }
}

/// Request to enter a room: by its code, or any open room when the code is
/// empty.
#[derive(Debug)]
pub struct RoomJoinRequest {
    pub username: String,
    pub room_code: String,
}

impl Clone for RoomJoinRequest {
    fn clone(&self) -> (r: Self)
        ensures
            r.username@ == self.username@,
            r.room_code@ == self.room_code@,
    {
        RoomJoinRequest { username: self.username.clone(), room_code: self.room_code.clone() }
    }
}

impl Default for RoomJoinRequest {
    fn default() -> (r: Self)
        ensures
            r.username@ == Seq::<char>::empty(),
            r.room_code@ == Seq::<char>::empty(),
    {
        RoomJoinRequest { username: String::new(), room_code: String::new() }
    }
}

/// Request to leave the lobby and start the game.
#[derive(Clone, Copy, Debug, PartialEq, Eq, Structural)]
pub struct StartGameRequest {
    pub room_id: u32,
}

impl Default for StartGameRequest {
    fn default() -> (r: Self)
        ensures
            r.room_id == 0,
    {
        StartGameRequest { room_id: 0 }
    }
}

impl HasRoomId for StartGameRequest {
    open spec fn spec_room_id(&self) -> u32 {
        self.room_id
    }

    fn room_id(&self) -> (id: u32) {
        self.room_id
    }
}

/// A prompt travelling between server and author, with the state of its
/// processing and, where that failed, the reason.
#[derive(Debug)]
pub struct PromptInfoDataRequest {
    pub prompt: PromptInfoData,
    pub room_id: u32,
    pub front_end_prompt_index: Option<usize>,
    pub error_message: String,
    pub state: PromptState,
}

pub struct PromptRequestView {
    pub prompt: PromptView,
    pub room_id: u32,
    pub front_end_prompt_index: Option<usize>,
    pub error_message: Seq<char>,
    pub state: PromptState,
}

impl View for PromptInfoDataRequest {
    type V = PromptRequestView;

    open spec fn view(&self) -> PromptRequestView {
        PromptRequestView {
            prompt: self.prompt@,
            room_id: self.room_id,
            front_end_prompt_index: self.front_end_prompt_index,
            error_message: self.error_message@,
            state: self.state,
        }
    }
}

impl Clone for PromptInfoDataRequest {
    fn clone(&self) -> (r: Self)
        ensures
            r@ == self@,
    {
        PromptInfoDataRequest {
            prompt: self.prompt.clone(),
            room_id: self.room_id,
            front_end_prompt_index: self.front_end_prompt_index,
            error_message: self.error_message.clone(),
            state: self.state,
        }
    }
}

impl Default for PromptInfoDataRequest {
    fn default() -> (r: Self)
        ensures
            r@ == (PromptRequestView {
                prompt: empty_prompt(),
                room_id: 0,
                front_end_prompt_index: None,
                error_message: Seq::empty(),
                state: PromptState::Proposed,
            }),
    {
        PromptInfoDataRequest {
            prompt: PromptInfoData::default(),
            room_id: 0,
            front_end_prompt_index: None,
            error_message: String::new(),
            state: PromptState::Proposed,
        }
    }
}

impl HasRoomId for PromptInfoDataRequest {
    open spec fn spec_room_id(&self) -> u32 {
        self.room_id
    }

    fn room_id(&self) -> (id: u32) {
        self.room_id
    }
}

impl PromptInfoDataRequest {
    pub fn additional_clone(&self) -> (r: Self)
        ensures
            r@ == self@,
    {
        self.clone()
    }
}

/// What a player may do during a bidding round.
#[derive(Clone, Copy, Debug, PartialEq, Eq, Structural)]
pub enum GameAction {
    Bid,
    EndRound,
    ForceBid,
}

#[derive(Clone, Copy, Debug)]
pub struct GameActionRequest {
    pub room_id: u32,
    pub requestor_player_id: u32,
    pub target_player_id: u32,
    pub action: GameAction,
}

impl HasRoomId for GameActionRequest {
    open spec fn spec_room_id(&self) -> u32 {
        self.room_id
    }

    fn room_id(&self) -> (id: u32) {
        self.room_id
    }
}

/// A line of text shown to the players of a room after an action.
#[derive(Debug)]
pub struct GamePlayerNotificationRequest {
    pub target_player_id: u32,
    pub message: String,
    pub action: GameAction,
}

pub struct NotificationView {
    pub target_player_id: u32,
    pub message: Seq<char>,
    pub action: GameAction,
}

impl View for GamePlayerNotificationRequest {
    type V = NotificationView;

    open spec fn view(&self) -> NotificationView {
        NotificationView {
            target_player_id: self.target_player_id,
            message: self.message@,
            action: self.action,
        }
    }
}

impl Clone for GamePlayerNotificationRequest {
    fn clone(&self) -> (r: Self)
        ensures
            r@ == self@,
    {
        GamePlayerNotificationRequest {
            target_player_id: self.target_player_id,
            message: self.message.clone(),
            action: self.action,
        }
    }
}

/// How far a background task has come.
#[derive(Clone, Copy, Debug, PartialEq, Eq, Structural)]
pub enum TaskCompletionStatus {
    InProgress,
    Completed,
    Error,
}

impl Default for TaskCompletionStatus {
    fn default() -> (s: Self)
        ensures
            s == TaskCompletionStatus::InProgress,
    {
        TaskCompletionStatus::InProgress
    }
}

impl NetworkMessage for RoundEndInfo {
    open spec fn spec_name() -> Seq<char> {
        "RoundEndInfo"@
    }

    fn name() -> (s: &'static str) {
        "RoundEndInfo"
    }
}

impl NetworkMessage for GameEndInfo {
    open spec fn spec_name() -> Seq<char> {
        "GameEndInfo"@
    }

    fn name() -> (s: &'static str) {
        "GameEndInfo"
    }
}

impl NetworkMessage for RoomJoinRequest {
    open spec fn spec_name() -> Seq<char> {
        "RoomCreationRequest"@
    }

    fn name() -> (s: &'static str) {
        "RoomCreationRequest"
    }
}

impl NetworkMessage for StartGameRequest {
    open spec fn spec_name() -> Seq<char> {
        "StartGameRequest"@
    }

    fn name() -> (s: &'static str) {
        "StartGameRequest"
    }
}

impl NetworkMessage for PromptInfoDataRequest {
    open spec fn spec_name() -> Seq<char> {
        "PromptInfoDataRequest"@
    }

    fn name() -> (s: &'static str) {
        "PromptInfoDataRequest"
    }
}

impl NetworkMessage for GameActionRequest {
    open spec fn spec_name() -> Seq<char> {
        "GameActionRequest"@
    }

    fn name() -> (s: &'static str) {
        "GameActionRequest"
    }
}

impl NetworkMessage for GamePlayerNotificationRequest {
    open spec fn spec_name() -> Seq<char> {
        "GameNotificationRequest"@
    }

    fn name() -> (s: &'static str) {
        "GameNotificationRequest"
    }
}

} // verus!
