use artbabo::messages::{
    ArtBidInfo, GameEndInfo, GameState, Player, PromptInfoData, PromptInfoDataRequest, PromptState,
    RoomJoinRequest, StartGameRequest, TaskCompletionStatus, BIDDING_ROUND_END_TIME,
    BIDDING_ROUND_TIME, END_SCORE_SCREEN_TIME, GAME_VERSION, IMAGE_GEN_TIMEOUT_SECS,
    MAX_ART_VALUE, MAX_PLAYERS, MIN_ART_VALUE, MIN_PLAYERS, PROMPT_GEN_TIMEOUT_SECS,
};
use artbabo::rate_limit::AzureEndpointInfo;
use artbabo::room::RoomState;

#[test]
fn constants_of_the_game() {
    assert_eq!(GAME_VERSION, 3);
    assert_eq!(BIDDING_ROUND_TIME, 50);
    assert_eq!(BIDDING_ROUND_END_TIME, 9);
    assert_eq!(END_SCORE_SCREEN_TIME, 30);
    assert_eq!((MIN_ART_VALUE, MAX_ART_VALUE), (100, 3500));
    assert_eq!((MIN_PLAYERS, MAX_PLAYERS), (2, 8));
    assert_eq!(IMAGE_GEN_TIMEOUT_SECS, 10);
    assert_eq!(PROMPT_GEN_TIMEOUT_SECS, 1);
}

#[test]
fn defaults_are_empty() {
    assert_eq!(GameState::default(), GameState::Intro);
    assert_eq!(PromptState::default(), PromptState::Proposed);
    assert_eq!(TaskCompletionStatus::default(), TaskCompletionStatus::InProgress);
    let p = Player::default();
    assert_eq!((p.username.as_str(), p.money, p.id, p.force_bids_left), ("", 0, 0, 0));
    assert!(p.hints.is_empty());
    let d = PromptInfoData::default();
    assert_eq!((d.prompt_text.as_str(), d.prompt_answer.as_str(), d.image_url.as_str()), ("", "", ""));
    assert_eq!((d.owner_id, d.art_value), (0, 0));
    let b = ArtBidInfo::default();
    assert_eq!((b.max_bid, b.max_bid_player_id, b.bid_increase_amount), (0, 0, 0));
    assert_eq!(b.prompt_info.prompt_text, "");
    assert!(GameEndInfo::default().players.is_empty());
    let j = RoomJoinRequest::default();
    assert_eq!((j.username.as_str(), j.room_code.as_str()), ("", ""));
    assert_eq!(StartGameRequest::default().room_id, 0);
    let r = PromptInfoDataRequest::default();
    assert_eq!(r.room_id, 0);
    assert_eq!(r.front_end_prompt_index, None);
    assert_eq!(r.state, PromptState::Proposed);
    assert_eq!(r.error_message, "");
    let room = RoomState::default();
    assert_eq!(room.room_id, 0);
    assert_eq!(room.game_state, GameState::Intro);
    assert!(room.players.is_empty() && room.remaining_prompts.is_empty());
    assert_eq!(room.room_code, "");
    let e = AzureEndpointInfo::default();
    assert_eq!(e.image_gen_endpoint, "");
    assert_eq!(e.completions_key, "");
}

#[test]
fn clones_are_equal_to_their_source() {
    let mut p = Player::new(3, "ann".to_string());
    p.hints = vec!["a".to_string(), "b".to_string()];
    assert_eq!(format!("{:?}", p.clone()), format!("{:?}", p));
    let mut r = PromptInfoDataRequest::default();
    r.prompt.prompt_text = "cat".to_string();
    r.front_end_prompt_index = Some(4);
    r.error_message = "no".to_string();
    assert_eq!(format!("{:?}", r.additional_clone()), format!("{:?}", r));
    let join = RoomJoinRequest { username: "u".to_string(), room_code: "c".to_string() };
    assert_eq!(format!("{:?}", join.clone()), format!("{:?}", join));
    let e = AzureEndpointInfo {
        image_gen_endpoint: "a".to_string(),
        image_gen_key: "b".to_string(),
        completions_endpoint: "c".to_string(),
        completions_key: "d".to_string(),
    };
    assert_eq!(format!("{:?}", e.clone()), format!("{:?}", e));
}
