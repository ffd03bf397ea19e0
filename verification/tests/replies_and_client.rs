use artbabo::client::{
    bid_action, completed_prompt, force_bid_action, in_bidding_round, joined_as,
    private_room_request, random_room_request, start_game_message, FrontEndPromptList,
};
use artbabo::messages::{
    ArtBidInfo, GameAction, GameState, NetworkMessage, Player, PromptInfoData,
    PromptInfoDataRequest, PromptState, RoomJoinRequest, StartGameRequest, GameActionRequest,
    GameEndInfo, GamePlayerNotificationRequest, RoundEndInfo, HasRoomId,
};
use artbabo::replies::{
    chat_completion_text, get_element, get_member, get_text, image_url_text, ChatReplyError,
    ImageReplyError, JsonValue,
};
use artbabo::room::RoomState;

fn from_json(value: &serde_json::Value) -> JsonValue {
    match value {
        serde_json::Value::String(text) => JsonValue::Text(text.clone()),
        serde_json::Value::Array(items) => JsonValue::Array(items.iter().map(from_json).collect()),
        serde_json::Value::Object(entries) => JsonValue::Object(
            entries.iter().map(|(k, v)| (k.clone(), from_json(v))).collect(),
        ),
        _ => JsonValue::Other,
    }
}

fn parse(text: &str) -> JsonValue {
    from_json(&serde_json::from_str::<serde_json::Value>(text).expect("valid json"))
}

#[test]
fn chat_completion_is_read_from_first_choice() {
    let body = parse(
        r#"{"id":"x","choices":[{"index":0,"message":{"role":"assistant","content":"A fuzzy deer"}},{"message":{"content":"second"}}]}"#,
    );
    assert_eq!(chat_completion_text(&body), Ok("A fuzzy deer".to_string()));
}

#[test]
fn chat_completion_failures_are_told_apart() {
    let cases = [
        (r#"{"error":"rate limit"}"#, ChatReplyError::NoChoices),
        (r#"[1,2]"#, ChatReplyError::NoChoices),
        (r#"{"choices":[]}"#, ChatReplyError::NoFirstChoice),
        (r#"{"choices":{"0":1}}"#, ChatReplyError::NoFirstChoice),
        (r#"{"choices":[{"text":"x"}]}"#, ChatReplyError::NoMessage),
        (r#"{"choices":[{"message":{"role":"assistant"}}]}"#, ChatReplyError::NoContent),
        (r#"{"choices":[{"message":{"content":null}}]}"#, ChatReplyError::ContentNotText),
        (r#"{"choices":[{"message":{"content":12}}]}"#, ChatReplyError::ContentNotText),
    ];
    for (text, expected) in cases {
        assert_eq!(chat_completion_text(&parse(text)), Err(expected), "{}", text);
    }
}

#[test]
fn chat_failures_have_their_messages() {
    assert_eq!(
        ChatReplyError::NoChoices.message("Object {}"),
        "Failed to get completions choices: Object {}"
    );
    assert_eq!(
        ChatReplyError::NoFirstChoice.message("x"),
        "Failed to get first element of choices"
    );
    assert_eq!(ChatReplyError::NoMessage.message("x"), "Failed to get message");
    assert_eq!(ChatReplyError::NoContent.message("x"), "Failed to get message content");
    assert_eq!(ChatReplyError::ContentNotText.message("x"), "Failed to get content as string");
}

#[test]
fn image_url_is_read_from_first_element() {
    let body = parse(r#"{"created":1,"data":[{"url":"https://img/1.png"},{"url":"other"}]}"#);
    assert_eq!(image_url_text(&body), Ok("https://img/1.png".to_string()));
}

#[test]
fn image_url_failures_are_told_apart() {
    let cases = [
        (r#"{"error":{"code":"x"}}"#, ImageReplyError::NoData),
        (r#"{"data":[]}"#, ImageReplyError::NoFirstElement),
        (r#"{"data":"none"}"#, ImageReplyError::NoFirstElement),
        (r#"{"data":[{"b64":"..."}]}"#, ImageReplyError::NoUrl),
        (r#"{"data":[{"url":5}]}"#, ImageReplyError::NoUrl),
    ];
    for (text, expected) in cases {
        assert_eq!(image_url_text(&parse(text)), Err(expected), "{}", text);
    }
    assert_eq!(ImageReplyError::NoData.message("{\"a\":1}"), "Failed to get data {\"a\":1}");
    assert_eq!(ImageReplyError::NoFirstElement.message("x"), "Failed to get data");
    assert_eq!(ImageReplyError::NoUrl.message("x"), "Failed to get url");
}

#[test]
fn json_lookups_agree_with_serde_json() {
    let text = r#"{"a":[1,"two",{"b":"c"}],"d":"e","f":null}"#;
    let theirs: serde_json::Value = serde_json::from_str(text).expect("valid json");
    let ours = from_json(&theirs);
    for key in ["a", "d", "f", "zz"] {
        assert_eq!(get_member(&ours, key).is_some(), theirs.get(key).is_some());
    }
    let a = get_member(&ours, "a").expect("a");
    for i in 0..5usize {
        assert_eq!(get_element(a, i).is_some(), theirs["a"].get(i).is_some());
    }
    assert_eq!(get_text(get_element(a, 1).expect("two")), Some("two".to_string()));
    assert_eq!(get_text(get_element(a, 0).expect("one")), None);
    assert!(get_member(a, "b").is_none());
    assert!(get_element(&ours, 0).is_none());
    let inner = get_element(a, 2).expect("object");
    assert_eq!(get_text(get_member(inner, "b").expect("b")), Some("c".to_string()));
}

#[test]
fn message_tags_are_the_wire_names() {
    assert_eq!(<RoomState as NetworkMessage>::name(), "RoomState");
    assert_eq!(<RoundEndInfo as NetworkMessage>::name(), "RoundEndInfo");
    assert_eq!(<GameEndInfo as NetworkMessage>::name(), "GameEndInfo");
    assert_eq!(<RoomJoinRequest as NetworkMessage>::name(), "RoomCreationRequest");
    assert_eq!(<StartGameRequest as NetworkMessage>::name(), "StartGameRequest");
    assert_eq!(<PromptInfoDataRequest as NetworkMessage>::name(), "PromptInfoDataRequest");
    assert_eq!(<GameActionRequest as NetworkMessage>::name(), "GameActionRequest");
    assert_eq!(
        <GamePlayerNotificationRequest as NetworkMessage>::name(),
        "GameNotificationRequest"
    );
}

#[test]
fn room_ids_of_messages() {
    assert_eq!(StartGameRequest { room_id: 4 }.room_id(), 4);
    assert_eq!(bid_action(1, 9).room_id(), 9);
    let mut request = PromptInfoDataRequest::default();
    request.room_id = 12;
    assert_eq!(request.room_id(), 12);
}

#[test]
fn client_requests() {
    let r = random_room_request("ann");
    assert_eq!((r.username.as_str(), r.room_code.as_str()), ("ann", ""));
    let r = private_room_request("ann", "abc");
    assert_eq!((r.username.as_str(), r.room_code.as_str()), ("ann", "abc"));
    assert_eq!(start_game_message(7).room_id, 7);
    let a = bid_action(3, 7);
    assert_eq!((a.requestor_player_id, a.target_player_id, a.room_id), (3, 0, 7));
    assert_eq!(a.action, GameAction::Bid);
    let a = force_bid_action(3, 5, 7);
    assert_eq!((a.requestor_player_id, a.target_player_id, a.room_id), (3, 5, 7));
    assert_eq!(a.action, GameAction::ForceBid);
}

fn proposal(text: &str) -> PromptInfoDataRequest {
    PromptInfoDataRequest {
        prompt: PromptInfoData {
            prompt_text: text.to_string(),
            prompt_answer: String::new(),
            image_url: String::new(),
            owner_id: 1,
            art_value: 200,
        },
        room_id: 1,
        front_end_prompt_index: None,
        error_message: String::new(),
        state: PromptState::Proposed,
    }
}

#[test]
fn prompt_list_follows_the_server() {
    let mut list = FrontEndPromptList::default();
    assert!(list.prompt_info_response(&proposal("a")));
    assert!(list.prompt_info_response(&proposal("b")));
    assert_eq!(list.prompt_data_list.len(), 2);
    let mut submitted = proposal("b");
    submitted.prompt.prompt_answer = "answer".to_string();
    completed_prompt(&mut submitted, 1);
    assert_eq!(submitted.state, PromptState::SentForFeedback);
    assert_eq!(submitted.front_end_prompt_index, Some(1));
    assert_eq!(submitted.prompt.prompt_answer, "answer");
    let mut back = proposal("b");
    back.state = PromptState::FullyCompleted;
    back.front_end_prompt_index = Some(1);
    back.prompt.image_url = "http://img".to_string();
    assert!(list.prompt_info_response(&back));
    assert_eq!(list.prompt_data_list.len(), 2);
    assert_eq!(list.prompt_data_list[0].state, PromptState::Proposed);
    assert_eq!(list.prompt_data_list[1].state, PromptState::FullyCompleted);
    assert_eq!(list.prompt_data_list[1].prompt.image_url, "http://img");
    back.front_end_prompt_index = Some(2);
    assert!(!list.prompt_info_response(&back));
    back.front_end_prompt_index = None;
    assert!(!list.prompt_info_response(&back));
    assert_eq!(list.prompt_data_list.len(), 2);
}

#[test]
fn bidding_screen_covers_round_and_its_end() {
    assert!(in_bidding_round(GameState::BiddingRound));
    assert!(in_bidding_round(GameState::BiddingRoundEnd));
    assert!(!in_bidding_round(GameState::ImageCreation));
    assert!(!in_bidding_round(GameState::EndScoreScreen));
    assert!(!in_bidding_round(GameState::Intro));
}

#[test]
fn client_is_the_player_who_joined_last() {
    let mut room = RoomState {
        room_id: 1,
        players: vec![],
        game_state: GameState::WaitingRoom,
        current_art_bid: ArtBidInfo::default(),
        prompts_per_player: 100,
        remaining_prompts: vec![],
        used_prompts: vec![],
        room_code: String::new(),
        version_number: 3,
    };
    assert!(joined_as(&room).is_none());
    room.players.push(Player::new(4, "a".to_string()));
    room.players.push(Player::new(9, "b".to_string()));
    assert_eq!(joined_as(&room).map(|d| d.player_id), Some(9));
}
