use artbabo::messages::{
    ArtBidInfo, ConnectionId, GameAction, GameState, Player, PromptInfoData, RoundEndInfo,
    BID_INCREASE_AMOUNT, GAME_VERSION,
};
use artbabo::room::{check_if_room_is_prepped, player_index, RoomState};

fn prompt(text: &str, owner: u32, value: u32) -> PromptInfoData {
    PromptInfoData {
        prompt_text: text.to_string(),
        prompt_answer: format!("answer to {}", text),
        image_url: format!("http://img/{}", text),
        owner_id: owner,
        art_value: value,
    }
}

fn bidding_room() -> RoomState {
    RoomState {
        room_id: 1,
        players: vec![
            Player::new(10, "ann".to_string()),
            Player::new(11, "bob".to_string()),
            Player::new(12, "cy".to_string()),
        ],
        game_state: GameState::BiddingRound,
        current_art_bid: ArtBidInfo {
            prompt_info: prompt("cat", 10, 500),
            max_bid: 0,
            max_bid_player_id: 0,
            bid_increase_amount: BID_INCREASE_AMOUNT,
        },
        prompts_per_player: 2,
        remaining_prompts: vec![],
        used_prompts: vec![],
        room_code: "abc".to_string(),
        version_number: GAME_VERSION,
    }
}

fn total(room: &RoomState) -> i64 {
    room.players.iter().map(|p| p.money as i64).sum()
}

#[test]
fn new_player_has_full_purse_and_quota() {
    let p = Player::new(7, "zed".to_string());
    assert_eq!(p.id, 7);
    assert_eq!(p.username, "zed");
    assert_eq!(p.money, 3000);
    assert_eq!(p.force_bids_left, 2);
    assert!(p.hints.is_empty());
}

#[test]
fn round_end_info_default_names() {
    let info = RoundEndInfo::default();
    assert_eq!(info.artist_name, "Unknown Artist");
    assert_eq!(info.bid_winner_name, "No one");
    assert_eq!(info.winning_bid_amount, 0);
    assert_eq!(info.art_value, 0);
}

#[test]
fn player_index_finds_first_match() {
    let mut room = bidding_room();
    room.players.push(Player::new(11, "bob again".to_string()));
    assert_eq!(player_index(&room.players, 11), Some(1));
    assert_eq!(player_index(&room.players, 12), Some(2));
    assert_eq!(player_index(&room.players, 99), None);
}

#[test]
fn bid_raises_by_increment_and_announces() {
    let mut room = bidding_room();
    let note = room.player_bid(11).expect("bid counts");
    assert_eq!(room.current_art_bid.max_bid, 100);
    assert_eq!(room.current_art_bid.max_bid_player_id, 11);
    assert_eq!(note.target_player_id, 11);
    assert_eq!(note.message, "bob has bid 100");
    assert!(matches!(note.action, GameAction::Bid));
    let note = room.player_bid(12).expect("second bid counts");
    assert_eq!(room.current_art_bid.max_bid, 200);
    assert_eq!(room.current_art_bid.max_bid_player_id, 12);
    assert_eq!(note.message, "cy has bid 200");
}

#[test]
fn bid_outside_bidding_round_is_rejected() {
    let mut room = bidding_room();
    room.game_state = GameState::BiddingRoundEnd;
    assert!(room.player_bid(11).is_none());
    assert_eq!(room.current_art_bid.max_bid, 0);
    assert_eq!(room.current_art_bid.max_bid_player_id, 0);
}

#[test]
fn bid_of_unknown_player_is_rejected() {
    let mut room = bidding_room();
    assert!(room.player_bid(99).is_none());
    assert_eq!(room.current_art_bid.max_bid, 0);
}

#[test]
fn bid_that_cannot_be_paid_leaves_bidding_unchanged() {
    let mut room = bidding_room();
    room.current_art_bid.max_bid = 2950;
    room.current_art_bid.max_bid_player_id = 12;
    let before = format!("{:?}", room.current_art_bid);
    let players_before = format!("{:?}", room.players);
    assert!(room.player_bid(11).is_none());
    assert_eq!(format!("{:?}", room.current_art_bid), before);
    assert_eq!(format!("{:?}", room.players), players_before);
}

#[test]
fn bid_at_exactly_the_purse_counts() {
    let mut room = bidding_room();
    room.current_art_bid.max_bid = 2900;
    let note = room.player_bid(11).expect("3000 can pay 3000");
    assert_eq!(room.current_art_bid.max_bid, 3000);
    assert_eq!(note.message, "bob has bid 3000");
}

#[test]
fn bid_with_huge_leading_bid_does_not_wrap() {
    let mut room = bidding_room();
    room.current_art_bid.max_bid = u32::MAX;
    assert!(room.player_bid(11).is_none());
    assert_eq!(room.current_art_bid.max_bid, u32::MAX);
}

#[test]
fn forced_bid_spends_quota_and_bids_for_target() {
    let mut room = bidding_room();
    let note = room.player_force_bid(10, 11).expect("force counts");
    assert_eq!(room.players[0].force_bids_left, 1);
    assert_eq!(room.players[1].force_bids_left, 2);
    assert_eq!(room.current_art_bid.max_bid, 100);
    assert_eq!(room.current_art_bid.max_bid_player_id, 11);
    assert_eq!(note.target_player_id, 11);
    assert_eq!(note.message, "bob has been forced to bid 100");
}

#[test]
fn failed_forced_bid_still_spends_quota() {
    let mut room = bidding_room();
    room.players[1].money = 50;
    let note = room.player_force_bid(10, 11).expect("force is attempted");
    assert_eq!(room.players[0].force_bids_left, 1);
    assert_eq!(room.current_art_bid.max_bid, 0);
    assert_eq!(room.current_art_bid.max_bid_player_id, 0);
    assert_eq!(note.target_player_id, 11);
    assert_eq!(note.message, "ann tried to force bob to bid, but it failed!");
}

#[test]
fn forced_bid_without_quota_changes_nothing() {
    let mut room = bidding_room();
    room.players[0].force_bids_left = 0;
    assert!(room.player_force_bid(10, 11).is_none());
    assert_eq!(room.players[0].force_bids_left, 0);
    assert_eq!(room.current_art_bid.max_bid, 0);
}

#[test]
fn forced_bid_outside_bidding_round_changes_nothing() {
    let mut room = bidding_room();
    room.game_state = GameState::ImageCreation;
    assert!(room.player_force_bid(10, 11).is_none());
    assert_eq!(room.players[0].force_bids_left, 2);
}

#[test]
fn forced_bid_of_unknown_requestor_changes_nothing() {
    let mut room = bidding_room();
    assert!(room.player_force_bid(99, 11).is_none());
    assert_eq!(room.current_art_bid.max_bid, 0);
}

#[test]
fn finalize_without_bid_pays_nobody() {
    let mut room = bidding_room();
    assert!(room.payout_fits());
    let info = room.finalize_round().expect("summary");
    assert_eq!(info.artist_name, "ann");
    assert_eq!(info.bid_winner_name, "No one");
    assert_eq!(info.winning_bid_amount, 0);
    assert_eq!(info.art_value, 500);
    assert_eq!(total(&room), 9000);
}

#[test]
fn finalize_without_bid_and_without_artist_names_unknown_artist() {
    let mut room = bidding_room();
    room.current_art_bid.prompt_info.owner_id = 77;
    let info = room.finalize_round().expect("summary");
    assert_eq!(info.artist_name, "Unknown Artist");
}

#[test]
fn finalize_pays_winner_and_artist() {
    let mut room = bidding_room();
    room.current_art_bid.max_bid = 300;
    room.current_art_bid.max_bid_player_id = 11;
    assert!(room.payout_fits());
    let info = room.finalize_round().expect("summary");
    assert_eq!(room.players[0].money, 3300);
    assert_eq!(room.players[1].money, 3200);
    assert_eq!(room.players[2].money, 3000);
    assert_eq!(info.artist_name, "ann");
    assert_eq!(info.bid_winner_name, "bob");
    assert_eq!(info.winning_bid_amount, 300);
    assert_eq!(info.art_value, 500);
    assert_eq!(total(&room), 9000 + 500);
}

#[test]
fn finalize_when_artist_wins_own_picture() {
    let mut room = bidding_room();
    room.current_art_bid.max_bid = 700;
    room.current_art_bid.max_bid_player_id = 10;
    let info = room.finalize_round().expect("summary");
    assert_eq!(room.players[0].money, 3500);
    assert_eq!(info.artist_name, "ann");
    assert_eq!(info.bid_winner_name, "ann");
    assert_eq!(total(&room), 9500);
}

#[test]
fn finalize_with_missing_winner_pays_nobody() {
    let mut room = bidding_room();
    room.current_art_bid.max_bid = 300;
    room.current_art_bid.max_bid_player_id = 99;
    assert!(room.finalize_round().is_none());
    assert_eq!(total(&room), 9000);
}

#[test]
fn finalize_with_missing_artist_pays_nobody() {
    let mut room = bidding_room();
    room.current_art_bid.prompt_info.owner_id = 99;
    room.current_art_bid.max_bid = 300;
    room.current_art_bid.max_bid_player_id = 11;
    let before = format!("{:?}", room);
    assert!(room.payout_fits());
    assert!(room.finalize_round().is_none());
    assert_eq!(format!("{:?}", room), before);
    assert_eq!(room.players[1].money, 3000);
    assert_eq!(total(&room), 9000);
}

#[test]
fn bid_that_does_not_exceed_the_leading_bid_is_rejected() {
    let mut room = bidding_room();
    room.current_art_bid.max_bid = 200;
    room.current_art_bid.max_bid_player_id = 12;
    room.current_art_bid.bid_increase_amount = 0;
    let before = format!("{:?}", room);
    assert!(room.player_bid(11).is_none());
    assert_eq!(format!("{:?}", room), before);
    assert!(room.player_force_bid(10, 11).is_some());
    assert_eq!(room.current_art_bid.max_bid, 200);
    assert_eq!(room.current_art_bid.max_bid_player_id, 12);
}

#[test]
fn forced_bid_on_a_target_that_has_left_changes_nothing() {
    let mut room = bidding_room();
    let before = format!("{:?}", room);
    assert!(room.player_force_bid(10, 99).is_none());
    assert_eq!(format!("{:?}", room), before);
    assert_eq!(room.players[0].force_bids_left, 2);
}

#[test]
fn payout_that_cannot_be_stored_is_detected() {
    let mut room = bidding_room();
    room.players[1].money = i32::MAX;
    room.current_art_bid.max_bid = 100;
    room.current_art_bid.max_bid_player_id = 11;
    assert!(!room.payout_fits());
    room.players[1].money = i32::MAX - 400;
    assert!(room.payout_fits());
    room.players[0].money = i32::MAX - 99;
    assert!(!room.payout_fits());
}

#[test]
fn setup_next_round_moves_prompt_and_picks_by_modulo() {
    let mut room = bidding_room();
    room.current_art_bid.max_bid = 400;
    room.current_art_bid.max_bid_player_id = 12;
    room.remaining_prompts = vec![prompt("a", 10, 100), prompt("b", 11, 200), prompt("c", 12, 300)];
    room.setup_next_round_with(7);
    assert_eq!(room.used_prompts.len(), 1);
    assert_eq!(room.used_prompts[0].prompt_text, "cat");
    assert_eq!(room.current_art_bid.prompt_info.prompt_text, "b");
    assert_eq!(room.current_art_bid.max_bid, 0);
    assert_eq!(room.current_art_bid.max_bid_player_id, 0);
    assert_eq!(room.current_art_bid.bid_increase_amount, 100);
    let left: Vec<&str> = room.remaining_prompts.iter().map(|p| p.prompt_text.as_str()).collect();
    assert_eq!(left, vec!["a", "c"]);
}

#[test]
fn setup_next_round_without_prompts_only_retires() {
    let mut room = bidding_room();
    room.current_art_bid.max_bid = 400;
    room.setup_next_round_with(3);
    assert_eq!(room.used_prompts.len(), 1);
    assert_eq!(room.current_art_bid.prompt_info.prompt_text, "");
    assert_eq!(room.current_art_bid.max_bid, 400);
    assert!(room.remaining_prompts.is_empty());
}

#[test]
fn setup_next_round_draws_one_of_the_remaining() {
    let mut room = bidding_room();
    room.remaining_prompts = vec![prompt("a", 10, 100), prompt("b", 11, 200)];
    room.setup_next_round();
    assert_eq!(room.remaining_prompts.len(), 1);
    let subject = room.current_art_bid.prompt_info.prompt_text.clone();
    assert!(subject == "a" || subject == "b");
    assert_ne!(room.remaining_prompts[0].prompt_text, subject);
}

#[test]
fn disconnect_player_removes_first_match_only() {
    let mut room = bidding_room();
    room.players.push(Player::new(11, "bob again".to_string()));
    room.disconnect_player(ConnectionId { id: 11 });
    let names: Vec<&str> = room.players.iter().map(|p| p.username.as_str()).collect();
    assert_eq!(names, vec!["ann", "cy", "bob again"]);
    room.disconnect_player(ConnectionId { id: 99 });
    assert_eq!(room.players.len(), 3);
}

#[test]
fn ranking_is_by_falling_money_and_stable() {
    let mut room = bidding_room();
    room.players[0].money = 100;
    room.players[1].money = 500;
    room.players[2].money = 100;
    room.players.push(Player::new(13, "di".to_string()));
    room.players[3].money = 500;
    let info = room.get_game_end_info().expect("ranking");
    let lines: Vec<(String, i32)> =
        info.players.iter().map(|p| (p.username.clone(), p.money)).collect();
    assert_eq!(
        lines,
        vec![
            ("bob".to_string(), 500),
            ("di".to_string(), 500),
            ("ann".to_string(), 100),
            ("cy".to_string(), 100)
        ]
    );
}

#[test]
fn ranking_agrees_with_a_stable_sort() {
    let mut room = bidding_room();
    let moneys = [5, -3, 12, 5, 0, 12, 7, -3];
    room.players.clear();
    for (i, m) in moneys.iter().enumerate() {
        let mut p = Player::new(i as u32, format!("player{}", i));
        p.money = *m;
        room.players.push(p);
    }
    let mut expected: Vec<(String, i32)> =
        room.players.iter().map(|p| (p.username.clone(), p.money)).collect();
    expected.sort_by(|a, b| b.1.cmp(&a.1));
    let info = room.get_game_end_info().expect("ranking");
    let lines: Vec<(String, i32)> =
        info.players.iter().map(|p| (p.username.clone(), p.money)).collect();
    assert_eq!(lines, expected);
}

#[test]
fn completed_prompt_count_is_the_number_remaining() {
    let mut room = bidding_room();
    assert_eq!(room.get_completed_prompt_count(), 0);
    room.remaining_prompts = vec![prompt("a", 10, 100), prompt("b", 11, 200)];
    assert_eq!(room.get_completed_prompt_count(), 2);
}

#[test]
fn room_is_prepped_only_with_all_prompts_and_hints() {
    let mut room = bidding_room();
    room.game_state = GameState::ImageCreation;
    room.prompts_per_player = 1;
    room.remaining_prompts = vec![prompt("a", 10, 100), prompt("b", 11, 200), prompt("c", 12, 300)];
    assert!(!check_if_room_is_prepped(&room));
    for p in room.players.iter_mut() {
        p.hints = vec!["h1".to_string()];
    }
    assert!(check_if_room_is_prepped(&room));
    room.players[2].hints.push("h2".to_string());
    assert!(!check_if_room_is_prepped(&room));
    room.players[2].hints.pop();
    room.players[2].hints.pop();
    assert!(!check_if_room_is_prepped(&room));
    room.players[2].hints.push("h".to_string());
    room.remaining_prompts.pop();
    assert!(!check_if_room_is_prepped(&room));
    room.players.clear();
    room.remaining_prompts.clear();
    assert!(!check_if_room_is_prepped(&room));
}

#[test]
fn room_with_two_prompts_each_needs_two_hints_each() {
    let mut room = bidding_room();
    room.game_state = GameState::ImageCreation;
    room.prompts_per_player = 2;
    room.remaining_prompts = (0..6).map(|i| prompt("x", 10 + i / 2, 100)).collect();
    for p in room.players.iter_mut() {
        p.hints = vec!["h1".to_string()];
    }
    assert!(!check_if_room_is_prepped(&room));
    for p in room.players.iter_mut() {
        p.hints.push("h2".to_string());
    }
    assert!(check_if_room_is_prepped(&room));
}

#[test]
fn additional_clone_copies_the_room() {
    let mut room = bidding_room();
    room.players[1].hints = vec!["x".to_string()];
    let copy = room.additional_clone();
    assert_eq!(format!("{:?}", copy), format!("{:?}", room));
}
