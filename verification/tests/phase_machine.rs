use artbabo::messages::{
    ArtBidInfo, GameState, Player, PromptInfoData, BIDDING_ROUND_END_TIME, BIDDING_ROUND_TIME,
    END_SCORE_SCREEN_TIME, GAME_VERSION,
};
use artbabo::phase::{can_progress, progress_round, progress_round_with};
use artbabo::room::RoomState;

fn prompt(text: &str, owner: u32, value: u32) -> PromptInfoData {
    PromptInfoData {
        prompt_text: text.to_string(),
        prompt_answer: "answer".to_string(),
        image_url: "url".to_string(),
        owner_id: owner,
        art_value: value,
    }
}

fn ready_room(players: u32, per_player: u32) -> RoomState {
    let mut room = RoomState {
        room_id: 4,
        players: vec![],
        game_state: GameState::ImageCreation,
        current_art_bid: ArtBidInfo::default(),
        prompts_per_player: per_player,
        remaining_prompts: vec![],
        used_prompts: vec![],
        room_code: "".to_string(),
        version_number: GAME_VERSION,
    };
    for i in 0..players {
        let mut p = Player::new(i + 1, format!("player{}", i + 1));
        p.hints = (0..per_player).map(|k| format!("hint {}", k)).collect();
        room.players.push(p);
        for k in 0..per_player {
            room.remaining_prompts.push(prompt(&format!("{}-{}", i, k), i + 1, 100 + k));
        }
    }
    room
}

#[test]
fn early_phases_step_without_effects() {
    let mut room = ready_room(2, 2);
    room.game_state = GameState::WaitingRoom;
    let p = progress_round_with(&mut room, 0);
    assert_eq!(room.game_state, GameState::PromptGenerationWaiting);
    assert!(p.timer.is_none() && p.round_end.is_none() && p.game_end.is_none() && !p.remove_room);
    let p = progress_round_with(&mut room, 0);
    assert_eq!(room.game_state, GameState::ImageCreation);
    assert!(p.timer.is_none() && p.round_end.is_none() && p.game_end.is_none() && !p.remove_room);
}

#[test]
fn intro_is_a_dead_end() {
    let mut room = ready_room(1, 1);
    room.game_state = GameState::Intro;
    let before = format!("{:?}", room);
    let p = progress_round_with(&mut room, 5);
    assert_eq!(format!("{:?}", room), before);
    assert!(p.timer.is_none() && !p.remove_room);
}

#[test]
fn first_round_starts_with_one_prompt_and_bidding_timer() {
    let mut room = ready_room(2, 2);
    let p = progress_round_with(&mut room, 2);
    assert_eq!(room.game_state, GameState::BiddingRound);
    assert_eq!(p.timer, Some(BIDDING_ROUND_TIME));
    assert_eq!(p.timer, Some(50));
    assert_eq!(room.remaining_prompts.len(), 3);
    assert_eq!(room.current_art_bid.prompt_info.prompt_text, "1-0");
    assert_eq!(room.current_art_bid.bid_increase_amount, 100);
}

#[test]
fn end_of_round_pays_and_sets_short_timer() {
    let mut room = ready_room(2, 1);
    progress_round_with(&mut room, 0);
    assert!(room.player_bid(2).is_some());
    assert!(can_progress(&room));
    let p = progress_round_with(&mut room, 0);
    assert_eq!(room.game_state, GameState::BiddingRoundEnd);
    assert_eq!(p.timer, Some(BIDDING_ROUND_END_TIME));
    assert_eq!(p.timer, Some(9));
    let summary = p.round_end.expect("summary");
    assert_eq!(summary.artist_name, "player1");
    assert_eq!(summary.bid_winner_name, "player2");
    assert_eq!(summary.winning_bid_amount, 100);
    assert_eq!(summary.art_value, 100);
    assert_eq!(room.players[0].money, 3100);
    assert_eq!(room.players[1].money, 3000);
}

#[test]
fn game_has_players_times_prompts_rounds() {
    for (players, per_player) in [(2u32, 2u32), (3, 2), (6, 1), (1, 1)] {
        let mut room = ready_room(players, per_player);
        let rounds = (players * per_player) as usize;
        let mut steps = 0usize;
        let mut rounds_ended = 0usize;
        let mut pick = 17u32;
        while room.game_state != GameState::EndScoreScreen {
            assert!(steps < 2 * rounds + 1, "the scoreboard comes too late");
            let before = room.game_state;
            let remaining = room.remaining_prompts.len();
            let used = room.used_prompts.len();
            let progress = progress_round_with(&mut room, pick);
            pick = pick.wrapping_mul(31).wrapping_add(7);
            steps += 1;
            match before {
                GameState::BiddingRound => {
                    rounds_ended += 1;
                    assert_eq!(room.game_state, GameState::BiddingRoundEnd);
                    assert_eq!(room.remaining_prompts.len(), remaining);
                    assert_eq!(progress.timer, Some(9));
                }
                _ => {
                    if room.game_state == GameState::BiddingRound {
                        assert_eq!(room.remaining_prompts.len(), remaining - 1);
                        assert_eq!(room.used_prompts.len(), used + 1);
                        assert_eq!(progress.timer, Some(50));
                    } else {
                        assert_eq!(room.game_state, GameState::EndScoreScreen);
                        assert_eq!(progress.timer, Some(END_SCORE_SCREEN_TIME));
                        assert_eq!(progress.timer, Some(30));
                        assert_eq!(progress.game_end.expect("ranking").players.len(), players as usize);
                    }
                }
            }
        }
        assert_eq!(steps, 2 * rounds + 1);
        assert_eq!(rounds_ended, rounds);
        assert!(room.remaining_prompts.is_empty());
        let progress = progress_round_with(&mut room, 0);
        assert_eq!(room.game_state, GameState::Intro);
        assert!(progress.remove_room);
        assert!(progress.timer.is_none());
    }
}

#[test]
fn no_prompt_is_the_subject_twice() {
    let mut room = ready_room(3, 2);
    let mut subjects: Vec<String> = vec![];
    let mut pick = 3u32;
    while room.game_state != GameState::EndScoreScreen {
        progress_round_with(&mut room, pick);
        pick = pick.wrapping_mul(1103515245).wrapping_add(12345);
        if room.game_state == GameState::BiddingRound {
            subjects.push(room.current_art_bid.prompt_info.prompt_text.clone());
        }
    }
    assert_eq!(subjects.len(), 6);
    let mut sorted = subjects.clone();
    sorted.sort();
    sorted.dedup();
    assert_eq!(sorted.len(), 6);
}

#[test]
fn random_step_takes_one_of_the_prompts() {
    let mut room = ready_room(2, 2);
    let p = progress_round(&mut room);
    assert_eq!(room.game_state, GameState::BiddingRound);
    assert_eq!(p.timer, Some(50));
    assert_eq!(room.remaining_prompts.len(), 3);
    assert_ne!(room.current_art_bid.prompt_info.prompt_text, "");
}

#[test]
fn step_is_refused_where_payout_cannot_be_stored() {
    let mut room = ready_room(2, 1);
    progress_round_with(&mut room, 0);
    room.players[1].money = i32::MAX;
    room.current_art_bid.max_bid = 1;
    room.current_art_bid.max_bid_player_id = 2;
    room.current_art_bid.prompt_info.art_value = 100;
    assert!(!can_progress(&room));
    room.game_state = GameState::BiddingRoundEnd;
    assert!(can_progress(&room));
}
