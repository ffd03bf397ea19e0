use artbabo::hints::{
    assign_hints, assign_hints_with, find_donor, fits_here, give_hint, hint_texts, ids_without,
    place_hint, swap_with_donor, take_hint, HintChoice,
};
use artbabo::prompts::{
    can_distribute, distribute_prompts, draw_art_values, make_hint_request_line,
    PromptInfoForHint, PromptTextPlan, PromptTextStep,
};
use artbabo::messages::{ArtBidInfo, GameState, Player};
use artbabo::room::RoomState;
use rand::rngs::StdRng;
use rand::SeedableRng;
use std::collections::HashMap;

fn generated(writers: &[u32]) -> Vec<(String, u32)> {
    writers.iter().enumerate().map(|(i, w)| (format!("hint {}", i), *w)).collect()
}

#[test]
fn ids_without_keeps_order() {
    assert_eq!(ids_without(&vec![3, 1, 3, 2, 3], 3), vec![1, 2]);
    assert_eq!(ids_without(&vec![1, 2], 9), vec![1, 2]);
    assert_eq!(ids_without(&vec![], 9), Vec::<u32>::new());
}

#[test]
fn nobody_gets_a_hint_about_an_own_prompt() {
    for seed in 0..200u64 {
        let mut rng = StdRng::seed_from_u64(seed);
        let players = vec![1u32, 2, 3];
        let hints = generated(&[1, 1, 2, 2, 3, 3]);
        let board = assign_hints(&hints, &players, 2, &mut rng).expect("three players suffice");
        let mut seen: Vec<String> = vec![];
        for (player, list) in board.iter() {
            for (text, writer) in list.iter() {
                assert_ne!(writer, player, "seed {}", seed);
                seen.push(text.clone());
            }
        }
        seen.sort();
        let mut all: Vec<String> = hints.iter().map(|h| h.0.clone()).collect();
        all.sort();
        assert_eq!(seen, all, "seed {}", seed);
    }
}

#[test]
fn two_players_swap_their_hints() {
    for seed in 0..50u64 {
        let mut rng = StdRng::seed_from_u64(seed);
        let hints = generated(&[1, 1, 2, 2]);
        let board = assign_hints(&hints, &vec![1, 2], 2, &mut rng).expect("two players suffice");
        let texts = hint_texts(&board);
        assert_eq!(texts.get(&2), Some(&vec!["hint 0".to_string(), "hint 1".to_string()]));
        assert_eq!(texts.get(&1), Some(&vec!["hint 2".to_string(), "hint 3".to_string()]));
        assert_eq!(texts.len(), 2);
    }
}

#[test]
fn choices_decide_where_the_hints_go() {
    let hints = generated(&[1, 1, 2, 2]);
    let choices = vec![
        HintChoice::Draw(2),
        HintChoice::Draw(2),
        HintChoice::Draw(1),
        HintChoice::Draw(1),
    ];
    let board = assign_hints_with(&hints, &vec![1, 2], 2, &choices).expect("the choices fit");
    assert_eq!(board[&2], vec![("hint 0".to_string(), 1), ("hint 1".to_string(), 1)]);
    assert_eq!(board[&1], vec![("hint 2".to_string(), 2), ("hint 3".to_string(), 2)]);
    assert_eq!(board.len(), 2);
}

#[test]
fn choices_that_cannot_be_made_fail() {
    let hints = generated(&[1, 1, 2, 2]);
    let message = "No valid players available for hint assignment".to_string();
    let own = vec![HintChoice::Draw(1); 4];
    assert_eq!(assign_hints_with(&hints, &vec![1, 2], 2, &own).err(), Some(message.clone()));
    let full = vec![
        HintChoice::Draw(2),
        HintChoice::Draw(2),
        HintChoice::Draw(1),
        HintChoice::Draw(2),
    ];
    assert_eq!(assign_hints_with(&hints, &vec![1, 2], 2, &full).err(), Some(message.clone()));
    let short = vec![HintChoice::Draw(2)];
    assert_eq!(assign_hints_with(&hints, &vec![1, 2], 2, &short).err(), Some(message.clone()));
    let early_donor = vec![
        HintChoice::Draw(2),
        HintChoice::Donor(2, 0),
        HintChoice::Draw(1),
        HintChoice::Draw(1),
    ];
    assert_eq!(assign_hints_with(&hints, &vec![1, 2], 2, &early_donor).err(), Some(message));
}

#[test]
fn donor_steps_in_where_nobody_can_be_drawn() {
    let hints = generated(&[1, 2, 3]);
    let choices = vec![HintChoice::Draw(2), HintChoice::Draw(1), HintChoice::Donor(1, 0)];
    let board = assign_hints_with(&hints, &vec![1, 2, 3], 1, &choices).expect("the choices fit");
    assert_eq!(board[&2], vec![("hint 0".to_string(), 1)]);
    assert_eq!(board[&3], vec![("hint 1".to_string(), 2)]);
    assert_eq!(board[&1], vec![("hint 2".to_string(), 3)]);
    let wrong = vec![HintChoice::Draw(2), HintChoice::Draw(1), HintChoice::Donor(3, 0)];
    assert!(assign_hints_with(&hints, &vec![1, 2, 3], 1, &wrong).is_err());
}

#[test]
fn a_choice_fits_or_not() {
    let mut board: HashMap<u32, Vec<(String, u32)>> = HashMap::new();
    give_hint(&mut board, 1, "a".to_string(), 2);
    assert!(fits_here(&board, &vec![1, 2], 3, HintChoice::Draw(1)));
    assert!(!fits_here(&board, &vec![1, 2], 1, HintChoice::Draw(1)));
    assert!(!fits_here(&board, &vec![1, 2], 3, HintChoice::Draw(9)));
    assert!(!fits_here(&board, &vec![1, 2], 3, HintChoice::Donor(1, 0)));
    assert!(fits_here(&board, &vec![3], 3, HintChoice::Donor(1, 0)));
    assert!(!fits_here(&board, &vec![3], 3, HintChoice::Donor(1, 1)));
    assert!(!fits_here(&board, &vec![3], 3, HintChoice::Donor(2, 0)));
    assert!(!fits_here(&board, &vec![], 2, HintChoice::Donor(1, 0)));
}

#[test]
fn six_players_with_one_prompt_each_get_one_hint_each() {
    for seed in 0..100u64 {
        let mut rng = StdRng::seed_from_u64(seed);
        let players = vec![1u32, 2, 3, 4, 5, 6];
        let hints = generated(&[1, 2, 3, 4, 5, 6]);
        let board = assign_hints(&hints, &players, 1, &mut rng).expect("six players suffice");
        let mut total = 0;
        for (player, list) in board.iter() {
            assert!(list.iter().all(|(_, writer)| writer != player), "seed {}", seed);
            total += list.len();
        }
        assert_eq!(total, 6);
    }
}

#[test]
fn lone_player_cannot_be_given_own_hint() {
    let mut rng = StdRng::seed_from_u64(1);
    let r = assign_hints(&generated(&[1]), &vec![1], 2, &mut rng);
    assert_eq!(r.err(), Some("No valid players available for hint assignment".to_string()));
}

#[test]
fn no_hints_no_board() {
    let mut rng = StdRng::seed_from_u64(1);
    let board = assign_hints(&vec![], &vec![1, 2], 2, &mut rng).expect("nothing to do");
    assert!(board.is_empty());
}

#[test]
fn full_players_are_drawn_no_more() {
    for seed in 0..100u64 {
        let mut rng = StdRng::seed_from_u64(seed);
        let hints = generated(&[9, 9, 9, 9]);
        let board = assign_hints(&hints, &vec![1, 2], 2, &mut rng).expect("fits");
        assert_eq!(board.get(&1).map(|l| l.len()), Some(2));
        assert_eq!(board.get(&2).map(|l| l.len()), Some(2));
    }
}

#[test]
fn board_steps_do_what_they_say() {
    let mut board: HashMap<u32, Vec<(String, u32)>> = HashMap::new();
    assert_eq!(give_hint(&mut board, 1, "a".to_string(), 2), 1);
    assert_eq!(give_hint(&mut board, 1, "b".to_string(), 3), 2);
    assert_eq!(give_hint(&mut board, 2, "c".to_string(), 1), 1);
    assert_eq!(board[&1], vec![("a".to_string(), 2), ("b".to_string(), 3)]);
    assert_eq!(find_donor(&board, 2), Some((1, 1)));
    let donor = find_donor(&board, 3).expect("both hold a hint of another writer");
    assert!(donor == (1, 0) || donor == (2, 0));
    assert_eq!(find_donor(&board, 1), None);
    assert_eq!(take_hint(&mut board, 1, 0), ("a".to_string(), 2));
    assert_eq!(board[&1], vec![("b".to_string(), 3)]);
}

#[test]
fn donor_is_never_the_writer() {
    let mut board: HashMap<u32, Vec<(String, u32)>> = HashMap::new();
    give_hint(&mut board, 1, "about 2".to_string(), 2);
    assert_eq!(find_donor(&board, 1), None);
    assert_eq!(find_donor(&board, 2), None);
    assert_eq!(find_donor(&board, 3), Some((1, 0)));
}

#[test]
fn place_hint_retires_full_players() {
    let mut board: HashMap<u32, Vec<(String, u32)>> = HashMap::new();
    let mut available = vec![1u32, 2, 3];
    place_hint(&mut board, &mut available, 2, 2, "a".to_string(), 1);
    assert_eq!(available, vec![1, 2, 3]);
    place_hint(&mut board, &mut available, 2, 2, "b".to_string(), 3);
    assert_eq!(available, vec![1, 3]);
    assert_eq!(board[&2].len(), 2);
}

#[test]
fn swap_moves_old_hint_to_writer_and_new_hint_to_donor() {
    let mut board: HashMap<u32, Vec<(String, u32)>> = HashMap::new();
    give_hint(&mut board, 1, "x".to_string(), 2);
    give_hint(&mut board, 1, "y".to_string(), 2);
    let mut available: Vec<u32> = vec![3];
    swap_with_donor(&mut board, &mut available, 2, 1, 0, "z".to_string(), 3);
    assert_eq!(board[&1], vec![("y".to_string(), 2), ("z".to_string(), 3)]);
    assert_eq!(board[&3], vec![("x".to_string(), 2)]);
    assert_eq!(available, vec![3]);
}

#[test]
fn hint_request_line_reads_as_sentence() {
    let source = PromptInfoForHint {
        prompt: "dog with antlers".to_string(),
        art_value: 320,
        owner_username: "Billbo".to_string(),
        player_id: 4,
    };
    assert_eq!(
        make_hint_request_line(&source),
        "Billbo has a prompt 'dog with antlers' for a value of: 320"
    );
}

fn room(players: u32, per_player: u32) -> RoomState {
    RoomState {
        room_id: 3,
        players: (0..players).map(|i| Player::new(10 + i, format!("player{}", i))).collect(),
        game_state: GameState::PromptGenerationWaiting,
        current_art_bid: ArtBidInfo::default(),
        prompts_per_player: per_player,
        remaining_prompts: vec![],
        used_prompts: vec![],
        room_code: String::new(),
        version_number: 3,
    }
}

#[test]
fn prompts_can_be_distributed_while_owners_last() {
    let r = room(3, 2);
    assert!(can_distribute(&r, 0));
    assert!(can_distribute(&r, 6));
    assert!(!can_distribute(&r, 7));
    let r = room(3, 0);
    assert!(can_distribute(&r, 3));
    assert!(!can_distribute(&r, 4));
    let r = room(0, 2);
    assert!(can_distribute(&r, 0));
    assert!(!can_distribute(&r, 1));
}

#[test]
fn prompts_are_dealt_in_blocks() {
    let r = room(3, 2);
    let texts: Vec<String> = (0..5).map(|i| format!("t{}", i)).collect();
    let (proposals, sources) = distribute_prompts(&r, &texts);
    let owners: Vec<u32> = proposals.iter().map(|p| p.prompt.owner_id).collect();
    assert_eq!(owners, vec![10, 10, 11, 11, 12]);
    assert_eq!(sources.len(), 5);
    for (k, p) in proposals.iter().enumerate() {
        assert_eq!(p.prompt.prompt_text, format!("t{}", k));
        assert!(p.prompt.art_value >= 100 && p.prompt.art_value < 3500);
        assert_eq!(sources[k].art_value, p.prompt.art_value);
        assert_eq!(sources[k].player_id, p.prompt.owner_id);
        assert_eq!(p.room_id, 3);
    }
}

#[test]
fn art_values_are_in_range() {
    let values = draw_art_values(500);
    assert_eq!(values.len(), 500);
    assert!(values.iter().all(|v| *v >= 100 && *v < 3500));
    assert!(values.iter().any(|v| *v != values[0]));
}

#[test]
fn plan_asks_a_third_unique_then_similar() {
    let mut rng = StdRng::seed_from_u64(5);
    let mut plan = PromptTextPlan::new(7);
    let mut asked_unique = 0;
    let mut asked_similar = 0;
    loop {
        match plan.next_step(&mut rng) {
            PromptTextStep::AskUnique => {
                assert_eq!(asked_similar, 0);
                asked_unique += 1;
                plan.record(format!("u{}", asked_unique));
            }
            PromptTextStep::AskSimilar(base) => {
                assert!(base == "u1" || base == "u2");
                asked_similar += 1;
                plan.record(format!("s{}", asked_similar));
            }
            PromptTextStep::Finished => break,
            PromptTextStep::Failed(e) => panic!("unexpected failure: {}", e),
        }
    }
    assert_eq!(asked_unique, 2);
    assert_eq!(asked_similar, 5);
    assert_eq!(plan.unique_prompts, vec!["u1", "u2"]);
    assert_eq!(plan.similar_prompts, vec!["s1", "s2", "s3", "s4", "s5"]);
    let mut texts = plan.finish();
    texts.sort();
    assert_eq!(texts, vec!["s1", "s2", "s3", "s4", "s5", "u1", "u2"]);
}

#[test]
fn plan_for_fewer_than_three_cannot_vary() {
    let mut rng = StdRng::seed_from_u64(5);
    let plan = PromptTextPlan::new(2);
    match plan.next_step(&mut rng) {
        PromptTextStep::Failed(e) => assert_eq!(e, "Failed to choose prompt"),
        other => panic!("unexpected: {:?}", other),
    }
}

#[test]
fn plan_for_nothing_is_finished() {
    let mut rng = StdRng::seed_from_u64(5);
    let plan = PromptTextPlan::new(0);
    assert!(matches!(plan.next_step(&mut rng), PromptTextStep::Finished));
    assert!(plan.finish().is_empty());
}

#[test]
fn finish_shuffles_without_losing_texts() {
    let mut orders: Vec<Vec<String>> = vec![];
    for _ in 0..20 {
        let mut plan = PromptTextPlan::new(12);
        for i in 0..12 {
            plan.record(format!("t{:02}", i));
        }
        let texts = plan.finish();
        let mut sorted = texts.clone();
        sorted.sort();
        assert_eq!(sorted, (0..12).map(|i| format!("t{:02}", i)).collect::<Vec<String>>());
        orders.push(texts);
    }
    assert!(orders.iter().any(|o| *o != orders[0]));
}
