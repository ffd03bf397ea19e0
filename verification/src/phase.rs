//! The phase machine of a room: what one step does to the room and what it
//! asks the caller to do.
//!
//! `WaitingRoom`, `PromptGenerationWaiting`, `ImageCreation`, then
//! `BiddingRound` and `BiddingRoundEnd` in turn while prompts remain, then
//! `EndScoreScreen`, then `Intro`, with which the room is to be removed.

use crate::messages::{
    GameEndInfo, GameEndPlayerView, GameState, RoundEndInfo, RoundEndView, BIDDING_ROUND_END_TIME,
    BIDDING_ROUND_TIME, END_SCORE_SCREEN_TIME,
};
use crate::random::random_u32;
use crate::room::{
    find_player, lemma_credit_keeps_ids, lemma_find_player, ranking, RoomState, RoomView,
};
use vstd::prelude::*;

verus! {

/// What a step of the phase machine asks of the caller.
#[derive(Debug)]
pub struct RoundProgress {
    /// Seconds after which the next step is due.
    pub timer: Option<u64>,
    /// The summary of the round that has ended, for every player.
    pub round_end: Option<RoundEndInfo>,
    /// The final ranking, for every player.
    pub game_end: Option<GameEndInfo>,
    /// The room is over: take it out of the registry.
    pub remove_room: bool,
}

pub struct ProgressView {
    pub timer: Option<u64>,
    pub round_end: Option<RoundEndView>,
    pub game_end: Option<Seq<GameEndPlayerView>>,
    pub remove_room: bool,
}

impl View for RoundProgress {
    type V = ProgressView;

    open spec fn view(&self) -> ProgressView {
        ProgressView {
            timer: self.timer,
            round_end: match self.round_end {
                Some(info) => Some(info@),
                None => None,
            },
            game_end: match self.game_end {
                Some(info) => Some(info@),
                None => None,
            },
            remove_room: self.remove_room,
        }
    }
}

/// A step that asks for nothing.
pub open spec fn nothing_to_do() -> ProgressView {
    ProgressView { timer: None, round_end: None, game_end: None, remove_room: false }
}

impl RoomView {
    /// The room in another phase.
    pub open spec fn in_phase(self, phase: GameState) -> RoomView {
        RoomView { game_state: phase, ..self }
    }

    /// The room after one step of the phase machine. `pick` selects the
    /// prompt of the next round where the step starts one.
    pub open spec fn progress(self, pick: int) -> RoomView {
        match self.game_state {
            GameState::WaitingRoom => self.in_phase(GameState::PromptGenerationWaiting),
            GameState::PromptGenerationWaiting => self.in_phase(GameState::ImageCreation),
            GameState::ImageCreation => self.in_phase(GameState::BiddingRound).setup_next_round(
                pick,
            ),
            GameState::BiddingRound => self.in_phase(GameState::BiddingRoundEnd).finalize(),
            GameState::BiddingRoundEnd => if self.remaining_prompts.len() > 0 {
                self.in_phase(GameState::BiddingRound).setup_next_round(pick)
            } else {
                self.in_phase(GameState::EndScoreScreen)
            },
            GameState::EndScoreScreen => self.in_phase(GameState::Intro),
            GameState::Intro => self,
        }
    }

    /// What one step of the phase machine asks of the caller.
    pub open spec fn progress_effects(self) -> ProgressView {
        match self.game_state {
            GameState::ImageCreation => ProgressView {
                timer: Some(BIDDING_ROUND_TIME),
                ..nothing_to_do()
            },
            GameState::BiddingRound => ProgressView {
                timer: Some(BIDDING_ROUND_END_TIME),
                round_end: self.round_summary(),
                ..nothing_to_do()
            },
            GameState::BiddingRoundEnd => if self.remaining_prompts.len() > 0 {
                ProgressView { timer: Some(BIDDING_ROUND_TIME), ..nothing_to_do() }
            } else {
                ProgressView {
                    timer: Some(END_SCORE_SCREEN_TIME),
                    game_end: Some(ranking(self.players)),
                    ..nothing_to_do()
                }
            },
            GameState::EndScoreScreen => ProgressView { remove_room: true, ..nothing_to_do() },
            _ => nothing_to_do(),
        }
    }

    /// Whether the step that is due can be taken: the payout of a round
    /// that ends must fit.
    pub open spec fn can_progress(self) -> bool {
        self.game_state == GameState::BiddingRound ==> self.payout_fits()
    }
}

/// Whether the step that is due can be taken.
pub fn can_progress(room_state: &RoomState) -> (b: bool)
    ensures
        b == room_state@.can_progress(),
{
    if room_state.game_state == GameState::BiddingRound {
        room_state.payout_fits()
    } else {
        true
    }
}

/// Takes one step of the phase machine, with `pick` to select the prompt
/// of the next round where the step starts one.
pub fn progress_round_with(room_state: &mut RoomState, pick: u32) -> (r: RoundProgress)
    requires
        old(room_state)@.can_progress(),
    ensures
        final(room_state)@ == old(room_state)@.progress(pick as int),
        r@ == old(room_state)@.progress_effects(),
{
    let mut progress = RoundProgress {
        timer: None,
        round_end: None,
        game_end: None,
        remove_room: false,
    };
    match room_state.game_state {
        GameState::WaitingRoom => {
            room_state.game_state = GameState::PromptGenerationWaiting;
        },
        GameState::PromptGenerationWaiting => {
            room_state.game_state = GameState::ImageCreation;
        },
        GameState::ImageCreation => {
            room_state.game_state = GameState::BiddingRound;
            room_state.setup_next_round_with(pick);
            progress.timer = Some(BIDDING_ROUND_TIME);
        },
        GameState::BiddingRound => {
            room_state.game_state = GameState::BiddingRoundEnd;
            progress.round_end = room_state.finalize_round();
            progress.timer = Some(BIDDING_ROUND_END_TIME);
        },
        GameState::BiddingRoundEnd => {
            if room_state.remaining_prompts.len() > 0 {
                room_state.game_state = GameState::BiddingRound;
                room_state.setup_next_round_with(pick);
                progress.timer = Some(BIDDING_ROUND_TIME);
            } else {
                room_state.game_state = GameState::EndScoreScreen;
                progress.game_end = room_state.get_game_end_info();
                progress.timer = Some(END_SCORE_SCREEN_TIME);
            }
        },
        GameState::EndScoreScreen => {
            room_state.game_state = GameState::Intro;
            progress.remove_room = true;
        },
        GameState::Intro => {},
    }
    progress
}

/// Takes one step of the phase machine. Where the step starts a round, its
/// prompt is drawn at random from those that remain.
pub fn progress_round(room_state: &mut RoomState) -> (r: RoundProgress)
    requires
        old(room_state)@.can_progress(),
    ensures
        exists|pick: int| final(room_state)@ == old(room_state)@.progress(pick),
        r@ == old(room_state)@.progress_effects(),
{
    let pick = random_u32();
    let r = progress_round_with(room_state, pick);
    assert(room_state@ == old(room_state)@.progress(pick as int));
    r
}

/// The phase that follows a phase. After the end of a round it depends on
/// whether prompts remain.
pub open spec fn next_phase(phase: GameState, prompts_remain: bool) -> GameState {
    match phase {
        GameState::WaitingRoom => GameState::PromptGenerationWaiting,
        GameState::PromptGenerationWaiting => GameState::ImageCreation,
        GameState::ImageCreation => GameState::BiddingRound,
        GameState::BiddingRound => GameState::BiddingRoundEnd,
        GameState::BiddingRoundEnd => if prompts_remain {
            GameState::BiddingRound
        } else {
            GameState::EndScoreScreen
        },
        GameState::EndScoreScreen => GameState::Intro,
        GameState::Intro => GameState::Intro,
    }
}

/// A step leads from each phase to the one that follows it and to no
/// other, whatever else is in the room. It touches the money of the players
/// only where it ends a round, and the prompts only where it starts one,
/// and it never adds to the prompts that remain.
pub proof fn lemma_phases_follow_in_order(room: RoomView, pick: int)
    ensures
        room.progress(pick).game_state == next_phase(
            room.game_state,
            room.remaining_prompts.len() > 0,
        ),
        room.game_state != GameState::BiddingRound ==> room.progress(pick).players == room.players,
        next_phase(room.game_state, room.remaining_prompts.len() > 0) != GameState::BiddingRound
            ==> room.progress(pick).remaining_prompts == room.remaining_prompts
            && room.progress(pick).used_prompts == room.used_prompts,
        room.progress(pick).remaining_prompts.len() <= room.remaining_prompts.len(),
{
    let n = room.remaining_prompts.len() as int;
    if n > 0 {
        assert(0 <= pick % n < n) by (nonlinear_arith)
            requires
                n > 0,
        ;
    }
}

/// The room after a run of steps, one for each pick.
pub open spec fn progress_many(room: RoomView, picks: Seq<int>) -> RoomView
    decreases picks.len(),
{
    if picks.len() == 0 {
        room
    } else {
        progress_many(room.progress(picks[0]), picks.drop_first())
    }
}

/// Number of bidding rounds that a run of steps brings to their end.
pub open spec fn rounds_ended(room: RoomView, picks: Seq<int>) -> nat
    decreases picks.len(),
{
    if picks.len() == 0 {
        0
    } else {
        let here: nat = if room.game_state == GameState::BiddingRound {
            1
        } else {
            0
        };
        here + rounds_ended(room.progress(picks[0]), picks.drop_first())
    }
}

/// A step that starts a round takes exactly one prompt from those that
/// remain, makes it the subject of the round, and moves the subject of the
/// round before to the used ones. No prompt is lost or made on the way.
pub proof fn lemma_round_start_consumes_one(room: RoomView, pick: int)
    requires
        room.game_state == GameState::ImageCreation || room.game_state
            == GameState::BiddingRoundEnd,
        room.remaining_prompts.len() > 0,
    ensures
        room.progress(pick).game_state == GameState::BiddingRound,
        room.progress(pick).remaining_prompts.len() == room.remaining_prompts.len() - 1,
        room.progress(pick).used_prompts.len() == room.used_prompts.len() + 1,
        room.remaining_prompts.contains(room.progress(pick).current_art_bid.prompt_info),
        room.progress(pick).remaining_prompts.to_multiset().insert(
            room.progress(pick).current_art_bid.prompt_info,
        ) == room.remaining_prompts.to_multiset(),
        room.progress(pick).used_prompts == room.used_prompts.push(
            room.current_art_bid.prompt_info,
        ),
        room.progress(pick).players == room.players,
{
    let n = room.remaining_prompts.len() as int;
    let i = pick % n;
    assert(0 <= i < n) by (nonlinear_arith)
        requires
            n > 0,
            i == pick % n,
    ;
    assert(room.remaining_prompts[i] == room.progress(pick).current_art_bid.prompt_info);
    vstd::seq_lib::to_multiset_remove(room.remaining_prompts, i);
    room.remaining_prompts.to_multiset_ensures();
    assert(room.remaining_prompts.to_multiset().remove(room.remaining_prompts[i]).insert(
        room.remaining_prompts[i],
    ) =~= room.remaining_prompts.to_multiset());
}

/// The step that ends a round leaves the prompts as they are.
pub proof fn lemma_round_end_keeps_prompts(room: RoomView, pick: int)
    requires
        room.game_state == GameState::BiddingRound,
    ensures
        room.progress(pick).game_state == GameState::BiddingRoundEnd,
        room.progress(pick).remaining_prompts == room.remaining_prompts,
        room.progress(pick).used_prompts == room.used_prompts,
        room.progress(pick).players.len() == room.players.len(),
{
    let ending = room.in_phase(GameState::BiddingRoundEnd);
    if ending.has_sale() {
        lemma_find_player(ending.players, ending.leader_id());
        let paid = ending.pay_winner();
        assert(paid.players.len() == room.players.len());
        lemma_credit_keeps_ids(
            ending,
            find_player(ending.players, ending.leader_id()),
            ending.current_art_bid.prompt_info.art_value - ending.current_art_bid.max_bid,
            ending.artist_id(),
        );
        lemma_find_player(paid.players, paid.artist_id());
        assert(paid.pay_artist().players.len() == room.players.len());
    }
}

proof fn lemma_two_steps(room: RoomView, picks: Seq<int>)
    requires
        picks.len() >= 2,
    ensures
        progress_many(room, picks) == progress_many(
            room.progress(picks[0]).progress(picks[1]),
            picks.skip(2),
        ),
        rounds_ended(room, picks) == rounds_ended(room, picks.take(2)) + rounds_ended(
            room.progress(picks[0]).progress(picks[1]),
            picks.skip(2),
        ),
        rounds_ended(room, picks.take(2)) == (if room.game_state == GameState::BiddingRound {
            1nat
        } else {
            0nat
        }) + (if room.progress(picks[0]).game_state == GameState::BiddingRound {
            1nat
        } else {
            0nat
        }),
{
    reveal_with_fuel(progress_many, 3);
    reveal_with_fuel(rounds_ended, 3);
    let rest = picks.drop_first();
    assert(rest[0] == picks[1]);
    assert(rest.drop_first() =~= picks.skip(2));
    let two = picks.take(2);
    assert(two.drop_first()[0] == picks[1]);
    assert(two.drop_first().drop_first().len() == 0);
    assert(rounds_ended(room.progress(picks[0]).progress(picks[1]), two.drop_first().drop_first())
        == 0);
}

proof fn lemma_prefix_two_steps(room: RoomView, picks: Seq<int>, k: int)
    requires
        2 <= k <= picks.len(),
    ensures
        progress_many(room, picks.take(k)) == progress_many(
            room.progress(picks[0]).progress(picks[1]),
            picks.skip(2).take(k - 2),
        ),
{
    lemma_two_steps(room, picks.take(k));
    assert(picks.take(k).skip(2) =~= picks.skip(2).take(k - 2));
}

proof fn lemma_short_prefix(room: RoomView, picks: Seq<int>, k: int)
    requires
        0 <= k <= 1,
        k <= picks.len(),
    ensures
        progress_many(room, picks.take(k)) == if k == 0 {
            room
        } else {
            room.progress(picks[0])
        },
{
    reveal_with_fuel(progress_many, 3);
    if k == 1 {
        assert(picks.take(1).drop_first().len() == 0);
        assert(picks.take(1)[0] == picks[0]);
    } else {
        assert(picks.take(0).len() == 0);
    }
}

/// From the end of a round with `m` prompts left, the scoreboard comes
/// after `2 * m + 1` steps, not before, and `m` more rounds end on the
/// way.
pub proof fn lemma_rounds_until_scoreboard(room: RoomView, picks: Seq<int>)
    requires
        room.game_state == GameState::BiddingRoundEnd,
        picks.len() == 2 * room.remaining_prompts.len() + 1,
    ensures
        progress_many(room, picks).game_state == GameState::EndScoreScreen,
        progress_many(room, picks).remaining_prompts.len() == 0,
        progress_many(room, picks).used_prompts.len() == room.used_prompts.len()
            + room.remaining_prompts.len(),
        rounds_ended(room, picks) == room.remaining_prompts.len(),
        forall|k: int|
            0 <= k < picks.len() ==> (#[trigger] progress_many(room, picks.take(k))).game_state
                != GameState::EndScoreScreen,
    decreases picks.len(),
{
    let m = room.remaining_prompts.len();
    if m == 0 {
        reveal_with_fuel(progress_many, 3);
        reveal_with_fuel(rounds_ended, 3);
        assert(picks.drop_first().len() == 0);
        assert(rounds_ended(room.progress(picks[0]), picks.drop_first()) == 0);
        assert forall|k: int| 0 <= k < picks.len() implies (#[trigger] progress_many(
            room,
            picks.take(k),
        )).game_state != GameState::EndScoreScreen by {
            lemma_short_prefix(room, picks, k);
        }
    } else {
        let started = room.progress(picks[0]);
        lemma_round_start_consumes_one(room, picks[0]);
        let ended = started.progress(picks[1]);
        lemma_round_end_keeps_prompts(started, picks[1]);
        let rest = picks.skip(2);
        lemma_rounds_until_scoreboard(ended, rest);
        lemma_two_steps(room, picks);
        assert forall|k: int| 0 <= k < picks.len() implies (#[trigger] progress_many(
            room,
            picks.take(k),
        )).game_state != GameState::EndScoreScreen by {
            if k <= 1 {
                lemma_short_prefix(room, picks, k);
            } else {
                lemma_prefix_two_steps(room, picks, k);
                assert(progress_many(ended, rest.take(k - 2)).game_state
                    != GameState::EndScoreScreen);
            }
        }
    }
}

/// A room in which every prompt of every player has come back plays
/// exactly as many rounds as it has players times prompts per player: that
/// many rounds end, each started by a step that takes one prompt from
/// those that remain, and the scoreboard comes with the step after the
/// last round, not before.
pub proof fn lemma_game_length(room: RoomView, picks: Seq<int>)
    requires
        room.game_state == GameState::ImageCreation,
        room.remaining_prompts.len() == room.players.len() * room.prompts_per_player,
        room.remaining_prompts.len() > 0,
        picks.len() == 2 * (room.players.len() * room.prompts_per_player) + 1,
    ensures
        progress_many(room, picks).game_state == GameState::EndScoreScreen,
        progress_many(room, picks).remaining_prompts.len() == 0,
        rounds_ended(room, picks) == room.players.len() * room.prompts_per_player,
        forall|k: int|
            0 <= k < picks.len() ==> (#[trigger] progress_many(room, picks.take(k))).game_state
                != GameState::EndScoreScreen,
{
    let started = room.progress(picks[0]);
    lemma_round_start_consumes_one(room, picks[0]);
    let ended = started.progress(picks[1]);
    lemma_round_end_keeps_prompts(started, picks[1]);
    let rest = picks.skip(2);
    lemma_rounds_until_scoreboard(ended, rest);
    lemma_two_steps(room, picks);
    assert forall|k: int| 0 <= k < picks.len() implies (#[trigger] progress_many(
        room,
        picks.take(k),
    )).game_state != GameState::EndScoreScreen by {
        if k <= 1 {
            lemma_short_prefix(room, picks, k);
        } else {
            lemma_prefix_two_steps(room, picks, k);
            assert(progress_many(ended, rest.take(k - 2)).game_state != GameState::EndScoreScreen);
        }
    }
}

} // verus!
