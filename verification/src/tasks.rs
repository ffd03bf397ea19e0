//! Background work as it comes back: what the answer of an outside service
//! does to a prompt, and what a finished task does to its room.

use crate::messages::{
    clone_strings, strings_view, GameState, PlayerView, PromptInfoDataRequest, PromptRequestView,
    PromptState, PromptView, MAX_ART_VALUE, MIN_ART_VALUE,
};
use crate::phase::{can_progress, progress_round_with, ProgressView, RoundProgress};
use crate::prompts::{
    can_distribute, distribute_prompts_with, draw_art_values, hint_source, owners_present,
    proposed_prompt, PromptInfoForHint,
};
use crate::registry::RoomList;
use crate::room::{
    check_if_room_is_prepped, find_player, lemma_find_player_same_ids, player_index, RoomState,
    RoomView,
};
use crate::session::{lemma_rules_keep_identity, lemma_with_room_wf, progress_view};
use crate::text::{decimal, decimal_string};
use std::collections::HashMap;
use vstd::prelude::*;

verus! {

/// The words by which the moderation approves an answer.
pub open spec fn approval_phrase() -> Seq<char> {
    "Response is approved"@
}

/// What an empty answer is told.
pub open spec fn invalid_prompt_message() -> Seq<char> {
    "Prompt is invalid"@
}

/// Whether `pattern` stands somewhere in `text`.
pub open spec fn contains_text(text: Seq<char>, pattern: Seq<char>) -> bool {
    exists|i: int|
        0 <= i <= text.len() - pattern.len() && #[trigger] text.subrange(i, i + pattern.len())
            == pattern
}

/// Calls `str::contains` of std with a string as the pattern. Assumed: it
/// says whether the pattern occurs in the text.
#[verifier::external_body]
fn text_contains(text: &str, pattern: &str) -> (b: bool)
    ensures
        b == contains_text(text@, pattern@),
{
    text.contains(pattern)
}

/// Reads the verdict of the moderation: approval where its words hold the
/// phrase of approval, else its words as the reason of the refusal.
pub fn moderation_verdict(ai_response: String) -> (r: Result<(), String>)
    ensures
        match r {
            Ok(_) => contains_text(ai_response@, approval_phrase()),
            Err(e) => !contains_text(ai_response@, approval_phrase()) && e@ == ai_response@,
        },
{
    if text_contains(ai_response.as_str(), "Response is approved") {
        Ok(())
    } else {
        Err(ai_response)
    }
}

impl PromptRequestView {
    /// The prompt after a step of its processing has failed.
    pub open spec fn failed(self, reason: Seq<char>) -> PromptRequestView {
        PromptRequestView { state: PromptState::Error, error_message: reason, ..self }
    }

    /// The prompt after the moderation has approved its answer.
    pub open spec fn approved(self) -> PromptRequestView {
        PromptRequestView { state: PromptState::PromptCompleted, ..self }
    }

    /// The prompt after its picture has been made.
    pub open spec fn illustrated(self, url: Seq<char>) -> PromptRequestView {
        PromptRequestView {
            state: PromptState::FullyCompleted,
            prompt: PromptView { image_url: url, ..self.prompt },
            ..self
        }
    }
}

/// Sends an answer back that is empty: such a prompt fails at once.
pub fn reject_empty_answer(request: &PromptInfoDataRequest) -> (r: Option<PromptInfoDataRequest>)
    ensures
        match r {
            Some(response) => request@.prompt.prompt_answer.len() == 0 && response@
                == request@.failed(invalid_prompt_message()),
            None => request@.prompt.prompt_answer.len() > 0,
        },
{
    if request.prompt.prompt_answer.as_str().is_empty() {
        let mut response = request.additional_clone();
        response.error_message = String::from_str("Prompt is invalid");
        response.state = PromptState::Error;
        Some(response)
    } else {
        None
    }
}

/// Notes the verdict of the moderation on a prompt.
pub fn mark_checked(request: PromptInfoDataRequest, verdict: Result<(), String>) -> (r:
    PromptInfoDataRequest)
    ensures
        r@ == match verdict {
            Ok(_) => request@.approved(),
            Err(e) => request@.failed(e@),
        },
{
    let mut request = request;
    match verdict {
        Ok(_) => {
            request.state = PromptState::PromptCompleted;
        },
        Err(e) => {
            request.state = PromptState::Error;
            request.error_message = e;
        },
    }
    request
}

/// Notes what the generation of the picture of a prompt gave.
pub fn mark_illustrated(request: PromptInfoDataRequest, image: Result<String, String>) -> (r:
    PromptInfoDataRequest)
    ensures
        r@ == match image {
            Ok(url) => request@.illustrated(url@),
            Err(e) => request@.failed(e@),
        },
{
    let mut request = request;
    match image {
        Ok(url) => {
            request.state = PromptState::FullyCompleted;
            request.prompt.image_url = url;
        },
        Err(e) => {
            request.state = PromptState::Error;
            request.error_message = e;
        },
    }
    request
}

/// What `check_submission` says of a connection that is in no room.
pub open spec fn no_player_message(id: usize) -> Seq<char> {
    "Failed to find player with id: "@ + decimal(id as nat)
}

/// What the fold of a task says of a room that is gone.
pub open spec fn no_room_message(id: usize) -> Seq<char> {
    "Failed to find room with id: "@ + decimal(id as nat)
}

fn make_no_room_message(id: usize) -> (s: String)
    ensures
        s@ == no_room_message(id),
{
    let mut s = String::from_str("Failed to find room with id: ");
    let n = decimal_string(id as u64);
    s.append(n.as_str());
    s
}

/// What became of a submitted answer.
#[derive(Debug)]
pub enum Submission {
    /// The answer goes on to the moderation.
    Accepted,
    /// The answer is empty: send this back to the sender.
    Invalid(PromptInfoDataRequest),
}

/// The views of texts by player.
pub open spec fn texts_view(m: Map<u32, Vec<String>>) -> Map<u32, Seq<Seq<char>>> {
    Map::new(|k: u32| m.contains_key(k), |k: u32| strings_view(m[k]@))
}

/// The players with the hints of the map: for each id of the map, the
/// first player with that id gets its hints.
pub open spec fn with_hints(players: Seq<PlayerView>, hints: Map<u32, Seq<Seq<char>>>) -> Seq<
    PlayerView,
> {
    Seq::new(
        players.len(),
        |i: int|
            if hints.contains_key(players[i].id) && find_player(players, players[i].id) == i {
                PlayerView { hints: hints[players[i].id], ..players[i] }
            } else {
                players[i]
            },
    )
}

impl RoomView {
    /// The room with one more finished prompt.
    pub open spec fn with_prompt(self, prompt: PromptView) -> RoomView {
        RoomView { remaining_prompts: self.remaining_prompts.push(prompt), ..self }
    }

    /// The room with the hints handed out.
    pub open spec fn hand_out(self, hints: Map<u32, Seq<Seq<char>>>) -> RoomView {
        RoomView { players: with_hints(self.players, hints), ..self }
    }

    /// Whether the room starts its first round now: it is ready, it is in
    /// the phase in which the answers are written, and the step can be
    /// taken.
    pub open spec fn starts_bidding(self) -> bool {
        self.is_prepped() && self.game_state == GameState::ImageCreation && self.can_progress()
    }

    /// The room after a task has brought something in: it starts its first
    /// round where it is ready for it.
    pub open spec fn after_task(self, pick: int) -> RoomView {
        if self.starts_bidding() {
            self.progress(pick)
        } else {
            self
        }
    }

    /// What the caller is asked for after a task has brought something in.
    pub open spec fn task_progress(self) -> Option<ProgressView> {
        if self.starts_bidding() {
            Some(self.progress_effects())
        } else {
            None
        }
    }
}

/// Starts the first round of a room that a task has made ready for it.
fn progress_if_ready(room: &mut RoomState, pick: u32) -> (r: Option<RoundProgress>)
    ensures
        final(room)@ == old(room)@.after_task(pick as int),
        progress_view(r) == old(room)@.task_progress(),
{
    if check_if_room_is_prepped(room) && room.game_state == GameState::ImageCreation
        && can_progress(room) {
        Some(progress_round_with(room, pick))
    } else {
        None
    }
}

/// Why generated prompts could not be brought into their room.
#[derive(Clone, Copy, Debug, PartialEq, Eq, Structural)]
pub enum PromptsError {
    /// The room is gone.
    RoomNotFound,
    /// The room does not wait for prompts.
    NotWaitingForPrompts,
    /// A prompt has no owner: players have left.
    OwnerMissing,
    /// The room has more players than hints can be counted for.
    TooManyPlayers,
}

/// Prompts that have been brought into their room.
#[derive(Debug)]
pub struct PromptsReady {
    /// For each prompt, what its owner is sent.
    pub proposals: Vec<PromptInfoDataRequest>,
    /// For each prompt, what the generation of hints is told.
    pub sources: Vec<PromptInfoForHint>,
    /// Number of hints to generate.
    pub number_of_hints: u32,
}

/// What the arrival of a picture led to.
#[derive(Debug)]
pub enum ImageStored {
    /// The room is gone.
    RoomMissing,
    /// The room waits for more: send the prompt to its owner.
    Waiting(PromptInfoDataRequest),
    /// The room has started its first round: send the room to its players.
    RoundStarted(RoundProgress),
}

impl RoomList {
    /// Looks at an answer that `connection_id` has submitted. An empty
    /// answer is sent back, if the sender is in a room.
    pub fn check_submission(&self, connection_id: usize, message: &PromptInfoDataRequest) -> (r:
        Result<Submission, String>)
        ensures
            match r {
                Ok(Submission::Accepted) => message@.prompt.prompt_answer.len() > 0,
                Ok(Submission::Invalid(response)) => {
                    &&& message@.prompt.prompt_answer.len() == 0
                    &&& self@.has_connection(connection_id as u32)
                    &&& response@ == message@.failed(invalid_prompt_message())
                },
                Err(e) => {
                    &&& message@.prompt.prompt_answer.len() == 0
                    &&& !self@.has_connection(connection_id as u32)
                    &&& e@ == no_player_message(connection_id)
                },
            },
    {
        match reject_empty_answer(message) {
            None => Ok(Submission::Accepted),
            Some(response) => {
                let id = #[verifier::truncate]
                (connection_id as u32);
                match self.find_room_of(id) {
                    Some(_) => Ok(Submission::Invalid(response)),
                    None => {
                        let mut e = String::from_str("Failed to find player with id: ");
                        let n = decimal_string(connection_id as u64);
                        e.append(n.as_str());
                        Err(e)
                    },
                }
            },
        }
    }

    /// Brings the generated prompts into their room, each with the value
    /// that stands at its place in `values`: each prompt gets its owner,
    /// and the room goes on to the phase in which the answers are written.
    pub fn prompts_generated_with(
        &mut self,
        room_id: usize,
        texts: &Vec<String>,
        values: &Vec<u32>,
    ) -> (r: Result<PromptsReady, PromptsError>)
        requires
            old(self)@.wf(),
            values.len() == texts.len(),
        ensures
            final(self)@.wf(),
            match r {
                Ok(ready) => {
                    let room = old(self)@.rooms[room_id];
                    &&& old(self)@.rooms.contains_key(room_id)
                    &&& room.game_state == GameState::PromptGenerationWaiting
                    &&& owners_present(room, texts.len() as int)
                    &&& final(self)@ == old(self)@.with_room(
                        room_id,
                        room.in_phase(GameState::ImageCreation),
                    )
                    &&& ready.number_of_hints == room.prompts_wanted()
                    &&& ready.proposals.len() == texts.len()
                    &&& ready.sources.len() == texts.len()
                    &&& forall|k: int|
                        0 <= k < texts.len() ==> (#[trigger] ready.proposals@[k])@
                            == proposed_prompt(room, k, texts@[k]@, values@[k])
                    &&& forall|k: int|
                        0 <= k < texts.len() ==> (#[trigger] ready.sources@[k])@ == hint_source(
                            room,
                            k,
                            texts@[k]@,
                            values@[k],
                        )
                },
                Err(e) => {
                    &&& final(self)@ == old(self)@
                    &&& e == if !old(self)@.rooms.contains_key(room_id) {
                        PromptsError::RoomNotFound
                    } else if old(self)@.rooms[room_id].game_state
                        != GameState::PromptGenerationWaiting {
                        PromptsError::NotWaitingForPrompts
                    } else if !owners_present(old(self)@.rooms[room_id], texts.len() as int) {
                        PromptsError::OwnerMissing
                    } else {
                        PromptsError::TooManyPlayers
                    }
                    &&& e == PromptsError::TooManyPlayers ==> old(
                        self,
                    )@.rooms[room_id].prompts_wanted() > u32::MAX
                },
            },
    {
        let number_of_hints = match self.get(&room_id) {
            None => {
                return Err(PromptsError::RoomNotFound);
            },
            Some(room) => {
                if room.game_state != GameState::PromptGenerationWaiting {
                    return Err(PromptsError::NotWaitingForPrompts);
                }
                if !can_distribute(room, texts.len()) {
                    return Err(PromptsError::OwnerMissing);
                }
                let players: u128 = room.players.len() as u128;
                let per_player: u128 = room.prompts_per_player as u128;
                assert(players * per_player <= 0xffff_ffff_ffff_ffff * 0xffff_ffff)
                    by (nonlinear_arith)
                    requires
                        0 <= players <= 0xffff_ffff_ffff_ffff,
                        0 <= per_player <= 0xffff_ffff,
                ;
                let wanted = players * per_player;
                if wanted > u32::MAX as u128 {
                    return Err(PromptsError::TooManyPlayers);
                }
                wanted as u32
            },
        };
        let mut room = match self.remove(&room_id) {
            Some(room) => room,
            None => {
                return Err(PromptsError::RoomNotFound);
            },
        };
        let (proposals, sources) = distribute_prompts_with(&room, texts, values);
        room.game_state = GameState::ImageCreation;
        proof {
            lemma_with_room_wf(old(self)@, room_id, room@);
        }
        self.insert(room_id, room);
        assert(self@.rooms =~= old(self)@.rooms.insert(
            room_id,
            old(self)@.rooms[room_id].in_phase(GameState::ImageCreation),
        ));
        Ok(PromptsReady { proposals, sources, number_of_hints })
    }

    /// Brings the generated prompts into their room, each with a value
    /// drawn at random between `MIN_ART_VALUE` and `MAX_ART_VALUE`, the
    /// latter left out.
    pub fn prompts_generated(&mut self, room_id: usize, texts: &Vec<String>) -> (r: Result<
        PromptsReady,
        PromptsError,
    >)
        requires
            old(self)@.wf(),
        ensures
            final(self)@.wf(),
            match r {
                Ok(ready) => {
                    let room = old(self)@.rooms[room_id];
                    &&& old(self)@.rooms.contains_key(room_id)
                    &&& room.game_state == GameState::PromptGenerationWaiting
                    &&& owners_present(room, texts.len() as int)
                    &&& final(self)@ == old(self)@.with_room(
                        room_id,
                        room.in_phase(GameState::ImageCreation),
                    )
                    &&& ready.number_of_hints == room.prompts_wanted()
                    &&& ready.proposals.len() == texts.len()
                    &&& ready.sources.len() == texts.len()
                    &&& forall|k: int|
                        0 <= k < texts.len() ==> {
                            let value = (#[trigger] ready.proposals@[k]).prompt.art_value;
                            &&& MIN_ART_VALUE <= value < MAX_ART_VALUE
                            &&& ready.proposals@[k]@ == proposed_prompt(room, k, texts@[k]@, value)
                            &&& ready.sources@[k]@ == hint_source(room, k, texts@[k]@, value)
                        }
                },
                Err(e) => {
                    &&& final(self)@ == old(self)@
                    &&& e == if !old(self)@.rooms.contains_key(room_id) {
                        PromptsError::RoomNotFound
                    } else if old(self)@.rooms[room_id].game_state
                        != GameState::PromptGenerationWaiting {
                        PromptsError::NotWaitingForPrompts
                    } else if !owners_present(old(self)@.rooms[room_id], texts.len() as int) {
                        PromptsError::OwnerMissing
                    } else {
                        PromptsError::TooManyPlayers
                    }
                    &&& e == PromptsError::TooManyPlayers ==> old(
                        self,
                    )@.rooms[room_id].prompts_wanted() > u32::MAX
                },
            },
    {
        let values = draw_art_values(texts.len());
        let r = self.prompts_generated_with(room_id, texts, &values);
        proof {
            if let Ok(ref ready) = r {
                let room = old(self)@.rooms[room_id];
                assert forall|k: int| 0 <= k < texts.len() implies {
                    let value = (#[trigger] ready.proposals@[k]).prompt.art_value;
                    &&& MIN_ART_VALUE <= value < MAX_ART_VALUE
                    &&& ready.proposals@[k]@ == proposed_prompt(room, k, texts@[k]@, value)
                    &&& ready.sources@[k]@ == hint_source(room, k, texts@[k]@, value)
                } by {
                    assert(ready.proposals@[k]@ == proposed_prompt(
                        room,
                        k,
                        texts@[k]@,
                        values@[k],
                    ));
                    assert(ready.sources@[k]@ == hint_source(room, k, texts@[k]@, values@[k]));
                    assert(MIN_ART_VALUE <= values@[k] < MAX_ART_VALUE);
                }
            }
        }
        r
    }

    /// Brings a prompt with its picture into its room. The room starts its
    /// first round where it is ready for it then, with the prompt that
    /// `pick` selects.
    pub fn image_generated(&mut self, request: PromptInfoDataRequest, pick: u32) -> (r: ImageStored)
        requires
            old(self)@.wf(),
        ensures
            final(self)@.wf(),
            ({
                let id = request.room_id as usize;
                let stored = old(self)@.rooms[id].with_prompt(request@.prompt);
                match r {
                    ImageStored::RoomMissing => {
                        &&& !old(self)@.rooms.contains_key(id)
                        &&& final(self)@ == old(self)@
                    },
                    ImageStored::Waiting(back) => {
                        &&& old(self)@.rooms.contains_key(id)
                        &&& !stored.starts_bidding()
                        &&& final(self)@ == old(self)@.with_room(id, stored)
                        &&& back@ == request@
                    },
                    ImageStored::RoundStarted(progress) => {
                        &&& old(self)@.rooms.contains_key(id)
                        &&& stored.starts_bidding()
                        &&& final(self)@ == old(self)@.with_room(id, stored.progress(pick as int))
                        &&& progress@ == stored.progress_effects()
                    },
                }
            }),
    {
        let id = request.room_id as usize;
        let mut room = match self.remove(&id) {
            Some(room) => room,
            None => {
                assert(self@.rooms =~= old(self)@.rooms);
                return ImageStored::RoomMissing;
            },
        };
        let ghost before = room@;
        room.remaining_prompts.push(request.prompt.clone());
        let ghost stored = room@;
        assert(stored == before.with_prompt(request@.prompt)) by {
            assert(stored.remaining_prompts =~= before.remaining_prompts.push(request@.prompt));
        }
        let progress = progress_if_ready(&mut room, pick);
        proof {
            lemma_rules_keep_identity(stored, pick as int, 0, 0);
            lemma_with_room_wf(old(self)@, id, room@);
        }
        self.insert(id, room);
        assert(self@.rooms =~= old(self)@.rooms.insert(id, stored.after_task(pick as int)));
        match progress {
            Some(progress) => ImageStored::RoundStarted(progress),
            None => ImageStored::Waiting(request),
        }
    }

    /// Hands the generated hints out to the players of a room. The room
    /// starts its first round where it is ready for it then, with the
    /// prompt that `pick` selects.
    pub fn hints_generated(
        &mut self,
        room_id: usize,
        hints: &HashMap<u32, Vec<String>>,
        pick: u32,
    ) -> (r: Result<Option<RoundProgress>, String>)
        requires
            old(self)@.wf(),
        ensures
            final(self)@.wf(),
            match r {
                Ok(progress) => {
                    let handed = old(self)@.rooms[room_id].hand_out(texts_view(hints@));
                    &&& old(self)@.rooms.contains_key(room_id)
                    &&& final(self)@ == old(self)@.with_room(room_id, handed.after_task(pick as int))
                    &&& progress_view(progress) == handed.task_progress()
                },
                Err(e) => {
                    &&& !old(self)@.rooms.contains_key(room_id)
                    &&& final(self)@ == old(self)@
                    &&& e@ == no_room_message(room_id)
                },
            },
    {
        broadcast use vstd::std_specs::hash::group_hash_axioms;

        let mut room = match self.remove(&room_id) {
            Some(room) => room,
            None => {
                assert(self@.rooms =~= old(self)@.rooms);
                return Err(make_no_room_message(room_id));
            },
        };
        let ghost before = room@;
        let ghost hv = texts_view(hints@);
        let mut i: usize = 0;
        while i < room.players.len()
            invariant
                0 <= i <= room.players.len(),
                hv == texts_view(hints@),
                room@ == (RoomView { players: room@.players, ..before }),
                room@.players.len() == before.players.len(),
                forall|j: int|
                    0 <= j < before.players.len() ==> (#[trigger] room@.players[j]).id
                        == before.players[j].id,
                forall|j: int|
                    0 <= j < i ==> (#[trigger] room@.players[j]) == with_hints(before.players, hv)[j],
                forall|j: int|
                    i <= j < before.players.len() ==> (#[trigger] room@.players[j])
                        == before.players[j],
            decreases room.players.len() - i,
        {
            let id = room.players[i].id;
            let ghost current = room@.players;
            proof {
                lemma_find_player_same_ids(current, before.players, id);
            }
            match hints.get(&id) {
                Some(texts) => {
                    if player_index(&room.players, id) == Some(i) {
                        room.players[i].hints = clone_strings(texts);
                        assert(room@.players =~= current.update(
                            i as int,
                            PlayerView { hints: hv[id], ..current[i as int] },
                        ));
                    }
                },
                None => {},
            }
            i += 1;
        }
        assert(room@.players =~= with_hints(before.players, hv));
        let ghost handed = room@;
        let progress = progress_if_ready(&mut room, pick);
        proof {
            lemma_rules_keep_identity(handed, pick as int, 0, 0);
            lemma_with_room_wf(old(self)@, room_id, room@);
        }
        self.insert(room_id, room);
        assert(self@.rooms =~= old(self)@.rooms.insert(room_id, handed.after_task(pick as int)));
        Ok(progress)
    }
}

} // verus!
