//! Prompts on their way into a room: the plan by which their texts are
//! asked for, and their distribution among the players.

use crate::messages::{
    empty_prompt, strings_view, PromptInfoData, PromptInfoDataRequest, PromptRequestView,
    PromptState, PromptView, MAX_ART_VALUE, MIN_ART_VALUE,
};
use crate::random::{choose_from, random_in_range, shuffle_texts};
use crate::room::{RoomState, RoomView};
use crate::text::{decimal, decimal_string};
use rand::rngs::StdRng;
use vstd::prelude::*;

verus! {

/// What the generation of a hint needs to know of a prompt.
#[derive(Debug)]
pub struct PromptInfoForHint {
    pub prompt: String,
    pub art_value: u32,
    pub owner_username: String,
    pub player_id: u32,
}

pub struct HintSourceView {
    pub prompt: Seq<char>,
    pub art_value: int,
    pub owner_username: Seq<char>,
    pub player_id: u32,
}

impl View for PromptInfoForHint {
    type V = HintSourceView;

    open spec fn view(&self) -> HintSourceView {
        HintSourceView {
            prompt: self.prompt@,
            art_value: self.art_value as int,
            owner_username: self.owner_username@,
            player_id: self.player_id,
        }
    }
}

/// The sentence that describes a prompt to the generator of hints.
pub open spec fn hint_request_line(source: HintSourceView) -> Seq<char> {
    source.owner_username + " has a prompt '"@ + source.prompt + "' for a value of: "@ + decimal(
        source.art_value as nat,
    )
}

pub fn make_hint_request_line(source: &PromptInfoForHint) -> (s: String)
    ensures
        s@ == hint_request_line(source@),
{
    let mut s = source.owner_username.clone();
    s.append(" has a prompt '");
    s.append(source.prompt.as_str());
    s.append("' for a value of: ");
    let n = decimal_string(source.art_value as u64);
    s.append(n.as_str());
    s
}

/// Position, among the players, of the owner of the `k`-th prompt: each
/// player in turn owns `per_player` prompts in a row.
pub open spec fn prompt_owner(k: int, per_player: int) -> int {
    if per_player <= 0 {
        k
    } else {
        k / per_player
    }
}

/// Whether each of `count` prompts finds its owner in the room.
pub open spec fn owners_present(room: RoomView, count: int) -> bool {
    forall|k: int|
        0 <= k < count ==> 0 <= #[trigger] prompt_owner(k, room.prompts_per_player)
            < room.players.len()
}

/// The `k`-th prompt as it is proposed to its owner.
pub open spec fn proposed_prompt(room: RoomView, k: int, text: Seq<char>, value: u32)
    -> PromptRequestView {
    PromptRequestView {
        prompt: PromptView {
            prompt_text: text,
            owner_id: room.players[prompt_owner(k, room.prompts_per_player)].id,
            art_value: value as int,
            ..empty_prompt()
        },
        room_id: room.room_id,
        front_end_prompt_index: None,
        error_message: Seq::empty(),
        state: PromptState::Proposed,
    }
}

/// What the generation of hints is told of the `k`-th prompt.
pub open spec fn hint_source(room: RoomView, k: int, text: Seq<char>, value: u32)
    -> HintSourceView {
    let owner = room.players[prompt_owner(k, room.prompts_per_player)];
    HintSourceView {
        prompt: text,
        art_value: value as int,
        owner_username: owner.username,
        player_id: owner.id,
    }
}

fn owner_position(k: usize, per_player: u32) -> (r: usize)
    ensures
        r == prompt_owner(k as int, per_player as int),
{
    if per_player == 0 {
        k
    } else {
        k / (per_player as usize)
    }
}

/// Whether each of `count` prompts finds its owner in the room.
pub fn can_distribute(room: &RoomState, count: usize) -> (b: bool)
    ensures
        b == owners_present(room@, count as int),
{
    if count == 0 {
        return true;
    }
    let last = owner_position(count - 1, room.prompts_per_player);
    let b = last < room.players.len();
    proof {
        let per_player = room.prompts_per_player as int;
        assert(last == prompt_owner(count - 1, per_player));
        if b {
            assert forall|k: int| 0 <= k < count implies 0 <= #[trigger] prompt_owner(
                k,
                per_player,
            ) < room@.players.len() by {
                if per_player > 0 {
                    vstd::arithmetic::div_mod::lemma_div_is_ordered(k, count - 1, per_player);
                    vstd::arithmetic::div_mod::lemma_div_pos_is_pos(k, per_player);
                }
            }
            assert(owners_present(room@, count as int));
        } else {
            let k: int = count - 1;
            assert(0 <= k < count);
            assert(!(prompt_owner(k, room@.prompts_per_player) < room@.players.len()));
        }
    }
    b
}

/// Gives each text to its owner, with the value that stands at the same
/// place in `values`: the proposal that goes to the owner, and what the
/// generation of hints is told.
pub fn distribute_prompts_with(room: &RoomState, texts: &Vec<String>, values: &Vec<u32>) -> (r: (
    Vec<PromptInfoDataRequest>,
    Vec<PromptInfoForHint>,
))
    requires
        values.len() == texts.len(),
        owners_present(room@, texts.len() as int),
    ensures
        r.0.len() == texts.len(),
        r.1.len() == texts.len(),
        forall|k: int|
            0 <= k < texts.len() ==> (#[trigger] r.0@[k])@ == proposed_prompt(
                room@,
                k,
                texts@[k]@,
                values@[k],
            ),
        forall|k: int|
            0 <= k < texts.len() ==> (#[trigger] r.1@[k])@ == hint_source(
                room@,
                k,
                texts@[k]@,
                values@[k],
            ),
{
    let mut proposals: Vec<PromptInfoDataRequest> = Vec::new();
    let mut sources: Vec<PromptInfoForHint> = Vec::new();
    let mut k: usize = 0;
    while k < texts.len()
        invariant
            0 <= k <= texts.len(),
            values.len() == texts.len(),
            owners_present(room@, texts.len() as int),
            proposals.len() == k,
            sources.len() == k,
            forall|j: int|
                0 <= j < k ==> (#[trigger] proposals@[j])@ == proposed_prompt(
                    room@,
                    j,
                    texts@[j]@,
                    values@[j],
                ),
            forall|j: int|
                0 <= j < k ==> (#[trigger] sources@[j])@ == hint_source(
                    room@,
                    j,
                    texts@[j]@,
                    values@[j],
                ),
        decreases texts.len() - k,
    {
        let position = owner_position(k, room.prompts_per_player);
        assert(0 <= prompt_owner(k as int, room@.prompts_per_player) < room@.players.len());
        let player = &room.players[position];
        let new_prompt = PromptInfoData {
            prompt_text: texts[k].clone(),
            prompt_answer: String::new(),
            image_url: String::new(),
            owner_id: player.id,
            art_value: values[k],
        };
        proposals.push(
            PromptInfoDataRequest {
                prompt: new_prompt,
                room_id: room.room_id,
                front_end_prompt_index: None,
                error_message: String::new(),
                state: PromptState::Proposed,
            },
        );
        sources.push(
            PromptInfoForHint {
                prompt: texts[k].clone(),
                art_value: values[k],
                owner_username: player.username.clone(),
                player_id: player.id,
            },
        );
        k += 1;
    }
    (proposals, sources)
}

/// Draws a value for each of `count` prompts.
pub fn draw_art_values(count: usize) -> (values: Vec<u32>)
    ensures
        values.len() == count,
        forall|k: int|
            0 <= k < count ==> MIN_ART_VALUE <= (#[trigger] values@[k]) < MAX_ART_VALUE,
{
    let mut values: Vec<u32> = Vec::new();
    while values.len() < count
        invariant
            values.len() <= count,
            forall|k: int|
                0 <= k < values.len() ==> MIN_ART_VALUE <= (#[trigger] values@[k]) < MAX_ART_VALUE,
        decreases count - values.len(),
    {
        values.push(random_in_range(MIN_ART_VALUE, MAX_ART_VALUE));
    }
    values
}

/// Gives each text to its owner with a value drawn at random between
/// `MIN_ART_VALUE` and `MAX_ART_VALUE`, the latter left out.
pub fn distribute_prompts(room: &RoomState, texts: &Vec<String>) -> (r: (
    Vec<PromptInfoDataRequest>,
    Vec<PromptInfoForHint>,
))
    requires
        owners_present(room@, texts.len() as int),
    ensures
        r.0.len() == texts.len(),
        r.1.len() == texts.len(),
        forall|k: int|
            0 <= k < texts.len() ==> {
                let value = (#[trigger] r.0@[k]).prompt.art_value;
                &&& MIN_ART_VALUE <= value < MAX_ART_VALUE
                &&& r.0@[k]@ == proposed_prompt(room@, k, texts@[k]@, value)
                &&& r.1@[k]@ == hint_source(room@, k, texts@[k]@, value)
            },
{
    let values = draw_art_values(texts.len());
    let r = distribute_prompts_with(room, texts, &values);
    assert forall|k: int| 0 <= k < texts.len() implies {
        let value = (#[trigger] r.0@[k]).prompt.art_value;
        &&& MIN_ART_VALUE <= value < MAX_ART_VALUE
        &&& r.0@[k]@ == proposed_prompt(room@, k, texts@[k]@, value)
        &&& r.1@[k]@ == hint_source(room@, k, texts@[k]@, value)
    } by {
        assert(r.0@[k]@ == proposed_prompt(room@, k, texts@[k]@, values@[k]));
        assert(r.1@[k]@ == hint_source(room@, k, texts@[k]@, values@[k]));
        assert(MIN_ART_VALUE <= values@[k] < MAX_ART_VALUE);
    }
    r
}

/// What the generation of prompt texts says when it has no text to vary.
pub open spec fn no_base_message() -> Seq<char> {
    "Failed to choose prompt"@
}

/// The texts of the prompts of one game, while they are being asked for: a
/// third of them, rounded down, each made from nothing, then the rest, each
/// a variation of one of the first.
#[derive(Debug)]
pub struct PromptTextPlan {
    pub wanted: u32,
    pub unique_prompts: Vec<String>,
    pub similar_prompts: Vec<String>,
}

pub struct PromptTextPlanView {
    pub wanted: int,
    pub unique_prompts: Seq<Seq<char>>,
    pub similar_prompts: Seq<Seq<char>>,
}

impl View for PromptTextPlan {
    type V = PromptTextPlanView;

    open spec fn view(&self) -> PromptTextPlanView {
        PromptTextPlanView {
            wanted: self.wanted as int,
            unique_prompts: strings_view(self.unique_prompts@),
            similar_prompts: strings_view(self.similar_prompts@),
        }
    }
}

/// What the plan asks for next.
#[derive(Debug)]
pub enum PromptTextStep {
    /// A text made from nothing.
    AskUnique,
    /// A variation of the text given.
    AskSimilar(String),
    /// Nothing: all texts are there.
    Finished,
    /// Nothing: a variation is due and there is no text to vary.
    Failed(String),
}

impl PromptTextPlanView {
    /// Number of texts that are made from nothing.
    pub open spec fn unique_wanted(self) -> int {
        self.wanted / 3
    }

    /// Number of texts that vary another.
    pub open spec fn similar_wanted(self) -> int {
        self.wanted - self.wanted / 3
    }

    /// A text made from nothing is due.
    pub open spec fn wants_unique(self) -> bool {
        self.unique_prompts.len() < self.unique_wanted()
    }

    /// A variation is due.
    pub open spec fn wants_similar(self) -> bool {
        !self.wants_unique() && self.similar_prompts.len() < self.similar_wanted()
    }

    /// The plan after a text has come in: it counts as one made from
    /// nothing while such are due, as a variation after that.
    pub open spec fn record(self, text: Seq<char>) -> PromptTextPlanView {
        if self.wants_unique() {
            PromptTextPlanView { unique_prompts: self.unique_prompts.push(text), ..self }
        } else {
            PromptTextPlanView { similar_prompts: self.similar_prompts.push(text), ..self }
        }
    }
}

impl PromptTextPlan {
    /// The plan for `num_prompts` texts, none of them there yet.
    pub fn new(num_prompts: u32) -> (plan: Self)
        ensures
            plan@ == (PromptTextPlanView {
                wanted: num_prompts as int,
                unique_prompts: Seq::empty(),
                similar_prompts: Seq::empty(),
            }),
    {
        let plan = PromptTextPlan {
            wanted: num_prompts,
            unique_prompts: Vec::new(),
            similar_prompts: Vec::new(),
        };
        assert(plan@.unique_prompts =~= Seq::empty());
        assert(plan@.similar_prompts =~= Seq::empty());
        plan
    }

    /// What to ask for next. The text that a variation starts from is drawn
    /// at random from the texts made from nothing.
    pub fn next_step(&self, rng: &mut StdRng) -> (step: PromptTextStep)
        ensures
            self@.wants_unique() ==> step is AskUnique,
            self@.wants_similar() && self@.unique_prompts.len() == 0 ==> (step matches PromptTextStep::Failed(
                e,
            ) && e@ == no_base_message()),
            self@.wants_similar() && self@.unique_prompts.len() > 0 ==> (step matches PromptTextStep::AskSimilar(
                base,
            ) && self@.unique_prompts.contains(base@)),
            !self@.wants_unique() && !self@.wants_similar() ==> step is Finished,
    {
        let unique_wanted = self.wanted / 3;
        let similar_wanted = self.wanted - unique_wanted;
        if self.unique_prompts.len() < unique_wanted as usize {
            PromptTextStep::AskUnique
        } else if self.similar_prompts.len() < similar_wanted as usize {
            match choose_from(&self.unique_prompts, rng) {
                Some(base) => {
                    proof {
                        let i = choose|i: int|
                            0 <= i < self.unique_prompts@.len() && self.unique_prompts@[i] == *base;
                        assert(self@.unique_prompts[i] == base@);
                    }
                    PromptTextStep::AskSimilar(base.clone())
                },
                None => PromptTextStep::Failed(String::from_str("Failed to choose prompt")),
            }
        } else {
            PromptTextStep::Finished
        }
    }

    /// Takes in the text that was asked for last.
    pub fn record(&mut self, text: String)
        ensures
            final(self)@ == old(self)@.record(text@),
    {
        let unique_wanted = self.wanted / 3;
        if self.unique_prompts.len() < unique_wanted as usize {
            self.unique_prompts.push(text);
            assert(self@.unique_prompts =~= old(self)@.unique_prompts.push(text@));
        } else {
            self.similar_prompts.push(text);
            assert(self@.similar_prompts =~= old(self)@.similar_prompts.push(text@));
        }
    }

    /// The texts of the plan, those made from nothing and the variations,
    /// shuffled.
    pub fn finish(self) -> (texts: Vec<String>)
        ensures
            strings_view(texts@).to_multiset() == (self@.unique_prompts
                + self@.similar_prompts).to_multiset(),
    {
        let mut texts = self.unique_prompts;
        let mut similar = self.similar_prompts;
        texts.append(&mut similar);
        assert(strings_view(texts@) =~= self@.unique_prompts + self@.similar_prompts);
        shuffle_texts(&mut texts);
        texts
    }
}

} // verus!
