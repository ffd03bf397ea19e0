//! One room: its players, its phase and the bidding of the current round.
//!
//! `RoomView` is the mathematical room. Every rule of the game is a spec
//! function on it, and each method of `RoomState` is proved to do to the
//! room in memory what its rule does to the view.

use crate::messages::{
    clone_players, clone_prompts, empty_bid, empty_prompt, no_winner, players_view, prompts_view,
    ranking_view, unknown_artist, ArtBidInfo, ArtBidView, ConnectionId, GameAction, GameEndInfo,
    GameEndPlayerInfo, GameEndPlayerView, GamePlayerNotificationRequest, GameState,
    NetworkMessage, NotificationView, Player, PlayerView, PromptInfoData, PromptView,
    RoundEndInfo, RoundEndView, BID_INCREASE_AMOUNT,
};
use crate::random::random_u32;
use crate::text::{
    bid_message, failed_force_message, forced_bid_message, make_bid_message,
    make_failed_force_message, make_forced_bid_message,
};
use vstd::prelude::*;

verus! {

#[derive(Debug)]
pub struct RoomState {
    pub room_id: u32,
    pub players: Vec<Player>,
    pub game_state: GameState,
    pub current_art_bid: ArtBidInfo,
    pub prompts_per_player: u32,
    pub remaining_prompts: Vec<PromptInfoData>,
    pub used_prompts: Vec<PromptInfoData>,
    pub room_code: String,
    pub version_number: u8,
}

pub struct RoomView {
    pub room_id: u32,
    /// In the order in which they joined.
    pub players: Seq<PlayerView>,
    pub game_state: GameState,
    pub current_art_bid: ArtBidView,
    pub prompts_per_player: int,
    /// Finished prompts that no round has used yet.
    pub remaining_prompts: Seq<PromptView>,
    /// Prompts whose round is over.
    pub used_prompts: Seq<PromptView>,
    pub room_code: Seq<char>,
    pub version_number: u8,
}

impl View for RoomState {
    type V = RoomView;

    open spec fn view(&self) -> RoomView {
        RoomView {
            room_id: self.room_id,
            players: players_view(self.players@),
            game_state: self.game_state,
            current_art_bid: self.current_art_bid@,
            prompts_per_player: self.prompts_per_player as int,
            remaining_prompts: prompts_view(self.remaining_prompts@),
            used_prompts: prompts_view(self.used_prompts@),
            room_code: self.room_code@,
            version_number: self.version_number,
        }
    }
}

impl NetworkMessage for RoomState {
    open spec fn spec_name() -> Seq<char> {
        "RoomState"@
    }

    fn name() -> (s: &'static str) {
        "RoomState"
    }
}

impl Clone for RoomState {
    fn clone(&self) -> (r: Self)
        ensures
            r@ == self@,
    {
        RoomState {
            room_id: self.room_id,
            players: clone_players(&self.players),
            game_state: self.game_state,
            current_art_bid: self.current_art_bid.clone(),
            prompts_per_player: self.prompts_per_player,
            remaining_prompts: clone_prompts(&self.remaining_prompts),
            used_prompts: clone_prompts(&self.used_prompts),
            room_code: self.room_code.clone(),
            version_number: self.version_number,
        }
    }
}

impl Default for RoomState {
    fn default() -> (r: Self)
        ensures
            r@ == (RoomView {
                room_id: 0,
                players: Seq::empty(),
                game_state: GameState::Intro,
                current_art_bid: empty_bid(),
                prompts_per_player: 0,
                remaining_prompts: Seq::empty(),
                used_prompts: Seq::empty(),
                room_code: Seq::empty(),
                version_number: 0,
            }),
    {
        let r = RoomState {
            room_id: 0,
            players: Vec::new(),
            game_state: GameState::Intro,
            current_art_bid: ArtBidInfo::default(),
            prompts_per_player: 0,
            remaining_prompts: Vec::new(),
            used_prompts: Vec::new(),
            room_code: String::new(),
            version_number: 0,
        };
        assert(r@.players =~= Seq::empty());
        assert(r@.remaining_prompts =~= Seq::empty());
        assert(r@.used_prompts =~= Seq::empty());
        r
    }
}

/// Index of the first player with the given id, or the number of players
/// where nobody has it.
pub open spec fn find_player(players: Seq<PlayerView>, id: u32) -> int
    decreases players.len(),
{
    if players.len() == 0 {
        0
    } else if players[0].id == id {
        0
    } else {
        1 + find_player(players.drop_first(), id)
    }
}

/// What `find_player` finds: an index within bounds, at which the id stands
/// if it stands anywhere, and before which it stands nowhere.
pub proof fn lemma_find_player(players: Seq<PlayerView>, id: u32)
    ensures
        0 <= find_player(players, id) <= players.len(),
        find_player(players, id) < players.len() ==> players[find_player(players, id)].id == id,
        forall|j: int| 0 <= j < find_player(players, id) ==> (#[trigger] players[j]).id != id,
    decreases players.len(),
{
    if players.len() != 0 && players[0].id != id {
        let rest = players.drop_first();
        lemma_find_player(rest, id);
        assert forall|j: int| 0 <= j < find_player(players, id) implies (#[trigger] players[j]).id
            != id by {
            if j > 0 {
                assert(players[j] == rest[j - 1]);
            }
        }
    }
}

/// The index that `find_player` finds is the only one of its kind.
pub proof fn lemma_find_player_unique(players: Seq<PlayerView>, id: u32, i: int)
    requires
        0 <= i <= players.len(),
        i < players.len() ==> players[i].id == id,
        forall|j: int| 0 <= j < i ==> (#[trigger] players[j]).id != id,
    ensures
        find_player(players, id) == i,
{
    lemma_find_player(players, id);
}

/// Where a player stands depends on the ids alone.
pub proof fn lemma_find_player_same_ids(a: Seq<PlayerView>, b: Seq<PlayerView>, id: u32)
    requires
        a.len() == b.len(),
        forall|j: int| 0 <= j < a.len() ==> (#[trigger] a[j]).id == b[j].id,
    ensures
        find_player(a, id) == find_player(b, id),
{
    lemma_find_player(a, id);
    let f = find_player(a, id);
    assert forall|j: int| 0 <= j < f implies (#[trigger] b[j]).id != id by {
        assert(a[j].id != id);
    }
    lemma_find_player_unique(b, id, f);
}

/// Position of the first player with the given id.
pub fn player_index(players: &Vec<Player>, id: u32) -> (r: Option<usize>)
    ensures
        match r {
            Some(i) => i < players.len() && i == find_player(players_view(players@), id),
            None => find_player(players_view(players@), id) == players.len(),
        },
{
    let ghost pv = players_view(players@);
    let mut i: usize = 0;
    while i < players.len()
        invariant
            0 <= i <= players.len(),
            pv == players_view(players@),
            forall|j: int| 0 <= j < i ==> (#[trigger] pv[j]).id != id,
        decreases players.len() - i,
    {
        if players[i].id == id {
            proof {
                lemma_find_player_unique(pv, id, i as int);
            }
            return Some(i);
        }
        i += 1;
    }
    proof {
        lemma_find_player_unique(pv, id, i as int);
    }
    None
}

impl RoomView {
    /// Whether a player with this id is in the room.
    pub open spec fn has_player(self, id: u32) -> bool {
        find_player(self.players, id) < self.players.len()
    }

    /// The first player with this id.
    pub open spec fn player(self, id: u32) -> PlayerView {
        self.players[find_player(self.players, id)]
    }

    /// The amount that the next bid sets.
    pub open spec fn next_bid(self) -> int {
        self.current_art_bid.max_bid + self.current_art_bid.bid_increase_amount
    }

    /// A bid counts when its player is in the room, a bidding round is on,
    /// the amount that the bid sets exceeds the leading bid, and the player
    /// can pay that amount.
    pub open spec fn can_bid(self, id: u32) -> bool {
        &&& self.has_player(id)
        &&& self.game_state == GameState::BiddingRound
        &&& self.next_bid() > self.current_art_bid.max_bid
        &&& self.player(id).money >= self.next_bid()
    }

    /// The room after a bid of this player: the bid leads at the raised
    /// amount where it counts, and nothing changes where it does not.
    pub open spec fn bid(self, id: u32) -> RoomView {
        if self.can_bid(id) {
            RoomView {
                current_art_bid: ArtBidView {
                    max_bid: self.next_bid(),
                    max_bid_player_id: id,
                    ..self.current_art_bid
                },
                ..self
            }
        } else {
            self
        }
    }

    /// A player may force a bid when in the room, during a bidding round,
    /// with quota left.
    pub open spec fn can_force(self, requestor: u32) -> bool {
        &&& self.has_player(requestor)
        &&& self.game_state == GameState::BiddingRound
        &&& self.player(requestor).force_bids_left > 0
    }

    /// A forced bid is attempted when its requestor may force a bid and its
    /// target is in the room.
    pub open spec fn can_force_on(self, requestor: u32, target: u32) -> bool {
        self.can_force(requestor) && self.has_player(target)
    }

    /// The room after the requestor has paid one forced bid from the quota.
    pub open spec fn spend_force(self, requestor: u32) -> RoomView {
        let i = find_player(self.players, requestor);
        RoomView {
            players: self.players.update(
                i,
                PlayerView { force_bids_left: self.players[i].force_bids_left - 1, ..self.players[i] },
            ),
            ..self
        }
    }

    /// The room after a forced bid. One that is attempted spends the quota
    /// whether or not the target's bid then counts; one that is not changes
    /// nothing.
    pub open spec fn force_bid(self, requestor: u32, target: u32) -> RoomView {
        if self.can_force_on(requestor, target) {
            self.spend_force(requestor).bid(target)
        } else {
            self
        }
    }

    /// What the players are told about a forced bid.
    pub open spec fn force_bid_notice(self, requestor: u32, target: u32) -> NotificationView {
        let spent = self.spend_force(requestor);
        NotificationView {
            target_player_id: target,
            message: if spent.can_bid(target) {
                forced_bid_message(self.player(target).username, spent.next_bid() as nat)
            } else {
                failed_force_message(self.player(requestor).username, self.player(target).username)
            },
            action: GameAction::Bid,
        }
    }
}


/// Whether an amount of money can be stored.
pub open spec fn fits_i32(x: int) -> bool {
    i32::MIN <= x <= i32::MAX
}

/// The line of the ranking that a player gets.
pub open spec fn ranking_entry(p: PlayerView) -> GameEndPlayerView {
    GameEndPlayerView { username: p.username, money: p.money }
}

/// A ranking with one more line: behind every line with at least as much
/// money, before every line with less.
pub open spec fn insert_ranked(ranked: Seq<GameEndPlayerView>, p: GameEndPlayerView) -> Seq<
    GameEndPlayerView,
>
    decreases ranked.len(),
{
    if ranked.len() == 0 {
        seq![p]
    } else if ranked.last().money >= p.money {
        ranked.push(p)
    } else {
        insert_ranked(ranked.drop_last(), p).push(ranked.last())
    }
}

/// The final ranking: the players by falling money, those with equal money
/// in the order in which they joined.
pub open spec fn ranking(players: Seq<PlayerView>) -> Seq<GameEndPlayerView>
    decreases players.len(),
{
    if players.len() == 0 {
        Seq::empty()
    } else {
        insert_ranked(ranking(players.drop_last()), ranking_entry(players.last()))
    }
}

/// All the money in the room.
pub open spec fn total_money(players: Seq<PlayerView>) -> int
    decreases players.len(),
{
    if players.len() == 0 {
        0
    } else {
        total_money(players.drop_last()) + players.last().money
    }
}

impl RoomView {
    /// The room with `amount` added to the money of the player at `i`.
    pub open spec fn credit(self, i: int, amount: int) -> RoomView {
        RoomView {
            players: self.players.update(
                i,
                PlayerView { money: self.players[i].money + amount, ..self.players[i] },
            ),
            ..self
        }
    }

    /// Id of the author of the prompt that the round is about.
    pub open spec fn artist_id(self) -> u32 {
        self.current_art_bid.prompt_info.owner_id
    }

    /// Id of the player whose bid leads.
    pub open spec fn leader_id(self) -> u32 {
        self.current_art_bid.max_bid_player_id
    }

    /// A round ends in a sale when somebody bid and both the leader and
    /// the artist are still in the room.
    pub open spec fn has_sale(self) -> bool {
        &&& self.current_art_bid.max_bid > 0
        &&& self.has_player(self.leader_id())
        &&& self.has_player(self.artist_id())
    }

    /// The room after the leader has paid the bid and received the value of
    /// the picture.
    pub open spec fn pay_winner(self) -> RoomView {
        self.credit(
            find_player(self.players, self.leader_id()),
            self.current_art_bid.prompt_info.art_value - self.current_art_bid.max_bid,
        )
    }

    /// The room after the artist has received the bid.
    pub open spec fn pay_artist(self) -> RoomView {
        self.credit(find_player(self.players, self.artist_id()), self.current_art_bid.max_bid)
    }

    /// The room after the round's payout. Without a sale nobody is paid and
    /// the room stays as it is. With one, the leader gains the picture's
    /// value less the bid, and the artist gains the bid.
    pub open spec fn finalize(self) -> RoomView {
        if self.has_sale() {
            self.pay_winner().pay_artist()
        } else {
            self
        }
    }

    /// Whether every balance that the payout writes can be stored.
    pub open spec fn payout_fits(self) -> bool {
        self.has_sale() ==> {
            &&& fits_i32(self.pay_winner().player(self.leader_id()).money)
            &&& fits_i32(self.pay_winner().pay_artist().player(self.artist_id()).money)
        }
    }

    /// The summary of the round. There is none where somebody bid and the
    /// leader or the artist has left the room: such a round is not settled.
    pub open spec fn round_summary(self) -> Option<RoundEndView> {
        let bid = self.current_art_bid;
        if bid.max_bid > 0 {
            if self.has_player(self.leader_id()) && self.has_player(self.artist_id()) {
                Some(
                    RoundEndView {
                        artist_name: self.player(self.artist_id()).username,
                        bid_winner_name: self.player(self.leader_id()).username,
                        winning_bid_amount: bid.max_bid,
                        art_value: bid.prompt_info.art_value,
                    },
                )
            } else {
                None
            }
        } else {
            Some(
                RoundEndView {
                    artist_name: if self.has_player(self.artist_id()) {
                        self.player(self.artist_id()).username
                    } else {
                        unknown_artist()
                    },
                    bid_winner_name: no_winner(),
                    winning_bid_amount: bid.max_bid,
                    art_value: bid.prompt_info.art_value,
                },
            )
        }
    }

    /// The room after the prompt of the round has moved to the used ones.
    pub open spec fn retire_prompt(self) -> RoomView {
        RoomView {
            used_prompts: self.used_prompts.push(self.current_art_bid.prompt_info),
            current_art_bid: ArtBidView { prompt_info: empty_prompt(), ..self.current_art_bid },
            ..self
        }
    }

    /// The room set up for its next round. The prompt of the last round is
    /// retired. Where prompts remain, the one at `pick` modulo their number
    /// leaves them and becomes the subject of a fresh bidding.
    pub open spec fn setup_next_round(self, pick: int) -> RoomView {
        let retired = self.retire_prompt();
        if self.remaining_prompts.len() == 0 {
            retired
        } else {
            let i = pick % (self.remaining_prompts.len() as int);
            RoomView {
                current_art_bid: ArtBidView {
                    prompt_info: self.remaining_prompts[i],
                    max_bid: 0,
                    max_bid_player_id: 0,
                    bid_increase_amount: BID_INCREASE_AMOUNT as int,
                },
                remaining_prompts: self.remaining_prompts.remove(i),
                ..retired
            }
        }
    }

    /// The room without the first player that has this id.
    pub open spec fn remove_player(self, id: u32) -> RoomView {
        if self.has_player(id) {
            RoomView { players: self.players.remove(find_player(self.players, id)), ..self }
        } else {
            self
        }
    }

    /// A room is ready for bidding when it has players, every prompt of
    /// every player has come back, and each player holds as many hints as
    /// a player has prompts.
    pub open spec fn is_prepped(self) -> bool {
        &&& self.players.len() > 0
        &&& self.remaining_prompts.len() == self.players.len() * self.prompts_per_player
        &&& forall|i: int|
            0 <= i < self.players.len() ==> (#[trigger] self.players[i]).hints.len()
                == self.prompts_per_player
    }
}

/// Where a new line stands in a ranking: at `pos`, when every line from
/// there on has less money and the line before has at least as much.
pub proof fn lemma_insert_ranked_at(ranked: Seq<GameEndPlayerView>, p: GameEndPlayerView, pos: int)
    requires
        0 <= pos <= ranked.len(),
        forall|k: int| pos <= k < ranked.len() ==> (#[trigger] ranked[k]).money < p.money,
        pos > 0 ==> ranked[pos - 1].money >= p.money,
    ensures
        insert_ranked(ranked, p) == ranked.insert(pos, p),
    decreases ranked.len(),
{
    if ranked.len() == 0 {
        assert(ranked.insert(pos, p) =~= seq![p]);
    } else if pos == ranked.len() {
        assert(ranked.insert(pos, p) =~= ranked.push(p));
    } else {
        assert(ranked[ranked.len() - 1].money < p.money);
        let front = ranked.drop_last();
        assert forall|k: int| pos <= k < front.len() implies (#[trigger] front[k]).money
            < p.money by {
            assert(front[k] == ranked[k]);
        }
        lemma_insert_ranked_at(front, p, pos);
        assert(ranked.insert(pos, p) =~= front.insert(pos, p).push(ranked.last()));
    }
}

impl RoomState {
    /// A copy of the room, as it is sent to its players.
    pub fn additional_clone(&self) -> (r: Self)
        ensures
            r@ == self@,
    {
        self.clone()
    }

    /// Raises the leading bid by the room's increment in the name of
    /// `player_id`. A bid that does not count changes nothing and yields
    /// `None`; one that counts yields the line that announces it.
    pub fn player_bid(&mut self, player_id: u32) -> (r: Option<GamePlayerNotificationRequest>)
        ensures
            final(self)@ == old(self)@.bid(player_id),
            r is Some <==> old(self)@.can_bid(player_id),
            r matches Some(n) ==> n@ == (NotificationView {
                target_player_id: player_id,
                message: bid_message(
                    old(self)@.player(player_id).username,
                    old(self)@.next_bid() as nat,
                ),
                action: GameAction::Bid,
            }),
    {
        let i = match player_index(&self.players, player_id) {
            Some(i) => i,
            None => {
                return None;
            },
        };
        if self.game_state != GameState::BiddingRound {
            return None;
        }
        if self.current_art_bid.bid_increase_amount == 0 {
            return None;
        }
        let new_bid_amount: u64 = self.current_art_bid.max_bid as u64
            + self.current_art_bid.bid_increase_amount as u64;
        if (self.players[i].money as i64) < new_bid_amount as i64 {
            return None;
        }
        self.current_art_bid.max_bid_player_id = player_id;
        self.current_art_bid.max_bid = new_bid_amount as u32;
        let message = make_bid_message(&self.players[i].username, self.current_art_bid.max_bid);
        Some(GamePlayerNotificationRequest { target_player_id: player_id, message, action: GameAction::Bid })
    }

    /// Makes `target_id` bid at the cost of one forced bid from the quota of
    /// `requestor_id`. Yields `None`, with nothing changed, where the
    /// requestor may not force a bid or the target is not in the room; else
    /// the quota is spent and the line says whether the target's bid
    /// counted.
    pub fn player_force_bid(&mut self, requestor_id: u32, target_id: u32) -> (r: Option<
        GamePlayerNotificationRequest,
    >)
        ensures
            final(self)@ == old(self)@.force_bid(requestor_id, target_id),
            r is Some <==> old(self)@.can_force_on(requestor_id, target_id),
            r matches Some(n) ==> n@ == old(self)@.force_bid_notice(requestor_id, target_id),
    {
        let i = match player_index(&self.players, requestor_id) {
            Some(i) => i,
            None => {
                return None;
            },
        };
        if self.game_state != GameState::BiddingRound {
            return None;
        }
        if self.players[i].force_bids_left == 0 {
            return None;
        }
        let t = match player_index(&self.players, target_id) {
            Some(t) => t,
            None => {
                return None;
            },
        };
        self.players[i].force_bids_left -= 1;
        assert(self@ == old(self)@.spend_force(requestor_id)) by {
            assert(self@.players =~= old(self)@.spend_force(requestor_id).players);
        }
        proof {
            lemma_spend_force_keeps_ids(old(self)@, requestor_id, target_id);
        }
        let requestor_username = self.players[i].username.clone();
        let target_username = self.players[t].username.clone();
        match self.player_bid(target_id) {
            Some(_) => {
                let message = make_forced_bid_message(&target_username, self.current_art_bid.max_bid);
                Some(
                    GamePlayerNotificationRequest {
                        target_player_id: target_id,
                        message,
                        action: GameAction::Bid,
                    },
                )
            },
            None => {
                let message = make_failed_force_message(&requestor_username, &target_username);
                Some(
                    GamePlayerNotificationRequest {
                        target_player_id: target_id,
                        message,
                        action: GameAction::Bid,
                    },
                )
            },
        }
    }

    /// Whether every balance that `finalize_round` would write can be
    /// stored.
    pub fn payout_fits(&self) -> (b: bool)
        ensures
            b == self@.payout_fits(),
    {
        if self.current_art_bid.max_bid == 0 {
            return true;
        }
        let w = match player_index(&self.players, self.current_art_bid.max_bid_player_id) {
            Some(w) => w,
            None => {
                return true;
            },
        };
        let c = match player_index(&self.players, self.current_art_bid.prompt_info.owner_id) {
            Some(c) => c,
            None => {
                return true;
            },
        };
        let bid: i64 = self.current_art_bid.max_bid as i64;
        let value: i64 = self.current_art_bid.prompt_info.art_value as i64;
        let winner_money: i64 = self.players[w].money as i64 + value - bid;
        proof {
            lemma_credit_keeps_ids(self@, w as int, value - bid, self@.leader_id());
            lemma_credit_keeps_ids(self@, w as int, value - bid, self@.artist_id());
            lemma_credit_keeps_ids(self@.pay_winner(), c as int, bid as int, self@.artist_id());
        }
        if winner_money < i32::MIN as i64 || winner_money > i32::MAX as i64 {
            return false;
        }
        let before: i64 = if c == w {
            winner_money
        } else {
            self.players[c].money as i64
        };
        before + bid <= i32::MAX as i64
    }

    /// Settles the round: pays out as `RoomView::finalize` says and yields
    /// the summary of the round, if it has one. A round that somebody bid
    /// in and whose leader or artist has left is not settled: nobody is
    /// paid, and there is no summary.
    pub fn finalize_round(&mut self) -> (r: Option<RoundEndInfo>)
        requires
            old(self)@.payout_fits(),
        ensures
            final(self)@ == old(self)@.finalize(),
            match r {
                Some(info) => old(self)@.round_summary() == Some(info@),
                None => old(self)@.round_summary() is None,
            },
    {
        let mut round_end_info = RoundEndInfo::default();
        let artist = player_index(&self.players, self.current_art_bid.prompt_info.owner_id);
        if let Some(a) = artist {
            round_end_info.artist_name = self.players[a].username.clone();
        }
        round_end_info.art_value = self.current_art_bid.prompt_info.art_value;
        round_end_info.winning_bid_amount = self.current_art_bid.max_bid;
        if self.current_art_bid.max_bid > 0 {
            let bid: i64 = self.current_art_bid.max_bid as i64;
            let value: i64 = self.current_art_bid.prompt_info.art_value as i64;
            let w = match player_index(&self.players, self.current_art_bid.max_bid_player_id) {
                Some(w) => w,
                None => {
                    return None;
                },
            };
            let c = match artist {
                Some(c) => c,
                None => {
                    return None;
                },
            };
            proof {
                lemma_credit_keeps_ids(self@, w as int, value - bid, self@.leader_id());
                lemma_credit_keeps_ids(self@, w as int, value - bid, self@.artist_id());
            }
            let paid: i64 = self.players[w].money as i64 + value - bid;
            self.players[w].money = paid as i32;
            round_end_info.bid_winner_name = self.players[w].username.clone();
            assert(self@ == old(self)@.pay_winner()) by {
                assert(self@.players =~= old(self)@.pay_winner().players);
            }
            proof {
                lemma_credit_keeps_ids(self@, c as int, bid as int, self@.artist_id());
            }
            let paid: i64 = self.players[c].money as i64 + bid;
            self.players[c].money = paid as i32;
            assert(self@ == old(self)@.pay_winner().pay_artist()) by {
                assert(self@.players =~= old(self)@.pay_winner().pay_artist().players);
            }
        }
        Some(round_end_info)
    }

    /// Sets the room up for its next round with the prompt that `pick`
    /// selects, as `RoomView::setup_next_round` says.
    pub fn setup_next_round_with(&mut self, pick: u32)
        ensures
            final(self)@ == old(self)@.setup_next_round(pick as int),
    {
        let mut finished = PromptInfoData::default();
        std::mem::swap(&mut self.current_art_bid.prompt_info, &mut finished);
        self.used_prompts.push(finished);
        assert(self@ == old(self)@.retire_prompt()) by {
            assert(self@.used_prompts =~= old(self)@.retire_prompt().used_prompts);
        }
        if !self.remaining_prompts.is_empty() {
            self.current_art_bid = ArtBidInfo::default();
            self.current_art_bid.bid_increase_amount = BID_INCREASE_AMOUNT;
            let i = pick as usize % self.remaining_prompts.len();
            let next = self.remaining_prompts.remove(i);
            self.current_art_bid.prompt_info = next;
            assert(self@ == old(self)@.setup_next_round(pick as int)) by {
                assert(self@.remaining_prompts =~= old(self)@.remaining_prompts.remove(i as int));
            }
        }
    }

    /// Sets the room up for its next round with a prompt drawn at random
    /// from those that remain.
    pub fn setup_next_round(&mut self)
        ensures
            exists|pick: int| final(self)@ == old(self)@.setup_next_round(pick),
    {
        let pick = random_u32();
        self.setup_next_round_with(pick);
        assert(self@ == old(self)@.setup_next_round(pick as int));
    }

    /// Takes the first player with this connection out of the room; a room
    /// without such a player stays as it is.
    pub fn disconnect_player(&mut self, player_id: ConnectionId)
        ensures
            final(self)@ == old(self)@.remove_player(player_id.id),
    {
        match player_index(&self.players, player_id.id) {
            Some(index) => {
                self.players.remove(index);
                assert(self@.players =~= old(self)@.players.remove(index as int));
            },
            None => {},
        }
    }

    /// The final ranking of the room.
    pub fn get_game_end_info(&self) -> (r: Option<GameEndInfo>)
        ensures
            r matches Some(info) && info@ == ranking(self@.players),
    {
        let mut ranked: Vec<GameEndPlayerInfo> = Vec::new();
        let ghost pv = self@.players;
        assert(ranking_view(ranked@) =~= ranking(pv.take(0)));
        let mut i: usize = 0;
        while i < self.players.len()
            invariant
                0 <= i <= self.players.len(),
                pv == players_view(self.players@),
                ranking_view(ranked@) == ranking(pv.take(i as int)),
            decreases self.players.len() - i,
        {
            let entry = GameEndPlayerInfo {
                username: self.players[i].username.clone(),
                money: self.players[i].money,
            };
            let ghost before = ranking_view(ranked@);
            let mut pos: usize = ranked.len();
            while pos > 0 && ranked[pos - 1].money < entry.money
                invariant
                    0 <= pos <= ranked.len(),
                    before == ranking_view(ranked@),
                    forall|k: int|
                        pos <= k < before.len() ==> (#[trigger] before[k]).money < entry@.money,
                decreases pos,
            {
                pos -= 1;
            }
            proof {
                lemma_insert_ranked_at(before, entry@, pos as int);
                assert(pv.take(i as int + 1).drop_last() =~= pv.take(i as int));
                assert(pv.take(i as int + 1).last() == pv[i as int]);
                assert(entry@ == ranking_entry(pv[i as int]));
            }
            ranked.insert(pos, entry);
            assert(ranking_view(ranked@) =~= before.insert(pos as int, entry@));
            i += 1;
        }
        assert(pv.take(i as int) =~= pv);
        Some(GameEndInfo { players: ranked })
    }

    /// Number of finished prompts that wait for their round, as a `u32`.
    pub fn get_completed_prompt_count(&self) -> (n: u32)
        ensures
            n == self@.remaining_prompts.len() % 0x1_0000_0000,
    {
        let len: u64 = self.remaining_prompts.len() as u64;
        let n: u32 = #[verifier::truncate]
        (len as u32);
        assert(n as u64 == len % 0x1_0000_0000u64) by (bit_vector)
            requires
                n == len as u32,
        ;
        n
    }
}

/// Spending a forced bid moves nobody and renames nobody.
pub proof fn lemma_spend_force_keeps_ids(room: RoomView, requestor: u32, id: u32)
    requires
        room.has_player(requestor),
    ensures
        find_player(room.spend_force(requestor).players, id) == find_player(room.players, id),
        room.spend_force(requestor).players.len() == room.players.len(),
        room.has_player(id) ==> room.spend_force(requestor).player(id).username == room.player(
            id,
        ).username,
{
    let after = room.spend_force(requestor).players;
    lemma_find_player(room.players, id);
    lemma_find_player(room.players, requestor);
    let f = find_player(room.players, id);
    assert forall|j: int| 0 <= j < f implies (#[trigger] after[j]).id != id by {
        assert(room.players[j].id != id);
    }
    lemma_find_player_unique(after, id, f);
}

/// Crediting a player moves nobody and renames nobody.
pub proof fn lemma_credit_keeps_ids(room: RoomView, i: int, amount: int, id: u32)
    requires
        0 <= i < room.players.len(),
    ensures
        find_player(room.credit(i, amount).players, id) == find_player(room.players, id),
        room.credit(i, amount).players.len() == room.players.len(),
        room.credit(i, amount).has_player(id) == room.has_player(id),
        room.has_player(id) ==> room.credit(i, amount).player(id).username == room.player(
            id,
        ).username,
{
    let after = room.credit(i, amount).players;
    lemma_find_player(room.players, id);
    let f = find_player(room.players, id);
    assert forall|j: int| 0 <= j < f implies (#[trigger] after[j]).id != id by {
        assert(room.players[j].id != id);
    }
    lemma_find_player_unique(after, id, f);
}

/// Whether the room is ready for its first bidding round.
pub fn check_if_room_is_prepped(room_state: &RoomState) -> (b: bool)
    ensures
        b == room_state@.is_prepped(),
{
    if room_state.players.len() == 0 {
        return false;
    }
    let players: u128 = room_state.players.len() as u128;
    let per_player: u128 = room_state.prompts_per_player as u128;
    assert(players * per_player <= 0xffff_ffff_ffff_ffff * 0xffff_ffff) by (nonlinear_arith)
        requires
            0 <= players <= 0xffff_ffff_ffff_ffff,
            0 <= per_player <= 0xffff_ffff,
    ;
    if room_state.remaining_prompts.len() as u128 != players * per_player {
        return false;
    }
    let ghost pv = room_state@.players;
    let mut i: usize = 0;
    while i < room_state.players.len()
        invariant
            0 <= i <= room_state.players.len(),
            pv == players_view(room_state.players@),
            forall|j: int|
                0 <= j < i ==> (#[trigger] pv[j]).hints.len() == room_state.prompts_per_player,
        decreases room_state.players.len() - i,
    {
        if room_state.players[i].hints.len() != room_state.prompts_per_player as usize {
            assert(pv[i as int].hints.len() != room_state.prompts_per_player);
            return false;
        }
        i += 1;
    }
    true
}

} // verus!
