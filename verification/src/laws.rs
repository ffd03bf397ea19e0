//! What holds of the rules of the game, whatever the room and whatever is
//! drawn: money is neither made nor lost outside the payout, a bid that
//! does not count leaves the bidding as it was, and the ranking orders the
//! players that are there.

use crate::messages::{GameEndPlayerView, PlayerView};
use crate::registry::{joinable, without_player, RegistryView};
use crate::room::{
    find_player, insert_ranked, lemma_credit_keeps_ids, lemma_find_player, ranking, ranking_entry,
    total_money, RoomView,
};
use vstd::prelude::*;

verus! {

/// What a round pays into the room: nothing without a sale, and with one
/// the value of the picture.
pub open spec fn round_payout(room: RoomView) -> int {
    if room.has_sale() {
        room.current_art_bid.prompt_info.art_value
    } else {
        0
    }
}

/// The money of a room changes with the money of one player.
pub proof fn lemma_total_money_update(players: Seq<PlayerView>, i: int, p: PlayerView)
    requires
        0 <= i < players.len(),
    ensures
        total_money(players.update(i, p)) == total_money(players) - players[i].money + p.money,
    decreases players.len(),
{
    let after = players.update(i, p);
    if i == players.len() - 1 {
        assert(after.drop_last() =~= players.drop_last());
    } else {
        lemma_total_money_update(players.drop_last(), i, p);
        assert(after.drop_last() =~= players.drop_last().update(i, p));
    }
}

/// Balance conservation: the money of all players after the payout of a
/// round is their money before it plus what the round pays, which is the
/// value of the picture. The bid only moves from the winner to the artist.
pub proof fn lemma_finalize_conserves_money(room: RoomView)
    ensures
        total_money(room.finalize().players) == total_money(room.players) + round_payout(room),
        room.finalize().players.len() == room.players.len(),
{
    if room.has_sale() {
        let w = find_player(room.players, room.leader_id());
        let gain = room.current_art_bid.prompt_info.art_value - room.current_art_bid.max_bid;
        lemma_find_player(room.players, room.leader_id());
        let paid = room.pay_winner();
        lemma_total_money_update(
            room.players,
            w,
            PlayerView { money: room.players[w].money + gain, ..room.players[w] },
        );
        lemma_credit_keeps_ids(room, w, gain, room.artist_id());
        let c = find_player(paid.players, paid.artist_id());
        lemma_find_player(paid.players, paid.artist_id());
        lemma_total_money_update(
            paid.players,
            c,
            PlayerView {
                money: paid.players[c].money + room.current_art_bid.max_bid,
                ..paid.players[c]
            },
        );
    }
}

/// A round that cannot be settled in full is not settled at all: where
/// nobody bid, or the leader or the artist has left, the payout leaves the
/// whole room as it was.
pub proof fn lemma_unsettled_round_changes_nothing(room: RoomView)
    requires
        room.current_art_bid.max_bid <= 0 || !room.has_player(room.leader_id())
            || !room.has_player(room.artist_id()),
    ensures
        room.finalize() == room,
{
}

/// Bid rejection: a bid that does not count, because its player is not in
/// the room, no bidding round is on, the bid would not exceed the leading
/// bid or the player cannot pay, leaves the whole room, and with it the
/// bidding, exactly as it was.
pub proof fn lemma_rejected_bid_changes_nothing(room: RoomView, player: u32)
    requires
        !room.has_player(player) || room.game_state != crate::messages::GameState::BiddingRound
            || room.next_bid() <= room.current_art_bid.max_bid || room.player(player).money
            < room.next_bid(),
    ensures
        room.bid(player) == room,
        room.bid(player).current_art_bid == room.current_art_bid,
{
}

/// A bid that counts raises the leading bid by the increment, which makes
/// it exceed the bid that led, and makes its player the leader, and
/// changes nothing else.
pub proof fn lemma_counted_bid(room: RoomView, player: u32)
    requires
        room.can_bid(player),
    ensures
        room.bid(player).current_art_bid.max_bid == room.current_art_bid.max_bid
            + room.current_art_bid.bid_increase_amount,
        room.bid(player).current_art_bid.max_bid > room.current_art_bid.max_bid,
        room.bid(player).current_art_bid.max_bid_player_id == player,
        room.bid(player).players == room.players,
        room.bid(player).current_art_bid.prompt_info == room.current_art_bid.prompt_info,
{
}

/// A forced bid that is attempted costs its requestor one forced bid
/// whether or not the bid of the target counts. One that is not attempted,
/// because the requestor may not force a bid or the target is not in the
/// room, costs nothing and changes nothing.
pub proof fn lemma_forced_bid_spends_quota(room: RoomView, requestor: u32, target: u32)
    ensures
        !room.can_force_on(requestor, target) ==> room.force_bid(requestor, target) == room,
        room.can_force_on(requestor, target) ==> room.force_bid(requestor, target).player(
            requestor,
        ).force_bids_left == room.player(requestor).force_bids_left - 1,
        room.can_force_on(requestor, target) && !room.spend_force(requestor).can_bid(target)
            ==> room.force_bid(requestor, target).current_art_bid == room.current_art_bid,
{
    if room.can_force(requestor) {
        lemma_find_player(room.players, requestor);
        crate::room::lemma_spend_force_keeps_ids(room, requestor, requestor);
    }
}

/// Whether a ranking falls: no line has more money than a line before it.
pub open spec fn falls(ranked: Seq<GameEndPlayerView>) -> bool {
    forall|i: int, j: int|
        0 <= i <= j < ranked.len() ==> (#[trigger] ranked[i]).money >= (#[trigger] ranked[j]).money
}

proof fn lemma_insert_ranked(ranked: Seq<GameEndPlayerView>, p: GameEndPlayerView)
    requires
        falls(ranked),
    ensures
        falls(insert_ranked(ranked, p)),
        insert_ranked(ranked, p).len() == ranked.len() + 1,
        insert_ranked(ranked, p).to_multiset() == ranked.to_multiset().insert(p),
        forall|k: int|
            0 <= k < insert_ranked(ranked, p).len() ==> #[trigger] insert_ranked(ranked, p)[k] == p
                || ranked.contains(insert_ranked(ranked, p)[k]),
    decreases ranked.len(),
{
    broadcast use vstd::seq_lib::to_multiset_build;

    let out = insert_ranked(ranked, p);
    if ranked.len() == 0 {
        assert(out =~= ranked.push(p));
        assert(out.to_multiset() =~= ranked.to_multiset().insert(p));
    } else if ranked.last().money >= p.money {
        assert(out.to_multiset() =~= ranked.to_multiset().insert(p));
        assert forall|k: int| 0 <= k < out.len() implies #[trigger] out[k] == p || ranked.contains(
            out[k],
        ) by {
            if k < ranked.len() {
                assert(ranked[k] == out[k]);
            }
        }
    } else {
        let front = ranked.drop_last();
        assert(falls(front)) by {
            assert forall|i: int, j: int| 0 <= i <= j < front.len() implies (#[trigger] front[i]).money
                >= (#[trigger] front[j]).money by {
                assert(ranked[i].money >= ranked[j].money);
            }
        }
        lemma_insert_ranked(front, p);
        let inner = insert_ranked(front, p);
        assert(out == inner.push(ranked.last()));
        assert forall|k: int| 0 <= k < out.len() implies #[trigger] out[k] == p || ranked.contains(
            out[k],
        ) by {
            if k < inner.len() {
                if inner[k] != p {
                    let x = inner[k];
                    assert(front.contains(x));
                    let n = choose|n: int| 0 <= n < front.len() && front[n] == x;
                    assert(ranked[n] == x);
                }
            } else {
                assert(ranked[ranked.len() - 1] == out[k]);
            }
        }
        assert(falls(out)) by {
            assert forall|i: int, j: int| 0 <= i <= j < out.len() implies (#[trigger] out[i]).money
                >= (#[trigger] out[j]).money by {
                if j < inner.len() {
                    assert(inner[i].money >= inner[j].money);
                } else if i < inner.len() {
                    if inner[i] != p {
                        let x = inner[i];
                        assert(front.contains(x));
                        let n = choose|n: int| 0 <= n < front.len() && front[n] == x;
                        assert(ranked[n].money >= ranked[ranked.len() - 1].money);
                    }
                }
            }
        }
        assert(ranked =~= front.push(ranked.last()));
        assert(out.to_multiset() =~= ranked.to_multiset().insert(p));
    }
}

/// The ranking has a line for each player, neither more nor fewer, and no
/// line has more money than a line before it.
pub proof fn lemma_ranking_orders_players(players: Seq<PlayerView>)
    ensures
        falls(ranking(players)),
        ranking(players).len() == players.len(),
        ranking(players).to_multiset() == players.map_values(
            |p: PlayerView| ranking_entry(p),
        ).to_multiset(),
    decreases players.len(),
{
    broadcast use vstd::seq_lib::to_multiset_build;

    let entries = players.map_values(|p: PlayerView| ranking_entry(p));
    if players.len() == 0 {
        assert(entries =~= Seq::empty());
    } else {
        let front = players.drop_last();
        lemma_ranking_orders_players(front);
        lemma_insert_ranked(ranking(front), ranking_entry(players.last()));
        let front_entries = front.map_values(|p: PlayerView| ranking_entry(p));
        assert(entries =~= front_entries.push(ranking_entry(players.last())));
    }
}

/// The registry after one room after the other has been taken in.
pub open spec fn insert_all(registry: RegistryView, rooms: Seq<RoomView>) -> RegistryView
    decreases rooms.len(),
{
    if rooms.len() == 0 {
        registry
    } else {
        insert_all(registry, rooms.drop_last()).insert_room(rooms.last())
    }
}

/// The id that the `i`-th of the rooms is given.
pub open spec fn id_given(registry: RegistryView, rooms: Seq<RoomView>, i: int) -> usize {
    insert_all(registry, rooms.take(i)).next_room_id()
}

proof fn lemma_insert_all(registry: RegistryView, rooms: Seq<RoomView>)
    requires
        registry.wf(),
        registry.id_count + rooms.len() <= u32::MAX,
    ensures
        insert_all(registry, rooms).id_count == registry.id_count + rooms.len(),
        forall|id: usize| #[trigger]
            insert_all(registry, rooms).rooms.contains_key(id) <==> registry.rooms.contains_key(id)
                || registry.id_count < id <= registry.id_count + rooms.len(),
        forall|id: usize|
            registry.rooms.contains_key(id) ==> (#[trigger] insert_all(registry, rooms).rooms[id])
                == registry.rooms[id],
        forall|id: usize|
            registry.id_count < id <= registry.id_count + rooms.len() ==> (#[trigger] insert_all(
                registry,
                rooms,
            ).rooms[id]).room_id == id,
    decreases rooms.len(),
{
    if rooms.len() > 0 {
        lemma_insert_all(registry, rooms.drop_last());
    }
}

/// Registry uniqueness: rooms that are taken in one after the other get
/// ids that differ from each other and from every id in use before, each
/// room stands under its id afterwards and carries it, and the rooms that
/// were there stay as they were.
pub proof fn lemma_room_ids_are_unique(registry: RegistryView, rooms: Seq<RoomView>)
    requires
        registry.wf(),
        registry.id_count + rooms.len() <= u32::MAX,
    ensures
        forall|i: int, j: int|
            0 <= i < j < rooms.len() ==> id_given(registry, rooms, i) != id_given(registry, rooms, j),
        forall|i: int|
            0 <= i < rooms.len() ==> !registry.rooms.contains_key(
                #[trigger] id_given(registry, rooms, i),
            ),
        forall|i: int|
            0 <= i < rooms.len() ==> insert_all(registry, rooms).rooms.contains_key(
                #[trigger] id_given(registry, rooms, i),
            ) && insert_all(registry, rooms).rooms[id_given(registry, rooms, i)].room_id
                == id_given(registry, rooms, i),
        forall|id: usize|
            registry.rooms.contains_key(id) ==> insert_all(registry, rooms).rooms.contains_key(id)
                && insert_all(registry, rooms).rooms[id] == registry.rooms[id],
{
    lemma_insert_all(registry, rooms);
    let all = insert_all(registry, rooms);
    assert forall|i: int| 0 <= i < rooms.len() implies #[trigger] id_given(registry, rooms, i)
        == registry.id_count + i + 1 by {
        lemma_insert_all(registry, rooms.take(i));
    }
    assert forall|i: int| 0 <= i < rooms.len() implies all.rooms.contains_key(
        #[trigger] id_given(registry, rooms, i),
    ) && all.rooms[id_given(registry, rooms, i)].room_id == id_given(registry, rooms, i) by {
        let id = id_given(registry, rooms, i);
        assert(registry.id_count < id <= registry.id_count + rooms.len());
        assert(all.rooms.contains_key(id));
        assert(all.rooms[id].room_id == id);
    }
}

/// One room per code: in a registry in order, a request with a code other
/// than the empty one enters the one room that has the code, or, where no
/// room has it and an id is left, opens the one room that has it
/// afterwards. Either way the joiner is the last player of that room, every
/// other room stays as it was, and the registry is in order again: no two
/// rooms share the code.
pub proof fn lemma_one_room_per_code(
    registry: RegistryView,
    id: usize,
    player: PlayerView,
    code: Seq<char>,
)
    requires
        registry.wf(),
        code.len() > 0,
        registry.has_joinable(code) || registry.id_count < u32::MAX,
        if registry.has_joinable(code) {
            registry.rooms.contains_key(id) && joinable(registry.rooms[id], code)
        } else {
            id == registry.next_room_id()
        },
    ensures
        registry.join(id, player, code).wf(),
        registry.join(id, player, code).rooms.contains_key(id),
        registry.join(id, player, code).rooms[id].room_code == code,
        forall|other: usize|
            registry.join(id, player, code).rooms.contains_key(other) && registry.join(
                id,
                player,
                code,
            ).rooms[other].room_code == code ==> other == id,
        registry.join(id, player, code).rooms.dom() == if registry.has_code(code) {
            registry.rooms.dom()
        } else {
            registry.rooms.dom().insert(id)
        },
        registry.join(id, player, code).rooms[id].players.last() == player,
        forall|other: usize|
            other != id && registry.rooms.contains_key(other) ==> registry.join(
                id,
                player,
                code,
            ).rooms[other] == registry.rooms[other],
{
    let after = registry.join(id, player, code);
    if registry.rooms.contains_key(id) {
        assert(registry.has_joinable(code));
        assert(after.rooms.dom() =~= registry.rooms.dom());
        assert(registry.has_code(code));
        assert forall|a: usize, b: usize|
            #![trigger after.rooms[a], after.rooms[b]]
            after.rooms.contains_key(a) && after.rooms.contains_key(b) && after.rooms[a].room_code
                == after.rooms[b].room_code && after.rooms[a].room_code.len() > 0 implies a
            == b by {
            let x = registry.rooms[a];
            let y = registry.rooms[b];
            assert(x.room_code == y.room_code);
        }
        assert forall|other: usize|
            after.rooms.contains_key(other) && after.rooms[other].room_code == code implies other
            == id by {
            let x = registry.rooms[other];
            let y = registry.rooms[id];
            assert(x.room_code == y.room_code);
        }
    } else {
        assert(!registry.has_joinable(code));
        assert forall|other: usize| #[trigger]
            registry.rooms.contains_key(other) implies registry.rooms[other].room_code != code by {
            assert(!joinable(registry.rooms[other], code));
        }
        assert(!registry.has_code(code));
        assert(after.rooms.dom() =~= registry.rooms.dom().insert(id));
        assert forall|a: usize, b: usize|
            #![trigger after.rooms[a], after.rooms[b]]
            after.rooms.contains_key(a) && after.rooms.contains_key(b) && after.rooms[a].room_code
                == after.rooms[b].room_code && after.rooms[a].room_code.len() > 0 implies a
            == b by {
            if a != id && b != id {
                let x = registry.rooms[a];
                let y = registry.rooms[b];
                assert(x.room_code == y.room_code);
            }
        }
    }
}

/// What is left of a room when a connection has gone: every player of
/// another connection, in the order in which they joined, and nobody else.
pub proof fn lemma_without_player_keeps_others(players: Seq<PlayerView>, id: u32)
    ensures
        forall|j: int|
            0 <= j < players.len() && (#[trigger] players[j]).id != id ==> without_player(
                players,
                id,
            ).contains(players[j]),
        forall|k: int|
            0 <= k < without_player(players, id).len() ==> (#[trigger] without_player(
                players,
                id,
            )[k]).id != id && players.contains(without_player(players, id)[k]),
    decreases players.len(),
{
    lemma_find_player(players, id);
    let i = find_player(players, id);
    let out = without_player(players, id);
    if 0 <= i < players.len() {
        let rest = players.remove(i);
        lemma_without_player_keeps_others(rest, id);
        assert forall|j: int| 0 <= j < players.len() && (#[trigger] players[j]).id
            != id implies out.contains(players[j]) by {
            if j < i {
                assert(rest[j] == players[j]);
                assert(without_player(rest, id).contains(rest[j]));
            } else {
                assert(rest[j - 1] == players[j]);
                assert(without_player(rest, id).contains(rest[j - 1]));
            }
        }
        let inner = without_player(rest, id);
        assert(out == inner);
        assert forall|k: int| 0 <= k < out.len() implies (#[trigger] out[k]).id != id
            && players.contains(out[k]) by {
            let x = inner[k];
            assert(x.id != id && rest.contains(x));
            let n = choose|n: int| 0 <= n < rest.len() && rest[n] == x;
            if n < i {
                assert(players[n] == x);
            } else {
                assert(players[n + 1] == x);
            }
        }
    } else {
        assert forall|j: int| 0 <= j < players.len() && (#[trigger] players[j]).id
            != id implies out.contains(players[j]) by {
            assert(out[j] == players[j]);
        }
        assert forall|k: int| 0 <= k < out.len() implies (#[trigger] out[k]).id != id
            && players.contains(out[k]) by {
            assert(players[k] == out[k]);
        }
    }
}

/// Disconnect cleanup: when a connection leaves its room, the room leaves
/// the registry if the connection was its last player, and else stays
/// with the players of the other connections; every other room stays as
/// it was.
pub proof fn lemma_disconnect_cleans_up(registry: RegistryView, id: usize, connection: u32)
    requires
        registry.wf(),
        registry.rooms.contains_key(id),
    ensures
        (forall|j: int|
            0 <= j < registry.rooms[id].players.len() ==> (#[trigger] registry.rooms[id].players[j]).id
                == connection) ==> !registry.leave(id, connection).rooms.contains_key(id),
        (exists|j: int|
            0 <= j < registry.rooms[id].players.len() && (#[trigger] registry.rooms[id].players[j]).id
                != connection) ==> {
            &&& registry.leave(id, connection).rooms.contains_key(id)
            &&& registry.leave(id, connection).rooms[id] == registry.rooms[id].without_connection(
                connection,
            )
            &&& !registry.leave(id, connection).rooms[id].has_player(connection)
        },
        forall|other: usize|
            other != id ==> registry.leave(id, connection).rooms.contains_key(other)
                == registry.rooms.contains_key(other) && (registry.rooms.contains_key(other)
                ==> registry.leave(id, connection).rooms[other] == registry.rooms[other]),
        registry.leave(id, connection).id_count == registry.id_count,
{
    let players = registry.rooms[id].players;
    let left = without_player(players, connection);
    lemma_without_player_keeps_others(players, connection);
    crate::registry::lemma_without_player(players, connection);
    if forall|j: int| 0 <= j < players.len() ==> (#[trigger] players[j]).id == connection {
        if left.len() > 0 {
            let x = left[0];
            assert(players.contains(x));
            let n = choose|n: int| 0 <= n < players.len() && players[n] == x;
            assert(players[n].id == connection);
        }
    }
    if exists|j: int| 0 <= j < players.len() && (#[trigger] players[j]).id != connection {
        let j = choose|j: int| 0 <= j < players.len() && (#[trigger] players[j]).id != connection;
        assert(left.contains(players[j]));
    }
}

} // verus!
