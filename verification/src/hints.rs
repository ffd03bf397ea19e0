//! Handing the generated hints out to the players of a room, so that nobody
//! holds a hint about a prompt of their own.

use crate::messages::strings_view;
use crate::random::choose_from;
use rand::rngs::StdRng;
use std::collections::HashMap;
use vstd::prelude::*;
use vstd::std_specs::iter::IteratorSpec;

verus! {

/// What `assign_hints` says when a hint can go to nobody.
pub open spec fn no_players_message() -> Seq<char> {
    "No valid players available for hint assignment"@
}

/// A hint: its text and the id of the player whose prompt it is about.
pub open spec fn hint_view(h: (String, u32)) -> (Seq<char>, u32) {
    (h.0@, h.1)
}

/// The views of a list of hints.
pub open spec fn hints_view(v: Seq<(String, u32)>) -> Seq<(Seq<char>, u32)> {
    v.map_values(|h: (String, u32)| hint_view(h))
}

/// The board: for each player that holds hints, the hints in the order in
/// which they came.
pub open spec fn board_view(m: Map<u32, Vec<(String, u32)>>) -> Map<u32, Seq<(Seq<char>, u32)>> {
    Map::new(|k: u32| m.contains_key(k), |k: u32| hints_view(m[k]@))
}

/// The hints that a player holds on a board: none for a player that the
/// board does not know.
pub open spec fn held(board: Map<u32, Seq<(Seq<char>, u32)>>, player: u32) -> Seq<
    (Seq<char>, u32),
> {
    if board.contains_key(player) {
        board[player]
    } else {
        Seq::empty()
    }
}

/// Nobody holds a hint about a prompt of their own.
pub open spec fn no_own_hints(board: Map<u32, Seq<(Seq<char>, u32)>>) -> bool {
    forall|p: u32, i: int|
        board.contains_key(p) && 0 <= i < board[p].len() ==> (#[trigger] board[p][i]).1 != p
}

/// The hint is somewhere on the board.
pub open spec fn on_board(board: Map<u32, Seq<(Seq<char>, u32)>>, h: (Seq<char>, u32)) -> bool {
    exists|p: u32, i: int| board.contains_key(p) && 0 <= i < board[p].len() && board[p][i] == h
}

/// Every hint on the board is one of the given hints.
pub open spec fn only_hints_of(
    board: Map<u32, Seq<(Seq<char>, u32)>>,
    given: Seq<(Seq<char>, u32)>,
) -> bool {
    forall|p: u32, i: int|
        board.contains_key(p) && 0 <= i < board[p].len() ==> given.contains(#[trigger] board[p][i])
}

/// A donor for a hint of `writer`: another player, holding at `i` the first
/// of their hints that is not about a prompt of `writer`.
pub open spec fn is_donor(
    board: Map<u32, Seq<(Seq<char>, u32)>>,
    writer: u32,
    donor: u32,
    i: int,
) -> bool {
    &&& board.contains_key(donor)
    &&& donor != writer
    &&& 0 <= i < board[donor].len()
    &&& board[donor][i].1 != writer
    &&& forall|j: int| 0 <= j < i ==> (#[trigger] board[donor][j]).1 == writer
}

/// The player is no donor for a hint of `writer`.
pub open spec fn not_a_donor(board: Map<u32, Seq<(Seq<char>, u32)>>, writer: u32, player: u32) -> bool {
    forall|i: int| !is_donor(board, writer, player, i)
}

/// The ids without `id`, in their order.
pub open spec fn without_id(ids: Seq<u32>, id: u32) -> Seq<u32> {
    ids.filter(|x: u32| x != id)
}

proof fn lemma_without_id_push(ids: Seq<u32>, x: u32, id: u32)
    ensures
        without_id(ids.push(x), id) == if x != id {
            without_id(ids, id).push(x)
        } else {
            without_id(ids, id)
        },
{
    reveal(Seq::filter);
    assert(ids.push(x).drop_last() =~= ids);
}

/// What is left of a list of ids: nothing but ids of the list, and never
/// the one taken out.
pub proof fn lemma_without_id(ids: Seq<u32>, id: u32)
    ensures
        forall|i: int|
            0 <= i < without_id(ids, id).len() ==> (#[trigger] without_id(ids, id)[i]) != id
                && ids.contains(without_id(ids, id)[i]),
    decreases ids.len(),
{
    reveal(Seq::filter);
    if ids.len() > 0 {
        let front = ids.drop_last();
        lemma_without_id(front, id);
        assert forall|i: int| 0 <= i < without_id(ids, id).len() implies (#[trigger] without_id(
            ids,
            id,
        )[i]) != id && ids.contains(without_id(ids, id)[i]) by {
            if i < without_id(front, id).len() {
                let x = without_id(front, id)[i];
                assert(front.contains(x));
                let k = choose|k: int| 0 <= k < front.len() && front[k] == x;
                assert(ids[k] == x);
            } else {
                assert(ids[ids.len() - 1] == ids.last());
            }
        }
    }
}

/// The ids of `ids` that differ from `id`, in their order.
pub fn ids_without(ids: &Vec<u32>, id: u32) -> (r: Vec<u32>)
    ensures
        r@ == without_id(ids@, id),
{
    let mut r: Vec<u32> = Vec::new();
    let mut i: usize = 0;
    assert(ids@.take(0) =~= Seq::empty());
    assert(without_id(Seq::empty(), id) =~= Seq::empty()) by {
        reveal(Seq::filter);
    }
    while i < ids.len()
        invariant
            0 <= i <= ids.len(),
            r@ == without_id(ids@.take(i as int), id),
        decreases ids.len() - i,
    {
        proof {
            lemma_without_id_push(ids@.take(i as int), ids@[i as int], id);
            assert(ids@.take(i as int + 1) =~= ids@.take(i as int).push(ids@[i as int]));
        }
        if ids[i] != id {
            r.push(ids[i]);
        }
        i += 1;
    }
    assert(ids@.take(i as int) =~= ids@);
    r
}

/// Position of the first hint in the list that is not about a prompt of
/// `writer`.
fn first_foreign_hint(list: &Vec<(String, u32)>, writer: u32) -> (r: Option<usize>)
    ensures
        match r {
            Some(i) => i < list.len() && list@[i as int].1 != writer && forall|j: int|
                0 <= j < i ==> (#[trigger] list@[j]).1 == writer,
            None => forall|j: int| 0 <= j < list.len() ==> (#[trigger] list@[j]).1 == writer,
        },
{
    let mut i: usize = 0;
    while i < list.len()
        invariant
            0 <= i <= list.len(),
            forall|j: int| 0 <= j < i ==> (#[trigger] list@[j]).1 == writer,
        decreases list.len() - i,
    {
        if list[i].1 != writer {
            return Some(i);
        }
        i += 1;
    }
    None
}

/// Looks for a donor for a hint of `writer`. The board is walked in the
/// order of the hash map, so which of several donors is found is open.
pub fn find_donor(lists: &HashMap<u32, Vec<(String, u32)>>, writer: u32) -> (r: Option<
    (u32, usize),
>)
    ensures
        match r {
            Some((donor, i)) => is_donor(board_view(lists@), writer, donor, i as int),
            None => forall|donor: u32, i: int| !is_donor(board_view(lists@), writer, donor, i),
        },
{
    broadcast use vstd::std_specs::hash::group_hash_axioms;

    let ghost board = board_view(lists@);
    for entry in it: lists.iter()
        invariant
            board == board_view(lists@),
            forall|n: int|
                0 <= n < it.index() ==> not_a_donor(board, writer, *(#[trigger] it.seq()[n]).0),
    {
        let (player, list) = entry;
        if *player != writer {
            match first_foreign_hint(list, writer) {
                Some(i) => {
                    assert(is_donor(board, writer, *player, i as int)) by {
                        assert forall|j: int| 0 <= j < i implies (#[trigger] board[*player][j]).1
                            == writer by {
                            assert(list@[j].1 == writer);
                        }
                    }
                    return Some((*player, i));
                },
                None => {
                    assert(not_a_donor(board, writer, *player)) by {
                        assert forall|i: int| !is_donor(board, writer, *player, i) by {
                            if 0 <= i < list@.len() {
                                assert(list@[i].1 == writer);
                            }
                        }
                    }
                },
            }
        }
    }
    assert forall|donor: u32, i: int| !is_donor(board, writer, donor, i) by {
        if lists@.contains_key(donor) {
            let seq = lists.iter().remaining();
            assert(seq.contains((&donor, &lists@[donor])));
            let n = choose|n: int| 0 <= n < seq.len() && seq[n] == (&donor, &lists@[donor]);
            assert(not_a_donor(board, writer, *seq[n].0));
        }
    }
    None
}

/// Adds a hint at the end of what `player` holds, and says how many hints
/// the player holds then.
pub fn give_hint(
    lists: &mut HashMap<u32, Vec<(String, u32)>>,
    player: u32,
    hint: String,
    writer: u32,
) -> (n: usize)
    ensures
        board_view(final(lists)@) == board_view(old(lists)@).insert(
            player,
            held(board_view(old(lists)@), player).push((hint@, writer)),
        ),
        n == held(board_view(old(lists)@), player).len() + 1,
{
    broadcast use vstd::std_specs::hash::group_hash_axioms;

    let mut list = match lists.remove(&player) {
        Some(list) => list,
        None => Vec::new(),
    };
    assert(hints_view(list@) =~= held(board_view(old(lists)@), player));
    list.push((hint, writer));
    let n = list.len();
    assert(hints_view(list@) =~= held(board_view(old(lists)@), player).push((hint@, writer)));
    lists.insert(player, list);
    assert(board_view(lists@) =~= board_view(old(lists)@).insert(
        player,
        held(board_view(old(lists)@), player).push((hint@, writer)),
    ));
    n
}

/// Takes the hint at `i` out of what `donor` holds.
pub fn take_hint(lists: &mut HashMap<u32, Vec<(String, u32)>>, donor: u32, i: usize) -> (h: (
    String,
    u32,
))
    requires
        board_view(old(lists)@).contains_key(donor),
        i < board_view(old(lists)@)[donor].len(),
    ensures
        board_view(final(lists)@) == board_view(old(lists)@).insert(
            donor,
            board_view(old(lists)@)[donor].remove(i as int),
        ),
        hint_view(h) == board_view(old(lists)@)[donor][i as int],
{
    broadcast use vstd::std_specs::hash::group_hash_axioms;

    let mut list = match lists.remove(&donor) {
        Some(list) => list,
        None => Vec::new(),
    };
    let h = list.remove(i);
    assert(hints_view(list@) =~= board_view(old(lists)@)[donor].remove(i as int));
    lists.insert(donor, list);
    assert(board_view(lists@) =~= board_view(old(lists)@).insert(
        donor,
        board_view(old(lists)@)[donor].remove(i as int),
    ));
    h
}

/// The board after `player` has been given the hint.
pub open spec fn board_give(
    board: Map<u32, Seq<(Seq<char>, u32)>>,
    player: u32,
    h: (Seq<char>, u32),
) -> Map<u32, Seq<(Seq<char>, u32)>> {
    board.insert(player, held(board, player).push(h))
}

/// The board after the hint at `i` has been taken from `donor`.
pub open spec fn board_take(board: Map<u32, Seq<(Seq<char>, u32)>>, donor: u32, i: int) -> Map<
    u32,
    Seq<(Seq<char>, u32)>,
> {
    board.insert(donor, board[donor].remove(i))
}

/// The board after a donor has passed a hint on to `writer` and taken the
/// hint of `writer` in its place.
pub open spec fn board_swap(
    board: Map<u32, Seq<(Seq<char>, u32)>>,
    donor: u32,
    i: int,
    h: (Seq<char>, u32),
) -> Map<u32, Seq<(Seq<char>, u32)>> {
    board_give(board_give(board_take(board, donor, i), h.1, board[donor][i]), donor, h)
}

/// The players that can still be drawn, after `player` holds `n` hints.
pub open spec fn still_available(available: Seq<u32>, player: u32, n: int, per_player: int) -> Seq<
    u32,
> {
    if n >= per_player {
        without_id(available, player)
    } else {
        available
    }
}

/// Giving a player a hint about somebody else's prompt leaves nobody with
/// a hint about a prompt of their own.
pub proof fn lemma_give_keeps(
    board: Map<u32, Seq<(Seq<char>, u32)>>,
    player: u32,
    h: (Seq<char>, u32),
)
    requires
        no_own_hints(board),
        h.1 != player,
    ensures
        no_own_hints(board_give(board, player, h)),
{
    let after = board_give(board, player, h);
    let n = held(board, player).len() as int;
    assert forall|p: u32, i: int|
        after.contains_key(p) && 0 <= i < after[p].len() implies (#[trigger] after[p][i]).1
        != p by {
        if p == player {
            if i < n {
                assert(board[p][i].1 != p);
            }
        } else {
            assert(board[p][i].1 != p);
        }
    }
}

/// Taking a hint away leaves nobody with a hint about a prompt of their
/// own.
pub proof fn lemma_take_keeps(board: Map<u32, Seq<(Seq<char>, u32)>>, donor: u32, i: int)
    requires
        no_own_hints(board),
        board.contains_key(donor),
        0 <= i < board[donor].len(),
    ensures
        no_own_hints(board_take(board, donor, i)),
{
    let after = board_take(board, donor, i);
    assert forall|p: u32, k: int|
        after.contains_key(p) && 0 <= k < after[p].len() implies (#[trigger] after[p][k]).1
        != p by {
        if p == donor {
            if k < i {
                assert(board[p][k].1 != p);
            } else {
                assert(board[p][k + 1].1 != p);
            }
        } else {
            assert(board[p][k].1 != p);
        }
    }
}

/// The swap with a donor leaves nobody with a hint about a prompt of their
/// own.
pub proof fn lemma_swap_keeps(
    board: Map<u32, Seq<(Seq<char>, u32)>>,
    donor: u32,
    i: int,
    h: (Seq<char>, u32),
)
    requires
        no_own_hints(board),
        is_donor(board, h.1, donor, i),
    ensures
        no_own_hints(board_swap(board, donor, i, h)),
{
    let moved = board[donor][i];
    let taken = board_take(board, donor, i);
    lemma_take_keeps(board, donor, i);
    lemma_give_keeps(taken, h.1, moved);
    lemma_give_keeps(board_give(taken, h.1, moved), donor, h);
}

/// Whether it is known who `p` is: a player of the list, or the writer of
/// one of the hints.
pub open spec fn known_holder(players: Seq<u32>, given: Seq<(Seq<char>, u32)>, p: u32) -> bool {
    players.contains(p) || exists|k: int| 0 <= k < given.len() && (#[trigger] given[k]).1 == p
}

/// A placement of hints on a board: for each hint the player that holds it
/// and the place among what that player holds, such that no two hints
/// share a place and no place of the board is left out.
pub open spec fn is_placement(
    board: Map<u32, Seq<(Seq<char>, u32)>>,
    given: Seq<(Seq<char>, u32)>,
    places: Seq<(u32, int)>,
) -> bool {
    &&& places.len() == given.len()
    &&& forall|k: int|
        0 <= k < places.len() ==> {
            let place = #[trigger] places[k];
            &&& board.contains_key(place.0)
            &&& 0 <= place.1 < board[place.0].len()
            &&& board[place.0][place.1] == given[k]
        }
    &&& forall|a: int, b: int|
        0 <= a < b < places.len() ==> #[trigger] places[a] != #[trigger] places[b]
    &&& forall|p: u32, i: int|
        board.contains_key(p) && 0 <= i < board[p].len() ==> has_place(places, p, i)
}

/// Some hint stands at the place `i` of what `p` holds.
pub open spec fn has_place(places: Seq<(u32, int)>, p: u32, i: int) -> bool {
    exists|k: int| 0 <= k < places.len() && #[trigger] places[k] == (p, i)
}

/// Each of the hints is on the board exactly once, and nothing else is.
pub open spec fn each_placed_once(
    board: Map<u32, Seq<(Seq<char>, u32)>>,
    given: Seq<(Seq<char>, u32)>,
) -> bool {
    exists|places: Seq<(u32, int)>| is_placement(board, given, places)
}

/// Hints that are each on the board exactly once are on the board, and the
/// board holds no other hint.
pub proof fn lemma_placed_once(
    board: Map<u32, Seq<(Seq<char>, u32)>>,
    given: Seq<(Seq<char>, u32)>,
)
    requires
        each_placed_once(board, given),
    ensures
        only_hints_of(board, given),
        forall|g: int| 0 <= g < given.len() ==> on_board(board, #[trigger] given[g]),
{
    let places = choose|places: Seq<(u32, int)>| is_placement(board, given, places);
    assert forall|g: int| 0 <= g < given.len() implies on_board(board, #[trigger] given[g]) by {
        let place = places[g];
        assert(board.contains_key(place.0) && board[place.0][place.1] == given[g]);
    }
    assert forall|p: u32, i: int|
        board.contains_key(p) && 0 <= i < board[p].len() implies given.contains(
        #[trigger] board[p][i],
    ) by {
        assert(has_place(places, p, i));
        let k = choose|k: int| 0 <= k < places.len() && #[trigger] places[k] == (p, i);
        assert(given[k] == board[p][i]);
    }
}

/// A hint that is given takes the place behind what its player holds.
pub proof fn lemma_placement_give(
    board: Map<u32, Seq<(Seq<char>, u32)>>,
    given: Seq<(Seq<char>, u32)>,
    places: Seq<(u32, int)>,
    player: u32,
    h: (Seq<char>, u32),
)
    requires
        is_placement(board, given, places),
    ensures
        is_placement(
            board_give(board, player, h),
            given.push(h),
            places.push((player, held(board, player).len() as int)),
        ),
{
    let after = board_give(board, player, h);
    let n = held(board, player).len() as int;
    let now = places.push((player, n));
    let all = given.push(h);
    assert forall|k: int| 0 <= k < now.len() implies {
        let place = #[trigger] now[k];
        &&& after.contains_key(place.0)
        &&& 0 <= place.1 < after[place.0].len()
        &&& after[place.0][place.1] == all[k]
    } by {
        if k < places.len() {
            let place = places[k];
            assert(board.contains_key(place.0));
        }
    }
    assert forall|a: int, b: int| 0 <= a < b < now.len() implies #[trigger] now[a]
        != #[trigger] now[b] by {
        if b == places.len() {
            let place = places[a];
            assert(board.contains_key(place.0) && place.1 < board[place.0].len());
        } else {
            assert(places[a] != places[b]);
        }
    }
    assert forall|p: u32, i: int|
        after.contains_key(p) && 0 <= i < after[p].len() implies has_place(now, p, i) by {
        if p == player && i == n {
            assert(now[places.len() as int] == (p, i));
        } else {
            assert(has_place(places, p, i));
            let k = choose|k: int| 0 <= k < places.len() && #[trigger] places[k] == (p, i);
            assert(now[k] == (p, i));
        }
    }
}

/// The places after a donor has passed the hint at `i` on to another
/// player.
pub open spec fn places_after_move(
    board: Map<u32, Seq<(Seq<char>, u32)>>,
    places: Seq<(u32, int)>,
    donor: u32,
    i: int,
    to: u32,
) -> Seq<(u32, int)> {
    Seq::new(
        places.len(),
        |k: int|
            if places[k] == (donor, i) {
                (to, held(board, to).len() as int)
            } else if places[k].0 == donor && places[k].1 > i {
                (donor, places[k].1 - 1)
            } else {
                places[k]
            },
    )
}

/// A hint that moves from a donor to another player takes the place behind
/// what that player holds, and the hints behind it at the donor move up.
pub proof fn lemma_placement_move(
    board: Map<u32, Seq<(Seq<char>, u32)>>,
    given: Seq<(Seq<char>, u32)>,
    places: Seq<(u32, int)>,
    donor: u32,
    i: int,
    to: u32,
)
    requires
        is_placement(board, given, places),
        board.contains_key(donor),
        0 <= i < board[donor].len(),
        to != donor,
    ensures
        is_placement(
            board_give(board_take(board, donor, i), to, board[donor][i]),
            given,
            places_after_move(board, places, donor, i, to),
        ),
{
    let taken = board_take(board, donor, i);
    let after = board_give(taken, to, board[donor][i]);
    let now = places_after_move(board, places, donor, i, to);
    let n = held(board, to).len() as int;
    assert(held(taken, to) == held(board, to));
    assert forall|k: int| 0 <= k < now.len() implies {
        let place = #[trigger] now[k];
        &&& after.contains_key(place.0)
        &&& 0 <= place.1 < after[place.0].len()
        &&& after[place.0][place.1] == given[k]
    } by {
        let old_place = places[k];
        assert(board.contains_key(old_place.0) && 0 <= old_place.1 < board[old_place.0].len()
            && board[old_place.0][old_place.1] == given[k]);
    }
    assert forall|a: int, b: int| 0 <= a < b < now.len() implies #[trigger] now[a]
        != #[trigger] now[b] by {
        let pa = places[a];
        let pb = places[b];
        assert(pa != pb);
        assert(board.contains_key(pa.0) && 0 <= pa.1 < board[pa.0].len());
        assert(board.contains_key(pb.0) && 0 <= pb.1 < board[pb.0].len());
    }
    assert forall|p: u32, j: int|
        after.contains_key(p) && 0 <= j < after[p].len() implies has_place(now, p, j) by {
        if p == to && j == n {
            assert(has_place(places, donor, i));
            let k = choose|k: int| 0 <= k < places.len() && #[trigger] places[k] == (donor, i);
            assert(now[k] == (p, j));
        } else if p == donor && j >= i {
            assert(has_place(places, donor, j + 1));
            let k = choose|k: int| 0 <= k < places.len() && #[trigger] places[k] == (donor, j + 1);
            assert(now[k] == (p, j));
        } else {
            assert(board.contains_key(p));
            assert(has_place(places, p, j));
            let k = choose|k: int| 0 <= k < places.len() && #[trigger] places[k] == (p, j);
            assert(now[k] == (p, j));
        }
    }
}

/// Gives `player` the hint and takes the player off the list of those that
/// can be drawn once the player holds `per_player` hints or more.
pub fn place_hint(
    lists: &mut HashMap<u32, Vec<(String, u32)>>,
    available: &mut Vec<u32>,
    per_player: u32,
    player: u32,
    hint: String,
    writer: u32,
)
    ensures
        board_view(final(lists)@) == board_give(board_view(old(lists)@), player, (hint@, writer)),
        final(available)@ == still_available(
            old(available)@,
            player,
            held(board_view(old(lists)@), player).len() as int + 1,
            per_player as int,
        ),
{
    let n = give_hint(lists, player, hint, writer);
    if n >= per_player as usize {
        let rest = ids_without(available, player);
        *available = rest;
    }
}

/// Lets the donor pass the hint at `i` on to `writer`, and gives the donor
/// the hint of `writer` in its place.
pub fn swap_with_donor(
    lists: &mut HashMap<u32, Vec<(String, u32)>>,
    available: &mut Vec<u32>,
    per_player: u32,
    donor: u32,
    i: usize,
    hint: String,
    writer: u32,
)
    requires
        is_donor(board_view(old(lists)@), writer, donor, i as int),
    ensures
        board_view(final(lists)@) == board_swap(
            board_view(old(lists)@),
            donor,
            i as int,
            (hint@, writer),
        ),
        final(available)@ == still_available(
            old(available)@,
            donor,
            board_view(old(lists)@)[donor].len() as int,
            per_player as int,
        ),
{
    let ghost board = board_view(lists@);
    let moved = take_hint(lists, donor, i);
    let (text, about) = moved;
    give_hint(lists, writer, text, about);
    assert(board_view(lists@) == board_give(
        board_take(board, donor, i as int),
        writer,
        board[donor][i as int],
    ));
    place_hint(lists, available, per_player, donor, hint, writer);
}

/// How a hint finds its holder: by a draw among those who may still be
/// drawn and did not write its prompt, or, where there is none to draw, by
/// a donor and the place of the hint that the donor passes on.
#[derive(Clone, Copy, Debug, PartialEq, Eq, Structural)]
pub enum HintChoice {
    Draw(u32),
    Donor(u32, usize),
}

/// Where the handing out stands: the board, and the players that may still
/// be drawn.
pub struct HintState {
    pub board: Map<u32, Seq<(Seq<char>, u32)>>,
    pub available: Seq<u32>,
}

/// Before the first hint: an empty board, and every player may be drawn.
pub open spec fn start_state(players: Seq<u32>) -> HintState {
    HintState { board: Map::empty(), available: players }
}

/// Whether a choice can be made for a hint: a draw names a player that may
/// still be drawn and did not write the hint's prompt, and a donor steps in
/// only where no such player is left.
pub open spec fn choice_fits(state: HintState, h: (Seq<char>, u32), choice: HintChoice) -> bool {
    match choice {
        HintChoice::Draw(player) => without_id(state.available, h.1).contains(player),
        HintChoice::Donor(donor, i) => without_id(state.available, h.1).len() == 0 && is_donor(
            state.board,
            h.1,
            donor,
            i as int,
        ),
    }
}

/// The state after a hint has gone where the choice says.
pub open spec fn after_choice(
    state: HintState,
    per_player: int,
    h: (Seq<char>, u32),
    choice: HintChoice,
) -> HintState {
    match choice {
        HintChoice::Draw(player) => HintState {
            board: board_give(state.board, player, h),
            available: still_available(
                state.available,
                player,
                held(state.board, player).len() as int + 1,
                per_player,
            ),
        },
        HintChoice::Donor(donor, i) => HintState {
            board: board_swap(state.board, donor, i as int, h),
            available: still_available(
                state.available,
                donor,
                state.board[donor].len() as int,
                per_player,
            ),
        },
    }
}

/// The hint can go nowhere: every player that may still be drawn wrote its
/// prompt, and there is no donor.
pub open spec fn stuck(state: HintState, h: (Seq<char>, u32)) -> bool {
    &&& without_id(state.available, h.1).len() == 0
    &&& forall|donor: u32| not_a_donor(state.board, h.1, donor)
}

/// The state after the hints have been handed out by the choices, one
/// choice for each hint in turn, or nothing where a choice cannot be made.
pub open spec fn hand_out(
    state: HintState,
    per_player: int,
    given: Seq<(Seq<char>, u32)>,
    choices: Seq<HintChoice>,
) -> Option<HintState>
    decreases given.len(),
{
    if choices.len() != given.len() {
        None
    } else if given.len() == 0 {
        Some(state)
    } else {
        match hand_out(state, per_player, given.drop_last(), choices.drop_last()) {
            Some(before) => if choice_fits(before, given.last(), choices.last()) {
                Some(after_choice(before, per_player, given.last(), choices.last()))
            } else {
                None
            },
            None => None,
        }
    }
}

/// The board is what the choices make of the hints.
pub open spec fn handed_out(
    players: Seq<u32>,
    per_player: int,
    given: Seq<(Seq<char>, u32)>,
    choices: Seq<HintChoice>,
    board: Map<u32, Seq<(Seq<char>, u32)>>,
) -> bool {
    hand_out(start_state(players), per_player, given, choices) matches Some(state) && state.board
        == board
}

/// The choices hand out the hints before the one at `g`, and that one can
/// go nowhere.
pub open spec fn stuck_at(
    players: Seq<u32>,
    per_player: int,
    given: Seq<(Seq<char>, u32)>,
    g: int,
    choices: Seq<HintChoice>,
) -> bool {
    &&& 0 <= g < given.len()
    &&& hand_out(start_state(players), per_player, given.take(g), choices) matches Some(state)
        && stuck(state, given[g])
}

/// Where the handing out of the first hints fails, so does that of all.
pub proof fn lemma_hand_out_fails_on(
    state: HintState,
    per_player: int,
    given: Seq<(Seq<char>, u32)>,
    choices: Seq<HintChoice>,
    g: int,
)
    requires
        0 <= g <= given.len(),
        choices.len() == given.len(),
        hand_out(state, per_player, given.take(g), choices.take(g)) is None,
    ensures
        hand_out(state, per_player, given, choices) is None,
    decreases given.len() - g,
{
    if g == given.len() {
        assert(given.take(g) =~= given);
        assert(choices.take(g) =~= choices);
    } else {
        assert(given.take(g + 1).drop_last() =~= given.take(g));
        assert(choices.take(g + 1).drop_last() =~= choices.take(g));
        lemma_hand_out_fails_on(state, per_player, given, choices, g + 1);
    }
}

fn holds_id(ids: &Vec<u32>, id: u32) -> (b: bool)
    ensures
        b == ids@.contains(id),
{
    let mut i: usize = 0;
    while i < ids.len()
        invariant
            0 <= i <= ids.len(),
            forall|j: int| 0 <= j < i ==> ids@[j] != id,
        decreases ids.len() - i,
    {
        if ids[i] == id {
            return true;
        }
        i += 1;
    }
    false
}

/// Whether a choice can be made for a hint of `writer`.
pub fn fits_here(
    lists: &HashMap<u32, Vec<(String, u32)>>,
    available: &Vec<u32>,
    writer: u32,
    choice: HintChoice,
) -> (b: bool)
    ensures
        forall|text: Seq<char>|
            b == #[trigger] choice_fits(
                HintState { board: board_view(lists@), available: available@ },
                (text, writer),
                choice,
            ),
{
    broadcast use vstd::std_specs::hash::group_hash_axioms;

    let possible = ids_without(available, writer);
    match choice {
        HintChoice::Draw(player) => holds_id(&possible, player),
        HintChoice::Donor(donor, i) => {
            if possible.len() != 0 || donor == writer {
                return false;
            }
            match lists.get(&donor) {
                Some(list) => {
                    let ghost board = board_view(lists@);
                    let first = first_foreign_hint(list, writer);
                    proof {
                        match first {
                            Some(k) => {
                                assert(is_donor(board, writer, donor, k as int)) by {
                                    assert forall|j: int| 0 <= j < k implies (#[trigger] board[donor][j]).1
                                        == writer by {
                                        assert(list@[j].1 == writer);
                                    }
                                }
                                if k != i {
                                    if is_donor(board, writer, donor, i as int) {
                                        if i < k {
                                            assert(list@[i as int].1 == writer);
                                        } else {
                                            assert(board[donor][k as int].1 == writer);
                                        }
                                    }
                                }
                            },
                            None => {
                                if is_donor(board, writer, donor, i as int) {
                                    assert(list@[i as int].1 == writer);
                                }
                            },
                        }
                    }
                    first == Some(i)
                },
                None => false,
            }
        },
    }
}

/// The places in a list of hints at which the hints of one writer stand.
pub open spec fn written_by(given: Seq<(Seq<char>, u32)>, writer: u32) -> Set<int> {
    Set::new(|k: int| 0 <= k < given.len() && given[k].1 == writer)
}

/// Hints that can be handed out whatever is drawn: a player is to hold at
/// least one hint, two of the players differ, and nobody wrote more of the
/// hints than a player is to hold.
pub open spec fn can_always_place(
    players: Seq<u32>,
    per_player: int,
    given: Seq<(Seq<char>, u32)>,
) -> bool {
    &&& per_player >= 1
    &&& exists|a: int, b: int|
        0 <= a < players.len() && 0 <= b < players.len() && #[trigger] players[a]
            != #[trigger] players[b]
    &&& forall|writer: u32| #[trigger] written_by(given, writer).len() <= per_player
}

/// A player that may be drawn no more holds as many hints as a player is
/// to hold, or more.
pub open spec fn full_when_retired(players: Seq<u32>, per_player: int, state: HintState) -> bool {
    forall|p: u32|
        players.contains(p) && !state.available.contains(p) ==> (#[trigger] held(
            state.board,
            p,
        )).len() >= per_player
}

/// An id of the list that is not the one taken out is still there.
pub proof fn lemma_without_id_keeps(ids: Seq<u32>, id: u32, x: u32)
    requires
        ids.contains(x),
        x != id,
    ensures
        without_id(ids, id).contains(x),
{
    let i = choose|i: int| 0 <= i < ids.len() && ids[i] == x;
    ids.lemma_filter_contains(|y: u32| y != id, i);
}

proof fn lemma_all_by_up_to(board: Map<u32, Seq<(Seq<char>, u32)>>, writer: u32, p: u32, n: int)
    requires
        board.contains_key(p),
        p != writer,
        not_a_donor(board, writer, p),
        0 <= n <= board[p].len(),
    ensures
        forall|j: int| 0 <= j < n ==> (#[trigger] board[p][j]).1 == writer,
    decreases n,
{
    if n > 0 {
        lemma_all_by_up_to(board, writer, p, n - 1);
        if board[p][n - 1].1 != writer {
            assert(is_donor(board, writer, p, n - 1));
        }
    }
}

/// A choice that fits keeps the players that may be drawn no more full.
pub proof fn lemma_full_when_retired_step(
    players: Seq<u32>,
    per_player: int,
    state: HintState,
    h: (Seq<char>, u32),
    choice: HintChoice,
)
    requires
        full_when_retired(players, per_player, state),
        choice_fits(state, h, choice),
    ensures
        full_when_retired(players, per_player, after_choice(state, per_player, h, choice)),
{
    let after = after_choice(state, per_player, h, choice);
    assert forall|p: u32| players.contains(p) && !after.available.contains(p) implies (#[trigger] held(
        after.board,
        p,
    )).len() >= per_player by {
        match choice {
            HintChoice::Draw(player) => {
                if state.available.contains(p) {
                    if p != player {
                        lemma_without_id_keeps(state.available, player, p);
                    }
                } else {
                    assert(held(state.board, p).len() >= per_player);
                }
            },
            HintChoice::Donor(donor, i) => {
                let taken = board_take(state.board, donor, i as int);
                let passed = board_give(taken, h.1, state.board[donor][i as int]);
                assert(held(passed, donor) == held(taken, donor));
                assert(held(after.board, donor).len() == state.board[donor].len());
                if state.available.contains(p) {
                    if p != donor {
                        lemma_without_id_keeps(state.available, donor, p);
                    }
                } else {
                    assert(held(state.board, p).len() >= per_player);
                    if p != donor && p != h.1 {
                        assert(held(after.board, p) == held(state.board, p));
                    } else if p == h.1 {
                        assert(held(taken, p) == held(state.board, p));
                    }
                }
            },
        }
    }
}

/// Hints that can always be handed out never get stuck: where nobody can
/// be drawn for a hint, a player who did not write it is full, and not
/// with hints of its writer alone, who wrote too few, so that player is a
/// donor.
pub proof fn lemma_never_stuck(
    players: Seq<u32>,
    per_player: int,
    given: Seq<(Seq<char>, u32)>,
    g: int,
    state: HintState,
    places: Seq<(u32, int)>,
)
    requires
        can_always_place(players, per_player, given),
        0 <= g < given.len(),
        is_placement(state.board, given.take(g), places),
        full_when_retired(players, per_player, state),
    ensures
        !stuck(state, given[g]),
{
    let writer = given[g].1;
    let board = state.board;
    if stuck(state, given[g]) {
        let (a, b) = choose|a: int, b: int|
            0 <= a < players.len() && 0 <= b < players.len() && #[trigger] players[a]
                != #[trigger] players[b];
        let p = if players[a] != writer {
            players[a]
        } else {
            players[b]
        };
        assert(players.contains(p));
        if state.available.contains(p) {
            lemma_without_id_keeps(state.available, writer, p);
        }
        assert(held(board, p).len() >= per_player);
        assert(board.contains_key(p));
        assert(not_a_donor(board, writer, p));
        lemma_all_by_up_to(board, writer, p, board[p].len() as int);
        let before = written_by(given.take(g), writer);
        let all = written_by(given, writer);
        let place_of = |j: int| choose|k: int| 0 <= k < places.len() && #[trigger] places[k] == (p, j);
        let slots = vstd::set_lib::set_int_range(0, per_player);
        let found = slots.map(place_of);
        vstd::set_lib::lemma_int_range(0, per_player);
        assert forall|j: int| slots.contains(j) implies 0 <= place_of(j) < places.len()
            && places[place_of(j)] == (p, j) by {
            assert(has_place(places, p, j));
        }
        assert(vstd::relations::injective_on(place_of, slots)) by {
            assert forall|x: int, y: int|
                slots.contains(x) && slots.contains(y) && #[trigger] place_of(x)
                    == #[trigger] place_of(y) implies x == y by {
                assert(places[place_of(x)] == (p, x));
                assert(places[place_of(y)] == (p, y));
            }
        }
        vstd::set_lib::lemma_map_size(slots, found, place_of);
        vstd::set_lib::lemma_int_range(0, g);
        assert(before.subset_of(vstd::set_lib::set_int_range(0, g)));
        vstd::set_lib::lemma_len_subset(before, vstd::set_lib::set_int_range(0, g));
        assert(found.subset_of(before)) by {
            assert forall|k: int| found.contains(k) implies before.contains(k) by {
                let j = choose|j: int| slots.contains(j) && place_of(j) == k;
                assert(places[k] == (p, j));
                assert(board[p][j] == given.take(g)[k]);
                assert(board[p][j].1 == writer);
            }
        }
        vstd::set_lib::lemma_len_subset(found, before);
        vstd::set_lib::lemma_int_range(0, given.len() as int);
        assert(all.subset_of(vstd::set_lib::set_int_range(0, given.len() as int)));
        vstd::set_lib::lemma_len_subset(all, vstd::set_lib::set_int_range(0, given.len() as int));
        assert(before.insert(g).subset_of(all)) by {
            assert forall|k: int| before.insert(g).contains(k) implies all.contains(k) by {
                if k != g {
                    assert(given.take(g)[k] == given[k]);
                }
            }
        }
        vstd::set_lib::lemma_len_subset(before.insert(g), all);
        assert(!before.contains(g));
        assert(before.insert(g).len() == before.len() + 1);
        assert(all.len() <= per_player);
        assert(false);
    }
}

/// Players who own their prompts can always be given their hints: where
/// the players differ from each other, there are two or more of them, and
/// each wrote as many hints as a player is to hold, in the order of the
/// players, the hints can be handed out whatever is drawn.
pub proof fn lemma_owned_hints_can_always_be_placed(
    players: Seq<u32>,
    per_player: int,
    given: Seq<(Seq<char>, u32)>,
)
    requires
        per_player >= 1,
        players.len() >= 2,
        players.no_duplicates(),
        given.len() == players.len() * per_player,
        forall|k: int| 0 <= k < given.len() ==> (#[trigger] given[k]).1 == players[k / per_player],
    ensures
        can_always_place(players, per_player, given),
{
    assert(players[0] != players[1]);
    let n = players.len() as int;
    assert forall|writer: u32| #[trigger] written_by(given, writer).len() <= per_player by {
        let places = written_by(given, writer);
        assert forall|k: int| places.contains(k) implies 0 <= k / per_player < n && players[k
            / per_player] == writer by {
            assert(0 <= k / per_player < n) by (nonlinear_arith)
                requires
                    0 <= k < n * per_player,
                    per_player >= 1,
            ;
            assert(given[k].1 == players[k / per_player]);
        }
        if exists|i: int| 0 <= i < n && players[i] == writer {
            let i = choose|i: int| 0 <= i < n && players[i] == writer;
            let block = vstd::set_lib::set_int_range(i * per_player, i * per_player + per_player);
            vstd::set_lib::lemma_int_range(i * per_player, i * per_player + per_player);
            assert(places.subset_of(block)) by {
                assert forall|k: int| places.contains(k) implies block.contains(k) by {
                    let q = k / per_player;
                    assert(q == i);
                    assert(q * per_player <= k < q * per_player + per_player) by (nonlinear_arith)
                        requires
                            q == k / per_player,
                            per_player >= 1,
                            0 <= k,
                    ;
                }
            }
            vstd::set_lib::lemma_len_subset(places, block);
        } else {
            assert(places =~= Set::<int>::empty());
        }
    }
}

/// Where two players stand after `g` of their hints have been handed out,
/// when the first wrote the first `m` hints and the second the `m` after
/// them: each holds what the other wrote.
pub open spec fn two_player_state(
    a: u32,
    b: u32,
    m: int,
    given: Seq<(Seq<char>, u32)>,
    g: int,
) -> HintState {
    HintState {
        board: if g == 0 {
            Map::empty()
        } else if g <= m {
            Map::empty().insert(b, given.subrange(0, g))
        } else {
            Map::empty().insert(b, given.subrange(0, m)).insert(a, given.subrange(m, g))
        },
        available: if g < m {
            seq![a, b]
        } else if g < 2 * m {
            seq![a]
        } else {
            Seq::empty()
        },
    }
}

proof fn lemma_without_id_of_two(a: u32, b: u32)
    requires
        a != b,
    ensures
        without_id(seq![a, b], a) == seq![b],
        without_id(seq![a, b], b) == seq![a],
        without_id(seq![a], b) == seq![a],
        without_id(seq![a], a) == Seq::<u32>::empty(),
{
    let none = Seq::<u32>::empty();
    assert(without_id(none, a) =~= none && without_id(none, b) =~= none) by {
        reveal(Seq::filter);
    }
    lemma_without_id_push(none, a, a);
    lemma_without_id_push(none, a, b);
    assert(none.push(a) =~= seq![a]);
    lemma_without_id_push(seq![a], b, a);
    lemma_without_id_push(seq![a], b, b);
    assert(seq![a].push(b) =~= seq![a, b]);
    assert(none.push(b) =~= seq![b]);
}

/// Two players have no choice: whatever run of choices hands out the
/// first `g` hints, it leads to the same state.
pub proof fn lemma_two_players_have_no_choice(
    a: u32,
    b: u32,
    m: int,
    given: Seq<(Seq<char>, u32)>,
    g: int,
    choices: Seq<HintChoice>,
)
    requires
        a != b,
        m >= 1,
        given.len() == 2 * m,
        forall|k: int| 0 <= k < m ==> (#[trigger] given[k]).1 == a,
        forall|k: int| m <= k < 2 * m ==> (#[trigger] given[k]).1 == b,
        0 <= g <= 2 * m,
        hand_out(start_state(seq![a, b]), m, given.take(g), choices) is Some,
    ensures
        hand_out(start_state(seq![a, b]), m, given.take(g), choices) == Some(
            two_player_state(a, b, m, given, g),
        ),
    decreases g,
{
    let start = start_state(seq![a, b]);
    if g > 0 {
        let some = given.take(g);
        assert(some.drop_last() =~= given.take(g - 1));
        assert(some.last() == given[g - 1]);
        lemma_two_players_have_no_choice(a, b, m, given, g - 1, choices.drop_last());
        let before = two_player_state(a, b, m, given, g - 1);
        let h = given[g - 1];
        let choice = choices.last();
        assert(choice_fits(before, h, choice));
        lemma_without_id_of_two(a, b);
        let after = after_choice(before, m, h, choice);
        let expected = two_player_state(a, b, m, given, g);
        if g - 1 < m {
            assert(h.1 == a);
            assert(choice == HintChoice::Draw(b)) by {
                match choice {
                    HintChoice::Draw(p) => {
                        let i = choose|i: int| 0 <= i < seq![b].len() && seq![b][i] == p;
                    },
                    HintChoice::Donor(_, _) => {
                        assert(seq![b].len() == 1);
                    },
                }
            }
            assert(held(before.board, b) =~= given.subrange(0, g - 1));
            assert(given.subrange(0, g - 1).push(h) =~= given.subrange(0, g));
            assert(after.board =~= expected.board);
            assert(after.available == expected.available);
        } else {
            assert(h.1 == b);
            assert(choice == HintChoice::Draw(a)) by {
                match choice {
                    HintChoice::Draw(p) => {
                        let i = choose|i: int| 0 <= i < seq![a].len() && seq![a][i] == p;
                    },
                    HintChoice::Donor(_, _) => {
                        assert(seq![a].len() == 1);
                    },
                }
            }
            assert(held(before.board, a) =~= given.subrange(m, g - 1));
            assert(given.subrange(m, g - 1).push(h) =~= given.subrange(m, g));
            assert(after.board =~= expected.board);
            assert(after.available == expected.available);
        }
    }
}

/// Two players get each other's hints: where the first player wrote the
/// first `m` hints and the second the `m` after them, whatever is drawn,
/// the second holds the hints of the first and the first those of the
/// second, each in the order in which they came.
pub proof fn lemma_two_players_swap_hints(
    a: u32,
    b: u32,
    m: int,
    given: Seq<(Seq<char>, u32)>,
    choices: Seq<HintChoice>,
    board: Map<u32, Seq<(Seq<char>, u32)>>,
)
    requires
        a != b,
        m >= 1,
        given.len() == 2 * m,
        forall|k: int| 0 <= k < m ==> (#[trigger] given[k]).1 == a,
        forall|k: int| m <= k < 2 * m ==> (#[trigger] given[k]).1 == b,
        handed_out(seq![a, b], m, given, choices, board),
    ensures
        board == Map::<u32, Seq<(Seq<char>, u32)>>::empty().insert(b, given.subrange(0, m)).insert(
            a,
            given.subrange(m, 2 * m),
        ),
{
    assert(given.take(2 * m) =~= given);
    lemma_two_players_have_no_choice(a, b, m, given, 2 * m, choices);
}

/// Hands the hints out by the choices given, one for each hint in turn.
/// Fails where the choices are not as many as the hints, or one of them
/// cannot be made when its turn comes.
pub fn assign_hints_with(
    generated: &Vec<(String, u32)>,
    players: &Vec<u32>,
    per_player: u32,
    choices: &Vec<HintChoice>,
) -> (r: Result<HashMap<u32, Vec<(String, u32)>>, String>)
    ensures
        match r {
            Ok(lists) => handed_out(
                players@,
                per_player as int,
                hints_view(generated@),
                choices@,
                board_view(lists@),
            ),
            Err(e) => e@ == no_players_message() && hand_out(
                start_state(players@),
                per_player as int,
                hints_view(generated@),
                choices@,
            ) is None,
        },
{
    if choices.len() != generated.len() {
        return Err(String::from_str("No valid players available for hint assignment"));
    }
    let mut lists: HashMap<u32, Vec<(String, u32)>> = HashMap::new();
    let mut available: Vec<u32> = players.clone();
    let ghost given = hints_view(generated@);
    let ghost start = start_state(players@);
    let mut g: usize = 0;
    assert(given.take(0) =~= Seq::empty());
    assert(board_view(lists@) =~= start.board);
    assert(available@ =~= players@);
    while g < generated.len()
        invariant
            0 <= g <= generated.len(),
            choices.len() == generated.len(),
            given == hints_view(generated@),
            start == start_state(players@),
            hand_out(start, per_player as int, given.take(g as int), choices@.take(g as int))
                == Some(HintState { board: board_view(lists@), available: available@ }),
        decreases generated.len() - g,
    {
        let hint = generated[g].0.clone();
        let writer = generated[g].1;
        let choice = choices[g];
        let ghost before = HintState { board: board_view(lists@), available: available@ };
        proof {
            assert(given[g as int] == (hint@, writer));
            assert(given.take(g as int + 1).drop_last() =~= given.take(g as int));
            assert(choices@.take(g as int + 1).drop_last() =~= choices@.take(g as int));
            assert(given.take(g as int + 1).last() == given[g as int]);
            assert(choices@.take(g as int + 1).last() == choice);
        }
        if !fits_here(&lists, &available, writer, choice) {
            proof {
                assert(!choice_fits(before, (hint@, writer), choice));
                assert(hand_out(
                    start,
                    per_player as int,
                    given.take(g as int + 1),
                    choices@.take(g as int + 1),
                ) is None);
                lemma_hand_out_fails_on(start, per_player as int, given, choices@, g as int + 1);
            }
            return Err(String::from_str("No valid players available for hint assignment"));
        }
        assert(choice_fits(before, (hint@, writer), choice));
        match choice {
            HintChoice::Draw(player) => {
                place_hint(&mut lists, &mut available, per_player, player, hint, writer);
            },
            HintChoice::Donor(donor, i) => {
                swap_with_donor(&mut lists, &mut available, per_player, donor, i, hint, writer);
            },
        }
        g += 1;
    }
    assert(given.take(g as int) =~= given);
    assert(choices@.take(g as int) =~= choices@);
    Ok(lists)
}

/// Hands the hints out, one after the other. Each goes to a player drawn at
/// random from those who may still be drawn and did not write its prompt.
/// Where there is none, a donor passes a hint about somebody else's prompt
/// on to the writer and takes the new hint; without a donor the assignment
/// fails.
///
/// Whatever is drawn, the board on success is what some run of choices
/// makes of the hints: each hint is on it exactly once, nothing else is,
/// nobody holds a hint about a prompt of their own, and whoever holds a
/// hint is one of the players or the writer of a hint. A failure comes
/// only where some run of choices has handed out the hints before one that
/// can then go nowhere, and never where two of the players differ and
/// nobody wrote more of the hints than a player is to hold.
pub fn assign_hints(
    generated: &Vec<(String, u32)>,
    players: &Vec<u32>,
    per_player: u32,
    rng: &mut StdRng,
) -> (r: Result<HashMap<u32, Vec<(String, u32)>>, String>)
    ensures
        match r {
            Ok(lists) => {
                &&& exists|choices: Seq<HintChoice>| #[trigger]
                    handed_out(
                        players@,
                        per_player as int,
                        hints_view(generated@),
                        choices,
                        board_view(lists@),
                    )
                &&& no_own_hints(board_view(lists@))
                &&& each_placed_once(board_view(lists@), hints_view(generated@))
                &&& forall|p: u32| #[trigger]
                    lists@.contains_key(p) ==> known_holder(players@, hints_view(generated@), p)
            },
            Err(e) => e@ == no_players_message() && exists|g: int, choices: Seq<HintChoice>| #[trigger]
                stuck_at(players@, per_player as int, hints_view(generated@), g, choices),
        },
        can_always_place(players@, per_player as int, hints_view(generated@)) ==> r is Ok,
{
    let mut lists: HashMap<u32, Vec<(String, u32)>> = HashMap::new();
    let mut available: Vec<u32> = players.clone();
    let mut g: usize = 0;
    assert(no_own_hints(board_view(lists@)));
    let ghost given = hints_view(generated@);
    let ghost start = start_state(players@);
    let ghost mut places: Seq<(u32, int)> = Seq::empty();
    let ghost mut choices: Seq<HintChoice> = Seq::empty();
    assert(given.take(0) =~= Seq::empty());
    assert(is_placement(board_view(lists@), given.take(0), places));
    assert(available@ =~= players@);
    assert(board_view(lists@) =~= start.board);
    assert(full_when_retired(
        players@,
        per_player as int,
        HintState { board: board_view(lists@), available: available@ },
    ));
    while g < generated.len()
        invariant
            0 <= g <= generated.len(),
            given == hints_view(generated@),
            start == start_state(players@),
            no_own_hints(board_view(lists@)),
            is_placement(board_view(lists@), given.take(g as int), places),
            forall|i: int| 0 <= i < available@.len() ==> players@.contains(#[trigger] available@[i]),
            forall|p: u32| #[trigger]
                lists@.contains_key(p) ==> known_holder(players@, given, p),
            hand_out(start, per_player as int, given.take(g as int), choices) == Some(
                HintState { board: board_view(lists@), available: available@ },
            ),
            full_when_retired(
                players@,
                per_player as int,
                HintState { board: board_view(lists@), available: available@ },
            ),
        decreases generated.len() - g,
    {
        let hint = generated[g].0.clone();
        let writer = generated[g].1;
        let ghost board = board_view(lists@);
        let ghost before = HintState { board, available: available@ };
        let ghost h = (hint@, writer);
        assert(given[g as int] == h);
        assert(given.take(g as int + 1) =~= given.take(g as int).push(h));
        assert(given.take(g as int + 1).drop_last() =~= given.take(g as int));
        let possible = ids_without(&available, writer);
        let ghost could = available@;
        proof {
            lemma_without_id(could, writer);
            assert(known_holder(players@, given, writer));
            assert forall|p: u32| could.contains(p) implies players@.contains(p) by {
                let i = choose|i: int| 0 <= i < could.len() && could[i] == p;
                assert(players@.contains(could[i]));
            }
        }
        match choose_from(&possible, rng) {
            Some(drawn) => {
                let player = *drawn;
                proof {
                    lemma_without_id(available@, writer);
                    let n = choose|n: int| 0 <= n < possible@.len() && possible@[n] == player;
                    assert(possible@[n] != writer);
                    lemma_give_keeps(board, player, h);
                    lemma_placement_give(board, given.take(g as int), places, player, h);
                    places = places.push((player, held(board, player).len() as int));
                    assert(choice_fits(before, h, HintChoice::Draw(player)));
                    lemma_full_when_retired_step(
                        players@,
                        per_player as int,
                        before,
                        h,
                        HintChoice::Draw(player),
                    );
                    assert(choices.push(HintChoice::Draw(player)).drop_last() =~= choices);
                    choices = choices.push(HintChoice::Draw(player));
                }
                place_hint(&mut lists, &mut available, per_player, player, hint, writer);
                proof {
                    lemma_without_id(could, player);
                    assert(players@.contains(player));
                    assert forall|p: u32| #[trigger] lists@.contains_key(p) implies known_holder(
                        players@,
                        given,
                        p,
                    ) by {
                        assert(board_view(lists@).contains_key(p));
                        if p != player {
                            assert(board.contains_key(p));
                        }
                    }
                }
            },
            None => {
                match find_donor(&lists, writer) {
                    Some((donor, i)) => {
                        proof {
                            lemma_swap_keeps(board, donor, i as int, h);
                            lemma_placement_move(
                                board,
                                given.take(g as int),
                                places,
                                donor,
                                i as int,
                                writer,
                            );
                            let moved = board_give(
                                board_take(board, donor, i as int),
                                writer,
                                board[donor][i as int],
                            );
                            let shifted = places_after_move(board, places, donor, i as int, writer);
                            lemma_placement_give(moved, given.take(g as int), shifted, donor, h);
                            places = shifted.push((donor, held(moved, donor).len() as int));
                            assert(choice_fits(before, h, HintChoice::Donor(donor, i)));
                            lemma_full_when_retired_step(
                                players@,
                                per_player as int,
                                before,
                                h,
                                HintChoice::Donor(donor, i),
                            );
                            assert(choices.push(HintChoice::Donor(donor, i)).drop_last() =~= choices);
                            choices = choices.push(HintChoice::Donor(donor, i));
                        }
                        swap_with_donor(
                            &mut lists,
                            &mut available,
                            per_player,
                            donor,
                            i,
                            hint,
                            writer,
                        );
                        proof {
                            lemma_without_id(could, donor);
                            assert forall|p: u32| #[trigger]
                                lists@.contains_key(p) implies known_holder(players@, given, p) by {
                                assert(board_view(lists@).contains_key(p));
                                if p != donor && p != writer {
                                    assert(board.contains_key(p));
                                }
                            }
                        }
                    },
                    None => {
                        proof {
                            assert(stuck(before, h)) by {
                                assert forall|donor: u32| not_a_donor(board, writer, donor) by {
                                    assert forall|i: int| !is_donor(board, writer, donor, i) by {}
                                }
                            }
                            assert(stuck_at(players@, per_player as int, given, g as int, choices));
                            if can_always_place(players@, per_player as int, given) {
                                lemma_never_stuck(
                                    players@,
                                    per_player as int,
                                    given,
                                    g as int,
                                    before,
                                    places,
                                );
                            }
                        }
                        return Err(String::from_str("No valid players available for hint assignment"));
                    },
                }
            },
        }
        g += 1;
    }
    assert(given.take(g as int) =~= given);
    assert(handed_out(players@, per_player as int, given, choices, board_view(lists@)));
    Ok(lists)
}

/// The texts of a list of hints.
pub open spec fn texts_of(list: Seq<(Seq<char>, u32)>) -> Seq<Seq<char>> {
    list.map_values(|h: (Seq<char>, u32)| h.0)
}

fn texts_of_list(list: &Vec<(String, u32)>) -> (r: Vec<String>)
    ensures
        strings_view(r@) == texts_of(hints_view(list@)),
{
    let mut r: Vec<String> = Vec::new();
    let mut i: usize = 0;
    while i < list.len()
        invariant
            0 <= i <= list.len(),
            r@.len() == i,
            forall|j: int| 0 <= j < i ==> (#[trigger] r@[j])@ == list@[j].0@,
        decreases list.len() - i,
    {
        r.push(list[i].0.clone());
        i += 1;
    }
    assert(strings_view(r@) =~= texts_of(hints_view(list@)));
    r
}

/// The board without the writers: for each player the texts of the hints
/// that the player holds.
pub fn hint_texts(lists: &HashMap<u32, Vec<(String, u32)>>) -> (r: HashMap<u32, Vec<String>>)
    ensures
        r@.dom() == lists@.dom(),
        forall|p: u32| #[trigger]
            r@.contains_key(p) ==> strings_view(r@[p]@) == texts_of(board_view(lists@)[p]),
{
    broadcast use vstd::std_specs::hash::group_hash_axioms;

    let mut r: HashMap<u32, Vec<String>> = HashMap::new();
    for entry in it: lists.iter()
        invariant
            forall|p: u32| #[trigger]
                r@.contains_key(p) ==> lists@.contains_key(p) && strings_view(r@[p]@) == texts_of(
                    board_view(lists@)[p],
                ),
            forall|n: int| 0 <= n < it.index() ==> r@.contains_key(*(#[trigger] it.seq()[n]).0),
    {
        let (player, list) = entry;
        let texts = texts_of_list(list);
        r.insert(*player, texts);
    }
    assert(r@.dom() =~= lists@.dom()) by {
        assert forall|p: u32| lists@.contains_key(p) implies r@.contains_key(p) by {
            let seq = lists.iter().remaining();
            assert(seq.contains((&p, &lists@[p])));
            let n = choose|n: int| 0 <= n < seq.len() && seq[n] == (&p, &lists@[p]);
            assert(r@.contains_key(*seq[n].0));
        }
    }
    r
}

} // verus!
