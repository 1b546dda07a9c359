//! Stages and rounds: setting the table, handing out items, passing the
//! turn, and paying the winner.
use crate::data::{all_items, count_alive, item_at_roll, lemma_alive_exists, total_rarity, GameData, HandcuffedLevel, Item, Player};
use crate::rng::shuffle;
use crate::rules::same_identity;
use crate::settings::{credits_per_win_for_stage, items_per_round_for_stage, lives_for_stage, max_items_for_stage};
use crate::shells::{reload_buckshot_if_needed, reload_result, ReloadReport};
use vstd::prelude::*;

verus! {

/// An item that a random draw can give.
pub open spec fn drawable(item: Item) -> bool {
    exists|roll: nat| roll < total_rarity(all_items()) && item == item_at_roll(all_items(), roll)
}

/// How many items a living player with `held` items is given in a round of
/// a stage: the stage's round allowance, but no more than would bring the
/// hand above the stage's most.
pub open spec fn items_to_give(stage_num: nat, held: nat) -> nat {
    let per_round = stage_num + 1;
    let room = (stage_num + 1) * 2 - held;
    if per_round <= room { per_round } else { room as nat }
}

/// Whether every living player holds no more than a stage's most items.
pub open spec fn hands_within_limit(players: Seq<Player>, stage_num: nat) -> bool {
    forall|k: int| 0 <= k < players.len() && (#[trigger] players[k]).lives > 0 ==> players[k].items@.len() <= (stage_num + 1) * 2
}

/// `after` is `before` where every living player was given the items of
/// `gifts` at their seat (drawn at random, as many as `items_to_give`) at
/// the end of their hand, and players without lives were given nothing.
pub open spec fn items_given(before: Seq<Player>, after: Seq<Player>, gifts: Seq<Vec<Item>>, stage_num: nat) -> bool {
    &&& after.len() == before.len()
    &&& gifts.len() == before.len()
    &&& forall|k: int| 0 <= k < before.len() ==> {
        &&& same_identity(before[k], #[trigger] after[k])
        &&& after[k].lives == before[k].lives
        &&& after[k].credits == before[k].credits
        &&& after[k].items@ == before[k].items@ + gifts[k]@
        &&& gifts[k]@.len() == if before[k].lives > 0 { items_to_give(stage_num, before[k].items@.len()) } else { 0 }
        &&& forall|j: int| 0 <= j < gifts[k]@.len() ==> drawable(#[trigger] gifts[k]@[j])
    }
}

/// Hands out a round's items: every living player gets random items, up to
/// the stage's allowance per round and the stage's most in hand. Returns, per
/// seat, the items given.
pub fn give_items(game_data: &mut GameData, stage_num: usize) -> (gifts: Vec<Vec<Item>>)
    requires
        (stage_num + 1) * 2 <= usize::MAX,
        hands_within_limit(old(game_data).players@, stage_num as nat),
    ensures
        items_given(old(game_data).players@, final(game_data).players@, gifts@, stage_num as nat),
        final(game_data).curr_player == old(game_data).curr_player,
        final(game_data).buckshot == old(game_data).buckshot,
        final(game_data).has_barrel_extension == old(game_data).has_barrel_extension,
        final(game_data).is_inverted == old(game_data).is_inverted,
{
    let ghost start = *game_data;
    let items_per_round = items_per_round_for_stage(stage_num);
    let max_items = max_items_for_stage(stage_num);
    let mut gifts: Vec<Vec<Item>> = Vec::new();
    let mut k: usize = 0;
    while k < game_data.players.len()
        invariant
            start == *old(game_data),
            (stage_num + 1) * 2 <= usize::MAX,
            items_per_round == stage_num + 1,
            max_items == (stage_num + 1) * 2,
            hands_within_limit(start.players@, stage_num as nat),
            k <= game_data.players@.len(),
            game_data.players@.len() == start.players@.len(),
            gifts@.len() == k,
            game_data.curr_player == start.curr_player,
            game_data.buckshot == start.buckshot,
            game_data.has_barrel_extension == start.has_barrel_extension,
            game_data.is_inverted == start.is_inverted,
            forall|j: int| 0 <= j < k ==> {
                &&& same_identity(start.players@[j], #[trigger] game_data.players@[j])
                &&& game_data.players@[j].lives == start.players@[j].lives
                &&& game_data.players@[j].credits == start.players@[j].credits
                &&& game_data.players@[j].items@ == start.players@[j].items@ + gifts@[j]@
                &&& gifts@[j]@.len() == if start.players@[j].lives > 0 { items_to_give(stage_num as nat, start.players@[j].items@.len()) } else { 0 }
                &&& forall|i: int| 0 <= i < gifts@[j]@.len() ==> drawable(#[trigger] gifts@[j]@[i])
            },
            forall|j: int| k <= j < start.players@.len() ==> game_data.players@[j] == start.players@[j],
        decreases game_data.players@.len() - k,
    {
        let mut gift: Vec<Item> = Vec::new();
        let ghost iter_start = game_data.players@;
        assert(game_data.players@[k as int] == start.players@[k as int]);
        if game_data.players[k].lives > 0 {
            let held = game_data.players[k].items.len();
            assert(game_data.players@[k as int] == start.players@[k as int]);
            let room = max_items - held;
            let count = if items_per_round <= room { items_per_round } else { room };
            let ghost before_k = game_data.players@[k as int];
            let ghost before_all = game_data.players@;
            let mut n: usize = 0;
            while n < count
                invariant
                    n <= count,
                    k < game_data.players@.len(),
                    game_data.players@.len() == start.players@.len(),
                    gift@.len() == n,
                    game_data.players@[k as int].items@ == before_k.items@ + gift@,
                    same_identity(before_k, game_data.players@[k as int]),
                    game_data.players@[k as int].lives == before_k.lives,
                    game_data.players@[k as int].credits == before_k.credits,
                    forall|j: int| 0 <= j < game_data.players@.len() && j != k ==> game_data.players@[j] == before_all[j],
                    before_all.len() == game_data.players@.len(),
                    forall|j: int| 0 <= j < gift@.len() ==> drawable(#[trigger] gift@[j]),
                    game_data.curr_player == start.curr_player,
                    game_data.buckshot == start.buckshot,
                    game_data.has_barrel_extension == start.has_barrel_extension,
                    game_data.is_inverted == start.is_inverted,
                decreases count - n,
            {
                let item = Item::random();
                gift.push(item);
                game_data.players[k].items.push(item);
                n = n + 1;
            }
        }
        assert(game_data.players@[k as int].items@ =~= start.players@[k as int].items@ + gift@);
        assert(forall|j: int| 0 <= j < game_data.players@.len() && j != k ==> game_data.players@[j] == iter_start[j]);
        assert(gift@.len() == if start.players@[k as int].lives > 0 {
            items_to_give(stage_num as nat, start.players@[k as int].items@.len())
        } else {
            0
        });
        let ghost gifts_before = gifts@;
        gifts.push(gift);
        assert(forall|j: int| 0 <= j < k ==> gifts@[j] == gifts_before[j]);
        assert(gifts@[k as int] == gift);
        k = k + 1;
        assert forall|j: int| 0 <= j < k implies {
            &&& same_identity(start.players@[j], #[trigger] game_data.players@[j])
            &&& game_data.players@[j].lives == start.players@[j].lives
            &&& game_data.players@[j].credits == start.players@[j].credits
            &&& game_data.players@[j].items@ == start.players@[j].items@ + gifts@[j]@
            &&& gifts@[j]@.len() == if start.players@[j].lives > 0 { items_to_give(stage_num as nat, start.players@[j].items@.len()) } else { 0 }
            &&& forall|i: int| 0 <= i < gifts@[j]@.len() ==> drawable(#[trigger] gifts@[j]@[i])
        } by {
            if j == k - 1 {
                assert(same_identity(start.players@[j], game_data.players@[j]));
                assert(game_data.players@[j].lives == start.players@[j].lives);
                assert(game_data.players@[j].items@ == start.players@[j].items@ + gifts@[j]@);
                assert(game_data.players@[j].credits == start.players@[j].credits);
                assert(gifts@[j]@.len() == if start.players@[j].lives > 0 { items_to_give(stage_num as nat, start.players@[j].items@.len()) } else { 0 });
                assert(forall|i: int| 0 <= i < gifts@[j]@.len() ==> drawable(#[trigger] gifts@[j]@[i]));
            } else {
                assert(game_data.players@[j] == iter_start[j]);
                assert(gifts@[j] == gifts_before[j]);
                assert(same_identity(start.players@[j], game_data.players@[j]));
                assert(game_data.players@[j].items@ == start.players@[j].items@ + gifts@[j]@);
            }
        }
    }
    gifts
}

/// What the start of a stage did: the items handed out for the first round,
/// per seat, and the first load of the buckshot.
pub struct StageStart {
    pub gifts: Vec<Vec<Item>>,
    pub reload: Option<ReloadReport>,
}

/// Gives every player the stage's lives and empty hands, and takes off
/// every pair of handcuffs.
fn reset_players(players: &mut Vec<Player>, lives: usize)
    ensures
        final(players)@.len() == old(players)@.len(),
        forall|k: int| 0 <= k < old(players)@.len() ==> {
            &&& (#[trigger] final(players)@[k]).name == old(players)@[k].name
            &&& final(players)@[k].password == old(players)@[k].password
            &&& final(players)@[k].is_resetting_password == old(players)@[k].is_resetting_password
            &&& final(players)@[k].credits == old(players)@[k].credits
            &&& final(players)@[k].items@.len() == 0
            &&& final(players)@[k].lives == lives
            &&& final(players)@[k].handcuffed_level == HandcuffedLevel::Uncuffed
        },
{
    let ghost start = players@;
    let mut k: usize = 0;
    while k < players.len()
        invariant
            k <= players@.len(),
            players@.len() == start.len(),
            forall|j: int| 0 <= j < start.len() ==> {
                &&& (#[trigger] players@[j]).name == start[j].name
                &&& players@[j].password == start[j].password
                &&& players@[j].is_resetting_password == start[j].is_resetting_password
                &&& players@[j].credits == start[j].credits
                &&& j < k ==> players@[j].lives == lives && players@[j].handcuffed_level == HandcuffedLevel::Uncuffed
                    && players@[j].items@.len() == 0
            },
        decreases players@.len() - k,
    {
        players[k].lives = lives;
        players[k].handcuffed_level = HandcuffedLevel::Uncuffed;
        players[k].items.clear();
        k = k + 1;
    }
}

/// Sets the table for a stage: the seating order is shuffled, everyone gets
/// the stage's lives, all items are removed and all handcuffs come off, the
/// first seat plays first, the first round's items are handed out, and the
/// buckshot is emptied and loaded afresh.
pub fn begin_stage(game_data: &mut GameData, stage_num: usize) -> (start: StageStart)
    requires
        stage_num <= 4,
        old(game_data).players@.len() > 0,
    ensures
        final(game_data).wf(),
        final(game_data).curr_player == 0,
        final(game_data).has_barrel_extension == old(game_data).has_barrel_extension,
        start.reload matches Some(r) && reload_result(stage_num as nat, r, final(game_data).buckshot@),
        !final(game_data).is_inverted,
        start.gifts@.len() == old(game_data).players@.len(),
        exists|order: Seq<Player>| {
            &&& #[trigger] order.to_multiset() == old(game_data).players@.to_multiset()
            &&& order.len() == old(game_data).players@.len()
            &&& final(game_data).players@.len() == order.len()
            &&& forall|k: int| 0 <= k < order.len() ==> {
                &&& (#[trigger] final(game_data).players@[k]).name == order[k].name
                &&& final(game_data).players@[k].password == order[k].password
                &&& final(game_data).players@[k].is_resetting_password == order[k].is_resetting_password
                &&& final(game_data).players@[k].credits == order[k].credits
                &&& final(game_data).players@[k].lives == stage_num + 1
                &&& final(game_data).players@[k].handcuffed_level == HandcuffedLevel::Uncuffed
                &&& final(game_data).players@[k].items@ == start.gifts@[k]@
                &&& start.gifts@[k]@.len() == stage_num + 1
                &&& forall|i: int| 0 <= i < start.gifts@[k]@.len() ==> drawable(#[trigger] start.gifts@[k]@[i])
            }
        },
{
    let lives = lives_for_stage(stage_num);
    let ghost original = game_data.players@;
    shuffle(&mut game_data.players);
    let ghost order = game_data.players@;
    reset_players(&mut game_data.players, lives);
    game_data.curr_player = 0;
    let ghost reset = game_data.players@;
    let gifts = give_items(game_data, stage_num);
    game_data.buckshot.clear();
    let reload = reload_buckshot_if_needed(game_data, stage_num);
    assert forall|k: int| 0 <= k < order.len() implies {
        &&& (#[trigger] game_data.players@[k]).name == order[k].name
        &&& game_data.players@[k].password == order[k].password
        &&& game_data.players@[k].is_resetting_password == order[k].is_resetting_password
        &&& game_data.players@[k].credits == order[k].credits
        &&& game_data.players@[k].lives == stage_num + 1
        &&& game_data.players@[k].handcuffed_level == HandcuffedLevel::Uncuffed
        &&& game_data.players@[k].items@ == gifts@[k]@
        &&& gifts@[k]@.len() == stage_num + 1
        &&& forall|i: int| 0 <= i < gifts@[k]@.len() ==> drawable(#[trigger] gifts@[k]@[i])
    } by {
        assert(reset[k].lives > 0);
        assert(reset[k].items@.len() == 0);
        assert(game_data.players@[k].items@ =~= reset[k].items@ + gifts@[k]@);
    }
    StageStart { gifts, reload }
}

/// Whether a stage goes on: while at least two players have lives.
pub fn stage_goes_on(game_data: &GameData) -> (goes_on: bool)
    ensures
        goes_on == (count_alive(game_data.players@) >= 2),
{
    game_data.count_alive_players() >= 2
}

/// Whether nobody after seat `from` has lives, so that passing the turn on
/// from there goes past the last seat and starts a new round.
pub open spec fn round_ends_after(players: Seq<Player>, from: int) -> bool {
    forall|s: int| from < s < players.len() ==> (#[trigger] players[s]).lives == 0
}

/// The seat `d` places after `from`, going round the table.
pub open spec fn seat_after(from: int, d: int, len: int) -> int {
    if from + d < len { from + d } else { from + d - len }
}

/// Passes the turn to the next player with lives, going round the table;
/// passing the last seat starts a new round, in which items are handed out.
/// Returns the items handed out, per seat, when a round started.
pub fn advance_turn(game_data: &mut GameData, stage_num: usize) -> (gifts: Option<Vec<Vec<Item>>>)
    requires
        old(game_data).wf(),
        count_alive(old(game_data).players@) >= 1,
        (stage_num + 1) * 2 <= usize::MAX,
        round_ends_after(old(game_data).players@, old(game_data).curr_player as int)
            ==> hands_within_limit(old(game_data).players@, stage_num as nat),
    ensures
        final(game_data).wf(),
        final(game_data).buckshot == old(game_data).buckshot,
        final(game_data).has_barrel_extension == old(game_data).has_barrel_extension,
        final(game_data).is_inverted == old(game_data).is_inverted,
        ({
            let len = old(game_data).players@.len() as int;
            let from = old(game_data).curr_player as int;
            exists|d: int| {
                &&& 1 <= d <= len
                &&& final(game_data).curr_player == #[trigger] seat_after(from, d, len)
                &&& old(game_data).players@[seat_after(from, d, len)].lives > 0
                &&& forall|e: int| 1 <= e < d ==> old(game_data).players@[#[trigger] seat_after(from, e, len)].lives == 0
                &&& (gifts is Some <==> from + d >= len)
            }
        }),
        match gifts {
            Some(g) => items_given(old(game_data).players@, final(game_data).players@, g@, stage_num as nat),
            None => final(game_data).players == old(game_data).players,
        },
{
    let ghost start = *game_data;
    let len = game_data.players.len();
    let from = game_data.curr_player;
    proof {
        lemma_alive_exists(start.players@);
    }
    let ghost alive_seat = choose|k: int| 0 <= k < start.players@.len() && #[trigger] start.players@[k].lives > 0;
    let ghost alive_d: int = if alive_seat > from { alive_seat - from } else { alive_seat - from + len };
    assert(seat_after(from as int, alive_d, len as int) == alive_seat);
    let mut gifts: Option<Vec<Vec<Item>>> = None;
    let mut d: usize = 1;
    let mut seat: usize = if from + 1 == len { 0 } else { from + 1 };
    if seat == 0 {
        gifts = Some(give_items(game_data, stage_num));
    }
    while game_data.players[seat].lives == 0
        invariant
            start == *old(game_data),
            len == start.players@.len(),
            from == start.curr_player,
            from < len,
            1 <= d <= alive_d <= len,
            seat == seat_after(from as int, d as int, len as int),
            start.players@[alive_seat].lives > 0,
            0 <= alive_seat < len,
            alive_d == if alive_seat > from { alive_seat - from } else { alive_seat - from + len },
            forall|e: int| 1 <= e < d ==> start.players@[#[trigger] seat_after(from as int, e, len as int)].lives == 0,
            (gifts is Some <==> from + d >= len),
            game_data.players@.len() == len,
            game_data.curr_player == from,
            game_data.buckshot == start.buckshot,
            game_data.has_barrel_extension == start.has_barrel_extension,
            game_data.is_inverted == start.is_inverted,
            forall|k: int| 0 <= k < len ==> (#[trigger] game_data.players@[k]).lives == start.players@[k].lives,
            (stage_num + 1) * 2 <= usize::MAX,
            round_ends_after(start.players@, from as int) ==> hands_within_limit(start.players@, stage_num as nat),
            match gifts {
                Some(g) => items_given(start.players@, game_data.players@, g@, stage_num as nat),
                None => game_data.players == start.players,
            },
        decreases len - d,
    {
        assert(d != alive_d);
        d = d + 1;
        if seat + 1 == len {
            assert forall|s: int| from < s < len implies (#[trigger] start.players@[s]).lives == 0 by {
                let e = s - from;
                assert(seat_after(from as int, e, len as int) == s);
            }
            seat = 0;
            gifts = Some(give_items(game_data, stage_num));
        } else {
            seat = seat + 1;
        }
    }
    game_data.curr_player = seat;
    assert(seat_after(from as int, d as int, len as int) == seat);
    gifts
}

/// Ends a stage: every hand is emptied, and every player with lives left
/// earns the stage's credits for a win. Returns the seats of those players.
pub fn end_stage(game_data: &mut GameData, stage_num: usize) -> (winners: Vec<usize>)
    requires
        stage_num * 10 <= usize::MAX,
        forall|k: int| 0 <= k < old(game_data).players@.len() && (#[trigger] old(game_data).players@[k]).lives > 0
            ==> old(game_data).players@[k].credits + stage_num * 10 <= usize::MAX,
    ensures
        final(game_data).curr_player == old(game_data).curr_player,
        final(game_data).buckshot == old(game_data).buckshot,
        final(game_data).has_barrel_extension == old(game_data).has_barrel_extension,
        final(game_data).is_inverted == old(game_data).is_inverted,
        final(game_data).players@.len() == old(game_data).players@.len(),
        winners@ == crate::rules::alive_seats(old(game_data).players@),
        forall|k: int| 0 <= k < old(game_data).players@.len() ==> {
            &&& same_identity(old(game_data).players@[k], #[trigger] final(game_data).players@[k])
            &&& final(game_data).players@[k].lives == old(game_data).players@[k].lives
            &&& final(game_data).players@[k].items@.len() == 0
            &&& final(game_data).players@[k].credits == old(game_data).players@[k].credits
                + if old(game_data).players@[k].lives > 0 { stage_num * 10 } else { 0 }
        },
{
    let ghost start = *game_data;
    let win = credits_per_win_for_stage(stage_num);
    let mut winners: Vec<usize> = Vec::new();
    let mut k: usize = 0;
    while k < game_data.players.len()
        invariant
            start == *old(game_data),
            win == stage_num * 10,
            k <= game_data.players@.len(),
            game_data.players@.len() == start.players@.len(),
            game_data.curr_player == start.curr_player,
            game_data.buckshot == start.buckshot,
            game_data.has_barrel_extension == start.has_barrel_extension,
            game_data.is_inverted == start.is_inverted,
            winners@ == crate::rules::alive_seats(start.players@.take(k as int)),
            forall|j: int| 0 <= j < start.players@.len() && (#[trigger] start.players@[j]).lives > 0
                ==> start.players@[j].credits + stage_num * 10 <= usize::MAX,
            forall|j: int| 0 <= j < start.players@.len() ==> if j < k {
                &&& same_identity(start.players@[j], #[trigger] game_data.players@[j])
                &&& game_data.players@[j].lives == start.players@[j].lives
                &&& game_data.players@[j].items@.len() == 0
                &&& game_data.players@[j].credits == start.players@[j].credits
                    + if start.players@[j].lives > 0 { stage_num * 10 } else { 0 }
            } else {
                game_data.players@[j] == start.players@[j]
            },
        decreases game_data.players@.len() - k,
    {
        assert(start.players@.take(k + 1).drop_last() =~= start.players@.take(k as int));
        assert(game_data.players@[k as int] == start.players@[k as int]);
        game_data.players[k].items.clear();
        if game_data.players[k].lives > 0 {
            game_data.players[k].credits = game_data.players[k].credits + win;
            winners.push(k);
        }
        k = k + 1;
    }
    assert(start.players@.take(k as int) =~= start.players@);
    winners
}

/// Whether seat `a` comes before seat `b` in the final standings: more
/// credits first, and between equal credits the later seat first.
pub open spec fn ranks_before(players: Seq<Player>, a: usize, b: usize) -> bool {
    players[a as int].credits > players[b as int].credits
        || (players[a as int].credits == players[b as int].credits && a > b)
}

/// The final standings: every seat once, most credits first, and between
/// equal credits the later seat first. The first seat is the winner.
pub fn final_standings(players: &Vec<Player>) -> (standings: Vec<usize>)
    ensures
        standings@.len() == players@.len(),
        forall|i: int| 0 <= i < standings@.len() ==> (#[trigger] standings@[i]) < players@.len(),
        forall|i: int, j: int| 0 <= i < j < standings@.len() ==> ranks_before(players@, #[trigger] standings@[i], #[trigger] standings@[j]),
{
    let mut standings: Vec<usize> = Vec::new();
    let mut k: usize = 0;
    while k < players.len()
        invariant
            k <= players@.len(),
            standings@.len() == k,
            forall|i: int| 0 <= i < standings@.len() ==> (#[trigger] standings@[i]) < k,
            forall|i: int, j: int| 0 <= i < j < standings@.len() ==> ranks_before(players@, #[trigger] standings@[i], #[trigger] standings@[j]),
        decreases players@.len() - k,
    {
        let credits = players[k].credits;
        let mut p: usize = 0;
        while p < standings.len() && players[standings[p]].credits > credits
            invariant
                p <= standings@.len(),
                k < players@.len(),
                credits == players@[k as int].credits,
                forall|i: int| 0 <= i < standings@.len() ==> (#[trigger] standings@[i]) < k,
                forall|j: int| 0 <= j < p ==> players@[(#[trigger] standings@[j]) as int].credits > credits,
            decreases standings@.len() - p,
        {
            p = p + 1;
        }
        let ghost before = standings@;
        standings.insert(p, k);
        proof {
            assert forall|a: int, b: int| 0 <= a < b < standings@.len() implies ranks_before(players@, #[trigger] standings@[a], #[trigger] standings@[b]) by {
                if b < p {
                    assert(standings@[a] == before[a] && standings@[b] == before[b]);
                } else if a < p && b == p {
                    assert(standings@[a] == before[a]);
                } else if a < p {
                    assert(standings@[a] == before[a] && standings@[b] == before[b - 1]);
                } else if a == p {
                    assert(standings@[b] == before[b - 1]);
                    assert(before[p as int] < k);
                    assert(players@[before[p as int] as int].credits <= credits);
                    if b - 1 > p {
                        assert(ranks_before(players@, before[p as int], before[b - 1]));
                    }
                } else {
                    assert(standings@[a] == before[a - 1] && standings@[b] == before[b - 1]);
                }
            }
        }
        k = k + 1;
    }
    standings
}

} // verus!
