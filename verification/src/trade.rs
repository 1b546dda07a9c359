//! Trading items between two players.
use crate::data::{GameData, Item, Player};
use crate::rules::same_identity;
use crate::settings::get_item_rarity;
use vstd::prelude::*;

verus! {

/// The items of `items` whose flag is off, in order.
pub open spec fn kept_items(items: Seq<Item>, flags: Seq<bool>) -> Seq<Item>
    decreases items.len(),
{
    if items.len() == 0 {
        Seq::empty()
    } else if flags[0] {
        kept_items(items.drop_first(), flags.drop_first())
    } else {
        seq![items[0]] + kept_items(items.drop_first(), flags.drop_first())
    }
}

/// The items of `items` whose flag is on, in order.
pub open spec fn traded_items(items: Seq<Item>, flags: Seq<bool>) -> Seq<Item>
    decreases items.len(),
{
    if items.len() == 0 {
        Seq::empty()
    } else if flags[0] {
        seq![items[0]] + traded_items(items.drop_first(), flags.drop_first())
    } else {
        traded_items(items.drop_first(), flags.drop_first())
    }
}

/// The seats the current player can trade with: players with lives left
/// whose name differs from the current player's.
pub open spec fn partner_seats(players: Seq<Player>, me: int, n: nat) -> Seq<usize>
    decreases n,
{
    if n == 0 {
        Seq::empty()
    } else {
        let rest = partner_seats(players, me, (n - 1) as nat);
        if players[n - 1].lives > 0 && players[n - 1].name@ != players[me].name@ {
            rest.push((n - 1) as usize)
        } else {
            rest
        }
    }
}

/// The seats the current player can trade with.
pub fn trade_partners(game_data: &GameData) -> (seats: Vec<usize>)
    requires
        game_data.wf(),
    ensures
        seats@ == partner_seats(game_data.players@, game_data.curr_player as int, game_data.players@.len()),
{
    let me = game_data.curr_player;
    let mut seats: Vec<usize> = Vec::new();
    let mut k: usize = 0;
    while k < game_data.players.len()
        invariant
            game_data.wf(),
            me == game_data.curr_player,
            k <= game_data.players@.len(),
            seats@ == partner_seats(game_data.players@, me as int, k as nat),
        decreases game_data.players@.len() - k,
    {
        if game_data.players[k].lives > 0 && !(game_data.players[k].name == game_data.players[me].name) {
            seats.push(k);
        }
        k = k + 1;
    }
    seats
}

/// Flips whether the item numbered `number` (counting from 1) is part of the
/// trade. Returns `false`, changing nothing, when there is no such item.
pub fn toggle_trade_item(flags: &mut Vec<bool>, number: usize) -> (toggled: bool)
    requires
        number >= 1,
    ensures
        toggled == (number <= old(flags)@.len()),
        toggled ==> final(flags)@ == old(flags)@.update(number - 1, !old(flags)@[number - 1]),
        !toggled ==> final(flags)@ == old(flags)@,
{
    let index = number - 1;
    if index >= flags.len() {
        return false;
    }
    let flag = flags[index];
    flags.set(index, !flag);
    true
}

/// One step of the first half of a trade: moving the flagged items of the
/// suffix starting at `i` from one hand to the end of another.
proof fn lemma_split_step(items: Seq<Item>, flags: Seq<bool>, i: int)
    requires
        0 <= i < items.len(),
        flags.len() == items.len(),
    ensures
        items.skip(i).drop_first() == items.skip(i + 1),
        flags.skip(i).drop_first() == flags.skip(i + 1),
        items.skip(i)[0] == items[i],
        flags.skip(i)[0] == flags[i],
{
    assert(items.skip(i).drop_first() =~= items.skip(i + 1));
    assert(flags.skip(i).drop_first() =~= flags.skip(i + 1));
}

/// Moves the flagged items of one hand to the end of the other, the last
/// flagged item first.
fn move_flagged(players: &mut Vec<Player>, from: usize, to: usize, flags: &Vec<bool>)
    requires
        from < old(players)@.len(),
        to < old(players)@.len(),
        from != to,
        flags@.len() == old(players)@[from as int].items@.len(),
    ensures
        final(players)@.len() == old(players)@.len(),
        final(players)@[from as int].items@ == kept_items(old(players)@[from as int].items@, flags@),
        final(players)@[to as int].items@ == old(players)@[to as int].items@
            + traded_items(old(players)@[from as int].items@, flags@).reverse(),
        same_identity(old(players)@[from as int], final(players)@[from as int]),
        same_identity(old(players)@[to as int], final(players)@[to as int]),
        final(players)@[from as int].lives == old(players)@[from as int].lives,
        final(players)@[from as int].credits == old(players)@[from as int].credits,
        final(players)@[to as int].lives == old(players)@[to as int].lives,
        final(players)@[to as int].credits == old(players)@[to as int].credits,
        forall|k: int| 0 <= k < old(players)@.len() && k != from && k != to ==> final(players)@[k] == old(players)@[k],
{
    let ghost start = *players;
    let ghost source = start@[from as int].items@;
    let ghost target = start@[to as int].items@;
    let mut i = flags.len();
    assert(source.skip(source.len() as int) =~= Seq::<Item>::empty());
    assert(source.take(source.len() as int) =~= source);
    while i > 0
        invariant
            i <= flags@.len(),
            flags@.len() == source.len(),
            source == start@[from as int].items@,
            target == start@[to as int].items@,
            from < start@.len(),
            to < start@.len(),
            from != to,
            players@.len() == start@.len(),
            players@[from as int].items@ == source.take(i as int) + kept_items(source.skip(i as int), flags@.skip(i as int)),
            players@[to as int].items@ == target + traded_items(source.skip(i as int), flags@.skip(i as int)).reverse(),
            same_identity(start@[from as int], players@[from as int]),
            same_identity(start@[to as int], players@[to as int]),
            players@[from as int].lives == start@[from as int].lives,
            players@[from as int].credits == start@[from as int].credits,
            players@[to as int].lives == start@[to as int].lives,
            players@[to as int].credits == start@[to as int].credits,
            forall|k: int| 0 <= k < start@.len() && k != from && k != to ==> players@[k] == start@[k],
        decreases i,
    {
        i = i - 1;
        proof {
            lemma_split_step(source, flags@, i as int);
        }
        if flags[i] {
            let item = players[from].items.remove(i);
            players[to].items.push(item);
            proof {
                let t = traded_items(source.skip(i + 1), flags@.skip(i + 1));
                assert(traded_items(source.skip(i as int), flags@.skip(i as int)) == seq![source[i as int]] + t);
                assert((seq![source[i as int]] + t).reverse() =~= t.reverse().push(source[i as int]));
                assert(source.take(i + 1).remove(i as int) =~= source.take(i as int));
                assert(players@[from as int].items@ =~= source.take(i as int) + kept_items(source.skip(i as int), flags@.skip(i as int)));
            }
        } else {
            proof {
                let k = kept_items(source.skip(i + 1), flags@.skip(i + 1));
                assert(kept_items(source.skip(i as int), flags@.skip(i as int)) == seq![source[i as int]] + k);
                assert(source.take(i + 1) =~= source.take(i as int) + seq![source[i as int]]);
                assert(players@[from as int].items@ =~= source.take(i as int) + kept_items(source.skip(i as int), flags@.skip(i as int)));
            }
        }
    }
    assert(source.take(0) =~= Seq::<Item>::empty());
    assert(source.skip(0) =~= source);
    assert(flags@.skip(0) =~= flags@);
    assert(players@[from as int].items@ =~= kept_items(source, flags@));
}

/// Carries out an agreed trade between the current player and the player in
/// seat `other`: the current player's flagged items go to the other player,
/// then the other player's flagged items go to the current player; each
/// receives the items at the end of their hand, last flagged item first.
pub fn execute_trade(game_data: &mut GameData, other: usize, curr_flags: &Vec<bool>, other_flags: &Vec<bool>)
    requires
        old(game_data).wf(),
        other < old(game_data).players@.len(),
        other != old(game_data).curr_player,
        curr_flags@.len() == old(game_data).players@[old(game_data).curr_player as int].items@.len(),
        other_flags@.len() == old(game_data).players@[other as int].items@.len(),
    ensures
        ({
            let me = old(game_data).curr_player as int;
            let mine = old(game_data).players@[me].items@;
            let theirs = old(game_data).players@[other as int].items@;
            &&& final(game_data).curr_player == old(game_data).curr_player
            &&& final(game_data).buckshot == old(game_data).buckshot
            &&& final(game_data).has_barrel_extension == old(game_data).has_barrel_extension
            &&& final(game_data).is_inverted == old(game_data).is_inverted
            &&& final(game_data).players@.len() == old(game_data).players@.len()
            &&& final(game_data).players@[me].items@ == kept_items(mine, curr_flags@)
                + traded_items(theirs, other_flags@).reverse()
            &&& final(game_data).players@[other as int].items@ == kept_items(theirs, other_flags@)
                + traded_items(mine, curr_flags@).reverse()
            &&& same_identity(old(game_data).players@[me], final(game_data).players@[me])
            &&& same_identity(old(game_data).players@[other as int], final(game_data).players@[other as int])
            &&& final(game_data).players@[me].lives == old(game_data).players@[me].lives
            &&& final(game_data).players@[me].credits == old(game_data).players@[me].credits
            &&& final(game_data).players@[other as int].lives == old(game_data).players@[other as int].lives
            &&& final(game_data).players@[other as int].credits == old(game_data).players@[other as int].credits
            &&& forall|k: int| 0 <= k < old(game_data).players@.len() && k != me && k != other
                ==> final(game_data).players@[k] == old(game_data).players@[k]
        }),
{
    let me = game_data.curr_player;
    let ghost start = *game_data;
    let ghost theirs = game_data.players@[other as int].items@;
    move_flagged(&mut game_data.players, me, other, curr_flags);
    let ghost middle = game_data.players@;
    assert(middle[other as int].items@.take(other_flags@.len() as int) =~= theirs);
    move_flagged_prefix(&mut game_data.players, other, me, other_flags);
}

/// Like `move_flagged`, where the flags cover only the first items of the
/// source hand, whose later items stay at its end.
fn move_flagged_prefix(players: &mut Vec<Player>, from: usize, to: usize, flags: &Vec<bool>)
    requires
        from < old(players)@.len(),
        to < old(players)@.len(),
        from != to,
        flags@.len() <= old(players)@[from as int].items@.len(),
    ensures
        ({
            let source = old(players)@[from as int].items@;
            let n = flags@.len() as int;
            &&& final(players)@.len() == old(players)@.len()
            &&& final(players)@[from as int].items@ == kept_items(source.take(n), flags@) + source.skip(n)
            &&& final(players)@[to as int].items@ == old(players)@[to as int].items@
                + traded_items(source.take(n), flags@).reverse()
            &&& same_identity(old(players)@[from as int], final(players)@[from as int])
            &&& same_identity(old(players)@[to as int], final(players)@[to as int])
            &&& final(players)@[from as int].lives == old(players)@[from as int].lives
            &&& final(players)@[from as int].credits == old(players)@[from as int].credits
            &&& final(players)@[to as int].lives == old(players)@[to as int].lives
            &&& final(players)@[to as int].credits == old(players)@[to as int].credits
            &&& forall|k: int| 0 <= k < old(players)@.len() && k != from && k != to ==> final(players)@[k] == old(players)@[k]
        }),
{
    let ghost start = *players;
    let ghost whole = start@[from as int].items@;
    let ghost n = flags@.len() as int;
    let ghost source = whole.take(n);
    let ghost tail = whole.skip(n);
    let ghost target = start@[to as int].items@;
    let mut i = flags.len();
    assert(source.skip(n) =~= Seq::<Item>::empty());
    assert(whole =~= source.take(n) + tail);
    while i > 0
        invariant
            i <= flags@.len(),
            n == flags@.len(),
            source.len() == n,
            source == whole.take(n),
            tail == whole.skip(n),
            whole == start@[from as int].items@,
            target == start@[to as int].items@,
            n <= whole.len(),
            from < start@.len(),
            to < start@.len(),
            from != to,
            players@.len() == start@.len(),
            players@[from as int].items@ == source.take(i as int) + kept_items(source.skip(i as int), flags@.skip(i as int)) + tail,
            players@[to as int].items@ == target + traded_items(source.skip(i as int), flags@.skip(i as int)).reverse(),
            same_identity(start@[from as int], players@[from as int]),
            same_identity(start@[to as int], players@[to as int]),
            players@[from as int].lives == start@[from as int].lives,
            players@[from as int].credits == start@[from as int].credits,
            players@[to as int].lives == start@[to as int].lives,
            players@[to as int].credits == start@[to as int].credits,
            forall|k: int| 0 <= k < start@.len() && k != from && k != to ==> players@[k] == start@[k],
        decreases i,
    {
        i = i - 1;
        proof {
            lemma_split_step(source, flags@, i as int);
            assert(source.take(i + 1)[i as int] == source[i as int]);
        }
        if flags[i] {
            let item = players[from].items.remove(i);
            players[to].items.push(item);
            proof {
                let t = traded_items(source.skip(i + 1), flags@.skip(i + 1));
                assert(traded_items(source.skip(i as int), flags@.skip(i as int)) == seq![source[i as int]] + t);
                assert((seq![source[i as int]] + t).reverse() =~= t.reverse().push(source[i as int]));
                assert(players@[from as int].items@ =~= source.take(i as int) + kept_items(source.skip(i as int), flags@.skip(i as int)) + tail);
            }
        } else {
            proof {
                let k = kept_items(source.skip(i + 1), flags@.skip(i + 1));
                assert(kept_items(source.skip(i as int), flags@.skip(i as int)) == seq![source[i as int]] + k);
                assert(players@[from as int].items@ =~= source.take(i as int) + kept_items(source.skip(i as int), flags@.skip(i as int)) + tail);
            }
        }
    }
    assert(source.take(0) =~= Seq::<Item>::empty());
    assert(source.skip(0) =~= source);
    assert(flags@.skip(0) =~= flags@);
    assert(players@[from as int].items@ =~= kept_items(source, flags@) + tail);
}

/// What the House thinks an item is worth, in thirds: the inverse of its
/// weight in a random draw (common 1, uncommon 5/3, rare 10/3).
pub open spec fn item_worth(item: Item) -> nat {
    let weight = crate::data::rarity(item);
    if weight == 10 {
        3
    } else if weight == 6 {
        5
    } else {
        10
    }
}

/// The House's running value of the flagged items among the first `n`: each
/// flagged item adds its worth, and each item left out of the trade starts
/// the count again from zero.
pub open spec fn trade_value(items: Seq<Item>, flags: Seq<bool>, n: nat) -> nat
    decreases n,
{
    if n == 0 {
        0
    } else if !flags[n - 1] {
        0
    } else {
        trade_value(items, flags, (n - 1) as nat) + item_worth(items[n - 1])
    }
}

/// The House's value of the flagged items of a hand, in thirds of a
/// common item (see `trade_value`).
pub fn house_trade_value(items: &Vec<Item>, flags: &Vec<bool>) -> (value: u128)
    requires
        forall|i: int| 0 <= i < flags@.len() && flags@[i] ==> i < items@.len(),
    ensures
        value == trade_value(items@, flags@, flags@.len() as nat),
        value <= 10 * flags@.len(),
{
    let mut value: u128 = 0;
    let mut i: usize = 0;
    while i < flags.len()
        invariant
            i <= flags@.len(),
            forall|j: int| 0 <= j < flags@.len() && flags@[j] ==> j < items@.len(),
            value == trade_value(items@, flags@, i as nat),
            value <= 10 * i,
        decreases flags@.len() - i,
    {
        if !flags[i] {
            value = 0;
        } else {
            let weight = get_item_rarity(items[i]);
            let worth: u128 = if weight == 10 { 3 } else if weight == 6 { 5 } else { 10 };
            value = value + worth;
        }
        i = i + 1;
    }
    value
}

/// Whether the House, as the player in seat `house`, agrees to a trade with
/// the player in seat `other`: the House values each side's flagged items
/// with `house_trade_value` and agrees when what it gets is worth more than
/// 95% of what it gives. The House's own side is valued on the hand of the
/// player whose turn it is, with the flags of the House's side.
pub fn house_accepts_trade(
    game_data: &GameData,
    other: usize,
    house_flags: &Vec<bool>,
    other_flags: &Vec<bool>,
) -> (accepts: bool)
    requires
        game_data.wf(),
        other < game_data.players@.len(),
        forall|i: int| 0 <= i < house_flags@.len() && house_flags@[i]
            ==> i < game_data.players@[game_data.curr_player as int].items@.len(),
        forall|i: int| 0 <= i < other_flags@.len() && other_flags@[i]
            ==> i < game_data.players@[other as int].items@.len(),
    ensures
        ({
            let given = trade_value(game_data.players@[game_data.curr_player as int].items@, house_flags@, house_flags@.len() as nat);
            let got = trade_value(game_data.players@[other as int].items@, other_flags@, other_flags@.len() as nat);
            accepts == (20 * got > 19 * given)
        }),
{
    let given = house_trade_value(&game_data.players[game_data.curr_player].items, house_flags);
    let got = house_trade_value(&game_data.players[other].items, other_flags);
    assert(got <= 10 * other_flags@.len() && given <= 10 * house_flags@.len());
    let other_count = other_flags.len();
    let house_count = house_flags.len();
    assert(other_count <= 0xffff_ffff_ffff_ffffu128 && house_count <= 0xffff_ffff_ffff_ffffu128);
    assert(got <= 10 * 0xffff_ffff_ffff_ffffu128);
    assert(given <= 10 * 0xffff_ffff_ffff_ffffu128);
    let got20 = got * 20;
    let given19 = given * 19;
    got20 > given19
}

} // verus!
