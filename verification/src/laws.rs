//! Properties of the game that hold across its operations.
use crate::data::{
    all_items, count_alive, count_true, item_aliases, item_at_roll, item_name, known_shells, rarity, total_rarity, HandcuffedLevel,
    Item, Player,
};
use crate::rules::{cuffs_after_turn_start, turn_start_for, TurnStart};
use crate::house::{house_life_change, house_life_changes, lives_follow_events, HouseEvent};
use crate::input::{menu_actions, number_word, trade_command_spec, TradeCommand, TurnAction};
use crate::items::{medicine_effect, medicine_heals_on, ItemEffect, MEDICINE_DRAWS};
use crate::items::lemma_first_position;
use crate::shells::{live_count_for_roll, reload_result, ReloadReport};
use crate::stage::{hands_within_limit, items_given};
use crate::text::{decimal_value, fold_case, fold_case_char, lowered, split_on, trimmed};
use crate::trade::{kept_items, traded_items};
use crate::turn::{
    after_ticket, after_trade, flow_after_item_spec, flow_after_shot_spec, ticket_offer, TurnFlow, TurnState,
};
use vstd::multiset::Multiset;
use vstd::prelude::*;

verus! {

/// Using an inverter does not change the numbers of live and blank shells
/// the players are told: the next shell is flipped and the inverter's mark
/// is flipped with it, so the known shells stay as they were.
pub proof fn law_inverter_keeps_known_counts(buckshot: Seq<bool>, is_inverted: bool)
    requires
        buckshot.len() > 0,
    ensures
        count_true(known_shells(buckshot.update(buckshot.len() - 1, !buckshot.last()), !is_inverted))
            == count_true(known_shells(buckshot, is_inverted)),
{
    let flipped = buckshot.update(buckshot.len() - 1, !buckshot.last());
    if !is_inverted {
        assert(known_shells(flipped, true) =~= buckshot);
    } else {
        assert(known_shells(buckshot, true) =~= flipped);
    }
}

/// The items a hand keeps and the items it trades away are, together, the
/// items it held.
proof fn lemma_kept_and_traded(items: Seq<Item>, flags: Seq<bool>)
    requires
        flags.len() == items.len(),
    ensures
        kept_items(items, flags).to_multiset().add(traded_items(items, flags).to_multiset()) == items.to_multiset(),
    decreases items.len(),
{
    broadcast use vstd::multiset::group_multiset_axioms;
    broadcast use vstd::seq_lib::group_to_multiset_ensures;
    if items.len() == 0 {
        assert(kept_items(items, flags) =~= Seq::<Item>::empty());
        assert(traded_items(items, flags) =~= Seq::<Item>::empty());
        assert(items.to_multiset() =~= Multiset::empty());
        assert(Seq::<Item>::empty().to_multiset() =~= Multiset::empty());
    } else {
        let rest = items.drop_first();
        lemma_kept_and_traded(rest, flags.drop_first());
        vstd::seq_lib::lemma_multiset_commutative(seq![items[0]], rest);
        assert(seq![items[0]] + rest =~= items);
        let k = kept_items(rest, flags.drop_first());
        let t = traded_items(rest, flags.drop_first());
        vstd::seq_lib::lemma_multiset_commutative(seq![items[0]], k);
        vstd::seq_lib::lemma_multiset_commutative(seq![items[0]], t);
        assert(seq![items[0]].to_multiset() =~= Multiset::empty().insert(items[0])) by {
            assert(seq![items[0]] =~= Seq::<Item>::empty().push(items[0]));
            assert(Seq::<Item>::empty().to_multiset() =~= Multiset::empty());
        }
    }
}

/// A trade moves items between two hands and loses or creates none: the
/// two hands after `execute_trade` hold, together, exactly the items they
/// held before.
pub proof fn law_trade_keeps_items(mine: Seq<Item>, theirs: Seq<Item>, my_flags: Seq<bool>, their_flags: Seq<bool>)
    requires
        my_flags.len() == mine.len(),
        their_flags.len() == theirs.len(),
    ensures
        ((kept_items(mine, my_flags) + traded_items(theirs, their_flags).reverse())
            + (kept_items(theirs, their_flags) + traded_items(mine, my_flags).reverse())).to_multiset()
            == (mine + theirs).to_multiset(),
{
    broadcast use vstd::multiset::group_multiset_axioms;
    let km = kept_items(mine, my_flags);
    let tm = traded_items(mine, my_flags);
    let kt = kept_items(theirs, their_flags);
    let tt = traded_items(theirs, their_flags);
    lemma_kept_and_traded(mine, my_flags);
    lemma_kept_and_traded(theirs, their_flags);
    tm.lemma_reverse_to_multiset();
    tt.lemma_reverse_to_multiset();
    vstd::seq_lib::lemma_multiset_commutative(km + tt.reverse(), kt + tm.reverse());
    vstd::seq_lib::lemma_multiset_commutative(km, tt.reverse());
    vstd::seq_lib::lemma_multiset_commutative(kt, tm.reverse());
    vstd::seq_lib::lemma_multiset_commutative(mine, theirs);
    assert(((km + tt.reverse()) + (kt + tm.reverse())).to_multiset() =~= (mine + theirs).to_multiset());
}

/// A reload puts in a live share of 40% to 60%, rounded to whole shells:
/// the live count is within half a shell of a share in that range, and
/// never more than the shells loaded.
pub proof fn law_reload_live_share(stage_num: nat, report: ReloadReport, shells: Seq<bool>)
    requires
        reload_result(stage_num, report, shells),
    ensures
        ({
            let n = report.live_count + report.blank_count;
            &&& 100 * report.live_count + 50 >= 40 * n
            &&& 100 * report.live_count < 60 * n + 50
            &&& count_true(shells) == report.live_count
            &&& shells.len() == n
        }),
{
    let n = report.live_count + report.blank_count;
    if n > 0 {
        let roll = choose|roll: nat| roll < 20 * n && report.live_count == #[trigger] live_count_for_roll(n as nat, 40, roll);
        let x = 40 * n + roll + 50;
        assert(report.live_count == x / 100);
        assert(100 * (x / 100) <= x && x < 100 * (x / 100) + 100) by (nonlinear_arith)
            requires
                x >= 0,
        ;
    }
}

/// Handing out a round's items never takes a living player's hand past the
/// stage's most.
pub proof fn law_items_within_limit(before: Seq<Player>, after: Seq<Player>, gifts: Seq<Vec<Item>>, stage_num: nat)
    requires
        items_given(before, after, gifts, stage_num),
        hands_within_limit(before, stage_num),
    ensures
        hands_within_limit(after, stage_num),
{
    assert forall|k: int| 0 <= k < after.len() && (#[trigger] after[k]).lives > 0 implies after[k].items@.len() <= (stage_num + 1) * 2 by {
        assert(before[k].lives > 0);
        assert(before[k].items@.len() <= (stage_num + 1) * 2);
    }
}

/// A player trades at most once per turn: once a trade went through, the
/// menu no longer offers trading, whatever the player holds, and the ticket
/// is left as it was.
pub proof fn law_one_trade_per_turn(state: TurnState, has_items: bool)
    ensures
        !menu_actions(has_items, after_trade(state).can_trade).contains(TurnAction::Trade),
        after_trade(state).can_use_ticket == state.can_use_ticket,
{
    let menu = menu_actions(has_items, false);
    assert forall|i: int| 0 <= i < menu.len() implies menu[i] != TurnAction::Trade by {
        if has_items {
            assert(menu =~= seq![TurnAction::Shoot, TurnAction::UseItem]);
        } else {
            assert(menu =~= seq![TurnAction::Shoot]);
        }
    }
}

/// An unknown ticket restarts a turn once: after it is used, trading is
/// offered again, and no ticket is offered any more in that turn, whatever
/// the player holds.
pub proof fn law_ticket_restarts_turn_once(state: TurnState, player: Player, has_items: bool)
    ensures
        menu_actions(has_items, after_ticket(state).can_trade).contains(TurnAction::Trade),
        ticket_offer(after_ticket(state), player) is None,
{
    let menu = menu_actions(has_items, true);
    if has_items {
        assert(menu =~= seq![TurnAction::Shoot, TurnAction::UseItem, TurnAction::Trade]);
        assert(menu[2] == TurnAction::Trade);
    } else {
        assert(menu =~= seq![TurnAction::Shoot, TurnAction::Trade]);
        assert(menu[1] == TurnAction::Trade);
    }
}

/// A ticket is offered only to a player with lives, and what is offered is
/// an unknown ticket in the player's hand.
pub proof fn law_ticket_offer_is_a_ticket(state: TurnState, player: Player)
    ensures
        ticket_offer(state, player) matches Some(i) ==> {
            &&& player.lives > 0
            &&& state.can_use_ticket
            &&& i < player.items@.len()
            &&& player.items@[i as int] == Item::UnknownTicket
        },
{
    lemma_first_position(player.items@, Item::UnknownTicket);
}

/// Handcuffs skip a player's next turn, and only that one: a freshly
/// handcuffed player skips the turn, plays the turn after, and is free of
/// handcuffs from then on.
pub proof fn law_handcuffs_skip_one_turn()
    ensures
        turn_start_for(HandcuffedLevel::NewlyHandcuffed) == TurnStart::Skips,
        turn_start_for(cuffs_after_turn_start(HandcuffedLevel::NewlyHandcuffed)) != TurnStart::Skips,
        cuffs_after_turn_start(cuffs_after_turn_start(HandcuffedLevel::NewlyHandcuffed)) == HandcuffedLevel::Uncuffed,
        forall|level: HandcuffedLevel| #[trigger] turn_start_for(level) == TurnStart::Skips
            ==> level == HandcuffedLevel::NewlyHandcuffed,
{
}

/// Whenever the buckshot is emptied in a stage it is refilled: a reload in
/// stages 1 to 4 loads at least two shells per stage number, and at most
/// eight.
pub proof fn law_reload_refills(stage_num: nat, report: ReloadReport, shells: Seq<bool>)
    requires
        1 <= stage_num <= 4,
        reload_result(stage_num, report, shells),
    ensures
        2 * stage_num <= shells.len() <= 8,
{
}

/// The names an item is chosen by in a menu: its display name, then its
/// short names.
pub open spec fn menu_names(item: Item) -> Seq<Seq<char>> {
    seq![item_name(item)] + item_aliases(item)
}

/// The case-folded character of a name at a position, a space past its end.
spec fn folded_at(name: Seq<char>, k: int) -> char {
    if 0 <= k < name.len() { fold_case_char(name[k]) } else { ' ' }
}

/// Names that differ in length or in a case-folded character differ once
/// folded.
proof fn lemma_folds_differ(s: Seq<char>, t: Seq<char>, k: int)
    requires
        s.len() != t.len() || folded_at(s, k) != folded_at(t, k),
    ensures
        fold_case(s) != fold_case(t),
{
    assert(fold_case(s).len() == s.len());
    assert(fold_case(t).len() == t.len());
    if s.len() == t.len() {
        assert(0 <= k < s.len());
        assert(fold_case(s)[k] == fold_case_char(s[k]));
        assert(fold_case(t)[k] == fold_case_char(t[k]));
    }
}

/// Names that differ in length, or in a case-folded character among the
/// first, second and fourth, differ once folded.
proof fn lemma_names_differ(s: Seq<char>, t: Seq<char>)
    requires
        s.len() != t.len() || folded_at(s, 0) != folded_at(t, 0) || folded_at(s, 1) != folded_at(t, 1)
            || folded_at(s, 3) != folded_at(t, 3),
    ensures
        fold_case(s) != fold_case(t),
{
    if s.len() != t.len() || folded_at(s, 0) != folded_at(t, 0) {
        lemma_folds_differ(s, t, 0);
    } else if folded_at(s, 1) != folded_at(t, 1) {
        lemma_folds_differ(s, t, 1);
    } else {
        lemma_folds_differ(s, t, 3);
    }
}

/// A typed name picks one kind of item: the menu names of two different
/// items never coincide, even ignoring the case of ASCII letters.
pub proof fn law_menu_names_distinct(a: Item, b: Item, x: int, y: int)
    requires
        a != b,
        0 <= x < menu_names(a).len(),
        0 <= y < menu_names(b).len(),
    ensures
        fold_case(menu_names(a)[x]) != fold_case(menu_names(b)[y]),
{
    reveal_strlit("Cigarettes");
    reveal_strlit("c");
    reveal_strlit("cig");
    reveal_strlit("Expired Medicine");
    reveal_strlit("e");
    reveal_strlit("exp");
    reveal_strlit("Magnifying Glass");
    reveal_strlit("m");
    reveal_strlit("magn");
    reveal_strlit("Beer");
    reveal_strlit("ber");
    reveal_strlit("Barrel Extension");
    reveal_strlit("b");
    reveal_strlit("bar");
    reveal_strlit("Magazine");
    reveal_strlit("maga");
    reveal_strlit("Handcuffs");
    reveal_strlit("h");
    reveal_strlit("hand");
    reveal_strlit("Unknown Ticket");
    reveal_strlit("u");
    reveal_strlit("unk");
    reveal_strlit("Live Shell");
    reveal_strlit("l");
    reveal_strlit("liv");
    reveal_strlit("Blank Shell");
    reveal_strlit("bla");
    reveal_strlit("Gold Shell");
    reveal_strlit("g");
    reveal_strlit("gol");
    reveal_strlit("Inverter");
    reveal_strlit("i");
    reveal_strlit("inv");
    let s = menu_names(a)[x];
    let t = menu_names(b)[y];
    assert(s.len() != t.len() || folded_at(s, 0) != folded_at(t, 0) || folded_at(s, 1) != folded_at(t, 1)
        || folded_at(s, 3) != folded_at(t, 3));
    lemma_names_differ(s, t);
}


/// One step of walking the items for a roll: the roll lands on the first
/// item when it is below its weight, and is walked on past it otherwise.
proof fn lemma_roll_step(items: Seq<Item>, roll: nat)
    requires
        items.len() > 1,
    ensures
        item_at_roll(items, roll) == if roll < rarity(items[0]) {
            items[0]
        } else {
            item_at_roll(items.drop_first(), (roll - rarity(items[0])) as nat)
        },
{
}

/// The items as a draw walks them, from the `k`-th on.
proof fn lemma_items_from(k: int)
    requires
        0 <= k < 12,
    ensures
        all_items().skip(k).len() == 12 - k,
        all_items().skip(k)[0] == all_items()[k],
        k < 11 ==> all_items().skip(k).drop_first() =~= all_items().skip(k + 1),
{
}

/// Every item's weight in a draw, in tenths, follows its rarity: common items
/// (expired medicine, beer, live shells, inverters) weigh ten; uncommon ones
/// (cigarettes, magnifying glasses, barrel extensions, magazines, blank
/// shells) six; rare ones (handcuffs, unknown tickets, gold shells) three.
/// The weights add up to 79.
pub proof fn law_item_rarities()
    ensures
        rarity(Item::Cigarettes) == 6,
        rarity(Item::ExpiredMedicine) == 10,
        rarity(Item::MagnifyingGlass) == 6,
        rarity(Item::Beer) == 10,
        rarity(Item::BarrelExtension) == 6,
        rarity(Item::Magazine) == 6,
        rarity(Item::Handcuffs) == 3,
        rarity(Item::UnknownTicket) == 3,
        rarity(Item::LiveShell) == 10,
        rarity(Item::BlankShell) == 6,
        rarity(Item::GoldShell) == 3,
        rarity(Item::Inverter) == 10,
        total_rarity(all_items()) == 79,
{
    assert(all_items().skip(0) =~= all_items());
    lemma_items_from(0);
    lemma_items_from(1);
    lemma_items_from(2);
    lemma_items_from(3);
    lemma_items_from(4);
    lemma_items_from(5);
    lemma_items_from(6);
    lemma_items_from(7);
    lemma_items_from(8);
    lemma_items_from(9);
    lemma_items_from(10);
    lemma_items_from(11);
    assert(all_items().skip(12) =~= Seq::<Item>::empty());
    assert(all_items().skip(11).drop_first() =~= Seq::<Item>::empty());
    assert(total_rarity(Seq::<Item>::empty()) == 0);
    assert(total_rarity(all_items().skip(11)) == 10);
    assert(total_rarity(all_items().skip(10)) == 13);
    assert(total_rarity(all_items().skip(9)) == 19);
    assert(total_rarity(all_items().skip(8)) == 29);
    assert(total_rarity(all_items().skip(7)) == 32);
    assert(total_rarity(all_items().skip(6)) == 35);
    assert(total_rarity(all_items().skip(5)) == 41);
    assert(total_rarity(all_items().skip(4)) == 47);
    assert(total_rarity(all_items().skip(3)) == 57);
    assert(total_rarity(all_items().skip(2)) == 63);
    assert(total_rarity(all_items().skip(1)) == 73);
    assert(total_rarity(all_items().skip(0)) == 79);
}

/// Which item a roll of the draw lands on: the items laid end to end in
/// their draw order, each as long as its weight, so that rolls 50 to 59 give
/// a live shell, for instance.
pub proof fn law_rolls_pick_items(roll: nat)
    requires
        roll < 79,
    ensures
        0 <= roll < 6 ==> item_at_roll(all_items(), roll) == Item::Cigarettes,
        6 <= roll < 16 ==> item_at_roll(all_items(), roll) == Item::ExpiredMedicine,
        16 <= roll < 22 ==> item_at_roll(all_items(), roll) == Item::MagnifyingGlass,
        22 <= roll < 32 ==> item_at_roll(all_items(), roll) == Item::Beer,
        32 <= roll < 38 ==> item_at_roll(all_items(), roll) == Item::BarrelExtension,
        38 <= roll < 44 ==> item_at_roll(all_items(), roll) == Item::Magazine,
        44 <= roll < 47 ==> item_at_roll(all_items(), roll) == Item::Handcuffs,
        47 <= roll < 50 ==> item_at_roll(all_items(), roll) == Item::UnknownTicket,
        50 <= roll < 60 ==> item_at_roll(all_items(), roll) == Item::LiveShell,
        60 <= roll < 66 ==> item_at_roll(all_items(), roll) == Item::BlankShell,
        66 <= roll < 69 ==> item_at_roll(all_items(), roll) == Item::GoldShell,
        69 <= roll < 79 ==> item_at_roll(all_items(), roll) == Item::Inverter,
{
    assert(all_items().skip(0) =~= all_items());
    lemma_items_from(0);
    lemma_items_from(1);
    lemma_items_from(2);
    lemma_items_from(3);
    lemma_items_from(4);
    lemma_items_from(5);
    lemma_items_from(6);
    lemma_items_from(7);
    lemma_items_from(8);
    lemma_items_from(9);
    lemma_items_from(10);
    lemma_items_from(11);
    if roll >= 0 {
        lemma_roll_step(all_items().skip(0), (roll - 0) as nat);
    }
    if roll >= 6 {
        lemma_roll_step(all_items().skip(1), (roll - 6) as nat);
    }
    if roll >= 16 {
        lemma_roll_step(all_items().skip(2), (roll - 16) as nat);
    }
    if roll >= 22 {
        lemma_roll_step(all_items().skip(3), (roll - 22) as nat);
    }
    if roll >= 32 {
        lemma_roll_step(all_items().skip(4), (roll - 32) as nat);
    }
    if roll >= 38 {
        lemma_roll_step(all_items().skip(5), (roll - 38) as nat);
    }
    if roll >= 44 {
        lemma_roll_step(all_items().skip(6), (roll - 44) as nat);
    }
    if roll >= 47 {
        lemma_roll_step(all_items().skip(7), (roll - 47) as nat);
    }
    if roll >= 50 {
        lemma_roll_step(all_items().skip(8), (roll - 50) as nat);
    }
    if roll >= 60 {
        lemma_roll_step(all_items().skip(9), (roll - 60) as nat);
    }
    if roll >= 66 {
        lemma_roll_step(all_items().skip(10), (roll - 66) as nat);
    }
}

/// After a shot the turn stops at once exactly when one player is left with
/// lives; while two or more have lives, it would end when the shot ended it
/// and goes on otherwise.
pub proof fn law_flow_after_shot(players: Seq<Player>, ends_turn: bool)
    ensures
        (flow_after_shot_spec(players, ends_turn) == TurnFlow::Over) == (count_alive(players) == 1),
        count_alive(players) >= 2 && ends_turn ==> flow_after_shot_spec(players, ends_turn) == TurnFlow::WouldEnd,
        count_alive(players) >= 2 && !ends_turn ==> flow_after_shot_spec(players, ends_turn) == TurnFlow::Continues,
{
}

/// Using an item ends the turn only when a beer ejects the last shell or
/// expired medicine takes the last life: after any other effect, handcuffs
/// included, a player with lives goes on with the turn.
pub proof fn law_items_end_turn(player: Player, effect: ItemEffect)
    ensures
        effect.ends_the_turn() == ((effect matches ItemEffect::BeerPopped { emptied, .. } && emptied)
            || effect == ItemEffect::MedicineFatal),
        (flow_after_item_spec(player, effect) == TurnFlow::WouldEnd) == effect.ends_the_turn(),
        player.lives > 0 && !effect.ends_the_turn() ==> flow_after_item_spec(player, effect) == TurnFlow::Continues,
        forall|target: usize| !#[trigger] (ItemEffect::Handcuffed { target }).ends_the_turn(),
{
}

/// The lives the House's items give it: when a pass of its items logged only
/// a medicine, its lives rose by exactly two on a healing draw and fell by
/// exactly one otherwise; when it logged only a smoke, they rose by one.
pub proof fn law_house_item_lives(lives0: int, lives: int, events: Seq<HouseEvent>, event: HouseEvent)
    requires
        lives_follow_events(lives0, lives, events, events.push(event)),
    ensures
        event == (HouseEvent::TookMedicine { healed: true }) ==> lives == lives0 + 2,
        event == (HouseEvent::TookMedicine { healed: false }) ==> lives == lives0 - 1,
        event == HouseEvent::Smoked ==> lives == lives0 + 1,
{
    reveal(lives_follow_events);
    assert(events.push(event).drop_last() =~= events);
}

/// A text without the separator is one piece.
proof fn lemma_split_whole(s: Seq<char>, sep: char)
    requires
        forall|i: int| 0 <= i < s.len() ==> s[i] != sep,
    ensures
        split_on(s, sep).len() == 1,
    decreases s.len(),
{
    if s.len() > 0 {
        lemma_split_whole(s.drop_last(), sep);
    }
}

/// A toggle command picks the typing player's own hand with "my" or "m" and
/// the other player's hand with "other" or "o", whatever the item's number.
pub proof fn law_toggle_picks_side(input: Seq<char>, n: nat)
    requires
        ({
            let words = split_on(lowered(trimmed(input)), ' ');
            &&& words.len() == 3
            &&& words[0] == "t"@ || words[0] == "toggle"@
            &&& decimal_value(number_word(words[2])) == Some(n)
            &&& n <= usize::MAX
        }),
    ensures
        ({
            let words = split_on(lowered(trimmed(input)), ' ');
            &&& words[1] == "my"@ || words[1] == "m"@
                ==> trade_command_spec(input) == (TradeCommand::Toggle { mine: true, number: n as usize })
            &&& words[1] == "other"@ || words[1] == "o"@
                ==> trade_command_spec(input) == (TradeCommand::Toggle { mine: false, number: n as usize })
        }),
{
    reveal_strlit("f");
    reveal_strlit("finalize");
    reveal_strlit("c");
    reveal_strlit("cancel");
    reveal_strlit("my");
    reveal_strlit("m");
    reveal_strlit("other");
    reveal_strlit("o");
    let text = lowered(trimmed(input));
    assert(text != "f"@ && text != "finalize"@ && text != "c"@ && text != "cancel"@) by {
        if text == "f"@ || text == "finalize"@ || text == "c"@ || text == "cancel"@ {
            assert forall|i: int| 0 <= i < text.len() implies text[i] != ' ' by {}
            lemma_split_whole(text, ' ');
        }
    }
    assert("o"@ != "my"@ && "o"@ != "m"@ && "other"@ != "my"@ && "other"@ != "m"@) by {
        assert("o"@[0] != "m"@[0]);
        assert("other"@.len() != "my"@.len());
        assert("other"@.len() != "m"@.len());
    }
}


/// Expired medicine heals on two of its five equally likely draws (40%):
/// then it gives two lives, or as many as are missing when fewer; on the
/// other three it takes a life, the last one too.
pub proof fn law_medicine_draws(roll: nat, lives: nat, max_lives: nat)
    requires
        roll < MEDICINE_DRAWS,
        1 <= lives <= max_lives,
    ensures
        MEDICINE_DRAWS == 5,
        medicine_heals_on(roll) == (roll == 0 || roll == 1),
        roll < 2 && lives + 2 <= max_lives ==> medicine_effect(roll, lives, max_lives)
            == (ItemEffect::MedicineHealed { gained: 2 }),
        roll < 2 && lives + 2 > max_lives ==> medicine_effect(roll, lives, max_lives)
            == (ItemEffect::MedicineHealed { gained: (max_lives - lives) as usize }),
        roll >= 2 && lives > 1 ==> medicine_effect(roll, lives, max_lives) == ItemEffect::MedicineHurt,
        roll >= 2 && lives == 1 ==> medicine_effect(roll, lives, max_lives) == ItemEffect::MedicineFatal,
{
}

} // verus!
