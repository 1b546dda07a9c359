//! Per-stage numbers of the game.
use crate::data::{rarity, Item};
use vstd::prelude::*;

verus! {

/// Item weights are counted in tenths: a common item weighs 10 (1x),
/// an uncommon one 6 (0.6x) and a rare one 3 (0.3x).
pub const ITEM_CHANCE_COMMON: u32 = 10;
/// Weight of an uncommon item, in tenths (0.6x).
pub const ITEM_CHANCE_UNCOMMON: u32 = 6;
/// Weight of a rare item, in tenths (0.3x).
pub const ITEM_CHANCE_RARE: u32 = 3;
/// Weight of an item that never appears.
pub const ITEM_CHANCE_DISABLED: u32 = 0;

/// Lives every player starts a stage with.
pub fn lives_for_stage(stage_num: usize) -> (lives: usize)
    requires
        stage_num < usize::MAX,
    ensures
        lives == stage_num + 1,
{
    stage_num + 1
}

/// Items handed to every living player at the start of a round.
pub fn items_per_round_for_stage(stage_num: usize) -> (count: usize)
    requires
        stage_num < usize::MAX,
    ensures
        count == stage_num + 1,
{
    stage_num + 1
}

/// Largest number of items a player can be topped up to.
pub fn max_items_for_stage(stage_num: usize) -> (count: usize)
    requires
        (stage_num + 1) * 2 <= usize::MAX,
    ensures
        count == (stage_num + 1) * 2,
{
    (stage_num + 1) * 2
}

/// How the buckshot is reloaded in a stage: the fewest and most shells, and
/// the lowest and highest share of live shells, in percent.
pub fn buckshot_reload_data(stage_num: usize) -> (data: (usize, usize, usize, usize))
    requires
        stage_num * 4 <= usize::MAX,
    ensures
        data.0 == stage_num * 2,
        data.1 == if stage_num * 4 <= 8 { stage_num * 4 } else { 8 },
        data.2 == 40,
        data.3 == 60,
{
    let most = stage_num * 4;
    (stage_num * 2, if most <= 8 { most } else { 8 }, 40, 60)
}

/// Credits a player earns for each shot fired.
pub fn credit_per_shot_for_stage(stage_num: usize) -> (credits: usize)
    ensures
        credits == stage_num,
{
    stage_num
}

/// Credits the last player standing earns at the end of a stage.
pub fn credits_per_win_for_stage(stage_num: usize) -> (credits: usize)
    requires
        stage_num * 10 <= usize::MAX,
    ensures
        credits == stage_num * 10,
{
    stage_num * 10
}

/// The weight of an item in a random draw, in tenths.
pub fn get_item_rarity(item: Item) -> (weight: u32)
    ensures
        weight == rarity(item),
{
    match item {
        Item::Cigarettes => ITEM_CHANCE_UNCOMMON,
        Item::ExpiredMedicine => ITEM_CHANCE_COMMON,
        Item::MagnifyingGlass => ITEM_CHANCE_UNCOMMON,
        Item::Beer => ITEM_CHANCE_COMMON,
        Item::BarrelExtension => ITEM_CHANCE_UNCOMMON,
        Item::Magazine => ITEM_CHANCE_UNCOMMON,
        Item::Handcuffs => ITEM_CHANCE_RARE,
        Item::UnknownTicket => ITEM_CHANCE_RARE,
        Item::LiveShell => ITEM_CHANCE_COMMON,
        Item::BlankShell => ITEM_CHANCE_UNCOMMON,
        Item::GoldShell => ITEM_CHANCE_RARE,
        Item::Inverter => ITEM_CHANCE_COMMON,
    }
}

} // verus!
