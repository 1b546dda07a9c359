//! What using an item does.
use crate::data::{GameData, HandcuffedLevel, Item, Player};
use crate::rng::random_below;
use crate::rules::same_identity;
use crate::settings::lives_for_stage;
use crate::shells::{reload_buckshot_if_needed, reload_result, ReloadReport};
use vstd::prelude::*;

verus! {

/// The first position at which an item occurs in a list.
pub open spec fn first_position(items: Seq<Item>, item: Item) -> Option<nat> {
    if exists|i: int| 0 <= i < items.len() && items[i] == item {
        let i = choose|i: int|
            0 <= i < items.len() && items[i] == item && forall|j: int| 0 <= j < i ==> items[j] != item;
        Some(i as nat)
    } else {
        None
    }
}

/// An item found at position `k` has a first position, at or before `k`.
proof fn lemma_first_occurrence(items: Seq<Item>, item: Item, k: int)
    requires
        0 <= k < items.len(),
        items[k] == item,
    ensures
        exists|i: int| 0 <= i < items.len() && items[i] == item && forall|j: int| 0 <= j < i ==> items[j] != item,
    decreases k,
{
    if exists|j: int| 0 <= j < k && items[j] == item {
        let j = choose|j: int| 0 <= j < k && items[j] == item;
        lemma_first_occurrence(items, item, j);
    } else {
        assert(forall|j: int| 0 <= j < k ==> items[j] != item);
    }
}

/// The first position of an item holds that item.
pub proof fn lemma_first_position(items: Seq<Item>, item: Item)
    ensures
        first_position(items, item) matches Some(i) ==> i < items.len() && items[i as int] == item,
{
    if exists|i: int| 0 <= i < items.len() && items[i] == item {
        let k = choose|i: int| 0 <= i < items.len() && items[i] == item;
        lemma_first_occurrence(items, item, k);
    }
}

/// The position of the first `item` in `items`, if there is one.
pub fn find_item(items: &Vec<Item>, item: Item) -> (found: Option<usize>)
    ensures
        match found {
            Some(i) => first_position(items@, item) == Some(i as nat),
            None => first_position(items@, item) is None,
        },
        found matches Some(i) ==> i < items@.len() && items@[i as int] == item,
        found is None ==> forall|j: int| 0 <= j < items@.len() ==> items@[j] != item,
{
    let mut i: usize = 0;
    while i < items.len()
        invariant
            i <= items.len(),
            forall|j: int| 0 <= j < i ==> items@[j] != item,
        decreases items.len() - i,
    {
        if items[i] == item {
            proof {
                let k = choose|k: int|
                    0 <= k < items@.len() && items@[k] == item && forall|j: int|
                        0 <= j < k ==> items@[j] != item;
                if k > i {
                    assert(items@[i as int] == item);
                }
            }
            return Some(i);
        }
        i = i + 1;
    }
    None
}

/// Whether a player may be handcuffed by the player in seat `by`: alive, not
/// the user (by name), and not already in handcuffs.
pub open spec fn can_be_handcuffed(players: Seq<Player>, by: int, k: int) -> bool {
    &&& players[k].lives > 0
    &&& players[k].name@ != players[by].name@
    &&& players[k].handcuffed_level == HandcuffedLevel::Uncuffed
}

/// The seats, in order, that satisfy `can_be_handcuffed` among the first `n`.
pub open spec fn handcuff_seats(players: Seq<Player>, by: int, n: nat) -> Seq<usize>
    decreases n,
{
    if n == 0 {
        Seq::empty()
    } else if can_be_handcuffed(players, by, n - 1) {
        handcuff_seats(players, by, (n - 1) as nat).push((n - 1) as usize)
    } else {
        handcuff_seats(players, by, (n - 1) as nat)
    }
}

/// The seats the current player could put handcuffs on.
pub fn handcuff_candidates(game_data: &GameData) -> (seats: Vec<usize>)
    requires
        game_data.wf(),
    ensures
        seats@ == handcuff_seats(game_data.players@, game_data.curr_player as int, game_data.players@.len()),
{
    let me = game_data.curr_player;
    let mut seats: Vec<usize> = Vec::new();
    let mut i: usize = 0;
    while i < game_data.players.len()
        invariant
            game_data.wf(),
            me == game_data.curr_player,
            i <= game_data.players.len(),
            seats@ == handcuff_seats(game_data.players@, me as int, i as nat),
        decreases game_data.players.len() - i,
    {
        let p = &game_data.players[i];
        if p.lives > 0 && !(p.name == game_data.players[me].name)
            && p.handcuffed_level == HandcuffedLevel::Uncuffed {
            seats.push(i);
        }
        i = i + 1;
    }
    seats
}

/// What using an item did.
#[derive(Debug, Copy, Clone, PartialEq, Eq, Structural)]
pub enum ItemEffect {
    /// Cigarettes: the player now has this many lives.
    Smoked { lives: usize },
    /// Expired medicine gave this many lives.
    MedicineHealed { gained: usize },
    /// Expired medicine took a life.
    MedicineHurt,
    /// Expired medicine took the last life; the medicine stays in hand.
    MedicineFatal,
    /// The magnifying glass showed the next shell.
    Peeked { live: bool },
    /// The beer ejected the next shell (and with it any inverter's mark);
    /// `emptied` when it was the last one.
    BeerPopped { live: bool, emptied: bool, reload: Option<ReloadReport> },
    /// The barrel already has an extension; nothing was used.
    BarrelAlreadyExtended,
    /// The barrel now has an extension.
    BarrelExtended,
    /// The magazine emptied and refilled the buckshot.
    MagazineReloaded { reload: Option<ReloadReport> },
    /// No one can be handcuffed; nothing was used.
    NoHandcuffTarget,
    /// The chosen player already wears handcuffs; nothing was used.
    TargetAlreadyCuffed,
    /// The player in this seat is now handcuffed.
    Handcuffed { target: usize },
    /// An unknown ticket cannot be chosen by hand: it only restarts a turn
    /// that would end. Nothing was used.
    TicketNotUsable,
    /// A live or blank shell was put into the buckshot at this position
    /// (counted from the bottom).
    ShellAdded { live: bool, position: usize },
    /// A live shell was put on top of the buckshot.
    GoldShellAdded,
    /// The next shell was turned into its opposite.
    Inverted,
}

impl ItemEffect {
    /// Whether the item kept its place in the player's hand.
    pub open spec fn keeps_item(self) -> bool {
        ||| self is MedicineFatal
        ||| self is BarrelAlreadyExtended
        ||| self is NoHandcuffTarget
        ||| self is TargetAlreadyCuffed
        ||| self is TicketNotUsable
    }

    /// Whether using the item ended the turn: the beer ejected the last
    /// shell, or the medicine took the last life.
    pub open spec fn ends_the_turn(self) -> bool {
        (self matches ItemEffect::BeerPopped { emptied, .. } && emptied) || self is MedicineFatal
    }

    /// Whether using the item ended the turn (see `ends_the_turn`).
    pub fn ends_turn(&self) -> (ends: bool)
        ensures
            ends == self.ends_the_turn(),
    {
        match self {
            ItemEffect::BeerPopped { emptied, .. } => *emptied,
            ItemEffect::MedicineFatal => true,
            _ => false,
        }
    }
}

/// The number of equally likely draws behind expired medicine.
pub const MEDICINE_DRAWS: usize = 5;

/// Whether expired medicine heals on this draw: on two of its five equally
/// likely draws (40%), it heals; on the other three it hurts.
pub open spec fn medicine_heals_on(roll: nat) -> bool {
    roll < 2
}

/// What expired medicine does on this draw to a player with `lives` of at
/// most `max_lives`: a healing draw gives two lives, or as many as are
/// missing when fewer; another draw takes a life, the last one too.
pub open spec fn medicine_effect(roll: nat, lives: nat, max_lives: nat) -> ItemEffect {
    if medicine_heals_on(roll) {
        ItemEffect::MedicineHealed {
            gained: (if max_lives - lives < 2 { max_lives - lives } else { 2 }) as usize,
        }
    } else if lives == 1 {
        ItemEffect::MedicineFatal
    } else {
        ItemEffect::MedicineHurt
    }
}

/// Whether expired medicine heals on `roll`, one of its five draws.
pub fn medicine_heals(roll: usize) -> (heals: bool)
    requires
        roll < MEDICINE_DRAWS,
    ensures
        heals == medicine_heals_on(roll as nat),
{
    roll < 2
}

/// What expired medicine does on `roll`, one of its five draws, to a
/// player with `lives` of at most `max_lives`.
pub fn medicine_outcome(roll: usize, lives: usize, max_lives: usize) -> (effect: ItemEffect)
    requires
        roll < MEDICINE_DRAWS,
        1 <= lives <= max_lives,
    ensures
        effect == medicine_effect(roll as nat, lives as nat, max_lives as nat),
{
    if medicine_heals(roll) {
        let room = max_lives - lives;
        ItemEffect::MedicineHealed { gained: if room < 2 { room } else { 2 } }
    } else if lives == 1 {
        ItemEffect::MedicineFatal
    } else {
        ItemEffect::MedicineHurt
    }
}

/// Whether an item needs a shell in the buckshot to be used.
pub open spec fn needs_shell(item: Item) -> bool {
    item == Item::MagnifyingGlass || item == Item::Beer || item == Item::Inverter
}

/// Whether an item needs a shell in the buckshot to be used: the magnifying
/// glass, the beer and the inverter.
pub fn item_needs_shell(item: Item) -> (needs: bool)
    ensures
        needs == needs_shell(item),
{
    item == Item::MagnifyingGlass || item == Item::Beer || item == Item::Inverter
}

/// The state after using the item at `index` of the current player, when
/// its effect was `effect`.
pub open spec fn item_used(
    before: GameData,
    after: GameData,
    index: int,
    stage_num: nat,
    handcuff_target: Option<usize>,
    effect: ItemEffect,
) -> bool {
    let me = before.curr_player as int;
    let old_p = before.players@[me];
    let new_p = after.players@[me];
    let item = old_p.items@[index];
    let max_lives: int = stage_num as int + 1;
    let shells = before.buckshot@;
    &&& after.curr_player == before.curr_player
    &&& after.players@.len() == before.players@.len()
    &&& same_identity(old_p, new_p)
    &&& new_p.credits == old_p.credits
    &&& if effect.keeps_item() {
        new_p.items == old_p.items
    } else {
        new_p.items@ == old_p.items@.remove(index)
    }
    &&& forall|k: int| 0 <= k < before.players@.len() && k != me && !(effect == (ItemEffect::Handcuffed { target: k as usize })) ==> after.players@[k] == before.players@[k]
    &&& effect is Smoked || effect is MedicineHealed || effect is MedicineHurt || effect is MedicineFatal || new_p.lives == old_p.lives
    &&& match item {
        Item::Cigarettes => effect == (ItemEffect::Smoked { lives: new_p.lives })
            && new_p.lives == if old_p.lives + 1 <= max_lives { old_p.lives + 1 } else { max_lives }
            && after.buckshot == before.buckshot && after.has_barrel_extension == before.has_barrel_extension
            && after.is_inverted == before.is_inverted,
        Item::ExpiredMedicine => {
            &&& after.buckshot == before.buckshot
            &&& after.has_barrel_extension == before.has_barrel_extension
            &&& after.is_inverted == before.is_inverted
            &&& exists|roll: nat| roll < MEDICINE_DRAWS
                && effect == #[trigger] medicine_effect(roll, old_p.lives as nat, max_lives as nat)
            &&& match effect {
                ItemEffect::MedicineHealed { gained } => new_p.lives == old_p.lives + gained,
                ItemEffect::MedicineHurt | ItemEffect::MedicineFatal => new_p.lives == old_p.lives - 1,
                _ => false,
            }
        },
        Item::MagnifyingGlass => effect == (ItemEffect::Peeked { live: shells.last() })
            && after.buckshot == before.buckshot && after.has_barrel_extension == before.has_barrel_extension
            && after.is_inverted == before.is_inverted,
        Item::Beer => effect matches ItemEffect::BeerPopped { live, emptied, reload } && live == shells.last()
            && emptied == (shells.len() == 1) && after.has_barrel_extension == before.has_barrel_extension
            && if shells.len() > 1 {
                reload is None && after.buckshot@ == shells.drop_last() && !after.is_inverted
            } else {
                reload matches Some(r) && reload_result(stage_num, r, after.buckshot@) && !after.is_inverted
            },
        Item::BarrelExtension => after.buckshot == before.buckshot && after.is_inverted == before.is_inverted
            && after.has_barrel_extension
            && if before.has_barrel_extension { effect == ItemEffect::BarrelAlreadyExtended } else { effect == ItemEffect::BarrelExtended },
        Item::Magazine => effect matches ItemEffect::MagazineReloaded { reload } && reload matches Some(r)
            && reload_result(stage_num, r, after.buckshot@) && !after.is_inverted
            && after.has_barrel_extension == before.has_barrel_extension,
        Item::Handcuffs => after.buckshot == before.buckshot && after.is_inverted == before.is_inverted
            && after.has_barrel_extension == before.has_barrel_extension
            && match handcuff_target {
                None => effect == ItemEffect::NoHandcuffTarget,
                Some(t) => if before.players@[t as int].handcuffed_level != HandcuffedLevel::Uncuffed {
                    effect == ItemEffect::TargetAlreadyCuffed
                } else {
                    &&& effect == (ItemEffect::Handcuffed { target: t })
                    &&& {
                        &&& after.players@[t as int].handcuffed_level == HandcuffedLevel::NewlyHandcuffed
                        &&& after.players@[t as int].name == before.players@[t as int].name
                        &&& after.players@[t as int].password == before.players@[t as int].password
                        &&& after.players@[t as int].is_resetting_password == before.players@[t as int].is_resetting_password
                        &&& after.players@[t as int].lives == before.players@[t as int].lives
                        &&& after.players@[t as int].credits == before.players@[t as int].credits
                        &&& after.players@[t as int].items == before.players@[t as int].items
                    }
                },
            },
        Item::UnknownTicket => effect == ItemEffect::TicketNotUsable && after.buckshot == before.buckshot
            && after.is_inverted == before.is_inverted && after.has_barrel_extension == before.has_barrel_extension,
        Item::LiveShell | Item::BlankShell => effect matches ItemEffect::ShellAdded { live, position }
            && live == (item == Item::LiveShell) && position <= shells.len()
            && after.buckshot@ == shells.insert(position as int, live)
            && after.is_inverted == before.is_inverted && after.has_barrel_extension == before.has_barrel_extension,
        Item::GoldShell => effect == ItemEffect::GoldShellAdded && after.buckshot@ == shells.push(true)
            && after.is_inverted == before.is_inverted && after.has_barrel_extension == before.has_barrel_extension,
        Item::Inverter => effect == ItemEffect::Inverted
            && after.buckshot@ == shells.update(shells.len() - 1, !shells.last())
            && after.is_inverted == !before.is_inverted && after.has_barrel_extension == before.has_barrel_extension,
    }
}

/// The current player uses the item at `item_index` of their hand. The
/// items that need a shell must find one in the buckshot; expired medicine
/// needs a living player within the stage's lives. For handcuffs,
/// `handcuff_target` is the chosen seat, or `None` when no one can be
/// handcuffed.
pub fn use_item(
    game_data: &mut GameData,
    item_index: usize,
    stage_num: usize,
    handcuff_target: Option<usize>,
) -> (effect: ItemEffect)
    requires
        old(game_data).wf(),
        item_index < old(game_data).players@[old(game_data).curr_player as int].items@.len(),
        stage_num < usize::MAX,
        ({
            let item = old(game_data).players@[old(game_data).curr_player as int].items@[item_index as int];
            item == Item::Beer || item == Item::Magazine
        }) ==> stage_num <= 4,
        needs_shell(old(game_data).players@[old(game_data).curr_player as int].items@[item_index as int])
            ==> old(game_data).buckshot@.len() > 0,
        old(game_data).players@[old(game_data).curr_player as int].items@[item_index as int] == Item::ExpiredMedicine
            ==> 1 <= old(game_data).players@[old(game_data).curr_player as int].lives <= stage_num + 1,
        old(game_data).players@[old(game_data).curr_player as int].items@[item_index as int] == Item::Cigarettes
            ==> old(game_data).players@[old(game_data).curr_player as int].lives < usize::MAX,
        handcuff_target matches Some(t) ==> t < old(game_data).players@.len() && t != old(game_data).curr_player,
        old(game_data).buckshot@.len() < usize::MAX,
    ensures
        item_used(*old(game_data), *final(game_data), item_index as int, stage_num as nat, handcuff_target, effect),
{
    let me = game_data.curr_player;
    let item = game_data.players[me].items[item_index];
    let max_lives = lives_for_stage(stage_num);
    let effect = match item {
        Item::Cigarettes => {
            let player = &mut game_data.players[me];
            let raised = player.lives + 1;
            player.lives = if raised <= max_lives { raised } else { max_lives };
            ItemEffect::Smoked { lives: player.lives }
        },
        Item::ExpiredMedicine => {
            let roll = random_below(MEDICINE_DRAWS);
            let outcome = medicine_outcome(roll, game_data.players[me].lives, max_lives);
            let player = &mut game_data.players[me];
            match outcome {
                ItemEffect::MedicineHealed { gained } => player.lives = player.lives + gained,
                _ => player.lives = player.lives - 1,
            }
            proof {
                assert(outcome == medicine_effect(roll as nat, old(game_data).players@[me as int].lives as nat, max_lives as nat));
            }
            outcome
        },
        Item::MagnifyingGlass => {
            let last = game_data.buckshot.len() - 1;
            ItemEffect::Peeked { live: game_data.buckshot[last] }
        },
        Item::Beer => {
            let live = match game_data.buckshot.pop() {
                Some(shell) => shell,
                None => false,
            };
            game_data.is_inverted = false;
            let emptied = game_data.buckshot.len() == 0;
            let reload = reload_buckshot_if_needed(game_data, stage_num);
            ItemEffect::BeerPopped { live, emptied, reload }
        },
        Item::BarrelExtension => {
            if game_data.has_barrel_extension {
                ItemEffect::BarrelAlreadyExtended
            } else {
                game_data.has_barrel_extension = true;
                ItemEffect::BarrelExtended
            }
        },
        Item::Magazine => {
            game_data.buckshot.clear();
            let reload = reload_buckshot_if_needed(game_data, stage_num);
            ItemEffect::MagazineReloaded { reload }
        },
        Item::Handcuffs => {
            match handcuff_target {
                None => ItemEffect::NoHandcuffTarget,
                Some(t) => {
                    if game_data.players[t].handcuffed_level != HandcuffedLevel::Uncuffed {
                        ItemEffect::TargetAlreadyCuffed
                    } else {
                        game_data.players[t].handcuffed_level = HandcuffedLevel::NewlyHandcuffed;
                        ItemEffect::Handcuffed { target: t }
                    }
                },
            }
        },
        Item::UnknownTicket => ItemEffect::TicketNotUsable,
        Item::LiveShell | Item::BlankShell => {
            let live = item == Item::LiveShell;
            let position = random_below(game_data.buckshot.len() + 1);
            game_data.buckshot.insert(position, live);
            ItemEffect::ShellAdded { live, position }
        },
        Item::GoldShell => {
            game_data.buckshot.push(true);
            ItemEffect::GoldShellAdded
        },
        Item::Inverter => {
            let last = game_data.buckshot.len() - 1;
            let shell = game_data.buckshot[last];
            game_data.buckshot.set(last, !shell);
            game_data.is_inverted = !game_data.is_inverted;
            ItemEffect::Inverted
        },
    };
    let keeps = match effect {
        ItemEffect::MedicineFatal | ItemEffect::BarrelAlreadyExtended | ItemEffect::NoHandcuffTarget
        | ItemEffect::TargetAlreadyCuffed | ItemEffect::TicketNotUsable => true,
        _ => false,
    };
    if !keeps {
        game_data.players[me].items.remove(item_index);
    }
    effect
}

} // verus!
