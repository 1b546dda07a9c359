//! The game's state: players, their items, and the buckshot.
use crate::rng::random_below;
use crate::settings::get_item_rarity;
use crate::text::{decimal_digits, usize_to_string};
use vstd::prelude::*;

verus! {

/// The items a player can hold.
#[derive(Debug, Copy, Clone, PartialEq, Eq, Structural)]
pub enum Item {
    Cigarettes,
    ExpiredMedicine,
    MagnifyingGlass,
    Beer,
    BarrelExtension,
    Magazine,
    Handcuffs,
    UnknownTicket,
    LiveShell,
    BlankShell,
    GoldShell,
    Inverter,
}

/// How far a player is from being free of handcuffs.
#[derive(Debug, Copy, Clone, PartialEq, Eq, Structural)]
pub enum HandcuffedLevel {
    Uncuffed,
    AlmostUncuffed,
    NewlyHandcuffed,
}

/// One seat at the table.
#[derive(Debug, Clone)]
pub struct Player {
    pub name: String,
    pub password: Option<String>,
    pub is_resetting_password: bool,
    pub lives: usize,
    pub credits: usize,
    pub items: Vec<Item>,
    pub handcuffed_level: HandcuffedLevel,
}

/// The whole table: the players in seating order, whose turn it is, and the
/// shells in the buckshot (the last one is fired next; `true` is live).
pub struct GameData {
    pub players: Vec<Player>,
    pub curr_player: usize,
    pub buckshot: Vec<bool>,
    pub has_barrel_extension: bool,
    pub is_inverted: bool,
}

/// Number of players with lives left.
pub open spec fn count_alive(players: Seq<Player>) -> nat
    decreases players.len(),
{
    if players.len() == 0 {
        0
    } else {
        count_alive(players.drop_last()) + if players.last().lives > 0 { 1nat } else { 0nat }
    }
}

/// When some player has lives, some seat holds a player with lives.
pub proof fn lemma_alive_exists(players: Seq<Player>)
    requires
        count_alive(players) >= 1,
    ensures
        exists|k: int| 0 <= k < players.len() && #[trigger] players[k].lives > 0,
    decreases players.len(),
{
    if players.last().lives > 0 {
        assert(players[players.len() - 1].lives > 0);
    } else {
        lemma_alive_exists(players.drop_last());
        let k = choose|k: int| 0 <= k < players.drop_last().len() && #[trigger] players.drop_last()[k].lives > 0;
        assert(players[k].lives > 0);
    }
}

/// Number of live shells in a sequence of shells.
pub open spec fn count_true(shells: Seq<bool>) -> nat
    decreases shells.len(),
{
    if shells.len() == 0 {
        0
    } else {
        count_true(shells.drop_last()) + if shells.last() { 1nat } else { 0nat }
    }
}

/// The shells as the players know them: after an Inverter the next shell
/// (the last one) is shown as it was before the inversion.
pub open spec fn known_shells(buckshot: Seq<bool>, is_inverted: bool) -> Seq<bool> {
    if is_inverted && buckshot.len() > 0 {
        buckshot.update(buckshot.len() - 1, !buckshot.last())
    } else {
        buckshot
    }
}

/// The first seat whose player has the given name.
pub open spec fn first_index_named(players: Seq<Player>, name: Seq<char>) -> Option<nat> {
    if exists|i: int| 0 <= i < players.len() && #[trigger] players[i].name@ == name {
        let i = choose|i: int|
            0 <= i < players.len() && #[trigger] players[i].name@ == name && forall|j: int|
                0 <= j < i ==> players[j].name@ != name;
        Some(i as nat)
    } else {
        None
    }
}


/// Every item, in the order in which a random draw walks them.
pub open spec fn all_items() -> Seq<Item> {
    seq![
        Item::Cigarettes,
        Item::ExpiredMedicine,
        Item::MagnifyingGlass,
        Item::Beer,
        Item::BarrelExtension,
        Item::Magazine,
        Item::Handcuffs,
        Item::UnknownTicket,
        Item::LiveShell,
        Item::BlankShell,
        Item::GoldShell,
        Item::Inverter,
    ]
}

/// Sum of the weights (in tenths) of a list of items.
pub open spec fn total_rarity(items: Seq<Item>) -> nat
    decreases items.len(),
{
    if items.len() == 0 {
        0
    } else {
        rarity(items[0]) + total_rarity(items.drop_first())
    }
}

/// The weight of an item, in tenths: common 10, uncommon 6, rare 3.
pub open spec fn rarity(item: Item) -> nat {
    match item {
        Item::Cigarettes => 6,
        Item::ExpiredMedicine => 10,
        Item::MagnifyingGlass => 6,
        Item::Beer => 10,
        Item::BarrelExtension => 6,
        Item::Magazine => 6,
        Item::Handcuffs => 3,
        Item::UnknownTicket => 3,
        Item::LiveShell => 10,
        Item::BlankShell => 6,
        Item::GoldShell => 3,
        Item::Inverter => 10,
    }
}

/// The item that a roll below the total weight lands on: the items are laid
/// end to end, each as long as its weight, and the roll picks a point.
pub open spec fn item_at_roll(items: Seq<Item>, roll: nat) -> Item
    decreases items.len(),
{
    if items.len() <= 1 || roll < rarity(items[0]) {
        items[0]
    } else {
        item_at_roll(items.drop_first(), (roll - rarity(items[0])) as nat)
    }
}

/// The name an item is shown by.
pub open spec fn item_name(item: Item) -> Seq<char> {
    match item {
        Item::Cigarettes => "Cigarettes"@,
        Item::ExpiredMedicine => "Expired Medicine"@,
        Item::MagnifyingGlass => "Magnifying Glass"@,
        Item::Beer => "Beer"@,
        Item::BarrelExtension => "Barrel Extension"@,
        Item::Magazine => "Magazine"@,
        Item::Handcuffs => "Handcuffs"@,
        Item::UnknownTicket => "Unknown Ticket"@,
        Item::LiveShell => "Live Shell"@,
        Item::BlankShell => "Blank Shell"@,
        Item::GoldShell => "Gold Shell"@,
        Item::Inverter => "Inverter"@,
    }
}

/// The short names by which an item can also be chosen.
pub open spec fn item_aliases(item: Item) -> Seq<Seq<char>> {
    match item {
        Item::Cigarettes => seq!["c"@, "cig"@],
        Item::ExpiredMedicine => seq!["e"@, "exp"@],
        Item::MagnifyingGlass => seq!["m"@, "magn"@],
        Item::Beer => seq!["ber"@],
        Item::BarrelExtension => seq!["b"@, "bar"@],
        Item::Magazine => seq!["maga"@],
        Item::Handcuffs => seq!["h"@, "hand"@],
        Item::UnknownTicket => seq!["u"@, "unk"@],
        Item::LiveShell => seq!["l"@, "liv"@],
        Item::BlankShell => seq!["bla"@],
        Item::GoldShell => seq!["g"@, "gol"@],
        Item::Inverter => seq!["i"@, "inv"@],
    }
}

/// One entry of a menu of items: the label before the colon, the name
/// shown, the other names it can be chosen by, and the item itself.
pub struct ItemOption {
    pub bulletin_string: Option<String>,
    pub main_name: String,
    pub alt_names: Vec<String>,
    pub data: Item,
}

/// Every item, in the order in which a random draw walks them.
pub fn items_list() -> (items: Vec<Item>)
    ensures
        items@ == all_items(),
{
    vec![
        Item::Cigarettes,
        Item::ExpiredMedicine,
        Item::MagnifyingGlass,
        Item::Beer,
        Item::BarrelExtension,
        Item::Magazine,
        Item::Handcuffs,
        Item::UnknownTicket,
        Item::LiveShell,
        Item::BlankShell,
        Item::GoldShell,
        Item::Inverter,
    ]
}

impl Item {
    /// The item that a roll lands on when the items of `items_list` are laid
    /// end to end, each as long as its weight.
    pub fn for_roll(roll: usize) -> (item: Item)
        requires
            roll < total_rarity(all_items()),
        ensures
            item == item_at_roll(all_items(), roll as nat),
    {
        let items = items_list();
        let mut i: usize = 0;
        let mut rest: usize = roll;
        assert(items@.skip(0) =~= items@);
        while i + 1 < items.len()
            invariant
                items@ == all_items(),
                i < items@.len(),
                rest < total_rarity(items@.skip(i as int)),
                item_at_roll(items@.skip(i as int), rest as nat) == item_at_roll(all_items(), roll as nat),
            decreases items@.len() - i,
        {
            let weight = get_item_rarity(items[i]);
            assert(items@.skip(i as int)[0] == items@[i as int]);
            assert(items@.skip(i as int).drop_first() =~= items@.skip(i + 1));
            if rest < weight as usize {
                return items[i];
            }
            rest = rest - weight as usize;
            i = i + 1;
        }
        assert(items@.skip(i as int)[0] == items@[i as int]);
        items[i]
    }

    /// A random item, each drawn with a chance proportional to its weight.
    pub fn random() -> (item: Item)
        ensures
            exists|roll: nat| roll < total_rarity(all_items()) && item == item_at_roll(all_items(), roll),
    {
        let items = items_list();
        let mut total: usize = 0;
        let mut i: usize = 0;
        assert(items@.skip(0) =~= items@);
        while i < items.len()
            invariant
                items@ == all_items(),
                i <= items@.len(),
                total + total_rarity(items@.skip(i as int)) == total_rarity(all_items()),
                total <= 10 * i,
            decreases items@.len() - i,
        {
            assert(items@.skip(i as int)[0] == items@[i as int]);
            assert(items@.skip(i as int).drop_first() =~= items@.skip(i + 1));
            total = total + get_item_rarity(items[i]) as usize;
            i = i + 1;
        }
        assert(items@.skip(i as int) =~= Seq::<Item>::empty());
        let roll = random_below(total);
        Item::for_roll(roll)
    }

    /// The name the item is shown by.
    pub fn name(&self) -> (name: String)
        ensures
            name@ == item_name(*self),
    {
        match self {
            Item::Cigarettes => String::from_str("Cigarettes"),
            Item::ExpiredMedicine => String::from_str("Expired Medicine"),
            Item::MagnifyingGlass => String::from_str("Magnifying Glass"),
            Item::Beer => String::from_str("Beer"),
            Item::BarrelExtension => String::from_str("Barrel Extension"),
            Item::Magazine => String::from_str("Magazine"),
            Item::Handcuffs => String::from_str("Handcuffs"),
            Item::UnknownTicket => String::from_str("Unknown Ticket"),
            Item::LiveShell => String::from_str("Live Shell"),
            Item::BlankShell => String::from_str("Blank Shell"),
            Item::GoldShell => String::from_str("Gold Shell"),
            Item::Inverter => String::from_str("Inverter"),
        }
    }

    /// The menu entry for this item at position `i`: labelled with `i`, shown
    /// by its display name, and chosen also by its short names.
    pub fn to_input_option(&self, i: usize) -> (option: ItemOption)
        ensures
            option.bulletin_string matches Some(b) && b@ == decimal_digits(i as nat),
            option.main_name@ == item_name(*self),
            option.alt_names@.map_values(|n: String| n@) == item_aliases(*self),
            option.data == *self,
    {
        let mut alt_names: Vec<String> = Vec::new();
        match self {
            Item::Cigarettes => { alt_names.push(String::from_str("c")); alt_names.push(String::from_str("cig")); },
            Item::ExpiredMedicine => { alt_names.push(String::from_str("e")); alt_names.push(String::from_str("exp")); },
            Item::MagnifyingGlass => { alt_names.push(String::from_str("m")); alt_names.push(String::from_str("magn")); },
            Item::Beer => { alt_names.push(String::from_str("ber")); },
            Item::BarrelExtension => { alt_names.push(String::from_str("b")); alt_names.push(String::from_str("bar")); },
            Item::Magazine => { alt_names.push(String::from_str("maga")); },
            Item::Handcuffs => { alt_names.push(String::from_str("h")); alt_names.push(String::from_str("hand")); },
            Item::UnknownTicket => { alt_names.push(String::from_str("u")); alt_names.push(String::from_str("unk")); },
            Item::LiveShell => { alt_names.push(String::from_str("l")); alt_names.push(String::from_str("liv")); },
            Item::BlankShell => { alt_names.push(String::from_str("bla")); },
            Item::GoldShell => { alt_names.push(String::from_str("g")); alt_names.push(String::from_str("gol")); },
            Item::Inverter => { alt_names.push(String::from_str("i")); alt_names.push(String::from_str("inv")); },
        }
        assert(alt_names@.map_values(|n: String| n@) =~= item_aliases(*self));
        ItemOption { bulletin_string: Some(usize_to_string(i)), main_name: self.name(), alt_names, data: *self }
    }
}

impl GameData {
    /// The seat whose turn it is points at a player.
    pub open spec fn wf(&self) -> bool {
        self.curr_player < self.players.len()
    }

    /// The player whose turn it is.
    pub fn get_player(&self) -> (player: &Player)
        requires
            self.wf(),
        ensures
            *player == self.players@[self.curr_player as int],
    {
        &self.players[self.curr_player]
    }

    /// The player whose turn it is, to change.
    pub fn get_player_mut(&mut self) -> (player: &mut Player)
        requires
            old(self).wf(),
        ensures
            *player == old(self).players@[old(self).curr_player as int],
            final(self).players@ == old(self).players@.update(
                old(self).curr_player as int,
                *final(player),
            ),
            final(self).curr_player == old(self).curr_player,
            final(self).buckshot == old(self).buckshot,
            final(self).has_barrel_extension == old(self).has_barrel_extension,
            final(self).is_inverted == old(self).is_inverted,
    {
        &mut self.players[self.curr_player]
    }

    /// How many players still have lives.
    pub fn count_alive_players(&self) -> (count: usize)
        ensures
            count == count_alive(self.players@),
    {
        let mut count: usize = 0;
        let mut i: usize = 0;
        while i < self.players.len()
            invariant
                i <= self.players.len(),
                count == count_alive(self.players@.take(i as int)),
                count <= i,
            decreases self.players.len() - i,
        {
            proof {
                assert(self.players@.take(i + 1).drop_last() =~= self.players@.take(i as int));
            }
            if self.players[i].lives > 0 {
                count = count + 1;
            }
            i = i + 1;
        }
        proof {
            assert(self.players@.take(i as int) =~= self.players@);
        }
        count
    }

    /// The numbers of live and blank shells the players know of.
    pub fn count_known_shells(&self) -> (counts: (usize, usize))
        ensures
            counts.0 == count_true(known_shells(self.buckshot@, self.is_inverted)),
            counts.0 + counts.1 == self.buckshot@.len(),
    {
        let ghost known = known_shells(self.buckshot@, self.is_inverted);
        let len = self.buckshot.len();
        let mut lives: usize = 0;
        let mut i: usize = 0;
        while i < len
            invariant
                len == self.buckshot@.len(),
                known.len() == len,
                known == known_shells(self.buckshot@, self.is_inverted),
                i <= len,
                lives == count_true(known.take(i as int)),
                lives <= i,
            decreases len - i,
        {
            proof {
                assert(known.take(i + 1).drop_last() =~= known.take(i as int));
            }
            let shell = self.buckshot[i] != (self.is_inverted && i + 1 == len);
            assert(shell == known[i as int]);
            if shell {
                lives = lives + 1;
            }
            i = i + 1;
        }
        proof {
            assert(known.take(len as int) =~= known);
        }
        (lives, len - lives)
    }

    /// The seat of the first player with the given name.
    pub fn index_of_player(&self, player_name: &str) -> (index: Option<usize>)
        ensures
            match index {
                Some(i) => first_index_named(self.players@, player_name@) == Some(i as nat),
                None => first_index_named(self.players@, player_name@) is None,
            },
    {
        let wanted = String::from_str(player_name);
        let mut i: usize = 0;
        while i < self.players.len()
            invariant
                i <= self.players.len(),
                wanted@ == player_name@,
                forall|j: int| 0 <= j < i ==> self.players@[j].name@ != player_name@,
            decreases self.players.len() - i,
        {
            if self.players[i].name == wanted {
                proof {
                    let k = choose|k: int|
                        0 <= k < self.players@.len() && #[trigger] self.players@[k].name@
                            == player_name@ && forall|j: int|
                            0 <= j < k ==> self.players@[j].name@ != player_name@;
                    assert(self.players@[i as int].name@ == player_name@);
                    if k > i {
                        assert(self.players@[i as int].name@ != player_name@);
                    }
                }
                return Some(i);
            }
            i = i + 1;
        }
        None
    }
}

impl Player {
    /// A player with no name, no password, no lives, no credits and no items.
    pub fn new() -> (player: Self)
        ensures
            player.name@ == Seq::<char>::empty(),
            player.password is None,
            !player.is_resetting_password,
            player.lives == 0,
            player.credits == 0,
            player.items@ == Seq::<Item>::empty(),
            player.handcuffed_level == HandcuffedLevel::Uncuffed,
    {
        Player {
            name: String::new(),
            password: None,
            is_resetting_password: false,
            lives: 0,
            credits: 0,
            items: Vec::new(),
            handcuffed_level: HandcuffedLevel::Uncuffed,
        }
    }
}

} // verus!
