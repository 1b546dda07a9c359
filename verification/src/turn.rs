//! The course of a player's turn: what the menu offers, when the turn would
//! end, trading once, and the unknown ticket that restarts the turn.
use crate::data::{count_alive, GameData, Item, Player};
use crate::input::{menu_actions, turn_menu, TurnAction};
use crate::items::{find_item, first_position, lemma_first_position, ItemEffect};
use crate::rules::{same_identity, ShotOutcome};
use vstd::prelude::*;

verus! {

/// Where a player's turn stands.
#[derive(Debug, Copy, Clone, PartialEq, Eq, Structural)]
pub struct TurnState {
    /// The player has not traded since the turn started or restarted.
    pub can_trade: bool,
    /// An unknown ticket may still restart the turn.
    pub can_use_ticket: bool,
}

/// What comes after an action on a turn.
#[derive(Debug, Copy, Clone, PartialEq, Eq, Structural)]
pub enum TurnFlow {
    /// The player acts again.
    Continues,
    /// The turn would end here; an unknown ticket may restart it.
    WouldEnd,
    /// The turn stops at once, with no ticket: only one player is left, or
    /// the player has no lives.
    Over,
}

/// A turn as it starts: trading and the ticket are both still open.
pub open spec fn fresh_turn() -> TurnState {
    TurnState { can_trade: true, can_use_ticket: true }
}

/// The turn after a trade went through: no more trading until a restart.
pub open spec fn after_trade(state: TurnState) -> TurnState {
    TurnState { can_trade: false, ..state }
}

/// The turn after an unknown ticket restarted it: trading is open again,
/// and no ticket can restart it a second time.
pub open spec fn after_ticket(state: TurnState) -> TurnState {
    TurnState { can_trade: true, can_use_ticket: false }
}

/// The position of the unknown ticket a player is offered when the turn
/// would end: the first one in hand, if the turn may still be restarted and
/// the player has lives.
pub open spec fn ticket_offer(state: TurnState, player: Player) -> Option<nat> {
    if state.can_use_ticket && player.lives > 0 {
        first_position(player.items@, Item::UnknownTicket)
    } else {
        None
    }
}

/// What comes after a shot: the turn stops at once when only one player is
/// left; otherwise it would end when the shot ends it, and goes on else.
pub open spec fn flow_after_shot_spec(players: Seq<Player>, ends_turn: bool) -> TurnFlow {
    if count_alive(players) == 1 {
        TurnFlow::Over
    } else if ends_turn {
        TurnFlow::WouldEnd
    } else {
        TurnFlow::Continues
    }
}

/// What comes after using an item: the turn would end when the item ended
/// it; otherwise it stops when the player has no lives, and goes on else.
pub open spec fn flow_after_item_spec(player: Player, effect: ItemEffect) -> TurnFlow {
    if effect.ends_the_turn() {
        TurnFlow::WouldEnd
    } else if player.lives == 0 {
        TurnFlow::Over
    } else {
        TurnFlow::Continues
    }
}

impl TurnState {
    /// A turn as it starts.
    pub fn new() -> (state: TurnState)
        ensures
            state == fresh_turn(),
    {
        TurnState { can_trade: true, can_use_ticket: true }
    }

    /// The actions the menu offers the player now.
    pub fn menu(&self, player: &Player) -> (menu: Vec<TurnAction>)
        ensures
            menu@ == menu_actions(player.items@.len() > 0, self.can_trade),
    {
        turn_menu(player.items.len() > 0, self.can_trade)
    }

    /// Records a trade that went through.
    pub fn record_trade(&mut self)
        ensures
            *final(self) == after_trade(*old(self)),
    {
        self.can_trade = false;
    }

    /// The position of the unknown ticket to offer the player whose turn it
    /// is, now that the turn would end (see `ticket_offer`).
    pub fn ticket_to_offer(&self, game_data: &GameData) -> (offer: Option<usize>)
        requires
            game_data.wf(),
        ensures
            match offer {
                Some(i) => ticket_offer(*self, game_data.players@[game_data.curr_player as int]) == Some(i as nat),
                None => ticket_offer(*self, game_data.players@[game_data.curr_player as int]) is None,
            },
    {
        let player = game_data.get_player();
        if self.can_use_ticket && player.lives > 0 {
            find_item(&player.items, Item::UnknownTicket)
        } else {
            None
        }
    }

    /// The player whose turn it is uses the unknown ticket they were offered:
    /// it leaves their hand and the turn restarts.
    pub fn use_ticket(&mut self, game_data: &mut GameData, index: usize)
        requires
            old(game_data).wf(),
            ticket_offer(*old(self), old(game_data).players@[old(game_data).curr_player as int]) == Some(index as nat),
        ensures
            *final(self) == after_ticket(*old(self)),
            ({
                let me = old(game_data).curr_player as int;
                let before = old(game_data).players@[me];
                let after = final(game_data).players@[me];
                &&& final(game_data).curr_player == old(game_data).curr_player
                &&& final(game_data).buckshot == old(game_data).buckshot
                &&& final(game_data).has_barrel_extension == old(game_data).has_barrel_extension
                &&& final(game_data).is_inverted == old(game_data).is_inverted
                &&& final(game_data).players@.len() == old(game_data).players@.len()
                &&& forall|k: int| 0 <= k < old(game_data).players@.len() && k != me
                    ==> final(game_data).players@[k] == old(game_data).players@[k]
                &&& same_identity(before, after)
                &&& after.lives == before.lives
                &&& after.credits == before.credits
                &&& after.items@ == before.items@.remove(index as int)
            }),
    {
        proof {
            lemma_first_position(old(game_data).players@[old(game_data).curr_player as int].items@, Item::UnknownTicket);
        }
        let me = game_data.curr_player;
        game_data.players[me].items.remove(index);
        self.can_trade = true;
        self.can_use_ticket = false;
    }
}

/// What comes after a shot by the player whose turn it is.
pub fn flow_after_shot(game_data: &GameData, outcome: &ShotOutcome) -> (flow: TurnFlow)
    ensures
        flow == flow_after_shot_spec(game_data.players@, outcome.ends_turn),
{
    if game_data.count_alive_players() == 1 {
        TurnFlow::Over
    } else if outcome.ends_turn {
        TurnFlow::WouldEnd
    } else {
        TurnFlow::Continues
    }
}

/// What comes after the player whose turn it is used an item.
pub fn flow_after_item(game_data: &GameData, effect: &ItemEffect) -> (flow: TurnFlow)
    requires
        game_data.wf(),
    ensures
        flow == flow_after_item_spec(game_data.players@[game_data.curr_player as int], *effect),
{
    if effect.ends_turn() {
        TurnFlow::WouldEnd
    } else if game_data.get_player().lives == 0 {
        TurnFlow::Over
    } else {
        TurnFlow::Continues
    }
}

} // verus!
