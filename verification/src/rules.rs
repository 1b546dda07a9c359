//! What happens on a player's turn: handcuffs, shots and the targets for
//! them, and the rule that decides whether a shot ends the turn.
use crate::data::{GameData, HandcuffedLevel, Item, Player};
use crate::settings::credit_per_shot_for_stage;
use crate::shells::{reload_buckshot_if_needed, reload_result, ReloadReport};
use vstd::prelude::*;

verus! {

/// Two snapshots of a player agree on everything but lives, credits and
/// items.
pub open spec fn same_identity(a: Player, b: Player) -> bool {
    &&& a.name == b.name
    &&& a.password == b.password
    &&& a.is_resetting_password == b.is_resetting_password
    &&& a.handcuffed_level == b.handcuffed_level
}

/// The lives and items of `after` are those of `before` hit for `damage`: a
/// hit at least as large as the lives left takes them all and empties the
/// player's hands; a smaller one takes that many lives.
pub open spec fn damaged(before: Player, after: Player, damage: nat) -> bool {
    if damage >= before.lives {
        after.lives == 0 && after.items@.len() == 0
    } else {
        after.lives == before.lives - damage && after.items == before.items
    }
}

/// Damage a live shell does: two with a barrel extension, one without.
pub open spec fn shot_damage(has_barrel_extension: bool) -> nat {
    if has_barrel_extension { 2 } else { 1 }
}

/// Credits a shot earns its shooter: the stage's credits per shot, doubled
/// with a barrel extension.
pub open spec fn shot_credits(stage_num: nat, has_barrel_extension: bool) -> nat {
    if has_barrel_extension { 2 * stage_num } else { stage_num }
}

/// The seats of the players that still have lives, in seating order.
pub open spec fn alive_seats(players: Seq<Player>) -> Seq<usize>
    decreases players.len(),
{
    if players.len() == 0 {
        Seq::empty()
    } else if players.last().lives > 0 {
        alive_seats(players.drop_last()).push((players.len() - 1) as usize)
    } else {
        alive_seats(players.drop_last())
    }
}

/// Takes `damage` lives from a player; a player that loses all lives also
/// loses all items. Returns whether the player has no lives left.
pub fn take_damage(player: &mut Player, damage: usize) -> (lost_all: bool)
    ensures
        lost_all == (damage >= old(player).lives),
        damaged(*old(player), *final(player), damage as nat),
        same_identity(*old(player), *final(player)),
        final(player).credits == old(player).credits,
{
    if damage >= player.lives {
        player.lives = 0;
        player.items.clear();
        true
    } else {
        player.lives = player.lives - damage;
        false
    }
}

/// What the start of a turn does with a player's handcuffs.
#[derive(Debug, Copy, Clone, PartialEq, Eq, Structural)]
pub enum TurnStart {
    /// The player was free and plays.
    Plays,
    /// The handcuffs came off; the player plays.
    Uncuffed,
    /// The player was just handcuffed and skips this turn.
    Skips,
}

/// How a turn starts for a player wearing handcuffs at this level.
pub open spec fn turn_start_for(level: HandcuffedLevel) -> TurnStart {
    match level {
        HandcuffedLevel::Uncuffed => TurnStart::Plays,
        HandcuffedLevel::AlmostUncuffed => TurnStart::Uncuffed,
        HandcuffedLevel::NewlyHandcuffed => TurnStart::Skips,
    }
}

/// The handcuffs a player wears once their turn has started.
pub open spec fn cuffs_after_turn_start(level: HandcuffedLevel) -> HandcuffedLevel {
    match level {
        HandcuffedLevel::NewlyHandcuffed => HandcuffedLevel::AlmostUncuffed,
        _ => HandcuffedLevel::Uncuffed,
    }
}

/// Advances a player's handcuffs at the start of their turn: fresh handcuffs
/// make the player skip the turn and come off at the next one.
pub fn begin_turn(player: &mut Player) -> (start: TurnStart)
    ensures
        final(player).name == old(player).name,
        final(player).password == old(player).password,
        final(player).is_resetting_password == old(player).is_resetting_password,
        final(player).lives == old(player).lives,
        final(player).credits == old(player).credits,
        final(player).items == old(player).items,
        start == turn_start_for(old(player).handcuffed_level),
        final(player).handcuffed_level == cuffs_after_turn_start(old(player).handcuffed_level),
{
    match player.handcuffed_level {
        HandcuffedLevel::Uncuffed => TurnStart::Plays,
        HandcuffedLevel::AlmostUncuffed => {
            player.handcuffed_level = HandcuffedLevel::Uncuffed;
            TurnStart::Uncuffed
        },
        HandcuffedLevel::NewlyHandcuffed => {
            player.handcuffed_level = HandcuffedLevel::AlmostUncuffed;
            TurnStart::Skips
        },
    }
}

/// The seats a player can shoot at: every player with lives left,
/// the shooter included.
pub fn shoot_targets(game_data: &GameData) -> (targets: Vec<usize>)
    ensures
        targets@ == alive_seats(game_data.players@),
{
    let mut targets: Vec<usize> = Vec::new();
    let mut i: usize = 0;
    while i < game_data.players.len()
        invariant
            i <= game_data.players.len(),
            targets@ == alive_seats(game_data.players@.take(i as int)),
        decreases game_data.players.len() - i,
    {
        assert(game_data.players@.take(i + 1).drop_last() =~= game_data.players@.take(i as int));
        if game_data.players[i].lives > 0 {
            targets.push(i);
        }
        i = i + 1;
    }
    assert(game_data.players@.take(i as int) =~= game_data.players@);
    targets
}

/// What a shot did.
#[derive(Debug, Copy, Clone, PartialEq, Eq, Structural)]
pub struct ShotOutcome {
    /// The fired shell was live.
    pub is_live: bool,
    /// Credits the shooter earned.
    pub credits: usize,
    /// The target lost its last life.
    pub target_lost_all_lives: bool,
    /// The shooter's turn is over.
    pub ends_turn: bool,
    /// The buckshot ran out and was refilled.
    pub reload: Option<ReloadReport>,
}

/// The player whose turn it is fires the next shell at `target`. The
/// inverter's mark is cleared; a live shell hits the target; the shooter
/// earns the stage's credits per shot either way; a barrel extension doubles
/// both the damage and the credits, and is used up. The turn ends on a live shell, on a
/// blank fired at someone else, or when the buckshot runs out, which is then
/// refilled.
pub fn fire_at(game_data: &mut GameData, target: usize, stage_num: usize) -> (outcome: ShotOutcome)
    requires
        old(game_data).wf(),
        target < old(game_data).players@.len(),
        old(game_data).buckshot@.len() > 0,
        stage_num <= 4,
        old(game_data).players@[old(game_data).curr_player as int].credits
            + shot_credits(stage_num as nat, old(game_data).has_barrel_extension) <= usize::MAX,
    ensures
        ({
            let before = *old(game_data);
            let after = *final(game_data);
            let is_live = before.buckshot@.last();
            let damage = shot_damage(before.has_barrel_extension);
            let credits = shot_credits(stage_num as nat, before.has_barrel_extension);
            &&& outcome.is_live == is_live
            &&& outcome.credits == credits
            &&& outcome.target_lost_all_lives == (is_live && damage >= before.players@[target as int].lives)
            &&& outcome.ends_turn == (is_live || target != before.curr_player || before.buckshot@.len() == 1)
            &&& after.curr_player == before.curr_player
            &&& !after.has_barrel_extension
            &&& !after.is_inverted
            &&& after.players@.len() == before.players@.len()
            &&& forall|k: int| 0 <= k < before.players@.len() ==> {
                &&& same_identity(before.players@[k], #[trigger] after.players@[k])
                &&& after.players@[k].credits == before.players@[k].credits + if k == before.curr_player { credits } else { 0 }
                &&& if k == target && is_live {
                    damaged(before.players@[k], after.players@[k], damage)
                } else {
                    after.players@[k].lives == before.players@[k].lives
                        && after.players@[k].items == before.players@[k].items
                }
            }
            &&& if before.buckshot@.len() > 1 {
                outcome.reload is None && after.buckshot@ == before.buckshot@.drop_last()
            } else {
                outcome.reload matches Some(r) && reload_result(stage_num as nat, r, after.buckshot@)
            }
        }),
{
    let ghost before = *game_data;
    game_data.is_inverted = false;
    let is_live = match game_data.buckshot.pop() {
        Some(shell) => shell,
        None => false,
    };
    let per_shot = credit_per_shot_for_stage(stage_num);
    let credits = if game_data.has_barrel_extension { 2 * per_shot } else { per_shot };
    let mut target_lost_all_lives = false;
    let mut ends_turn;
    if is_live {
        let damage: usize = if game_data.has_barrel_extension { 2 } else { 1 };
        target_lost_all_lives = take_damage(&mut game_data.players[target], damage);
        ends_turn = true;
    } else {
        ends_turn = target != game_data.curr_player;
    }
    let shooter = game_data.get_player_mut();
    shooter.credits = shooter.credits + credits;
    game_data.has_barrel_extension = false;
    if game_data.buckshot.len() == 0 {
        ends_turn = true;
    }
    let reload = reload_buckshot_if_needed(game_data, stage_num);
    ShotOutcome { is_live, credits, target_lost_all_lives, ends_turn, reload }
}

} // verus!
