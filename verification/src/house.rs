//! The House: a seat the program plays by itself.
use crate::data::{count_alive, count_true, known_shells, lemma_alive_exists, GameData, HandcuffedLevel, Item, Player};
use crate::items::{find_item, first_position, lemma_first_position, medicine_heals, MEDICINE_DRAWS};
use crate::rng::random_below;
use crate::rules::{begin_turn, same_identity, shot_damage, take_damage, TurnStart};
use crate::settings::{credit_per_shot_for_stage, lives_for_stage};
use crate::shells::{reload_buckshot_if_needed, reload_result, ReloadReport};
use vstd::multiset::Multiset;
use vstd::prelude::*;

verus! {

/// Whether a player is the House.
pub open spec fn is_house(player: Player) -> bool {
    player.name@ == "House"@
}

/// What the House did, in order, for the table to be told.
#[derive(Debug, Copy, Clone, PartialEq, Eq, Structural)]
pub enum HouseEvent {
    /// The House's turn (re)starts.
    TurnStarted,
    /// The House's handcuffs came off.
    Uncuffed,
    /// The House is handcuffed and skips the turn.
    SkipsTurn,
    /// The House smoked cigarettes.
    Smoked,
    /// The House took expired medicine; `healed` when it gave lives.
    TookMedicine { healed: bool },
    /// The House handcuffed the player in this seat.
    Handcuffed { target: usize },
    /// The House used a magazine.
    UsedMagazine { reload: Option<ReloadReport> },
    /// The House drank a beer, ejecting a live or a blank shell; the
    /// buckshot was refilled if that emptied it.
    DrankBeer { live: bool, reload: Option<ReloadReport> },
    /// The House put a live or blank shell into the buckshot.
    AddedShell { live: bool },
    /// The House put a live shell on top of the buckshot.
    AddedGoldShell,
    /// The House looked at the next shell.
    UsedMagnifyingGlass,
    /// The House inverted the next shell.
    UsedInverter,
    /// The House put an extension on the barrel.
    UsedBarrelExtension,
    /// The House shot the player in this seat and earned `credits`.
    ShootsPlayer { target: usize, live: bool, lost_all_lives: bool, credits: usize, reload: Option<ReloadReport> },
    /// The House shot itself and earned `credits`.
    ShootsItself { live: bool, lost_all_lives: bool, credits: usize, reload: Option<ReloadReport> },
    /// The House used an unknown ticket to play again.
    UsedUnknownTicket,
}

/// Why the House's turn could not be played to its end.
#[derive(Debug, Copy, Clone, PartialEq, Eq, Structural)]
pub enum HouseError {
    /// A shell was needed but the buckshot was empty.
    EmptyBuckshot,
    /// The House meant to shoot someone but no other player has lives.
    NoTarget,
    /// A counter or the House's credits would pass the largest `usize`.
    Overflow,
}

/// `after` is `before` with more events after it, none of which is the use
/// of an unknown ticket.
pub open spec fn adds_no_ticket(before: Seq<HouseEvent>, after: Seq<HouseEvent>) -> bool {
    &&& before.len() <= after.len()
    &&& forall|i: int| 0 <= i < before.len() ==> after[i] == before[i]
    &&& forall|i: int| before.len() <= i < after.len() ==> after[i] != HouseEvent::UsedUnknownTicket
}

/// Whether an event is a shot.
pub open spec fn is_shot(event: HouseEvent) -> bool {
    event is ShootsPlayer || event is ShootsItself
}

/// Credits an event earned the House: those of a shot, none otherwise.
pub open spec fn event_pay(event: HouseEvent) -> nat {
    match event {
        HouseEvent::ShootsPlayer { credits, .. } => credits as nat,
        HouseEvent::ShootsItself { credits, .. } => credits as nat,
        _ => 0,
    }
}

/// Credits the events of a log earned the House, in all.
pub open spec fn log_pay(events: Seq<HouseEvent>) -> nat
    decreases events.len(),
{
    if events.len() == 0 {
        0
    } else {
        log_pay(events.drop_last()) + event_pay(events.last())
    }
}

/// Every shot among the events after `before` earned the stage's credits
/// per shot, or twice that with a barrel extension.
pub open spec fn shots_pay_stage(before: Seq<HouseEvent>, after: Seq<HouseEvent>, stage_num: nat) -> bool {
    forall|i: int| before.len() <= i < after.len() && is_shot(#[trigger] after[i])
        ==> event_pay(after[i]) == stage_num || event_pay(after[i]) == 2 * stage_num
}

/// None of the events after `before` is a shot.
pub open spec fn adds_no_shot(before: Seq<HouseEvent>, after: Seq<HouseEvent>) -> bool {
    forall|i: int| before.len() <= i < after.len() ==> !is_shot(#[trigger] after[i])
}

/// Shots paid as the stage pays over two stretches of a growing log are
/// paid so over both.
proof fn lemma_shots_pay_stage_trans(a: Seq<HouseEvent>, b: Seq<HouseEvent>, c: Seq<HouseEvent>, stage_num: nat)
    requires
        a.len() <= b.len() <= c.len(),
        forall|i: int| 0 <= i < b.len() ==> c[i] == b[i],
        shots_pay_stage(a, b, stage_num),
        shots_pay_stage(b, c, stage_num),
    ensures
        shots_pay_stage(a, c, stage_num),
{
    assert forall|i: int| a.len() <= i < c.len() && is_shot(#[trigger] c[i])
        implies event_pay(c[i]) == stage_num || event_pay(c[i]) == 2 * stage_num by {
        if i < b.len() {
            assert(c[i] == b[i]);
        }
    }
}

/// A stretch of a log without shots pays as any stage pays.
proof fn lemma_quiet_pays(a: Seq<HouseEvent>, b: Seq<HouseEvent>, stage_num: nat)
    requires
        adds_no_shot(a, b),
    ensures
        shots_pay_stage(a, b, stage_num),
{
}

/// Whether some player other than the House has lives left.
pub open spec fn someone_else_alive(players: Seq<Player>) -> bool {
    exists|k: int| 0 <= k < players.len() && !is_house(#[trigger] players[k]) && players[k].lives > 0
}

/// Whether no seat but `me` holds a player named "House".
pub open spec fn only_house_at(players: Seq<Player>, me: int) -> bool {
    forall|k: int| 0 <= k < players.len() && k != me ==> !is_house(#[trigger] players[k])
}

/// Every player but the one whose turn it is keeps their lives.
pub open spec fn others_keep_lives(before: GameData, after: GameData) -> bool {
    forall|k: int| 0 <= k < before.players@.len() && k != before.curr_player
        ==> (#[trigger] after.players@[k]).lives == before.players@[k].lives
}

/// The most lives among the players other than the House belong to one of
/// them, and no other of them has more.
proof fn lemma_highest_attained(players: Seq<Player>)
    ensures
        forall|k: int| 0 <= k < players.len() && !is_house(#[trigger] players[k])
            ==> players[k].lives <= highest_other_lives(players),
        highest_other_lives(players) > 0 ==> exists|k: int| 0 <= k < players.len()
            && !is_house(#[trigger] players[k]) && players[k].lives == highest_other_lives(players),
    decreases players.len(),
{
    if players.len() > 0 {
        let rest = players.drop_last();
        lemma_highest_attained(rest);
        assert forall|k: int| 0 <= k < players.len() && !is_house(#[trigger] players[k])
            implies players[k].lives <= highest_other_lives(players) by {
            if k < rest.len() {
                assert(players[k] == rest[k]);
            }
        }
        if highest_other_lives(players) > 0 && highest_other_lives(players) == highest_other_lives(rest) {
            let k = choose|k: int| 0 <= k < rest.len() && !is_house(#[trigger] rest[k])
                && rest[k].lives == highest_other_lives(rest);
            assert(players[k] == rest[k]);
        }
        if highest_other_lives(players) != highest_other_lives(rest) {
            assert(!is_house(players[players.len() - 1]));
        }
    }
}

/// A player other than the House with the given lives, among the first `n`
/// seats, puts a seat among the targets.
proof fn lemma_target_listed(players: Seq<Player>, highest: nat, n: nat, k: int)
    requires
        n <= players.len(),
        0 <= k < n,
        !is_house(players[k]),
        players[k].lives > 0,
        players[k].lives == highest,
    ensures
        target_seats(players, highest, n).len() > 0,
    decreases n,
{
    if k < n - 1 {
        lemma_target_listed(players, highest, (n - 1) as nat, k);
    }
}

/// Tables that agree on who is the House and on the lives of everyone else
/// give the House the same targets.
proof fn lemma_targets_same(a: Seq<Player>, b: Seq<Player>, n: nat)
    requires
        n <= a.len(),
        a.len() == b.len(),
        forall|k: int| 0 <= k < a.len() ==> is_house(#[trigger] a[k]) == is_house(b[k]),
        forall|k: int| 0 <= k < a.len() && !is_house(#[trigger] a[k]) ==> a[k].lives == b[k].lives,
    ensures
        highest_other_lives(a.take(n as int)) == highest_other_lives(b.take(n as int)),
        forall|h: nat| target_seats(a, h, n) == target_seats(b, h, n),
    decreases n,
{
    if n > 0 {
        lemma_targets_same(a, b, (n - 1) as nat);
        assert(a.take(n as int).drop_last() =~= a.take(n - 1));
        assert(b.take(n as int).drop_last() =~= b.take(n - 1));
        assert(a.take(n as int).last() == a[n - 1]);
        assert(b.take(n as int).last() == b[n - 1]);
        assert(is_house(a[n - 1]) == is_house(b[n - 1]));
        assert forall|h: nat| target_seats(a, h, n) == target_seats(b, h, n) by {
            assert(target_seats(a, h, (n - 1) as nat) == target_seats(b, h, (n - 1) as nat));
        }
    }
}

/// Tables that agree on who is the House and on the lives of everyone else
/// give the House the same targets, whole.
proof fn lemma_same_targets(a: Seq<Player>, b: Seq<Player>)
    requires
        a.len() == b.len(),
        forall|k: int| 0 <= k < a.len() ==> is_house(#[trigger] a[k]) == is_house(b[k]),
        forall|k: int| 0 <= k < a.len() && !is_house(#[trigger] a[k]) ==> a[k].lives == b[k].lives,
    ensures
        target_seats(a, highest_other_lives(a), a.len()) == target_seats(b, highest_other_lives(b), b.len()),
{
    lemma_targets_same(a, b, a.len());
    assert(a.take(a.len() as int) =~= a);
    assert(b.take(b.len() as int) =~= b);
}

/// A step of the House's turn that keeps names and everyone else's lives
/// keeps the House's targets.
proof fn lemma_step_keeps_targets(a: GameData, b: GameData)
    requires
        house_turn_ready(a),
        house_changes(a, b),
        others_keep_lives(a, b),
    ensures
        target_seats(a.players@, highest_other_lives(a.players@), a.players@.len())
            == target_seats(b.players@, highest_other_lives(b.players@), b.players@.len()),
{
    assert forall|k: int| 0 <= k < a.players@.len() implies is_house(#[trigger] a.players@[k]) == is_house(b.players@[k]) by {
        assert(b.players@[k].name == a.players@[k].name);
    }
    lemma_same_targets(a.players@, b.players@);
}

/// Whether none of the events from `from` on is a shot at another player.
pub open spec fn no_shot_at_others(events: Seq<HouseEvent>, from: int, to: int) -> bool {
    forall|j: int| from <= j < to ==> !(#[trigger] events[j] is ShootsPlayer)
}

/// What a shot at another player left on the table: the seat is another
/// player's, not the House's, and a shot that took the last life left that
/// player with no lives and an empty hand.
pub open spec fn shot_recorded(event: HouseEvent, game_data: GameData) -> bool {
    event matches HouseEvent::ShootsPlayer { target, lost_all_lives, .. } ==> {
        &&& target < game_data.players@.len()
        &&& target != game_data.curr_player
        &&& !is_house(game_data.players@[target as int])
        &&& lost_all_lives ==> game_data.players@[target as int].lives == 0
            && game_data.players@[target as int].items@.len() == 0
    }
}

/// What a shot left on the table stays through the rest of the House's turn.
proof fn lemma_shot_record_persists(event: HouseEvent, a: GameData, b: GameData)
    requires
        house_changes(a, b),
        shot_recorded(event, a),
    ensures
        shot_recorded(event, b),
{
    if let HouseEvent::ShootsPlayer { target, .. } = event {
        assert(b.players@[target as int].name == a.players@[target as int].name);
    }
}

/// The House's targets at a moment of the table.
pub open spec fn house_targets(game_data: GameData) -> Seq<usize> {
    target_seats(game_data.players@, highest_other_lives(game_data.players@), game_data.players@.len())
}

/// When a player other than the House has lives, the House has someone to
/// aim at.
proof fn lemma_target_exists(players: Seq<Player>)
    requires
        someone_else_alive(players),
    ensures
        target_seats(players, highest_other_lives(players), players.len()).len() > 0,
{
    lemma_highest_attained(players);
    let j = choose|j: int| 0 <= j < players.len() && !is_house(#[trigger] players[j]) && players[j].lives > 0;
    assert(players[j].lives <= highest_other_lives(players));
    let k = choose|k: int| 0 <= k < players.len() && !is_house(#[trigger] players[k])
        && players[k].lives == highest_other_lives(players);
    lemma_target_listed(players, highest_other_lives(players), players.len(), k);
}

/// Keeping the other players' lives composes.
proof fn lemma_others_keep_trans(a: GameData, b: GameData, c: GameData)
    requires
        b.curr_player == a.curr_player,
        b.players@.len() == a.players@.len(),
        others_keep_lives(a, b),
        others_keep_lives(b, c),
    ensures
        others_keep_lives(a, c),
{
    assert forall|k: int| 0 <= k < a.players@.len() && k != a.curr_player
        implies (#[trigger] c.players@[k]).lives == a.players@[k].lives by {
        assert(b.players@[k].lives == a.players@[k].lives);
    }
}

/// A player with lives counts among the living.
proof fn lemma_alive_count_positive(players: Seq<Player>, me: int)
    requires
        0 <= me < players.len(),
        players[me].lives > 0,
    ensures
        count_alive(players) >= 1,
    decreases players.len(),
{
    if me < players.len() - 1 {
        lemma_alive_count_positive(players.drop_last(), me);
        assert(players.drop_last()[me] == players[me]);
    }
}

/// With two players alive, someone besides seat `me` is alive.
proof fn lemma_alive_besides(players: Seq<Player>, me: int)
    requires
        0 <= me < players.len(),
        count_alive(players) >= 2,
    ensures
        exists|k: int| 0 <= k < players.len() && k != me && #[trigger] players[k].lives > 0,
    decreases players.len(),
{
    let last = players.len() - 1;
    let rest = players.drop_last();
    if last != me && players[last].lives > 0 {
        assert(players[last].lives > 0);
    } else if last == me {
        lemma_alive_exists(rest);
        let k = choose|k: int| 0 <= k < rest.len() && #[trigger] rest[k].lives > 0;
        assert(players[k] == rest[k]);
    } else {
        lemma_alive_besides(rest, me);
        let k = choose|k: int| 0 <= k < rest.len() && k != me && #[trigger] rest[k].lives > 0;
        assert(players[k] == rest[k]);
    }
}

/// A House turn step that keeps the other players' lives keeps someone
/// other than the House alive, and keeps the House alone in its name.
proof fn lemma_someone_else_stays(a: GameData, b: GameData)
    requires
        house_turn_ready(a),
        house_changes(a, b),
        others_keep_lives(a, b),
    ensures
        someone_else_alive(a.players@) ==> someone_else_alive(b.players@),
        only_house_at(a.players@, a.curr_player as int) ==> only_house_at(b.players@, b.curr_player as int),
{
    if someone_else_alive(a.players@) {
        let k = choose|k: int| 0 <= k < a.players@.len() && !is_house(#[trigger] a.players@[k]) && a.players@[k].lives > 0;
        assert(b.players@[k].name == a.players@[k].name);
        assert(!is_house(b.players@[k]));
    }
    if only_house_at(a.players@, a.curr_player as int) {
        assert forall|k: int| 0 <= k < b.players@.len() && k != b.curr_player implies !is_house(#[trigger] b.players@[k]) by {
            assert(b.players@[k].name == a.players@[k].name);
            assert(!is_house(a.players@[k]));
        }
    }
}

/// The House's lives.
pub open spec fn house_lives(game_data: GameData) -> nat {
    game_data.players@[game_data.curr_player as int].lives as nat
}

/// Whether an event is a beer that emptied the buckshot, which was then
/// refilled.
pub open spec fn empties_buckshot(event: HouseEvent) -> bool {
    event matches HouseEvent::DrankBeer { reload: Some(_), .. }
}

/// Whether an event ends the House's play: a shot, or a beer that emptied
/// the buckshot.
pub open spec fn ends_house_play(event: HouseEvent) -> bool {
    is_shot(event) || empties_buckshot(event)
}

/// The room the House's turn has to play with: the buckshot (counted as at
/// least a full load of eight shells) and the House's hand.
pub open spec fn house_room(game_data: GameData) -> int {
    (if game_data.buckshot@.len() > 8 { game_data.buckshot@.len() as int } else { 8int }) + house_hand(game_data).len()
}

/// Whether the House's counts and credits stay within a `usize` however its
/// turn goes: every shot pays at most eight credits, and a turn fires fewer
/// than sixteen shots per shell or item of room.
pub open spec fn house_counts_fit(game_data: GameData) -> bool {
    house_credits(game_data) + 16 * house_room(game_data) <= usize::MAX
}

/// The House's credits.
pub open spec fn house_credits(game_data: GameData) -> nat {
    game_data.players@[game_data.curr_player as int].credits as nat
}

/// Whether the House's play may go on after an event that ends it (so that
/// an unknown ticket lets it play again): after a shot at another player
/// while more than one player has lives; after a shot at itself unless a
/// live shell took its last life; after a beer that emptied the buckshot.
pub open spec fn play_goes_on(event: HouseEvent, game_data: GameData) -> bool {
    match event {
        HouseEvent::ShootsPlayer { .. } => count_alive(game_data.players@) != 1,
        HouseEvent::ShootsItself { live, lost_all_lives, .. } => !(live && lost_all_lives),
        HouseEvent::DrankBeer { .. } => true,
        _ => false,
    }
}

/// How a played House turn closes, over the events from `before` on: the
/// last event ends the House's play, and a buckshot it refilled holds the
/// stage's reload; an unknown ticket is followed by a new start of the turn
/// and more play; and without a ticket used, the play stopped because it
/// could not go on or the House holds no ticket.
pub open spec fn house_play_closed(before: Seq<HouseEvent>, after: Seq<HouseEvent>, game_data: GameData, stage_num: nat) -> bool {
    &&& after.len() > before.len()
    &&& ends_house_play(after.last())
    &&& event_reload(after.last()) matches Some(r) ==> reload_result(stage_num, r, game_data.buckshot@)
    &&& forall|t: int| before.len() <= t < after.len() && #[trigger] after[t] == HouseEvent::UsedUnknownTicket
        ==> t + 2 < after.len() && after[t + 1] == HouseEvent::TurnStarted
    &&& (forall|t: int| before.len() <= t < after.len() ==> #[trigger] after[t] != HouseEvent::UsedUnknownTicket)
        ==> !play_goes_on(after.last(), game_data) || !house_hand(game_data).contains(Item::UnknownTicket)
}

/// Players with the same lives seat by seat count as many with lives.
proof fn lemma_same_alive(a: Seq<Player>, b: Seq<Player>)
    requires
        a.len() == b.len(),
        forall|k: int| 0 <= k < a.len() ==> (#[trigger] a[k]).lives == b[k].lives,
    ensures
        count_alive(a) == count_alive(b),
    decreases a.len(),
{
    if a.len() > 0 {
        lemma_same_alive(a.drop_last(), b.drop_last());
    }
}

/// Taking off the House's own handcuffs changes nothing its first pass goes by.
proof fn lemma_first_pass_after_opening(start: GameData, uncuffed: GameData, after: GameData, stage_num: nat)
    requires
        house_turn_ready(start),
        uncuffed.curr_player == start.curr_player,
        uncuffed.buckshot == start.buckshot,
        uncuffed.is_inverted == start.is_inverted,
        uncuffed.players@.len() == start.players@.len(),
        forall|k: int| 0 <= k < start.players@.len() && k != start.curr_player
            ==> uncuffed.players@[k] == start.players@[k],
        uncuffed.players@[start.curr_player as int].items == start.players@[start.curr_player as int].items,
        uncuffed.players@[start.curr_player as int].lives == start.players@[start.curr_player as int].lives,
        uncuffed.players@[start.curr_player as int].name == start.players@[start.curr_player as int].name,
        first_pass_completes(start) ==> first_pass_uses_items(uncuffed, after, stage_num),
    ensures
        first_pass_completes(start) ==> first_pass_uses_items(start, after, stage_num),
{
    assert forall|k: int| 0 <= k < start.players@.len() implies can_be_cuffed_by_house(#[trigger] start.players@[k])
        == can_be_cuffed_by_house(uncuffed.players@[k]) by {
        if k == start.curr_player {
            assert(is_house(start.players@[k]));
        }
    }
    lemma_cuffable_same(start.players@, uncuffed.players@, start.players@.len());
    assert(first_pass_completes(start) ==> first_pass_completes(uncuffed));
}

/// Opening events, which use no ticket, leave how a turn closes unchanged.
proof fn lemma_closed_after_opening(
    first: Seq<HouseEvent>,
    opening: Seq<HouseEvent>,
    last: Seq<HouseEvent>,
    game_data: GameData,
    stage_num: nat,
)
    requires
        first.len() <= opening.len(),
        forall|i: int| first.len() <= i < opening.len() ==> #[trigger] opening[i] != HouseEvent::UsedUnknownTicket,
        forall|i: int| 0 <= i < opening.len() ==> last[i] == opening[i],
        house_play_closed(opening, last, game_data, stage_num),
    ensures
        house_play_closed(first, last, game_data, stage_num),
{
    assert forall|t: int| first.len() <= t < last.len() && #[trigger] last[t] == HouseEvent::UsedUnknownTicket
        implies t + 2 < last.len() && last[t + 1] == HouseEvent::TurnStarted by {
        if t < opening.len() {
            assert(last[t] == opening[t]);
        }
    }
}

/// The reload an event reports: that of a shot, a beer or a magazine.
pub open spec fn event_reload(event: HouseEvent) -> Option<ReloadReport> {
    match event {
        HouseEvent::ShootsPlayer { reload, .. } => reload,
        HouseEvent::ShootsItself { reload, .. } => reload,
        HouseEvent::DrankBeer { reload, .. } => reload,
        HouseEvent::UsedMagazine { reload } => reload,
        _ => None,
    }
}

/// The credits one shot pays: the stage's credits, doubled with a barrel
/// extension.
pub open spec fn shot_pay(stage_num: nat, extended: bool) -> nat {
    if extended { 2 * stage_num } else { stage_num }
}

/// The lives a player keeps after a shell is fired at them: a live shell
/// takes one life, two with a barrel extension, and never more than they
/// have; a blank takes none.
pub open spec fn lives_after_shell(lives: nat, live: bool, extended: bool) -> nat {
    if !live {
        lives
    } else if shot_damage(extended) >= lives {
        0
    } else {
        (lives - shot_damage(extended)) as nat
    }
}

/// The blanks on top of the buckshot, above its first live shell (the top
/// is the last shell).
pub open spec fn blanks_on_top(shells: Seq<bool>) -> nat
    decreases shells.len(),
{
    if shells.len() == 0 || shells.last() {
        0
    } else {
        1 + blanks_on_top(shells.drop_last())
    }
}

/// How many shells the House fires at itself while it keeps expecting
/// blanks: the blanks on top and the live shell under them, or every shell
/// when none is live.
pub open spec fn self_shots(shells: Seq<bool>) -> nat {
    if blanks_on_top(shells) < shells.len() {
        blanks_on_top(shells) + 1
    } else {
        shells.len()
    }
}

/// What the House expects of the next shell when no item of its own bears
/// on it, from the live and blank shells it knows of and its own lives: a
/// blank when it knows of no live shell; a live shell when it knows of no
/// blank, or when it is on its last life; `None` when it leaves it to a draw.
pub open spec fn house_sure_guess(lives_known: nat, blanks_known: nat, lives: nat) -> Option<bool> {
    if lives_known == 0 {
        Some(false)
    } else if blanks_known == 0 {
        Some(true)
    } else if lives == 1 {
        Some(true)
    } else {
        None
    }
}

/// What the House expects of the next shell at this moment of the table,
/// when no item of its own bears on it (see `house_sure_guess`).
pub open spec fn house_expects(game_data: GameData) -> Option<bool> {
    let lives_known = count_true(known_shells(game_data.buckshot@, game_data.is_inverted));
    house_sure_guess(lives_known, (game_data.buckshot@.len() - lives_known) as nat, house_lives(game_data))
}

/// The House, expecting a live shell, shot one of the other players with the
/// most lives once, with the shell on top: that player lost what the shell
/// took, nobody else lost a life, the House earned the shot's credits, and
/// the shell left the buckshot (refilled if it was the last).
pub open spec fn shot_another(
    before: GameData,
    after: GameData,
    events_before: Seq<HouseEvent>,
    events_after: Seq<HouseEvent>,
    stage_num: nat,
) -> bool {
    let shells = before.buckshot@;
    let extended = before.has_barrel_extension;
    &&& events_after.len() == events_before.len() + 1
    &&& (events_after.last() matches HouseEvent::ShootsPlayer { target, live, credits, .. }
        && house_targets(before).contains(target)
        && live == shells.last()
        && credits == shot_pay(stage_num, extended)
        && after.players@[target as int].lives == lives_after_shell(
            before.players@[target as int].lives as nat,
            live,
            extended,
        )
        && forall|k: int| 0 <= k < before.players@.len() && k != target
            ==> (#[trigger] after.players@[k]).lives == before.players@[k].lives)
    &&& house_credits(after) == house_credits(before) + shot_pay(stage_num, extended)
    &&& shells.len() > 1 ==> after.buckshot@ == shells.drop_last()
    &&& shells.len() == 1 ==> (event_reload(events_after.last()) matches Some(r)
        && reload_result(stage_num, r, after.buckshot@))
    &&& !after.is_inverted
}

/// The House, expecting blanks, shot itself with the shells on top until a
/// live shell or the end of the buckshot (then refilled): it lost what the
/// live shell took (two lives only when it was the first shot and the barrel
/// was extended), nobody else lost a life, and the first shot earned the
/// shot's credits and each later one the stage's credits.
pub open spec fn shot_itself(
    before: GameData,
    after: GameData,
    events_before: Seq<HouseEvent>,
    events_after: Seq<HouseEvent>,
    stage_num: nat,
) -> bool {
    let shells = before.buckshot@;
    let shots = self_shots(shells);
    let extended = before.has_barrel_extension;
    let me = before.curr_player as int;
    &&& events_after.len() == events_before.len() + shots
    &&& forall|j: int| events_before.len() <= j < events_after.len() ==> #[trigger] events_after[j] is ShootsItself
    &&& forall|k: int| 0 <= k < before.players@.len() && k != me
        ==> (#[trigger] after.players@[k]).lives == before.players@[k].lives
    &&& house_lives(after) == lives_after_shell(
        house_lives(before),
        blanks_on_top(shells) < shells.len(),
        extended && shots == 1,
    )
    &&& house_credits(after) == house_credits(before) + shot_pay(stage_num, extended) + (shots - 1) * stage_num
    &&& shots < shells.len() ==> after.buckshot@ == shells.take(shells.len() - shots)
    &&& shots == shells.len() ==> (event_reload(events_after.last()) matches Some(r)
        && reload_result(stage_num, r, after.buckshot@))
    &&& !after.is_inverted
}

/// The House's play from `before` when no item of its own bears on its
/// shot: one shot at another player when it expects a live shell, shots at
/// itself when it expects a blank (nothing is said when it draws).
pub open spec fn plain_house_play(
    before: GameData,
    after: GameData,
    events_before: Seq<HouseEvent>,
    events_after: Seq<HouseEvent>,
    stage_num: nat,
) -> bool {
    match house_expects(before) {
        Some(true) => shot_another(before, after, events_before, events_after, stage_num),
        Some(false) => shot_itself(before, after, events_before, events_after, stage_num),
        None => true,
    }
}

/// The events that open a House turn that is played: the turn starts, and
/// handcuffs that were coming off come off.
pub open spec fn turn_opening(cuffs: HandcuffedLevel) -> Seq<HouseEvent> {
    if cuffs == HandcuffedLevel::AlmostUncuffed {
        seq![HouseEvent::TurnStarted, HouseEvent::Uncuffed]
    } else {
        seq![HouseEvent::TurnStarted]
    }
}

/// Whether a hand holds nothing but beers.
pub open spec fn only_beers(items: Seq<Item>) -> bool {
    forall|i: int| 0 <= i < items.len() ==> items[i] == Item::Beer
}

/// Whether the House's beers alone empty the buckshot: its hand holds
/// nothing but beers, it drinks them (see `house_drinks`, on the shells it
/// knows of), and they are at least as many as the shells.
pub open spec fn beers_empty_buckshot(game_data: GameData) -> bool {
    let lives_known = count_true(known_shells(game_data.buckshot@, game_data.is_inverted));
    &&& only_beers(house_hand(game_data))
    &&& house_drinks(lives_known, (game_data.buckshot@.len() - lives_known) as nat)
    &&& house_hand(game_data).len() >= game_data.buckshot@.len() > 0
}

/// A hand that gives up items gains none it did not hold.
proof fn lemma_not_held_subset(a: Seq<Item>, b: Seq<Item>, item: Item)
    requires
        !a.contains(item),
        b.to_multiset().subset_of(a.to_multiset()),
    ensures
        !b.contains(item),
{
    broadcast use vstd::seq_lib::group_to_multiset_ensures;
    assert(b.to_multiset().count(item) <= a.to_multiset().count(item));
}

/// Whether every player without lives holds no items.
pub open spec fn dead_hold_nothing(players: Seq<Player>) -> bool {
    forall|k: int| 0 <= k < players.len() && (#[trigger] players[k]).lives == 0 ==> players[k].items@.len() == 0
}

/// A House turn leaves every player without lives empty-handed, when they
/// were so before.
proof fn lemma_dead_hold_nothing(a: GameData, b: GameData)
    requires
        a.wf(),
        house_changes(a, b),
        dead_hold_nothing(a.players@),
    ensures
        dead_hold_nothing(b.players@),
{
    broadcast use vstd::seq_lib::group_to_multiset_ensures;
    let me = a.curr_player as int;
    assert forall|k: int| 0 <= k < b.players@.len() && (#[trigger] b.players@[k]).lives == 0
        implies b.players@[k].items@.len() == 0 by {
        if k == me && a.players@[me].lives == 0 {
            let hand = b.players@[me].items@;
            if hand.len() > 0 {
                assert(hand.to_multiset().count(hand[0]) > 0);
                assert(a.players@[me].items@.to_multiset().count(hand[0]) > 0);
                assert(a.players@[me].items@.contains(hand[0]));
            }
        }
    }
}

/// Whether the House's first pass over its hand goes through all of it: it
/// holds no beer, or does not drink (see `house_drinks`, on the shells it
/// knows of), so that no beer can end its play part way.
pub open spec fn first_pass_completes(game_data: GameData) -> bool {
    let lives_known = count_true(known_shells(game_data.buckshot@, game_data.is_inverted));
    count_in(house_hand(game_data), Item::Beer) == 0
        || !house_drinks(lives_known, (game_data.buckshot@.len() - lives_known) as nat)
}

/// Whether the House, holding a magnifying glass and no shells to add, knows
/// of both live shells and blanks in a loaded buckshot from stage 1 on: then
/// it looks at the next shell before its first shot.
pub open spec fn house_must_look(game_data: GameData, stage_num: nat) -> bool {
    let lives_known = count_true(known_shells(game_data.buckshot@, game_data.is_inverted));
    &&& house_hand(game_data).contains(Item::MagnifyingGlass)
    &&& holds_no_shells(house_hand(game_data))
    &&& lives_known > 0
    &&& game_data.buckshot@.len() > lives_known
    &&& 1 <= stage_num
}

/// What the House's turn from `before` to `after` shows of its first pass,
/// when that pass goes through its whole hand: missing a life and holding
/// cigarettes but no expired medicine, it smokes at least one; holding
/// handcuffs while someone can take them, it uses at least one; holding a
/// magazine, it uses one; when it must look (`house_must_look`), it uses a
/// magnifying glass. The items leave its hand.
pub open spec fn first_pass_uses_items(before: GameData, after: GameData, stage_num: nat) -> bool {
    let hand = house_hand(before);
    let left = house_hand(after);
    &&& count_in(hand, Item::Cigarettes) > 0 && count_in(hand, Item::ExpiredMedicine) == 0
        && house_lives(before) < stage_num + 1
        ==> count_in(left, Item::Cigarettes) < count_in(hand, Item::Cigarettes)
    &&& count_in(hand, Item::Handcuffs) > 0 && cuffable_count(before.players@) > 0
        ==> count_in(left, Item::Handcuffs) < count_in(hand, Item::Handcuffs)
    &&& count_in(hand, Item::Magazine) > 0 ==> count_in(left, Item::Magazine) < count_in(hand, Item::Magazine)
    &&& house_must_look(before, stage_num)
        ==> count_in(left, Item::MagnifyingGlass) < count_in(hand, Item::MagnifyingGlass)
}

/// Adds an event to the log.
fn log_event(events: &mut Vec<HouseEvent>, event: HouseEvent)
    ensures
        final(events)@ == old(events)@.push(event),
        log_pay(final(events)@) == log_pay(old(events)@) + event_pay(event),
{
    events.push(event);
    assert(events@.drop_last() =~= old(events)@);
}

/// What a House turn may change: nobody's name or password; other players
/// keep their credits, lose lives only, keep their items unless they lose
/// their last life (then their hands are empty), and may be newly
/// handcuffed; the House only gains credits and only gives up items, and
/// holds none once it loses its last life.
pub open spec fn house_changes(before: GameData, after: GameData) -> bool {
    let me = before.curr_player as int;
    &&& after.curr_player == before.curr_player
    &&& after.players@.len() == before.players@.len()
    &&& forall|k: int| 0 <= k < before.players@.len() ==> {
        &&& (#[trigger] after.players@[k]).name == before.players@[k].name
        &&& after.players@[k].password == before.players@[k].password
        &&& after.players@[k].is_resetting_password == before.players@[k].is_resetting_password
    }
    &&& forall|k: int| 0 <= k < before.players@.len() && k != me ==> {
        &&& (#[trigger] after.players@[k]).credits == before.players@[k].credits
        &&& after.players@[k].lives <= before.players@[k].lives
        &&& (after.players@[k].items == before.players@[k].items
            || (after.players@[k].lives == 0 && after.players@[k].items@.len() == 0))
        &&& (after.players@[k].lives == 0 && before.players@[k].lives > 0 ==> after.players@[k].items@.len() == 0)
        &&& (after.players@[k].handcuffed_level == before.players@[k].handcuffed_level
            || (before.players@[k].handcuffed_level == HandcuffedLevel::Uncuffed
                && after.players@[k].handcuffed_level == HandcuffedLevel::NewlyHandcuffed))
    }
    &&& after.players@[me].credits >= before.players@[me].credits
    &&& after.players@[me].items@.to_multiset().subset_of(before.players@[me].items@.to_multiset())
    &&& (after.players@[me].lives == 0 && before.players@[me].lives > 0 ==> after.players@[me].items@.len() == 0)
}

/// `house_changes` composes.
proof fn lemma_house_changes_trans(a: GameData, b: GameData, c: GameData)
    requires
        a.wf(),
        house_changes(a, b),
        house_changes(b, c),
    ensures
        house_changes(a, c),
{
    let me = a.curr_player as int;
    assert forall|k: int| 0 <= k < a.players@.len() implies {
        &&& (#[trigger] c.players@[k]).name == a.players@[k].name
        &&& c.players@[k].password == a.players@[k].password
        &&& c.players@[k].is_resetting_password == a.players@[k].is_resetting_password
    } by {
        assert(b.players@[k].name == a.players@[k].name);
        assert(c.players@[k].name == b.players@[k].name);
    }
    assert forall|k: int| 0 <= k < a.players@.len() && k != me implies {
        &&& (#[trigger] c.players@[k]).credits == a.players@[k].credits
        &&& c.players@[k].lives <= a.players@[k].lives
        &&& (c.players@[k].items == a.players@[k].items
            || (c.players@[k].lives == 0 && c.players@[k].items@.len() == 0))
        &&& (c.players@[k].lives == 0 && a.players@[k].lives > 0 ==> c.players@[k].items@.len() == 0)
        &&& (c.players@[k].handcuffed_level == a.players@[k].handcuffed_level
            || (a.players@[k].handcuffed_level == HandcuffedLevel::Uncuffed
                && c.players@[k].handcuffed_level == HandcuffedLevel::NewlyHandcuffed))
    } by {
        assert(b.players@[k].credits == a.players@[k].credits);
        assert(c.players@[k].credits == b.players@[k].credits);
    }
    let hb = b.players@[me].items@;
    let hc = c.players@[me].items@;
    if c.players@[me].lives == 0 && a.players@[me].lives > 0 && b.players@[me].lives == 0 {
        broadcast use vstd::seq_lib::group_to_multiset_ensures;
        if hc.len() > 0 {
            assert(hc.contains(hc[0]));
            assert(hb =~= Seq::<Item>::empty());
            assert(!hb.contains(hc[0]));
            assert(hb.to_multiset().count(hc[0]) == 0);
            assert(hc.to_multiset().count(hc[0]) > 0);
        }
    }
}

/// A House turn that changes nothing satisfies `house_changes`.
proof fn lemma_house_changes_refl(a: GameData)
    requires
        a.wf(),
    ensures
        house_changes(a, a),
{
}

/// The House's hand.
pub open spec fn house_hand(game_data: GameData) -> Seq<Item> {
    game_data.players@[game_data.curr_player as int].items@
}

/// `after` is `before` where the House gave up the item at position `i` of
/// its hand, the table being otherwise as it was (the buckshot and the flags
/// aside).
pub open spec fn house_gave_up(before: GameData, after: GameData, i: int) -> bool {
    let me = before.curr_player as int;
    &&& after.curr_player == before.curr_player
    &&& after.players@.len() == before.players@.len()
    &&& forall|k: int| 0 <= k < before.players@.len() && k != me ==> after.players@[k] == before.players@[k]
    &&& same_identity(before.players@[me], after.players@[me])
    &&& after.players@[me].lives == before.players@[me].lives
    &&& after.players@[me].credits == before.players@[me].credits
    &&& 0 <= i < house_hand(before).len()
    &&& house_hand(after) == house_hand(before).remove(i)
}

/// The buckshot with its next shell (the last one) turned into its opposite.
pub open spec fn flip_next(shells: Seq<bool>) -> Seq<bool> {
    shells.update(shells.len() - 1, !shells.last())
}

/// An item has a first position exactly when the hand holds it.
proof fn lemma_first_position_held(items: Seq<Item>, item: Item)
    ensures
        (first_position(items, item) is Some) == items.contains(item),
{
    lemma_first_position(items, item);
}

/// Giving up an item of another kind keeps whether a hand holds `item`.
proof fn lemma_removal_keeps_holding(items: Seq<Item>, i: int, item: Item)
    requires
        0 <= i < items.len(),
        items[i] != item,
    ensures
        items.remove(i).contains(item) == items.contains(item),
{
    if items.contains(item) {
        let j = choose|j: int| 0 <= j < items.len() && items[j] == item;
        if j < i {
            assert(items.remove(i)[j] == item);
        } else {
            assert(items.remove(i)[j - 1] == item);
        }
    }
    if items.remove(i).contains(item) {
        let j = choose|j: int| 0 <= j < items.remove(i).len() && items.remove(i)[j] == item;
        if j < i {
            assert(items[j] == item);
        } else {
            assert(items[j + 1] == item);
        }
    }
}

/// Removing one of the House's items is a change a House turn may make.
proof fn lemma_remove_item_changes(before: GameData, after: GameData, i: int)
    requires
        before.wf(),
        0 <= i < before.players@[before.curr_player as int].items@.len(),
        after.curr_player == before.curr_player,
        after.players@.len() == before.players@.len(),
        forall|k: int| 0 <= k < before.players@.len() && k != before.curr_player ==> after.players@[k] == before.players@[k],
        after.players@[before.curr_player as int].name == before.players@[before.curr_player as int].name,
        after.players@[before.curr_player as int].password == before.players@[before.curr_player as int].password,
        after.players@[before.curr_player as int].is_resetting_password == before.players@[before.curr_player as int].is_resetting_password,
        after.players@[before.curr_player as int].credits == before.players@[before.curr_player as int].credits,
        after.players@[before.curr_player as int].lives == before.players@[before.curr_player as int].lives,
        after.players@[before.curr_player as int].items@ == before.players@[before.curr_player as int].items@.remove(i),
    ensures
        house_changes(before, after),
{
    broadcast use vstd::seq_lib::group_to_multiset_ensures;
    broadcast use vstd::multiset::group_multiset_axioms;
    let s = before.players@[before.curr_player as int].items@;
    assert(s.remove(i).to_multiset() == s.to_multiset().remove(s[i]));
}

/// Largest number of lives among the players that are not the House.
pub open spec fn highest_other_lives(players: Seq<Player>) -> nat
    decreases players.len(),
{
    if players.len() == 0 {
        0
    } else {
        let rest = highest_other_lives(players.drop_last());
        if !is_house(players.last()) && players.last().lives > rest {
            players.last().lives as nat
        } else {
            rest
        }
    }
}

/// The seats, among the first `n`, of players that are not the House, have
/// lives, and have as many as `highest`.
pub open spec fn target_seats(players: Seq<Player>, highest: nat, n: nat) -> Seq<usize>
    decreases n,
{
    if n == 0 {
        Seq::empty()
    } else {
        let rest = target_seats(players, highest, (n - 1) as nat);
        let p = players[n - 1];
        if !is_house(p) && p.lives > 0 && p.lives == highest {
            rest.push((n - 1) as usize)
        } else {
            rest
        }
    }
}

/// Whether a player's name is "House".
pub fn named_house(player: &Player) -> (house: bool)
    ensures
        house == is_house(*player),
{
    let house_name = String::from_str("House");
    proof {
        reveal_strlit("House");
    }
    player.name == house_name
}

/// The players the House aims at: those, other than the House, with lives
/// left and with the most lives among the players other than the House.
pub fn house_target_seats(players: &Vec<Player>) -> (seats: Vec<usize>)
    ensures
        seats@ == target_seats(players@, highest_other_lives(players@), players@.len()),
        forall|j: int| 0 <= j < seats@.len() ==> (#[trigger] seats@[j]) < players@.len()
            && !is_house(players@[seats@[j] as int])
            && players@[seats@[j] as int].lives > 0,
{
    let mut highest: usize = 0;
    let mut i: usize = 0;
    while i < players.len()
        invariant
            i <= players.len(),
            highest == highest_other_lives(players@.take(i as int)),
        decreases players.len() - i,
    {
        assert(players@.take(i + 1).drop_last() =~= players@.take(i as int));
        if !named_house(&players[i]) && players[i].lives > highest {
            highest = players[i].lives;
        }
        i = i + 1;
    }
    assert(players@.take(i as int) =~= players@);
    let mut seats: Vec<usize> = Vec::new();
    let mut k: usize = 0;
    while k < players.len()
        invariant
            k <= players.len(),
            highest == highest_other_lives(players@),
            seats@ == target_seats(players@, highest as nat, k as nat),
            forall|j: int| 0 <= j < seats@.len() ==> (#[trigger] seats@[j]) < k
                && !is_house(players@[seats@[j] as int])
                && players@[seats@[j] as int].lives > 0,
        decreases players.len() - k,
    {
        if !named_house(&players[k]) && players[k].lives > 0 && players[k].lives == highest {
            seats.push(k);
        }
        k = k + 1;
    }
    seats
}

/// The players the House may handcuff, among the first `n`: not the House,
/// with lives left, and not in handcuffs yet.
pub open spec fn cuffable_seats(players: Seq<Player>, n: nat) -> Seq<usize>
    decreases n,
{
    if n == 0 {
        Seq::empty()
    } else {
        let rest = cuffable_seats(players, (n - 1) as nat);
        let p = players[n - 1];
        if !is_house(p) && p.lives > 0 && p.handcuffed_level == HandcuffedLevel::Uncuffed {
            rest.push((n - 1) as usize)
        } else {
            rest
        }
    }
}

/// Whether the House may handcuff a player: not the House, with lives
/// left, and not in handcuffs yet.
pub open spec fn can_be_cuffed_by_house(p: Player) -> bool {
    !is_house(p) && p.lives > 0 && p.handcuffed_level == HandcuffedLevel::Uncuffed
}

/// How many players the House may handcuff.
pub open spec fn cuffable_count(players: Seq<Player>) -> nat {
    cuffable_seats(players, players.len()).len()
}

/// Tables whose players agree on who may be handcuffed have the same
/// players to handcuff.
proof fn lemma_cuffable_same(a: Seq<Player>, b: Seq<Player>, n: nat)
    requires
        n <= a.len(),
        a.len() == b.len(),
        forall|k: int| 0 <= k < a.len() ==> can_be_cuffed_by_house(#[trigger] a[k]) == can_be_cuffed_by_house(b[k]),
    ensures
        cuffable_seats(a, n) == cuffable_seats(b, n),
    decreases n,
{
    if n > 0 {
        lemma_cuffable_same(a, b, (n - 1) as nat);
        assert(can_be_cuffed_by_house(a[n - 1]) == can_be_cuffed_by_house(b[n - 1]));
    }
}

/// Handcuffing one player who could take handcuffs leaves one player fewer
/// to handcuff.
proof fn lemma_cuffable_one_less(a: Seq<Player>, b: Seq<Player>, t: int, n: nat)
    requires
        n <= a.len(),
        a.len() == b.len(),
        0 <= t < a.len(),
        can_be_cuffed_by_house(a[t]),
        !can_be_cuffed_by_house(b[t]),
        forall|k: int| 0 <= k < a.len() && k != t ==> can_be_cuffed_by_house(#[trigger] a[k]) == can_be_cuffed_by_house(b[k]),
    ensures
        cuffable_seats(b, n).len() + (if t < n { 1int } else { 0int }) == cuffable_seats(a, n).len(),
    decreases n,
{
    if n > 0 {
        lemma_cuffable_one_less(a, b, t, (n - 1) as nat);
        if n - 1 != t {
            assert(can_be_cuffed_by_house(a[n - 1]) == can_be_cuffed_by_house(b[n - 1]));
        }
    }
}

/// How many items of a kind a hand holds.
pub open spec fn count_in(items: Seq<Item>, item: Item) -> nat {
    items.to_multiset().count(item)
}

/// One more item of a hand, counted.
proof fn lemma_count_take_step(items: Seq<Item>, i: int, item: Item)
    requires
        0 <= i < items.len(),
    ensures
        count_in(items.take(i + 1), item) == count_in(items.take(i), item) + (if items[i] == item { 1int } else { 0int }),
{
    broadcast use vstd::seq_lib::group_to_multiset_ensures;
    broadcast use vstd::multiset::group_multiset_axioms;
    assert(items.take(i + 1) =~= items.take(i).push(items[i]));
}

/// The lives an event gives the House, or takes from it, when it uses an
/// item: a cigarette gives one; expired medicine gives two on a healing draw
/// and takes one otherwise; nothing else counts here.
pub open spec fn house_life_change(event: HouseEvent) -> int {
    match event {
        HouseEvent::Smoked => 1,
        HouseEvent::TookMedicine { healed } => if healed { 2 } else { -1 },
        _ => 0,
    }
}

/// The lives the events of a log gave the House through its items, in all.
pub open spec fn house_life_changes(events: Seq<HouseEvent>) -> int
    decreases events.len(),
{
    if events.len() == 0 {
        0
    } else {
        house_life_changes(events.drop_last()) + house_life_change(events.last())
    }
}

/// Part way through the House's first pass: its lives moved exactly as the
/// events logged since `base` say.
#[verifier::opaque]
pub open spec fn lives_follow_events(lives0: int, lives: int, base: Seq<HouseEvent>, events: Seq<HouseEvent>) -> bool {
    lives - lives0 == house_life_changes(events) - house_life_changes(base)
}

/// One more item reached: either nothing was logged and the lives stayed, or
/// one event was logged and the lives moved by what it says.
proof fn lemma_lives_follow_step(
    lives0: int,
    lives: int,
    lives_after: int,
    base: Seq<HouseEvent>,
    events: Seq<HouseEvent>,
    events_after: Seq<HouseEvent>,
)
    requires
        lives_follow_events(lives0, lives, base, events),
        (events_after == events && lives_after == lives) || (events_after.len() == events.len() + 1
            && events_after.drop_last() == events
            && lives_after == lives + house_life_change(events_after.last())),
    ensures
        lives_follow_events(lives0, lives_after, base, events_after),
{
    reveal(lives_follow_events);
}

/// Part way through the House's first pass over a hand without medicine:
/// a cigarette reached and kept means the House has all its lives.
#[verifier::opaque]
spec fn cigarettes_kept_only_at_full_lives(
    medicines: nat,
    cigarettes: nat,
    held: nat,
    unseen: nat,
    lives0: int,
    lives: int,
    max_lives: int,
) -> bool {
    &&& medicines == 0 && held > unseen ==> lives >= max_lives
    &&& medicines == 0 ==> lives == lives0 + (cigarettes - held)
}

/// One more item reached on the first pass: a cigarette is kept only at
/// full lives, and without medicine lives do not fall.
proof fn lemma_cigarettes_step(
    medicines: nat,
    cigarettes: nat,
    lives0: int,
    held: nat,
    held_after: nat,
    unseen: nat,
    unseen_after: nat,
    lives: int,
    lives_after: int,
    max_lives: int,
    is_cigarette: bool,
    used: bool,
)
    requires
        cigarettes_kept_only_at_full_lives(medicines, cigarettes, held, unseen, lives0, lives, max_lives),
        unseen == unseen_after + (if is_cigarette { 1nat } else { 0nat }),
        held_after == held - (if is_cigarette && used { 1int } else { 0int }),
        medicines == 0 ==> lives_after == lives + (if is_cigarette && used { 1int } else { 0int }),
        is_cigarette && !used ==> lives >= max_lives,
    ensures
        cigarettes_kept_only_at_full_lives(medicines, cigarettes, held_after, unseen_after, lives0, lives_after, max_lives),
{
    reveal(cigarettes_kept_only_at_full_lives);
}

/// A House turn only gives up items: no kind is counted more after it.
proof fn lemma_count_shrinks(a: GameData, b: GameData, item: Item)
    requires
        house_changes(a, b),
    ensures
        count_in(house_hand(b), item) <= count_in(house_hand(a), item),
{
    assert(house_hand(b).to_multiset().count(item) <= house_hand(a).to_multiset().count(item));
}

/// A hand holds an item exactly when it counts one.
proof fn lemma_held_counts(items: Seq<Item>, item: Item)
    ensures
        items.contains(item) <==> count_in(items, item) > 0,
{
    broadcast use vstd::seq_lib::group_to_multiset_ensures;
}

/// What the first pass showed stays shown while the House only gives up
/// more items, except for the magnifying glass, which is settled by the
/// first shot.
proof fn lemma_first_pass_kept(start: GameData, a: GameData, b: GameData, stage_num: nat)
    requires
        first_pass_uses_items(start, a, stage_num) || ({
            &&& count_in(house_hand(start), Item::Cigarettes) > 0 && count_in(house_hand(start), Item::ExpiredMedicine) == 0
                && house_lives(start) < stage_num + 1
                ==> count_in(house_hand(a), Item::Cigarettes) < count_in(house_hand(start), Item::Cigarettes)
            &&& count_in(house_hand(start), Item::Handcuffs) > 0 && cuffable_count(start.players@) > 0
                ==> count_in(house_hand(a), Item::Handcuffs) < count_in(house_hand(start), Item::Handcuffs)
            &&& count_in(house_hand(start), Item::Magazine) > 0
                ==> count_in(house_hand(a), Item::Magazine) < count_in(house_hand(start), Item::Magazine)
            &&& house_must_look(start, stage_num)
                ==> count_in(house_hand(b), Item::MagnifyingGlass) < count_in(house_hand(start), Item::MagnifyingGlass)
        }),
        house_changes(a, b),
    ensures
        first_pass_uses_items(start, b, stage_num),
{
    lemma_count_shrinks(a, b, Item::Cigarettes);
    lemma_count_shrinks(a, b, Item::Handcuffs);
    lemma_count_shrinks(a, b, Item::Magazine);
    lemma_count_shrinks(a, b, Item::MagnifyingGlass);
}

/// An item a hand holds none of is at no position of it.
proof fn lemma_absent_item(items: Seq<Item>, i: int, item: Item)
    requires
        0 <= i < items.len(),
        count_in(items, item) == 0,
    ensures
        items[i] != item,
{
    broadcast use vstd::seq_lib::group_to_multiset_ensures;
    assert(items.contains(items[i]));
}

/// Giving up an item takes one of its kind off the count, for every kind.
proof fn lemma_counts_after_removal(items: Seq<Item>, i: int)
    requires
        0 <= i < items.len(),
    ensures
        forall|k: Item| #[trigger] count_in(items.remove(i), k) == count_in(items, k) - (if items[i] == k { 1int } else { 0int }),
{
    assert forall|k: Item| #[trigger] count_in(items.remove(i), k) == count_in(items, k) - (if items[i] == k { 1int } else { 0int }) by {
        lemma_count_remove(items, i, k);
    }
}

/// Giving up an item takes one of its kind off the count.
proof fn lemma_count_remove(items: Seq<Item>, i: int, item: Item)
    requires
        0 <= i < items.len(),
    ensures
        count_in(items.remove(i), item) == count_in(items, item) - (if items[i] == item { 1int } else { 0int }),
{
    broadcast use vstd::seq_lib::group_to_multiset_ensures;
    broadcast use vstd::multiset::group_multiset_axioms;
}

/// The items the House may use on its first pass.
pub open spec fn is_support_item(item: Item) -> bool {
    ||| item == Item::Cigarettes
    ||| item == Item::ExpiredMedicine
    ||| item == Item::Handcuffs
    ||| item == Item::Magazine
    ||| item == Item::Beer
}

/// Whether the House drinks its beers: the known blanks are at least the
/// known lives, and more than one shell is known.
pub open spec fn house_drinks(lives_count: nat, blanks_count: nat) -> bool {
    blanks_count >= lives_count && lives_count + blanks_count > 1
}

/// The seats the House may handcuff.
pub fn house_handcuff_seats(players: &Vec<Player>) -> (seats: Vec<usize>)
    ensures
        seats@ == cuffable_seats(players@, players@.len()),
        forall|j: int| 0 <= j < seats@.len() ==> (#[trigger] seats@[j]) < players@.len()
            && !is_house(players@[seats@[j] as int])
            && players@[seats@[j] as int].lives > 0
            && players@[seats@[j] as int].handcuffed_level == HandcuffedLevel::Uncuffed,
{
    let mut seats: Vec<usize> = Vec::new();
    let mut k: usize = 0;
    while k < players.len()
        invariant
            k <= players.len(),
            seats@ == cuffable_seats(players@, k as nat),
            forall|j: int| 0 <= j < seats@.len() ==> (#[trigger] seats@[j]) < k
                && !is_house(players@[seats@[j] as int])
                && players@[seats@[j] as int].lives > 0
                && players@[seats@[j] as int].handcuffed_level == HandcuffedLevel::Uncuffed,
        decreases players.len() - k,
    {
        if !named_house(&players[k]) && players[k].lives > 0
            && players[k].handcuffed_level == HandcuffedLevel::Uncuffed {
            seats.push(k);
        }
        k = k + 1;
    }
    seats
}


/// Assumptions every step of a House turn keeps.
pub open spec fn house_turn_ready(game_data: GameData) -> bool {
    &&& game_data.wf()
    &&& is_house(game_data.players@[game_data.curr_player as int])
}

/// The House's own handcuffs.
pub open spec fn house_cuffs(game_data: GameData) -> HandcuffedLevel {
    game_data.players@[game_data.curr_player as int].handcuffed_level
}

/// Whether a hand holds no live, blank or gold shell.
pub open spec fn holds_no_shells(items: Seq<Item>) -> bool {
    &&& !items.contains(Item::LiveShell)
    &&& !items.contains(Item::BlankShell)
    &&& !items.contains(Item::GoldShell)
}

/// Giving up items keeps a hand free of shells.
proof fn lemma_no_shells_subset(a: Seq<Item>, b: Seq<Item>)
    requires
        holds_no_shells(a),
        b.to_multiset().subset_of(a.to_multiset()),
    ensures
        holds_no_shells(b),
{
    broadcast use vstd::seq_lib::group_to_multiset_ensures;
    assert(b.to_multiset().count(Item::LiveShell) <= a.to_multiset().count(Item::LiveShell));
    assert(b.to_multiset().count(Item::BlankShell) <= a.to_multiset().count(Item::BlankShell));
    assert(b.to_multiset().count(Item::GoldShell) <= a.to_multiset().count(Item::GoldShell));
}

/// The House's first pass over its hand, from the last item to the first:
/// cigarettes when it is missing a life; expired medicine when it has more
/// than one life and room for two more; handcuffs on a random player that can
/// take them; one magazine; and a beer when the known blanks are at least the
/// known lives and more than one shell is known. A beer that empties the
/// buckshot ends the House's turn: the buckshot is refilled and `Ok(true)`
/// returned at once. `lives_count` and `blanks_count` are the shells known
/// at the start of the pass.
#[verifier::rlimit(100)]
#[verifier::spinoff_prover]
fn house_uses_support_items(
    game_data: &mut GameData,
    stage_num: usize,
    lives_count: usize,
    blanks_count: usize,
    events: &mut Vec<HouseEvent>,
) -> (result: Result<bool, HouseError>)
    requires
        house_turn_ready(*old(game_data)),
        stage_num <= 4,
    ensures
        !(result matches Err(HouseError::Overflow)),
        final(game_data).buckshot@.len() <= (if old(game_data).buckshot@.len() > 8 { old(game_data).buckshot@.len() as int } else { 8int }),
        house_hand(*final(game_data)).len() <= house_hand(*old(game_data)).len(),
        result == Ok::<bool, HouseError>(true) ==> {
            &&& count_in(house_hand(*old(game_data)), Item::Beer) > 0
            &&& house_drinks(lives_count as nat, blanks_count as nat)
            &&& final(events)@.len() > old(events)@.len()
            &&& final(events)@.last() matches HouseEvent::DrankBeer { reload: Some(r), .. }
                && reload_result(stage_num as nat, r, final(game_data).buckshot@)
            &&& !final(game_data).is_inverted
        },
        result == Ok::<bool, HouseError>(false) ==> {
            let before = house_hand(*old(game_data));
            let after = house_hand(*final(game_data));
            let c0 = cuffable_count(old(game_data).players@);
            let cuffs = count_in(before, Item::Handcuffs);
            let used_cuffs = if cuffs < c0 { cuffs } else { c0 };
            &&& count_in(after, Item::Magazine) == count_in(before, Item::Magazine)
                - (if count_in(before, Item::Magazine) > 0 { 1int } else { 0int })
            &&& count_in(after, Item::Beer) == if house_drinks(lives_count as nat, blanks_count as nat) {
                0
            } else {
                count_in(before, Item::Beer)
            }
            &&& count_in(after, Item::Handcuffs) == cuffs - used_cuffs
            &&& cuffable_count(final(game_data).players@) == c0 - used_cuffs
            &&& forall|k: Item| !is_support_item(k) ==> count_in(after, k) == count_in(before, k)
            &&& count_in(after, Item::Cigarettes) <= count_in(before, Item::Cigarettes)
            &&& count_in(after, Item::ExpiredMedicine) <= count_in(before, Item::ExpiredMedicine)
            &&& count_in(before, Item::Magazine) == 0
                && !(house_drinks(lives_count as nat, blanks_count as nat) && count_in(before, Item::Beer) > 0)
                ==> final(game_data).buckshot == old(game_data).buckshot
        },
        house_lives(*old(game_data)) <= stage_num + 1 ==> house_lives(*final(game_data)) <= stage_num + 1,
        lives_follow_events(house_lives(*old(game_data)) as int, house_lives(*final(game_data)) as int, old(events)@, final(events)@),
        !(result matches Err(HouseError::NoTarget)),
        others_keep_lives(*old(game_data), *final(game_data)),
        house_lives(*old(game_data)) > 0 ==> house_lives(*final(game_data)) > 0,
        1 <= stage_num && old(game_data).buckshot@.len() > 0
            ==> result != Err::<bool, HouseError>(HouseError::EmptyBuckshot)
            && (result is Ok ==> final(game_data).buckshot@.len() > 0),
        adds_no_shot(old(events)@, final(events)@),
        log_pay(final(events)@) == log_pay(old(events)@),
        house_credits(*final(game_data)) == house_credits(*old(game_data)),
        adds_no_ticket(old(events)@, final(events)@),
        house_cuffs(*final(game_data)) == house_cuffs(*old(game_data)),
        house_turn_ready(*final(game_data)),
        house_changes(*old(game_data), *final(game_data)),
        house_hand(*old(game_data)).len() == 0 ==> result == Ok::<bool, HouseError>(false)
            && *final(game_data) == *old(game_data) && final(events)@ == old(events)@,
        only_beers(house_hand(*old(game_data))) ==> house_lives(*final(game_data)) == house_lives(*old(game_data)),
        only_beers(house_hand(*old(game_data))) && house_drinks(lives_count as nat, blanks_count as nat)
            && house_hand(*old(game_data)).len() >= old(game_data).buckshot@.len() > 0 && result is Ok
            ==> result == Ok::<bool, HouseError>(true),
        result == Ok::<bool, HouseError>(false) && count_in(house_hand(*old(game_data)), Item::ExpiredMedicine) == 0 ==> (
            (count_in(house_hand(*final(game_data)), Item::Cigarettes) > 0 ==> house_lives(*final(game_data)) >= stage_num + 1)
            && house_lives(*final(game_data)) == house_lives(*old(game_data))
                + count_in(house_hand(*old(game_data)), Item::Cigarettes)
                - count_in(house_hand(*final(game_data)), Item::Cigarettes)
        ),
{
    let ghost start = *game_data;
    let ghost hand0 = house_hand(start);
    let ghost c0 = cuffable_count(start.players@);
    let me = game_data.curr_player;
    let max_lives = lives_for_stage(stage_num);
    let drinks = blanks_count >= lives_count && (blanks_count >= 2 || (blanks_count >= 1 && lives_count >= 1));
    assert(drinks == house_drinks(lives_count as nat, blanks_count as nat));
    let mut used_magazine = false;
    let mut ended = false;
    let mut i = game_data.players[me].items.len();
    if i == 0 {
        proof {
            reveal(lives_follow_events);
            lemma_house_changes_refl(start);
            assert(count_in(hand0, Item::Magazine) == 0) by {
                broadcast use vstd::seq_lib::group_to_multiset_ensures;
            }
            assert(hand0 =~= Seq::<Item>::empty());
            assert(count_in(hand0, Item::Beer) == 0 && count_in(hand0, Item::Handcuffs) == 0
                && count_in(hand0, Item::Cigarettes) == 0) by {
                broadcast use vstd::seq_lib::group_to_multiset_ensures;
            }
        }
        return Ok(false);
    }
    assert(hand0.take(i as int) =~= hand0);
    proof {
        reveal(cigarettes_kept_only_at_full_lives);
        reveal(lives_follow_events);
    }
    while i > 0
        invariant
            game_data.buckshot@.len() <= (if start.buckshot@.len() > 8 { start.buckshot@.len() as int } else { 8int }),
            house_hand(*game_data).len() <= hand0.len(),
            !ended,
            i <= house_hand(*game_data).len(),
            i <= hand0.len(),
            hand0 == house_hand(start),
            c0 == cuffable_count(start.players@),
            drinks == house_drinks(lives_count as nat, blanks_count as nat),
            forall|j: int| 0 <= j < i ==> house_hand(*game_data)[j] == hand0[j],
            used_magazine == (count_in(hand0, Item::Magazine) > count_in(hand0.take(i as int), Item::Magazine)),
            count_in(hand0.take(i as int), Item::Magazine) <= count_in(hand0, Item::Magazine),
            count_in(hand0.take(i as int), Item::Beer) <= count_in(hand0, Item::Beer),
            count_in(hand0.take(i as int), Item::Handcuffs) <= count_in(hand0, Item::Handcuffs),
            count_in(house_hand(*game_data), Item::Magazine) == count_in(hand0, Item::Magazine)
                - (if used_magazine { 1int } else { 0int }),
            count_in(house_hand(*game_data), Item::Beer) == if drinks {
                count_in(hand0.take(i as int), Item::Beer)
            } else {
                count_in(hand0, Item::Beer)
            },
            ({
                let seen = count_in(hand0, Item::Handcuffs) - count_in(hand0.take(i as int), Item::Handcuffs);
                let used_cuffs = if seen < c0 { seen } else { c0 as int };
                &&& count_in(house_hand(*game_data), Item::Handcuffs) == count_in(hand0, Item::Handcuffs) - used_cuffs
                &&& cuffable_count(game_data.players@) == c0 - used_cuffs
            }),
            forall|k: Item| !is_support_item(k) ==> count_in(house_hand(*game_data), k) == count_in(hand0, k),
            count_in(house_hand(*game_data), Item::Cigarettes) <= count_in(hand0, Item::Cigarettes),
            count_in(house_hand(*game_data), Item::ExpiredMedicine) <= count_in(hand0, Item::ExpiredMedicine),
            house_lives(start) <= stage_num + 1 ==> house_lives(*game_data) <= stage_num + 1,
            !used_magazine && !(drinks && count_in(hand0, Item::Beer) > count_in(hand0.take(i as int), Item::Beer))
                ==> game_data.buckshot == start.buckshot,
            others_keep_lives(start, *game_data),
            house_lives(start) > 0 ==> house_lives(*game_data) > 0,
            1 <= stage_num && start.buckshot@.len() > 0 ==> game_data.buckshot@.len() > 0,
            adds_no_shot(old(events)@, events@),
            log_pay(events@) == log_pay(old(events)@),
            house_credits(*game_data) == house_credits(*old(game_data)),
            adds_no_ticket(old(events)@, events@),
            house_turn_ready(*game_data),
            game_data.curr_player == me,
            start.curr_player == me,
            house_turn_ready(start),
            max_lives == stage_num + 1,
            stage_num <= 4,
            house_changes(start, *game_data),
            house_cuffs(*game_data) == house_cuffs(start),
            start == *old(game_data),
            i <= game_data.players@[me as int].items@.len(),
            only_beers(hand0) ==> house_lives(*game_data) == house_lives(start),
            only_beers(hand0) && drinks ==> game_data.buckshot@.len() + (hand0.len() - i) == start.buckshot@.len(),
            only_beers(hand0) && drinks && i < hand0.len() ==> game_data.buckshot@.len() > 0,
            lives_follow_events(house_lives(start) as int, house_lives(*game_data) as int, old(events)@, events@),
            cigarettes_kept_only_at_full_lives(
                count_in(hand0, Item::ExpiredMedicine),
                count_in(hand0, Item::Cigarettes),
                count_in(house_hand(*game_data), Item::Cigarettes),
                count_in(hand0.take(i as int), Item::Cigarettes),
                house_lives(start) as int,
                house_lives(*game_data) as int,
                max_lives as int,
            ),
        decreases i,
    {
        i = i - 1;
        let ghost prev = *game_data;
        let ghost prev_events = events@;
        proof {
            assert(house_hand(prev)[i as int] == hand0[i as int]);
            lemma_count_take_step(hand0, i as int, Item::Magazine);
            lemma_count_take_step(hand0, i as int, Item::Beer);
            lemma_count_take_step(hand0, i as int, Item::Handcuffs);
            lemma_count_take_step(hand0, i as int, Item::Cigarettes);
        }
        let item = game_data.players[me].items[i];
        let lives = game_data.players[me].lives;
        let used = match item {
            Item::Cigarettes if lives < max_lives => {
                game_data.players[me].lives = lives + 1;
                log_event(events, HouseEvent::Smoked);
                true
            },
            Item::ExpiredMedicine if lives > 1 && max_lives >= 2 && lives <= max_lives - 2 => {
                let healed = medicine_heals(random_below(MEDICINE_DRAWS));
                if healed {
                    game_data.players[me].lives = lives + 2;
                } else {
                    game_data.players[me].lives = lives - 1;
                }
                log_event(events, HouseEvent::TookMedicine { healed });
                true
            },
            Item::Handcuffs => {
                let seats = house_handcuff_seats(&game_data.players);
                if seats.len() == 0 {
                    false
                } else {
                    let target = seats[random_below(seats.len())];
                    let ghost uncuffed = game_data.players@;
                    game_data.players[target].handcuffed_level = HandcuffedLevel::NewlyHandcuffed;
                    proof {
                        lemma_cuffable_one_less(uncuffed, game_data.players@, target as int, uncuffed.len());
                    }
                    log_event(events, HouseEvent::Handcuffed { target });
                    true
                }
            },
            Item::Magazine if !used_magazine => {
                used_magazine = true;
                game_data.buckshot.clear();
                let reload = reload_buckshot_if_needed(game_data, stage_num);
                log_event(events, HouseEvent::UsedMagazine { reload });
                true
            },
            Item::Beer if drinks => {
                if game_data.buckshot.len() == 0 {
                    return Err(HouseError::EmptyBuckshot);
                }
                let live = game_data.buckshot[game_data.buckshot.len() - 1];
                game_data.buckshot.pop();
                game_data.is_inverted = false;
                let reload = reload_buckshot_if_needed(game_data, stage_num);
                log_event(events, HouseEvent::DrankBeer { live, reload });
                ended = reload.is_some();
                true
            },
            _ => false,
        };
        let ghost mid = *game_data;
        proof {
            if !(used && item == Item::Handcuffs) {
                lemma_cuffable_same(prev.players@, mid.players@, prev.players@.len());
            }
        }
        if used {
            game_data.players[me].items.remove(i);
            proof {
                lemma_remove_item_changes(mid, *game_data, i as int);
                lemma_house_changes_trans(start, prev, mid);
                lemma_house_changes_trans(start, mid, *game_data);
                lemma_cuffable_same(mid.players@, game_data.players@, mid.players@.len());
                lemma_counts_after_removal(house_hand(mid), i as int);
            }
        }
        proof {
            if count_in(hand0, Item::ExpiredMedicine) == 0 {
                lemma_absent_item(hand0, i as int, Item::ExpiredMedicine);
            }
            lemma_cigarettes_step(
                count_in(hand0, Item::ExpiredMedicine),
                count_in(hand0, Item::Cigarettes),
                house_lives(start) as int,
                count_in(house_hand(prev), Item::Cigarettes),
                count_in(house_hand(*game_data), Item::Cigarettes),
                count_in(hand0.take(i + 1), Item::Cigarettes),
                count_in(hand0.take(i as int), Item::Cigarettes),
                house_lives(prev) as int,
                house_lives(*game_data) as int,
                max_lives as int,
                item == Item::Cigarettes,
                used,
            );
            if events@ != prev_events {
                assert(events@.drop_last() =~= prev_events);
            }
            lemma_lives_follow_step(
                house_lives(start) as int,
                house_lives(prev) as int,
                house_lives(*game_data) as int,
                old(events)@,
                prev_events,
                events@,
            );
        }
        if ended {
            return Ok(true);
        }
    }
    proof {
        broadcast use vstd::seq_lib::group_to_multiset_ensures;
        assert(hand0.take(0) =~= Seq::<Item>::empty());
        assert(count_in(hand0.take(0), Item::Magazine) == 0);
        assert(count_in(hand0.take(0), Item::Beer) == 0);
        assert(count_in(hand0.take(0), Item::Handcuffs) == 0);
        assert(count_in(hand0.take(0), Item::Cigarettes) == 0);
        reveal(cigarettes_kept_only_at_full_lives);
    }
    Ok(false)
}


/// The House's second and third passes over its hand, from the last item to
/// the first: every live or blank shell goes into the buckshot at a random
/// position, then every gold shell goes on top. Returns the known live and
/// blank counts, raised by the shells added, and the number of gold shells.
fn house_adds_shells(
    game_data: &mut GameData,
    lives_count: usize,
    blanks_count: usize,
    events: &mut Vec<HouseEvent>,
) -> (result: Result<(usize, usize, usize), HouseError>)
    requires
        house_turn_ready(*old(game_data)),
    ensures
        old(game_data).buckshot@.len() + house_hand(*old(game_data)).len() <= usize::MAX
            && lives_count + blanks_count + house_hand(*old(game_data)).len() <= usize::MAX
            ==> !(result matches Err(HouseError::Overflow)),
        final(game_data).buckshot@.len() + house_hand(*final(game_data)).len()
            <= old(game_data).buckshot@.len() + house_hand(*old(game_data)).len(),
        house_hand(*final(game_data)).len() <= house_hand(*old(game_data)).len(),
        !(result matches Err(HouseError::NoTarget)),
        others_keep_lives(*old(game_data), *final(game_data)),
        house_lives(*final(game_data)) == house_lives(*old(game_data)),
        old(game_data).buckshot@.len() > 0 ==> final(game_data).buckshot@.len() > 0,
        !(result matches Err(HouseError::EmptyBuckshot)),
        adds_no_shot(old(events)@, final(events)@),
        log_pay(final(events)@) == log_pay(old(events)@),
        house_credits(*final(game_data)) == house_credits(*old(game_data)),
        adds_no_ticket(old(events)@, final(events)@),
        house_cuffs(*final(game_data)) == house_cuffs(*old(game_data)),
        house_turn_ready(*final(game_data)),
        house_changes(*old(game_data), *final(game_data)),
        result matches Ok((l, b, g)) ==> l >= lives_count && b >= blanks_count
            && (g > 0 ==> l > lives_count),
        result is Ok ==> holds_no_shells(final(game_data).players@[final(game_data).curr_player as int].items@),
        holds_no_shells(house_hand(*old(game_data))) ==> result == Ok::<(usize, usize, usize), HouseError>((lives_count, blanks_count, 0))
            && *final(game_data) == *old(game_data) && final(events)@ == old(events)@,
{
    let ghost start = *game_data;
    let me = game_data.curr_player;
    let mut lives = lives_count;
    let mut blanks = blanks_count;
    let mut i = game_data.players[me].items.len();
    while i > 0
        invariant
            game_data.buckshot@.len() + house_hand(*game_data).len() <= start.buckshot@.len() + house_hand(start).len(),
            lives + blanks + house_hand(*game_data).len() <= lives_count + blanks_count + house_hand(start).len(),
            house_hand(*game_data).len() <= house_hand(start).len(),
            others_keep_lives(start, *game_data),
            house_lives(*game_data) == house_lives(start),
            start.buckshot@.len() > 0 ==> game_data.buckshot@.len() > 0,
            adds_no_shot(old(events)@, events@),
            log_pay(events@) == log_pay(old(events)@),
            house_credits(*game_data) == house_credits(*old(game_data)),
            adds_no_ticket(old(events)@, events@),
            house_turn_ready(*game_data),
            game_data.curr_player == me,
            start == *old(game_data),
            house_turn_ready(start),
            house_changes(start, *game_data),
            house_cuffs(*game_data) == house_cuffs(start),
            i <= game_data.players@[me as int].items@.len(),
            lives >= lives_count,
            blanks >= blanks_count,
            holds_no_shells(house_hand(start)) ==> *game_data == start && events@ == old(events)@
                && lives == lives_count && blanks == blanks_count,
            forall|k: int| i <= k < game_data.players@[me as int].items@.len() ==>
                (#[trigger] game_data.players@[me as int].items@[k]) != Item::LiveShell
                && game_data.players@[me as int].items@[k] != Item::BlankShell,
        decreases i,
    {
        i = i - 1;
        let item = game_data.players[me].items[i];
        proof {
            if holds_no_shells(house_hand(start)) {
                assert(house_hand(start).contains(house_hand(start)[i as int]));
            }
        }
        if item == Item::LiveShell || item == Item::BlankShell {
            let live = item == Item::LiveShell;
            let len = game_data.buckshot.len();
            if len == usize::MAX {
                return Err(HouseError::Overflow);
            }
            if live {
                if lives == usize::MAX {
                    return Err(HouseError::Overflow);
                }
                lives = lives + 1;
            } else {
                if blanks == usize::MAX {
                    return Err(HouseError::Overflow);
                }
                blanks = blanks + 1;
            }
            let position = random_below(len + 1);
            game_data.buckshot.insert(position, live);
            log_event(events, HouseEvent::AddedShell { live });
            let ghost mid = *game_data;
            game_data.players[me].items.remove(i);
            proof {
                lemma_remove_item_changes(mid, *game_data, i as int);
                lemma_house_changes_trans(start, mid, *game_data);
            }
        }
    }
    let mut gold: usize = 0;
    let mut j = game_data.players[me].items.len();
    while j > 0
        invariant
            game_data.buckshot@.len() + house_hand(*game_data).len() <= start.buckshot@.len() + house_hand(start).len(),
            lives + blanks + house_hand(*game_data).len() <= lives_count + blanks_count + house_hand(start).len(),
            house_hand(*game_data).len() <= house_hand(start).len(),
            others_keep_lives(start, *game_data),
            house_lives(*game_data) == house_lives(start),
            start.buckshot@.len() > 0 ==> game_data.buckshot@.len() > 0,
            adds_no_shot(old(events)@, events@),
            log_pay(events@) == log_pay(old(events)@),
            house_credits(*game_data) == house_credits(*old(game_data)),
            adds_no_ticket(old(events)@, events@),
            house_turn_ready(*game_data),
            game_data.curr_player == me,
            start == *old(game_data),
            house_turn_ready(start),
            house_changes(start, *game_data),
            house_cuffs(*game_data) == house_cuffs(start),
            j <= game_data.players@[me as int].items@.len(),
            lives >= lives_count,
            blanks >= blanks_count,
            gold > 0 ==> lives > lives_count,
            gold <= lives - lives_count,
            holds_no_shells(house_hand(start)) ==> *game_data == start && events@ == old(events)@
                && lives == lives_count && blanks == blanks_count && gold == 0,
            forall|k: int| 0 <= k < game_data.players@[me as int].items@.len() ==>
                (#[trigger] game_data.players@[me as int].items@[k]) != Item::LiveShell
                && game_data.players@[me as int].items@[k] != Item::BlankShell,
            forall|k: int| j <= k < game_data.players@[me as int].items@.len() ==>
                (#[trigger] game_data.players@[me as int].items@[k]) != Item::GoldShell,
        decreases j,
    {
        j = j - 1;
        proof {
            if holds_no_shells(house_hand(start)) {
                assert(house_hand(start).contains(house_hand(start)[j as int]));
            }
        }
        if game_data.players[me].items[j] == Item::GoldShell {
            if lives == usize::MAX {
                return Err(HouseError::Overflow);
            }
            game_data.buckshot.push(true);
            log_event(events, HouseEvent::AddedGoldShell);
            lives = lives + 1;
            gold = gold + 1;
            let ghost mid = *game_data;
            game_data.players[me].items.remove(j);
            proof {
                lemma_remove_item_changes(mid, *game_data, j as int);
                lemma_house_changes_trans(start, mid, *game_data);
            }
        }
    }
    proof {
        let hand = game_data.players@[me as int].items@;
        assert(!hand.contains(Item::LiveShell));
        assert(!hand.contains(Item::BlankShell));
        assert(!hand.contains(Item::GoldShell));
    }
    Ok((lives, blanks, gold))
}

/// Whether the House believes the next shell is live: surely when it added a
/// gold shell; surely not when no live shell is known; surely when no blank
/// is known; by looking, when it holds a magnifying glass (used up); surely
/// when it has one life left; otherwise by a draw that says "live" with the
/// known share of live shells among the shells in the buckshot.
#[verifier::rlimit(30)]
fn house_guesses_live(
    game_data: &mut GameData,
    gold_count: usize,
    lives_count: usize,
    blanks_count: usize,
    events: &mut Vec<HouseEvent>,
) -> (result: Result<bool, HouseError>)
    requires
        house_turn_ready(*old(game_data)),
    ensures
        !(result matches Err(HouseError::Overflow)),
        house_hand(*final(game_data)).len() <= house_hand(*old(game_data)).len(),
        !(result matches Err(HouseError::NoTarget)),
        others_keep_lives(*old(game_data), *final(game_data)),
        house_lives(*final(game_data)) == house_lives(*old(game_data)),
        old(game_data).buckshot@.len() > 0 ==> result != Err::<bool, HouseError>(HouseError::EmptyBuckshot),
        adds_no_shot(old(events)@, final(events)@),
        log_pay(final(events)@) == log_pay(old(events)@),
        house_credits(*final(game_data)) == house_credits(*old(game_data)),
        adds_no_ticket(old(events)@, final(events)@),
        house_cuffs(*final(game_data)) == house_cuffs(*old(game_data)),
        house_turn_ready(*final(game_data)),
        house_changes(*old(game_data), *final(game_data)),
        final(game_data).buckshot == old(game_data).buckshot,
        final(game_data).has_barrel_extension == old(game_data).has_barrel_extension,
        final(game_data).is_inverted == old(game_data).is_inverted,
        gold_count > 0 ==> result == Ok::<bool, HouseError>(true),
        gold_count == 0 && lives_count == 0 ==> result == Ok::<bool, HouseError>(false),
        gold_count == 0 && lives_count > 0 && blanks_count == 0 ==> result == Ok::<bool, HouseError>(true),
        ({
            let looks = gold_count == 0 && lives_count > 0 && blanks_count > 0;
            match first_position(house_hand(*old(game_data)), Item::MagnifyingGlass) {
                Some(g) => if looks {
                    &&& house_gave_up(*old(game_data), *final(game_data), g as int)
                    &&& final(events)@ == old(events)@.push(HouseEvent::UsedMagnifyingGlass)
                    &&& old(game_data).buckshot@.len() > 0 ==> result == Ok::<bool, HouseError>(old(game_data).buckshot@.last())
                    &&& old(game_data).buckshot@.len() == 0 ==> result == Err::<bool, HouseError>(HouseError::EmptyBuckshot)
                } else {
                    *final(game_data) == *old(game_data) && final(events)@ == old(events)@
                },
                None => {
                    &&& *final(game_data) == *old(game_data)
                    &&& final(events)@ == old(events)@
                    &&& looks && (house_lives(*old(game_data)) == 1 || old(game_data).buckshot@.len() == 0
                        || lives_count >= old(game_data).buckshot@.len()) ==> result == Ok::<bool, HouseError>(true)
                    &&& result is Ok
                },
            }
        }),
{
    let me = game_data.curr_player;
    proof {
        lemma_house_changes_refl(*game_data);
    }
    if gold_count > 0 {
        return Ok(true);
    }
    if lives_count == 0 {
        return Ok(false);
    }
    if blanks_count == 0 {
        return Ok(true);
    }
    match find_item(&game_data.players[me].items, Item::MagnifyingGlass) {
        Some(g) => {
            log_event(events, HouseEvent::UsedMagnifyingGlass);
            let ghost before = *game_data;
            game_data.players[me].items.remove(g);
            proof {
                lemma_remove_item_changes(before, *game_data, g as int);
            }
            let len = game_data.buckshot.len();
            if len == 0 {
                return Err(HouseError::EmptyBuckshot);
            }
            Ok(game_data.buckshot[len - 1])
        },
        None => {
            if game_data.players[me].lives == 1 {
                return Ok(true);
            }
            let len = game_data.buckshot.len();
            if len == 0 || lives_count >= len {
                Ok(true)
            } else {
                Ok(random_below(len) < lives_count)
            }
        },
    }
}


/// Fires one shell for the House at the player in seat `target`, which may
/// be the House itself. Returns whether the shell was live and whether the one shot lost
/// its last life. Like any shooter, the House earns the stage's credits per
/// shot, doubled with a barrel extension, and the extension is used up.
fn house_fires(
    game_data: &mut GameData,
    target: usize,
    stage_num: usize,
) -> (result: Result<(bool, bool, usize), HouseError>)
    requires
        house_turn_ready(*old(game_data)),
        target < old(game_data).players@.len(),
        target == old(game_data).curr_player || !is_house(old(game_data).players@[target as int]),
        stage_num <= 4,
    ensures
        result matches Ok((_, lost_all, _)) && lost_all ==> final(game_data).players@[target as int].lives == 0
            && final(game_data).players@[target as int].items@.len() == 0,
        old(game_data).buckshot@.len() == 0 ==> result == Err::<(bool, bool, usize), HouseError>(HouseError::EmptyBuckshot),
        house_credits(*old(game_data)) + 2 * stage_num <= usize::MAX ==> !(result matches Err(HouseError::Overflow)),
        house_hand(*final(game_data)).len() <= house_hand(*old(game_data)).len(),
        result matches Ok((live, _, _)) && !live ==> house_lives(*final(game_data)) == house_lives(*old(game_data)),
        !(result matches Err(HouseError::NoTarget)),
        target != old(game_data).curr_player ==> house_lives(*final(game_data)) == house_lives(*old(game_data)),
        target == old(game_data).curr_player ==> others_keep_lives(*old(game_data), *final(game_data)),
        old(game_data).buckshot@.len() > 0 ==> result != Err::<(bool, bool, usize), HouseError>(HouseError::EmptyBuckshot),
        house_cuffs(*final(game_data)) == house_cuffs(*old(game_data)),
        house_turn_ready(*final(game_data)),
        house_changes(*old(game_data), *final(game_data)),
        result is Ok ==> final(game_data).buckshot@ == old(game_data).buckshot@.drop_last()
            && old(game_data).buckshot@.len() > 0,
        result matches Ok((_, _, pay)) ==> {
            &&& house_credits(*final(game_data)) == house_credits(*old(game_data)) + pay
            &&& pay == if old(game_data).has_barrel_extension { 2 * stage_num } else { stage_num as int }
        },
        result matches Ok((live, _, _)) ==> {
            &&& live == old(game_data).buckshot@.last()
            &&& final(game_data).players@[target as int].lives == lives_after_shell(
                old(game_data).players@[target as int].lives as nat,
                live,
                old(game_data).has_barrel_extension,
            )
            &&& forall|k: int| 0 <= k < old(game_data).players@.len() && k != target
                ==> (#[trigger] final(game_data).players@[k]).lives == old(game_data).players@[k].lives
            &&& !final(game_data).has_barrel_extension
            &&& final(game_data).is_inverted == old(game_data).is_inverted
        },
{
    broadcast use vstd::seq_lib::group_to_multiset_ensures;
    broadcast use vstd::multiset::group_multiset_axioms;
    let ghost start = *game_data;
    let me = game_data.curr_player;
    let len = game_data.buckshot.len();
    if len == 0 {
        proof {
            lemma_house_changes_refl(*game_data);
        }
        return Err(HouseError::EmptyBuckshot);
    }
    let is_live = game_data.buckshot[len - 1];
    game_data.buckshot.pop();
    let extended = game_data.has_barrel_extension;
    let mut lost_all = false;
    if is_live {
        let damage: usize = if extended { 2 } else { 1 };
        lost_all = take_damage(&mut game_data.players[target], damage);
    }
    let per_shot = credit_per_shot_for_stage(stage_num);
    let credits = if extended { 2 * per_shot } else { per_shot };
    match game_data.players[me].credits.checked_add(credits) {
        Some(total) => {
            game_data.players[me].credits = total;
        },
        None => {
            return Err(HouseError::Overflow);
        },
    }
    game_data.has_barrel_extension = false;
    proof {
        let after = *game_data;
        let hand = after.players@[me as int].items@;
        if hand.len() == 0 {
            assert(hand.to_multiset() =~= Multiset::empty());
        }
        assert(house_changes(start, after));
    }
    Ok((is_live, lost_all, credits))
}

/// The House turns the next shell into its opposite with its first
/// inverter, if it holds one. Returns whether it did.
fn house_uses_inverter(game_data: &mut GameData, events: &mut Vec<HouseEvent>) -> (result: Result<bool, HouseError>)
    requires
        house_turn_ready(*old(game_data)),
    ensures
        !(result matches Err(HouseError::Overflow)),
        house_hand(*final(game_data)).len() <= house_hand(*old(game_data)).len(),
        !(result matches Err(HouseError::NoTarget)),
        others_keep_lives(*old(game_data), *final(game_data)),
        house_lives(*final(game_data)) == house_lives(*old(game_data)),
        old(game_data).buckshot@.len() > 0 ==> result != Err::<bool, HouseError>(HouseError::EmptyBuckshot),
        adds_no_shot(old(events)@, final(events)@),
        log_pay(final(events)@) == log_pay(old(events)@),
        house_credits(*final(game_data)) == house_credits(*old(game_data)),
        adds_no_ticket(old(events)@, final(events)@),
        house_cuffs(*final(game_data)) == house_cuffs(*old(game_data)),
        house_turn_ready(*final(game_data)),
        house_changes(*old(game_data), *final(game_data)),
        final(game_data).buckshot@.len() == old(game_data).buckshot@.len(),
        match first_position(house_hand(*old(game_data)), Item::Inverter) {
            None => result == Ok::<bool, HouseError>(false) && *final(game_data) == *old(game_data)
                && final(events)@ == old(events)@,
            Some(v) => if old(game_data).buckshot@.len() == 0 {
                result == Err::<bool, HouseError>(HouseError::EmptyBuckshot)
            } else {
                &&& result == Ok::<bool, HouseError>(true)
                &&& house_gave_up(*old(game_data), *final(game_data), v as int)
                &&& final(game_data).buckshot@ == flip_next(old(game_data).buckshot@)
                &&& final(game_data).is_inverted == !old(game_data).is_inverted
                &&& final(game_data).has_barrel_extension == old(game_data).has_barrel_extension
                &&& final(events)@ == old(events)@.push(HouseEvent::UsedInverter)
            },
        },
{
    let me = game_data.curr_player;
    proof {
        lemma_house_changes_refl(*game_data);
    }
    match find_item(&game_data.players[me].items, Item::Inverter) {
        Some(v) => {
            log_event(events, HouseEvent::UsedInverter);
            let len = game_data.buckshot.len();
            if len == 0 {
                return Err(HouseError::EmptyBuckshot);
            }
            let shell = game_data.buckshot[len - 1];
            game_data.buckshot.set(len - 1, !shell);
            game_data.is_inverted = !game_data.is_inverted;
            let ghost mid = *game_data;
            game_data.players[me].items.remove(v);
            proof {
                lemma_remove_item_changes(mid, *game_data, v as int);
            }
            Ok(true)
        },
        None => Ok(false),
    }
}

/// The House puts its first barrel extension on the barrel, if it holds one.
#[verifier::rlimit(40)]
fn house_uses_barrel_extension(game_data: &mut GameData, events: &mut Vec<HouseEvent>)
    requires
        house_turn_ready(*old(game_data)),
    ensures
        house_hand(*final(game_data)).len() <= house_hand(*old(game_data)).len(),
        others_keep_lives(*old(game_data), *final(game_data)),
        house_lives(*final(game_data)) == house_lives(*old(game_data)),
        adds_no_shot(old(events)@, final(events)@),
        log_pay(final(events)@) == log_pay(old(events)@),
        house_credits(*final(game_data)) == house_credits(*old(game_data)),
        adds_no_ticket(old(events)@, final(events)@),
        house_cuffs(*final(game_data)) == house_cuffs(*old(game_data)),
        house_turn_ready(*final(game_data)),
        house_changes(*old(game_data), *final(game_data)),
        final(game_data).buckshot == old(game_data).buckshot,
        match first_position(house_hand(*old(game_data)), Item::BarrelExtension) {
            None => *final(game_data) == *old(game_data) && final(events)@ == old(events)@,
            Some(b) => {
                &&& house_gave_up(*old(game_data), *final(game_data), b as int)
                &&& final(game_data).has_barrel_extension
                &&& final(game_data).is_inverted == old(game_data).is_inverted
                &&& final(events)@ == old(events)@.push(HouseEvent::UsedBarrelExtension)
            },
        },
{
    let me = game_data.curr_player;
    proof {
        lemma_house_changes_refl(*game_data);
    }
    if let Some(b) = find_item(&game_data.players[me].items, Item::BarrelExtension) {
        let ghost mid = *game_data;
        game_data.players[me].items.remove(b);
        game_data.has_barrel_extension = true;
        log_event(events, HouseEvent::UsedBarrelExtension);
        proof {
            lemma_remove_item_changes(mid, *game_data, b as int);
        }
    }
}

/// Before shooting: the House's guess, an inverter on a shell guessed
/// blank (then guessed live), and a barrel extension when it expects a live
/// shell. Returns whether the House expects a live shell.
#[verifier::rlimit(100)]
#[verifier::spinoff_prover]
fn house_prepares_shot(
    game_data: &mut GameData,
    gold_count: usize,
    lives_count: usize,
    blanks_count: usize,
    events: &mut Vec<HouseEvent>,
) -> (result: Result<bool, HouseError>)
    requires
        house_turn_ready(*old(game_data)),
    ensures
        !(result matches Err(HouseError::Overflow)),
        house_hand(*final(game_data)).len() <= house_hand(*old(game_data)).len(),
        !(result matches Err(HouseError::NoTarget)),
        others_keep_lives(*old(game_data), *final(game_data)),
        house_lives(*final(game_data)) == house_lives(*old(game_data)),
        old(game_data).buckshot@.len() > 0 ==> result != Err::<bool, HouseError>(HouseError::EmptyBuckshot),
        adds_no_shot(old(events)@, final(events)@),
        log_pay(final(events)@) == log_pay(old(events)@),
        house_credits(*final(game_data)) == house_credits(*old(game_data)),
        adds_no_ticket(old(events)@, final(events)@),
        house_cuffs(*final(game_data)) == house_cuffs(*old(game_data)),
        house_turn_ready(*final(game_data)),
        house_changes(*old(game_data), *final(game_data)),
        final(game_data).buckshot@.len() == old(game_data).buckshot@.len(),
        gold_count > 0 ==> result == Ok::<bool, HouseError>(true) && final(game_data).buckshot == old(game_data).buckshot
            && final(game_data).is_inverted == old(game_data).is_inverted,
        result == Ok::<bool, HouseError>(false) ==> {
            &&& !house_hand(*old(game_data)).contains(Item::Inverter)
            &&& final(game_data).buckshot == old(game_data).buckshot
            &&& final(game_data).has_barrel_extension == old(game_data).has_barrel_extension
            &&& final(game_data).is_inverted == old(game_data).is_inverted
        },
        result == Ok::<bool, HouseError>(true) ==> final(game_data).has_barrel_extension
            == (old(game_data).has_barrel_extension || house_hand(*old(game_data)).contains(Item::BarrelExtension)),
        final(game_data).buckshot@ == old(game_data).buckshot@ || {
            &&& result == Ok::<bool, HouseError>(true)
            &&& house_hand(*old(game_data)).contains(Item::Inverter)
            &&& old(game_data).buckshot@.len() > 0
            &&& final(game_data).buckshot@ == flip_next(old(game_data).buckshot@)
            &&& final(game_data).is_inverted == !old(game_data).is_inverted
        },
        gold_count == 0 && lives_count == 0 && old(game_data).buckshot@.len() > 0 ==> {
            &&& result == Ok::<bool, HouseError>(house_hand(*old(game_data)).contains(Item::Inverter))
            &&& house_hand(*old(game_data)).contains(Item::Inverter)
                ==> final(game_data).buckshot@ == flip_next(old(game_data).buckshot@)
        },
        gold_count == 0 && lives_count > 0 && blanks_count > 0 && old(game_data).buckshot@.len() > 0
            && house_hand(*old(game_data)).contains(Item::MagnifyingGlass)
            ==> count_in(house_hand(*final(game_data)), Item::MagnifyingGlass)
                < count_in(house_hand(*old(game_data)), Item::MagnifyingGlass),
        house_hand(*old(game_data)).len() == 0 && gold_count == 0 && old(game_data).buckshot@.len() > 0
            && house_sure_guess(lives_count as nat, blanks_count as nat, house_lives(*old(game_data))) is Some
            ==> result == Ok::<bool, HouseError>(
                house_sure_guess(lives_count as nat, blanks_count as nat, house_lives(*old(game_data)))->0,
            ) && *final(game_data) == *old(game_data) && final(events)@ == old(events)@,
{
    let ghost start = *game_data;
    let me = game_data.curr_player;
    let mut assumed_live = house_guesses_live(game_data, gold_count, lives_count, blanks_count, events)?;
    let ghost guessed = *game_data;
    proof {
        lemma_first_position_held(house_hand(start), Item::MagnifyingGlass);
        lemma_first_position(house_hand(start), Item::MagnifyingGlass);
        if house_hand(guessed) != house_hand(start) {
            let g = first_position(house_hand(start), Item::MagnifyingGlass)->0 as int;
            lemma_removal_keeps_holding(house_hand(start), g, Item::Inverter);
            lemma_removal_keeps_holding(house_hand(start), g, Item::BarrelExtension);
        }
        assert(house_hand(guessed).contains(Item::Inverter) == house_hand(start).contains(Item::Inverter));
        assert(house_hand(guessed).contains(Item::BarrelExtension) == house_hand(start).contains(Item::BarrelExtension));
        lemma_first_position_held(house_hand(guessed), Item::Inverter);
        lemma_first_position(house_hand(guessed), Item::Inverter);
    }
    proof {
        if gold_count == 0 && lives_count > 0 && blanks_count > 0 && start.buckshot@.len() > 0
            && house_hand(start).contains(Item::MagnifyingGlass) {
            let g = first_position(house_hand(start), Item::MagnifyingGlass)->0 as int;
            lemma_count_remove(house_hand(start), g, Item::MagnifyingGlass);
        }
    }
    if !assumed_live {
        assumed_live = house_uses_inverter(game_data, events)?;
        proof {
            lemma_house_changes_trans(start, guessed, *game_data);
            if house_hand(*game_data) != house_hand(guessed) {
                let v = first_position(house_hand(guessed), Item::Inverter)->0 as int;
                lemma_removal_keeps_holding(house_hand(guessed), v, Item::BarrelExtension);
            }
        }
    }
    let ghost inverted = *game_data;
    proof {
        assert(house_hand(inverted).contains(Item::BarrelExtension) == house_hand(start).contains(Item::BarrelExtension));
        lemma_first_position_held(house_hand(inverted), Item::BarrelExtension);
    }
    if assumed_live {
        house_uses_barrel_extension(game_data, events);
        proof {
            lemma_house_changes_trans(start, inverted, *game_data);
        }
    }
    proof {
        lemma_count_shrinks(guessed, *game_data, Item::MagnifyingGlass);
    }
    Ok(assumed_live)
}

/// One more shot at the stage's credits.
proof fn lemma_pay_step(shots: nat, stage_num: nat)
    ensures
        shots * stage_num + stage_num == (shots + 1) * stage_num,
        0 * stage_num == 0,
{
    assert(shots * stage_num + stage_num == (shots + 1) * stage_num) by (nonlinear_arith);
}

/// The House's shooting: it guesses whether the next shell is live, turns
/// a guessed blank into a live shell with an inverter when it can, puts on a
/// barrel extension when it expects a live shell, then shoots one of the
/// players with the most lives when it expects a live shell and itself
/// otherwise. A blank at itself lets it shoot again while shells remain; a
/// buckshot emptied by a shot is refilled. Returns whether the turn may go on to an unknown ticket: not when the
/// House lost its last life, nor when only one player is left.
#[verifier::rlimit(100)]
#[verifier::spinoff_prover]
fn house_shoots(
    game_data: &mut GameData,
    stage_num: usize,
    gold_count: usize,
    lives_count: usize,
    blanks_count: usize,
    events: &mut Vec<HouseEvent>,
) -> (result: Result<bool, HouseError>)
    requires
        house_turn_ready(*old(game_data)),
        stage_num <= 4,
    ensures
        result is Ok ==> shot_recorded(final(events)@.last(), *final(game_data)),
        house_credits(*old(game_data)) + 8 * old(game_data).buckshot@.len() <= usize::MAX
            ==> !(result matches Err(HouseError::Overflow)),
        result is Ok ==> house_credits(*final(game_data)) <= house_credits(*old(game_data)) + 8 * old(game_data).buckshot@.len(),
        result is Ok ==> final(game_data).buckshot@.len()
            <= (if old(game_data).buckshot@.len() > 8 { old(game_data).buckshot@.len() as int } else { 8int }),
        house_hand(*final(game_data)).len() <= house_hand(*old(game_data)).len(),
        result is Ok ==> no_shot_at_others(final(events)@, old(events)@.len() as int, final(events)@.len() - 1),
        result is Ok ==> (final(events)@.last() matches HouseEvent::ShootsPlayer { target, .. }
            ==> house_targets(*old(game_data)).contains(target)),
        result is Ok && !(final(events)@.last() is ShootsPlayer) ==> others_keep_lives(*old(game_data), *final(game_data)),
        result matches Ok(goes_on) ==> {
            &&& final(events)@.len() > old(events)@.len()
            &&& is_shot(final(events)@.last())
            &&& goes_on == match final(events)@.last() {
                HouseEvent::ShootsPlayer { .. } => count_alive(final(game_data).players@) != 1,
                HouseEvent::ShootsItself { live, lost_all_lives, .. } => !(live && lost_all_lives),
                _ => false,
            }
        },
        someone_else_alive(old(game_data).players@) ==> result != Err::<bool, HouseError>(HouseError::NoTarget),
        result == Ok::<bool, HouseError>(true) && someone_else_alive(old(game_data).players@)
            && only_house_at(old(game_data).players@, old(game_data).curr_player as int)
            && house_lives(*old(game_data)) > 0 ==> someone_else_alive(final(game_data).players@),
        1 <= stage_num && old(game_data).buckshot@.len() > 0
            ==> result != Err::<bool, HouseError>(HouseError::EmptyBuckshot)
            && (result is Ok ==> final(game_data).buckshot@.len() > 0),
        adds_no_ticket(old(events)@, final(events)@),
        house_cuffs(*final(game_data)) == house_cuffs(*old(game_data)),
        house_turn_ready(*final(game_data)),
        house_changes(*old(game_data), *final(game_data)),
        result is Ok ==> house_credits(*final(game_data)) + log_pay(old(events)@)
            == house_credits(*old(game_data)) + log_pay(final(events)@),
        shots_pay_stage(old(events)@, final(events)@, stage_num as nat),
        result is Ok && gold_count == 0 && lives_count > 0 && blanks_count > 0 && old(game_data).buckshot@.len() > 0
            && house_hand(*old(game_data)).contains(Item::MagnifyingGlass)
            ==> count_in(house_hand(*final(game_data)), Item::MagnifyingGlass)
                < count_in(house_hand(*old(game_data)), Item::MagnifyingGlass),
        result is Ok ==> (event_reload(final(events)@.last()) matches Some(r)
            ==> reload_result(stage_num as nat, r, final(game_data).buckshot@)),
        result is Ok && house_hand(*old(game_data)).len() == 0 && gold_count == 0 ==> {
            match house_sure_guess(lives_count as nat, blanks_count as nat, house_lives(*old(game_data))) {
                Some(true) => shot_another(*old(game_data), *final(game_data), old(events)@, final(events)@, stage_num as nat),
                Some(false) => shot_itself(*old(game_data), *final(game_data), old(events)@, final(events)@, stage_num as nat),
                None => true,
            }
        },
{
    let ghost start = *game_data;
    let me = game_data.curr_player;
    let ghost plain = house_hand(start).len() == 0 && gold_count == 0 && start.buckshot@.len() > 0;
    let ghost guess = house_sure_guess(lives_count as nat, blanks_count as nat, house_lives(start));
    let ghost shells = start.buckshot@;
    let ghost pay0 = shot_pay(stage_num as nat, start.has_barrel_extension);
    let ghost mut shot_count: nat = 0;
    let ghost looks = gold_count == 0 && lives_count > 0 && blanks_count > 0 && start.buckshot@.len() > 0
        && house_hand(start).contains(Item::MagnifyingGlass);
    proof {
        lemma_house_changes_refl(*game_data);
    }
    loop
        invariant
            plain ==> house_hand(*game_data).len() == 0,
            plain && guess == Some(true) ==> shot_count == 0,
            shot_count == 0 ==> *game_data == start && events@ == old(events)@,
            plain && guess == Some(false) ==> {
                &&& shot_count < shells.len()
                &&& game_data.buckshot@ == shells.take(shells.len() - shot_count)
                &&& blanks_on_top(shells) == shot_count + blanks_on_top(game_data.buckshot@)
                &&& events@.len() == old(events)@.len() + shot_count
                &&& forall|j: int| old(events)@.len() <= j < events@.len() ==> #[trigger] events@[j] is ShootsItself
                &&& forall|k: int| 0 <= k < start.players@.len()
                    ==> (#[trigger] game_data.players@[k]).lives == start.players@[k].lives
                &&& shot_count > 0 ==> house_credits(*game_data) == house_credits(start) + pay0 + (shot_count - 1) * stage_num
                    && !game_data.has_barrel_extension && !game_data.is_inverted
            },
            plain == (house_hand(start).len() == 0 && gold_count == 0 && start.buckshot@.len() > 0),
            guess == house_sure_guess(lives_count as nat, blanks_count as nat, house_lives(start)),
            shells == start.buckshot@,
            pay0 == shot_pay(stage_num as nat, start.has_barrel_extension),
            looks ==> shot_count > 0 ==> count_in(house_hand(*game_data), Item::MagnifyingGlass)
                < count_in(house_hand(start), Item::MagnifyingGlass),
            looks == (gold_count == 0 && lives_count > 0 && blanks_count > 0 && start.buckshot@.len() > 0
                && house_hand(start).contains(Item::MagnifyingGlass)),
            house_credits(*game_data) + 8 * game_data.buckshot@.len() <= house_credits(start) + 8 * start.buckshot@.len(),
            game_data.buckshot@.len() <= start.buckshot@.len(),
            house_hand(*game_data).len() <= house_hand(start).len(),
            no_shot_at_others(events@, old(events)@.len() as int, events@.len() as int),
            1 <= stage_num && start.buckshot@.len() > 0 ==> game_data.buckshot@.len() > 0,
            adds_no_ticket(old(events)@, events@),
            house_credits(*game_data) + log_pay(old(events)@) == house_credits(start) + log_pay(events@),
            shots_pay_stage(old(events)@, events@, stage_num as nat),
            house_turn_ready(*game_data),
            game_data.curr_player == me,
            start == *old(game_data),
            house_turn_ready(start),
            stage_num <= 4,
            house_changes(start, *game_data),
            house_cuffs(*game_data) == house_cuffs(start),
            others_keep_lives(start, *game_data),
            house_lives(start) > 0 ==> house_lives(*game_data) > 0,
        decreases game_data.buckshot@.len(),
    {
        let ghost top = *game_data;
        let assumed_live = house_prepares_shot(game_data, gold_count, lives_count, blanks_count, events)?;
        let ghost prepared = *game_data;
        proof {
            if looks {
                lemma_count_shrinks(top, prepared, Item::MagnifyingGlass);
            }
            lemma_house_changes_trans(start, top, *game_data);
            lemma_others_keep_trans(start, top, *game_data);
        }
        game_data.is_inverted = false;
        let ghost aimed = *game_data;
        if assumed_live {
            let seats = house_target_seats(&game_data.players);
            proof {
                lemma_step_keeps_targets(start, *game_data);
                lemma_someone_else_stays(start, *game_data);
                if someone_else_alive(start.players@) {
                    lemma_target_exists(game_data.players@);
                }
            }
            if seats.len() == 0 {
                return Err(HouseError::NoTarget);
            }
            let pick = random_below(seats.len());
            let target = seats[pick];
            let (live, lost_all_lives, credits) = house_fires(game_data, target, stage_num)?;
            let ghost fired = *game_data;
            let reload = reload_buckshot_if_needed(game_data, stage_num);
            proof {
                lemma_house_changes_trans(start, aimed, fired);
                lemma_house_changes_trans(start, fired, *game_data);
            }
            log_event(events, HouseEvent::ShootsPlayer { target, live, lost_all_lives, credits, reload });
            let goes_on = game_data.count_alive_players() != 1;
            proof {
                if plain && guess == Some(true) {
                    assert(seats@[pick as int] == target);
                    assert(house_targets(start).contains(target));
                    assert(shot_another(start, *game_data, old(events)@, events@, stage_num as nat));
                }
                let players = game_data.players@;
                if goes_on && only_house_at(start.players@, me as int) && house_lives(start) > 0 {
                    assert(house_lives(*game_data) > 0);
                    assert(players[me as int].lives > 0);
                    if count_alive(players) == 0 {
                        lemma_alive_count_positive(players, me as int);
                    }
                    lemma_alive_besides(players, me as int);
                    let k = choose|k: int| 0 <= k < players.len() && k != me && #[trigger] players[k].lives > 0;
                    assert(players[k].name == start.players@[k].name);
                    assert(!is_house(start.players@[k]));
                    assert(!is_house(players[k]));
                }
            }
            proof {
                if looks {
                    lemma_house_changes_trans(prepared, aimed, *game_data);
                    lemma_count_shrinks(prepared, *game_data, Item::MagnifyingGlass);
                }
            }
            return Ok(goes_on);
        } else {
            let (live, lost_all_lives, credits) = house_fires(game_data, me, stage_num)?;
            proof {
                lemma_house_changes_trans(start, aimed, *game_data);
                lemma_others_keep_trans(start, aimed, *game_data);
            }
            let ghost fired = *game_data;
            proof {
                if plain && guess == Some(false) {
                    assert(fired.buckshot@ =~= shells.take(shells.len() - shot_count - 1));
                    lemma_pay_step(shot_count, stage_num as nat);
                    if shot_count > 0 {
                        lemma_pay_step((shot_count - 1) as nat, stage_num as nat);
                    }

                }
            }
            if live {
                let reload = reload_buckshot_if_needed(game_data, stage_num);
                proof {
                    lemma_house_changes_trans(start, fired, *game_data);
                }
                log_event(events, HouseEvent::ShootsItself { live, lost_all_lives, credits, reload });
                proof {
                    lemma_someone_else_stays(start, *game_data);
                    if plain && guess == Some(false) {
                        assert(blanks_on_top(aimed.buckshot@) == 0);
                        assert(shot_itself(start, *game_data, old(events)@, events@, stage_num as nat));
                    }
                }
                proof {
                    if looks {
                        lemma_count_shrinks(prepared, *game_data, Item::MagnifyingGlass);
                    }
                }
                return Ok(!lost_all_lives);
            }
            if game_data.buckshot.len() == 0 {
                let reload = reload_buckshot_if_needed(game_data, stage_num);
                proof {
                    lemma_house_changes_trans(start, fired, *game_data);
                }
                log_event(events, HouseEvent::ShootsItself { live, lost_all_lives, credits, reload });
                proof {
                    lemma_someone_else_stays(start, *game_data);
                    if plain && guess == Some(false) {
                        assert(blanks_on_top(aimed.buckshot@) == 1 + blanks_on_top(fired.buckshot@));
                        assert(shot_itself(start, *game_data, old(events)@, events@, stage_num as nat));
                    }
                }
                proof {
                    if looks {
                        lemma_count_shrinks(prepared, *game_data, Item::MagnifyingGlass);
                    }
                }
                return Ok(true);
            }
            log_event(events, HouseEvent::ShootsItself { live, lost_all_lives, credits, reload: None });
            proof {
                if plain && guess == Some(false) {
                    assert(blanks_on_top(aimed.buckshot@) == 1 + blanks_on_top(fired.buckshot@));
                }
                if looks {
                    lemma_count_shrinks(prepared, *game_data, Item::MagnifyingGlass);
                }
                shot_count = shot_count + 1;
            }
        }
    }
}

/// One pass of the House's turn after its handcuffs: support items, shells,
/// shooting, and then, when `may_use_ticket`, an unknown ticket if the turn
/// may go on. Returns whether a ticket was used, so that the House plays
/// again.
#[verifier::rlimit(100)]
#[verifier::spinoff_prover]
fn house_plays_once(
    game_data: &mut GameData,
    stage_num: usize,
    may_use_ticket: bool,
    events: &mut Vec<HouseEvent>,
) -> (result: Result<bool, HouseError>)
    requires
        house_turn_ready(*old(game_data)),
        stage_num <= 4,
    ensures
        result is Ok ==> forall|i: int| old(events)@.len() <= i < final(events)@.len()
            ==> shot_recorded(#[trigger] final(events)@[i], *final(game_data)),
        house_credits(*old(game_data)) + 8 * house_room(*old(game_data)) <= usize::MAX
            ==> !(result matches Err(HouseError::Overflow)),
        result is Ok ==> house_room(*final(game_data)) <= house_room(*old(game_data))
            && house_credits(*final(game_data)) <= house_credits(*old(game_data)) + 8 * house_room(*old(game_data)),
        result is Ok ==> forall|i: int| old(events)@.len() <= i < final(events)@.len()
            && no_shot_at_others(final(events)@, old(events)@.len() as int, i)
            ==> (#[trigger] final(events)@[i] matches HouseEvent::ShootsPlayer { target, .. }
                ==> house_targets(*old(game_data)).contains(target)),
        result is Ok && no_shot_at_others(final(events)@, old(events)@.len() as int, final(events)@.len() as int)
            ==> others_keep_lives(*old(game_data), *final(game_data)),
        someone_else_alive(old(game_data).players@) ==> result != Err::<bool, HouseError>(HouseError::NoTarget),
        result == Ok::<bool, HouseError>(true) && someone_else_alive(old(game_data).players@)
            && only_house_at(old(game_data).players@, old(game_data).curr_player as int)
            && house_lives(*old(game_data)) > 0 ==> someone_else_alive(final(game_data).players@),
        1 <= stage_num && old(game_data).buckshot@.len() > 0
            ==> result != Err::<bool, HouseError>(HouseError::EmptyBuckshot)
            && (result is Ok ==> final(game_data).buckshot@.len() > 0),
        house_turn_ready(*final(game_data)),
        house_changes(*old(game_data), *final(game_data)),
        house_cuffs(*final(game_data)) == house_cuffs(*old(game_data)),
        result matches Ok(again) && again ==> may_use_ticket,
        result is Ok ==> exists|i: int| old(events)@.len() <= i < final(events)@.len()
            && #[trigger] ends_house_play(final(events)@[i]),
        result is Ok ==> holds_no_shells(final(game_data).players@[final(game_data).curr_player as int].items@)
            || exists|i: int| old(events)@.len() <= i < final(events)@.len()
                && #[trigger] empties_buckshot(final(events)@[i]),
        result == Ok::<bool, HouseError>(true) ==> {
            &&& final(events)@.len() > old(events)@.len()
            &&& adds_no_ticket(old(events)@, final(events)@.drop_last())
            &&& final(events)@.last() == HouseEvent::UsedUnknownTicket
        },
        result != Ok::<bool, HouseError>(true) ==> adds_no_ticket(old(events)@, final(events)@),
        result is Ok ==> house_credits(*final(game_data)) + log_pay(old(events)@)
            == house_credits(*old(game_data)) + log_pay(final(events)@),
        shots_pay_stage(old(events)@, final(events)@, stage_num as nat),
        result is Ok && house_hand(*old(game_data)).len() == 0 ==> result == Ok::<bool, HouseError>(false)
            && plain_house_play(*old(game_data), *final(game_data), old(events)@, final(events)@, stage_num as nat),
        result == Ok::<bool, HouseError>(false) ==> {
            &&& final(events)@.len() > old(events)@.len()
            &&& ends_house_play(final(events)@.last())
            &&& event_reload(final(events)@.last()) matches Some(r)
                ==> reload_result(stage_num as nat, r, final(game_data).buckshot@)
            &&& may_use_ticket && play_goes_on(final(events)@.last(), *final(game_data))
                ==> !house_hand(*final(game_data)).contains(Item::UnknownTicket)
        },
        result == Ok::<bool, HouseError>(true) ==> final(events)@.len() >= old(events)@.len() + 2
            && play_goes_on(final(events)@.drop_last().last(), *final(game_data)),
        result is Ok && first_pass_completes(*old(game_data))
            ==> first_pass_uses_items(*old(game_data), *final(game_data), stage_num as nat),
        result is Ok && beers_empty_buckshot(*old(game_data)) ==> {
            &&& result == Ok::<bool, HouseError>(false)
            &&& adds_no_shot(old(events)@, final(events)@)
            &&& house_lives(*final(game_data)) == house_lives(*old(game_data))
            &&& others_keep_lives(*old(game_data), *final(game_data))
            &&& house_credits(*final(game_data)) == house_credits(*old(game_data))
        },
{
    let ghost start = *game_data;
    let ghost ev0 = events@;
    let me = game_data.curr_player;
    let (lives_count, blanks_count) = game_data.count_known_shells();
    let supported_result = house_uses_support_items(game_data, stage_num, lives_count, blanks_count, events);
    proof {
        lemma_quiet_pays(ev0, events@, stage_num as nat);
    }
    let emptied = supported_result?;
    let ghost supported = *game_data;
    proof {
        if first_pass_completes(start) {
            assert(!emptied);
        }
    }
    let ghost ev1 = events@;
    proof {
        lemma_someone_else_stays(start, supported);
        lemma_step_keeps_targets(start, supported);
    }
    let goes_on: bool;
    if emptied {
        goes_on = true;
        proof {
            assert(empties_buckshot(events@[ev1.len() - 1]));
            assert(ends_house_play(events@[ev1.len() - 1]));
            assert(forall|i: int| ev0.len() <= i < events@.len() ==> !(#[trigger] events@[i] is ShootsPlayer));
        }
    } else {
        let added = house_adds_shells(game_data, lives_count, blanks_count, events);
        proof {
            lemma_quiet_pays(ev1, events@, stage_num as nat);
            lemma_shots_pay_stage_trans(ev0, ev1, events@, stage_num as nat);
        }
        let (lives_count, blanks_count, gold_count) = added?;
        let ghost loaded = *game_data;
        let ghost ev2 = events@;
        proof {
            lemma_house_changes_trans(start, supported, loaded);
            lemma_someone_else_stays(supported, loaded);
            lemma_step_keeps_targets(supported, loaded);
            lemma_others_keep_trans(start, supported, loaded);
            assert(forall|i: int| ev0.len() <= i < ev2.len() ==> !(#[trigger] ev2[i] is ShootsPlayer));
        }
        proof {
            if first_pass_completes(start) && house_must_look(start, stage_num as nat) {
                lemma_no_shells_subset(house_hand(start), house_hand(supported));
                assert(!is_support_item(Item::MagnifyingGlass));
                assert(count_in(house_hand(supported), Item::MagnifyingGlass) == count_in(house_hand(start), Item::MagnifyingGlass));
                lemma_held_counts(house_hand(start), Item::MagnifyingGlass);
                lemma_held_counts(house_hand(supported), Item::MagnifyingGlass);
                assert(loaded == supported);
            }
        }
        let shot_result = house_shoots(game_data, stage_num, gold_count, lives_count, blanks_count, events);
        proof {
            lemma_shots_pay_stage_trans(ev0, ev2, events@, stage_num as nat);
            lemma_house_changes_trans(start, loaded, *game_data);
            if first_pass_completes(start) {
                lemma_house_changes_trans(supported, loaded, *game_data);
            }
        }
        goes_on = shot_result?;
        proof {
            if first_pass_completes(start) {
                lemma_first_pass_kept(start, supported, *game_data, stage_num as nat);
            }
            let evs = events@;
            assert forall|i: int| ev0.len() <= i < evs.len() && no_shot_at_others(evs, ev0.len() as int, i)
                implies (#[trigger] evs[i] matches HouseEvent::ShootsPlayer { target, .. }
                    ==> house_targets(start).contains(target)) by {
                if i < ev2.len() {
                    assert(evs[i] == ev2[i]);
                    assert(!(ev2[i] is ShootsPlayer));
                } else if i < evs.len() - 1 {
                    assert(!(evs[i] is ShootsPlayer));
                }
            }
            if no_shot_at_others(evs, ev0.len() as int, evs.len() as int) {
                assert(!(evs[evs.len() - 1] is ShootsPlayer));
                lemma_others_keep_trans(start, loaded, *game_data);
            }
            lemma_no_shells_subset(loaded.players@[me as int].items@, game_data.players@[me as int].items@);
            assert(ends_house_play(events@[events@.len() - 1]));
            if house_hand(start).len() == 0 {
                assert(loaded == start && ev2 == ev0);
                assert(house_expects(start) == house_sure_guess(lives_count as nat, blanks_count as nat, house_lives(start)));
                assert(plain_house_play(start, *game_data, ev0, events@, stage_num as nat));
            }
        }
    }
    proof {
        if beers_empty_buckshot(start) {
            assert(emptied);
            assert(!house_hand(start).contains(Item::UnknownTicket));
            lemma_not_held_subset(house_hand(start), house_hand(*game_data), Item::UnknownTicket);
        }
    }
    if !goes_on || !may_use_ticket {
        return Ok(false);
    }
    match find_item(&game_data.players[me].items, Item::UnknownTicket) {
        Some(t) => {
            let ghost shot = *game_data;
            let ghost shot_events = events@;
            game_data.players[me].items.remove(t);
            log_event(events, HouseEvent::UsedUnknownTicket);
            assert(events@.drop_last() =~= shot_events);
            proof {
                assert(adds_no_shot(shot_events, events@));
                lemma_quiet_pays(shot_events, events@, stage_num as nat);
                lemma_shots_pay_stage_trans(ev0, shot_events, events@, stage_num as nat);
                lemma_remove_item_changes(shot, *game_data, t as int);
                lemma_house_changes_trans(start, shot, *game_data);
                assert(others_keep_lives(shot, *game_data));
                lemma_someone_else_stays(shot, *game_data);
                if holds_no_shells(shot.players@[me as int].items@) {
                    lemma_no_shells_subset(shot.players@[me as int].items@, game_data.players@[me as int].items@);
                }
                assert(forall|i: int| 0 <= i < shot_events.len() ==> events@[i] == shot_events[i]);
                lemma_same_alive(shot.players@, game_data.players@);
                if first_pass_completes(start) {
                    lemma_first_pass_kept(start, shot, *game_data, stage_num as nat);
                }
            }
            Ok(true)
        },
        None => Ok(false),
    }
}

/// The House's turn once its handcuffs are dealt with: one pass over its
/// hand and a shot, and a second pass when it uses an unknown ticket.
#[verifier::rlimit(100)]
#[verifier::spinoff_prover]
fn house_plays_passes(game_data: &mut GameData, stage_num: usize, events: &mut Vec<HouseEvent>) -> (result: Result<(), HouseError>)
    requires
        house_turn_ready(*old(game_data)),
        stage_num <= 4,
    ensures
        result is Ok ==> forall|i: int| old(events)@.len() <= i < final(events)@.len()
            ==> shot_recorded(#[trigger] final(events)@[i], *final(game_data)),
        house_counts_fit(*old(game_data)) ==> !(result matches Err(HouseError::Overflow)),
        result is Ok ==> forall|i: int| old(events)@.len() <= i < final(events)@.len()
            && no_shot_at_others(final(events)@, old(events)@.len() as int, i)
            ==> (#[trigger] final(events)@[i] matches HouseEvent::ShootsPlayer { target, .. }
                ==> house_targets(*old(game_data)).contains(target)),
        only_house_at(old(game_data).players@, old(game_data).curr_player as int)
            && someone_else_alive(old(game_data).players@) && house_lives(*old(game_data)) > 0
            ==> result != Err::<(), HouseError>(HouseError::NoTarget),
        1 <= stage_num && old(game_data).buckshot@.len() > 0
            ==> result != Err::<(), HouseError>(HouseError::EmptyBuckshot)
            && (result is Ok ==> final(game_data).buckshot@.len() > 0),
        house_turn_ready(*final(game_data)),
        house_changes(*old(game_data), *final(game_data)),
        house_cuffs(*final(game_data)) == house_cuffs(*old(game_data)),
        result is Ok ==> exists|i: int| old(events)@.len() <= i < final(events)@.len()
            && #[trigger] ends_house_play(final(events)@[i]),
        result is Ok ==> holds_no_shells(final(game_data).players@[final(game_data).curr_player as int].items@)
            || exists|i: int| old(events)@.len() <= i < final(events)@.len()
                && #[trigger] empties_buckshot(final(events)@[i]),
        old(events)@.len() <= final(events)@.len(),
        forall|i: int| 0 <= i < old(events)@.len() ==> final(events)@[i] == old(events)@[i],
        forall|i: int, j: int|
            old(events)@.len() <= i < j < final(events)@.len() && final(events)@[i] == HouseEvent::UsedUnknownTicket
                ==> final(events)@[j] != HouseEvent::UsedUnknownTicket,
        result is Ok ==> house_credits(*final(game_data)) + log_pay(old(events)@)
            == house_credits(*old(game_data)) + log_pay(final(events)@),
        shots_pay_stage(old(events)@, final(events)@, stage_num as nat),
        result is Ok && house_hand(*old(game_data)).len() == 0
            ==> plain_house_play(*old(game_data), *final(game_data), old(events)@, final(events)@, stage_num as nat),
        result is Ok && beers_empty_buckshot(*old(game_data)) ==> {
            &&& adds_no_shot(old(events)@, final(events)@)
            &&& house_lives(*final(game_data)) == house_lives(*old(game_data))
            &&& others_keep_lives(*old(game_data), *final(game_data))
            &&& house_credits(*final(game_data)) == house_credits(*old(game_data))
        },
        result is Ok ==> house_play_closed(old(events)@, final(events)@, *final(game_data), stage_num as nat),
        result is Ok && first_pass_completes(*old(game_data))
            ==> first_pass_uses_items(*old(game_data), *final(game_data), stage_num as nat),
{
    let ghost start = *game_data;
    let ghost uncuffed = *game_data;
    let ghost first_events = events@;
    let ghost opening = events@;
    proof {
        lemma_house_changes_refl(start);
        assert(others_keep_lives(start, uncuffed));
    }
    let first_pass_result = house_plays_once(game_data, stage_num, true, events);
    proof {
        let played = events@;
        assert forall|i: int| 0 <= i < opening.len() implies played[i] == opening[i] by {
            if first_pass_result == Ok::<bool, HouseError>(true) {
                assert(played[i] == played.drop_last()[i]);
            }
        }
        lemma_shots_pay_stage_trans(first_events, opening, played, stage_num as nat);
    }
    let again = first_pass_result?;
    proof {
        lemma_house_changes_trans(start, uncuffed, *game_data);
        let played = events@;
        assert forall|i: int| first_events.len() <= i < played.len()
            && no_shot_at_others(played, first_events.len() as int, i)
            implies (#[trigger] played[i] matches HouseEvent::ShootsPlayer { target, .. }
                ==> house_targets(start).contains(target)) by {
            if i < opening.len() {
                assert(played[i] == opening[i]);
            } else {
                assert(no_shot_at_others(played, opening.len() as int, i));
            }
        }
        let i = choose|i: int| opening.len() <= i < played.len() && #[trigger] ends_house_play(played[i]);
        assert(ends_house_play(played[i]));
        if !holds_no_shells(house_hand(*game_data)) {
            let j = choose|j: int| opening.len() <= j < played.len() && #[trigger] empties_buckshot(played[j]);
            assert(empties_buckshot(played[j]));
        }
    }
    if again {
        let ghost first_pass = *game_data;
        let ghost played = events@;
        let ghost ticket_at = played.len() - 1;
        log_event(events, HouseEvent::TurnStarted);
        let ghost restarted = events@;
        assert forall|i: int| first_events.len() <= i < restarted.len() && i != ticket_at
            implies restarted[i] != HouseEvent::UsedUnknownTicket by {
            if i < ticket_at {
                assert(restarted[i] == played.drop_last()[i]);
                if i < opening.len() {
                    assert(played.drop_last()[i] == opening[i]);
                }
            }
        }
        proof {
            assert(shots_pay_stage(played, restarted, stage_num as nat));
            lemma_shots_pay_stage_trans(first_events, played, restarted, stage_num as nat);
        }
        let second = house_plays_once(game_data, stage_num, false, events);
        assert(forall|i: int| first_events.len() <= i < events@.len() && i != ticket_at
            ==> events@[i] != HouseEvent::UsedUnknownTicket);
        proof {
            lemma_shots_pay_stage_trans(first_events, restarted, events@, stage_num as nat);
            lemma_house_changes_trans(start, first_pass, *game_data);
        }
        second?;
        proof {
            let last = events@;
            if no_shot_at_others(played, opening.len() as int, played.len() as int) {
                lemma_step_keeps_targets(uncuffed, first_pass);
            }
            assert forall|i: int| first_events.len() <= i < last.len()
                && no_shot_at_others(last, first_events.len() as int, i)
                implies (#[trigger] last[i] matches HouseEvent::ShootsPlayer { target, .. }
                    ==> house_targets(start).contains(target)) by {
                if i < played.len() {
                    assert(last[i] == played[i]);
                    assert forall|j: int| first_events.len() <= j < i implies !(#[trigger] played[j] is ShootsPlayer) by {
                        assert(last[j] == played[j]);
                        assert(!(last[j] is ShootsPlayer));
                    }
                    assert(no_shot_at_others(played, first_events.len() as int, i));
                    assert(played[i] matches HouseEvent::ShootsPlayer { target, .. }
                        ==> house_targets(uncuffed).contains(target));
                } else if i == played.len() {
                    assert(last[i] == restarted[i]);
                } else {
                    assert forall|j: int| opening.len() <= j < played.len() implies !(#[trigger] played[j] is ShootsPlayer) by {
                        assert(last[j] == played[j]);
                    }
                    assert(no_shot_at_others(played, opening.len() as int, played.len() as int));
                    assert(others_keep_lives(uncuffed, first_pass));
                    lemma_step_keeps_targets(uncuffed, first_pass);
                    assert(house_targets(first_pass) == house_targets(start));
                    assert(no_shot_at_others(last, restarted.len() as int, i));
                    assert(last[i] matches HouseEvent::ShootsPlayer { target, .. }
                        ==> house_targets(first_pass).contains(target));
                }
            }
            let i = choose|i: int| restarted.len() <= i < last.len() && #[trigger] ends_house_play(last[i]);
            assert(ends_house_play(last[i]));
            assert(last[ticket_at] == played[ticket_at]);
            assert(last[ticket_at + 1] == HouseEvent::TurnStarted);
            assert(house_play_closed(first_events, last, *game_data, stage_num as nat));
            if !holds_no_shells(house_hand(*game_data)) {
                let j = choose|j: int| restarted.len() <= j < last.len() && #[trigger] empties_buckshot(last[j]);
                assert(empties_buckshot(last[j]));
            }
        }
    } else {
        proof {
            assert(house_play_closed(first_events, events@, *game_data, stage_num as nat));
        }
    }
    Ok(())
}

/// Plays the House's turn; the House is the player whose turn it is. The
/// House first deals with its handcuffs (fresh ones make it skip the turn),
/// then uses its support items (a beer that empties the buckshot ends its
/// play there, the buckshot refilled), its shells and gold shells, then
/// shoots: one of the other players with the most lives when it expects a
/// live shell, itself otherwise; a blank at itself lets it shoot again. When
/// the game goes on it may use one unknown ticket to play once more.
/// `events` receives what happened, in order: a turn that is played holds a
/// shot or an emptying beer; every shot carries the credits it earned (the
/// stage's credits per shot, doubled with a barrel extension), by which
/// exactly the House's credits grow; a player a shot took the last life of
/// ends with no lives and no items; at most one unknown ticket is used. The
/// turn succeeds whenever it starts with shells in the buckshot in a stage
/// from 1 on, the House has lives, nobody else is named "House", someone
/// else has lives, and the House's credits have room (`house_counts_fit`);
/// otherwise an error tells which need was not met. When the House plays
/// with an empty hand and is sure of the next shell (`house_expects`), the
/// turn is told exactly (`plain_house_play`): expecting a live shell it
/// shoots one of the others with the most lives once; expecting a blank it
/// shoots itself until a live shell or the end of the buckshot. When its hand
/// is nothing but beers that empty the buckshot (`beers_empty_buckshot`),
/// nobody is shot and no lives or credits change. When its first pass goes
/// through its whole hand (`first_pass_completes`), it smokes when missing a
/// life, handcuffs when someone can take them, uses a magazine, and looks
/// with a magnifying glass when it must (`first_pass_uses_items`). The turn closes as `house_play_closed` says: a
/// refilled buckshot holds the stage's reload, and an unknown ticket is used
/// whenever one is held and the play could go on. Players without lives hold
/// no items after the turn if they held none before.
#[verifier::rlimit(100)]
#[verifier::spinoff_prover]
pub fn play_as_house(game_data: &mut GameData, stage_num: usize, events: &mut Vec<HouseEvent>) -> (result: Result<(), HouseError>)
    requires
        old(game_data).wf(),
        is_house(old(game_data).players@[old(game_data).curr_player as int]),
        stage_num <= 4,
    ensures
        result is Ok ==> forall|i: int| old(events)@.len() <= i < final(events)@.len()
            ==> shot_recorded(#[trigger] final(events)@[i], *final(game_data)),
        only_house_at(old(game_data).players@, old(game_data).curr_player as int)
            && someone_else_alive(old(game_data).players@) && house_lives(*old(game_data)) > 0
            && 1 <= stage_num && old(game_data).buckshot@.len() > 0 && house_counts_fit(*old(game_data))
            ==> result is Ok,
        result is Ok ==> forall|i: int| old(events)@.len() <= i < final(events)@.len()
            && no_shot_at_others(final(events)@, old(events)@.len() as int, i)
            ==> (#[trigger] final(events)@[i] matches HouseEvent::ShootsPlayer { target, .. }
                ==> house_targets(*old(game_data)).contains(target)),
        only_house_at(old(game_data).players@, old(game_data).curr_player as int)
            && someone_else_alive(old(game_data).players@) && house_lives(*old(game_data)) > 0
            ==> result != Err::<(), HouseError>(HouseError::NoTarget),
        1 <= stage_num && old(game_data).buckshot@.len() > 0
            ==> result != Err::<(), HouseError>(HouseError::EmptyBuckshot)
            && (result is Ok ==> final(game_data).buckshot@.len() > 0),
        final(game_data).wf(),
        house_changes(*old(game_data), *final(game_data)),
        house_cuffs(*old(game_data)) == HandcuffedLevel::NewlyHandcuffed ==> {
            let me = old(game_data).curr_player as int;
            &&& result is Ok
            &&& final(game_data).players@ == old(game_data).players@.update(me, Player {
                handcuffed_level: HandcuffedLevel::AlmostUncuffed,
                ..old(game_data).players@[me]
            })
            &&& final(game_data).buckshot == old(game_data).buckshot
            &&& final(game_data).has_barrel_extension == old(game_data).has_barrel_extension
            &&& final(game_data).is_inverted == old(game_data).is_inverted
            &&& final(events)@ == old(events)@ + seq![HouseEvent::TurnStarted, HouseEvent::SkipsTurn]
        },
        house_cuffs(*old(game_data)) != HandcuffedLevel::NewlyHandcuffed && result is Ok
            ==> house_play_closed(old(events)@, final(events)@, *final(game_data), stage_num as nat),
        house_cuffs(*old(game_data)) != HandcuffedLevel::NewlyHandcuffed && result is Ok
            && first_pass_completes(*old(game_data))
            ==> first_pass_uses_items(*old(game_data), *final(game_data), stage_num as nat),
        house_cuffs(*old(game_data)) != HandcuffedLevel::NewlyHandcuffed && result is Ok ==> {
            &&& house_cuffs(*final(game_data)) == HandcuffedLevel::Uncuffed
            &&& exists|i: int| old(events)@.len() <= i < final(events)@.len()
                && #[trigger] ends_house_play(final(events)@[i])
            &&& holds_no_shells(final(game_data).players@[final(game_data).curr_player as int].items@)
                || exists|i: int| old(events)@.len() <= i < final(events)@.len()
                    && #[trigger] empties_buckshot(final(events)@[i])
        },
        old(events)@.len() <= final(events)@.len(),
        forall|i: int| 0 <= i < old(events)@.len() ==> final(events)@[i] == old(events)@[i],
        forall|i: int, j: int|
            old(events)@.len() <= i < j < final(events)@.len() && final(events)@[i] == HouseEvent::UsedUnknownTicket
                ==> final(events)@[j] != HouseEvent::UsedUnknownTicket,
        result is Ok ==> house_credits(*final(game_data)) + log_pay(old(events)@)
            == house_credits(*old(game_data)) + log_pay(final(events)@),
        shots_pay_stage(old(events)@, final(events)@, stage_num as nat),
        house_cuffs(*old(game_data)) != HandcuffedLevel::NewlyHandcuffed && house_hand(*old(game_data)).len() == 0
            && result is Ok ==> plain_house_play(
            *old(game_data),
            *final(game_data),
            old(events)@ + turn_opening(house_cuffs(*old(game_data))),
            final(events)@,
            stage_num as nat,
        ),
        dead_hold_nothing(old(game_data).players@) ==> dead_hold_nothing(final(game_data).players@),
        house_cuffs(*old(game_data)) != HandcuffedLevel::NewlyHandcuffed && beers_empty_buckshot(*old(game_data))
            && result is Ok ==> {
            &&& adds_no_shot(old(events)@, final(events)@)
            &&& house_lives(*final(game_data)) == house_lives(*old(game_data))
            &&& others_keep_lives(*old(game_data), *final(game_data))
            &&& house_credits(*final(game_data)) == house_credits(*old(game_data))
        },
{
    let ghost start = *game_data;
    let me = game_data.curr_player;
    let ghost first_events = events@;
    log_event(events, HouseEvent::TurnStarted);
    match begin_turn(&mut game_data.players[me]) {
        TurnStart::Skips => {
            log_event(events, HouseEvent::SkipsTurn);
            assert(game_data.players@ =~= start.players@.update(me as int, Player {
                handcuffed_level: HandcuffedLevel::AlmostUncuffed,
                ..start.players@[me as int]
            }));
            assert(events@ =~= first_events + seq![HouseEvent::TurnStarted, HouseEvent::SkipsTurn]);
            assert forall|i: int| first_events.len() <= i < events@.len() implies !is_shot(#[trigger] events@[i]) by {
                assert(events@[i] == HouseEvent::TurnStarted || events@[i] == HouseEvent::SkipsTurn);
            }
            proof {
                if dead_hold_nothing(start.players@) {
                    assert forall|k: int| 0 <= k < game_data.players@.len() && (#[trigger] game_data.players@[k]).lives == 0
                        implies game_data.players@[k].items@.len() == 0 by {
                        assert(game_data.players@[k].items == start.players@[k].items);
                    }
                }
            }
            return Ok(());
        },
        TurnStart::Uncuffed => {
            log_event(events, HouseEvent::Uncuffed);
        },
        TurnStart::Plays => {},
    }
    let ghost uncuffed = *game_data;
    let ghost opening = events@;
    proof {
        assert(others_keep_lives(start, uncuffed));
        lemma_someone_else_stays(start, uncuffed);
        lemma_step_keeps_targets(start, uncuffed);
        assert forall|i: int| first_events.len() <= i < opening.len() implies {
            &&& !is_shot(#[trigger] opening[i])
            &&& !(opening[i] is ShootsPlayer)
            &&& opening[i] != HouseEvent::UsedUnknownTicket
            &&& !ends_house_play(opening[i])
        } by {
            assert(opening[i] == HouseEvent::TurnStarted || opening[i] == HouseEvent::Uncuffed);
        }
        assert(log_pay(opening) == log_pay(first_events)) by {
            assert(opening.drop_last().len() >= first_events.len());
        }
    }
    let result = house_plays_passes(game_data, stage_num, events);
    proof {
        let last = events@;
        lemma_house_changes_trans(start, uncuffed, *game_data);
        lemma_shots_pay_stage_trans(first_events, opening, last, stage_num as nat);
        if result is Ok {
            assert forall|i: int| first_events.len() <= i < last.len()
                && no_shot_at_others(last, first_events.len() as int, i)
                implies (#[trigger] last[i] matches HouseEvent::ShootsPlayer { target, .. }
                    ==> house_targets(start).contains(target)) by {
                if i < opening.len() {
                    assert(last[i] == opening[i]);
                } else {
                    assert(no_shot_at_others(last, opening.len() as int, i));
                }
            }
        }
        assert forall|i: int, j: int|
            first_events.len() <= i < j < last.len() && last[i] == HouseEvent::UsedUnknownTicket
                implies last[j] != HouseEvent::UsedUnknownTicket by {
            if i < opening.len() {
                assert(last[i] == opening[i]);
            }
        }
        if dead_hold_nothing(start.players@) {
            lemma_dead_hold_nothing(start, *game_data);
        }
        if result is Ok {
            lemma_first_pass_after_opening(start, uncuffed, *game_data, stage_num as nat);
        }
        if result is Ok && beers_empty_buckshot(start) {
            assert(beers_empty_buckshot(uncuffed));
            assert(adds_no_shot(first_events, last));
        }
        if result is Ok && house_hand(start).len() == 0 {
            assert(opening =~= first_events + turn_opening(house_cuffs(start)));
            assert(house_targets(uncuffed) == house_targets(start));
            assert(house_expects(uncuffed) == house_expects(start));
            assert(plain_house_play(start, *game_data, opening, last, stage_num as nat));
        }
        if result is Ok {
            lemma_closed_after_opening(first_events, opening, last, *game_data, stage_num as nat);
        }
        if result is Ok {
            let k = choose|k: int| opening.len() <= k < last.len() && #[trigger] ends_house_play(last[k]);
            assert(ends_house_play(last[k]));
            if !holds_no_shells(house_hand(*game_data)) {
                let m = choose|m: int| opening.len() <= m < last.len() && #[trigger] empties_buckshot(last[m]);
                assert(empties_buckshot(last[m]));
            }
        }
    }
    result
}

} // verus!
