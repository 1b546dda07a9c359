use buckshot_roulette::data::{GameData, HandcuffedLevel, Item, Player};
use buckshot_roulette::items::{
    find_item, handcuff_candidates, medicine_heals, medicine_outcome, use_item, ItemEffect, MEDICINE_DRAWS,
};
use buckshot_roulette::input::TurnAction;
use buckshot_roulette::rules::{begin_turn, fire_at, shoot_targets, take_damage, ShotOutcome, TurnStart};
use buckshot_roulette::turn::{flow_after_item, flow_after_shot, TurnFlow, TurnState};
use buckshot_roulette::settings::{
    buckshot_reload_data, credit_per_shot_for_stage, credits_per_win_for_stage, get_item_rarity,
    items_per_round_for_stage, lives_for_stage, max_items_for_stage,
};
use buckshot_roulette::shells::reload_buckshot_if_needed;

fn player(name: &str, lives: usize, items: Vec<Item>) -> Player {
    let mut p = Player::new();
    p.name = name.to_string();
    p.lives = lives;
    p.items = items;
    p
}

fn table(players: Vec<Player>, buckshot: Vec<bool>) -> GameData {
    GameData { players, curr_player: 0, buckshot, has_barrel_extension: false, is_inverted: false }
}

#[test]
fn stage_settings_follow_the_rules() {
    assert_eq!(lives_for_stage(1), 2);
    assert_eq!(lives_for_stage(2), 3);
    assert_eq!(lives_for_stage(3), 4);
    assert_eq!(items_per_round_for_stage(1), 2);
    assert_eq!(items_per_round_for_stage(3), 4);
    assert_eq!(max_items_for_stage(1), 4);
    assert_eq!(max_items_for_stage(2), 6);
    assert_eq!(max_items_for_stage(3), 8);
    assert_eq!(buckshot_reload_data(1), (2, 4, 40, 60));
    assert_eq!(buckshot_reload_data(2), (4, 8, 40, 60));
    assert_eq!(buckshot_reload_data(3), (6, 8, 40, 60));
    assert_eq!(credit_per_shot_for_stage(1), 1);
    assert_eq!(credit_per_shot_for_stage(3), 3);
    assert_eq!(credits_per_win_for_stage(1), 10);
    assert_eq!(credits_per_win_for_stage(2), 20);
    assert_eq!(credits_per_win_for_stage(3), 30);
}

#[test]
fn item_rarities_in_tenths() {
    assert_eq!(get_item_rarity(Item::Beer), 10);
    assert_eq!(get_item_rarity(Item::Cigarettes), 6);
    assert_eq!(get_item_rarity(Item::Handcuffs), 3);
    assert_eq!(get_item_rarity(Item::Inverter), 10);
    assert_eq!(get_item_rarity(Item::GoldShell), 3);
}

#[test]
fn counts_alive_players_and_known_shells() {
    let mut game = table(
        vec![player("a", 2, vec![]), player("b", 0, vec![]), player("c", 1, vec![])],
        vec![true, false, false, true],
    );
    assert_eq!(game.count_alive_players(), 2);
    assert_eq!(game.count_known_shells(), (2, 2));
    game.is_inverted = true;
    // the top shell (last) is shown as it was before the inverter flipped it
    assert_eq!(game.count_known_shells(), (1, 3));
    game.buckshot = vec![];
    assert_eq!(game.count_known_shells(), (0, 0));
}

#[test]
fn finds_players_by_name() {
    let game = table(vec![player("a", 2, vec![]), player("b", 2, vec![]), player("b", 1, vec![])], vec![]);
    assert_eq!(game.index_of_player("b"), Some(1));
    assert_eq!(game.index_of_player("a"), Some(0));
    assert_eq!(game.index_of_player("z"), None);
    assert_eq!(game.get_player().name, "a");
}

#[test]
fn changes_the_current_player() {
    let mut game = table(vec![player("a", 2, vec![]), player("b", 2, vec![])], vec![]);
    game.curr_player = 1;
    game.get_player_mut().credits = 7;
    assert_eq!(game.players[1].credits, 7);
    assert_eq!(game.players[0].credits, 0);
}

#[test]
fn new_player_is_blank() {
    let p = Player::new();
    assert_eq!(p.name, "");
    assert!(p.password.is_none());
    assert!(!p.is_resetting_password);
    assert_eq!(p.lives, 0);
    assert_eq!(p.credits, 0);
    assert!(p.items.is_empty());
    assert_eq!(p.handcuffed_level, HandcuffedLevel::Uncuffed);
}

#[test]
fn damage_takes_lives_and_then_items() {
    let mut p = player("a", 3, vec![Item::Beer]);
    assert!(!take_damage(&mut p, 2));
    assert_eq!(p.lives, 1);
    assert_eq!(p.items, vec![Item::Beer]);
    assert!(take_damage(&mut p, 2));
    assert_eq!(p.lives, 0);
    assert!(p.items.is_empty());
}

#[test]
fn handcuffs_skip_one_turn() {
    let mut p = player("a", 2, vec![]);
    p.handcuffed_level = HandcuffedLevel::NewlyHandcuffed;
    assert_eq!(begin_turn(&mut p), TurnStart::Skips);
    assert_eq!(p.handcuffed_level, HandcuffedLevel::AlmostUncuffed);
    assert_eq!(begin_turn(&mut p), TurnStart::Uncuffed);
    assert_eq!(p.handcuffed_level, HandcuffedLevel::Uncuffed);
    assert_eq!(begin_turn(&mut p), TurnStart::Plays);
}

#[test]
fn targets_are_the_living() {
    let game = table(vec![player("a", 2, vec![]), player("b", 0, vec![]), player("c", 1, vec![])], vec![true]);
    assert_eq!(shoot_targets(&game), vec![0, 2]);
}

#[test]
fn live_shot_at_another_ends_the_turn() {
    let mut game = table(vec![player("a", 2, vec![]), player("b", 2, vec![])], vec![false, true]);
    let outcome = fire_at(&mut game, 1, 1);
    assert!(outcome.is_live);
    assert!(outcome.ends_turn);
    assert!(!outcome.target_lost_all_lives);
    assert_eq!(outcome.credits, 1);
    assert_eq!(game.players[1].lives, 1);
    assert_eq!(game.players[0].credits, 1);
    assert_eq!(game.buckshot, vec![false]);
    assert!(outcome.reload.is_none());
}

#[test]
fn blank_at_yourself_keeps_the_turn() {
    let mut game = table(vec![player("a", 2, vec![]), player("b", 2, vec![])], vec![true, false]);
    let outcome = fire_at(&mut game, 0, 2);
    assert!(!outcome.is_live);
    assert!(!outcome.ends_turn);
    assert_eq!(game.players[0].lives, 2);
    assert_eq!(game.players[0].credits, 2);
}

#[test]
fn blank_at_yourself_with_the_last_shell_ends_the_turn() {
    let mut game = table(vec![player("a", 2, vec![]), player("b", 2, vec![])], vec![false]);
    let outcome = fire_at(&mut game, 0, 1);
    assert!(outcome.ends_turn);
    let report = outcome.reload.expect("the buckshot is refilled");
    let n = report.live_count + report.blank_count;
    assert!(2 <= n && n <= 4);
    assert_eq!(game.buckshot.len(), n);
    assert_eq!(game.buckshot.iter().filter(|s| **s).count(), report.live_count);
}

#[test]
fn barrel_extension_doubles_damage_and_credits_and_is_used_up() {
    let mut game = table(vec![player("a", 2, vec![]), player("b", 2, vec![Item::Beer])], vec![false, true]);
    game.has_barrel_extension = true;
    let outcome = fire_at(&mut game, 1, 1);
    assert!(outcome.target_lost_all_lives);
    assert_eq!(outcome.credits, 2);
    assert_eq!(game.players[0].credits, 2);
    assert_eq!(game.players[1].lives, 0);
    assert!(game.players[1].items.is_empty());
    assert!(!game.has_barrel_extension);
}

#[test]
fn reload_leaves_a_loaded_buckshot_alone() {
    let mut game = table(vec![player("a", 2, vec![])], vec![true]);
    game.is_inverted = true;
    assert!(reload_buckshot_if_needed(&mut game, 1).is_none());
    assert_eq!(game.buckshot, vec![true]);
    assert!(game.is_inverted);
}

#[test]
fn reload_fills_within_the_stage_bounds() {
    for stage in 1..=3 {
        for _ in 0..50 {
            let mut game = table(vec![player("a", 2, vec![])], vec![]);
            game.is_inverted = true;
            let report = reload_buckshot_if_needed(&mut game, stage).expect("empty buckshot is refilled");
            let n = report.live_count + report.blank_count;
            let (low, high, _, _) = buckshot_reload_data(stage);
            assert!(low <= n && n <= high);
            assert!(100 * report.live_count + 50 >= 40 * n);
            assert!(100 * report.live_count < 60 * n + 50);
            assert_eq!(game.buckshot.iter().filter(|s| **s).count(), report.live_count);
            assert!(!game.is_inverted);
        }
    }
}

#[test]
fn cigarettes_give_a_life_up_to_the_stage_lives() {
    let mut game = table(vec![player("a", 1, vec![Item::Cigarettes, Item::Cigarettes])], vec![true]);
    assert_eq!(use_item(&mut game, 0, 1, None), ItemEffect::Smoked { lives: 2 });
    assert_eq!(use_item(&mut game, 0, 1, None), ItemEffect::Smoked { lives: 2 });
    assert!(game.players[0].items.is_empty());
}

#[test]
fn medicine_heals_or_hurts() {
    for _ in 0..40 {
        let mut game = table(vec![player("a", 2, vec![Item::ExpiredMedicine])], vec![true]);
        match use_item(&mut game, 0, 2, None) {
            ItemEffect::MedicineHealed { gained } => {
                assert_eq!(gained, 1);
                assert_eq!(game.players[0].lives, 3);
                assert!(game.players[0].items.is_empty());
            }
            ItemEffect::MedicineHurt => {
                assert_eq!(game.players[0].lives, 1);
                assert!(game.players[0].items.is_empty());
            }
            other => panic!("unexpected {:?}", other),
        }
    }
}

#[test]
fn medicine_heals_on_two_draws_of_five() {
    assert_eq!(MEDICINE_DRAWS, 5);
    let heals: Vec<bool> = (0..MEDICINE_DRAWS).map(medicine_heals).collect();
    assert_eq!(heals, vec![true, true, false, false, false]);
    assert_eq!(medicine_outcome(0, 1, 3), ItemEffect::MedicineHealed { gained: 2 });
    assert_eq!(medicine_outcome(1, 2, 3), ItemEffect::MedicineHealed { gained: 1 });
    assert_eq!(medicine_outcome(1, 3, 3), ItemEffect::MedicineHealed { gained: 0 });
    assert_eq!(medicine_outcome(2, 2, 3), ItemEffect::MedicineHurt);
    assert_eq!(medicine_outcome(4, 3, 3), ItemEffect::MedicineHurt);
    assert_eq!(medicine_outcome(3, 1, 3), ItemEffect::MedicineFatal);
}

#[test]
fn reload_leaves_a_loaded_buckshot_in_any_stage() {
    let mut game = table(vec![player("a", 2, vec![])], vec![true, false]);
    assert_eq!(reload_buckshot_if_needed(&mut game, 9), None);
    assert_eq!(game.buckshot, vec![true, false]);
}

#[test]
fn fatal_medicine_stays_in_hand() {
    loop {
        let mut game = table(vec![player("a", 1, vec![Item::ExpiredMedicine])], vec![true]);
        let effect = use_item(&mut game, 0, 1, None);
        if effect == ItemEffect::MedicineFatal {
            assert_eq!(game.players[0].lives, 0);
            assert_eq!(game.players[0].items, vec![Item::ExpiredMedicine]);
            assert!(effect.ends_turn());
            break;
        }
    }
}

#[test]
fn magnifying_glass_shows_the_next_shell() {
    let mut game = table(vec![player("a", 2, vec![Item::MagnifyingGlass])], vec![false, true]);
    assert_eq!(use_item(&mut game, 0, 1, None), ItemEffect::Peeked { live: true });
    assert_eq!(game.buckshot, vec![false, true]);
}

#[test]
fn beer_ejects_and_may_end_the_turn() {
    let mut game = table(vec![player("a", 2, vec![Item::Beer, Item::Beer])], vec![false, true]);
    game.is_inverted = true;
    let first = use_item(&mut game, 0, 1, None);
    assert_eq!(first, ItemEffect::BeerPopped { live: true, emptied: false, reload: None });
    assert!(!first.ends_turn());
    // the inverted shell is gone, and so is the inverter's mark
    assert!(!game.is_inverted);
    assert_eq!(game.count_known_shells(), (0, 1));
    let second = use_item(&mut game, 0, 1, None);
    match second {
        ItemEffect::BeerPopped { live: false, emptied: true, reload: Some(_) } => {}
        other => panic!("unexpected {:?}", other),
    }
    assert!(second.ends_turn());
    assert!(!game.buckshot.is_empty());
}

#[test]
fn barrel_extension_cannot_be_doubled() {
    let mut game = table(vec![player("a", 2, vec![Item::BarrelExtension, Item::BarrelExtension])], vec![true]);
    assert_eq!(use_item(&mut game, 0, 1, None), ItemEffect::BarrelExtended);
    assert!(game.has_barrel_extension);
    assert_eq!(use_item(&mut game, 0, 1, None), ItemEffect::BarrelAlreadyExtended);
    assert_eq!(game.players[0].items, vec![Item::BarrelExtension]);
}

#[test]
fn magazine_reloads_without_ending_the_turn() {
    let mut game = table(vec![player("a", 2, vec![Item::Magazine])], vec![true]);
    let effect = use_item(&mut game, 0, 2, None);
    match effect {
        ItemEffect::MagazineReloaded { reload: Some(r) } => {
            assert_eq!(game.buckshot.len(), r.live_count + r.blank_count);
            assert!(4 <= game.buckshot.len() && game.buckshot.len() <= 8);
        }
        other => panic!("unexpected {:?}", other),
    }
    assert!(!effect.ends_turn());
}

#[test]
fn handcuffs_on_another_player() {
    let mut game = table(
        vec![player("a", 2, vec![Item::Handcuffs]), player("b", 2, vec![]), player("c", 0, vec![])],
        vec![true],
    );
    assert_eq!(handcuff_candidates(&game), vec![1]);
    assert_eq!(use_item(&mut game, 0, 1, Some(1)), ItemEffect::Handcuffed { target: 1 });
    assert_eq!(game.players[1].handcuffed_level, HandcuffedLevel::NewlyHandcuffed);
    assert!(handcuff_candidates(&game).is_empty());
}

#[test]
fn handcuffs_without_target_stay_in_hand() {
    let mut game = table(vec![player("a", 2, vec![Item::Handcuffs])], vec![true]);
    assert_eq!(use_item(&mut game, 0, 1, None), ItemEffect::NoHandcuffTarget);
    assert_eq!(game.players[0].items, vec![Item::Handcuffs]);
}

#[test]
fn unknown_ticket_cannot_be_used_by_hand() {
    let mut game = table(vec![player("a", 2, vec![Item::UnknownTicket])], vec![true]);
    assert_eq!(use_item(&mut game, 0, 1, None), ItemEffect::TicketNotUsable);
    assert_eq!(game.players[0].items, vec![Item::UnknownTicket]);
}

#[test]
fn shells_go_into_the_buckshot() {
    let mut game = table(vec![player("a", 2, vec![Item::LiveShell, Item::BlankShell, Item::GoldShell])], vec![false]);
    match use_item(&mut game, 0, 1, None) {
        ItemEffect::ShellAdded { live: true, position } => assert!(position <= 1),
        other => panic!("unexpected {:?}", other),
    }
    assert_eq!(game.buckshot.iter().filter(|s| **s).count(), 1);
    match use_item(&mut game, 0, 1, None) {
        ItemEffect::ShellAdded { live: false, position } => assert!(position <= 2),
        other => panic!("unexpected {:?}", other),
    }
    assert_eq!(use_item(&mut game, 0, 1, None), ItemEffect::GoldShellAdded);
    assert_eq!(game.buckshot.len(), 4);
    assert_eq!(*game.buckshot.last().unwrap(), true);
    assert!(game.players[0].items.is_empty());
}

#[test]
fn inverter_flips_the_next_shell_but_not_the_known_counts() {
    let mut game = table(vec![player("a", 2, vec![Item::Inverter])], vec![true, false]);
    let before = game.count_known_shells();
    assert_eq!(use_item(&mut game, 0, 1, None), ItemEffect::Inverted);
    assert_eq!(game.buckshot, vec![true, true]);
    assert!(game.is_inverted);
    assert_eq!(game.count_known_shells(), before);
}

#[test]
fn finds_the_first_item() {
    let items = vec![Item::Beer, Item::UnknownTicket, Item::UnknownTicket];
    assert_eq!(find_item(&items, Item::UnknownTicket), Some(1));
    assert_eq!(find_item(&items, Item::Inverter), None);
}

#[test]
fn trading_is_offered_once_per_turn() {
    let me = player("a", 2, vec![Item::Beer]);
    let mut state = TurnState::new();
    assert!(state.can_trade && state.can_use_ticket);
    assert_eq!(state.menu(&me), vec![TurnAction::Shoot, TurnAction::UseItem, TurnAction::Trade]);
    state.record_trade();
    assert_eq!(state.menu(&me), vec![TurnAction::Shoot, TurnAction::UseItem]);
    assert!(state.can_use_ticket);
    assert_eq!(state.menu(&player("b", 2, vec![])), vec![TurnAction::Shoot]);
}

#[test]
fn an_unknown_ticket_restarts_a_turn_once() {
    let mut game = table(
        vec![player("a", 2, vec![Item::Beer, Item::UnknownTicket, Item::UnknownTicket]), player("b", 2, vec![])],
        vec![true],
    );
    let mut state = TurnState::new();
    state.record_trade();
    assert_eq!(state.ticket_to_offer(&game), Some(1));
    state.use_ticket(&mut game, 1);
    assert_eq!(game.players[0].items, vec![Item::Beer, Item::UnknownTicket]);
    assert!(state.can_trade);
    assert!(!state.can_use_ticket);
    assert_eq!(state.ticket_to_offer(&game), None);
}

#[test]
fn no_ticket_for_a_player_without_lives() {
    let game = table(vec![player("a", 0, vec![Item::UnknownTicket]), player("b", 2, vec![])], vec![true]);
    assert_eq!(TurnState::new().ticket_to_offer(&game), None);
}

#[test]
fn turn_flow_after_shots_and_items() {
    let game = table(vec![player("a", 2, vec![]), player("b", 2, vec![])], vec![true]);
    let shot = |ends_turn| ShotOutcome { is_live: false, credits: 1, target_lost_all_lives: false, ends_turn, reload: None };
    assert_eq!(flow_after_shot(&game, &shot(true)), TurnFlow::WouldEnd);
    assert_eq!(flow_after_shot(&game, &shot(false)), TurnFlow::Continues);
    let alone = table(vec![player("a", 2, vec![]), player("b", 0, vec![])], vec![true]);
    assert_eq!(flow_after_shot(&alone, &shot(false)), TurnFlow::Over);
    // a shot that leaves one player standing ends the stage: no ticket is offered
    assert_eq!(flow_after_shot(&alone, &shot(true)), TurnFlow::Over);
    let emptied = ItemEffect::BeerPopped { live: true, emptied: true, reload: None };
    assert_eq!(flow_after_item(&game, &emptied), TurnFlow::WouldEnd);
    assert_eq!(flow_after_item(&game, &ItemEffect::MedicineFatal), TurnFlow::WouldEnd);
    assert_eq!(flow_after_item(&game, &ItemEffect::Smoked { lives: 2 }), TurnFlow::Continues);
    let dead = table(vec![player("a", 0, vec![]), player("b", 2, vec![])], vec![true]);
    assert_eq!(flow_after_item(&dead, &ItemEffect::MedicineHurt), TurnFlow::Over);
}
