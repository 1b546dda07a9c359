use buckshot_roulette::credits::{
    format_total_credits, merge_game_credits, parse_total_credits, rank_total_credits, CreditsFileError,
};
use buckshot_roulette::data::{GameData, HandcuffedLevel, Item, Player};
use buckshot_roulette::house::{house_target_seats, named_house, play_as_house, HouseError, HouseEvent};
use buckshot_roulette::input::{
    check_player_name, chosen_action, confirm_password, parse_trade_command, password_accepts, turn_menu,
    NameProblem, TradeCommand, TurnAction,
};
use buckshot_roulette::stage::{advance_turn, begin_stage, end_stage, final_standings, give_items, stage_goes_on};
use buckshot_roulette::text::{make_first_char_uppercase, pluralize, some_if, stringify_list, trim};
use buckshot_roulette::trade::{
    execute_trade, house_accepts_trade, house_trade_value, toggle_trade_item, trade_partners,
};

fn player(name: &str, lives: usize, items: Vec<Item>) -> Player {
    let mut p = Player::new();
    p.name = name.to_string();
    p.lives = lives;
    p.items = items;
    p
}

fn table(players: Vec<Player>, buckshot: Vec<bool>) -> GameData {
    GameData { players, curr_player: 0, buckshot, has_barrel_extension: false, is_inverted: false }
}

fn strings(words: &[&str]) -> Vec<String> {
    words.iter().map(|w| w.to_string()).collect()
}

#[test]
fn item_rolls_walk_the_weights() {
    assert_eq!(Item::for_roll(0), Item::Cigarettes);
    assert_eq!(Item::for_roll(5), Item::Cigarettes);
    assert_eq!(Item::for_roll(6), Item::ExpiredMedicine);
    assert_eq!(Item::for_roll(16), Item::MagnifyingGlass);
    assert_eq!(Item::for_roll(22), Item::Beer);
    assert_eq!(Item::for_roll(44), Item::Handcuffs);
    assert_eq!(Item::for_roll(47), Item::UnknownTicket);
    assert_eq!(Item::for_roll(50), Item::LiveShell);
    assert_eq!(Item::for_roll(66), Item::GoldShell);
    assert_eq!(Item::for_roll(69), Item::Inverter);
    assert_eq!(Item::for_roll(78), Item::Inverter);
}

#[test]
fn random_items_come() {
    for _ in 0..100 {
        let _ = Item::random();
    }
}

#[test]
fn item_names_and_menu_entries() {
    assert_eq!(Item::ExpiredMedicine.name(), "Expired Medicine");
    assert_eq!(Item::GoldShell.name(), "Gold Shell");
    let option = Item::Cigarettes.to_input_option(12);
    assert_eq!(option.bulletin_string, Some("12".to_string()));
    assert_eq!(option.main_name, "Cigarettes");
    assert_eq!(option.alt_names, strings(&["c", "cig"]));
    assert_eq!(option.data, Item::Cigarettes);
    assert_eq!(Item::Beer.to_input_option(0).alt_names, strings(&["ber"]));
}

#[test]
fn words_and_lists() {
    assert_eq!(pluralize(1, "life", "lives"), "life");
    assert_eq!(pluralize(0, "life", "lives"), "lives");
    assert_eq!(pluralize(3, "credit", "credits"), "credits");
    assert_eq!(stringify_list(&strings(&[])), "");
    assert_eq!(stringify_list(&strings(&["Beer"])), "Beer");
    assert_eq!(stringify_list(&strings(&["Beer", "Inverter"])), "Beer and Inverter");
    assert_eq!(stringify_list(&strings(&["Beer", "Inverter", "Magazine"])), "Beer, Inverter, and Magazine");
    assert_eq!(stringify_list(&strings(&["a", "b", "c", "d"])), "a, b, c, and d");
    assert_eq!(some_if(5, true), Some(5));
    assert_eq!(some_if(5, false), None);
}

#[test]
fn capitalises_ascii_first_letters() {
    let mut name = "alice".to_string();
    make_first_char_uppercase(&mut name);
    assert_eq!(name, "Alice");
    let mut name = "Bob".to_string();
    make_first_char_uppercase(&mut name);
    assert_eq!(name, "Bob");
    let mut name = "élan".to_string();
    make_first_char_uppercase(&mut name);
    assert_eq!(name, "élan");
    let mut name = String::new();
    make_first_char_uppercase(&mut name);
    assert_eq!(name, "");
}

#[test]
fn trims_white_space() {
    assert_eq!(trim("  a b \t\n"), "a b");
    assert_eq!(trim("\u{3000}x\u{a0}"), "x");
    assert_eq!(trim("   "), "");
}

#[test]
fn checks_new_names() {
    let taken = vec![player("Ann", 0, vec![])];
    assert_eq!(check_player_name("   ", &taken), Err(NameProblem::Empty));
    assert_eq!(check_player_name(" HoUsE ", &taken), Err(NameProblem::House));
    assert_eq!(check_player_name("Ann", &taken), Err(NameProblem::Taken));
    assert_eq!(check_player_name("ann", &taken), Ok(()));
    assert_eq!(check_player_name("Bea", &taken), Ok(()));
}

#[test]
fn passwords() {
    assert_eq!(confirm_password("x".to_string(), &"y".to_string()), None);
    assert_eq!(confirm_password(String::new(), &String::new()), Some(None));
    assert_eq!(confirm_password("pw".to_string(), &"pw".to_string()), Some(Some("pw".to_string())));
    assert!(password_accepts(&None, &"anything".to_string()));
    assert!(password_accepts(&Some("pw".to_string()), &"pw".to_string()));
    assert!(!password_accepts(&Some("pw".to_string()), &"PW".to_string()));
}

#[test]
fn turn_menu_and_choices() {
    assert_eq!(turn_menu(true, true), vec![TurnAction::Shoot, TurnAction::UseItem, TurnAction::Trade]);
    assert_eq!(turn_menu(false, true), vec![TurnAction::Shoot, TurnAction::Trade]);
    assert_eq!(turn_menu(false, false), vec![TurnAction::Shoot]);
    assert_eq!(chosen_action(0), TurnAction::Shoot);
    assert_eq!(chosen_action(1), TurnAction::UseItem);
    assert_eq!(chosen_action(2), TurnAction::Trade);
}

#[test]
fn trade_commands() {
    assert!(matches!(parse_trade_command("F"), TradeCommand::Finalize));
    assert!(matches!(parse_trade_command(" finalize "), TradeCommand::Finalize));
    assert!(matches!(parse_trade_command("cancel"), TradeCommand::Cancel));
    assert!(matches!(parse_trade_command("toggle my #2"), TradeCommand::Toggle { mine: true, number: 2 }));
    assert!(matches!(parse_trade_command("T O 3"), TradeCommand::Toggle { mine: false, number: 3 }));
    assert!(matches!(parse_trade_command("t my"), TradeCommand::WrongTokenCount));
    assert!(matches!(parse_trade_command("t  my 2"), TradeCommand::WrongTokenCount));
    assert!(matches!(parse_trade_command("t your 2"), TradeCommand::BadSide));
    assert!(matches!(parse_trade_command("t my two"), TradeCommand::BadNumber { .. }));
    assert!(matches!(parse_trade_command("shoot"), TradeCommand::Unknown));
}

#[test]
fn toggles_trade_items() {
    let mut flags = vec![false, false];
    assert!(toggle_trade_item(&mut flags, 2));
    assert_eq!(flags, vec![false, true]);
    assert!(!toggle_trade_item(&mut flags, 3));
    assert_eq!(flags, vec![false, true]);
}

#[test]
fn trade_partners_are_the_other_living_players() {
    let game = table(vec![player("a", 2, vec![]), player("b", 0, vec![]), player("c", 1, vec![])], vec![]);
    assert_eq!(trade_partners(&game), vec![2]);
}

#[test]
fn trades_move_flagged_items() {
    let mut game = table(
        vec![
            player("a", 2, vec![Item::Beer, Item::Inverter, Item::Magazine]),
            player("b", 2, vec![Item::GoldShell, Item::Handcuffs]),
        ],
        vec![],
    );
    execute_trade(&mut game, 1, &vec![true, false, true], &vec![false, true]);
    assert_eq!(game.players[0].items, vec![Item::Inverter, Item::Handcuffs]);
    assert_eq!(game.players[1].items, vec![Item::GoldShell, Item::Magazine, Item::Beer]);
    // no item is lost or created
    let mut after: Vec<String> = game.players.iter().flat_map(|p| p.items.iter().map(|i| i.name())).collect();
    after.sort();
    let mut before: Vec<String> =
        [Item::Beer, Item::Inverter, Item::Magazine, Item::GoldShell, Item::Handcuffs].iter().map(|i| i.name()).collect();
    before.sort();
    assert_eq!(after, before);
}

#[test]
fn house_values_trades() {
    // a common item is worth 3 thirds, an uncommon one 5, a rare one 10;
    // an item left out of the trade resets the count
    assert_eq!(house_trade_value(&vec![Item::Beer, Item::Handcuffs], &vec![true, true]), 13);
    assert_eq!(house_trade_value(&vec![Item::Beer, Item::Handcuffs], &vec![true, false]), 0);
    assert_eq!(house_trade_value(&vec![Item::Beer, Item::Cigarettes], &vec![false, true]), 5);
    let game = table(
        vec![player("House", 2, vec![Item::Beer]), player("b", 2, vec![Item::Handcuffs, Item::Beer])],
        vec![],
    );
    assert!(house_accepts_trade(&game, 1, &vec![true], &vec![true, false]) == false);
    assert!(house_accepts_trade(&game, 1, &vec![true], &vec![false, true]));
    assert!(!house_accepts_trade(&game, 1, &vec![true], &vec![false, false]));
    assert!(house_accepts_trade(&game, 1, &vec![true], &vec![true, true]));
    assert!(named_house(&game.players[0]));
    assert!(!named_house(&game.players[1]));
}

#[test]
fn stage_start_sets_the_table() {
    // leftover items, even more than the stage allows, are removed
    let many = vec![Item::Beer; 9];
    let mut game = table(vec![player("a", 0, many), player("b", 0, vec![Item::Inverter]), player("c", 0, vec![])], vec![true]);
    game.players[1].handcuffed_level = HandcuffedLevel::AlmostUncuffed;
    game.curr_player = 2;
    let start = begin_stage(&mut game, 1);
    assert_eq!(game.curr_player, 0);
    let mut names: Vec<String> = game.players.iter().map(|p| p.name.clone()).collect();
    names.sort();
    assert_eq!(names, strings(&["a", "b", "c"]));
    for (k, p) in game.players.iter().enumerate() {
        assert_eq!(p.lives, 2);
        assert_eq!(p.handcuffed_level, HandcuffedLevel::Uncuffed);
        assert_eq!(p.items.len(), 2);
        assert_eq!(p.items, start.gifts[k]);
    }
    let reload = start.reload.expect("loaded");
    assert!(2 <= game.buckshot.len() && game.buckshot.len() <= 4);
    assert_eq!(game.buckshot.len(), reload.live_count + reload.blank_count);
}

#[test]
fn items_are_topped_up_to_the_limit() {
    let mut game = table(
        vec![player("a", 1, vec![Item::Beer; 3]), player("b", 0, vec![]), player("c", 2, vec![])],
        vec![],
    );
    let gifts = give_items(&mut game, 1);
    assert_eq!(gifts[0].len(), 1);
    assert_eq!(gifts[1].len(), 0);
    assert_eq!(gifts[2].len(), 2);
    assert_eq!(game.players[0].items.len(), 4);
    assert_eq!(game.players[1].items.len(), 0);
    assert_eq!(game.players[2].items.len(), 2);
}

#[test]
fn turns_pass_to_living_players() {
    let mut game = table(vec![player("a", 1, vec![]), player("b", 0, vec![]), player("c", 2, vec![])], vec![]);
    assert!(advance_turn(&mut game, 1).is_none());
    assert_eq!(game.curr_player, 2);
    let gifts = advance_turn(&mut game, 1).expect("a new round starts");
    assert_eq!(game.curr_player, 0);
    assert_eq!(gifts[0].len(), 2);
    assert_eq!(gifts[1].len(), 0);
    assert_eq!(game.players[0].items.len(), 2);
}

#[test]
fn stage_end_pays_the_survivors() {
    let mut game = table(vec![player("a", 0, vec![Item::Beer]), player("b", 1, vec![Item::Beer])], vec![]);
    game.players[0].credits = 5;
    let winners = end_stage(&mut game, 2);
    assert_eq!(winners, vec![1]);
    assert_eq!(game.players[0].credits, 5);
    assert_eq!(game.players[1].credits, 20);
    assert!(game.players.iter().all(|p| p.items.is_empty()));
}

#[test]
fn standings_put_the_most_credits_first() {
    let mut players = vec![player("a", 0, vec![]), player("b", 0, vec![]), player("c", 0, vec![])];
    players[0].credits = 7;
    players[1].credits = 9;
    players[2].credits = 7;
    assert_eq!(final_standings(&players), vec![1, 2, 0]);
}

#[test]
fn house_aims_at_the_healthiest() {
    let players = vec![player("House", 4, vec![]), player("a", 1, vec![]), player("b", 3, vec![]), player("c", 3, vec![])];
    assert_eq!(house_target_seats(&players), vec![2, 3]);
}

#[test]
fn handcuffed_house_skips() {
    let mut game = table(vec![player("House", 2, vec![]), player("a", 2, vec![])], vec![true]);
    game.players[0].handcuffed_level = HandcuffedLevel::NewlyHandcuffed;
    let mut events = Vec::new();
    assert_eq!(play_as_house(&mut game, 1, &mut events), Ok(()));
    assert_eq!(events, vec![HouseEvent::TurnStarted, HouseEvent::SkipsTurn]);
    assert_eq!(game.players[0].handcuffed_level, HandcuffedLevel::AlmostUncuffed);
    assert_eq!(game.buckshot, vec![true]);
}

#[test]
fn house_with_a_gold_shell_shoots_a_player() {
    let mut game = table(vec![player("House", 2, vec![Item::GoldShell]), player("a", 2, vec![])], vec![false, false]);
    let mut events = Vec::new();
    assert_eq!(play_as_house(&mut game, 1, &mut events), Ok(()));
    assert_eq!(events[1], HouseEvent::AddedGoldShell);
    assert_eq!(events[2], HouseEvent::ShootsPlayer { target: 1, live: true, lost_all_lives: false, credits: 1, reload: None });
    assert_eq!(game.players[1].lives, 1);
    assert_eq!(game.players[0].credits, 1);
    assert_eq!(game.buckshot, vec![false, false]);
    assert!(game.players[0].items.is_empty());
}

#[test]
fn house_knowing_only_blanks_shoots_itself() {
    let mut game = table(vec![player("House", 2, vec![]), player("a", 2, vec![])], vec![false, false]);
    let mut events = Vec::new();
    assert_eq!(play_as_house(&mut game, 1, &mut events), Ok(()));
    assert_eq!(events[1], HouseEvent::ShootsItself { live: false, lost_all_lives: false, credits: 1, reload: None });
    assert!(matches!(events[2], HouseEvent::ShootsItself { live: false, lost_all_lives: false, credits: 1, reload: Some(_) }));
    assert_eq!(game.players[0].credits, 2);
    assert_eq!(game.players[0].lives, 2);
}

#[test]
fn house_with_an_empty_buckshot_fails() {
    let mut game = table(vec![player("House", 2, vec![]), player("a", 2, vec![])], vec![]);
    let mut events = Vec::new();
    assert_eq!(play_as_house(&mut game, 1, &mut events), Err(HouseError::EmptyBuckshot));
}

#[test]
fn total_credits_round_trip() {
    let text = "Ann: 10\n\n  bob : +5 \r\nAnn:3\n";
    let entries = parse_total_credits(text).ok().expect("readable");
    let mut sorted = entries.clone();
    sorted.sort();
    assert_eq!(sorted, vec![("Ann".to_string(), 3), ("bob".to_string(), 5)]);
    let players = vec![player("bob", 0, vec![]), player("cid", 0, vec![])];
    let mut merged = entries.clone();
    assert!(merge_game_credits(&mut merged, &Vec::new()));
    let mut players = players;
    players[0].credits = 4;
    players[1].credits = 1;
    assert!(merge_game_credits(&mut merged, &players));
    let ranked = rank_total_credits(&merged);
    assert_eq!(
        ranked,
        vec![("Bob".to_string(), 9), ("Ann".to_string(), 3), ("Cid".to_string(), 1)]
    );
    assert_eq!(format_total_credits(&ranked), "Bob: 9\nAnn: 3\nCid: 1\n");
    // what is written reads back as the same totals
    let mut reread = parse_total_credits(&format_total_credits(&ranked)).ok().expect("readable");
    reread.sort();
    let mut expected = ranked.clone();
    expected.sort();
    assert_eq!(reread, expected);
}

#[test]
fn bad_total_credits_lines() {
    match parse_total_credits("Ann: 1\nno colon here\n") {
        Err(CreditsFileError::MissingColon { line }) => assert_eq!(line, 2),
        other => panic!("unexpected {:?}", other),
    }
    match parse_total_credits("Ann: lots\n") {
        Err(CreditsFileError::BadCredits { line, .. }) => assert_eq!(line, 1),
        other => panic!("unexpected {:?}", other),
    }
    assert!(parse_total_credits("").ok().expect("empty is fine").is_empty());
}

#[test]
fn house_uses_one_unknown_ticket_per_turn() {
    let mut game = table(
        vec![player("House", 2, vec![Item::UnknownTicket, Item::UnknownTicket]), player("a", 4, vec![])],
        vec![false, false],
    );
    let mut events = Vec::new();
    assert_eq!(play_as_house(&mut game, 1, &mut events), Ok(()));
    let tickets = events.iter().filter(|e| **e == HouseEvent::UsedUnknownTicket).count();
    assert_eq!(tickets, 1);
    assert_eq!(game.players[0].items, vec![Item::UnknownTicket]);
    // every shot paid the stage's one credit, and the House kept them all
    let paid: usize = events
        .iter()
        .map(|e| match e {
            HouseEvent::ShootsPlayer { credits, .. } | HouseEvent::ShootsItself { credits, .. } => {
                assert_eq!(*credits, 1);
                *credits
            }
            _ => 0,
        })
        .sum();
    assert!(paid >= 2);
    assert_eq!(game.players[0].credits, paid);
}

#[test]
fn house_shooting_itself_with_a_live_shell_is_paid_and_reloads() {
    let mut game = table(vec![player("House", 3, vec![]), player("a", 2, vec![])], vec![true]);
    // after an inverter the House sees the live shell as a blank
    game.is_inverted = true;
    game.has_barrel_extension = true;
    let mut events = Vec::new();
    assert_eq!(play_as_house(&mut game, 1, &mut events), Ok(()));
    match events[1] {
        HouseEvent::ShootsItself { live: true, lost_all_lives: false, credits: 2, reload: Some(report) } => {
            assert_eq!(report.live_count + report.blank_count, game.buckshot.len());
        }
        other => panic!("unexpected {:?}", other),
    }
    assert_eq!(game.players[0].lives, 1);
    assert_eq!(game.players[0].credits, 2);
    assert!(!game.has_barrel_extension);
    assert!(game.buckshot.len() >= 2);
}

#[test]
fn house_refills_a_buckshot_its_beer_emptied() {
    let mut game = table(
        vec![player("House", 2, vec![Item::Beer, Item::Beer]), player("a", 2, vec![])],
        vec![false, false],
    );
    let mut events = Vec::new();
    assert_eq!(play_as_house(&mut game, 1, &mut events), Ok(()));
    assert_eq!(events[1], HouseEvent::DrankBeer { live: false, reload: None });
    assert!(matches!(events[2], HouseEvent::DrankBeer { live: false, reload: Some(_) }));
    // emptying the buckshot ends the House's turn: nobody is shot
    assert_eq!(events.len(), 3);
    assert!(!game.buckshot.is_empty());
    assert!(game.players[0].items.is_empty());
    assert_eq!(game.players[0].lives, 2);
    assert_eq!(game.players[1].lives, 2);
    assert_eq!(game.players[0].credits, 0);
    assert_eq!(game.players[1].credits, 0);
}

#[test]
fn a_stage_goes_on_while_two_players_live() {
    let game = table(vec![player("a", 1, vec![]), player("b", 2, vec![]), player("c", 0, vec![])], vec![true]);
    assert!(stage_goes_on(&game));
    let game = table(vec![player("a", 1, vec![]), player("b", 0, vec![])], vec![true]);
    assert!(!stage_goes_on(&game));
}

#[test]
fn house_on_its_last_life_shoots_the_healthiest_player() {
    let mut game = table(
        vec![player("House", 1, vec![]), player("Ann", 1, vec![]), player("Bob", 2, vec![])],
        vec![false, true],
    );
    let mut events = Vec::new();
    assert_eq!(play_as_house(&mut game, 1, &mut events), Ok(()));
    assert_eq!(
        events[1],
        HouseEvent::ShootsPlayer { target: 2, live: true, lost_all_lives: false, credits: 1, reload: None }
    );
    assert_eq!(game.players[2].lives, 1);
    assert_eq!(game.players[1].lives, 1);
    assert_eq!(game.players[0].lives, 1);
    assert_eq!(game.players[0].credits, 1);
    assert_eq!(game.buckshot, vec![false]);
}

#[test]
fn house_fooled_by_an_inverter_shoots_itself() {
    let mut game = table(vec![player("House", 2, vec![]), player("Ann", 2, vec![])], vec![false, true]);
    game.is_inverted = true;
    let mut events = Vec::new();
    assert_eq!(play_as_house(&mut game, 1, &mut events), Ok(()));
    assert_eq!(events[1], HouseEvent::ShootsItself { live: true, lost_all_lives: false, credits: 1, reload: None });
    assert_eq!(game.players[0].lives, 1);
    assert_eq!(game.players[0].credits, 1);
    assert_eq!(game.players[1].lives, 2);
    assert_eq!(game.buckshot, vec![false]);
    assert!(!game.is_inverted);
}

#[test]
fn menu_names_pick_one_kind_of_item() {
    let all = buckshot_roulette::data::items_list();
    let names = |item: &Item| {
        let option = item.to_input_option(0);
        let mut names = vec![option.main_name.to_lowercase()];
        names.extend(option.alt_names.iter().map(|n| n.to_lowercase()));
        names
    };
    for a in &all {
        for b in &all {
            if a == b {
                continue;
            }
            for x in names(a) {
                assert!(!names(b).contains(&x), "{:?} and {:?} share {}", a, b, x);
            }
        }
    }
}

#[test]
fn house_smokes_while_missing_lives() {
    let mut game = table(
        vec![player("House", 1, vec![Item::Cigarettes, Item::Cigarettes, Item::Handcuffs]), player("Ann", 2, vec![])],
        vec![false, false],
    );
    let mut events = Vec::new();
    assert_eq!(play_as_house(&mut game, 2, &mut events), Ok(()));
    assert_eq!(events[1], HouseEvent::Handcuffed { target: 1 });
    assert_eq!(events[2], HouseEvent::Smoked);
    assert_eq!(events[3], HouseEvent::Smoked);
    assert!(game.players[0].items.is_empty());
    assert_eq!(game.players[0].lives, 3);
    assert_eq!(game.players[1].handcuffed_level, HandcuffedLevel::NewlyHandcuffed);
    // two blanks known: the House shoots itself twice, then the buckshot is refilled
    assert_eq!(game.players[0].credits, 4);
    match events.last() {
        Some(HouseEvent::ShootsItself { live: false, reload: Some(report), .. }) => {
            assert_eq!(report.live_count + report.blank_count, game.buckshot.len());
            assert!(game.buckshot.len() >= 4 && game.buckshot.len() <= 8);
        }
        other => panic!("unexpected {:?}", other),
    }
}

#[test]
fn passing_the_turn_within_a_round_hands_out_nothing() {
    let crowded = vec![Item::Beer; 9];
    let mut game = table(vec![player("a", 1, crowded.clone()), player("b", 1, vec![])], vec![true]);
    assert!(advance_turn(&mut game, 1).is_none());
    assert_eq!(game.curr_player, 1);
    assert_eq!(game.players[0].items, crowded);
}

#[test]
fn house_looks_before_shooting_when_unsure() {
    let mut game = table(
        vec![player("House", 2, vec![Item::MagnifyingGlass]), player("Ann", 2, vec![])],
        vec![false, true],
    );
    let mut events = Vec::new();
    assert_eq!(play_as_house(&mut game, 1, &mut events), Ok(()));
    assert_eq!(events[1], HouseEvent::UsedMagnifyingGlass);
    assert_eq!(events[2], HouseEvent::ShootsPlayer { target: 1, live: true, lost_all_lives: false, credits: 1, reload: None });
    assert!(game.players[0].items.is_empty());
    assert_eq!(game.players[1].lives, 1);
}
