//! What players type: names, passwords, the turn menu and trade commands.
use crate::data::Player;
use crate::text::{decimal_value, lemma_split_nonempty, lowered, parse_usize, split_at_char, split_on, to_lowercase, trim, trimmed};
use vstd::prelude::*;

verus! {

/// Why a name cannot be taken.
#[derive(Debug, Copy, Clone, PartialEq, Eq, Structural)]
pub enum NameProblem {
    /// The name is empty once white space is trimmed.
    Empty,
    /// The name is "House", in any case: that seat belongs to the program.
    House,
    /// A player already has this exact name.
    Taken,
}

/// Whether some player among `players` has exactly this name.
pub open spec fn name_taken(players: Seq<Player>, name: Seq<char>) -> bool {
    exists|k: int| 0 <= k < players.len() && (#[trigger] players[k]).name@ == name
}

/// Checks a name typed for a new player against the rules and the names of
/// the players already entered.
pub fn check_player_name(input: &str, taken: &[Player]) -> (result: Result<(), NameProblem>)
    ensures
        result == if trimmed(input@).len() == 0 {
            Err(NameProblem::Empty)
        } else if lowered(trimmed(input@)) == "house"@ {
            Err(NameProblem::House)
        } else if name_taken(taken@, input@) {
            Err(NameProblem::Taken)
        } else {
            Ok::<(), NameProblem>(())
        },
{
    let name = trim(input);
    if name.as_str().unicode_len() == 0 {
        return Err(NameProblem::Empty);
    }
    let lower = to_lowercase(name.as_str());
    let house = String::from_str("house");
    proof {
        reveal_strlit("house");
    }
    if lower == house {
        return Err(NameProblem::House);
    }
    let wanted = String::from_str(input);
    let mut k: usize = 0;
    while k < taken.len()
        invariant
            k <= taken@.len(),
            wanted@ == input@,
            trimmed(input@).len() != 0,
            lowered(trimmed(input@)) != "house"@,
            forall|j: int| 0 <= j < k ==> taken@[j].name@ != input@,
        decreases taken@.len() - k,
    {
        if taken[k].name == wanted {
            assert(taken@[k as int].name@ == input@);
            return Err(NameProblem::Taken);
        }
        k = k + 1;
    }
    Ok(())
}

/// The password two entries set: none when they differ; otherwise no
/// password for an empty entry, and the entry itself for any other.
pub fn confirm_password(first: String, second: &String) -> (result: Option<Option<String>>)
    ensures
        first@ != second@ ==> result is None,
        first@ == second@ && first@.len() == 0 ==> result == Some(None::<String>),
        first@ == second@ && first@.len() > 0 ==> (result matches Some(Some(p)) && p@ == first@),
{
    if !(first == *second) {
        return None;
    }
    if first.as_str().unicode_len() == 0 {
        Some(None)
    } else {
        Some(Some(first))
    }
}

/// Whether a typed password opens a player's seat: always when the player
/// has no password, otherwise when it is the password exactly.
pub fn password_accepts(password: &Option<String>, input: &String) -> (accepts: bool)
    ensures
        accepts == match password {
            None => true,
            Some(p) => p@ == input@,
        },
{
    match password {
        None => true,
        Some(p) => *p == *input,
    }
}

/// What a player can do on their turn.
#[derive(Debug, Copy, Clone, PartialEq, Eq, Structural)]
pub enum TurnAction {
    Shoot,
    UseItem,
    Trade,
}

/// The actions offered on a turn, in menu order: shooting always, using an
/// item when the player holds one, trading when the player may still trade.
pub open spec fn menu_actions(has_items: bool, can_trade: bool) -> Seq<TurnAction> {
    seq![TurnAction::Shoot] + (if has_items { seq![TurnAction::UseItem] } else { Seq::empty() })
        + (if can_trade { seq![TurnAction::Trade] } else { Seq::empty() })
}

/// The actions offered on a turn (see `menu_actions`).
pub fn turn_menu(has_items: bool, can_trade: bool) -> (menu: Vec<TurnAction>)
    ensures
        menu@ == menu_actions(has_items, can_trade),
{
    let mut menu = Vec::new();
    menu.push(TurnAction::Shoot);
    if has_items {
        menu.push(TurnAction::UseItem);
    }
    if can_trade {
        menu.push(TurnAction::Trade);
    }
    assert(menu@ =~= seq![TurnAction::Shoot] + (if has_items { seq![TurnAction::UseItem] } else { Seq::empty() })
        + (if can_trade { seq![TurnAction::Trade] } else { Seq::empty() }));
    menu
}

/// The action for the entry chosen from the turn menu, by its position:
/// the first entry shoots, the second uses an item, the third trades,
/// whichever entries the menu actually showed.
pub fn chosen_action(position: usize) -> (action: TurnAction)
    requires
        position < 3,
    ensures
        action == seq![TurnAction::Shoot, TurnAction::UseItem, TurnAction::Trade][position as int],
{
    if position == 0 {
        TurnAction::Shoot
    } else if position == 1 {
        TurnAction::UseItem
    } else {
        TurnAction::Trade
    }
}

/// A command typed while trading.
#[derive(Debug, Clone)]
pub enum TradeCommand {
    /// Offer the trade to both players.
    Finalize,
    /// Call the trade off.
    Cancel,
    /// Flip item `number` (counting from 1) of one side in or out of the
    /// trade: the typing player's side when `mine`.
    Toggle { mine: bool, number: usize },
    /// A toggle command without exactly three words.
    WrongTokenCount,
    /// A toggle command whose second word is neither "my" nor "other".
    BadSide,
    /// A toggle command whose third word is no number; the reason is given.
    BadNumber { reason: String },
    /// Anything else.
    Unknown,
}

/// The third word of a toggle command without one leading `#`.
pub open spec fn number_word(word: Seq<char>) -> Seq<char> {
    if word.len() > 0 && word[0] == '#' { word.drop_first() } else { word }
}

/// What a typed trade command asks for. The text is trimmed and put in
/// lower case first; "f"/"finalize" and "c"/"cancel" stand alone; a toggle
/// is "t"/"toggle", then "my"/"m" or "other"/"o", then the item's number,
/// optionally after a `#`, with single spaces between the words.
pub open spec fn trade_command_spec(input: Seq<char>) -> TradeCommand {
    let text = lowered(trimmed(input));
    let words = split_on(text, ' ');
    if text == "f"@ || text == "finalize"@ {
        TradeCommand::Finalize
    } else if text == "c"@ || text == "cancel"@ {
        TradeCommand::Cancel
    } else if words[0] == "t"@ || words[0] == "toggle"@ {
        if words.len() != 3 {
            TradeCommand::WrongTokenCount
        } else if !(words[1] == "my"@ || words[1] == "m"@ || words[1] == "other"@ || words[1] == "o"@) {
            TradeCommand::BadSide
        } else {
            match decimal_value(number_word(words[2])) {
                Some(n) if n <= usize::MAX => TradeCommand::Toggle { mine: words[1] == "my"@ || words[1] == "m"@, number: n as usize },
                _ => TradeCommand::BadNumber { reason: arbitrary() },
            }
        }
    } else {
        TradeCommand::Unknown
    }
}

/// Whether two commands agree, the reason of a bad number aside.
pub open spec fn same_command(a: TradeCommand, b: TradeCommand) -> bool {
    match (a, b) {
        (TradeCommand::BadNumber { .. }, TradeCommand::BadNumber { .. }) => true,
        _ => a == b,
    }
}

/// Reads a command typed while trading (see `trade_command_spec`).
pub fn parse_trade_command(input: &str) -> (command: TradeCommand)
    ensures
        same_command(command, trade_command_spec(input@)),
{
    let trimmed_input = trim(input);
    let text = to_lowercase(trimmed_input.as_str());
    proof {
        reveal_strlit("f");
        reveal_strlit("finalize");
        reveal_strlit("c");
        reveal_strlit("cancel");
        reveal_strlit("t");
        reveal_strlit("toggle");
        reveal_strlit("my");
        reveal_strlit("m");
        reveal_strlit("other");
        reveal_strlit("o");
    }
    if text == String::from_str("f") || text == String::from_str("finalize") {
        return TradeCommand::Finalize;
    }
    if text == String::from_str("c") || text == String::from_str("cancel") {
        return TradeCommand::Cancel;
    }
    let words = split_at_char(text.as_str(), ' ');
    proof {
        lemma_split_nonempty(text@, ' ');
        assert(words@[0]@ == split_on(text@, ' ')[0]);
    }
    if !(words[0] == String::from_str("t") || words[0] == String::from_str("toggle")) {
        return TradeCommand::Unknown;
    }
    if words.len() != 3 {
        return TradeCommand::WrongTokenCount;
    }
    assert(words@[1]@ == split_on(text@, ' ')[1]);
    assert(words@[2]@ == split_on(text@, ' ')[2]);
    let mine = words[1] == String::from_str("my") || words[1] == String::from_str("m");
    let theirs = words[1] == String::from_str("other") || words[1] == String::from_str("o");
    if !mine && !theirs {
        return TradeCommand::BadSide;
    }
    let word = words[2].as_str();
    let number_text = if word.unicode_len() > 0 && word.get_char(0) == '#' {
        word.substring_char(1, word.unicode_len())
    } else {
        word
    };
    assert(number_text@ =~= number_word(words@[2]@));
    match parse_usize(number_text) {
        Ok(number) => TradeCommand::Toggle { mine, number },
        Err(reason) => TradeCommand::BadNumber { reason },
    }
}

} // verus!
