//! The running total of credits kept across games: one line per player,
//! `name: credits`.
use crate::data::Player;
use crate::text::{
    ascii_upper, decimal_digits, decimal_value, digit_char, digits_value, is_ascii_digit, is_ascii_lower, is_white_space, strip_back, strip_front,
    lemma_split_nonempty, make_first_char_uppercase, parse_usize, split_at_char, split_on, trim, trimmed, usize_to_string,
};
use vstd::prelude::*;

verus! {

/// Why the total-credits text could not be read.
#[derive(Debug, Clone)]
pub enum CreditsFileError {
    /// The line (counting from 1) has no colon.
    MissingColon { line: usize },
    /// The credits on the line (counting from 1) are not a number; the
    /// reason is given.
    BadCredits { line: usize, reason: String },
}

/// The first position of `c` in a text.
pub open spec fn first_index_of(s: Seq<char>, c: char) -> Option<nat> {
    if exists|i: int| 0 <= i < s.len() && s[i] == c {
        let i = choose|i: int| 0 <= i < s.len() && s[i] == c && forall|j: int| 0 <= j < i ==> s[j] != c;
        Some(i as nat)
    } else {
        None
    }
}

/// How one line of the file reads: `Ok(None)` for a blank line,
/// `Ok(Some((name, credits)))` for an entry, `Err(true)` for a line with no
/// colon, `Err(false)` for credits that are no number that fits a `usize`.
/// The line is trimmed; the name is what comes before the first colon and
/// the credits what comes after it, both trimmed.
pub open spec fn read_line(line: Seq<char>) -> Result<Option<(Seq<char>, nat)>, bool> {
    let t = trimmed(line);
    if t.len() == 0 {
        Ok(None)
    } else {
        match first_index_of(t, ':') {
            None => Err(true),
            Some(colon) => match decimal_value(trimmed(t.skip(colon as int + 1))) {
                Some(v) if v <= usize::MAX => Ok(Some((trimmed(t.take(colon as int)), v))),
                _ => Err(false),
            },
        }
    }
}

/// The table read from the first `n` lines: each entry sets the credits of
/// its name, a later line for the same name replacing an earlier one. A bad
/// line stops the reading: `Err((line number, no colon))`.
pub open spec fn read_lines(lines: Seq<Seq<char>>, n: nat) -> Result<Map<Seq<char>, nat>, (nat, bool)>
    decreases n,
{
    if n == 0 {
        Ok(Map::empty())
    } else {
        match read_lines(lines, (n - 1) as nat) {
            Err(e) => Err(e),
            Ok(table) => match read_line(lines[n - 1]) {
                Ok(None) => Ok(table),
                Ok(Some((name, credits))) => Ok(table.insert(name, credits)),
                Err(no_colon) => Err((n, no_colon)),
            },
        }
    }
}

/// What a whole text reads as, cut into lines at `\n`.
pub open spec fn read_total_credits(text: Seq<char>) -> Result<Map<Seq<char>, nat>, (nat, bool)> {
    read_lines(split_on(text, '\n'), split_on(text, '\n').len())
}

/// A list of names and credits holds each name once, and holds exactly
/// the entries of `table`.
pub open spec fn lists_table(entries: Seq<(String, usize)>, table: Map<Seq<char>, nat>) -> bool {
    &&& forall|i: int, j: int| 0 <= i < j < entries.len() ==> (#[trigger] entries[i]).0@ != (#[trigger] entries[j]).0@
    &&& forall|i: int| 0 <= i < entries.len() ==> #[trigger] table.contains_key(entries[i].0@)
        && table[entries[i].0@] == entries[i].1
    &&& forall|name: Seq<char>| #[trigger] table.contains_key(name) ==> exists|i: int| 0 <= i < entries.len() && (#[trigger] entries[i]).0@ == name
}

/// Sets the credits of a name in a list of distinct names, adding it at the
/// end when it is new.
fn set_credits(entries: &mut Vec<(String, usize)>, name: String, credits: usize, table: Ghost<Map<Seq<char>, nat>>)
    requires
        lists_table(old(entries)@, table@),
    ensures
        lists_table(final(entries)@, table@.insert(name@, credits as nat)),
{
    let ghost start = entries@;
    let mut i: usize = 0;
    while i < entries.len()
        invariant
            entries@ == start,
            lists_table(start, table@),
            i <= entries@.len(),
            forall|j: int| 0 <= j < i ==> entries@[j].0@ != name@,
        decreases entries@.len() - i,
    {
        if entries[i].0 == name {
            let old_name = entries[i].0.clone();
            entries.set(i, (old_name, credits));
            proof {
                let t = table@.insert(name@, credits as nat);
                assert forall|n: Seq<char>| #[trigger] t.contains_key(n) implies exists|k: int| 0 <= k < entries@.len() && (#[trigger] entries@[k]).0@ == n by {
                    if n == name@ {
                        assert(entries@[i as int].0@ == n);
                    } else {
                        let k = choose|k: int| 0 <= k < start.len() && (#[trigger] start[k]).0@ == n;
                        assert(entries@[k].0@ == n);
                    }
                }
                assert forall|a: int, b: int| 0 <= a < b < entries@.len() implies (#[trigger] entries@[a]).0@ != (#[trigger] entries@[b]).0@ by {
                    assert(start[a].0@ != start[b].0@);
                }
            }
            return;
        }
        i = i + 1;
    }
    entries.push((name, credits));
    proof {
        let t = table@.insert(name@, credits as nat);
        assert forall|n: Seq<char>| #[trigger] t.contains_key(n) implies exists|k: int| 0 <= k < entries@.len() && (#[trigger] entries@[k]).0@ == n by {
            if n == name@ {
                assert(entries@[entries@.len() - 1].0@ == n);
            } else {
                let k = choose|k: int| 0 <= k < start.len() && (#[trigger] start[k]).0@ == n;
                assert(entries@[k].0@ == n);
            }
        }
        assert forall|a: int, b: int| 0 <= a < b < entries@.len() implies (#[trigger] entries@[a]).0@ != (#[trigger] entries@[b]).0@ by {
            if b < start.len() {
                assert(start[a].0@ != start[b].0@);
            }
        }
    }
}

/// Reads one line of the file (see `read_line`).
fn parse_line(line: &str) -> (result: Result<Option<(String, usize)>, Result<(), String>>)
    ensures
        match result {
            Ok(None) => read_line(line@) == Ok::<Option<(Seq<char>, nat)>, bool>(None),
            Ok(Some((name, credits))) => read_line(line@) == Ok::<Option<(Seq<char>, nat)>, bool>(Some((name@, credits as nat))),
            Err(Ok(())) => read_line(line@) == Err::<Option<(Seq<char>, nat)>, bool>(true),
            Err(Err(_)) => read_line(line@) == Err::<Option<(Seq<char>, nat)>, bool>(false),
        },
{
    let t = trim(line);
    let t = t.as_str();
    let len = t.unicode_len();
    if len == 0 {
        return Ok(None);
    }
    let mut colon: usize = 0;
    while colon < len && t.get_char(colon) != ':'
        invariant
            len == t@.len(),
            colon <= len,
            forall|j: int| 0 <= j < colon ==> t@[j] != ':',
        decreases len - colon,
    {
        colon = colon + 1;
    }
    if colon == len {
        return Err(Ok(()));
    }
    proof {
        let k = choose|k: int| 0 <= k < t@.len() && t@[k] == ':' && forall|j: int| 0 <= j < k ==> t@[j] != ':';
        if k > colon {
            assert(t@[colon as int] == ':');
        }
        assert(k == colon);
    }
    let name = trim(t.substring_char(0, colon));
    let number = trim(t.substring_char(colon + 1, len));
    assert(t@.subrange(0, colon as int) =~= t@.take(colon as int));
    assert(t@.subrange(colon + 1, len as int) =~= t@.skip(colon + 1));
    match parse_usize(number.as_str()) {
        Ok(credits) => Ok(Some((name, credits))),
        Err(reason) => Err(Err(reason)),
    }
}

/// Reads the total-credits text: the names with their credits, each name
/// once, or the first line that cannot be read.
pub fn parse_total_credits(text: &str) -> (result: Result<Vec<(String, usize)>, CreditsFileError>)
    ensures
        match result {
            Ok(entries) => read_total_credits(text@) matches Ok(table) && lists_table(entries@, table),
            Err(CreditsFileError::MissingColon { line }) => read_total_credits(text@) == Err::<Map<Seq<char>, nat>, (nat, bool)>((line as nat, true)),
            Err(CreditsFileError::BadCredits { line, .. }) => read_total_credits(text@) == Err::<Map<Seq<char>, nat>, (nat, bool)>((line as nat, false)),
        },
{
    let lines = split_at_char(text, '\n');
    let ghost pieces = split_on(text@, '\n');
    let mut entries: Vec<(String, usize)> = Vec::new();
    let ghost mut table: Map<Seq<char>, nat> = Map::empty();
    let mut i: usize = 0;
    while i < lines.len()
        invariant
            lines@.map_values(|p: String| p@) == pieces,
            pieces == split_on(text@, '\n'),
            i <= lines@.len(),
            read_lines(pieces, i as nat) == Ok::<Map<Seq<char>, nat>, (nat, bool)>(table),
            lists_table(entries@, table),
        decreases lines@.len() - i,
    {
        assert(lines@[i as int]@ == pieces[i as int]);
        match parse_line(lines[i].as_str()) {
            Ok(None) => {},
            Ok(Some((name, credits))) => {
                set_credits(&mut entries, name, credits, Ghost(table));
                proof {
                    table = table.insert(name@, credits as nat);
                }
            },
            Err(Ok(())) => {
                proof {
                    lemma_read_error_stays(pieces, (i + 1) as nat, pieces.len());
                }
                return Err(CreditsFileError::MissingColon { line: i + 1 });
            },
            Err(Err(reason)) => {
                proof {
                    lemma_read_error_stays(pieces, (i + 1) as nat, pieces.len());
                }
                return Err(CreditsFileError::BadCredits { line: i + 1, reason });
            },
        }
        i = i + 1;
    }
    Ok(entries)
}

/// The table after adding each player's credits of this game to their name
/// (a new name starts from zero), the players taken in seating order.
pub open spec fn add_game_credits(table: Map<Seq<char>, nat>, players: Seq<Player>) -> Map<Seq<char>, nat>
    decreases players.len(),
{
    if players.len() == 0 {
        table
    } else {
        let before = add_game_credits(table, players.drop_last());
        let p = players.last();
        let held: nat = if before.contains_key(p.name@) { before[p.name@] } else { 0 };
        before.insert(p.name@, held + p.credits as nat)
    }
}

/// Whether every running total stays within a `usize` while this game's
/// credits are added player by player.
pub open spec fn game_credits_fit(table: Map<Seq<char>, nat>, players: Seq<Player>) -> bool {
    forall|k: int| 0 <= k < players.len() ==>
        #[trigger] add_game_credits(table, players.take(k + 1))[players[k].name@] <= usize::MAX
}

/// The credits listed for a name, zero when the name is not listed.
fn lookup_credits(entries: &Vec<(String, usize)>, name: &String, table: Ghost<Map<Seq<char>, nat>>) -> (held: usize)
    requires
        lists_table(entries@, table@),
    ensures
        held == if table@.contains_key(name@) { table@[name@] } else { 0 },
{
    let mut j: usize = 0;
    while j < entries.len()
        invariant
            j <= entries@.len(),
            lists_table(entries@, table@),
            forall|i: int| 0 <= i < j ==> entries@[i].0@ != name@,
        decreases entries@.len() - j,
    {
        if entries[j].0 == *name {
            return entries[j].1;
        }
        j = j + 1;
    }
    proof {
        if table@.contains_key(name@) {
            let i = choose|i: int| 0 <= i < entries@.len() && (#[trigger] entries@[i]).0@ == name@;
        }
    }
    0
}

/// Once a line cannot be read, later lines change nothing.
proof fn lemma_read_error_stays(lines: Seq<Seq<char>>, n: nat, m: nat)
    requires
        n <= m,
        read_lines(lines, n) is Err,
    ensures
        read_lines(lines, m) == read_lines(lines, n),
    decreases m - n,
{
    if n < m {
        lemma_read_error_stays(lines, n, (m - 1) as nat);
    }
}

/// Adds each player's credits of this game to the totals of `table`.
fn merge_into_table(entries: &mut Vec<(String, usize)>, players: &Vec<Player>, table: Ghost<Map<Seq<char>, nat>>) -> (fits: bool)
    requires
        lists_table(old(entries)@, table@),
    ensures
        fits == game_credits_fit(table@, players@),
        fits ==> lists_table(final(entries)@, add_game_credits(table@, players@)),
{
    let ghost mut current = table@;
    let mut k: usize = 0;
    while k < players.len()
        invariant
            k <= players@.len(),
            current == add_game_credits(table@, players@.take(k as int)),
            lists_table(entries@, current),
            forall|j: int| 0 <= j < k ==>
                #[trigger] add_game_credits(table@, players@.take(j + 1))[players@[j].name@] <= usize::MAX,
        decreases players@.len() - k,
    {
        assert(players@.take(k + 1).drop_last() =~= players@.take(k as int));
        assert(players@.take(k + 1).last() == players@[k as int]);
        let name = players[k].name.clone();
        let held = lookup_credits(entries, &name, Ghost(current));
        let ghost next = add_game_credits(table@, players@.take(k + 1));
        assert(next[players@[k as int].name@] == held + players@[k as int].credits);
        match held.checked_add(players[k].credits) {
            Some(total) => {
                set_credits(entries, name, total, Ghost(current));
                proof {
                    current = current.insert(players@[k as int].name@, total as nat);
                }
            },
            None => {
                return false;
            },
        }
        k = k + 1;
    }
    assert(players@.take(k as int) =~= players@);
    true
}

/// The table a list of names and credits stands for; a later entry for a
/// name replaces an earlier one.
pub open spec fn table_of(entries: Seq<(String, usize)>) -> Map<Seq<char>, nat>
    decreases entries.len(),
{
    if entries.len() == 0 {
        Map::empty()
    } else {
        table_of(entries.drop_last()).insert(entries.last().0@, entries.last().1 as nat)
    }
}

/// Whether a list of names and credits names nobody twice.
pub open spec fn distinct_names(entries: Seq<(String, usize)>) -> bool {
    forall|i: int, j: int| 0 <= i < j < entries.len() ==> (#[trigger] entries[i]).0@ != (#[trigger] entries[j]).0@
}

proof fn lemma_lists_own_table(entries: Seq<(String, usize)>)
    requires
        distinct_names(entries),
    ensures
        lists_table(entries, table_of(entries)),
    decreases entries.len(),
{
    if entries.len() > 0 {
        let rest = entries.drop_last();
        assert(distinct_names(rest)) by {
            assert forall|i: int, j: int| 0 <= i < j < rest.len() implies (#[trigger] rest[i]).0@ != (#[trigger] rest[j]).0@ by {
                assert(rest[i] == entries[i] && rest[j] == entries[j]);
            }
        }
        lemma_lists_own_table(rest);
        let t = table_of(entries);
        let last = entries.last();
        assert forall|i: int| 0 <= i < entries.len() implies #[trigger] t.contains_key(entries[i].0@)
            && t[entries[i].0@] == entries[i].1 by {
            if i < entries.len() - 1 {
                assert(entries[i] == rest[i]);
                assert(entries[i].0@ != last.0@);
            }
        }
        assert forall|name: Seq<char>| #[trigger] t.contains_key(name) implies exists|i: int| 0 <= i < entries.len() && (#[trigger] entries[i]).0@ == name by {
            if name == last.0@ {
                assert(entries[entries.len() - 1].0@ == name);
            } else {
                let i = choose|i: int| 0 <= i < rest.len() && (#[trigger] rest[i]).0@ == name;
                assert(entries[i] == rest[i]);
            }
        }
    }
}

/// Adds each player's credits of this game to their running total (a name
/// not yet listed starts from zero and is added at the end). Returns
/// `false` exactly when a total would no longer fit a `usize`; the list is
/// then left part-way.
pub fn merge_game_credits(entries: &mut Vec<(String, usize)>, players: &Vec<Player>) -> (fits: bool)
    requires
        distinct_names(old(entries)@),
    ensures
        fits == game_credits_fit(table_of(old(entries)@), players@),
        fits ==> lists_table(final(entries)@, add_game_credits(table_of(old(entries)@), players@)),
{
    proof {
        lemma_lists_own_table(entries@);
    }
    let ghost table = table_of(entries@);
    merge_into_table(entries, players, Ghost(table))
}

/// A name with its first character capitalised when it is an ASCII
/// lower-case letter.
pub open spec fn capitalized(name: Seq<char>) -> Seq<char> {
    if name.len() > 0 && is_ascii_lower(name[0]) {
        name.update(0, ascii_upper(name[0]))
    } else {
        name
    }
}

/// The name and credits of an entry, as plain values.
pub open spec fn entry_view(entry: (String, usize)) -> (Seq<char>, usize) {
    (entry.0@, entry.1)
}

/// An entry with its name capitalised.
pub open spec fn capitalized_entry(entry: (String, usize)) -> (Seq<char>, usize) {
    (capitalized(entry.0@), entry.1)
}

/// Whether entries run from most credits to fewest.
pub open spec fn most_credits_first(entries: Seq<(String, usize)>) -> bool {
    forall|i: int, j: int| 0 <= i < j < entries.len() ==> (#[trigger] entries[i]).1 >= (#[trigger] entries[j]).1
}

/// Puts the totals in the order they are written: names capitalised, most
/// credits first. Entries with equal credits may come in any order.
pub fn rank_total_credits(entries: &Vec<(String, usize)>) -> (ranked: Vec<(String, usize)>)
    ensures
        ranked@.map_values(|e: (String, usize)| entry_view(e)).to_multiset()
            == entries@.map_values(|e: (String, usize)| capitalized_entry(e)).to_multiset(),
        most_credits_first(ranked@),
{
    let ghost wanted = entries@.map_values(|e: (String, usize)| capitalized_entry(e));
    let mut ranked: Vec<(String, usize)> = Vec::new();
    let mut i: usize = 0;
    assert(ranked@.map_values(|e: (String, usize)| entry_view(e)) =~= wanted.take(0));
    while i < entries.len()
        invariant
            i <= entries@.len(),
            wanted == entries@.map_values(|e: (String, usize)| capitalized_entry(e)),
            ranked@.map_values(|e: (String, usize)| entry_view(e)).to_multiset() == wanted.take(i as int).to_multiset(),
            most_credits_first(ranked@),
        decreases entries@.len() - i,
    {
        let mut name = entries[i].0.clone();
        make_first_char_uppercase(&mut name);
        let credits = entries[i].1;
        let mut p: usize = 0;
        while p < ranked.len() && ranked[p].1 >= credits
            invariant
                p <= ranked@.len(),
                forall|j: int| 0 <= j < p ==> (#[trigger] ranked@[j]).1 >= credits,
            decreases ranked@.len() - p,
        {
            p = p + 1;
        }
        let ghost before = ranked@;
        ranked.insert(p, (name, credits));
        proof {
            let x = (name@, credits);
            assert(entry_view(ranked@[p as int]) == x);
            assert(ranked@ == before.insert(p as int, (name, credits)));
            assert(ranked@.map_values(|e: (String, usize)| entry_view(e)) =~= before.map_values(|e: (String, usize)| entry_view(e)).insert(p as int, x));
            assert(wanted[i as int] == x);
            assert(wanted.take(i + 1) =~= wanted.take(i as int).push(x));
            let bv = before.map_values(|e: (String, usize)| entry_view(e));
            vstd::seq_lib::to_multiset_insert(bv, p as int, x);
            vstd::seq_lib::to_multiset_build(wanted.take(i as int), x);
            assert forall|a: int, b: int| 0 <= a < b < ranked@.len() implies (#[trigger] ranked@[a]).1 >= (#[trigger] ranked@[b]).1 by {
                if b < p {
                } else if a < p && b == p {
                } else if a < p && b > p {
                    assert(ranked@[b] == before[b - 1]);
                    if p < before.len() {
                        assert(before[p as int].1 < credits);
                        assert(before[p as int].1 >= before[b - 1].1);
                    }
                } else if a == p {
                    assert(ranked@[b] == before[b - 1]);
                    assert(before[p as int].1 < credits);
                    if b - 1 > p {
                        assert(before[p as int].1 >= before[b - 1].1);
                    }
                } else {
                    assert(ranked@[a] == before[a - 1]);
                    assert(ranked@[b] == before[b - 1]);
                }
            }
        }
        i = i + 1;
    }
    assert(wanted.take(i as int) =~= wanted);
    ranked
}

/// The text of one written entry: `name: credits` and a line break.
pub open spec fn entry_line(entry: (Seq<char>, usize)) -> Seq<char> {
    entry.0 + ": "@ + decimal_digits(entry.1 as nat) + "\n"@
}

/// The written text of the first `n` entries.
pub open spec fn entries_text(entries: Seq<(String, usize)>, n: nat) -> Seq<char>
    decreases n,
{
    if n == 0 {
        Seq::empty()
    } else {
        entries_text(entries, (n - 1) as nat) + entry_line(entry_view(entries[n - 1]))
    }
}

/// Writes the totals, one `name: credits` line per entry, in order.
pub fn format_total_credits(entries: &Vec<(String, usize)>) -> (text: String)
    ensures
        text@ == entries_text(entries@, entries@.len()),
{
    let mut text = String::new();
    let mut i: usize = 0;
    while i < entries.len()
        invariant
            i <= entries@.len(),
            text@ == entries_text(entries@, i as nat),
        decreases entries@.len() - i,
    {
        text.append(entries[i].0.as_str());
        text.append(": ");
        let digits = usize_to_string(entries[i].1);
        text.append(digits.as_str());
        text.append("\n");
        proof {
            reveal_strlit(": ");
            reveal_strlit("\n");
        }
        i = i + 1;
    }
    text
}

/// The line written for an entry, without its line break.
pub open spec fn entry_content(entry: (Seq<char>, usize)) -> Seq<char> {
    entry.0 + ": "@ + decimal_digits(entry.1 as nat)
}

/// The lines written for the first `n` entries, without line breaks.
pub open spec fn written_lines(entries: Seq<(String, usize)>, n: nat) -> Seq<Seq<char>>
    decreases n,
{
    if n == 0 {
        Seq::empty()
    } else {
        written_lines(entries, (n - 1) as nat).push(entry_content(entry_view(entries[n - 1])))
    }
}

/// Whether a name survives being written and read back: not empty, without
/// white space at either end, and without a colon or a line break.
pub open spec fn writable_name(name: Seq<char>) -> bool {
    &&& name.len() > 0
    &&& trimmed(name) == name
    &&& !name.contains(':')
    &&& !name.contains('\n')
}

proof fn lemma_split_append_piece(s: Seq<char>, c: Seq<char>, sep: char)
    requires
        !c.contains(sep),
    ensures
        split_on(s + c, sep) == split_on(s, sep).update(split_on(s, sep).len() - 1, split_on(s, sep).last() + c),
    decreases c.len(),
{
    lemma_split_nonempty(s, sep);
    if c.len() == 0 {
        assert(s + c =~= s);
        assert(split_on(s, sep).last() + c =~= split_on(s, sep).last());
        assert(split_on(s, sep).update(split_on(s, sep).len() - 1, split_on(s, sep).last()) =~= split_on(s, sep));
    } else {
        let c0 = c.drop_last();
        assert(!c0.contains(sep)) by {
            if c0.contains(sep) {
                let i = choose|i: int| 0 <= i < c0.len() && c0[i] == sep;
                assert(c[i] == sep);
            }
        }
        lemma_split_append_piece(s, c0, sep);
        assert((s + c).drop_last() =~= s + c0);
        assert((s + c).last() == c.last());
        assert(c.last() != sep) by {
            assert(c[c.len() - 1] == c.last());
        }
        lemma_split_nonempty(s + c0, sep);
        assert(split_on(s, sep).last() + c =~= (split_on(s, sep).last() + c0).push(c.last()));
        assert(split_on(s + c, sep) =~= split_on(s, sep).update(split_on(s, sep).len() - 1, split_on(s, sep).last() + c));
    }
}

proof fn lemma_split_written(entries: Seq<(String, usize)>, n: nat)
    requires
        n <= entries.len(),
        forall|k: int| 0 <= k < entries.len() ==> writable_name(#[trigger] entries[k].0@),
    ensures
        split_on(entries_text(entries, n), '\n') == written_lines(entries, n).push(Seq::empty()),
    decreases n,
{
    reveal_strlit("\n");
    reveal_strlit(": ");
    if n == 0 {
        assert(entries_text(entries, 0) =~= Seq::<char>::empty());
        assert(split_on(Seq::<char>::empty(), '\n') =~= seq![Seq::<char>::empty()]);
        assert(written_lines(entries, 0).push(Seq::empty()) =~= seq![Seq::<char>::empty()]);
    } else {
        lemma_split_written(entries, (n - 1) as nat);
        let prev = entries_text(entries, (n - 1) as nat);
        let e = entry_view(entries[n - 1]);
        let c = entry_content(e);
        assert(writable_name(entries[n - 1].0@));
        lemma_digits_are_digits(e.1 as nat);
        assert(!c.contains('\n')) by {
            if c.contains('\n') {
                let i = choose|i: int| 0 <= i < c.len() && c[i] == '\n';
                if i < e.0.len() {
                    assert(e.0[i] == '\n');
                } else if i < e.0.len() + 2 {
                    assert(c[i] == ": "@[i - e.0.len()]);
                } else {
                    assert(c[i] == decimal_digits(e.1 as nat)[i - e.0.len() - 2]);
                }
            }
        }
        lemma_split_append_piece(prev, c, '\n');
        assert(entries_text(entries, n) =~= (prev + c).push('\n'));
        assert(entry_line(e) =~= c + "\n"@);
        lemma_split_nonempty(prev + c, '\n');
        assert(split_on((prev + c).push('\n'), '\n') == split_on(prev + c, '\n').push(Seq::empty())) by {
            assert((prev + c).push('\n').drop_last() =~= prev + c);
        }
        assert(Seq::<char>::empty() + c =~= c);
        assert(written_lines(entries, n).push(Seq::empty()) =~= written_lines(entries, (n - 1) as nat).push(Seq::empty()).update(
            written_lines(entries, (n - 1) as nat).len() as int,
            c,
        ).push(Seq::empty()));
    }
}

/// Every character of a number's decimal digits is an ASCII digit, and
/// the digits read back as the number.
proof fn lemma_digits_are_digits(v: nat)
    ensures
        decimal_digits(v).len() > 0,
        forall|i: int| 0 <= i < decimal_digits(v).len() ==> is_ascii_digit(#[trigger] decimal_digits(v)[i]),
        digits_value(decimal_digits(v)) == v,
        !is_white_space(decimal_digits(v)[0]),
        !is_white_space(decimal_digits(v).last()),
        decimal_digits(v)[0] != '+',
        !decimal_digits(v).contains(':'),
        !decimal_digits(v).contains('\n'),
    decreases v,
{
    let d = decimal_digits(v);
    if v < 10 {
        assert(d == seq![digit_char(v)]);
        assert((digit_char(v) as nat) == 48 + v);
        assert(('0' as nat) == 48);
        assert(d.drop_last() =~= Seq::<char>::empty());
        assert(d.last() == digit_char(v));
        assert(digits_value(d.drop_last()) == 0);
        assert(digits_value(d) == v);
    } else {
        lemma_digits_are_digits(v / 10);
        let front = decimal_digits(v / 10);
        assert(d == front.push(digit_char(v % 10)));
        assert((digit_char(v % 10) as nat) == 48 + v % 10);
        assert(d.drop_last() =~= front);
        assert(d.last() == digit_char(v % 10));
        assert(('0' as nat) == 48);
        assert((v / 10) * 10 + v % 10 == v) by (nonlinear_arith);
        assert(digits_value(d) == digits_value(front) * 10 + ((d.last() as nat) - ('0' as nat)) as nat);
        assert(digits_value(d) == v);
        assert(d[0] == front[0]);
        assert forall|i: int| 0 <= i < d.len() implies is_ascii_digit(#[trigger] d[i]) by {
            if i < front.len() {
                assert(d[i] == front[i]);
            }
        }
    }
    assert(!d.contains(':')) by {
        if d.contains(':') {
            let i = choose|i: int| 0 <= i < d.len() && d[i] == ':';
            assert(is_ascii_digit(d[i]));
        }
    }
    assert(!d.contains('\n')) by {
        if d.contains('\n') {
            let i = choose|i: int| 0 <= i < d.len() && d[i] == '\n';
            assert(is_ascii_digit(d[i]));
        }
    }
    assert(is_ascii_digit(d[0]));
    assert(is_ascii_digit(d[d.len() - 1]));
}

proof fn lemma_strip_lengths(s: Seq<char>)
    ensures
        strip_front(s).len() <= s.len(),
        strip_back(s).len() <= s.len(),
    decreases s.len(),
{
    if s.len() > 0 {
        lemma_strip_lengths(s.drop_first());
        lemma_strip_lengths(s.drop_last());
    }
}

/// A writable name starts and ends with characters that are not white space.
proof fn lemma_writable_ends(name: Seq<char>)
    requires
        writable_name(name),
    ensures
        !is_white_space(name[0]),
        !is_white_space(name.last()),
{
    if is_white_space(name[0]) {
        lemma_strip_lengths(name.drop_first());
        lemma_strip_lengths(strip_front(name.drop_first()));
        assert(trimmed(name).len() < name.len());
    }
    if is_white_space(name.last()) {
        assert(strip_front(name) == name);
        lemma_strip_lengths(name.drop_last());
        assert(trimmed(name).len() < name.len());
    }
}

/// A line written for a writable name reads back as that name and credits.
proof fn lemma_read_written_line(name: Seq<char>, credits: usize)
    requires
        writable_name(name),
    ensures
        read_line(entry_content((name, credits))) == Ok::<Option<(Seq<char>, nat)>, bool>(Some((name, credits as nat))),
{
    reveal_strlit(": ");
    let d = decimal_digits(credits as nat);
    let c = entry_content((name, credits));
    lemma_digits_are_digits(credits as nat);
    lemma_writable_ends(name);
    assert(c =~= name + ": "@ + d);
    assert(c[0] == name[0]);
    assert(c.last() == d.last());
    assert(strip_front(c) == c);
    assert(strip_back(c) == c);
    assert(trimmed(c) == c);
    let n = name.len();
    assert(c[n as int] == ':');
    assert forall|j: int| 0 <= j < n implies c[j] != ':' by {
        assert(c[j] == name[j]);
        if name[j] == ':' {
            assert(name.contains(':'));
        }
    }
    let k = choose|i: int| 0 <= i < c.len() && c[i] == ':' && forall|j: int| 0 <= j < i ==> c[j] != ':';
    assert(k == n) by {
        if k > n {
            assert(c[n as int] == ':');
        }
    }
    assert(first_index_of(c, ':') == Some(n));
    let rest = c.skip(n as int + 1);
    assert(rest =~= seq![' '] + d);
    assert(rest.drop_first() =~= d);
    assert(is_white_space(rest[0]));
    assert(strip_front(rest) == strip_front(d));
    assert(strip_front(d) == d);
    assert(strip_back(d) == d);
    assert(trimmed(rest) == d);
    assert(decimal_value(d) == Some(credits as nat));
    assert(c.take(n as int) =~= name);
}

/// The written lines, one per entry.
proof fn lemma_written_line_at(entries: Seq<(String, usize)>, n: nat, k: int)
    requires
        0 <= k < n,
    ensures
        written_lines(entries, n).len() == n,
        written_lines(entries, n)[k] == entry_content(entry_view(entries[k])),
    decreases n,
{
    if k < n - 1 {
        lemma_written_line_at(entries, (n - 1) as nat, k);
    } else {
        if n > 1 {
            lemma_written_line_at(entries, (n - 1) as nat, 0);
        } else {
            assert(written_lines(entries, 0).len() == 0);
        }
    }
}

/// Reading the written lines of the first `k` entries gives their table.
proof fn lemma_read_written_lines(entries: Seq<(String, usize)>, lines: Seq<Seq<char>>, k: nat)
    requires
        k <= entries.len(),
        lines.len() >= k,
        forall|i: int| 0 <= i < k ==> lines[i] == entry_content(entry_view(#[trigger] entries[i])),
        forall|i: int| 0 <= i < entries.len() ==> writable_name(#[trigger] entries[i].0@),
    ensures
        read_lines(lines, k) == Ok::<Map<Seq<char>, nat>, (nat, bool)>(table_of(entries.take(k as int))),
    decreases k,
{
    if k == 0 {
        assert(entries.take(0) =~= Seq::<(String, usize)>::empty());
    } else {
        lemma_read_written_lines(entries, lines, (k - 1) as nat);
        let e = entries[k - 1];
        assert(writable_name(e.0@));
        lemma_read_written_line(e.0@, e.1);
        assert(lines[k - 1] == entry_content(entry_view(e)));
        assert(entries.take(k as int).drop_last() =~= entries.take(k - 1));
        assert(entries.take(k as int).last() == e);
    }
}

/// What is written of the totals reads back as the same totals, when every
/// name is writable (see `writable_name`): the text that
/// `format_total_credits` produces for a list of entries is read by
/// `parse_total_credits` as the table of those entries.
pub proof fn law_written_totals_read_back(entries: Seq<(String, usize)>)
    requires
        forall|k: int| 0 <= k < entries.len() ==> writable_name(#[trigger] entries[k].0@),
    ensures
        read_total_credits(entries_text(entries, entries.len())) == Ok::<Map<Seq<char>, nat>, (nat, bool)>(table_of(entries)),
{
    let n = entries.len();
    lemma_split_written(entries, n);
    let lines = written_lines(entries, n).push(Seq::empty());
    assert forall|i: int| 0 <= i < n implies lines[i] == entry_content(entry_view(#[trigger] entries[i])) by {
        lemma_written_line_at(entries, n, i);
    }
    if n > 0 {
        lemma_written_line_at(entries, n, 0);
    }
    lemma_read_written_lines(entries, lines, n);
    assert(entries.take(n as int) =~= entries);
    assert(lines[n as int] == Seq::<char>::empty());
    assert(trimmed(Seq::<char>::empty()) == Seq::<char>::empty());
    assert(read_line(Seq::<char>::empty()) == Ok::<Option<(Seq<char>, nat)>, bool>(None));
    assert(lines.len() == n + 1);
}

} // verus!
