# Buckshot Roulette with friends

A multi-player, coordinator-run version of Buckshot Roulette for the
terminal. The rules of the game live in a library verified with Verus; a thin
console program around it asks the questions, prints what happens, and keeps
the log and the running total of credits on disk.

## Layout

- `src/` — the verified library:
  - `data` — players, items, the table and the buckshot;
  - `settings` — per-stage numbers and item weights;
  - `shells` — loading the buckshot;
  - `rules` — handcuffs at the start of a turn, damage, and shots;
  - `items` — what each item does;
  - `turn` — the course of a player's turn (trading once, the unknown ticket);
  - `trade` — moving items between two hands, and how the House values them;
  - `house` — the House's automatic turn;
  - `stage` — setting the table, handing out items, passing the turn, paying
    the winners, and the final standings;
  - `input` — names, passwords, the turn menu and trade commands;
  - `credits` — the `name: credits` file of running totals;
  - `text` — small text helpers;
  - `laws` — properties that span several operations;
  - `rng` — the random numbers the game draws.
- `tests/` — tests of the library on concrete games.
- `app/` — the console program.

## Rules in brief

Each stage gives every player `stage + 1` lives, shuffles the seating, takes
off handcuffs and loads the buckshot with 2·stage to 8 shells, 40% to 60% of
them live. Every shot earns the stage's credits (doubled, like the damage,
by a barrel extension); the last player standing earns ten times the stage.
A player may trade once per turn; an unknown ticket restarts a turn that
would end, once. After three stages, the most credits win.

## Design notes

- The running totals are held as a `Vec` of `(name, credits)` entries in
  which no name occurs twice, rather than a `HashMap<String, usize>`. Verus
  accepts calls on a `HashMap` keyed by `String`, but its specifications in
  vstd hold only for key types whose hashing and equality it trusts; with
  `String` keys not even the length after one insertion follows, let alone
  what the merge and ranking contracts state. So the table is a list with
  that invariant, and every operation on it is proved to keep it.
- Chance enters through a single random-number source. Where a draw decides
  an outcome (expired medicine, the House's handcuff target, shell
  positions, reload sizes), a verified function states the outcome for every
  value of the draw, and the function making the draw states what holds
  whatever came back.
