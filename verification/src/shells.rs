//! Loading the buckshot.
use crate::data::{count_true, GameData};
use crate::rng::{random_below, shuffle};
use crate::settings::buckshot_reload_data;
use vstd::multiset::Multiset;
use vstd::prelude::*;

verus! {

/// What a reload put into the buckshot.
#[derive(Debug, Copy, Clone, PartialEq, Eq, Structural)]
pub struct ReloadReport {
    pub live_count: usize,
    pub blank_count: usize,
}

/// A freshly filled buckshot before it is shuffled: the live shells, then
/// the blank ones.
pub open spec fn loaded_shells(live_count: nat, blank_count: nat) -> Seq<bool> {
    Seq::new(live_count + blank_count, |i: int| i < live_count)
}

/// The number of live shells among `shell_count` when the live share is
/// drawn evenly between `low` and `high` percent and rounded to the nearest
/// whole shell: the draw `roll` (below `(high - low) * shell_count`) picks a
/// hundredth of a shell, and the count is that amount rounded half up.
pub open spec fn live_count_for_roll(shell_count: nat, low: nat, roll: nat) -> nat {
    (low * shell_count + roll + 50) / 100
}

/// What a reload into an empty buckshot in a stage can give: a shell count
/// within the stage's bounds, a live count rounded from a share drawn between
/// 40 and 60 percent, and those shells in some order.
pub open spec fn reload_result(stage_num: nat, report: ReloadReport, shells: Seq<bool>) -> bool {
    let n = report.live_count + report.blank_count;
    &&& stage_num * 2 <= n <= if stage_num * 4 <= 8 { stage_num * 4 } else { 8 }
    &&& n == 0 ==> report.live_count == 0
    &&& n > 0 ==> exists|roll: nat|
        roll < 20 * n && report.live_count == #[trigger] live_count_for_roll(n as nat, 40, roll)
    &&& shells.to_multiset() == loaded_shells(report.live_count as nat, report.blank_count as nat).to_multiset()
    &&& shells.len() == n
    &&& count_true(shells) == report.live_count
}

/// The live shells in a sequence are as many as the multiset of its shells
/// holds `true`.
pub proof fn lemma_count_true_multiset(shells: Seq<bool>)
    ensures
        count_true(shells) == shells.to_multiset().count(true),
    decreases shells.len(),
{
    broadcast use vstd::seq_lib::group_to_multiset_ensures;
    broadcast use vstd::multiset::group_multiset_axioms;
    if shells.len() == 0 {
        assert(shells.to_multiset() =~= Multiset::<bool>::empty());
    } else {
        lemma_count_true_multiset(shells.drop_last());
        assert(shells.drop_last().push(shells.last()) =~= shells);
    }
}

/// Sequences with the same multiset hold the same number of live shells.
pub proof fn lemma_count_true_permutation(a: Seq<bool>, b: Seq<bool>)
    requires
        a.to_multiset() == b.to_multiset(),
    ensures
        count_true(a) == count_true(b),
{
    lemma_count_true_multiset(a);
    lemma_count_true_multiset(b);
}

/// A freshly filled buckshot holds exactly its live shells.
proof fn lemma_count_loaded(live_count: nat, blank_count: nat)
    ensures
        count_true(loaded_shells(live_count, blank_count)) == live_count,
    decreases live_count + blank_count,
{
    let s = loaded_shells(live_count, blank_count);
    if blank_count > 0 {
        lemma_count_loaded(live_count, (blank_count - 1) as nat);
        assert(s.drop_last() =~= loaded_shells(live_count, (blank_count - 1) as nat));
    } else if live_count > 0 {
        lemma_count_loaded((live_count - 1) as nat, 0);
        assert(s.drop_last() =~= loaded_shells((live_count - 1) as nat, 0));
    } else {
        assert(s.len() == 0);
    }
}

/// The rounded live count never exceeds the shell count.
proof fn lemma_live_count_bound(shell_count: nat, roll: nat)
    requires
        shell_count >= 1,
        roll < 20 * shell_count,
    ensures
        live_count_for_roll(shell_count, 40, roll) <= shell_count,
{
    assert(40 * shell_count + roll + 50 < 100 * shell_count + 100) by (nonlinear_arith)
        requires
            shell_count >= 1,
            roll < 20 * shell_count,
    ;
    assert((40 * shell_count + roll + 50) / 100 <= shell_count) by (nonlinear_arith)
        requires
            40 * shell_count + roll + 50 < 100 * shell_count + 100,
    ;
}

/// Fills an empty buckshot when it has run out; a buckshot that still holds
/// shells is left alone. The new shells number between the stage's fewest
/// and most; the live share is drawn between the stage's lowest and highest
/// percentage and rounded; the shells are then shuffled, and the inverter
/// flag is reset.
pub fn reload_buckshot_if_needed(game_data: &mut GameData, stage_num: usize) -> (report: Option<ReloadReport>)
    requires
        old(game_data).buckshot@.len() == 0 ==> stage_num <= 4,
    ensures
        final(game_data).players == old(game_data).players,
        final(game_data).curr_player == old(game_data).curr_player,
        final(game_data).has_barrel_extension == old(game_data).has_barrel_extension,
        old(game_data).buckshot@.len() > 0 ==> report is None && *final(game_data) == *old(game_data),
        old(game_data).buckshot@.len() == 0 ==> (report matches Some(r) && reload_result(
            stage_num as nat,
            r,
            final(game_data).buckshot@,
        ) && !final(game_data).is_inverted),
{
    if game_data.buckshot.len() > 0 {
        return None;
    }
    let (min_bullets, max_bullets, min_percent, max_percent) = buckshot_reload_data(stage_num);
    let bullet_count = min_bullets + random_below(max_bullets - min_bullets + 1);
    let live_count = if bullet_count == 0 {
        0
    } else {
        let span = max_percent - min_percent;
        assert(bullet_count <= 8);
        assert(span * bullet_count == 20 * bullet_count) by (nonlinear_arith)
            requires
                span == 20,
        ;
        let roll = random_below(span * bullet_count);
        proof {
            lemma_live_count_bound(bullet_count as nat, roll as nat);
        }
        assert(min_percent * bullet_count == 40 * bullet_count) by (nonlinear_arith)
            requires
                min_percent == 40,
        ;
        (min_percent * bullet_count + roll + 50) / 100
    };
    let blank_count = bullet_count - live_count;
    let mut shells: Vec<bool> = Vec::with_capacity(bullet_count);
    let mut i: usize = 0;
    while i < live_count
        invariant
            i <= live_count,
            shells@ == loaded_shells(i as nat, 0),
        decreases live_count - i,
    {
        shells.push(true);
        i = i + 1;
        assert(shells@ =~= loaded_shells(i as nat, 0));
    }
    let mut j: usize = 0;
    while j < blank_count
        invariant
            j <= blank_count,
            shells@ == loaded_shells(live_count as nat, j as nat),
        decreases blank_count - j,
    {
        shells.push(false);
        j = j + 1;
        assert(shells@ =~= loaded_shells(live_count as nat, j as nat));
    }
    let ghost filled = shells@;
    shuffle(&mut shells);
    proof {
        lemma_count_loaded(live_count as nat, blank_count as nat);
        lemma_count_true_permutation(shells@, filled);
    }
    game_data.buckshot = shells;
    game_data.is_inverted = false;
    Some(ReloadReport { live_count, blank_count })
}

} // verus!
