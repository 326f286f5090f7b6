//! Completion recomputation: after reconciliation, a game is complete when
//! the roms its merge strategy makes it responsible for all have a live
//! romfile association, and a system is complete when all of its games are.

use vstd::prelude::*;
use crate::catalog::{Catalog, Game, Merging, System};

verus! {

/// Which roms a game must have on hand to count as complete.
#[derive(Clone, Copy, PartialEq, Eq, Structural)]
pub enum CompletionRule {
    /// Every rom row of the game, inherited ones included.
    All,
    /// Only the game's directly-owned roms: those without a parent link.
    Split,
    /// The game's roms and, recursively, its whole parent chain's roms.
    Chain,
}

/// The index of the game row carrying this id, if any.
pub open spec fn game_by_id(gs: Seq<Game>, id: i64) -> Option<int> {
    if exists|i: int| 0 <= i < gs.len() && #[trigger] gs[i].id == id {
        Some(choose|i: int| 0 <= i < gs.len() && #[trigger] gs[i].id == id)
    } else {
        None
    }
}

/// Every rom row of the game has a live romfile association.
pub open spec fn spec_all_present(c: Catalog, gid: i64) -> bool {
    forall|j: int|
        0 <= j < c.roms@.len() && #[trigger] c.roms@[j].game_id == gid ==> c.roms@[j].romfile_id
            is Some
}

/// Every directly-owned rom row of the game has a live romfile association.
pub open spec fn spec_own_present(c: Catalog, gid: i64) -> bool {
    forall|j: int|
        0 <= j < c.roms@.len() && #[trigger] c.roms@[j].game_id == gid && c.roms@[j].parent_id
            is None ==> c.roms@[j].romfile_id is Some
}

/// The game's roms and its whole parent chain's roms are all present, up to
/// a bounded chain depth: parent links only ever point at rows resolved
/// earlier, so a chain longer than the table is impossible.
pub open spec fn spec_chain_present(c: Catalog, gid: i64, fuel: nat) -> bool
    decreases fuel,
{
    spec_all_present(c, gid) && (match game_by_id(c.games@, gid) {
        Some(i) => match c.games@[i].parent_id {
            Some(p) => fuel > 0 && spec_chain_present(c, p, (fuel - 1) as nat),
            None => true,
        },
        None => true,
    })
}

/// The completion predicate a merge strategy assigns to a game.
pub open spec fn spec_rule_present(c: Catalog, rule: CompletionRule, gid: i64) -> bool {
    match rule {
        CompletionRule::All => spec_all_present(c, gid),
        CompletionRule::Split => spec_own_present(c, gid),
        CompletionRule::Chain => spec_chain_present(c, gid, c.games@.len() as nat),
    }
}

/// The completion rule an arcade system's merge strategy selects.
pub open spec fn spec_rule_of(merging: Merging) -> CompletionRule {
    match merging {
        Merging::Split => CompletionRule::Split,
        Merging::NonMerged => CompletionRule::Chain,
        Merging::Merged => CompletionRule::Chain,
        Merging::FullNonMerged => CompletionRule::All,
        Merging::FullMerged => CompletionRule::All,
    }
}

fn all_present(catalog: &Catalog, gid: i64) -> (b: bool)
    ensures
        b == spec_all_present(*catalog, gid),
{
    let mut j: usize = 0;
    while j < catalog.roms.len()
        invariant
            j <= catalog.roms@.len(),
            forall|x: int|
                0 <= x < j && #[trigger] catalog.roms@[x].game_id == gid
                    ==> catalog.roms@[x].romfile_id is Some,
        decreases catalog.roms@.len() - j,
    {
        if catalog.roms[j].game_id == gid && catalog.roms[j].romfile_id.is_none() {
            return false;
        }
        j += 1;
    }
    true
}

fn own_present(catalog: &Catalog, gid: i64) -> (b: bool)
    ensures
        b == spec_own_present(*catalog, gid),
{
    let mut j: usize = 0;
    while j < catalog.roms.len()
        invariant
            j <= catalog.roms@.len(),
            forall|x: int|
                0 <= x < j && #[trigger] catalog.roms@[x].game_id == gid
                    && catalog.roms@[x].parent_id is None ==> catalog.roms@[x].romfile_id is Some,
        decreases catalog.roms@.len() - j,
    {
        if catalog.roms[j].game_id == gid && catalog.roms[j].parent_id.is_none()
            && catalog.roms[j].romfile_id.is_none() {
            return false;
        }
        j += 1;
    }
    true
}

fn chain_present(catalog: &Catalog, gid: i64, fuel: usize) -> (b: bool)
    requires
        catalog.wf(),
    ensures
        b == spec_chain_present(*catalog, gid, fuel as nat),
    decreases fuel,
{
    if !all_present(catalog, gid) {
        return false;
    }
    match catalog.find_game_by_id(gid) {
        Some(i) => {
            proof {
                if game_by_id(catalog.games@, gid) is Some {
                    let w = game_by_id(catalog.games@, gid)->0;
                    assert(catalog.games@[w].id == gid);
                    assert(w == i as int);
                } else {
                    assert(false);
                }
            }
            match catalog.games[i].parent_id {
                Some(p) => {
                    if fuel == 0 {
                        false
                    } else {
                        chain_present(catalog, p, fuel - 1)
                    }
                },
                None => true,
            }
        },
        None => {
            proof {
                if game_by_id(catalog.games@, gid) is Some {
                    let w = game_by_id(catalog.games@, gid)->0;
                    assert(catalog.games@[w].id == gid);
                    assert(false);
                }
            }
            true
        },
    }
}

fn rule_present(catalog: &Catalog, rule: CompletionRule, gid: i64) -> (b: bool)
    requires
        catalog.wf(),
    ensures
        b == spec_rule_present(*catalog, rule, gid),
{
    match rule {
        CompletionRule::All => all_present(catalog, gid),
        CompletionRule::Split => own_present(catalog, gid),
        CompletionRule::Chain => chain_present(catalog, gid, catalog.games.len()),
    }
}

/// The mark-complete pass: flag every game of the system whose required roms
/// are all present, then flag the system itself when all of its games ended
/// up complete. Games failing the predicate, and the system flag when some
/// game is incomplete, are left for the complementary pass.
pub fn mark_complete_pass(catalog: &mut Catalog, si: usize, rule: CompletionRule)
    requires
        old(catalog).wf(),
        si < old(catalog).systems@.len(),
    ensures
        final(catalog).wf(),
        final(catalog).headers@ == old(catalog).headers@,
        final(catalog).rules@ == old(catalog).rules@,
        final(catalog).roms@ == old(catalog).roms@,
        final(catalog).romfiles@ == old(catalog).romfiles@,
        final(catalog).next_id == old(catalog).next_id,
        final(catalog).games@.len() == old(catalog).games@.len(),
        final(catalog).systems@.len() == old(catalog).systems@.len(),
        forall|j: int|
            0 <= j < old(catalog).systems@.len() && j != si ==> #[trigger] final(catalog).systems@[j]
                == old(catalog).systems@[j],
        ({
            let sid = old(catalog).systems@[si as int].id;
            &&& (forall|gi: int|
                0 <= gi < old(catalog).games@.len() ==> #[trigger] final(catalog).games@[gi] == (
                Game {
                    complete: old(catalog).games@[gi].complete || (old(catalog).games@[gi].system_id
                        == sid && spec_rule_present(
                        *old(catalog),
                        rule,
                        old(catalog).games@[gi].id,
                    )),
                    ..old(catalog).games@[gi]
                }))
            &&& final(catalog).systems@[si as int] == (System {
                complete: if (forall|gi: int|
                    0 <= gi < final(catalog).games@.len() && #[trigger] final(catalog).games@[gi].system_id
                        == sid ==> final(catalog).games@[gi].complete) {
                    true
                } else {
                    old(catalog).systems@[si as int].complete
                },
                ..old(catalog).systems@[si as int]
            })
        }),
{
    let sid = catalog.systems[si].id;
    let n = catalog.games.len();
    // evaluate the predicate against the untouched state
    let mut flags: Vec<bool> = Vec::new();
    let mut gi: usize = 0;
    while gi < n
        invariant
            n == catalog.games@.len(),
            gi <= n,
            *catalog == *old(catalog),
            flags@.len() == gi,
            forall|x: int|
                0 <= x < gi ==> #[trigger] flags@[x] == spec_rule_present(
                    *old(catalog),
                    rule,
                    old(catalog).games@[x].id,
                ),
        decreases n - gi,
    {
        let b = rule_present(catalog, rule, catalog.games[gi].id);
        flags.push(b);
        gi += 1;
    }
    // apply the game flags
    let mut gi: usize = 0;
    while gi < n
        invariant
            n == old(catalog).games@.len(),
            gi <= n,
            catalog.wf(),
            si < catalog.systems@.len(),
            catalog.systems@ == old(catalog).systems@,
            catalog.headers@ == old(catalog).headers@,
            catalog.rules@ == old(catalog).rules@,
            catalog.roms@ == old(catalog).roms@,
            catalog.romfiles@ == old(catalog).romfiles@,
            catalog.next_id == old(catalog).next_id,
            catalog.games@.len() == n,
            flags@.len() == n,
            sid == old(catalog).systems@[si as int].id,
            forall|x: int|
                0 <= x < n ==> #[trigger] flags@[x] == spec_rule_present(
                    *old(catalog),
                    rule,
                    old(catalog).games@[x].id,
                ),
            forall|x: int|
                0 <= x < gi ==> #[trigger] catalog.games@[x] == (Game {
                    complete: old(catalog).games@[x].complete || (old(catalog).games@[x].system_id
                        == sid && spec_rule_present(
                        *old(catalog),
                        rule,
                        old(catalog).games@[x].id,
                    )),
                    ..old(catalog).games@[x]
                }),
            forall|x: int| gi <= x < n ==> #[trigger] catalog.games@[x] == old(catalog).games@[x],
        decreases n - gi,
    {
        if catalog.games[gi].system_id == sid && flags[gi] {
            catalog.update_game_complete(gi, true);
        }
        gi += 1;
    }
    // recompute the system aggregate
    let mut all_done = true;
    let mut gi: usize = 0;
    while gi < n
        invariant
            n == catalog.games@.len(),
            gi <= n,
            all_done == (forall|x: int|
                0 <= x < gi && #[trigger] catalog.games@[x].system_id == sid
                    ==> catalog.games@[x].complete),
        decreases n - gi,
    {
        if catalog.games[gi].system_id == sid && !catalog.games[gi].complete {
            all_done = false;
        }
        gi += 1;
    }
    if all_done {
        catalog.update_system_complete(si, true);
    }
}

/// The mark-incomplete pass: unflag every game of the system missing some
/// required rom, then unflag the system when some game ended up incomplete.
pub fn mark_incomplete_pass(catalog: &mut Catalog, si: usize, rule: CompletionRule)
    requires
        old(catalog).wf(),
        si < old(catalog).systems@.len(),
    ensures
        final(catalog).wf(),
        final(catalog).headers@ == old(catalog).headers@,
        final(catalog).rules@ == old(catalog).rules@,
        final(catalog).roms@ == old(catalog).roms@,
        final(catalog).romfiles@ == old(catalog).romfiles@,
        final(catalog).next_id == old(catalog).next_id,
        final(catalog).games@.len() == old(catalog).games@.len(),
        final(catalog).systems@.len() == old(catalog).systems@.len(),
        forall|j: int|
            0 <= j < old(catalog).systems@.len() && j != si ==> #[trigger] final(catalog).systems@[j]
                == old(catalog).systems@[j],
        ({
            let sid = old(catalog).systems@[si as int].id;
            &&& (forall|gi: int|
                0 <= gi < old(catalog).games@.len() ==> #[trigger] final(catalog).games@[gi] == (
                Game {
                    complete: old(catalog).games@[gi].complete && !(old(catalog).games@[gi].system_id
                        == sid && !spec_rule_present(
                        *old(catalog),
                        rule,
                        old(catalog).games@[gi].id,
                    )),
                    ..old(catalog).games@[gi]
                }))
            &&& final(catalog).systems@[si as int] == (System {
                complete: if (exists|gi: int|
                    0 <= gi < final(catalog).games@.len() && #[trigger] final(catalog).games@[gi].system_id
                        == sid && !final(catalog).games@[gi].complete) {
                    false
                } else {
                    old(catalog).systems@[si as int].complete
                },
                ..old(catalog).systems@[si as int]
            })
        }),
{
    let sid = catalog.systems[si].id;
    let n = catalog.games.len();
    let mut flags: Vec<bool> = Vec::new();
    let mut gi: usize = 0;
    while gi < n
        invariant
            n == catalog.games@.len(),
            gi <= n,
            *catalog == *old(catalog),
            flags@.len() == gi,
            forall|x: int|
                0 <= x < gi ==> #[trigger] flags@[x] == spec_rule_present(
                    *old(catalog),
                    rule,
                    old(catalog).games@[x].id,
                ),
        decreases n - gi,
    {
        let b = rule_present(catalog, rule, catalog.games[gi].id);
        flags.push(b);
        gi += 1;
    }
    let mut gi: usize = 0;
    while gi < n
        invariant
            n == old(catalog).games@.len(),
            gi <= n,
            catalog.wf(),
            si < catalog.systems@.len(),
            catalog.systems@ == old(catalog).systems@,
            catalog.headers@ == old(catalog).headers@,
            catalog.rules@ == old(catalog).rules@,
            catalog.roms@ == old(catalog).roms@,
            catalog.romfiles@ == old(catalog).romfiles@,
            catalog.next_id == old(catalog).next_id,
            catalog.games@.len() == n,
            flags@.len() == n,
            sid == old(catalog).systems@[si as int].id,
            forall|x: int|
                0 <= x < n ==> #[trigger] flags@[x] == spec_rule_present(
                    *old(catalog),
                    rule,
                    old(catalog).games@[x].id,
                ),
            forall|x: int|
                0 <= x < gi ==> #[trigger] catalog.games@[x] == (Game {
                    complete: old(catalog).games@[x].complete && !(old(catalog).games@[x].system_id
                        == sid && !spec_rule_present(
                        *old(catalog),
                        rule,
                        old(catalog).games@[x].id,
                    )),
                    ..old(catalog).games@[x]
                }),
            forall|x: int| gi <= x < n ==> #[trigger] catalog.games@[x] == old(catalog).games@[x],
        decreases n - gi,
    {
        if catalog.games[gi].system_id == sid && !flags[gi] {
            catalog.update_game_complete(gi, false);
        }
        gi += 1;
    }
    let mut any_missing = false;
    let mut gi: usize = 0;
    while gi < n
        invariant
            n == catalog.games@.len(),
            gi <= n,
            any_missing == (exists|x: int|
                0 <= x < gi && #[trigger] catalog.games@[x].system_id == sid
                    && !catalog.games@[x].complete),
        decreases n - gi,
    {
        if catalog.games[gi].system_id == sid && !catalog.games[gi].complete {
            any_missing = true;
        }
        gi += 1;
    }
    if any_missing {
        catalog.update_system_complete(si, false);
    }
}

/// Mark the complete games and system of a non-arcade system: a game is
/// complete exactly when every one of its rom rows has a romfile.
pub fn compute_system_completion(catalog: &mut Catalog, si: usize)
    requires
        old(catalog).wf(),
        si < old(catalog).systems@.len(),
    ensures
        final(catalog).wf(),
        final(catalog).systems@.len() == old(catalog).systems@.len(),
        final(catalog).games@.len() == old(catalog).games@.len(),
        final(catalog).roms@ == old(catalog).roms@,
        final(catalog).headers@ == old(catalog).headers@,
        final(catalog).rules@ == old(catalog).rules@,
        final(catalog).romfiles@ == old(catalog).romfiles@,
        final(catalog).next_id == old(catalog).next_id,
        forall|j: int|
            0 <= j < old(catalog).systems@.len() && j != si ==> #[trigger] final(catalog).systems@[j]
                == old(catalog).systems@[j],
        final(catalog).systems@[si as int].id == old(catalog).systems@[si as int].id,
        final(catalog).systems@[si as int].name@ == old(catalog).systems@[si as int].name@,
        final(catalog).systems@[si as int].version@ == old(catalog).systems@[si as int].version@,
        final(catalog).systems@[si as int].arcade == old(catalog).systems@[si as int].arcade,
        final(catalog).systems@[si as int].merging == old(catalog).systems@[si as int].merging,
        forall|gi: int|
            0 <= gi < old(catalog).games@.len() ==> #[trigger] final(catalog).games@[gi] == (Game {
                complete: old(catalog).games@[gi].complete || (old(catalog).games@[gi].system_id
                    == old(catalog).systems@[si as int].id && spec_all_present(
                    *old(catalog),
                    old(catalog).games@[gi].id,
                )),
                ..old(catalog).games@[gi]
            }),
{
    mark_complete_pass(catalog, si, CompletionRule::All);
}

/// Unmark the incomplete games and system of a non-arcade system.
pub fn compute_system_incompletion(catalog: &mut Catalog, si: usize)
    requires
        old(catalog).wf(),
        si < old(catalog).systems@.len(),
    ensures
        final(catalog).wf(),
        final(catalog).systems@.len() == old(catalog).systems@.len(),
        final(catalog).games@.len() == old(catalog).games@.len(),
        final(catalog).roms@ == old(catalog).roms@,
        final(catalog).headers@ == old(catalog).headers@,
        final(catalog).rules@ == old(catalog).rules@,
        final(catalog).romfiles@ == old(catalog).romfiles@,
        final(catalog).next_id == old(catalog).next_id,
        forall|j: int|
            0 <= j < old(catalog).systems@.len() && j != si ==> #[trigger] final(catalog).systems@[j]
                == old(catalog).systems@[j],
        final(catalog).systems@[si as int].id == old(catalog).systems@[si as int].id,
        final(catalog).systems@[si as int].name@ == old(catalog).systems@[si as int].name@,
        final(catalog).systems@[si as int].version@ == old(catalog).systems@[si as int].version@,
        final(catalog).systems@[si as int].arcade == old(catalog).systems@[si as int].arcade,
        final(catalog).systems@[si as int].merging == old(catalog).systems@[si as int].merging,
        forall|gi: int|
            0 <= gi < old(catalog).games@.len() ==> #[trigger] final(catalog).games@[gi] == (Game {
                complete: old(catalog).games@[gi].complete && !(old(catalog).games@[gi].system_id
                    == old(catalog).systems@[si as int].id && !spec_all_present(
                    *old(catalog),
                    old(catalog).games@[gi].id,
                )),
                ..old(catalog).games@[gi]
            }),
{
    mark_incomplete_pass(catalog, si, CompletionRule::All);
}

/// Mark the complete games and system of an arcade system, under the
/// system's configured merge strategy: Split counts only directly-owned
/// roms, Merged and Non-Merged count the whole parent chain, and the
/// Full variants count every rom row of the game.
pub fn compute_arcade_system_completion(catalog: &mut Catalog, si: usize)
    requires
        old(catalog).wf(),
        si < old(catalog).systems@.len(),
    ensures
        final(catalog).wf(),
        final(catalog).systems@.len() == old(catalog).systems@.len(),
        final(catalog).games@.len() == old(catalog).games@.len(),
        final(catalog).roms@ == old(catalog).roms@,
        final(catalog).headers@ == old(catalog).headers@,
        final(catalog).rules@ == old(catalog).rules@,
        final(catalog).romfiles@ == old(catalog).romfiles@,
        final(catalog).next_id == old(catalog).next_id,
        forall|j: int|
            0 <= j < old(catalog).systems@.len() && j != si ==> #[trigger] final(catalog).systems@[j]
                == old(catalog).systems@[j],
        final(catalog).systems@[si as int].id == old(catalog).systems@[si as int].id,
        final(catalog).systems@[si as int].name@ == old(catalog).systems@[si as int].name@,
        final(catalog).systems@[si as int].version@ == old(catalog).systems@[si as int].version@,
        final(catalog).systems@[si as int].arcade == old(catalog).systems@[si as int].arcade,
        final(catalog).systems@[si as int].merging == old(catalog).systems@[si as int].merging,
        forall|gi: int|
            0 <= gi < old(catalog).games@.len() ==> #[trigger] final(catalog).games@[gi] == (Game {
                complete: old(catalog).games@[gi].complete || (old(catalog).games@[gi].system_id
                    == old(catalog).systems@[si as int].id && spec_rule_present(
                    *old(catalog),
                    spec_rule_of(old(catalog).systems@[si as int].merging),
                    old(catalog).games@[gi].id,
                )),
                ..old(catalog).games@[gi]
            }),
{
    let rule = match catalog.systems[si].merging {
        Merging::Split => CompletionRule::Split,
        Merging::NonMerged => CompletionRule::Chain,
        Merging::Merged => CompletionRule::Chain,
        Merging::FullNonMerged => CompletionRule::All,
        Merging::FullMerged => CompletionRule::All,
    };
    mark_complete_pass(catalog, si, rule);
}

/// Unmark the incomplete games and system of an arcade system, under the
/// system's configured merge strategy.
pub fn compute_arcade_system_incompletion(catalog: &mut Catalog, si: usize)
    requires
        old(catalog).wf(),
        si < old(catalog).systems@.len(),
    ensures
        final(catalog).wf(),
        final(catalog).systems@.len() == old(catalog).systems@.len(),
        final(catalog).games@.len() == old(catalog).games@.len(),
        final(catalog).roms@ == old(catalog).roms@,
        final(catalog).headers@ == old(catalog).headers@,
        final(catalog).rules@ == old(catalog).rules@,
        final(catalog).romfiles@ == old(catalog).romfiles@,
        final(catalog).next_id == old(catalog).next_id,
        forall|j: int|
            0 <= j < old(catalog).systems@.len() && j != si ==> #[trigger] final(catalog).systems@[j]
                == old(catalog).systems@[j],
        final(catalog).systems@[si as int].id == old(catalog).systems@[si as int].id,
        final(catalog).systems@[si as int].name@ == old(catalog).systems@[si as int].name@,
        final(catalog).systems@[si as int].version@ == old(catalog).systems@[si as int].version@,
        final(catalog).systems@[si as int].arcade == old(catalog).systems@[si as int].arcade,
        final(catalog).systems@[si as int].merging == old(catalog).systems@[si as int].merging,
        forall|gi: int|
            0 <= gi < old(catalog).games@.len() ==> #[trigger] final(catalog).games@[gi] == (Game {
                complete: old(catalog).games@[gi].complete && !(old(catalog).games@[gi].system_id
                    == old(catalog).systems@[si as int].id && !spec_rule_present(
                    *old(catalog),
                    spec_rule_of(old(catalog).systems@[si as int].merging),
                    old(catalog).games@[gi].id,
                )),
                ..old(catalog).games@[gi]
            }),
{
    let rule = match catalog.systems[si].merging {
        Merging::Split => CompletionRule::Split,
        Merging::NonMerged => CompletionRule::Chain,
        Merging::Merged => CompletionRule::Chain,
        Merging::FullNonMerged => CompletionRule::All,
        Merging::FullMerged => CompletionRule::All,
    };
    mark_incomplete_pass(catalog, si, rule);
}

} // verus!
