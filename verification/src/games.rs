//! The game hierarchy resolver: multi-pass reconciliation that processes
//! root games first and dependents only after the game their clone-of or
//! rom-of reference names, deleting stale games and collecting orphaned
//! romfile ids along the way.

use vstd::prelude::*;
use crate::catalog::{game_keyed, has_game, Catalog, Game, Rom};
use crate::model::DatGame;
use crate::reconcile::{create_or_update_roms, delete_old_roms};

verus! {

/// Whether some declared game bears this name.
pub fn dat_has_game_named(games: &Vec<DatGame>, name: &str) -> (b: bool)
    ensures
        b == crate::model::has_game_named(games@, name@),
{
    let mut k: usize = 0;
    while k < games.len()
        invariant
            k <= games@.len(),
            forall|u: int| 0 <= u < k ==> #[trigger] games@[u].name@ != name@,
        decreases games@.len() - k,
    {
        if crate::text::str_eq(games[k].name.as_str(), name) {
            return true;
        }
        k += 1;
    }
    false
}

/// Whether the value occurs in the vector.
pub fn vec_contains_i64(v: &Vec<i64>, x: i64) -> (b: bool)
    ensures
        b == v@.contains(x),
{
    let mut k: usize = 0;
    while k < v.len()
        invariant
            k <= v@.len(),
            forall|u: int| 0 <= u < k ==> #[trigger] v@[u] != x,
        decreases v@.len() - k,
    {
        if v[k] == x {
            return true;
        }
        k += 1;
    }
    false
}

/// The id belongs to some stale cataloged game of this system.
pub open spec fn stale_game_id(
    gs: Seq<Game>,
    declared: Seq<DatGame>,
    system_id: i64,
    id: i64,
) -> bool {
    exists|j: int|
        0 <= j < gs.len() && game_stale(#[trigger] gs[j], declared, system_id) && gs[j].id == id
}

/// A cataloged game of this system that the re-imported DAT no longer
/// declares: it is deleted together with its roms.
pub open spec fn game_stale(g: Game, declared: Seq<DatGame>, system_id: i64) -> bool {
    g.system_id == system_id && !crate::model::has_game_named(declared, g.name@)
}

/// Delete the games of a system that a re-imported DAT no longer declares,
/// together with their rom rows, collecting the romfile ids referenced by
/// the deleted games' directly-owned roms: deleting a game frees those
/// files.
pub fn delete_old_games(catalog: &mut Catalog, games: &Vec<DatGame>, system_id: i64) -> (orphans:
    Vec<i64>)
    requires
        old(catalog).wf(),
    ensures
        final(catalog).wf(),
        final(catalog).systems@ == old(catalog).systems@,
        final(catalog).headers@ == old(catalog).headers@,
        final(catalog).rules@ == old(catalog).rules@,
        final(catalog).romfiles@ == old(catalog).romfiles@,
        final(catalog).next_id == old(catalog).next_id,
        // surviving games are untouched old rows, and none is stale
        forall|j: int|
            0 <= j < final(catalog).games@.len() ==> old(catalog).games@.contains(
                #[trigger] final(catalog).games@[j],
            ) && !game_stale(final(catalog).games@[j], games@, system_id),
        // games of other systems and still-declared games survive
        forall|j: int|
            0 <= j < old(catalog).games@.len() && !game_stale(
                #[trigger] old(catalog).games@[j],
                games@,
                system_id,
            ) ==> final(catalog).games@.contains(old(catalog).games@[j]),
        // surviving roms are untouched old rows of surviving games
        forall|j: int|
            0 <= j < final(catalog).roms@.len() ==> old(catalog).roms@.contains(
                #[trigger] final(catalog).roms@[j],
            ),
        forall|j: int|
            0 <= j < final(catalog).roms@.len() ==> !(exists|g: int|
                0 <= g < old(catalog).games@.len() && game_stale(
                    #[trigger] old(catalog).games@[g],
                    games@,
                    system_id,
                ) && old(catalog).games@[g].id == #[trigger] final(catalog).roms@[j].game_id),
        forall|j: int|
            0 <= j < old(catalog).roms@.len() && !(exists|g: int|
                0 <= g < old(catalog).games@.len() && game_stale(
                    #[trigger] old(catalog).games@[g],
                    games@,
                    system_id,
                ) && old(catalog).games@[g].id == old(catalog).roms@[j].game_id)
                ==> final(catalog).roms@.contains(#[trigger] old(catalog).roms@[j]),
        // every romfile id referenced by a deleted game's directly-owned rom
        // is collected
        forall|g: int, j: int|
            0 <= g < old(catalog).games@.len() && 0 <= j < old(catalog).roms@.len() && game_stale(
                #[trigger] old(catalog).games@[g],
                games@,
                system_id,
            ) && #[trigger] old(catalog).roms@[j].game_id == old(catalog).games@[g].id && old(
                catalog,
            ).roms@[j].parent_id is None && old(catalog).roms@[j].romfile_id is Some
                ==> orphans@.contains(old(catalog).roms@[j].romfile_id->0),
{
    // collect the stale games' ids
    let mut deleted_ids: Vec<i64> = Vec::new();
    let mut kept_games: Vec<Game> = Vec::new();
    let ghost mut srcs: Seq<int> = Seq::empty();
    let mut k: usize = 0;
    while k < catalog.games.len()
        invariant
            k <= catalog.games@.len(),
            srcs.len() == kept_games@.len(),
            forall|u: int| 0 <= u < srcs.len() ==> 0 <= #[trigger] srcs[u] < k,
            forall|u: int, v: int| 0 <= u < v < srcs.len() ==> srcs[u] < srcs[v],
            forall|u: int|
                0 <= u < kept_games@.len() ==> #[trigger] kept_games@[u] == catalog.games@[srcs[u]],
            forall|u: int|
                0 <= u < kept_games@.len() ==> !game_stale(
                    #[trigger] kept_games@[u],
                    games@,
                    system_id,
                ),
            forall|j: int|
                0 <= j < k && !game_stale(#[trigger] catalog.games@[j], games@, system_id)
                    ==> kept_games@.contains(catalog.games@[j]),
            forall|u: int|
                0 <= u < deleted_ids@.len() ==> stale_game_id(
                    catalog.games@.take(k as int),
                    games@,
                    system_id,
                    #[trigger] deleted_ids@[u],
                ),
            forall|j: int|
                0 <= j < k && game_stale(#[trigger] catalog.games@[j], games@, system_id)
                    ==> deleted_ids@.contains(catalog.games@[j].id),
        decreases catalog.games@.len() - k,
    {
        let row = &catalog.games[k];
        let stale = row.system_id == system_id && !dat_has_game_named(games, row.name.as_str());
        if stale {
            let ghost prev_ids = deleted_ids@;
            deleted_ids.push(row.id);
            proof {
                assert forall|u: int| 0 <= u < deleted_ids@.len() implies stale_game_id(
                    catalog.games@.take(k + 1),
                    games@,
                    system_id,
                    #[trigger] deleted_ids@[u],
                ) by {
                    if u < prev_ids.len() {
                        assert(stale_game_id(
                            catalog.games@.take(k as int),
                            games@,
                            system_id,
                            deleted_ids@[u],
                        ));
                        let gtake = catalog.games@.take(k as int);
                        let g = choose|g: int|
                            0 <= g < gtake.len() && game_stale(gtake[g], games@, system_id)
                                && gtake[g].id == deleted_ids@[u];
                        assert(catalog.games@.take(k + 1)[g] == gtake[g]);
                        assert(game_stale(catalog.games@.take(k + 1)[g], games@, system_id));
                    } else {
                        assert(deleted_ids@[u] == catalog.games@[k as int].id);
                        assert(catalog.games@.take(k + 1)[k as int] == catalog.games@[k as int]);
                        assert(game_stale(catalog.games@.take(k + 1)[k as int], games@, system_id));
                    }
                }
                assert forall|j: int|
                    0 <= j < k + 1 && game_stale(#[trigger] catalog.games@[j], games@, system_id)
                        implies deleted_ids@.contains(catalog.games@[j].id) by {
                    if j < k {
                        let x = catalog.games@[j].id;
                        let u = choose|u: int| 0 <= u < prev_ids.len() && prev_ids[u] == x;
                        assert(deleted_ids@[u] == x);
                    } else {
                        assert(deleted_ids@[deleted_ids@.len() - 1] == catalog.games@[j].id);
                    }
                }
            }
        } else {
            let copied = Game {
                id: row.id,
                name: row.name.clone(),
                regions: row.regions.clone(),
                system_id: row.system_id,
                bios: row.bios,
                parent_id: row.parent_id,
                bios_id: row.bios_id,
                complete: row.complete,
            };
            let ghost prev = kept_games@;
            proof {
                assert(copied == catalog.games@[k as int]);
                srcs = srcs.push(k as int);
            }
            kept_games.push(copied);
            proof {
                assert forall|j: int|
                    0 <= j < k + 1 && !game_stale(#[trigger] catalog.games@[j], games@, system_id)
                        implies kept_games@.contains(catalog.games@[j]) by {
                    if j < k {
                        let u = choose|u: int| 0 <= u < prev.len() && prev[u] == catalog.games@[j];
                        assert(kept_games@[u] == catalog.games@[j]);
                    } else {
                        assert(kept_games@[kept_games@.len() - 1] == catalog.games@[j]);
                    }
                }
            }
            proof {
                assert forall|u: int| 0 <= u < deleted_ids@.len() implies stale_game_id(
                    catalog.games@.take(k + 1),
                    games@,
                    system_id,
                    #[trigger] deleted_ids@[u],
                ) by {
                    assert(stale_game_id(
                        catalog.games@.take(k as int),
                        games@,
                        system_id,
                        deleted_ids@[u],
                    ));
                    let gtake = catalog.games@.take(k as int);
                    let g = choose|g: int|
                        0 <= g < gtake.len() && game_stale(gtake[g], games@, system_id)
                            && gtake[g].id == deleted_ids@[u];
                    assert(catalog.games@.take(k + 1)[g] == gtake[g]);
                    assert(game_stale(catalog.games@.take(k + 1)[g], games@, system_id));
                }
            }
        }
        k += 1;
    }
    proof {
        assert forall|u: int, v: int| 0 <= u < v < kept_games@.len() implies !(
        #[trigger] kept_games@[u].name@ == #[trigger] kept_games@[v].name@ && kept_games@[u].bios
            == kept_games@[v].bios && kept_games@[u].system_id == kept_games@[v].system_id) by {
            let i = srcs[u];
            let j = srcs[v];
            assert(kept_games@[u] == catalog.games@[i]);
            assert(kept_games@[v] == catalog.games@[j]);
            assert(0 <= i < j < catalog.games@.len());
        }
        assert forall|u: int, v: int| 0 <= u < v < kept_games@.len() implies #[trigger] kept_games@[u].id
            != #[trigger] kept_games@[v].id by {
            let i = srcs[u];
            let j = srcs[v];
            assert(kept_games@[u] == catalog.games@[i]);
            assert(kept_games@[v] == catalog.games@[j]);
            assert(0 <= i < j < catalog.games@.len());
            assert(catalog.games@[i].id != catalog.games@[j].id);
        }
        assert forall|u: int| 0 <= u < kept_games@.len() implies old(catalog).games@.contains(
            #[trigger] kept_games@[u],
        ) by {
            assert(kept_games@[u] == catalog.games@[srcs[u]]);
        }
    }
    // delete the roms of deleted games, collecting freed romfile ids
    let mut orphans: Vec<i64> = Vec::new();
    let mut kept_roms: Vec<Rom> = Vec::new();
    let ghost mut rsrcs: Seq<int> = Seq::empty();
    let mut k: usize = 0;
    while k < catalog.roms.len()
        invariant
            k <= catalog.roms@.len(),
            rsrcs.len() == kept_roms@.len(),
            forall|u: int| 0 <= u < rsrcs.len() ==> 0 <= #[trigger] rsrcs[u] < k,
            forall|u: int, v: int| 0 <= u < v < rsrcs.len() ==> rsrcs[u] < rsrcs[v],
            forall|u: int|
                0 <= u < kept_roms@.len() ==> #[trigger] kept_roms@[u] == catalog.roms@[rsrcs[u]],
            forall|u: int|
                0 <= u < kept_roms@.len() ==> !deleted_ids@.contains(
                    #[trigger] kept_roms@[u].game_id,
                ),
            forall|j: int|
                0 <= j < k && !deleted_ids@.contains(#[trigger] catalog.roms@[j].game_id)
                    ==> kept_roms@.contains(catalog.roms@[j]),
            forall|j: int|
                0 <= j < k && deleted_ids@.contains(#[trigger] catalog.roms@[j].game_id)
                    && catalog.roms@[j].parent_id is None && catalog.roms@[j].romfile_id is Some
                    ==> orphans@.contains(catalog.roms@[j].romfile_id->0),
        decreases catalog.roms@.len() - k,
    {
        let row = &catalog.roms[k];
        if vec_contains_i64(&deleted_ids, row.game_id) {
            if row.parent_id.is_none() {
                if let Some(f) = row.romfile_id {
                    let ghost prev_orphans = orphans@;
                    orphans.push(f);
                    proof {
                        assert forall|j: int|
                            0 <= j < k + 1 && deleted_ids@.contains(
                                #[trigger] catalog.roms@[j].game_id,
                            ) && catalog.roms@[j].parent_id is None
                                && catalog.roms@[j].romfile_id is Some implies orphans@.contains(
                            catalog.roms@[j].romfile_id->0,
                        ) by {
                            if j < k {
                                let x = catalog.roms@[j].romfile_id->0;
                                let u = choose|u: int|
                                    0 <= u < prev_orphans.len() && prev_orphans[u] == x;
                                assert(orphans@[u] == x);
                            } else {
                                assert(orphans@[orphans@.len() - 1] == f);
                            }
                        }
                    }
                }
            }
        } else {
            let copied = Rom {
                id: row.id,
                name: row.name.clone(),
                bios: row.bios,
                size: row.size,
                crc: row.crc.clone(),
                game_id: row.game_id,
                parent_id: row.parent_id,
                romfile_id: row.romfile_id,
            };
            let ghost prev = kept_roms@;
            proof {
                assert(copied == catalog.roms@[k as int]);
                rsrcs = rsrcs.push(k as int);
            }
            kept_roms.push(copied);
            proof {
                assert forall|j: int|
                    0 <= j < k + 1 && !deleted_ids@.contains(#[trigger] catalog.roms@[j].game_id)
                        implies kept_roms@.contains(catalog.roms@[j]) by {
                    if j < k {
                        let u = choose|u: int| 0 <= u < prev.len() && prev[u] == catalog.roms@[j];
                        assert(kept_roms@[u] == catalog.roms@[j]);
                    } else {
                        assert(kept_roms@[kept_roms@.len() - 1] == catalog.roms@[j]);
                    }
                }
            }
        }
        k += 1;
    }
    proof {
        assert forall|u: int, v: int| 0 <= u < v < kept_roms@.len() implies !(
        #[trigger] kept_roms@[u].name@ == #[trigger] kept_roms@[v].name@ && kept_roms@[u].game_id
            == kept_roms@[v].game_id) by {
            let i = rsrcs[u];
            let j = rsrcs[v];
            assert(kept_roms@[u] == catalog.roms@[i]);
            assert(kept_roms@[v] == catalog.roms@[j]);
            assert(0 <= i < j < catalog.roms@.len());
        }
        assert forall|u: int, v: int| 0 <= u < v < kept_roms@.len() implies #[trigger] kept_roms@[u].id
            != #[trigger] kept_roms@[v].id by {
            let i = rsrcs[u];
            let j = rsrcs[v];
            assert(kept_roms@[u] == catalog.roms@[i]);
            assert(kept_roms@[v] == catalog.roms@[j]);
            assert(0 <= i < j < catalog.roms@.len());
            assert(catalog.roms@[i].id != catalog.roms@[j].id);
        }
        assert forall|u: int| 0 <= u < kept_roms@.len() implies old(catalog).roms@.contains(
            #[trigger] kept_roms@[u],
        ) by {
            assert(kept_roms@[u] == catalog.roms@[rsrcs[u]]);
        }
    }
    catalog.games = kept_games;
    catalog.roms = kept_roms;
    proof {
        assert forall|j: int|
            0 <= j < catalog.roms@.len() implies !(exists|g: int|
                0 <= g < old(catalog).games@.len() && game_stale(
                    #[trigger] old(catalog).games@[g],
                    games@,
                    system_id,
                ) && old(catalog).games@[g].id == #[trigger] catalog.roms@[j].game_id) by {
            if exists|g: int|
                0 <= g < old(catalog).games@.len() && game_stale(
                    old(catalog).games@[g],
                    games@,
                    system_id,
                ) && old(catalog).games@[g].id == catalog.roms@[j].game_id {
                let g = choose|g: int|
                    0 <= g < old(catalog).games@.len() && game_stale(
                        old(catalog).games@[g],
                        games@,
                        system_id,
                    ) && old(catalog).games@[g].id == catalog.roms@[j].game_id;
                assert(deleted_ids@.contains(old(catalog).games@[g].id));
            }
        }
        assert forall|j: int|
            0 <= j < old(catalog).roms@.len() && !(exists|g: int|
                0 <= g < old(catalog).games@.len() && game_stale(
                    #[trigger] old(catalog).games@[g],
                    games@,
                    system_id,
                ) && old(catalog).games@[g].id == old(catalog).roms@[j].game_id) implies catalog
            .roms@.contains(#[trigger] old(catalog).roms@[j]) by {
            assert(!deleted_ids@.contains(old(catalog).roms@[j].game_id)) by {
                if deleted_ids@.contains(old(catalog).roms@[j].game_id) {
                    let u = choose|u: int|
                        0 <= u < deleted_ids@.len() && deleted_ids@[u] == old(
                            catalog,
                        ).roms@[j].game_id;
                    assert(stale_game_id(
                        old(catalog).games@.take(old(catalog).games@.len() as int),
                        games@,
                        system_id,
                        deleted_ids@[u],
                    ));
                    let gtake = old(catalog).games@.take(old(catalog).games@.len() as int);
                    let g = choose|g: int|
                        0 <= g < gtake.len() && game_stale(gtake[g], games@, system_id)
                            && gtake[g].id == deleted_ids@[u];
                    assert(gtake[g] == old(catalog).games@[g]);
                    assert(game_stale(old(catalog).games@[g], games@, system_id));
                }
            }
        }
        assert forall|g: int, j: int|
            0 <= g < old(catalog).games@.len() && 0 <= j < old(catalog).roms@.len() && game_stale(
                #[trigger] old(catalog).games@[g],
                games@,
                system_id,
            ) && #[trigger] old(catalog).roms@[j].game_id == old(catalog).games@[g].id && old(
                catalog,
            ).roms@[j].parent_id is None && old(catalog).roms@[j].romfile_id is Some implies
            orphans@.contains(old(catalog).roms@[j].romfile_id->0) by {
            assert(deleted_ids@.contains(old(catalog).games@[g].id));
        }
    }
    orphans
}

/// A game's region assignment succeeds: arcade systems skip region
/// extraction, other systems need the name to follow the naming convention.
pub open spec fn region_ok(arcade: bool, name: Seq<char>) -> bool {
    arcade || crate::regions::nointro_regions_of(name) is Some
}

/// The region string a reconciled game row carries.
pub open spec fn spec_regions(arcade: bool, name: Seq<char>) -> Seq<char> {
    if arcade {
        Seq::empty()
    } else {
        crate::regions::nointro_regions_of(name)->0
    }
}

/// A declared game has been reconciled into the games table: its row exists
/// under its identity key and carries the computed regions; a root's parent
/// and bios links are null; a clone's parent link carries the id of the game
/// named by its clone-of reference (null when that game is absent); a
/// bios-dependent's bios link likewise follows its rom-of reference. A game
/// whose name fails region extraction on a non-arcade system is skipped
/// entirely.
pub open spec fn game_fact(
    games: Seq<DatGame>,
    k: int,
    system_id: i64,
    arcade: bool,
    gs: Seq<Game>,
) -> bool {
    let g = games[k];
    region_ok(arcade, g.name@) ==> {
        &&& has_game(gs, g.name@, g.bios, system_id)
        &&& {
            let i = crate::catalog::game_find(gs, g.name@, g.bios, system_id)->0;
            let row = gs[i];
            &&& row.regions@ == spec_regions(arcade, g.name@)
            &&& (g.cloneof is None && g.romof is None ==> row.parent_id is None
                && row.bios_id is None)
            &&& (g.cloneof is Some ==> row.parent_id == crate::catalog::link_for(
                gs,
                g.cloneof->0@,
                false,
                system_id,
            ))
            &&& (g.cloneof is None && g.romof is Some ==> row.parent_id is None && row.bios_id
                == crate::catalog::link_for(gs, g.romof->0@, true, system_id))
        }
    }
}

/// A reconciled game's directly-owned rom rows all bear names of kept
/// declared roms: entries flagged "nodump" or lacking a CRC are never among
/// them.
pub open spec fn rom_fact(
    games: Seq<DatGame>,
    k: int,
    system_id: i64,
    arcade: bool,
    c: Catalog,
) -> bool {
    let g = games[k];
    region_ok(arcade, g.name@) ==> {
        &&& has_game(c.games@, g.name@, g.bios, system_id)
        &&& {
            let i = crate::catalog::game_find(c.games@, g.name@, g.bios, system_id)->0;
            let gid = c.games@[i].id;
            forall|j: int|
                0 <= j < c.roms@.len() && #[trigger] c.roms@[j].game_id == gid
                    && c.roms@[j].parent_id is None ==> crate::model::has_kept_rom_named(
                    g.roms@,
                    c.roms@[j].name@,
                )
        }
    }
}

/// Reconcile one declared game: resolve its clone-of and rom-of references
/// against the catalog, compute its regions (unless arcade), create or
/// update its row, reconcile its declared roms and delete its stale ones,
/// appending any freed romfile ids to the orphan accumulator. On a
/// non-arcade system a name that fails the naming convention skips the game
/// entirely, leaving the catalog untouched.
#[verifier::rlimit(100)]
pub fn process_game(
    catalog: &mut Catalog,
    g: &DatGame,
    system_id: i64,
    arcade: bool,
    orphans: &mut Vec<i64>,
) -> (skipped: bool)
    requires
        old(catalog).wf(),
        system_id < old(catalog).next_id,
        old(catalog).next_id + 1 + g.roms@.len() <= i64::MAX,
        crate::model::rom_names_distinct(g.roms@),
    ensures
        final(catalog).wf(),
        final(catalog).systems@ == old(catalog).systems@,
        final(catalog).headers@ == old(catalog).headers@,
        final(catalog).rules@ == old(catalog).rules@,
        final(catalog).romfiles@ == old(catalog).romfiles@,
        final(catalog).next_id <= old(catalog).next_id + 1 + g.roms@.len(),
        system_id < final(catalog).next_id,
        skipped == !region_ok(arcade, g.name@),
        forall|u: int| 0 <= u < old(orphans)@.len() ==> #[trigger] final(orphans)@[u] == old(orphans)@[u],
        final(orphans)@.len() >= old(orphans)@.len(),
        skipped ==> final(catalog).games@ == old(catalog).games@ && final(catalog).roms@ == old(
            catalog,
        ).roms@ && final(orphans)@ == old(orphans)@ && final(catalog).next_id == old(
            catalog,
        ).next_id,
        !skipped ==> {
            &&& final(catalog).games@.len() >= old(catalog).games@.len()
            &&& final(catalog).games@.len() <= old(catalog).games@.len() + 1
            &&& (forall|j: int|
                0 <= j < old(catalog).games@.len() && !game_keyed(
                    #[trigger] old(catalog).games@[j],
                    g.name@,
                    g.bios,
                    system_id,
                ) ==> final(catalog).games@[j] == old(catalog).games@[j])
            &&& (forall|j: int|
                0 <= j < old(catalog).games@.len() ==> #[trigger] final(catalog).games@[j].name@
                    == old(catalog).games@[j].name@ && final(catalog).games@[j].bios == old(
                    catalog,
                ).games@[j].bios && final(catalog).games@[j].system_id == old(
                    catalog,
                ).games@[j].system_id && final(catalog).games@[j].id == old(catalog).games@[j].id)
            &&& (forall|j: int|
                old(catalog).games@.len() <= j < final(catalog).games@.len() ==> game_keyed(
                    #[trigger] final(catalog).games@[j],
                    g.name@,
                    g.bios,
                    system_id,
                ))
            &&& has_game(final(catalog).games@, g.name@, g.bios, system_id)
            &&& {
                let i = crate::catalog::game_find(final(catalog).games@, g.name@, g.bios, system_id)->0;
                let row = final(catalog).games@[i];
                let gid = row.id;
                &&& row.regions@ == spec_regions(arcade, g.name@)
                &&& row.parent_id == (match g.cloneof {
                    Some(p) => crate::catalog::link_for(old(catalog).games@, p@, false, system_id),
                    None => None,
                })
                &&& row.bios_id == (match g.romof {
                    Some(b) => crate::catalog::link_for(old(catalog).games@, b@, true, system_id),
                    None => None,
                })
                &&& (forall|j: int|
                    0 <= j < final(catalog).roms@.len() ==> #[trigger] final(catalog).roms@[j].game_id
                        == gid || old(catalog).roms@.contains(final(catalog).roms@[j]))
                &&& (forall|j: int|
                    0 <= j < old(catalog).roms@.len() && #[trigger] old(catalog).roms@[j].game_id
                        != gid ==> final(catalog).roms@.contains(old(catalog).roms@[j]))
                &&& (forall|j: int|
                    0 <= j < final(catalog).roms@.len() && #[trigger] final(catalog).roms@[j].game_id
                        == gid && final(catalog).roms@[j].parent_id is None
                        ==> crate::model::has_kept_rom_named(g.roms@, final(catalog).roms@[j].name@))
            }
        },
{
    // resolve references against the current table
    let parent_game_id: Option<i64> = match &g.cloneof {
        Some(p) => {
            match catalog.find_game_by_name_and_bios_and_system_id(p.as_str(), false, system_id) {
                Some(pi) => {
                    proof {
                        let w = crate::catalog::game_find(catalog.games@, p@, false, system_id)->0;
                        assert(game_keyed(catalog.games@[w], p@, false, system_id));
                        assert(w == pi as int);
                    }
                    Some(catalog.games[pi].id)
                },
                None => None,
            }
        },
        None => None,
    };
    let bios_game_id: Option<i64> = match &g.romof {
        Some(b) => {
            match catalog.find_game_by_name_and_bios_and_system_id(b.as_str(), true, system_id) {
                Some(bi) => {
                    proof {
                        let w = crate::catalog::game_find(catalog.games@, b@, true, system_id)->0;
                        assert(game_keyed(catalog.games@[w], b@, true, system_id));
                        assert(w == bi as int);
                    }
                    Some(catalog.games[bi].id)
                },
                None => None,
            }
        },
        None => None,
    };
    // region extraction: a failure skips the game
    let regions: String = if arcade {
        String::new()
    } else {
        match crate::regions::get_regions_from_game_name(g.name.as_str()) {
            Ok(s) => s,
            Err(_) => {
                return true;
            },
        }
    };
    // upsert the game row
    let gid: i64 = match catalog.find_game_by_name_and_bios_and_system_id(
        g.name.as_str(),
        g.bios,
        system_id,
    ) {
        Some(i) => {
            catalog.update_game(i, regions.as_str(), parent_game_id, bios_game_id);
            catalog.games[i].id
        },
        None => catalog.create_game(
            g.name.as_str(),
            regions.as_str(),
            system_id,
            g.bios,
            parent_game_id,
            bios_game_id,
        ),
    };
    let ghost mid = *catalog;
    proof {
        assert(has_game(catalog.games@, g.name@, g.bios, system_id));
        let i = crate::catalog::game_find(catalog.games@, g.name@, g.bios, system_id)->0;
        assert(game_keyed(catalog.games@[i], g.name@, g.bios, system_id));
        assert(catalog.games@[i].id == gid);
        assert(gid < catalog.next_id);
    }
    // reconcile the declared roms, then drop the stale ones
    let mut freed = create_or_update_roms(catalog, &g.roms, g.bios, gid);
    orphans.append(&mut freed);
    let ghost mid2 = *catalog;
    let mut freed2 = delete_old_roms(catalog, &g.roms, gid);
    orphans.append(&mut freed2);
    proof {
        let i = crate::catalog::game_find(catalog.games@, g.name@, g.bios, system_id)->0;
        assert(game_keyed(catalog.games@[i], g.name@, g.bios, system_id));
        assert forall|j: int|
            0 <= j < catalog.roms@.len() implies #[trigger] catalog.roms@[j].game_id == gid || old(
            catalog,
        ).roms@.contains(catalog.roms@[j]) by {
            assert(mid2.roms@.contains(catalog.roms@[j]));
            let mj = choose|mj: int|
                0 <= mj < mid2.roms@.len() && mid2.roms@[mj] == catalog.roms@[j];
            if catalog.roms@[j].game_id != gid {
                if mj < mid.roms@.len() {
                    assert(mid2.roms@[mj].name@ == mid.roms@[mj].name@);
                    assert(mid2.roms@[mj].game_id == mid.roms@[mj].game_id);
                    assert(mid.roms@[mj].game_id != gid);
                    assert(mid2.roms@[mj] == mid.roms@[mj]);
                    assert(mid.roms@[mj] == old(catalog).roms@[mj]);
                    assert(old(catalog).roms@.contains(catalog.roms@[j]));
                } else {
                    assert(mid2.roms@[mj].game_id == gid);
                    assert(false);
                }
            }
        }
        assert forall|j: int|
            0 <= j < old(catalog).roms@.len() && #[trigger] old(catalog).roms@[j].game_id != gid
            implies catalog.roms@.contains(old(catalog).roms@[j]) by {
            assert(mid.roms@[j] == old(catalog).roms@[j]);
            assert(mid2.roms@[j] == mid.roms@[j]);
            assert(catalog.roms@.contains(mid2.roms@[j]));
        }
    }
    false
}

/// The integer `m` occurs among the indices.
pub open spec fn idx_in(s: Seq<usize>, m: int) -> bool {
    exists|u: int| 0 <= u < s.len() && #[trigger] s[u] as int == m
}

/// The integer `m` occurs among the indices at position `from` or later.
pub open spec fn idx_in_from(s: Seq<usize>, from: int, m: int) -> bool {
    exists|u: int| from <= u < s.len() && #[trigger] s[u] as int == m
}

/// Some already-processed declared game bears this name.
pub open spec fn proc_named(games: Seq<DatGame>, proc: Seq<usize>, name: Seq<char>) -> bool {
    exists|u: int|
        0 <= u < proc.len() && (proc[u] as int) < games.len() && #[trigger] games[proc[u] as int].name@
            == name
}

/// The combined row weight of the games selected by the index list, from a
/// position on: one row per game plus one per declared rom.
pub open spec fn idx_wt(gs: Seq<DatGame>, idxs: Seq<usize>, from: int) -> nat
    decreases idxs.len() - from,
{
    if from < 0 || from >= idxs.len() || (idxs[from] as int) >= gs.len() {
        0
    } else {
        1 + gs[idxs[from] as int].roms@.len() + idx_wt(gs, idxs, from + 1)
    }
}

/// Appending an index adds exactly that game's weight.
pub proof fn lemma_idx_wt_push(gs: Seq<DatGame>, idxs: Seq<usize>, x: usize, from: int)
    requires
        0 <= from <= idxs.len(),
        (x as int) < gs.len(),
        forall|u: int| 0 <= u < idxs.len() ==> (#[trigger] idxs[u] as int) < gs.len(),
    ensures
        idx_wt(gs, idxs.push(x), from) == idx_wt(gs, idxs, from) + 1 + gs[x as int].roms@.len(),
    decreases idxs.len() - from,
{
    if from < idxs.len() {
        assert(idxs.push(x)[from] == idxs[from]);
        lemma_idx_wt_push(gs, idxs, x, from + 1);
    } else {
        assert(idxs.push(x)[from] == x);
        assert(idx_wt(gs, idxs.push(x), from + 1) == 0);
        assert(idx_wt(gs, idxs, from) == 0);
    }
}

/// Whether the reference name is borne by some already-processed game.
pub fn proc_has_name(games: &Vec<DatGame>, proc: &Vec<usize>, name: &str) -> (b: bool)
    requires
        forall|u: int| 0 <= u < proc@.len() ==> (#[trigger] proc@[u] as int) < games@.len(),
    ensures
        b == proc_named(games@, proc@, name@),
{
    let mut u: usize = 0;
    while u < proc.len()
        invariant
            u <= proc@.len(),
            forall|v: int|
                0 <= v < u ==> #[trigger] games@[proc@[v] as int].name@ != name@,
        decreases proc@.len() - u,
    {
        if crate::text::str_eq(games[proc[u]].name.as_str(), name) {
            return true;
        }
        u += 1;
    }
    false
}

/// When no remaining dependent's reference is borne by a processed game,
/// none of the remaining games is resolvable with any amount of fuel: the
/// residue is unsatisfiable.
pub proof fn lemma_stuck(
    games: Seq<DatGame>,
    rem: Seq<usize>,
    proc: Seq<usize>,
    v: int,
    fuel: nat,
)
    requires
        forall|u: int|
            0 <= u < rem.len() ==> 0 <= (#[trigger] rem[u] as int) < games.len() && !crate::model::game_is_root(
                games[rem[u] as int],
            ),
        forall|m: int| 0 <= m < games.len() ==> idx_in(proc, m) || idx_in(rem, m),
        forall|u: int| 0 <= u < proc.len() ==> (#[trigger] proc[u] as int) < games.len(),
        forall|u: int|
            0 <= u < rem.len() ==> !proc_named(
                games,
                proc,
                crate::model::game_ref_name(games[#[trigger] rem[u] as int]),
            ),
        0 <= v < rem.len(),
    ensures
        !crate::model::resolvable_in(games, rem[v] as int, fuel),
    decreases fuel,
{
    let k = rem[v] as int;
    if crate::model::resolvable_in(games, k, fuel) {
        assert(!crate::model::game_is_root(games[k]));
        let m = choose|m: int|
            0 <= m < games.len() && games[m].name@ == crate::model::game_ref_name(games[k])
                && crate::model::resolvable_in(games, m, (fuel - 1) as nat);
        if idx_in(proc, m) {
            let u = choose|u: int| 0 <= u < proc.len() && #[trigger] proc[u] as int == m;
            assert(games[proc[u] as int].name@ == crate::model::game_ref_name(games[k]));
            assert(proc_named(games, proc, crate::model::game_ref_name(games[k])));
            assert(false);
        } else {
            assert(idx_in(rem, m));
            let w = choose|w: int| 0 <= w < rem.len() && #[trigger] rem[w] as int == m;
            lemma_stuck(games, rem, proc, w, (fuel - 1) as nat);
            assert(false);
        }
    }
}

/// Reconciling another, differently-named game preserves an established
/// game's row fact and rom fact: the row itself, the rows its links point
/// at, and its directly-owned roms are all untouched.
#[verifier::rlimit(100)]
pub proof fn lemma_fact_preserved(
    games: Seq<DatGame>,
    k: int,
    km: int,
    system_id: i64,
    arcade: bool,
    pre: Catalog,
    post: Catalog,
    gid_km: i64,
)
    requires
        0 <= k < games.len(),
        0 <= km < games.len(),
        k != km,
        crate::model::game_names_distinct(games),
        pre.wf(),
        post.wf(),
        game_fact(games, k, system_id, arcade, pre.games@),
        rom_fact(games, k, system_id, arcade, pre),
        games[k].cloneof is Some ==> games[k].cloneof->0@ != games[km].name@,
        games[k].cloneof is None && games[k].romof is Some ==> games[k].romof->0@
            != games[km].name@,
        post.games@.len() >= pre.games@.len(),
        forall|j: int|
            0 <= j < pre.games@.len() && !game_keyed(
                #[trigger] pre.games@[j],
                games[km].name@,
                games[km].bios,
                system_id,
            ) ==> post.games@[j] == pre.games@[j],
        forall|j: int|
            0 <= j < pre.games@.len() ==> #[trigger] post.games@[j].name@ == pre.games@[j].name@
                && post.games@[j].bios == pre.games@[j].bios && post.games@[j].system_id
                == pre.games@[j].system_id && post.games@[j].id == pre.games@[j].id,
        forall|j: int|
            pre.games@.len() <= j < post.games@.len() ==> game_keyed(
                #[trigger] post.games@[j],
                games[km].name@,
                games[km].bios,
                system_id,
            ),
        has_game(post.games@, games[km].name@, games[km].bios, system_id),
        ({
            let i = crate::catalog::game_find(
                post.games@,
                games[km].name@,
                games[km].bios,
                system_id,
            )->0;
            post.games@[i].id == gid_km
        }),
        forall|j: int|
            0 <= j < post.roms@.len() ==> #[trigger] post.roms@[j].game_id == gid_km
                || pre.roms@.contains(post.roms@[j]),
    ensures
        game_fact(games, k, system_id, arcade, post.games@),
        rom_fact(games, k, system_id, arcade, post),
{
    let g = games[k];
    let nm = games[km].name@;
    assert(g.name@ != nm);
    if region_ok(arcade, g.name@) {
        let i_pre = crate::catalog::game_find(pre.games@, g.name@, g.bios, system_id)->0;
        assert(game_keyed(pre.games@[i_pre], g.name@, g.bios, system_id));
        assert(post.games@[i_pre] == pre.games@[i_pre]);
        assert(has_game(post.games@, g.name@, g.bios, system_id));
        let i_post = crate::catalog::game_find(post.games@, g.name@, g.bios, system_id)->0;
        assert(game_keyed(post.games@[i_post], g.name@, g.bios, system_id));
        assert(i_post == i_pre) by {
            if i_post != i_pre {
                assert(post.games@[i_post].name@ == post.games@[i_pre].name@);
            }
        }
        let row = post.games@[i_post];
        assert(row == pre.games@[i_pre]);
        // link stability for the clone-of reference
        if g.cloneof is Some {
            let p = g.cloneof->0@;
            assert(p != nm);
            lemma_link_stable(pre, post, p, false, system_id, nm, games[km].bios);
        }
        if g.cloneof is None && g.romof is Some {
            let b = g.romof->0@;
            assert(b != nm);
            lemma_link_stable(pre, post, b, true, system_id, nm, games[km].bios);
        }
        // rom fact: the upserted game's id differs from this game's id
        let i_km = crate::catalog::game_find(post.games@, nm, games[km].bios, system_id)->0;
        assert(game_keyed(post.games@[i_km], nm, games[km].bios, system_id));
        assert(i_km != i_post);
        assert(post.games@[i_km].id != post.games@[i_post].id) by {
            if i_km < i_post {
                assert(post.games@[i_km].id != post.games@[i_post].id);
            } else {
                assert(post.games@[i_post].id != post.games@[i_km].id);
            }
        }
        let gid = row.id;
        assert(gid != gid_km);
        assert forall|j: int|
            0 <= j < post.roms@.len() && #[trigger] post.roms@[j].game_id == gid
                && post.roms@[j].parent_id is None implies crate::model::has_kept_rom_named(
            g.roms@,
            post.roms@[j].name@,
        ) by {
            assert(pre.roms@.contains(post.roms@[j]));
            let pj = choose|pj: int| 0 <= pj < pre.roms@.len() && pre.roms@[pj] == post.roms@[j];
            assert(pre.roms@[pj].game_id == gid && pre.roms@[pj].parent_id is None);
        }
    }
}

/// A game-row lookup by a key whose name differs from the upserted one finds
/// the same row, with the same id, before and after the upsert.
proof fn lemma_link_stable(
    pre: Catalog,
    post: Catalog,
    name: Seq<char>,
    bios: bool,
    system_id: i64,
    nm: Seq<char>,
    nbios: bool,
)
    requires
        pre.wf(),
        post.wf(),
        name != nm,
        post.games@.len() >= pre.games@.len(),
        forall|j: int|
            0 <= j < pre.games@.len() && !game_keyed(#[trigger] pre.games@[j], nm, nbios, system_id)
                ==> post.games@[j] == pre.games@[j],
        forall|j: int|
            0 <= j < pre.games@.len() ==> #[trigger] post.games@[j].name@ == pre.games@[j].name@
                && post.games@[j].bios == pre.games@[j].bios && post.games@[j].system_id
                == pre.games@[j].system_id && post.games@[j].id == pre.games@[j].id,
        forall|j: int|
            pre.games@.len() <= j < post.games@.len() ==> game_keyed(
                #[trigger] post.games@[j],
                nm,
                nbios,
                system_id,
            ),
    ensures
        crate::catalog::link_for(post.games@, name, bios, system_id) == crate::catalog::link_for(
            pre.games@,
            name,
            bios,
            system_id,
        ),
{
    if has_game(pre.games@, name, bios, system_id) {
        let i = crate::catalog::game_find(pre.games@, name, bios, system_id)->0;
        assert(game_keyed(pre.games@[i], name, bios, system_id));
        assert(post.games@[i] == pre.games@[i]);
        assert(has_game(post.games@, name, bios, system_id));
        let i2 = crate::catalog::game_find(post.games@, name, bios, system_id)->0;
        assert(game_keyed(post.games@[i2], name, bios, system_id));
        assert(i2 == i) by {
            if i2 != i {
                assert(post.games@[i2].name@ == post.games@[i].name@);
            }
        }
    } else {
        if has_game(post.games@, name, bios, system_id) {
            let i2 = crate::catalog::game_find(post.games@, name, bios, system_id)->0;
            assert(game_keyed(post.games@[i2], name, bios, system_id));
            if i2 < pre.games@.len() {
                assert(game_keyed(pre.games@[i2], name, bios, system_id));
            } else {
                assert(post.games@[i2].name@ == nm);
            }
            assert(false);
        }
    }
}

/// Reconcile all declared games of a system. Roots (games with no clone-of
/// or rom-of reference) are processed first; then, repeatedly, the
/// dependents whose reference names an already-processed game, until none
/// remain. A residue whose references never resolve raises a hierarchy
/// error instead of looping: the DAT is malformed. On success every
/// declared game's row fact holds and the freed romfile ids are returned.
#[verifier::rlimit(100)]
pub fn create_or_update_games(
    catalog: &mut Catalog,
    games: &Vec<DatGame>,
    system_id: i64,
    arcade: bool,
) -> (r: Result<Vec<i64>, crate::regions::ImportError>)
    requires
        old(catalog).wf(),
        system_id < old(catalog).next_id,
        old(catalog).next_id + crate::model::games_weight(games@) <= i64::MAX,
        crate::model::game_names_distinct(games@),
        crate::model::all_rom_names_distinct(games@),
    ensures
        final(catalog).wf(),
        final(catalog).systems@ == old(catalog).systems@,
        final(catalog).headers@ == old(catalog).headers@,
        final(catalog).rules@ == old(catalog).rules@,
        final(catalog).romfiles@ == old(catalog).romfiles@,
        final(catalog).next_id <= old(catalog).next_id + crate::model::games_weight(games@),
        system_id < final(catalog).next_id,
        r is Ok <==> crate::model::all_resolvable(games@),
        r is Err ==> r->Err_0 == crate::regions::ImportError::Hierarchy,
        r is Ok ==> forall|k: int|
            0 <= k < games@.len() ==> #[trigger] game_fact(
                games@,
                k,
                system_id,
                arcade,
                final(catalog).games@,
            ),
        r is Ok ==> forall|k: int|
            0 <= k < games@.len() ==> #[trigger] rom_fact(
                games@,
                k,
                system_id,
                arcade,
                *final(catalog),
            ),
{
    let ghost base_next = old(catalog).next_id as int;
    let ghost total_wt = crate::model::games_weight(games@) as int;
    let n = games.len();
    let mut orphans: Vec<i64> = Vec::new();
    let mut proc: Vec<usize> = Vec::new();
    let mut layer: Vec<usize> = Vec::new();
    let mut rest: Vec<usize> = Vec::new();
    // partition the declared games into roots and dependents
    let mut k: usize = 0;
    while k < n
        invariant
            n == games@.len(),
            k <= n,
            catalog.wf(),
            *catalog == *old(catalog),
            forall|u: int| 0 <= u < layer@.len() ==> (#[trigger] layer@[u] as int) < k,
            forall|u: int| 0 <= u < rest@.len() ==> (#[trigger] rest@[u] as int) < k,
            forall|u: int|
                0 <= u < layer@.len() ==> crate::model::game_is_root(
                    games@[#[trigger] layer@[u] as int],
                ),
            forall|u: int|
                0 <= u < rest@.len() ==> !crate::model::game_is_root(
                    games@[#[trigger] rest@[u] as int],
                ),
            forall|u: int, v: int| 0 <= u < v < layer@.len() ==> layer@[u] != layer@[v],
            forall|u: int, v: int| 0 <= u < v < rest@.len() ==> rest@[u] != rest@[v],
            forall|u: int, v: int|
                0 <= u < layer@.len() && 0 <= v < rest@.len() ==> layer@[u] != rest@[v],
            forall|m: int| 0 <= m < k ==> idx_in(layer@, m) || idx_in(rest@, m),
            layer@.len() + rest@.len() == k,
            idx_wt(games@, layer@, 0) + idx_wt(games@, rest@, 0)
                == crate::model::games_weight(games@.take(k as int)),
        decreases n - k,
    {
        let g = &games[k];
        let ghost layer_pre = layer@;
        let ghost rest_pre = rest@;
        proof {
            assert(games@.take(k + 1).drop_last() =~= games@.take(k as int));
            assert(crate::model::games_weight(games@.take(k + 1)) == crate::model::games_weight(
                games@.take(k as int),
            ) + 1 + games@[k as int].roms@.len());
        }
        if g.cloneof.is_none() && g.romof.is_none() {
            proof {
                lemma_idx_wt_push(games@, layer@, k, 0);
            }
            layer.push(k);
        } else {
            proof {
                lemma_idx_wt_push(games@, rest@, k, 0);
            }
            rest.push(k);
        }
        proof {
            assert forall|m: int| 0 <= m < k + 1 implies idx_in(layer@, m) || idx_in(
                rest@,
                m,
            ) by {
                if m < k {
                    if idx_in(layer_pre, m) {
                        let w = choose|w: int|
                            0 <= w < layer_pre.len() && #[trigger] layer_pre[w] as int == m;
                        assert(layer@[w] as int == m);
                    } else {
                        let w = choose|w: int|
                            0 <= w < rest_pre.len() && #[trigger] rest_pre[w] as int == m;
                        assert(rest@[w] as int == m);
                    }
                } else {
                    if layer@.len() > layer_pre.len() {
                        assert(layer@[layer@.len() - 1] as int == m);
                    } else {
                        assert(rest@[rest@.len() - 1] as int == m);
                    }
                }
            }
        }
        k += 1;
    }
    proof {
        assert(games@.take(n as int) =~= games@);
    }
    // process layers to a fixed point
    loop
        invariant
            n == games@.len(),
            catalog.wf(),
            system_id < catalog.next_id,
            catalog.systems@ == old(catalog).systems@,
            catalog.headers@ == old(catalog).headers@,
            catalog.rules@ == old(catalog).rules@,
            catalog.romfiles@ == old(catalog).romfiles@,
            catalog.next_id + idx_wt(games@, layer@, 0) + idx_wt(games@, rest@, 0) <= base_next
                + total_wt,
            forall|u: int| 0 <= u < proc@.len() ==> (#[trigger] proc@[u] as int) < n,
            forall|u: int| 0 <= u < layer@.len() ==> (#[trigger] layer@[u] as int) < n,
            forall|u: int| 0 <= u < rest@.len() ==> (#[trigger] rest@[u] as int) < n,
            forall|u: int|
                0 <= u < rest@.len() ==> !crate::model::game_is_root(
                    games@[#[trigger] rest@[u] as int],
                ),
            forall|u: int, v: int| 0 <= u < v < layer@.len() ==> layer@[u] != layer@[v],
            forall|u: int, v: int| 0 <= u < v < rest@.len() ==> rest@[u] != rest@[v],
            forall|u: int, v: int|
                0 <= u < layer@.len() && 0 <= v < proc@.len() ==> layer@[u] != proc@[v],
            forall|u: int, v: int|
                0 <= u < rest@.len() && 0 <= v < proc@.len() ==> rest@[u] != proc@[v],
            forall|u: int, v: int|
                0 <= u < layer@.len() && 0 <= v < rest@.len() ==> layer@[u] != rest@[v],
            forall|m: int|
                0 <= m < n ==> idx_in(proc@, m) || idx_in(layer@, m) || idx_in(rest@, m),
            proc@.len() + layer@.len() + rest@.len() == n,
            layer@.len() == 0 ==> proc@.len() == 0,
            forall|u: int|
                0 <= u < layer@.len() ==> crate::model::game_is_root(
                    games@[#[trigger] layer@[u] as int],
                ) || proc_named(
                    games@,
                    proc@,
                    crate::model::game_ref_name(games@[layer@[u] as int]),
                ),
            forall|u: int|
                0 <= u < proc@.len() ==> game_fact(
                    games@,
                    #[trigger] proc@[u] as int,
                    system_id,
                    arcade,
                    catalog.games@,
                ),
            forall|u: int|
                0 <= u < proc@.len() ==> rom_fact(
                    games@,
                    #[trigger] proc@[u] as int,
                    system_id,
                    arcade,
                    *catalog,
                ),
            forall|u: int|
                0 <= u < proc@.len() ==> crate::model::game_is_root(
                    games@[#[trigger] proc@[u] as int],
                ) || proc_named(
                    games@,
                    proc@,
                    crate::model::game_ref_name(games@[proc@[u] as int]),
                ),
            forall|u: int|
                0 <= u < proc@.len() ==> crate::model::resolvable_in(
                    games@,
                    #[trigger] proc@[u] as int,
                    proc@.len() as nat,
                ),
        decreases layer@.len() + 2 * rest@.len(),
    {
        if layer.len() == 0 && rest.len() == 0 {
            proof {
                assert forall|m: int| 0 <= m < n implies idx_in(proc@, m) by {}
                assert forall|k2: int|
                    0 <= k2 < games@.len() implies #[trigger] crate::model::resolvable_in(
                    games@,
                    k2,
                    games@.len() + 1,
                ) by {
                    assert(idx_in(proc@, k2));
                    let u = choose|u: int| 0 <= u < proc@.len() && #[trigger] proc@[u] as int == k2;
                    assert(0 <= u < proc@.len());
                    assert(proc@[u] as int == k2);
                    assert(crate::model::resolvable_in(games@, k2, proc@.len() as nat));
                    crate::model::lemma_resolvable_mono(
                        games@,
                        k2,
                        proc@.len() as nat,
                        games@.len() + 1,
                    );
                }
                assert forall|k2: int| 0 <= k2 < games@.len() implies #[trigger] game_fact(
                    games@,
                    k2,
                    system_id,
                    arcade,
                    catalog.games@,
                ) by {
                    assert(idx_in(proc@, k2));
                    let u = choose|u: int| 0 <= u < proc@.len() && #[trigger] proc@[u] as int == k2;
                    assert(0 <= u < proc@.len());
                    assert(proc@[u] as int == k2);
                }
                assert forall|k2: int| 0 <= k2 < games@.len() implies #[trigger] rom_fact(
                    games@,
                    k2,
                    system_id,
                    arcade,
                    *catalog,
                ) by {
                    assert(idx_in(proc@, k2));
                    let u = choose|u: int| 0 <= u < proc@.len() && #[trigger] proc@[u] as int == k2;
                    assert(0 <= u < proc@.len());
                    assert(proc@[u] as int == k2);
                }
            }
            return Ok(orphans);
        }
        if layer.len() == 0 {
            // no progress is possible: the residue is unsatisfiable
            proof {
                assert(rest@.len() > 0);
                assert(proc@.len() == 0);
                assert forall|u: int| 0 <= u < rest@.len() implies !proc_named(
                    games@,
                    proc@,
                    crate::model::game_ref_name(games@[#[trigger] rest@[u] as int]),
                ) by {
                    assert(proc@.len() == 0);
                }
                assert forall|m: int| 0 <= m < n implies idx_in(proc@, m) || idx_in(
                    rest@,
                    m,
                ) by {}
                lemma_stuck(games@, rest@, proc@, 0, (games@.len() + 1) as nat);
                assert(!crate::model::resolvable_in(games@, rest@[0] as int, games@.len() + 1));
                assert(!crate::model::all_resolvable(games@));
            }
            return Err(crate::regions::ImportError::Hierarchy);
        }
        // process every game of the current layer
        let mut t: usize = 0;
        while t < layer.len()
            invariant
                n == games@.len(),
                t <= layer@.len(),
                catalog.wf(),
                system_id < catalog.next_id,
                catalog.systems@ == old(catalog).systems@,
                catalog.headers@ == old(catalog).headers@,
                catalog.rules@ == old(catalog).rules@,
                catalog.romfiles@ == old(catalog).romfiles@,
                catalog.next_id + idx_wt(games@, layer@, t as int) + idx_wt(games@, rest@, 0)
                    <= base_next + total_wt,
                forall|u: int| 0 <= u < proc@.len() ==> (#[trigger] proc@[u] as int) < n,
                forall|u: int| 0 <= u < layer@.len() ==> (#[trigger] layer@[u] as int) < n,
                forall|u: int| 0 <= u < rest@.len() ==> (#[trigger] rest@[u] as int) < n,
                forall|u: int|
                    0 <= u < rest@.len() ==> !crate::model::game_is_root(
                        games@[#[trigger] rest@[u] as int],
                    ),
                forall|u: int, v: int| 0 <= u < v < layer@.len() ==> layer@[u] != layer@[v],
                forall|u: int, v: int| 0 <= u < v < rest@.len() ==> rest@[u] != rest@[v],
                forall|u: int, v: int|
                    t <= u < layer@.len() && 0 <= v < proc@.len() ==> layer@[u] != proc@[v],
                forall|u: int, v: int|
                    0 <= u < rest@.len() && 0 <= v < proc@.len() ==> rest@[u] != proc@[v],
                forall|u: int, v: int|
                    0 <= u < layer@.len() && 0 <= v < rest@.len() ==> layer@[u] != rest@[v],
                forall|m: int|
                    0 <= m < n ==> idx_in(proc@, m) || idx_in_from(layer@, t as int, m) || idx_in(
                        rest@,
                        m,
                    ),
                proc@.len() + (layer@.len() - t) + rest@.len() == n,
                forall|u: int|
                    0 <= u < layer@.len() ==> crate::model::game_is_root(
                        games@[#[trigger] layer@[u] as int],
                    ) || proc_named(
                        games@,
                        proc@,
                        crate::model::game_ref_name(games@[layer@[u] as int]),
                    ),
                forall|u: int|
                    0 <= u < proc@.len() ==> game_fact(
                        games@,
                        #[trigger] proc@[u] as int,
                        system_id,
                        arcade,
                        catalog.games@,
                    ),
                forall|u: int|
                    0 <= u < proc@.len() ==> rom_fact(
                        games@,
                        #[trigger] proc@[u] as int,
                        system_id,
                        arcade,
                        *catalog,
                    ),
                forall|u: int|
                    0 <= u < proc@.len() ==> crate::model::game_is_root(
                        games@[#[trigger] proc@[u] as int],
                    ) || proc_named(
                        games@,
                        proc@,
                        crate::model::game_ref_name(games@[proc@[u] as int]),
                    ),
                forall|u: int|
                    0 <= u < proc@.len() ==> crate::model::resolvable_in(
                        games@,
                        #[trigger] proc@[u] as int,
                        proc@.len() as nat,
                    ),
            decreases layer@.len() - t,
        {
            let km = layer[t];
            let g = &games[km];
            let ghost pre = *catalog;
            let ghost pre_orphans = orphans@;
            let skipped = process_game(catalog, g, system_id, arcade, &mut orphans);
            proof {
                let kmi = km as int;
                if !skipped {
                    let i = crate::catalog::game_find(
                        catalog.games@,
                        games@[kmi].name@,
                        games@[kmi].bios,
                        system_id,
                    )->0;
                    let gid_km = catalog.games@[i].id;
                    assert forall|u: int| 0 <= u < proc@.len() implies game_fact(
                        games@,
                        #[trigger] proc@[u] as int,
                        system_id,
                        arcade,
                        catalog.games@,
                    ) && rom_fact(games@, proc@[u] as int, system_id, arcade, *catalog) by {
                        let k2 = proc@[u] as int;
                        assert(k2 != kmi);
                        assert(games@[k2].name@ != games@[kmi].name@);
                        if games@[k2].cloneof is Some {
                            let p = games@[k2].cloneof->0@;
                            assert(proc_named(games@, proc@, crate::model::game_ref_name(games@[k2])));
                            let w = choose|w: int|
                                0 <= w < proc@.len() && (proc@[w] as int) < games@.len()
                                    && #[trigger] games@[proc@[w] as int].name@
                                    == crate::model::game_ref_name(games@[k2]);
                            assert(proc@[w] != layer@[t as int]);
                            assert(games@[proc@[w] as int].name@ != games@[kmi].name@);
                            assert(p != games@[kmi].name@);
                        }
                        if games@[k2].cloneof is None && games@[k2].romof is Some {
                            let w = choose|w: int|
                                0 <= w < proc@.len() && (proc@[w] as int) < games@.len()
                                    && #[trigger] games@[proc@[w] as int].name@
                                    == crate::model::game_ref_name(games@[k2]);
                            assert(proc@[w] != layer@[t as int]);
                            assert(games@[proc@[w] as int].name@ != games@[kmi].name@);
                        }
                        lemma_fact_preserved(
                            games@,
                            k2,
                            kmi,
                            system_id,
                            arcade,
                            pre,
                            *catalog,
                            gid_km,
                        );
                    }
                }
            }
            let ghost proc_pre = proc@;
            proc.push(km);
            proof {
                let kmi = km as int;
                // the new entry's own facts
                if !skipped {
                    assert(game_fact(games@, kmi, system_id, arcade, catalog.games@)) by {
                        if !crate::model::game_is_root(games@[kmi]) {
                            assert(proc_named(
                                games@,
                                proc_pre,
                                crate::model::game_ref_name(games@[kmi]),
                            ));
                            let w = choose|w: int|
                                0 <= w < proc_pre.len() && (proc_pre[w] as int) < games@.len()
                                    && #[trigger] games@[proc_pre[w] as int].name@
                                    == crate::model::game_ref_name(games@[kmi]);
                            assert(proc_pre[w] != layer@[t as int]);
                            assert(games@[proc_pre[w] as int].name@ != games@[kmi].name@);
                            assert(crate::model::game_ref_name(games@[kmi]) != games@[kmi].name@);
                        }
                        if region_ok(arcade, games@[kmi].name@) {
                            if games@[kmi].cloneof is Some {
                                assert(crate::catalog::link_for(
                                    pre.games@,
                                    games@[kmi].cloneof->0@,
                                    false,
                                    system_id,
                                ) == crate::catalog::link_for(
                                    catalog.games@,
                                    games@[kmi].cloneof->0@,
                                    false,
                                    system_id,
                                )) by {
                                    lemma_link_stable(
                                        pre,
                                        *catalog,
                                        games@[kmi].cloneof->0@,
                                        false,
                                        system_id,
                                        games@[kmi].name@,
                                        games@[kmi].bios,
                                    );
                                }
                            }
                            if games@[kmi].cloneof is None && games@[kmi].romof is Some {
                                assert(crate::catalog::link_for(
                                    pre.games@,
                                    games@[kmi].romof->0@,
                                    true,
                                    system_id,
                                ) == crate::catalog::link_for(
                                    catalog.games@,
                                    games@[kmi].romof->0@,
                                    true,
                                    system_id,
                                )) by {
                                    lemma_link_stable(
                                        pre,
                                        *catalog,
                                        games@[kmi].romof->0@,
                                        true,
                                        system_id,
                                        games@[kmi].name@,
                                        games@[kmi].bios,
                                    );
                                }
                            }
                        }
                    }
                    assert(rom_fact(games@, kmi, system_id, arcade, *catalog));
                }
                // facts survive the push of the new processed index
                assert forall|u: int| 0 <= u < proc@.len() implies game_fact(
                    games@,
                    #[trigger] proc@[u] as int,
                    system_id,
                    arcade,
                    catalog.games@,
                ) && rom_fact(games@, proc@[u] as int, system_id, arcade, *catalog) by {
                    if u < proc_pre.len() {
                        assert(proc@[u] == proc_pre[u]);
                    } else {
                        assert(proc@[u] == km);
                    }
                }
                // reference membership survives, and holds of the new entry
                assert forall|u: int| 0 <= u < proc@.len() implies crate::model::game_is_root(
                    games@[#[trigger] proc@[u] as int],
                ) || proc_named(
                    games@,
                    proc@,
                    crate::model::game_ref_name(games@[proc@[u] as int]),
                ) by {
                    let k2 = proc@[u] as int;
                    if !crate::model::game_is_root(games@[k2]) {
                        if u < proc_pre.len() {
                            assert(proc_named(
                                games@,
                                proc_pre,
                                crate::model::game_ref_name(games@[k2]),
                            ));
                            let w = choose|w: int|
                                0 <= w < proc_pre.len() && (proc_pre[w] as int) < games@.len()
                                    && #[trigger] games@[proc_pre[w] as int].name@
                                    == crate::model::game_ref_name(games@[k2]);
                            assert(proc@[w] == proc_pre[w]);
                            assert(games@[proc@[w] as int].name@ == crate::model::game_ref_name(
                                games@[k2],
                            ));
                        } else {
                            assert(k2 == km as int);
                            assert(proc_named(
                                games@,
                                proc_pre,
                                crate::model::game_ref_name(games@[k2]),
                            ));
                            let w = choose|w: int|
                                0 <= w < proc_pre.len() && (proc_pre[w] as int) < games@.len()
                                    && #[trigger] games@[proc_pre[w] as int].name@
                                    == crate::model::game_ref_name(games@[k2]);
                            assert(proc@[w] == proc_pre[w]);
                        }
                    }
                }
                // the current layer's references stay resolved under the grown set
                assert forall|u2: int| 0 <= u2 < layer@.len() implies crate::model::game_is_root(
                    games@[#[trigger] layer@[u2] as int],
                ) || proc_named(
                    games@,
                    proc@,
                    crate::model::game_ref_name(games@[layer@[u2] as int]),
                ) by {
                    if !crate::model::game_is_root(games@[layer@[u2] as int]) {
                        let w = choose|w: int|
                            0 <= w < proc_pre.len() && (proc_pre[w] as int) < games@.len()
                                && #[trigger] games@[proc_pre[w] as int].name@
                                == crate::model::game_ref_name(games@[layer@[u2] as int]);
                        assert(proc@[w] == proc_pre[w]);
                        assert(games@[proc@[w] as int].name@ == crate::model::game_ref_name(
                            games@[layer@[u2] as int],
                        ));
                    }
                }
                // resolvability of everything processed, at the grown bound
                assert forall|u: int| 0 <= u < proc@.len() implies crate::model::resolvable_in(
                    games@,
                    #[trigger] proc@[u] as int,
                    proc@.len() as nat,
                ) by {
                    let k2 = proc@[u] as int;
                    if u < proc_pre.len() {
                        assert(proc@[u] == proc_pre[u]);
                        assert(crate::model::resolvable_in(games@, k2, proc_pre.len() as nat));
                        crate::model::lemma_resolvable_mono(
                            games@,
                            k2,
                            proc_pre.len() as nat,
                            proc@.len() as nat,
                        );
                    } else {
                        assert(k2 == km as int);
                        if crate::model::game_is_root(games@[k2]) {
                            assert(crate::model::resolvable_in(games@, k2, proc@.len() as nat));
                        } else {
                            assert(proc_named(
                                games@,
                                proc_pre,
                                crate::model::game_ref_name(games@[k2]),
                            ));
                            let w = choose|w: int|
                                0 <= w < proc_pre.len() && (proc_pre[w] as int) < games@.len()
                                    && #[trigger] games@[proc_pre[w] as int].name@
                                    == crate::model::game_ref_name(games@[k2]);
                            assert(crate::model::resolvable_in(
                                games@,
                                proc_pre[w] as int,
                                proc_pre.len() as nat,
                            ));
                            assert(crate::model::resolvable_in(games@, k2, proc@.len() as nat));
                        }
                    }
                }
                // complement bookkeeping
                assert forall|m: int| 0 <= m < n implies idx_in(proc@, m) || idx_in_from(
                    layer@,
                    t + 1,
                    m,
                ) || idx_in(rest@, m) by {
                    if idx_in(proc_pre, m) {
                        let w = choose|w: int|
                            0 <= w < proc_pre.len() && #[trigger] proc_pre[w] as int == m;
                        assert(proc@[w] as int == m);
                        assert(idx_in(proc@, m));
                    } else if idx_in_from(layer@, t as int, m) {
                        let w = choose|w: int|
                            t <= w < layer@.len() && #[trigger] layer@[w] as int == m;
                        if w == t {
                            assert(proc@[proc@.len() - 1] as int == m);
                            assert(idx_in(proc@, m));
                        } else {
                            assert(idx_in_from(layer@, t + 1, m));
                        }
                    }
                }
            }
            t += 1;
        }
        if rest.len() == 0 {
            proof {
                assert forall|m: int| 0 <= m < n implies idx_in(proc@, m) by {
                    assert(idx_in(proc@, m) || idx_in_from(layer@, layer@.len() as int, m)
                        || idx_in(rest@, m));
                }
                assert forall|k2: int|
                    0 <= k2 < games@.len() implies #[trigger] crate::model::resolvable_in(
                    games@,
                    k2,
                    games@.len() + 1,
                ) by {
                    assert(idx_in(proc@, k2));
                    let u = choose|u: int| 0 <= u < proc@.len() && #[trigger] proc@[u] as int == k2;
                    assert(0 <= u < proc@.len());
                    assert(proc@[u] as int == k2);
                    assert(crate::model::resolvable_in(games@, k2, proc@.len() as nat));
                    crate::model::lemma_resolvable_mono(
                        games@,
                        k2,
                        proc@.len() as nat,
                        games@.len() + 1,
                    );
                }
                assert forall|k2: int| 0 <= k2 < games@.len() implies #[trigger] game_fact(
                    games@,
                    k2,
                    system_id,
                    arcade,
                    catalog.games@,
                ) by {
                    assert(idx_in(proc@, k2));
                    let u = choose|u: int| 0 <= u < proc@.len() && #[trigger] proc@[u] as int == k2;
                    assert(0 <= u < proc@.len());
                    assert(proc@[u] as int == k2);
                }
                assert forall|k2: int| 0 <= k2 < games@.len() implies #[trigger] rom_fact(
                    games@,
                    k2,
                    system_id,
                    arcade,
                    *catalog,
                ) by {
                    assert(idx_in(proc@, k2));
                    let u = choose|u: int| 0 <= u < proc@.len() && #[trigger] proc@[u] as int == k2;
                    assert(0 <= u < proc@.len());
                    assert(proc@[u] as int == k2);
                }
            }
            return Ok(orphans);
        }
        // select the dependents whose reference is now resolved
        let mut layer2: Vec<usize> = Vec::new();
        let mut rest2: Vec<usize> = Vec::new();
        let mut u: usize = 0;
        while u < rest.len()
            invariant
                n == games@.len(),
                u <= rest@.len(),
                forall|w: int| 0 <= w < proc@.len() ==> (#[trigger] proc@[w] as int) < n,
                forall|w: int| 0 <= w < rest@.len() ==> (#[trigger] rest@[w] as int) < n,
                forall|w: int|
                    0 <= w < rest@.len() ==> !crate::model::game_is_root(
                        games@[#[trigger] rest@[w] as int],
                    ),
                forall|w: int, v: int| 0 <= w < v < rest@.len() ==> rest@[w] != rest@[v],
                forall|w: int, v: int|
                    0 <= w < rest@.len() && 0 <= v < proc@.len() ==> rest@[w] != proc@[v],
                forall|w: int| 0 <= w < layer2@.len() ==> (#[trigger] layer2@[w] as int) < n,
                forall|w: int| 0 <= w < rest2@.len() ==> (#[trigger] rest2@[w] as int) < n,
                forall|w: int|
                    0 <= w < layer2@.len() ==> idx_in(rest@, #[trigger] layer2@[w] as int),
                forall|w: int|
                    0 <= w < rest2@.len() ==> idx_in(rest@, #[trigger] rest2@[w] as int),
                forall|w: int|
                    0 <= w < layer2@.len() ==> idx_in(
                        rest@.take(u as int),
                        #[trigger] layer2@[w] as int,
                    ),
                forall|w: int|
                    0 <= w < rest2@.len() ==> idx_in(
                        rest@.take(u as int),
                        #[trigger] rest2@[w] as int,
                    ),
                forall|w: int, v: int| 0 <= w < v < layer2@.len() ==> layer2@[w] != layer2@[v],
                forall|w: int, v: int| 0 <= w < v < rest2@.len() ==> rest2@[w] != rest2@[v],
                forall|w: int, v: int|
                    0 <= w < layer2@.len() && 0 <= v < rest2@.len() ==> layer2@[w] != rest2@[v],
                forall|w: int|
                    0 <= w < layer2@.len() ==> !crate::model::game_is_root(
                        games@[#[trigger] layer2@[w] as int],
                    ) && proc_named(
                        games@,
                        proc@,
                        crate::model::game_ref_name(games@[layer2@[w] as int]),
                    ),
                forall|w: int|
                    0 <= w < rest2@.len() ==> !crate::model::game_is_root(
                        games@[#[trigger] rest2@[w] as int],
                    ) && !proc_named(
                        games@,
                        proc@,
                        crate::model::game_ref_name(games@[rest2@[w] as int]),
                    ),
                forall|m: int|
                    idx_in(rest@.take(u as int), m) ==> idx_in(layer2@, m) || idx_in(rest2@, m),
                idx_wt(games@, layer2@, 0) + idx_wt(games@, rest2@, 0) + idx_wt(
                    games@,
                    rest@,
                    u as int,
                ) == idx_wt(games@, rest@, 0),
                layer2@.len() + rest2@.len() == u,
            decreases rest@.len() - u,
        {
            let ki = rest[u];
            let g = &games[ki];
            let refname: &String = match &g.cloneof {
                Some(p) => p,
                None => {
                    match &g.romof {
                        Some(b) => b,
                        None => unreached(),
                    }
                },
            };
            proof {
                assert(refname@ == crate::model::game_ref_name(games@[ki as int]));
            }
            let resolved = proc_has_name(games, &proc, refname.as_str());
            proof {
                assert(idx_in(rest@, ki as int)) by {
                    assert(rest@[u as int] as int == ki as int);
                }
            }
            let ghost l2_pre = layer2@;
            let ghost r2_pre = rest2@;
            if resolved {
                proof {
                    lemma_idx_wt_push(games@, layer2@, ki, 0);
                }
                layer2.push(ki);
            } else {
                proof {
                    lemma_idx_wt_push(games@, rest2@, ki, 0);
                }
                rest2.push(ki);
            }
            proof {
                assert(idx_in(rest@.take(u + 1), ki as int)) by {
                    assert(rest@.take(u + 1)[u as int] as int == ki as int);
                }
                assert forall|w: int| 0 <= w < layer2@.len() implies idx_in(
                    rest@,
                    #[trigger] layer2@[w] as int,
                ) && idx_in(rest@.take(u + 1), layer2@[w] as int) by {
                    if w < l2_pre.len() {
                        assert(layer2@[w] == l2_pre[w]);
                        assert(idx_in(rest@, l2_pre[w] as int));
                        assert(idx_in(rest@.take(u as int), l2_pre[w] as int));
                        let x = choose|x: int|
                            0 <= x < rest@.take(u as int).len() && #[trigger] rest@.take(
                                u as int,
                            )[x] as int == l2_pre[w] as int;
                        assert(rest@.take(u + 1)[x] as int == layer2@[w] as int);
                    } else {
                        assert(layer2@[w] == ki);
                        assert(idx_in(rest@, ki as int));
                    }
                }
                assert forall|w: int| 0 <= w < rest2@.len() implies idx_in(
                    rest@,
                    #[trigger] rest2@[w] as int,
                ) && idx_in(rest@.take(u + 1), rest2@[w] as int) by {
                    if w < r2_pre.len() {
                        assert(rest2@[w] == r2_pre[w]);
                        assert(idx_in(rest@, r2_pre[w] as int));
                        assert(idx_in(rest@.take(u as int), r2_pre[w] as int));
                        let x = choose|x: int|
                            0 <= x < rest@.take(u as int).len() && #[trigger] rest@.take(
                                u as int,
                            )[x] as int == r2_pre[w] as int;
                        assert(rest@.take(u + 1)[x] as int == rest2@[w] as int);
                    } else {
                        assert(rest2@[w] == ki);
                        assert(idx_in(rest@, ki as int));
                    }
                }
                // the fresh index differs from everything taken earlier
                assert forall|w: int| 0 <= w < l2_pre.len() implies l2_pre[w] != ki by {
                    assert(idx_in(rest@.take(u as int), l2_pre[w] as int));
                    let x = choose|x: int|
                        0 <= x < rest@.take(u as int).len() && #[trigger] rest@.take(u as int)[x] as int
                            == l2_pre[w] as int;
                    assert(rest@[x] == l2_pre[w]);
                    assert(rest@[x] != rest@[u as int]);
                }
                assert forall|w: int| 0 <= w < r2_pre.len() implies r2_pre[w] != ki by {
                    assert(idx_in(rest@.take(u as int), r2_pre[w] as int));
                    let x = choose|x: int|
                        0 <= x < rest@.take(u as int).len() && #[trigger] rest@.take(u as int)[x] as int
                            == r2_pre[w] as int;
                    assert(rest@[x] == r2_pre[w]);
                    assert(rest@[x] != rest@[u as int]);
                }
                assert forall|m: int| idx_in(rest@.take(u + 1), m) implies idx_in(layer2@, m)
                    || idx_in(rest2@, m) by {
                    let w = choose|w: int|
                        0 <= w < rest@.take(u + 1).len() && #[trigger] rest@.take(u + 1)[w] as int
                            == m;
                    if w < u {
                        assert(rest@.take(u as int)[w] as int == m);
                        assert(idx_in(rest@.take(u as int), m));
                        if idx_in(l2_pre, m) {
                            let x = choose|x: int|
                                0 <= x < l2_pre.len() && #[trigger] l2_pre[x] as int == m;
                            assert(layer2@[x] as int == m);
                        } else {
                            let x = choose|x: int|
                                0 <= x < r2_pre.len() && #[trigger] r2_pre[x] as int == m;
                            assert(rest2@[x] as int == m);
                        }
                    } else {
                        assert(rest@[u as int] as int == m);
                        if resolved {
                            assert(layer2@[layer2@.len() - 1] as int == m);
                        } else {
                            assert(rest2@[rest2@.len() - 1] as int == m);
                        }
                    }
                }
            }
            u += 1;
        }
        if layer2.len() == 0 {
            proof {
                assert(rest2@.len() == rest@.len());
                assert forall|m: int| 0 <= m < n implies idx_in(proc@, m) || idx_in(
                    rest2@,
                    m,
                ) by {
                    assert(idx_in(proc@, m) || idx_in_from(layer@, layer@.len() as int, m)
                        || idx_in(rest@, m));
                    if idx_in(rest@, m) {
                        let w = choose|w: int|
                            0 <= w < rest@.len() && #[trigger] rest@[w] as int == m;
                        assert(rest@.take(rest@.len() as int)[w] as int == m);
                        assert(idx_in(rest@.take(rest@.len() as int), m));
                    }
                }
                lemma_stuck(games@, rest2@, proc@, 0, (games@.len() + 1) as nat);
                assert(!crate::model::resolvable_in(games@, rest2@[0] as int, games@.len() + 1));
                assert(!crate::model::all_resolvable(games@));
            }
            return Err(crate::regions::ImportError::Hierarchy);
        }
        proof {
            assert(rest@.take(rest@.len() as int) =~= rest@);
            assert forall|m: int| 0 <= m < n implies idx_in(proc@, m) || idx_in(layer2@, m)
                || idx_in(rest2@, m) by {
                assert(idx_in(proc@, m) || idx_in_from(layer@, layer@.len() as int, m) || idx_in(
                    rest@,
                    m,
                ));
            }
            // indices selected from rest stay distinct from the processed
            assert forall|w: int, v: int|
                0 <= w < layer2@.len() && 0 <= v < proc@.len() implies layer2@[w] != proc@[v] by {
                assert(idx_in(rest@, layer2@[w] as int));
                let x = choose|x: int|
                    0 <= x < rest@.len() && #[trigger] rest@[x] as int == layer2@[w] as int;
            }
            assert forall|w: int, v: int|
                0 <= w < rest2@.len() && 0 <= v < proc@.len() implies rest2@[w] != proc@[v] by {
                assert(idx_in(rest@, rest2@[w] as int));
                let x = choose|x: int|
                    0 <= x < rest@.len() && #[trigger] rest@[x] as int == rest2@[w] as int;
            }
        }
        layer = layer2;
        rest = rest2;
    }
}

/// Completion recomputation flips only completion flags: every established
/// game fact and rom fact survives it.
pub proof fn lemma_fact_flags_only(
    games: Seq<DatGame>,
    k: int,
    system_id: i64,
    arcade: bool,
    pre: Catalog,
    post: Catalog,
)
    requires
        0 <= k < games.len(),
        pre.wf(),
        post.wf(),
        game_fact(games, k, system_id, arcade, pre.games@),
        rom_fact(games, k, system_id, arcade, pre),
        post.games@.len() == pre.games@.len(),
        forall|j: int|
            0 <= j < pre.games@.len() ==> #[trigger] post.games@[j] == (Game {
                complete: post.games@[j].complete,
                ..pre.games@[j]
            }),
        post.roms@ == pre.roms@,
    ensures
        game_fact(games, k, system_id, arcade, post.games@),
        rom_fact(games, k, system_id, arcade, post),
{
    let g = games[k];
    if region_ok(arcade, g.name@) {
        let i_pre = crate::catalog::game_find(pre.games@, g.name@, g.bios, system_id)->0;
        assert(game_keyed(pre.games@[i_pre], g.name@, g.bios, system_id));
        assert(game_keyed(post.games@[i_pre], g.name@, g.bios, system_id));
        assert(has_game(post.games@, g.name@, g.bios, system_id));
        let i_post = crate::catalog::game_find(post.games@, g.name@, g.bios, system_id)->0;
        assert(game_keyed(post.games@[i_post], g.name@, g.bios, system_id));
        assert(i_post == i_pre) by {
            if i_post != i_pre {
                assert(post.games@[i_post].name@ == post.games@[i_pre].name@);
            }
        }
        if g.cloneof is Some {
            lemma_link_flags_only(pre, post, g.cloneof->0@, false, system_id);
        }
        if g.cloneof is None && g.romof is Some {
            lemma_link_flags_only(pre, post, g.romof->0@, true, system_id);
        }
    }
}

/// A game-row lookup finds the same row, with the same id, when only
/// completion flags changed.
proof fn lemma_link_flags_only(
    pre: Catalog,
    post: Catalog,
    name: Seq<char>,
    bios: bool,
    system_id: i64,
)
    requires
        pre.wf(),
        post.wf(),
        post.games@.len() == pre.games@.len(),
        forall|j: int|
            0 <= j < pre.games@.len() ==> #[trigger] post.games@[j] == (Game {
                complete: post.games@[j].complete,
                ..pre.games@[j]
            }),
    ensures
        crate::catalog::link_for(post.games@, name, bios, system_id) == crate::catalog::link_for(
            pre.games@,
            name,
            bios,
            system_id,
        ),
{
    if has_game(pre.games@, name, bios, system_id) {
        let i = crate::catalog::game_find(pre.games@, name, bios, system_id)->0;
        assert(game_keyed(pre.games@[i], name, bios, system_id));
        assert(game_keyed(post.games@[i], name, bios, system_id));
        assert(has_game(post.games@, name, bios, system_id));
        let i2 = crate::catalog::game_find(post.games@, name, bios, system_id)->0;
        assert(game_keyed(post.games@[i2], name, bios, system_id));
        assert(i2 == i) by {
            if i2 != i {
                assert(post.games@[i2].name@ == post.games@[i].name@);
            }
        }
    } else {
        if has_game(post.games@, name, bios, system_id) {
            let i2 = crate::catalog::game_find(post.games@, name, bios, system_id)->0;
            assert(game_keyed(post.games@[i2], name, bios, system_id));
            assert(game_keyed(pre.games@[i2], name, bios, system_id));
            assert(false);
        }
    }
}

} // verus!
