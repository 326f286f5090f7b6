//! The import entry point: one DAT, one atomic catalog transaction.

use vstd::prelude::*;
use crate::catalog::{has_system, sys_find, Catalog};
use crate::games::{create_or_update_games, delete_old_games};
use crate::model::{DatDetector, DatFile};
use crate::reconcile::{
    clone_catalog, create_or_update_header, create_or_update_system, reimport_orphan_romfiles,
    HashAlgorithm, ReclaimRequest,
};
use crate::text::{is_update, lex_lt};

verus! {

/// What one import hands back: whether the version gate let it run, and the
/// reclaim work the external importer should perform afterwards.
pub struct ImportOutcome {
    pub imported: bool,
    pub reclaim: Vec<ReclaimRequest>,
}

/// After an accepted import, the reconciled system row exists and every
/// declared game's row fact and rom fact hold of the committed catalog,
/// keyed by that system's id.
pub open spec fn imported_facts(
    c: Catalog,
    games: Seq<crate::model::DatGame>,
    system_name: Seq<char>,
    arcade: bool,
) -> bool {
    &&& has_system(c.systems@, system_name)
    &&& {
        let si = sys_find(c.systems@, system_name)->0;
        let sid = c.systems@[si].id;
        &&& (forall|k: int|
            0 <= k < games.len() ==> #[trigger] crate::games::game_fact(
                games,
                k,
                sid,
                arcade,
                c.games@,
            ))
        &&& (forall|k: int|
            0 <= k < games.len() ==> #[trigger] crate::games::rom_fact(games, k, sid, arcade, c))
    }
}

/// Import one parsed DAT into the catalog, atomically: reconcile the system
/// row (gated by the version comparison unless force is set), replace the
/// header and its rules, delete stale games, resolve and reconcile every
/// declared game and its roms, reclaim orphaned romfiles, and recompute
/// completion under the system's merge strategy. A rejected version is a
/// quiet no-op; an unresolvable hierarchy aborts with the catalog
/// untouched.
#[verifier::rlimit(100)]
pub fn import_dat(
    catalog: &mut Catalog,
    datfile: &DatFile,
    detector: &Option<DatDetector>,
    arcade: bool,
    force: bool,
) -> (r: Result<ImportOutcome, crate::regions::ImportError>)
    requires
        old(catalog).wf(),
        old(catalog).next_id + crate::model::dat_weight(*datfile, *detector) <= i64::MAX,
        crate::model::game_names_distinct(datfile.games@),
        crate::model::all_rom_names_distinct(datfile.games@),
    ensures
        final(catalog).wf(),
        ({
            let skip = has_system(old(catalog).systems@, datfile.system.name@) && !lex_lt(
                old(catalog).systems@[sys_find(old(catalog).systems@, datfile.system.name@)->0].version@,
                datfile.system.version@,
            ) && !force;
            &&& (skip ==> r is Ok && !r->Ok_0.imported && r->Ok_0.reclaim@.len() == 0
                && *final(catalog) == *old(catalog))
            &&& (!skip ==> (r is Ok <==> crate::model::all_resolvable(datfile.games@)))
            &&& (!skip && r is Ok ==> r->Ok_0.imported)
            &&& (r is Err ==> *final(catalog) == *old(catalog) && r->Err_0
                == crate::regions::ImportError::Hierarchy)
            &&& (!skip && r is Ok ==> exists|i: int|
                0 <= i < final(catalog).systems@.len() && #[trigger] final(catalog).systems@[i].name@
                    == datfile.system.name@ && final(catalog).systems@[i].version@
                    == datfile.system.version@ && final(catalog).systems@[i].arcade == arcade)
            &&& (!skip && r is Ok ==> imported_facts(
                *final(catalog),
                datfile.games@,
                datfile.system.name@,
                arcade,
            ))
        }),
{
    // the version gate: decided before any mutation
    match catalog.find_system_by_name(datfile.system.name.as_str()) {
        Some(i) => {
            proof {
                let w = sys_find(catalog.systems@, datfile.system.name@)->0;
                assert(catalog.systems@[w].name@ == datfile.system.name@);
                assert(w == i as int);
            }
            if !is_update(catalog.systems[i].version.as_str(), datfile.system.version.as_str())
                && !force {
                return Ok(ImportOutcome { imported: false, reclaim: Vec::new() });
            }
        },
        None => {},
    }
    // all further work happens on a scratch copy, committed only on success
    let mut tx = clone_catalog(catalog);
    let system_id = match create_or_update_system(&mut tx, &datfile.system, arcade, force) {
        Some(id) => id,
        None => {
            return Ok(ImportOutcome { imported: false, reclaim: Vec::new() });
        },
    };
    let ghost tx1 = tx;
    proof {
        assert(has_system(tx.systems@, datfile.system.name@));
        let w = sys_find(tx.systems@, datfile.system.name@)->0;
        assert(tx.systems@[w].name@ == datfile.system.name@);
        assert(tx.systems@[w].version@ == datfile.system.version@);
        assert(tx.systems@[w].arcade == arcade);
        assert(system_id < tx.next_id);
    }
    if let Some(det) = detector {
        create_or_update_header(&mut tx, det, system_id);
    }
    let mut orphans = delete_old_games(&mut tx, &datfile.games, system_id);
    let mut more = match create_or_update_games(&mut tx, &datfile.games, system_id, arcade) {
        Ok(o) => o,
        Err(e) => {
            return Err(e);
        },
    };
    orphans.append(&mut more);
    let ghost tx_g = tx;
    let reclaim = if orphans.len() > 0 {
        reimport_orphan_romfiles(&mut tx, system_id, &orphans, HashAlgorithm::Crc)
    } else {
        Vec::new()
    };
    // recompute completion for the system
    let si = match tx.find_system_by_name(datfile.system.name.as_str()) {
        Some(si) => si,
        None => {
            proof {
                assert(has_system(tx.systems@, datfile.system.name@));
                assert(false);
            }
            unreached()
        },
    };
    let ghost tx2 = tx;
    proof {
        // the system row reconciled at the start is untouched by the later
        // phases, and the completion index names it
        assert(tx2.systems@ == tx1.systems@);
        let w = sys_find(tx1.systems@, datfile.system.name@)->0;
        assert(tx2.systems@[si as int].name@ == datfile.system.name@);
        assert(tx1.systems@[w].name@ == datfile.system.name@);
        assert(si as int == w) by {
            if si as int != w {
                assert(tx2.systems@[si as int].name@ == tx2.systems@[w].name@);
            }
        }
        assert(tx2.systems@[si as int].version@ == datfile.system.version@);
        assert(tx2.systems@[si as int].arcade == arcade);
    }
    if arcade {
        crate::completion::compute_arcade_system_completion(&mut tx, si);
        crate::completion::compute_arcade_system_incompletion(&mut tx, si);
    } else {
        crate::completion::compute_system_completion(&mut tx, si);
        crate::completion::compute_system_incompletion(&mut tx, si);
    }
    proof {
        assert(tx.systems@[si as int].name@ == datfile.system.name@);
        assert(tx.systems@[si as int].version@ == datfile.system.version@);
        assert(tx.systems@[si as int].arcade == arcade);
        // the completion index row carries the import's system id
        assert(has_system(tx.systems@, datfile.system.name@)) by {
            assert(tx.systems@[si as int].name@ == datfile.system.name@);
        }
        let w2 = sys_find(tx.systems@, datfile.system.name@)->0;
        assert(tx.systems@[w2].name@ == datfile.system.name@);
        assert(w2 == si as int) by {
            if w2 != si as int {
                assert(tx.systems@[w2].name@ == tx.systems@[si as int].name@);
            }
        }
        assert(tx.systems@[si as int].id == system_id) by {
            assert(tx2.systems@ == tx1.systems@);
            let w = sys_find(tx1.systems@, datfile.system.name@)->0;
            assert(tx1.systems@[w].id == system_id);
        }
        assert(tx.systems@[sys_find(tx.systems@, datfile.system.name@)->0].id == system_id);
        // the game and rom facts survive the reclaim and completion passes:
        // those touch only romfiles and completion flags
        assert(tx.games@.len() == tx2.games@.len());
        assert forall|k: int| 0 <= k < datfile.games@.len() implies #[trigger] crate::games::game_fact(
            datfile.games@,
            k,
            tx.systems@[sys_find(tx.systems@, datfile.system.name@)->0].id,
            arcade,
            tx.games@,
        ) by {
            assert(crate::games::game_fact(datfile.games@, k, system_id, arcade, tx_g.games@));
            assert(crate::games::rom_fact(datfile.games@, k, system_id, arcade, tx_g));
            crate::games::lemma_fact_flags_only(datfile.games@, k, system_id, arcade, tx_g, tx2);
            crate::games::lemma_fact_flags_only(datfile.games@, k, system_id, arcade, tx2, tx);
            assert(tx.systems@[sys_find(tx.systems@, datfile.system.name@)->0].id == system_id);
        }
        assert forall|k: int| 0 <= k < datfile.games@.len() implies #[trigger] crate::games::rom_fact(
            datfile.games@,
            k,
            tx.systems@[sys_find(tx.systems@, datfile.system.name@)->0].id,
            arcade,
            tx,
        ) by {
            assert(crate::games::game_fact(datfile.games@, k, system_id, arcade, tx_g.games@));
            assert(crate::games::rom_fact(datfile.games@, k, system_id, arcade, tx_g));
            crate::games::lemma_fact_flags_only(datfile.games@, k, system_id, arcade, tx_g, tx2);
            crate::games::lemma_fact_flags_only(datfile.games@, k, system_id, arcade, tx2, tx);
            assert(tx.systems@[sys_find(tx.systems@, datfile.system.name@)->0].id == system_id);
        }
        assert(imported_facts(tx, datfile.games@, datfile.system.name@, arcade)) by {
            assert(has_system(tx.systems@, datfile.system.name@));
            assert(forall|k: int|
                0 <= k < datfile.games@.len() ==> #[trigger] crate::games::game_fact(
                    datfile.games@,
                    k,
                    tx.systems@[sys_find(tx.systems@, datfile.system.name@)->0].id,
                    arcade,
                    tx.games@,
                ));
            assert(forall|k: int|
                0 <= k < datfile.games@.len() ==> #[trigger] crate::games::rom_fact(
                    datfile.games@,
                    k,
                    tx.systems@[sys_find(tx.systems@, datfile.system.name@)->0].id,
                    arcade,
                    tx,
                ));
        }
    }
    *catalog = tx;
    Ok(ImportOutcome { imported: true, reclaim })
}
} // verus!
