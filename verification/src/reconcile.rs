//! System, header and rom reconciliation, plus the orphan-romfile reclaim
//! decisions.

use vstd::prelude::*;
use crate::catalog::{
    has_header, has_rom, has_system, rom_keyed, sys_find, Catalog, Game, Rom, RomFile, System,
};
use crate::model::{DatDetector, DatRom, DatSystem};
use crate::text::{is_update, lex_lt};

verus! {

/// Deep copy of a catalog, taken so that a failed import can be abandoned
/// without leaving partial mutations behind.
pub fn clone_catalog(c: &Catalog) -> (r: Catalog)
    ensures
        r.systems@ == c.systems@,
        r.headers@ == c.headers@,
        r.rules@ == c.rules@,
        r.games@ == c.games@,
        r.roms@ == c.roms@,
        r.romfiles@ == c.romfiles@,
        r.next_id == c.next_id,
{
    let mut systems: Vec<System> = Vec::new();
    let mut i: usize = 0;
    while i < c.systems.len()
        invariant
            i <= c.systems@.len(),
            systems@ =~= c.systems@.take(i as int),
        decreases c.systems@.len() - i,
    {
        let s = &c.systems[i];
        systems.push(
            System {
                id: s.id,
                name: s.name.clone(),
                version: s.version.clone(),
                arcade: s.arcade,
                merging: s.merging,
                complete: s.complete,
            },
        );
        proof {
            assert(systems@ =~= c.systems@.take(i + 1));
        }
        i += 1;
    }
    let mut headers: Vec<crate::catalog::Header> = Vec::new();
    let mut i: usize = 0;
    while i < c.headers.len()
        invariant
            i <= c.headers@.len(),
            headers@ =~= c.headers@.take(i as int),
        decreases c.headers@.len() - i,
    {
        let h = &c.headers[i];
        headers.push(
            crate::catalog::Header {
                id: h.id,
                system_id: h.system_id,
                name: h.name.clone(),
                version: h.version.clone(),
                start_offset: h.start_offset.clone(),
                end_offset: h.end_offset.clone(),
                operation: h.operation.clone(),
            },
        );
        proof {
            assert(headers@ =~= c.headers@.take(i + 1));
        }
        i += 1;
    }
    let mut rules: Vec<crate::catalog::Rule> = Vec::new();
    let mut i: usize = 0;
    while i < c.rules.len()
        invariant
            i <= c.rules@.len(),
            rules@ =~= c.rules@.take(i as int),
        decreases c.rules@.len() - i,
    {
        let r = &c.rules[i];
        rules.push(
            crate::catalog::Rule {
                id: r.id,
                header_id: r.header_id,
                offset: r.offset.clone(),
                value: r.value.clone(),
            },
        );
        proof {
            assert(rules@ =~= c.rules@.take(i + 1));
        }
        i += 1;
    }
    let mut games: Vec<Game> = Vec::new();
    let mut i: usize = 0;
    while i < c.games.len()
        invariant
            i <= c.games@.len(),
            games@ =~= c.games@.take(i as int),
        decreases c.games@.len() - i,
    {
        let g = &c.games[i];
        games.push(
            Game {
                id: g.id,
                name: g.name.clone(),
                regions: g.regions.clone(),
                system_id: g.system_id,
                bios: g.bios,
                parent_id: g.parent_id,
                bios_id: g.bios_id,
                complete: g.complete,
            },
        );
        proof {
            assert(games@ =~= c.games@.take(i + 1));
        }
        i += 1;
    }
    let mut roms: Vec<Rom> = Vec::new();
    let mut i: usize = 0;
    while i < c.roms.len()
        invariant
            i <= c.roms@.len(),
            roms@ =~= c.roms@.take(i as int),
        decreases c.roms@.len() - i,
    {
        let r = &c.roms[i];
        roms.push(
            Rom {
                id: r.id,
                name: r.name.clone(),
                bios: r.bios,
                size: r.size,
                crc: r.crc.clone(),
                game_id: r.game_id,
                parent_id: r.parent_id,
                romfile_id: r.romfile_id,
            },
        );
        proof {
            assert(roms@ =~= c.roms@.take(i + 1));
        }
        i += 1;
    }
    let mut romfiles: Vec<RomFile> = Vec::new();
    let mut i: usize = 0;
    while i < c.romfiles.len()
        invariant
            i <= c.romfiles@.len(),
            romfiles@ =~= c.romfiles@.take(i as int),
        decreases c.romfiles@.len() - i,
    {
        let f = &c.romfiles[i];
        romfiles.push(RomFile { id: f.id, path: f.path.clone() });
        proof {
            assert(romfiles@ =~= c.romfiles@.take(i + 1));
        }
        i += 1;
    }
    proof {
        assert(c.systems@.take(c.systems@.len() as int) =~= c.systems@);
        assert(c.headers@.take(c.headers@.len() as int) =~= c.headers@);
        assert(c.rules@.take(c.rules@.len() as int) =~= c.rules@);
        assert(c.games@.take(c.games@.len() as int) =~= c.games@);
        assert(c.roms@.take(c.roms@.len() as int) =~= c.roms@);
        assert(c.romfiles@.take(c.romfiles@.len() as int) =~= c.romfiles@);
    }
    Catalog { systems, headers, rules, games, roms, romfiles, next_id: c.next_id }
}

/// Create or update the System row for a declared system. An absent system
/// is created; a present one is updated in place exactly when the declared
/// version is lexicographically greater than the stored one or force is set.
/// Returns the system id to import under, or nothing when the whole import
/// must be skipped: an equal or lesser version without force is a no-op
/// decision, not an error.
pub fn create_or_update_system(
    catalog: &mut Catalog,
    system: &DatSystem,
    arcade: bool,
    force: bool,
) -> (r: Option<i64>)
    requires
        old(catalog).wf(),
        old(catalog).next_id < i64::MAX,
    ensures
        final(catalog).wf(),
        final(catalog).headers@ == old(catalog).headers@,
        final(catalog).rules@ == old(catalog).rules@,
        final(catalog).games@ == old(catalog).games@,
        final(catalog).roms@ == old(catalog).roms@,
        final(catalog).romfiles@ == old(catalog).romfiles@,
        final(catalog).next_id <= old(catalog).next_id + 1,
        old(catalog).next_id <= final(catalog).next_id,
        !has_system(old(catalog).systems@, system.name@) ==> {
            &&& r == Some(old(catalog).next_id)
            &&& final(catalog).systems@.len() == old(catalog).systems@.len() + 1
            &&& (forall|j: int|
                0 <= j < old(catalog).systems@.len() ==> #[trigger] final(catalog).systems@[j]
                    == old(catalog).systems@[j])
            &&& final(catalog).systems@.last().id == old(catalog).next_id
            &&& final(catalog).systems@.last().name@ == system.name@
            &&& final(catalog).systems@.last().version@ == system.version@
            &&& final(catalog).systems@.last().arcade == arcade
            &&& final(catalog).systems@.last().complete == false
        },
        has_system(old(catalog).systems@, system.name@) ==> {
            let i = sys_find(old(catalog).systems@, system.name@)->0;
            if lex_lt(old(catalog).systems@[i].version@, system.version@) || force {
                &&& r == Some(old(catalog).systems@[i].id)
                &&& final(catalog).systems@.len() == old(catalog).systems@.len()
                &&& (forall|j: int|
                    0 <= j < old(catalog).systems@.len() && j != i
                        ==> #[trigger] final(catalog).systems@[j] == old(catalog).systems@[j])
                &&& final(catalog).systems@[i].id == old(catalog).systems@[i].id
                &&& final(catalog).systems@[i].name@ == old(catalog).systems@[i].name@
                &&& final(catalog).systems@[i].version@ == system.version@
                &&& final(catalog).systems@[i].arcade == arcade
                &&& final(catalog).systems@[i].merging == old(catalog).systems@[i].merging
                &&& final(catalog).systems@[i].complete == old(catalog).systems@[i].complete
                &&& final(catalog).next_id == old(catalog).next_id
            } else {
                &&& r is None
                &&& *final(catalog) == *old(catalog)
            }
        },
{
    match catalog.find_system_by_name(system.name.as_str()) {
        Some(i) => {
            proof {
                let w = sys_find(catalog.systems@, system.name@)->0;
                assert(catalog.systems@[w].name@ == system.name@);
                assert(w == i);
            }
            if is_update(catalog.systems[i].version.as_str(), system.version.as_str()) || force {
                catalog.update_system(i, system.version.as_str(), arcade);
                Some(catalog.systems[i].id)
            } else {
                None
            }
        },
        None => Some(catalog.create_system(system.name.as_str(), system.version.as_str(), arcade)),
    }
}

/// After header reconciliation: the system's single header row carries the
/// detector's fields, the tail of the rules table holds exactly the declared
/// data tests in order under that header's id, and every other rule row is
/// an untouched old row of some other header.
pub open spec fn header_reconciled(
    old_rules: Seq<crate::catalog::Rule>,
    c: Catalog,
    detector: DatDetector,
    system_id: i64,
) -> bool {
    let hi = crate::catalog::header_find(c.headers@, system_id)->0;
    let hid = c.headers@[hi].id;
    let n = c.rules@.len() as int;
    let d = detector.rule.data@.len() as int;
    &&& c.headers@[hi].name@ == detector.name@
    &&& c.headers@[hi].version@ == detector.version@
    &&& c.headers@[hi].start_offset@ == detector.rule.start_offset@
    &&& c.headers@[hi].end_offset@ == detector.rule.end_offset@
    &&& c.headers@[hi].operation@ == detector.rule.operation@
    &&& n >= d
    &&& (forall|u: int|
        0 <= u < d ==> {
            &&& #[trigger] c.rules@[n - d + u].header_id == hid
            &&& c.rules@[n - d + u].offset@ == detector.rule.data@[u].offset@
            &&& c.rules@[n - d + u].value@ == detector.rule.data@[u].value@
        })
    &&& (forall|j: int|
        0 <= j < n - d ==> #[trigger] c.rules@[j].header_id != hid && old_rules.contains(
            c.rules@[j],
        ))
}

/// Create or update the Header row for a system and replace its rules
/// wholesale: an existing header keeps its id but loses all its old rules,
/// then one rule row per declared data test is inserted in order.
#[verifier::rlimit(50)]
pub fn create_or_update_header(catalog: &mut Catalog, detector: &DatDetector, system_id: i64)
    requires
        old(catalog).wf(),
        system_id < old(catalog).next_id,
        old(catalog).next_id + 1 + detector.rule.data@.len() <= i64::MAX,
    ensures
        final(catalog).wf(),
        final(catalog).systems@ == old(catalog).systems@,
        final(catalog).games@ == old(catalog).games@,
        final(catalog).roms@ == old(catalog).roms@,
        final(catalog).romfiles@ == old(catalog).romfiles@,
        final(catalog).next_id <= old(catalog).next_id + 1 + detector.rule.data@.len(),
        final(catalog).headers@.len() <= old(catalog).headers@.len() + 1,
        forall|j: int|
            0 <= j < old(catalog).headers@.len() && old(catalog).headers@[j].system_id != system_id
                ==> #[trigger] final(catalog).headers@[j] == old(catalog).headers@[j],
        has_header(final(catalog).headers@, system_id),
        header_reconciled(old(catalog).rules@, *final(catalog), *detector, system_id),
{
    let header_id = match catalog.find_header_by_system_id(system_id) {
        Some(i) => {
            let hid = catalog.headers[i].id;
            catalog.update_header(i, detector);
            catalog.delete_rules_by_header_id(hid);
            hid
        },
        None => {
            let hid = catalog.create_header(detector, system_id);
            proof {
                assert forall|j: int| 0 <= j < catalog.rules@.len() implies #[trigger] catalog
                    .rules@[j].header_id != hid by {
                    assert(catalog.rules@[j] == old(catalog).rules@[j]);
                    assert(old(catalog).rules@[j].header_id < old(catalog).next_id);
                }
                assert forall|j: int| 0 <= j < catalog.rules@.len() implies old(
                    catalog,
                ).rules@.contains(#[trigger] catalog.rules@[j]) by {
                    assert(catalog.rules@[j] == old(catalog).rules@[j]);
                }
            }
            hid
        },
    };
    let ghost mid = *catalog;
    let ghost base = catalog.rules@.len() as int;
    proof {
        assert(forall|j: int|
            0 <= j < base ==> #[trigger] mid.rules@[j].header_id != header_id && old(
                catalog,
            ).rules@.contains(mid.rules@[j]));
    }
    let mut t: usize = 0;
    while t < detector.rule.data.len()
        invariant
            t <= detector.rule.data@.len(),
            catalog.wf(),
            catalog.next_id <= mid.next_id + t,
            mid.next_id + detector.rule.data@.len() <= i64::MAX,
            header_id < mid.next_id,
            catalog.systems@ == mid.systems@,
            catalog.headers@ == mid.headers@,
            catalog.games@ == mid.games@,
            catalog.roms@ == mid.roms@,
            catalog.romfiles@ == mid.romfiles@,
            catalog.rules@.len() == base + t,
            forall|j: int| 0 <= j < base ==> #[trigger] catalog.rules@[j] == mid.rules@[j],
            forall|u: int|
                0 <= u < t ==> #[trigger] catalog.rules@[base + u].header_id == header_id,
            forall|u: int|
                0 <= u < t ==> #[trigger] catalog.rules@[base + u].offset@ == detector.rule.data@[u].offset@,
            forall|u: int|
                0 <= u < t ==> #[trigger] catalog.rules@[base + u].value@ == detector.rule.data@[u].value@,
        decreases detector.rule.data@.len() - t,
    {
        catalog.create_rule(&detector.rule.data[t], header_id);
        t += 1;
    }
    proof {
        let hs = catalog.headers@;
        assert(has_header(hs, system_id));
        let hi = crate::catalog::header_find(hs, system_id)->0;
        assert(hs[hi].system_id == system_id);
        if has_header(old(catalog).headers@, system_id) {
            let i0 = choose|i: int|
                0 <= i < old(catalog).headers@.len() && #[trigger] old(
                    catalog,
                ).headers@[i].system_id == system_id;
            assert(hs[i0].system_id == system_id);
            assert(hi == i0);
        } else {
            assert(hs[hs.len() - 1].system_id == system_id);
            assert(hi == hs.len() - 1);
        }
        assert(hs[hi].id == header_id);
        let n = catalog.rules@.len() as int;
        let d = detector.rule.data@.len() as int;
        assert(n == base + d);
        assert(forall|u: int|
            0 <= u < d ==> #[trigger] catalog.rules@[n - d + u].header_id == header_id
                && catalog.rules@[n - d + u].offset@ == detector.rule.data@[u].offset@
                && catalog.rules@[n - d + u].value@ == detector.rule.data@[u].value@);
        assert(forall|j: int|
            0 <= j < n - d ==> #[trigger] catalog.rules@[j].header_id != header_id && old(
                catalog,
            ).rules@.contains(catalog.rules@[j]));
        assert(header_reconciled(old(catalog).rules@, *catalog, *detector, system_id));
    }
}

/// Whether a declared rom is skipped: flagged "nodump" or lacking a CRC.
pub fn rom_skipped(r: &DatRom) -> (b: bool)
    ensures
        b == !crate::model::rom_kept(*r),
{
    let nodump = match &r.status {
        Some(s) => crate::text::str_eq(s.as_str(), "nodump"),
        None => false,
    };
    nodump || r.crc.is_none()
}

/// Whether some kept (non-skipped) declared rom bears this name.
pub fn dat_has_kept_rom_named(roms: &Vec<DatRom>, name: &str) -> (b: bool)
    ensures
        b == crate::model::has_kept_rom_named(roms@, name@),
{
    let mut k: usize = 0;
    while k < roms.len()
        invariant
            k <= roms@.len(),
            forall|u: int|
                0 <= u < k ==> !(crate::model::rom_kept(#[trigger] roms@[u]) && roms@[u].name@
                    == name@),
        decreases roms@.len() - k,
    {
        if !rom_skipped(&roms[k]) && crate::text::str_eq(roms[k].name.as_str(), name) {
            return true;
        }
        k += 1;
    }
    false
}

/// The id was freed by deleting a stale directly-owned rom row of this game.
pub open spec fn orphan_from(rs: Seq<Rom>, declared: Seq<DatRom>, game_id: i64, id: i64) -> bool {
    exists|j: int|
        0 <= j < rs.len() && #[trigger] rs[j].game_id == game_id && rs[j].parent_id is None
            && !crate::model::has_kept_rom_named(declared, rs[j].name@) && rs[j].romfile_id == Some(
            id,
        )
}

/// Delete the directly-owned (non-inherited) roms of a game whose names no
/// longer appear among the kept declared roms, collecting the romfile ids
/// they referenced: those files are orphaned by the deletion.
pub fn delete_old_roms(catalog: &mut Catalog, roms: &Vec<DatRom>, game_id: i64) -> (orphans: Vec<
    i64,
>)
    requires
        old(catalog).wf(),
    ensures
        final(catalog).wf(),
        final(catalog).systems@ == old(catalog).systems@,
        final(catalog).headers@ == old(catalog).headers@,
        final(catalog).rules@ == old(catalog).rules@,
        final(catalog).games@ == old(catalog).games@,
        final(catalog).romfiles@ == old(catalog).romfiles@,
        final(catalog).next_id == old(catalog).next_id,
        // every surviving row is an untouched old row
        forall|j: int|
            0 <= j < final(catalog).roms@.len() ==> old(catalog).roms@.contains(
                #[trigger] final(catalog).roms@[j],
            ),
        // rows of other games, inherited rows, and still-declared rows survive
        forall|j: int|
            0 <= j < old(catalog).roms@.len() && (old(catalog).roms@[j].game_id != game_id || old(
                catalog,
            ).roms@[j].parent_id is Some || crate::model::has_kept_rom_named(
                roms@,
                old(catalog).roms@[j].name@,
            )) ==> final(catalog).roms@.contains(#[trigger] old(catalog).roms@[j]),
        // no stale directly-owned row of this game survives
        forall|j: int|
            0 <= j < final(catalog).roms@.len() ==> !(#[trigger] final(catalog).roms@[j].game_id
                == game_id && final(catalog).roms@[j].parent_id is None
                && !crate::model::has_kept_rom_named(roms@, final(catalog).roms@[j].name@)),
        // every freed romfile id of a deleted row is collected
        forall|j: int|
            0 <= j < old(catalog).roms@.len() && old(catalog).roms@[j].game_id == game_id && old(
                catalog,
            ).roms@[j].parent_id is None && !crate::model::has_kept_rom_named(
                roms@,
                old(catalog).roms@[j].name@,
            ) && old(catalog).roms@[j].romfile_id is Some ==> orphans@.contains(
                #[trigger] old(catalog).roms@[j].romfile_id->0,
            ),
        // and every collected id comes from such a deleted row
        forall|u: int|
            0 <= u < orphans@.len() ==> orphan_from(
                old(catalog).roms@,
                roms@,
                game_id,
                #[trigger] orphans@[u],
            ),
{
    let mut kept: Vec<Rom> = Vec::new();
    let mut orphans: Vec<i64> = Vec::new();
    let ghost mut srcs: Seq<int> = Seq::empty();
    let mut k: usize = 0;
    while k < catalog.roms.len()
        invariant
            k <= catalog.roms@.len(),
            srcs.len() == kept@.len(),
            forall|u: int| 0 <= u < srcs.len() ==> 0 <= #[trigger] srcs[u] < k,
            forall|u: int, v: int| 0 <= u < v < srcs.len() ==> srcs[u] < srcs[v],
            forall|u: int| 0 <= u < kept@.len() ==> #[trigger] kept@[u] == catalog.roms@[srcs[u]],
            forall|u: int|
                0 <= u < kept@.len() ==> !(#[trigger] kept@[u].game_id == game_id
                    && kept@[u].parent_id is None && !crate::model::has_kept_rom_named(
                    roms@,
                    kept@[u].name@,
                )),
            forall|j: int|
                0 <= j < k && (catalog.roms@[j].game_id != game_id
                    || catalog.roms@[j].parent_id is Some || crate::model::has_kept_rom_named(
                    roms@,
                    catalog.roms@[j].name@,
                )) ==> kept@.contains(#[trigger] catalog.roms@[j]),
            forall|j: int|
                0 <= j < k && catalog.roms@[j].game_id == game_id
                    && catalog.roms@[j].parent_id is None && !crate::model::has_kept_rom_named(
                    roms@,
                    catalog.roms@[j].name@,
                ) && catalog.roms@[j].romfile_id is Some ==> orphans@.contains(
                    #[trigger] catalog.roms@[j].romfile_id->0,
                ),
            forall|u: int|
                0 <= u < orphans@.len() ==> orphan_from(
                    catalog.roms@,
                    roms@,
                    game_id,
                    #[trigger] orphans@[u],
                ),
        decreases catalog.roms@.len() - k,
    {
        let row = &catalog.roms[k];
        let stale = row.game_id == game_id && row.parent_id.is_none() && !dat_has_kept_rom_named(
            roms,
            row.name.as_str(),
        );
        if stale {
            if let Some(rfid) = row.romfile_id {
                let ghost prev_orphans = orphans@;
                orphans.push(rfid);
                proof {
                    assert forall|j: int|
                        0 <= j < k + 1 && catalog.roms@[j].game_id == game_id
                            && catalog.roms@[j].parent_id is None
                            && !crate::model::has_kept_rom_named(roms@, catalog.roms@[j].name@)
                            && catalog.roms@[j].romfile_id is Some implies orphans@.contains(
                        #[trigger] catalog.roms@[j].romfile_id->0,
                    ) by {
                        if j < k {
                            let x = catalog.roms@[j].romfile_id->0;
                            let u = choose|u: int|
                                0 <= u < prev_orphans.len() && prev_orphans[u] == x;
                            assert(orphans@[u] == x);
                        } else {
                            assert(orphans@[orphans@.len() - 1] == rfid);
                        }
                    }
                    assert(orphan_from(catalog.roms@, roms@, game_id, rfid)) by {
                        assert(catalog.roms@[k as int].game_id == game_id);
                    }
                }
            }
        } else {
            let copied = Rom {
                id: row.id,
                name: row.name.clone(),
                bios: row.bios,
                size: row.size,
                crc: row.crc.clone(),
                game_id: row.game_id,
                parent_id: row.parent_id,
                romfile_id: row.romfile_id,
            };
            let ghost prev = kept@;
            proof {
                assert(copied == catalog.roms@[k as int]);
                srcs = srcs.push(k as int);
            }
            kept.push(copied);
            proof {
                assert forall|j: int|
                    0 <= j < k + 1 && (catalog.roms@[j].game_id != game_id
                        || catalog.roms@[j].parent_id is Some || crate::model::has_kept_rom_named(
                        roms@,
                        catalog.roms@[j].name@,
                    )) implies kept@.contains(#[trigger] catalog.roms@[j]) by {
                    if j < k {
                        let u = choose|u: int| 0 <= u < prev.len() && prev[u] == catalog.roms@[j];
                        assert(kept@[u] == catalog.roms@[j]);
                    } else {
                        assert(kept@[kept@.len() - 1] == catalog.roms@[j]);
                    }
                }
            }
        }
        k += 1;
    }
    proof {
        assert forall|u: int, v: int| 0 <= u < v < kept@.len() implies #[trigger] kept@[u].name@
            != #[trigger] kept@[v].name@ || kept@[u].game_id != kept@[v].game_id by {
            let i = srcs[u];
            let j = srcs[v];
            assert(kept@[u] == catalog.roms@[i]);
            assert(kept@[v] == catalog.roms@[j]);
            assert(0 <= i < j < catalog.roms@.len());
        }
        assert forall|u: int, v: int| 0 <= u < v < kept@.len() implies #[trigger] kept@[u].id
            != #[trigger] kept@[v].id by {
            let i = srcs[u];
            let j = srcs[v];
            assert(kept@[u] == catalog.roms@[i]);
            assert(kept@[v] == catalog.roms@[j]);
            assert(0 <= i < j < catalog.roms@.len());
            assert(catalog.roms@[i].id != catalog.roms@[j].id);
        }
        assert forall|u: int| 0 <= u < kept@.len() implies old(catalog).roms@.contains(
            #[trigger] kept@[u],
        ) by {
            assert(kept@[u] == catalog.roms@[srcs[u]]);
        }
    }
    catalog.roms = kept;
    orphans
}

/// One kept declared rom has been reconciled into the table: its row bears
/// the declared size and CRC; an existing row keeps its id, keeps its
/// romfile when the identity is unchanged, and loses it into the orphan set
/// when the stored size or CRC differs from the declaration; a fresh row has
/// no romfile.
pub open spec fn rom_upserted(
    old_rs: Seq<Rom>,
    rs: Seq<Rom>,
    r: DatRom,
    game_id: i64,
    orphans: Seq<i64>,
) -> bool {
    &&& has_rom(rs, r.name@, game_id)
    &&& {
        let i = crate::catalog::rom_find(rs, r.name@, game_id)->0;
        let row = rs[i];
        &&& row.size == r.size
        &&& row.crc@ == r.crc->0@
        &&& match crate::catalog::rom_find(old_rs, r.name@, game_id) {
            Some(i0) => {
                let orow = old_rs[i0];
                &&& row.id == orow.id
                &&& (orow.size == r.size && orow.crc@ == r.crc->0@ ==> row.romfile_id
                    == orow.romfile_id)
                &&& (!(orow.size == r.size && orow.crc@ == r.crc->0@) ==> row.romfile_id is None
                    && (orow.romfile_id is Some ==> orphans.contains(orow.romfile_id->0)))
            },
            None => row.romfile_id is None,
        }
    }
}

/// The id was detached from a rom row of this game whose stored identity
/// differs from the freshly declared one.
pub open spec fn detached_from(
    old_rs: Seq<Rom>,
    declared: Seq<DatRom>,
    game_id: i64,
    id: i64,
) -> bool {
    exists|j: int, k: int|
        {
            &&& 0 <= j < old_rs.len()
            &&& 0 <= k < declared.len()
            &&& #[trigger] old_rs[j].game_id == game_id
            &&& old_rs[j].romfile_id == Some(id)
            &&& crate::model::rom_kept(#[trigger] declared[k])
            &&& declared[k].name@ == old_rs[j].name@
            &&& !(old_rs[j].size == declared[k].size && old_rs[j].crc@ == declared[k].crc->0@)
        }
}

/// Reconcile a game's declared roms against the catalog. Entries flagged
/// "nodump" or lacking a CRC are skipped. A merge reference looks its source
/// rom up by (size, CRC), first in the game's parent game, falling back to
/// its bios game, inheriting the source's bios flag and parent linkage when
/// found and proceeding without linkage when not. Each kept rom is upserted
/// by (name, game_id); an update whose incoming size or CRC differs from the
/// stored value detaches the existing romfile link into the returned orphan
/// set, because the physical file can no longer be trusted to match.
#[verifier::rlimit(100)]
pub fn create_or_update_roms(
    catalog: &mut Catalog,
    roms: &Vec<DatRom>,
    bios: bool,
    game_id: i64,
) -> (orphans: Vec<i64>)
    requires
        old(catalog).wf(),
        game_id < old(catalog).next_id,
        old(catalog).next_id + roms@.len() <= i64::MAX,
        crate::model::rom_names_distinct(roms@),
    ensures
        final(catalog).wf(),
        final(catalog).systems@ == old(catalog).systems@,
        final(catalog).headers@ == old(catalog).headers@,
        final(catalog).rules@ == old(catalog).rules@,
        final(catalog).games@ == old(catalog).games@,
        final(catalog).romfiles@ == old(catalog).romfiles@,
        final(catalog).next_id <= old(catalog).next_id + roms@.len(),
        final(catalog).roms@.len() >= old(catalog).roms@.len(),
        // rows of other games are untouched
        forall|j: int|
            0 <= j < old(catalog).roms@.len() && old(catalog).roms@[j].game_id != game_id
                ==> #[trigger] final(catalog).roms@[j] == old(catalog).roms@[j],
        // rows of this game not named by a kept declared rom are untouched
        forall|j: int|
            0 <= j < old(catalog).roms@.len() && !crate::model::has_kept_rom_named(
                roms@,
                old(catalog).roms@[j].name@,
            ) ==> #[trigger] final(catalog).roms@[j] == old(catalog).roms@[j],
        // keys and ids of pre-existing rows never change
        forall|j: int|
            0 <= j < old(catalog).roms@.len() ==> #[trigger] final(catalog).roms@[j].name@ == old(
                catalog,
            ).roms@[j].name@ && final(catalog).roms@[j].game_id == old(catalog).roms@[j].game_id
                && final(catalog).roms@[j].id == old(catalog).roms@[j].id,
        // appended rows are fresh kept roms of this game without a romfile
        forall|j: int|
            old(catalog).roms@.len() <= j < final(catalog).roms@.len()
                ==> #[trigger] final(catalog).roms@[j].game_id == game_id
                && crate::model::has_kept_rom_named(roms@, final(catalog).roms@[j].name@)
                && final(catalog).roms@[j].romfile_id is None,
        // every kept declared rom is upserted
        forall|k: int|
            0 <= k < roms@.len() && crate::model::rom_kept(#[trigger] roms@[k]) ==> rom_upserted(
                old(catalog).roms@,
                final(catalog).roms@,
                roms@[k],
                game_id,
                orphans@,
            ),
        // every collected id was detached from a changed row of this game
        forall|u: int|
            0 <= u < orphans@.len() ==> detached_from(
                old(catalog).roms@,
                roms@,
                game_id,
                #[trigger] orphans@[u],
            ),
{
    let ghost old_rs = old(catalog).roms@;
    let ghost n0 = old_rs.len() as int;
    let mut orphans: Vec<i64> = Vec::new();
    let mut t: usize = 0;
    while t < roms.len()
        invariant
            t <= roms@.len(),
            catalog.wf(),
            game_id < catalog.next_id,
            catalog.next_id <= old(catalog).next_id + t,
            old(catalog).next_id + roms@.len() <= i64::MAX,
            catalog.systems@ == old(catalog).systems@,
            catalog.headers@ == old(catalog).headers@,
            catalog.rules@ == old(catalog).rules@,
            catalog.games@ == old(catalog).games@,
            catalog.romfiles@ == old(catalog).romfiles@,
            catalog.roms@.len() >= n0,
            forall|j: int|
                0 <= j < n0 && old_rs[j].game_id != game_id ==> #[trigger] catalog.roms@[j]
                    == old_rs[j],
            forall|j: int|
                0 <= j < n0 && !crate::model::has_kept_rom_named(
                    roms@.take(t as int),
                    old_rs[j].name@,
                ) ==> #[trigger] catalog.roms@[j] == old_rs[j],
            forall|j: int|
                0 <= j < n0 ==> #[trigger] catalog.roms@[j].name@ == old_rs[j].name@
                    && catalog.roms@[j].game_id == old_rs[j].game_id && catalog.roms@[j].id
                    == old_rs[j].id,
            forall|j: int|
                n0 <= j < catalog.roms@.len() ==> #[trigger] catalog.roms@[j].game_id == game_id,
            forall|j: int|
                n0 <= j < catalog.roms@.len() ==> crate::model::has_kept_rom_named(
                    roms@.take(t as int),
                    #[trigger] catalog.roms@[j].name@,
                ),
            forall|j: int|
                n0 <= j < catalog.roms@.len() ==> #[trigger] catalog.roms@[j].romfile_id is None,
            forall|k: int|
                0 <= k < t && crate::model::rom_kept(#[trigger] roms@[k]) ==> rom_upserted(
                    old_rs,
                    catalog.roms@,
                    roms@[k],
                    game_id,
                    orphans@,
                ),
            forall|u: int|
                0 <= u < orphans@.len() ==> detached_from(
                    old_rs,
                    roms@,
                    game_id,
                    #[trigger] orphans@[u],
                ),
        decreases roms@.len() - t,
    {
        let r = &roms[t];
        let ghost pre = *catalog;
        let ghost pre_orphans = orphans@;
        if !rom_skipped(r) {
            let crc: &String = match &r.crc {
                Some(c) => c,
                None => unreached(),
            };
            // resolve the merge reference, if any
            let mut bios_local = bios;
            let mut parent_id: Option<i64> = None;
            if r.merge.is_some() {
                if let Some(gidx) = catalog.find_game_by_id(game_id) {
                    let pid = catalog.games[gidx].parent_id;
                    let bid = catalog.games[gidx].bios_id;
                    let first = match pid {
                        Some(p) => Some(p),
                        None => bid,
                    };
                    let mut src = match first {
                        Some(t1) => catalog.find_rom_by_size_and_crc_and_game_id(
                            r.size,
                            crc.as_str(),
                            t1,
                        ),
                        None => None,
                    };
                    if src.is_none() {
                        if let Some(b) = bid {
                            src = catalog.find_rom_by_size_and_crc_and_game_id(
                                r.size,
                                crc.as_str(),
                                b,
                            );
                        }
                    }
                    if let Some(si) = src {
                        bios_local = catalog.roms[si].bios;
                        parent_id = match catalog.roms[si].parent_id {
                            Some(p) => Some(p),
                            None => Some(catalog.roms[si].id),
                        };
                    }
                }
            }
            proof {
                assert(crate::catalog::opt_lt(parent_id, catalog.next_id));
                assert(!crate::model::has_kept_rom_named(roms@.take(t as int), r.name@)) by {
                    if crate::model::has_kept_rom_named(roms@.take(t as int), r.name@) {
                        let k = choose|k: int|
                            0 <= k < roms@.take(t as int).len() && crate::model::rom_kept(
                                roms@.take(t as int)[k],
                            ) && roms@.take(t as int)[k].name@ == r.name@;
                        assert(roms@[k].name@ == roms@[t as int].name@);
                    }
                }
            }
            match catalog.find_rom_by_name_and_game_id(r.name.as_str(), game_id) {
                Some(i) => {
                    proof {
                        if i >= n0 {
                            assert(crate::model::has_kept_rom_named(
                                roms@.take(t as int),
                                catalog.roms@[i as int].name@,
                            ));
                            assert(false);
                        }
                        assert(old_rs[i as int].name@ == r.name@);
                        assert(old_rs[i as int].game_id == game_id);
                        assert(catalog.roms@[i as int] == old_rs[i as int]);
                    }
                    let changed = r.size != catalog.roms[i].size || !crate::text::str_eq(
                        crc.as_str(),
                        catalog.roms[i].crc.as_str(),
                    );
                    let old_romfile = catalog.roms[i].romfile_id;
                    catalog.update_rom(i, bios_local, r.size, crc.as_str(), parent_id);
                    if changed {
                        if let Some(f) = old_romfile {
                            orphans.push(f);
                            proof {
                                assert(orphans@[orphans@.len() - 1] == f);
                                assert(orphans@.contains(f));
                                assert(detached_from(old_rs, roms@, game_id, f)) by {
                                    assert(old_rs[i as int].game_id == game_id);
                                    assert(crate::model::rom_kept(roms@[t as int]));
                                }
                            }
                        }
                        catalog.update_rom_romfile(i, None);
                    }
                    proof {
                        assert(rom_keyed(catalog.roms@[i as int], r.name@, game_id));
                        assert(has_rom(catalog.roms@, r.name@, game_id));
                        let i_new = crate::catalog::rom_find(catalog.roms@, r.name@, game_id)->0;
                        assert(rom_keyed(catalog.roms@[i_new], r.name@, game_id));
                        assert(i_new == i as int);
                        assert(has_rom(old_rs, r.name@, game_id));
                        let i0 = crate::catalog::rom_find(old_rs, r.name@, game_id)->0;
                        assert(rom_keyed(old_rs[i0], r.name@, game_id));
                        assert(old(catalog).keys_unique());
                        assert(i0 == i as int);
                        assert(rom_upserted(old_rs, catalog.roms@, roms@[t as int], game_id, orphans@));
                    }
                },
                None => {
                    proof {
                        assert(!has_rom(old_rs, r.name@, game_id)) by {
                            if has_rom(old_rs, r.name@, game_id) {
                                let j = choose|j: int|
                                    0 <= j < old_rs.len() && rom_keyed(
                                        old_rs[j],
                                        r.name@,
                                        game_id,
                                    );
                                assert(catalog.roms@[j] == old_rs[j]);
                                assert(has_rom(catalog.roms@, r.name@, game_id));
                            }
                        }
                    }
                    catalog.create_rom(
                        r.name.as_str(),
                        bios_local,
                        r.size,
                        crc.as_str(),
                        game_id,
                        parent_id,
                    );
                    proof {
                        let last = catalog.roms@.len() - 1;
                        assert(rom_keyed(catalog.roms@[last], r.name@, game_id));
                        assert(has_rom(catalog.roms@, r.name@, game_id));
                        let i_new = crate::catalog::rom_find(catalog.roms@, r.name@, game_id)->0;
                        assert(rom_keyed(catalog.roms@[i_new], r.name@, game_id));
                        assert(i_new == last);
                        assert(rom_upserted(old_rs, catalog.roms@, roms@[t as int], game_id, orphans@));
                    }
                },
            }
            proof {
                crate::model::lemma_kept_named_take_step(roms@, t as int, roms@[t as int].name@);
                assert forall|j: int|
                    0 <= j < n0 && !crate::model::has_kept_rom_named(
                        roms@.take(t + 1),
                        old_rs[j].name@,
                    ) implies #[trigger] catalog.roms@[j] == old_rs[j] by {
                    crate::model::lemma_kept_named_take_step(roms@, t as int, old_rs[j].name@);
                }
                assert forall|j: int| n0 <= j < catalog.roms@.len() implies #[trigger] catalog
                    .roms@[j].game_id == game_id by {
                    if j < pre.roms@.len() {
                        assert(catalog.roms@[j] == pre.roms@[j]);
                    }
                }
                assert forall|j: int|
                    n0 <= j < catalog.roms@.len() implies crate::model::has_kept_rom_named(
                    roms@.take(t + 1),
                    #[trigger] catalog.roms@[j].name@,
                ) by {
                    crate::model::lemma_kept_named_take_step(roms@, t as int, catalog.roms@[j].name@);
                    if j < pre.roms@.len() {
                        assert(catalog.roms@[j] == pre.roms@[j]);
                        assert(crate::model::has_kept_rom_named(
                            roms@.take(t as int),
                            catalog.roms@[j].name@,
                        ));
                    } else {
                        assert(catalog.roms@[j].name@ == roms@[t as int].name@);
                        assert(crate::model::rom_kept(roms@[t as int]));
                    }
                }
                assert forall|j: int| n0 <= j < catalog.roms@.len() implies #[trigger] catalog
                    .roms@[j].romfile_id is None by {
                    if j < pre.roms@.len() {
                        assert(catalog.roms@[j] == pre.roms@[j]);
                    }
                }
                assert forall|k: int|
                    0 <= k < t + 1 && crate::model::rom_kept(#[trigger] roms@[k]) implies
                    rom_upserted(old_rs, catalog.roms@, roms@[k], game_id, orphans@) by {
                    if k < t {
                        assert(rom_upserted(old_rs, pre.roms@, roms@[k], game_id, pre_orphans));
                        let i_old = crate::catalog::rom_find(pre.roms@, roms@[k].name@, game_id)->0;
                        assert(rom_keyed(pre.roms@[i_old], roms@[k].name@, game_id));
                        assert(catalog.roms@[i_old] == pre.roms@[i_old]) by {
                            assert(roms@[k].name@ != roms@[t as int].name@);
                        }
                        assert(has_rom(catalog.roms@, roms@[k].name@, game_id));
                        let i_new = crate::catalog::rom_find(
                            catalog.roms@,
                            roms@[k].name@,
                            game_id,
                        )->0;
                        assert(rom_keyed(catalog.roms@[i_new], roms@[k].name@, game_id));
                        assert(i_new == i_old);
                        assert forall|u: int|
                            0 <= u < pre_orphans.len() implies orphans@.contains(
                            #[trigger] pre_orphans[u],
                        ) by {
                            assert(orphans@[u] == pre_orphans[u]);
                        }
                    } else {
                        assert(rom_upserted(old_rs, catalog.roms@, roms@[k], game_id, orphans@));
                    }
                }
            }
        } else {
            proof {
                crate::model::lemma_kept_named_take_step(roms@, t as int, roms@[t as int].name@);
                assert forall|j: int|
                    0 <= j < n0 && !crate::model::has_kept_rom_named(
                        roms@.take(t + 1),
                        old_rs[j].name@,
                    ) implies #[trigger] catalog.roms@[j] == old_rs[j] by {
                    crate::model::lemma_kept_named_take_step(roms@, t as int, old_rs[j].name@);
                }
                assert forall|j: int|
                    n0 <= j < catalog.roms@.len() implies crate::model::has_kept_rom_named(
                    roms@.take(t + 1),
                    #[trigger] catalog.roms@[j].name@,
                ) by {
                    crate::model::lemma_kept_named_take_step(roms@, t as int, catalog.roms@[j].name@);
                }
            }
        }
        t += 1;
    }
    proof {
        assert(roms@.take(roms@.len() as int) =~= roms@);
    }
    orphans
}

/// The hash algorithm the reclaim path asks the external importer to use:
/// re-matching goes by the cheapest one the catalog stores.
#[derive(Clone, Copy, PartialEq, Eq, Structural)]
pub enum HashAlgorithm {
    Crc,
    Md5,
    Sha1,
}

/// One reclaim decision: the stale RomFile row has been deleted and the
/// physical file at this path should be handed back to the external
/// importer for re-matching.
pub struct ReclaimRequest {
    pub romfile_id: i64,
    pub path: String,
    pub hash_algorithm: HashAlgorithm,
}

/// A reclaim request is sound: its id was listed and some previously
/// cataloged romfile row carried that id and path.
pub open spec fn request_ok(romfiles: Seq<RomFile>, ids: Seq<i64>, req: ReclaimRequest) -> bool {
    ids.contains(req.romfile_id) && exists|j: int|
        0 <= j < romfiles.len() && #[trigger] romfiles[j].id == req.romfile_id && romfiles[j].path@
            == req.path@
}

/// Some emitted request names this id and path.
pub open spec fn request_for(requests: Seq<ReclaimRequest>, id: i64, path: Seq<char>) -> bool {
    exists|u: int|
        0 <= u < requests.len() && #[trigger] requests[u].romfile_id == id && requests[u].path@
            == path
}

/// Reclaim the orphaned romfiles: delete each listed RomFile row and emit a
/// re-import request for its path, so the external importer can try to
/// re-associate the physical file with whatever rom now matches. Deletion
/// happens regardless of the eventual match outcome; files with no match
/// stay on disk, merely unassociated.
#[verifier::rlimit(100)]
pub fn reimport_orphan_romfiles(
    catalog: &mut Catalog,
    system_id: i64,
    orphan_romfile_ids: &Vec<i64>,
    hash_algorithm: HashAlgorithm,
) -> (requests: Vec<ReclaimRequest>)
    requires
        old(catalog).wf(),
    ensures
        final(catalog).wf(),
        final(catalog).systems@ == old(catalog).systems@,
        final(catalog).headers@ == old(catalog).headers@,
        final(catalog).rules@ == old(catalog).rules@,
        final(catalog).games@ == old(catalog).games@,
        final(catalog).roms@ == old(catalog).roms@,
        final(catalog).next_id == old(catalog).next_id,
        // no listed romfile row survives
        forall|j: int|
            0 <= j < final(catalog).romfiles@.len() ==> old(catalog).romfiles@.contains(
                #[trigger] final(catalog).romfiles@[j],
            ) && !orphan_romfile_ids@.contains(final(catalog).romfiles@[j].id),
        // unlisted rows survive
        forall|j: int|
            0 <= j < old(catalog).romfiles@.len() && !orphan_romfile_ids@.contains(
                #[trigger] old(catalog).romfiles@[j].id,
            ) ==> final(catalog).romfiles@.contains(old(catalog).romfiles@[j]),
        // every deleted row's path is handed back for re-import
        forall|j: int|
            0 <= j < old(catalog).romfiles@.len() && orphan_romfile_ids@.contains(
                #[trigger] old(catalog).romfiles@[j].id,
            ) ==> request_for(
                requests@,
                old(catalog).romfiles@[j].id,
                old(catalog).romfiles@[j].path@,
            ),
        // and every request names a listed, previously present row
        forall|u: int|
            0 <= u < requests@.len() ==> request_ok(
                old(catalog).romfiles@,
                orphan_romfile_ids@,
                #[trigger] requests@[u],
            ),
{
    let mut requests: Vec<ReclaimRequest> = Vec::new();
    let mut t: usize = 0;
    while t < orphan_romfile_ids.len()
        invariant
            t <= orphan_romfile_ids@.len(),
            catalog.wf(),
            catalog.systems@ == old(catalog).systems@,
            catalog.headers@ == old(catalog).headers@,
            catalog.rules@ == old(catalog).rules@,
            catalog.games@ == old(catalog).games@,
            catalog.roms@ == old(catalog).roms@,
            catalog.next_id == old(catalog).next_id,
            forall|j: int|
                0 <= j < catalog.romfiles@.len() ==> old(catalog).romfiles@.contains(
                    #[trigger] catalog.romfiles@[j],
                ),
            forall|j: int|
                0 <= j < catalog.romfiles@.len() ==> !orphan_romfile_ids@.take(t as int).contains(
                    #[trigger] catalog.romfiles@[j].id,
                ),
            forall|j: int|
                0 <= j < old(catalog).romfiles@.len() && !orphan_romfile_ids@.take(
                    t as int,
                ).contains(#[trigger] old(catalog).romfiles@[j].id) ==> catalog.romfiles@.contains(
                    old(catalog).romfiles@[j],
                ),
            forall|j: int|
                0 <= j < old(catalog).romfiles@.len() && orphan_romfile_ids@.take(
                    t as int,
                ).contains(#[trigger] old(catalog).romfiles@[j].id) ==> request_for(
                    requests@,
                    old(catalog).romfiles@[j].id,
                    old(catalog).romfiles@[j].path@,
                ),
            forall|u: int|
                0 <= u < requests@.len() ==> request_ok(
                    old(catalog).romfiles@,
                    orphan_romfile_ids@,
                    #[trigger] requests@[u],
                ),
        decreases orphan_romfile_ids@.len() - t,
    {
        let id = orphan_romfile_ids[t];
        let ghost pre = *catalog;
        let ghost pre_reqs = requests@;
        proof {
            assert(orphan_romfile_ids@[t as int] == id);
            assert(orphan_romfile_ids@.contains(id));
        }
        match catalog.find_romfile_by_id(id) {
            Some(i) => {
                let path = catalog.romfiles[i].path.clone();
                proof {
                    assert(old(catalog).romfiles@.contains(catalog.romfiles@[i as int]));
                }
                catalog.delete_romfile(i);
                let req = ReclaimRequest { romfile_id: id, path, hash_algorithm };
                proof {
                    let removed = pre.romfiles@[i as int];
                    assert(removed.id == id);
                    assert(request_ok(old(catalog).romfiles@, orphan_romfile_ids@, req)) by {
                        assert(old(catalog).romfiles@.contains(removed));
                        let x = choose|x: int|
                            0 <= x < old(catalog).romfiles@.len() && old(catalog).romfiles@[x]
                                == removed;
                        assert(old(catalog).romfiles@[x].id == id);
                    }
                }
                requests.push(req);
                proof {
                    let removed = pre.romfiles@[i as int];
                    assert forall|u: int| 0 <= u < requests@.len() implies request_ok(
                        old(catalog).romfiles@,
                        orphan_romfile_ids@,
                        #[trigger] requests@[u],
                    ) by {
                        if u < pre_reqs.len() {
                            assert(requests@[u] == pre_reqs[u]);
                        } else {
                            assert(requests@[u] == req);
                        }
                    }
                    // rows after the deletion: shifted but otherwise intact
                    assert forall|j: int| 0 <= j < catalog.romfiles@.len() implies old(
                        catalog,
                    ).romfiles@.contains(#[trigger] catalog.romfiles@[j]) && !orphan_romfile_ids@
                        .take(t + 1).contains(catalog.romfiles@[j].id) by {
                        let row = if j < i {
                            pre.romfiles@[j]
                        } else {
                            pre.romfiles@[j + 1]
                        };
                        assert(catalog.romfiles@[j] == row);
                        assert(old(catalog).romfiles@.contains(row));
                        assert(!orphan_romfile_ids@.take(t as int).contains(row.id));
                        assert(row.id != id) by {
                            if j < i {
                                assert(pre.romfiles@[j].id != pre.romfiles@[i as int].id);
                            } else {
                                assert(pre.romfiles@[j + 1].id != pre.romfiles@[i as int].id);
                            }
                        }
                        if orphan_romfile_ids@.take(t + 1).contains(row.id) {
                            let w = choose|w: int|
                                0 <= w < orphan_romfile_ids@.take(t + 1).len()
                                    && #[trigger] orphan_romfile_ids@.take(t + 1)[w] == row.id;
                            assert(w < t || orphan_romfile_ids@.take(t + 1)[w] == id);
                            assert(orphan_romfile_ids@.take(t as int)[w] == row.id);
                        }
                    }
                    // survivors among the unlisted old rows
                    assert forall|j: int|
                        0 <= j < old(catalog).romfiles@.len() && !orphan_romfile_ids@.take(
                        t + 1,
                    ).contains(#[trigger] old(catalog).romfiles@[j].id) implies catalog
                        .romfiles@.contains(old(catalog).romfiles@[j]) by {
                        let row = old(catalog).romfiles@[j];
                        assert(!orphan_romfile_ids@.take(t as int).contains(row.id)) by {
                            if orphan_romfile_ids@.take(t as int).contains(row.id) {
                                let w = choose|w: int|
                                    0 <= w < orphan_romfile_ids@.take(t as int).len()
                                        && #[trigger] orphan_romfile_ids@.take(t as int)[w]
                                        == row.id;
                                assert(orphan_romfile_ids@.take(t + 1)[w] == row.id);
                            }
                        }
                        assert(pre.romfiles@.contains(row));
                        let x = choose|x: int|
                            0 <= x < pre.romfiles@.len() && pre.romfiles@[x] == row;
                        assert(row.id != id) by {
                            assert(orphan_romfile_ids@.take(t + 1)[t as int] == id);
                        }
                        assert(pre.romfiles@[i as int].id == id);
                        assert(x != i);
                        if x < i {
                            assert(catalog.romfiles@[x] == pre.romfiles@[x]);
                        } else {
                            assert(catalog.romfiles@[x - 1] == pre.romfiles@[x]);
                        }
                    }
                    // requests cover every row listed so far
                    assert forall|j: int|
                        0 <= j < old(catalog).romfiles@.len() && orphan_romfile_ids@.take(
                        t + 1,
                    ).contains(#[trigger] old(catalog).romfiles@[j].id) implies request_for(
                        requests@,
                        old(catalog).romfiles@[j].id,
                        old(catalog).romfiles@[j].path@,
                    ) by {
                        let row = old(catalog).romfiles@[j];
                        if orphan_romfile_ids@.take(t as int).contains(row.id) {
                            assert(request_for(pre_reqs, row.id, row.path@));
                            let u = choose|u: int|
                                0 <= u < pre_reqs.len() && #[trigger] pre_reqs[u].romfile_id
                                    == row.id && pre_reqs[u].path@ == row.path@;
                            assert(requests@[u] == pre_reqs[u]);
                        } else {
                            let w = choose|w: int|
                                0 <= w < orphan_romfile_ids@.take(t + 1).len()
                                    && #[trigger] orphan_romfile_ids@.take(t + 1)[w] == row.id;
                            assert(w == t);
                            assert(row.id == id);
                            // ids are unique among the old rows, so this is
                            // the row that was just deleted
                            assert(old(catalog).romfiles@.contains(pre.romfiles@[i as int]));
                            let x = choose|x: int|
                                0 <= x < old(catalog).romfiles@.len() && old(catalog).romfiles@[x]
                                    == pre.romfiles@[i as int];
                            assert(old(catalog).romfiles@[x].id == id);
                            assert(x == j);
                            assert(requests@[requests@.len() - 1].romfile_id == row.id);
                            assert(requests@[requests@.len() - 1].path@ == row.path@);
                        }
                    }
                }
            },
            None => {
                proof {
                    assert forall|j: int| 0 <= j < catalog.romfiles@.len() implies
                        !orphan_romfile_ids@.take(t + 1).contains(
                        #[trigger] catalog.romfiles@[j].id,
                    ) by {
                        assert(catalog.romfiles@[j].id != id);
                        if orphan_romfile_ids@.take(t + 1).contains(catalog.romfiles@[j].id) {
                            let w = choose|w: int|
                                0 <= w < orphan_romfile_ids@.take(t + 1).len()
                                    && #[trigger] orphan_romfile_ids@.take(t + 1)[w]
                                    == catalog.romfiles@[j].id;
                            assert(orphan_romfile_ids@.take(t as int)[w]
                                == catalog.romfiles@[j].id);
                        }
                    }
                    assert forall|j: int|
                        0 <= j < old(catalog).romfiles@.len() && !orphan_romfile_ids@.take(
                        t + 1,
                    ).contains(#[trigger] old(catalog).romfiles@[j].id) implies catalog
                        .romfiles@.contains(old(catalog).romfiles@[j]) by {
                        let row = old(catalog).romfiles@[j];
                        if orphan_romfile_ids@.take(t as int).contains(row.id) {
                            let w = choose|w: int|
                                0 <= w < orphan_romfile_ids@.take(t as int).len()
                                    && #[trigger] orphan_romfile_ids@.take(t as int)[w] == row.id;
                            assert(orphan_romfile_ids@.take(t + 1)[w] == row.id);
                            assert(false);
                        }
                    }
                    assert forall|j: int|
                        0 <= j < old(catalog).romfiles@.len() && orphan_romfile_ids@.take(
                        t + 1,
                    ).contains(#[trigger] old(catalog).romfiles@[j].id) implies request_for(
                        requests@,
                        old(catalog).romfiles@[j].id,
                        old(catalog).romfiles@[j].path@,
                    ) by {
                        let row = old(catalog).romfiles@[j];
                        if orphan_romfile_ids@.take(t as int).contains(row.id) {
                        } else {
                            let w = choose|w: int|
                                0 <= w < orphan_romfile_ids@.take(t + 1).len()
                                    && #[trigger] orphan_romfile_ids@.take(t + 1)[w] == row.id;
                            assert(w == t);
                            assert(row.id == id);
                            // the row would still be present, but no row
                            // carries this id
                            assert(catalog.romfiles@.contains(row));
                            let x = choose|x: int|
                                0 <= x < catalog.romfiles@.len() && catalog.romfiles@[x] == row;
                            assert(catalog.romfiles@[x].id == id);
                            assert(false);
                        }
                    }
                }
            },
        }
        t += 1;
    }
    proof {
        assert(orphan_romfile_ids@.take(orphan_romfile_ids@.len() as int) =~= orphan_romfile_ids@);
    }
    requests
}

} // verus!
