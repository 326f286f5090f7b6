use oxyromon::catalog::{Catalog, Merging};
use oxyromon::completion::{
    compute_arcade_system_completion, compute_arcade_system_incompletion,
    compute_system_completion, compute_system_incompletion,
};
use oxyromon::import::import_dat;
use oxyromon::model::{DatDetector, DatFile, DatGame, DatRom, DatRule, DatRuleData, DatSystem};
use oxyromon::regions::{get_regions_from_game_name, ImportError};
use oxyromon::text::is_update;

fn rom(name: &str, size: i64, crc: Option<&str>) -> DatRom {
    DatRom {
        name: name.to_string(),
        size,
        crc: crc.map(|c| c.to_string()),
        status: None,
        merge: None,
    }
}

fn game(name: &str, roms: Vec<DatRom>) -> DatGame {
    DatGame {
        name: name.to_string(),
        bios: false,
        cloneof: None,
        romof: None,
        roms,
    }
}

fn clone_game(name: &str, parent: &str, roms: Vec<DatRom>) -> DatGame {
    DatGame {
        name: name.to_string(),
        bios: false,
        cloneof: Some(parent.to_string()),
        romof: None,
        roms,
    }
}

fn dat(system: &str, version: &str, games: Vec<DatGame>) -> DatFile {
    DatFile {
        system: DatSystem {
            name: system.to_string(),
            version: version.to_string(),
        },
        games,
    }
}

fn find_game<'a>(c: &'a Catalog, name: &str) -> &'a oxyromon::catalog::Game {
    c.games.iter().find(|g| g.name == name).unwrap()
}

fn find_rom<'a>(c: &'a Catalog, name: &str, game_id: i64) -> &'a oxyromon::catalog::Rom {
    c.roms
        .iter()
        .find(|r| r.name == name && r.game_id == game_id)
        .unwrap()
}

#[test]
fn version_comparison_is_lexicographic() {
    assert!(is_update("1.0", "1.1"));
    assert!(is_update("1.0", "2.0"));
    assert!(!is_update("1.0", "1.0"));
    assert!(!is_update("1.1", "1.0"));
    assert!(is_update("", "a"));
}

#[test]
fn parent_clone_import() {
    // DAT "Foo" v1.0: game A is a root with rom r1, game B clones A with rom
    // r2; both persist and B's parent link carries A's id
    let mut c = Catalog::new();
    let d = dat(
        "Foo",
        "1.0",
        vec![
            game("A", vec![rom("r1", 10, Some("AAAA"))]),
            clone_game("B", "A", vec![rom("r2", 20, Some("BBBB"))]),
        ],
    );
    let out = import_dat(&mut c, &d, &None, true, false).unwrap();
    assert!(out.imported);
    assert_eq!(out.reclaim.len(), 0);
    let a = find_game(&c, "A");
    let b = find_game(&c, "B");
    assert_eq!(a.parent_id, None);
    assert_eq!(a.bios_id, None);
    assert_eq!(b.parent_id, Some(a.id));
    assert_eq!(b.bios_id, None);
    assert_eq!(find_rom(&c, "r1", a.id).crc, "AAAA");
    assert_eq!(find_rom(&c, "r2", b.id).crc, "BBBB");
}

#[test]
fn reimport_same_version_is_a_no_op() {
    let mut c = Catalog::new();
    let d = dat("Foo", "1.0", vec![game("A", vec![rom("r1", 10, Some("AAAA"))])]);
    let out = import_dat(&mut c, &d, &None, true, false).unwrap();
    assert!(out.imported);
    let games_before = c.games.len();
    let roms_before = c.roms.len();
    let next_before = c.next_id;
    let out2 = import_dat(&mut c, &d, &None, true, false).unwrap();
    assert!(!out2.imported);
    assert_eq!(out2.reclaim.len(), 0);
    assert_eq!(c.games.len(), games_before);
    assert_eq!(c.roms.len(), roms_before);
    assert_eq!(c.next_id, next_before);
}

#[test]
fn outdated_version_is_rejected_unless_forced() {
    let mut c = Catalog::new();
    let d1 = dat("Foo", "2.0", vec![game("A", vec![rom("r1", 10, Some("AAAA"))])]);
    import_dat(&mut c, &d1, &None, true, false).unwrap();
    let d0 = dat("Foo", "1.0", vec![game("A", vec![rom("r1", 10, Some("AAAA"))])]);
    let out = import_dat(&mut c, &d0, &None, true, false).unwrap();
    assert!(!out.imported);
    assert_eq!(c.systems[0].version, "2.0");
    let out = import_dat(&mut c, &d0, &None, true, true).unwrap();
    assert!(out.imported);
    assert_eq!(c.systems[0].version, "1.0");
}

#[test]
fn newer_version_updates_system_fields() {
    let mut c = Catalog::new();
    let d1 = dat("Foo", "1.0", vec![game("A", vec![rom("r1", 10, Some("AAAA"))])]);
    import_dat(&mut c, &d1, &None, true, false).unwrap();
    let d2 = dat("Foo", "1.1", vec![game("A", vec![rom("r1", 10, Some("AAAA"))])]);
    let out = import_dat(&mut c, &d2, &None, true, false).unwrap();
    assert!(out.imported);
    assert_eq!(c.systems.len(), 1);
    assert_eq!(c.systems[0].version, "1.1");
}

#[test]
fn nodump_and_crcless_roms_are_skipped() {
    let mut c = Catalog::new();
    let mut nodump = rom("bad1", 5, Some("DDDD"));
    nodump.status = Some("nodump".to_string());
    let crcless = rom("bad2", 5, None);
    let d = dat(
        "Foo",
        "1.0",
        vec![game("A", vec![rom("r1", 10, Some("AAAA")), nodump, crcless])],
    );
    import_dat(&mut c, &d, &None, true, false).unwrap();
    let a = find_game(&c, "A");
    assert_eq!(c.roms.len(), 1);
    assert_eq!(c.roms[0].name, "r1");
    assert_eq!(c.roms[0].game_id, a.id);
}

#[test]
fn changed_crc_detaches_romfile_and_reclaims_it() {
    // re-import at v1.1 with r1's CRC changed: the rom row carries the new
    // CRC, the romfile is detached and returned for reclaim, and the stale
    // RomFile row is deleted regardless of match outcome
    let mut c = Catalog::new();
    let d1 = dat("Foo", "1.0", vec![game("A", vec![rom("r1", 10, Some("AAAA"))])]);
    import_dat(&mut c, &d1, &None, true, false).unwrap();
    let a_id = find_game(&c, "A").id;
    let r_idx = c
        .find_rom_by_name_and_game_id("r1", a_id)
        .expect("rom row exists");
    let fid = c.create_romfile("roms/r1.rom");
    c.update_rom_romfile(r_idx, Some(fid));
    assert_eq!(c.romfiles.len(), 1);

    let d2 = dat("Foo", "1.1", vec![game("A", vec![rom("r1", 10, Some("CCCC"))])]);
    let out = import_dat(&mut c, &d2, &None, true, false).unwrap();
    assert!(out.imported);
    assert_eq!(out.reclaim.len(), 1);
    assert_eq!(out.reclaim[0].romfile_id, fid);
    assert_eq!(out.reclaim[0].path, "roms/r1.rom");
    let r = find_rom(&c, "r1", a_id);
    assert_eq!(r.crc, "CCCC");
    assert_eq!(r.romfile_id, None);
    assert_eq!(c.romfiles.len(), 0);
}

#[test]
fn unchanged_reimport_produces_no_orphans() {
    let mut c = Catalog::new();
    let d1 = dat("Foo", "1.0", vec![game("A", vec![rom("r1", 10, Some("AAAA"))])]);
    import_dat(&mut c, &d1, &None, true, false).unwrap();
    let a_id = find_game(&c, "A").id;
    let r_idx = c.find_rom_by_name_and_game_id("r1", a_id).unwrap();
    let fid = c.create_romfile("roms/r1.rom");
    c.update_rom_romfile(r_idx, Some(fid));

    let d2 = dat("Foo", "1.1", vec![game("A", vec![rom("r1", 10, Some("AAAA"))])]);
    let out = import_dat(&mut c, &d2, &None, true, false).unwrap();
    assert!(out.imported);
    assert_eq!(out.reclaim.len(), 0);
    assert_eq!(find_rom(&c, "r1", a_id).romfile_id, Some(fid));
    assert_eq!(c.romfiles.len(), 1);
}

#[test]
fn deleting_a_game_frees_its_romfiles() {
    let mut c = Catalog::new();
    let d1 = dat(
        "Foo",
        "1.0",
        vec![
            game("A", vec![rom("r1", 10, Some("AAAA"))]),
            game("B", vec![rom("r2", 20, Some("BBBB"))]),
        ],
    );
    import_dat(&mut c, &d1, &None, true, false).unwrap();
    let b_id = find_game(&c, "B").id;
    let r_idx = c.find_rom_by_name_and_game_id("r2", b_id).unwrap();
    let fid = c.create_romfile("roms/r2.rom");
    c.update_rom_romfile(r_idx, Some(fid));

    let d2 = dat("Foo", "1.1", vec![game("A", vec![rom("r1", 10, Some("AAAA"))])]);
    let out = import_dat(&mut c, &d2, &None, true, false).unwrap();
    assert!(out.imported);
    assert!(c.games.iter().all(|g| g.name != "B"));
    assert!(c.roms.iter().all(|r| r.game_id != b_id));
    assert_eq!(out.reclaim.len(), 1);
    assert_eq!(out.reclaim[0].romfile_id, fid);
    assert_eq!(out.reclaim[0].path, "roms/r2.rom");
}

#[test]
fn unresolvable_hierarchy_aborts_the_import() {
    let mut c = Catalog::new();
    let d = dat(
        "Foo",
        "1.0",
        vec![
            game("A", vec![rom("r1", 10, Some("AAAA"))]),
            clone_game("B", "Missing", vec![rom("r2", 20, Some("BBBB"))]),
        ],
    );
    let r = import_dat(&mut c, &d, &None, true, false);
    assert!(matches!(r, Err(ImportError::Hierarchy)));
    // the transaction rolled back: nothing was created
    assert_eq!(c.systems.len(), 0);
    assert_eq!(c.games.len(), 0);
    assert_eq!(c.roms.len(), 0);
}

#[test]
fn deep_clone_chains_resolve_out_of_order() {
    // C clones B clones A, declared in reverse order: the fixed point still
    // resolves them layer by layer
    let mut c = Catalog::new();
    let d = dat(
        "Foo",
        "1.0",
        vec![
            clone_game("C", "B", vec![rom("r3", 3, Some("CCCC"))]),
            clone_game("B", "A", vec![rom("r2", 2, Some("BBBB"))]),
            game("A", vec![rom("r1", 1, Some("AAAA"))]),
        ],
    );
    import_dat(&mut c, &d, &None, true, false).unwrap();
    let a = find_game(&c, "A").id;
    let b = find_game(&c, "B");
    let b_id = b.id;
    assert_eq!(b.parent_id, Some(a));
    assert_eq!(find_game(&c, "C").parent_id, Some(b_id));
}

#[test]
fn header_rules_are_fully_replaced() {
    let mut c = Catalog::new();
    let det1 = DatDetector {
        name: "Foo header".to_string(),
        version: "1.0".to_string(),
        rule: DatRule {
            start_offset: "0".to_string(),
            end_offset: "200".to_string(),
            operation: "none".to_string(),
            data: vec![
                DatRuleData {
                    offset: "100".to_string(),
                    value: "464F4F".to_string(),
                },
                DatRuleData {
                    offset: "104".to_string(),
                    value: "424152".to_string(),
                },
            ],
        },
    };
    let d1 = dat("Foo", "1.0", vec![game("A", vec![rom("r1", 10, Some("AAAA"))])]);
    import_dat(&mut c, &d1, &Some(det1), true, false).unwrap();
    assert_eq!(c.headers.len(), 1);
    assert_eq!(c.rules.len(), 2);
    let hid = c.headers[0].id;
    assert!(c.rules.iter().all(|r| r.header_id == hid));

    let det2 = DatDetector {
        name: "Foo header".to_string(),
        version: "1.1".to_string(),
        rule: DatRule {
            start_offset: "0".to_string(),
            end_offset: "200".to_string(),
            operation: "none".to_string(),
            data: vec![DatRuleData {
                offset: "108".to_string(),
                value: "42415A".to_string(),
            }],
        },
    };
    let d2 = dat("Foo", "1.1", vec![game("A", vec![rom("r1", 10, Some("AAAA"))])]);
    import_dat(&mut c, &d2, &Some(det2), true, false).unwrap();
    assert_eq!(c.headers.len(), 1);
    assert_eq!(c.headers[0].id, hid);
    assert_eq!(c.headers[0].version, "1.1");
    assert_eq!(c.rules.len(), 1);
    assert_eq!(c.rules[0].offset, "108");
    assert_eq!(c.rules[0].value, "42415A");
}

#[test]
fn merge_reference_inherits_parent_rom_linkage() {
    let mut c = Catalog::new();
    let mut merged = rom("pA", 10, Some("AAAA"));
    merged.merge = Some("pA".to_string());
    let d = dat(
        "Arcade",
        "1.0",
        vec![
            game("A", vec![rom("pA", 10, Some("AAAA"))]),
            clone_game("B", "A", vec![rom("pB", 20, Some("BBBB")), merged]),
        ],
    );
    import_dat(&mut c, &d, &None, true, false).unwrap();
    let a_id = find_game(&c, "A").id;
    let b_id = find_game(&c, "B").id;
    let source = find_rom(&c, "pA", a_id);
    let inherited = find_rom(&c, "pA", b_id);
    assert_eq!(inherited.parent_id, Some(source.id));
    assert_eq!(find_rom(&c, "pB", b_id).parent_id, None);
}

#[test]
fn split_and_merged_completion_differ_for_clones() {
    // arcade system: parent A owns pA, clone B owns pB and inherits pA.
    // With only pB on disk, B is complete under Split but not under Merged.
    let mut c = Catalog::new();
    let mut merged = rom("pA", 10, Some("AAAA"));
    merged.merge = Some("pA".to_string());
    let d = dat(
        "Arcade",
        "1.0",
        vec![
            game("A", vec![rom("pA", 10, Some("AAAA"))]),
            clone_game("B", "A", vec![rom("pB", 20, Some("BBBB")), merged]),
        ],
    );
    import_dat(&mut c, &d, &None, true, false).unwrap();
    let b_id = find_game(&c, "B").id;
    let pb_idx = c.find_rom_by_name_and_game_id("pB", b_id).unwrap();
    let fid = c.create_romfile("roms/pB.rom");
    c.update_rom_romfile(pb_idx, Some(fid));

    // Split: only B's directly-owned roms count
    c.update_system_merging(0, Merging::Split);
    compute_arcade_system_completion(&mut c, 0);
    compute_arcade_system_incompletion(&mut c, 0);
    assert!(find_game(&c, "B").complete);
    assert!(!find_game(&c, "A").complete);

    // Merged: B's own roms plus its parent chain's roms count
    c.update_system_merging(0, Merging::Merged);
    compute_arcade_system_completion(&mut c, 0);
    compute_arcade_system_incompletion(&mut c, 0);
    assert!(!find_game(&c, "B").complete);
}

#[test]
fn non_arcade_completion_requires_every_rom() {
    let mut c = Catalog::new();
    let d = dat(
        "Console (USA)",
        "1.0",
        vec![game(
            "Alpha Quest (USA)",
            vec![rom("a1", 10, Some("AAAA")), rom("a2", 20, Some("BBBB"))],
        )],
    );
    import_dat(&mut c, &d, &None, false, false).unwrap();
    let g_id = find_game(&c, "Alpha Quest (USA)").id;
    let a1 = c.find_rom_by_name_and_game_id("a1", g_id).unwrap();
    let fid = c.create_romfile("roms/a1.rom");
    c.update_rom_romfile(a1, Some(fid));
    compute_system_completion(&mut c, 0);
    compute_system_incompletion(&mut c, 0);
    assert!(!find_game(&c, "Alpha Quest (USA)").complete);
    assert!(!c.systems[0].complete);

    let a2 = c.find_rom_by_name_and_game_id("a2", g_id).unwrap();
    let fid2 = c.create_romfile("roms/a2.rom");
    c.update_rom_romfile(a2, Some(fid2));
    compute_system_completion(&mut c, 0);
    compute_system_incompletion(&mut c, 0);
    assert!(find_game(&c, "Alpha Quest (USA)").complete);
    assert!(c.systems[0].complete);
}

#[test]
fn regions_come_from_the_game_name() {
    let r = get_regions_from_game_name("Alpha Quest (France, Germany)").unwrap();
    assert_eq!(r, "FR-DE");
    let r = get_regions_from_game_name("Alpha Quest (USA)").unwrap();
    assert_eq!(r, "US");
    // a name without the conventional region block does not parse; callers
    // treat this as non-fatal and skip the one game
    let r = get_regions_from_game_name("Alpha Quest");
    assert_eq!(r, Err(ImportError::NamingConvention));
}

#[test]
fn imported_games_carry_their_regions() {
    let mut c = Catalog::new();
    let d = dat(
        "Console",
        "1.0",
        vec![game("Alpha Quest (Europe)", vec![rom("r1", 10, Some("AAAA"))])],
    );
    import_dat(&mut c, &d, &None, false, false).unwrap();
    assert_eq!(find_game(&c, "Alpha Quest (Europe)").regions, "EU");
}
