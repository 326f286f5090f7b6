//! In-memory model of a parsed DAT document: the system, its games and their
//! roms, plus an optional header detector with byte-skip rules. Pure data; an
//! XML deserializer outside this crate fills these in.

use vstd::prelude::*;

verus! {

/// The system a DAT describes: its external identity is the name, and the
/// version gates re-imports.
pub struct DatSystem {
    pub name: String,
    pub version: String,
}

/// One declared game: an optional clone-of / rom-of reference ties it to a
/// parent or bios game declared elsewhere in the same DAT.
pub struct DatGame {
    pub name: String,
    pub bios: bool,
    pub cloneof: Option<String>,
    pub romof: Option<String>,
    pub roms: Vec<DatRom>,
}

/// One declared rom. A rom with status "nodump" or without a CRC is skipped
/// during import; a merge reference marks its data as stored under an
/// ancestor game.
pub struct DatRom {
    pub name: String,
    pub size: i64,
    pub crc: Option<String>,
    pub status: Option<String>,
    pub merge: Option<String>,
}

/// A header detector: byte-skip rules scoped to one system.
pub struct DatDetector {
    pub name: String,
    pub version: String,
    pub rule: DatRule,
}

/// The detector's rule: an offset window, an operation, and its data tests.
pub struct DatRule {
    pub start_offset: String,
    pub end_offset: String,
    pub operation: String,
    pub data: Vec<DatRuleData>,
}

/// One data test of a detector rule.
pub struct DatRuleData {
    pub offset: String,
    pub value: String,
}

/// A whole parsed DAT document.
pub struct DatFile {
    pub system: DatSystem,
    pub games: Vec<DatGame>,
}

/// A declared rom whose status is "nodump" must never be persisted.
pub open spec fn rom_is_nodump(r: DatRom) -> bool {
    r.status is Some && r.status->0@ == "nodump"@
}

/// A declared rom is kept (persisted) exactly when it has a CRC and is not a
/// nodump entry.
pub open spec fn rom_kept(r: DatRom) -> bool {
    r.crc is Some && !rom_is_nodump(r)
}

/// Some kept rom in `rs` bears this name.
pub open spec fn has_kept_rom_named(rs: Seq<DatRom>, name: Seq<char>) -> bool {
    exists|k: int| 0 <= k < rs.len() && rom_kept(#[trigger] rs[k]) && rs[k].name@ == name
}

/// Extending a prefix of declared roms by one entry extends the kept names
/// by exactly that entry's name, when it is kept.
pub proof fn lemma_kept_named_take_step(rs: Seq<DatRom>, t: int, name: Seq<char>)
    requires
        0 <= t < rs.len(),
    ensures
        has_kept_rom_named(rs.take(t + 1), name) == (has_kept_rom_named(rs.take(t), name) || (
        rom_kept(rs[t]) && rs[t].name@ == name)),
{
    if has_kept_rom_named(rs.take(t + 1), name) {
        let k = choose|k: int|
            0 <= k < rs.take(t + 1).len() && rom_kept(#[trigger] rs.take(t + 1)[k]) && rs.take(
                t + 1,
            )[k].name@ == name;
        if k < t {
            assert(rs.take(t)[k] == rs[k]);
        }
    }
    if has_kept_rom_named(rs.take(t), name) {
        let k = choose|k: int|
            0 <= k < rs.take(t).len() && rom_kept(#[trigger] rs.take(t)[k]) && rs.take(t)[k].name@
                == name;
        assert(rs.take(t + 1)[k] == rs[k]);
    }
    if rom_kept(rs[t]) && rs[t].name@ == name {
        assert(rs.take(t + 1)[t] == rs[t]);
    }
}

/// Some declared game in `gs` bears this name.
pub open spec fn has_game_named(gs: Seq<DatGame>, name: Seq<char>) -> bool {
    exists|k: int| 0 <= k < gs.len() && gs[k].name@ == name
}

/// A game with neither a clone-of nor a rom-of reference is a root of the
/// hierarchy.
pub open spec fn game_is_root(g: DatGame) -> bool {
    g.cloneof is None && g.romof is None
}

/// The reference a dependent game must see resolved before it can be
/// processed: its clone-of name, or failing that its rom-of name.
pub open spec fn game_ref_name(g: DatGame) -> Seq<char> {
    if g.cloneof is Some {
        g.cloneof->0@
    } else {
        g.romof->0@
    }
}

/// Declared game names are pairwise distinct: the DAT is the canonical
/// description of the system, one entry per game.
pub open spec fn game_names_distinct(gs: Seq<DatGame>) -> bool {
    forall|i: int, j: int|
        0 <= i < gs.len() && 0 <= j < gs.len() && i != j ==> #[trigger] gs[i].name@
            != #[trigger] gs[j].name@
}

/// Declared rom names within one game are pairwise distinct: (name, game) is
/// the rom identity key.
pub open spec fn rom_names_distinct(rs: Seq<DatRom>) -> bool {
    forall|i: int, j: int|
        0 <= i < rs.len() && 0 <= j < rs.len() && i != j ==> #[trigger] rs[i].name@
            != #[trigger] rs[j].name@
}

/// Every game of the DAT declares pairwise distinct rom names.
pub open spec fn all_rom_names_distinct(gs: Seq<DatGame>) -> bool {
    forall|i: int| 0 <= i < gs.len() ==> rom_names_distinct(#[trigger] gs[i].roms@)
}

/// A dependent game is resolvable within `fuel` layers: it is a root, or its
/// reference names a game resolvable one layer earlier. The hierarchy
/// resolver succeeds exactly when every game is resolvable within as many
/// layers as there are games.
pub open spec fn resolvable_in(gs: Seq<DatGame>, k: int, fuel: nat) -> bool
    decreases fuel,
{
    fuel > 0 && (game_is_root(gs[k]) || (exists|m: int|
        0 <= m < gs.len() && gs[m].name@ == game_ref_name(gs[k]) && resolvable_in(
            gs,
            m,
            (fuel - 1) as nat,
        )))
}

/// Every declared game finds its place in the hierarchy within a bounded
/// number of passes.
pub open spec fn all_resolvable(gs: Seq<DatGame>) -> bool {
    forall|k: int| 0 <= k < gs.len() ==> #[trigger] resolvable_in(gs, k, gs.len() + 1)
}

/// Resolvability is monotone in the layer bound.
pub proof fn lemma_resolvable_mono(gs: Seq<DatGame>, k: int, f1: nat, f2: nat)
    requires
        resolvable_in(gs, k, f1),
        f1 <= f2,
    ensures
        resolvable_in(gs, k, f2),
    decreases f1,
{
    if !game_is_root(gs[k]) {
        let m = choose|m: int|
            0 <= m < gs.len() && gs[m].name@ == game_ref_name(gs[k]) && resolvable_in(
                gs,
                m,
                (f1 - 1) as nat,
            );
        lemma_resolvable_mono(gs, m, (f1 - 1) as nat, (f2 - 1) as nat);
    }
}

/// How many rows importing these games can create at most: one per game plus
/// one per declared rom.
pub open spec fn games_weight(gs: Seq<DatGame>) -> nat
    decreases gs.len(),
{
    if gs.len() == 0 {
        0
    } else {
        games_weight(gs.drop_last()) + 1 + gs.last().roms@.len()
    }
}

/// How many rows importing the whole DAT can create at most.
pub open spec fn dat_weight(d: DatFile, detector: Option<DatDetector>) -> nat {
    2 + games_weight(d.games@) + (match detector {
        Some(det) => det.rule.data@.len(),
        None => 0,
    })
}

} // verus!
