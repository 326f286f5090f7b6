//! The catalog: in-memory rows for systems, headers, rules, games, roms and
//! romfiles, with the identity keys and uniqueness invariants the import
//! relies on. This is the repository boundary: a persistent store behind the
//! same operations would behave identically.

use vstd::prelude::*;
use crate::model::{DatDetector, DatRuleData};
use crate::text::str_eq;

verus! {

/// Per-system policy deciding which roms a clone game "contains" for
/// completion purposes.
#[derive(Clone, Copy, PartialEq, Eq, Structural)]
pub enum Merging {
    Split,
    NonMerged,
    Merged,
    FullNonMerged,
    FullMerged,
}

/// A cataloged system. The name is the external identity key.
pub struct System {
    pub id: i64,
    pub name: String,
    pub version: String,
    pub arcade: bool,
    pub merging: Merging,
    pub complete: bool,
}

/// A system's header detector row; at most one per system.
pub struct Header {
    pub id: i64,
    pub system_id: i64,
    pub name: String,
    pub version: String,
    pub start_offset: String,
    pub end_offset: String,
    pub operation: String,
}

/// One byte-skip rule of a header; fully replaced on header update.
pub struct Rule {
    pub id: i64,
    pub header_id: i64,
    pub offset: String,
    pub value: String,
}

/// A cataloged game. Identity key: (name, bios, system_id). Parent and bios
/// links point only at rows resolved earlier, never forward.
pub struct Game {
    pub id: i64,
    pub name: String,
    pub regions: String,
    pub system_id: i64,
    pub bios: bool,
    pub parent_id: Option<i64>,
    pub bios_id: Option<i64>,
    pub complete: bool,
}

/// A cataloged rom. Identity key: (name, game_id). Roms without a CRC are
/// never persisted, so the stored CRC is mandatory.
pub struct Rom {
    pub id: i64,
    pub name: String,
    pub bios: bool,
    pub size: i64,
    pub crc: String,
    pub game_id: i64,
    pub parent_id: Option<i64>,
    pub romfile_id: Option<i64>,
}

/// A physical file already hashed and linked into the catalog.
pub struct RomFile {
    pub id: i64,
    pub path: String,
}

/// The whole catalog, with a fresh-id counter shared by all tables.
pub struct Catalog {
    pub systems: Vec<System>,
    pub headers: Vec<Header>,
    pub rules: Vec<Rule>,
    pub games: Vec<Game>,
    pub roms: Vec<Rom>,
    pub romfiles: Vec<RomFile>,
    pub next_id: i64,
}

/// Row `g` bears the game identity key (name, bios, system_id).
pub open spec fn game_keyed(g: Game, name: Seq<char>, bios: bool, system_id: i64) -> bool {
    g.name@ == name && g.bios == bios && g.system_id == system_id
}

/// Some game row bears this key.
pub open spec fn has_game(gs: Seq<Game>, name: Seq<char>, bios: bool, system_id: i64) -> bool {
    exists|i: int| 0 <= i < gs.len() && game_keyed(#[trigger] gs[i], name, bios, system_id)
}

/// The index of the game row bearing this key, if any.
pub open spec fn game_find(gs: Seq<Game>, name: Seq<char>, bios: bool, system_id: i64) -> Option<
    int,
> {
    if has_game(gs, name, bios, system_id) {
        Some(choose|i: int| 0 <= i < gs.len() && game_keyed(#[trigger] gs[i], name, bios, system_id))
    } else {
        None
    }
}

/// The id a dependent game's link should carry for a referenced key: the id
/// of the row bearing the key, or nothing when no row does.
pub open spec fn link_for(gs: Seq<Game>, name: Seq<char>, bios: bool, system_id: i64) -> Option<
    i64,
> {
    match game_find(gs, name, bios, system_id) {
        Some(i) => Some(gs[i].id),
        None => None,
    }
}

/// Row `r` bears the rom identity key (name, game_id).
pub open spec fn rom_keyed(r: Rom, name: Seq<char>, game_id: i64) -> bool {
    r.name@ == name && r.game_id == game_id
}

/// Some rom row bears this key.
pub open spec fn has_rom(rs: Seq<Rom>, name: Seq<char>, game_id: i64) -> bool {
    exists|i: int| 0 <= i < rs.len() && rom_keyed(#[trigger] rs[i], name, game_id)
}

/// The index of the rom row bearing this key, if any.
pub open spec fn rom_find(rs: Seq<Rom>, name: Seq<char>, game_id: i64) -> Option<int> {
    if has_rom(rs, name, game_id) {
        Some(choose|i: int| 0 <= i < rs.len() && rom_keyed(#[trigger] rs[i], name, game_id))
    } else {
        None
    }
}

/// Some system row bears this name.
pub open spec fn has_system(ss: Seq<System>, name: Seq<char>) -> bool {
    exists|i: int| 0 <= i < ss.len() && #[trigger] ss[i].name@ == name
}

/// The index of the system row bearing this name, if any.
pub open spec fn sys_find(ss: Seq<System>, name: Seq<char>) -> Option<int> {
    if has_system(ss, name) {
        Some(choose|i: int| 0 <= i < ss.len() && #[trigger] ss[i].name@ == name)
    } else {
        None
    }
}

/// Some header row belongs to this system.
pub open spec fn has_header(hs: Seq<Header>, system_id: i64) -> bool {
    exists|i: int| 0 <= i < hs.len() && #[trigger] hs[i].system_id == system_id
}

/// The index of the header row belonging to this system, if any.
pub open spec fn header_find(hs: Seq<Header>, system_id: i64) -> Option<int> {
    if has_header(hs, system_id) {
        Some(choose|i: int| 0 <= i < hs.len() && #[trigger] hs[i].system_id == system_id)
    } else {
        None
    }
}

/// An optional foreign key is below the id bound.
pub open spec fn opt_lt(x: Option<i64>, b: i64) -> bool {
    match x {
        Some(v) => v < b,
        None => true,
    }
}

impl Catalog {
    /// Ids in every table are below the counter, so a freshly allocated id
    /// collides with nothing.
    pub open spec fn ids_fresh(self) -> bool {
        &&& forall|i: int| 0 <= i < self.systems@.len() ==> #[trigger] self.systems@[i].id < self.next_id
        &&& forall|i: int| 0 <= i < self.headers@.len() ==> #[trigger] self.headers@[i].id < self.next_id
        &&& forall|i: int| 0 <= i < self.rules@.len() ==> #[trigger] self.rules@[i].id < self.next_id
        &&& forall|i: int| 0 <= i < self.games@.len() ==> #[trigger] self.games@[i].id < self.next_id
        &&& forall|i: int| 0 <= i < self.roms@.len() ==> #[trigger] self.roms@[i].id < self.next_id
        &&& forall|i: int|
            0 <= i < self.romfiles@.len() ==> #[trigger] self.romfiles@[i].id < self.next_id
    }

    /// Ids are distinct within each table.
    pub open spec fn ids_distinct(self) -> bool {
        &&& forall|i: int, j: int|
            0 <= i < j < self.systems@.len() ==> #[trigger] self.systems@[i].id
                != #[trigger] self.systems@[j].id
        &&& forall|i: int, j: int|
            0 <= i < j < self.headers@.len() ==> #[trigger] self.headers@[i].id
                != #[trigger] self.headers@[j].id
        &&& forall|i: int, j: int|
            0 <= i < j < self.rules@.len() ==> #[trigger] self.rules@[i].id
                != #[trigger] self.rules@[j].id
        &&& forall|i: int, j: int|
            0 <= i < j < self.games@.len() ==> #[trigger] self.games@[i].id
                != #[trigger] self.games@[j].id
        &&& forall|i: int, j: int|
            0 <= i < j < self.roms@.len() ==> #[trigger] self.roms@[i].id
                != #[trigger] self.roms@[j].id
        &&& forall|i: int, j: int|
            0 <= i < j < self.romfiles@.len() ==> #[trigger] self.romfiles@[i].id
                != #[trigger] self.romfiles@[j].id
    }

    /// Identity keys are unique: one row per system name, per header's
    /// system, per game key and per rom key.
    pub open spec fn keys_unique(self) -> bool {
        &&& forall|i: int, j: int|
            0 <= i < j < self.systems@.len() ==> #[trigger] self.systems@[i].name@
                != #[trigger] self.systems@[j].name@
        &&& forall|i: int, j: int|
            0 <= i < j < self.headers@.len() ==> #[trigger] self.headers@[i].system_id
                != #[trigger] self.headers@[j].system_id
        &&& forall|i: int, j: int|
            0 <= i < j < self.games@.len() ==> !(#[trigger] self.games@[i].name@
                == #[trigger] self.games@[j].name@ && self.games@[i].bios == self.games@[j].bios
                && self.games@[i].system_id == self.games@[j].system_id)
        &&& forall|i: int, j: int|
            0 <= i < j < self.roms@.len() ==> !(#[trigger] self.roms@[i].name@
                == #[trigger] self.roms@[j].name@ && self.roms@[i].game_id
                == self.roms@[j].game_id)
    }

    /// Foreign keys only ever carry ids that were allocated before the
    /// counter's current value, so a fresh id can never collide with a stale
    /// reference.
    pub open spec fn fks_fresh(self) -> bool {
        &&& forall|i: int|
            0 <= i < self.headers@.len() ==> #[trigger] self.headers@[i].system_id < self.next_id
        &&& forall|i: int|
            0 <= i < self.rules@.len() ==> #[trigger] self.rules@[i].header_id < self.next_id
        &&& forall|i: int|
            0 <= i < self.games@.len() ==> #[trigger] self.games@[i].system_id < self.next_id
                && opt_lt(self.games@[i].parent_id, self.next_id) && opt_lt(
                self.games@[i].bios_id,
                self.next_id,
            )
        &&& forall|i: int|
            0 <= i < self.roms@.len() ==> #[trigger] self.roms@[i].game_id < self.next_id
                && opt_lt(self.roms@[i].parent_id, self.next_id) && opt_lt(
                self.roms@[i].romfile_id,
                self.next_id,
            )
    }

    /// The catalog's well-formedness invariant: every operation requires and
    /// preserves it.
    pub open spec fn wf(self) -> bool {
        &&& self.next_id >= 1
        &&& self.ids_fresh()
        &&& self.ids_distinct()
        &&& self.keys_unique()
        &&& self.fks_fresh()
    }

    /// An empty catalog.
    pub fn new() -> (r: Catalog)
        ensures
            r.wf(),
            r.systems@.len() == 0,
            r.headers@.len() == 0,
            r.rules@.len() == 0,
            r.games@.len() == 0,
            r.roms@.len() == 0,
            r.romfiles@.len() == 0,
            r.next_id == 1,
    {
        Catalog {
            systems: Vec::new(),
            headers: Vec::new(),
            rules: Vec::new(),
            games: Vec::new(),
            roms: Vec::new(),
            romfiles: Vec::new(),
            next_id: 1,
        }
    }

    /// Look a system up by its name.
    pub fn find_system_by_name(&self, name: &str) -> (r: Option<usize>)
        ensures
            match r {
                Some(i) => i < self.systems@.len() && self.systems@[i as int].name@ == name@,
                None => !has_system(self.systems@, name@),
            },
    {
        let mut i: usize = 0;
        while i < self.systems.len()
            invariant
                i <= self.systems@.len(),
                forall|j: int| 0 <= j < i ==> #[trigger] self.systems@[j].name@ != name@,
            decreases self.systems@.len() - i,
        {
            if str_eq(self.systems[i].name.as_str(), name) {
                return Some(i);
            }
            i += 1;
        }
        None
    }

    /// Create a system row with the declared name and version. New systems
    /// start with the Split merge strategy and are not complete.
    pub fn create_system(&mut self, name: &str, version: &str, arcade: bool) -> (id: i64)
        requires
            old(self).wf(),
            old(self).next_id < i64::MAX,
            !has_system(old(self).systems@, name@),
        ensures
            final(self).wf(),
            id == old(self).next_id,
            final(self).next_id == old(self).next_id + 1,
            final(self).systems@.len() == old(self).systems@.len() + 1,
            forall|j: int|
                0 <= j < old(self).systems@.len() ==> #[trigger] final(self).systems@[j] == old(
                    self,
                ).systems@[j],
            final(self).systems@.last().id == id,
            final(self).systems@.last().name@ == name@,
            final(self).systems@.last().version@ == version@,
            final(self).systems@.last().arcade == arcade,
            final(self).systems@.last().merging == Merging::Split,
            final(self).systems@.last().complete == false,
            final(self).headers@ == old(self).headers@,
            final(self).rules@ == old(self).rules@,
            final(self).games@ == old(self).games@,
            final(self).roms@ == old(self).roms@,
            final(self).romfiles@ == old(self).romfiles@,
    {
        let id = self.next_id;
        self.next_id = self.next_id + 1;
        self.systems.push(
            System {
                id,
                name: name.to_owned(),
                version: version.to_owned(),
                arcade,
                merging: Merging::Split,
                complete: false,
            },
        );
        id
    }

    /// Update a system row in place with a newly accepted version and arcade
    /// flag; identity, merge strategy and completion flag stay.
    pub fn update_system(&mut self, i: usize, version: &str, arcade: bool)
        requires
            old(self).wf(),
            i < old(self).systems@.len(),
        ensures
            final(self).wf(),
            final(self).systems@.len() == old(self).systems@.len(),
            forall|j: int|
                0 <= j < old(self).systems@.len() && j != i ==> #[trigger] final(self).systems@[j] == old(
                    self,
                ).systems@[j],
            final(self).systems@[i as int].id == old(self).systems@[i as int].id,
            final(self).systems@[i as int].name@ == old(self).systems@[i as int].name@,
            final(self).systems@[i as int].version@ == version@,
            final(self).systems@[i as int].arcade == arcade,
            final(self).systems@[i as int].merging == old(self).systems@[i as int].merging,
            final(self).systems@[i as int].complete == old(self).systems@[i as int].complete,
            final(self).headers@ == old(self).headers@,
            final(self).rules@ == old(self).rules@,
            final(self).games@ == old(self).games@,
            final(self).roms@ == old(self).roms@,
            final(self).romfiles@ == old(self).romfiles@,
            final(self).next_id == old(self).next_id,
    {
        let row = &mut self.systems[i];
        row.version = version.to_owned();
        row.arcade = arcade;
    }

    /// Change a system's merge strategy: a configuration decision taken
    /// outside the import itself.
    pub fn update_system_merging(&mut self, i: usize, merging: Merging)
        requires
            old(self).wf(),
            i < old(self).systems@.len(),
        ensures
            final(self).wf(),
            final(self).systems@.len() == old(self).systems@.len(),
            forall|j: int|
                0 <= j < old(self).systems@.len() && j != i ==> #[trigger] final(self).systems@[j] == old(
                    self,
                ).systems@[j],
            final(self).systems@[i as int] == (System { merging, ..old(self).systems@[i as int] }),
            final(self).headers@ == old(self).headers@,
            final(self).rules@ == old(self).rules@,
            final(self).games@ == old(self).games@,
            final(self).roms@ == old(self).roms@,
            final(self).romfiles@ == old(self).romfiles@,
            final(self).next_id == old(self).next_id,
    {
        let row = &mut self.systems[i];
        row.merging = merging;
    }

    /// Look a header up by the system it belongs to.
    pub fn find_header_by_system_id(&self, system_id: i64) -> (r: Option<usize>)
        ensures
            match r {
                Some(i) => i < self.headers@.len() && self.headers@[i as int].system_id
                    == system_id,
                None => !has_header(self.headers@, system_id),
            },
    {
        let mut i: usize = 0;
        while i < self.headers.len()
            invariant
                i <= self.headers@.len(),
                forall|j: int| 0 <= j < i ==> #[trigger] self.headers@[j].system_id != system_id,
            decreases self.headers@.len() - i,
        {
            if self.headers[i].system_id == system_id {
                return Some(i);
            }
            i += 1;
        }
        None
    }

    /// Create a header row for a system from the declared detector.
    pub fn create_header(&mut self, detector: &DatDetector, system_id: i64) -> (id: i64)
        requires
            old(self).wf(),
            old(self).next_id < i64::MAX,
            system_id < old(self).next_id,
            !has_header(old(self).headers@, system_id),
        ensures
            final(self).wf(),
            id == old(self).next_id,
            final(self).next_id == old(self).next_id + 1,
            final(self).headers@.len() == old(self).headers@.len() + 1,
            forall|j: int|
                0 <= j < old(self).headers@.len() ==> #[trigger] final(self).headers@[j] == old(
                    self,
                ).headers@[j],
            final(self).headers@.last().id == id,
            final(self).headers@.last().system_id == system_id,
            final(self).headers@.last().name@ == detector.name@,
            final(self).headers@.last().version@ == detector.version@,
            final(self).headers@.last().start_offset@ == detector.rule.start_offset@,
            final(self).headers@.last().end_offset@ == detector.rule.end_offset@,
            final(self).headers@.last().operation@ == detector.rule.operation@,
            final(self).systems@ == old(self).systems@,
            final(self).rules@ == old(self).rules@,
            final(self).games@ == old(self).games@,
            final(self).roms@ == old(self).roms@,
            final(self).romfiles@ == old(self).romfiles@,
    {
        let id = self.next_id;
        self.next_id = self.next_id + 1;
        self.headers.push(
            Header {
                id,
                system_id,
                name: detector.name.as_str().to_owned(),
                version: detector.version.as_str().to_owned(),
                start_offset: detector.rule.start_offset.as_str().to_owned(),
                end_offset: detector.rule.end_offset.as_str().to_owned(),
                operation: detector.rule.operation.as_str().to_owned(),
            },
        );
        id
    }

    /// Update a header row in place from the declared detector; identity
    /// stays.
    pub fn update_header(&mut self, i: usize, detector: &DatDetector)
        requires
            old(self).wf(),
            i < old(self).headers@.len(),
        ensures
            final(self).wf(),
            final(self).headers@.len() == old(self).headers@.len(),
            forall|j: int|
                0 <= j < old(self).headers@.len() && j != i ==> #[trigger] final(self).headers@[j]
                    == old(self).headers@[j],
            final(self).headers@[i as int].id == old(self).headers@[i as int].id,
            final(self).headers@[i as int].system_id == old(self).headers@[i as int].system_id,
            final(self).headers@[i as int].name@ == detector.name@,
            final(self).headers@[i as int].version@ == detector.version@,
            final(self).headers@[i as int].start_offset@ == detector.rule.start_offset@,
            final(self).headers@[i as int].end_offset@ == detector.rule.end_offset@,
            final(self).headers@[i as int].operation@ == detector.rule.operation@,
            final(self).systems@ == old(self).systems@,
            final(self).rules@ == old(self).rules@,
            final(self).games@ == old(self).games@,
            final(self).roms@ == old(self).roms@,
            final(self).romfiles@ == old(self).romfiles@,
            final(self).next_id == old(self).next_id,
    {
        let row = &mut self.headers[i];
        row.name = detector.name.as_str().to_owned();
        row.version = detector.version.as_str().to_owned();
        row.start_offset = detector.rule.start_offset.as_str().to_owned();
        row.end_offset = detector.rule.end_offset.as_str().to_owned();
        row.operation = detector.rule.operation.as_str().to_owned();
    }

    /// Delete every rule belonging to a header: rules are fully replaced on
    /// header update.
    pub fn delete_rules_by_header_id(&mut self, header_id: i64)
        requires
            old(self).wf(),
        ensures
            final(self).wf(),
            forall|j: int|
                0 <= j < final(self).rules@.len() ==> #[trigger] final(self).rules@[j].header_id
                    != header_id,
            forall|j: int|
                0 <= j < final(self).rules@.len() ==> old(self).rules@.contains(
                    #[trigger] final(self).rules@[j],
                ),
            forall|j: int|
                0 <= j < old(self).rules@.len() && old(self).rules@[j].header_id != header_id
                    ==> final(self).rules@.contains(#[trigger] old(self).rules@[j]),
            final(self).systems@ == old(self).systems@,
            final(self).headers@ == old(self).headers@,
            final(self).games@ == old(self).games@,
            final(self).roms@ == old(self).roms@,
            final(self).romfiles@ == old(self).romfiles@,
            final(self).next_id == old(self).next_id,
    {
        let mut kept: Vec<Rule> = Vec::new();
        let ghost mut srcs: Seq<int> = Seq::empty();
        let mut k: usize = 0;
        while k < self.rules.len()
            invariant
                k <= self.rules@.len(),
                srcs.len() == kept@.len(),
                forall|u: int| 0 <= u < srcs.len() ==> 0 <= #[trigger] srcs[u] < k,
                forall|u: int, v: int| 0 <= u < v < srcs.len() ==> srcs[u] < srcs[v],
                forall|u: int|
                    0 <= u < kept@.len() ==> #[trigger] kept@[u] == self.rules@[srcs[u]],
                forall|u: int|
                    0 <= u < kept@.len() ==> #[trigger] kept@[u].header_id != header_id,
                forall|j: int|
                    0 <= j < k && self.rules@[j].header_id != header_id ==> kept@.contains(
                        #[trigger] self.rules@[j],
                    ),
            decreases self.rules@.len() - k,
        {
            let row = &self.rules[k];
            if row.header_id != header_id {
                let copied = Rule {
                    id: row.id,
                    header_id: row.header_id,
                    offset: row.offset.clone(),
                    value: row.value.clone(),
                };
                let ghost prev = kept@;
                proof {
                    assert(copied == self.rules@[k as int]);
                    srcs = srcs.push(k as int);
                }
                kept.push(copied);
                proof {
                    assert forall|j: int|
                        0 <= j < k + 1 && self.rules@[j].header_id != header_id implies kept@
                        .contains(#[trigger] self.rules@[j]) by {
                        if j < k {
                            let u = choose|u: int| 0 <= u < prev.len() && prev[u] == self.rules@[j];
                            assert(kept@[u] == self.rules@[j]);
                        } else {
                            assert(kept@[kept@.len() - 1] == self.rules@[j]);
                        }
                    }
                }
            }
            k += 1;
        }
        proof {
            assert forall|u: int, v: int| 0 <= u < v < kept@.len() implies #[trigger] kept@[u].id
                != #[trigger] kept@[v].id by {
                let i = srcs[u];
                let j = srcs[v];
                assert(kept@[u] == self.rules@[i]);
                assert(kept@[v] == self.rules@[j]);
                assert((*self).ids_distinct());
                assert(0 <= i < j < self.rules@.len());
                assert(self.rules@[i].id != self.rules@[j].id);
            }
            assert forall|u: int| 0 <= u < kept@.len() implies old(self).rules@.contains(
                #[trigger] kept@[u],
            ) by {
                assert(kept@[u] == self.rules@[srcs[u]]);
            }
        }
        self.rules = kept;
    }

    /// Create one rule row under a header from a declared data test.
    pub fn create_rule(&mut self, data: &DatRuleData, header_id: i64) -> (id: i64)
        requires
            old(self).wf(),
            old(self).next_id < i64::MAX,
            header_id < old(self).next_id,
        ensures
            final(self).wf(),
            id == old(self).next_id,
            final(self).next_id == old(self).next_id + 1,
            final(self).rules@.len() == old(self).rules@.len() + 1,
            forall|j: int|
                0 <= j < old(self).rules@.len() ==> #[trigger] final(self).rules@[j] == old(
                    self,
                ).rules@[j],
            final(self).rules@.last().id == id,
            final(self).rules@.last().header_id == header_id,
            final(self).rules@.last().offset@ == data.offset@,
            final(self).rules@.last().value@ == data.value@,
            final(self).systems@ == old(self).systems@,
            final(self).headers@ == old(self).headers@,
            final(self).games@ == old(self).games@,
            final(self).roms@ == old(self).roms@,
            final(self).romfiles@ == old(self).romfiles@,
    {
        let id = self.next_id;
        self.next_id = self.next_id + 1;
        self.rules.push(
            Rule {
                id,
                header_id,
                offset: data.offset.as_str().to_owned(),
                value: data.value.as_str().to_owned(),
            },
        );
        id
    }

    /// Look a game up by its identity key (name, bios, system_id).
    pub fn find_game_by_name_and_bios_and_system_id(
        &self,
        name: &str,
        bios: bool,
        system_id: i64,
    ) -> (r: Option<usize>)
        ensures
            match r {
                Some(i) => i < self.games@.len() && game_keyed(
                    self.games@[i as int],
                    name@,
                    bios,
                    system_id,
                ),
                None => !has_game(self.games@, name@, bios, system_id),
            },
    {
        let mut i: usize = 0;
        while i < self.games.len()
            invariant
                i <= self.games@.len(),
                forall|j: int|
                    0 <= j < i ==> !game_keyed(#[trigger] self.games@[j], name@, bios, system_id),
            decreases self.games@.len() - i,
        {
            let g = &self.games[i];
            if g.bios == bios && g.system_id == system_id && str_eq(g.name.as_str(), name) {
                return Some(i);
            }
            i += 1;
        }
        None
    }

    /// Look a game up by its id.
    pub fn find_game_by_id(&self, id: i64) -> (r: Option<usize>)
        ensures
            match r {
                Some(i) => i < self.games@.len() && self.games@[i as int].id == id,
                None => forall|j: int| 0 <= j < self.games@.len() ==> #[trigger] self.games@[j].id != id,
            },
    {
        let mut i: usize = 0;
        while i < self.games.len()
            invariant
                i <= self.games@.len(),
                forall|j: int| 0 <= j < i ==> #[trigger] self.games@[j].id != id,
            decreases self.games@.len() - i,
        {
            if self.games[i].id == id {
                return Some(i);
            }
            i += 1;
        }
        None
    }

    /// Create a game row with the given linkage; new games are not complete.
    pub fn create_game(
        &mut self,
        name: &str,
        regions: &str,
        system_id: i64,
        bios: bool,
        parent_id: Option<i64>,
        bios_id: Option<i64>,
    ) -> (id: i64)
        requires
            old(self).wf(),
            old(self).next_id < i64::MAX,
            system_id < old(self).next_id,
            opt_lt(parent_id, old(self).next_id),
            opt_lt(bios_id, old(self).next_id),
            !has_game(old(self).games@, name@, bios, system_id),
        ensures
            final(self).wf(),
            id == old(self).next_id,
            final(self).next_id == old(self).next_id + 1,
            final(self).games@.len() == old(self).games@.len() + 1,
            forall|j: int|
                0 <= j < old(self).games@.len() ==> #[trigger] final(self).games@[j] == old(
                    self,
                ).games@[j],
            final(self).games@.last().id == id,
            final(self).games@.last().name@ == name@,
            final(self).games@.last().regions@ == regions@,
            final(self).games@.last().system_id == system_id,
            final(self).games@.last().bios == bios,
            final(self).games@.last().parent_id == parent_id,
            final(self).games@.last().bios_id == bios_id,
            final(self).games@.last().complete == false,
            final(self).systems@ == old(self).systems@,
            final(self).headers@ == old(self).headers@,
            final(self).rules@ == old(self).rules@,
            final(self).roms@ == old(self).roms@,
            final(self).romfiles@ == old(self).romfiles@,
    {
        let id = self.next_id;
        self.next_id = self.next_id + 1;
        self.games.push(
            Game {
                id,
                name: name.to_owned(),
                regions: regions.to_owned(),
                system_id,
                bios,
                parent_id,
                bios_id,
                complete: false,
            },
        );
        id
    }

    /// Update a game row in place with freshly computed regions and linkage;
    /// identity and completion flag stay.
    pub fn update_game(
        &mut self,
        i: usize,
        regions: &str,
        parent_id: Option<i64>,
        bios_id: Option<i64>,
    )
        requires
            old(self).wf(),
            i < old(self).games@.len(),
            opt_lt(parent_id, old(self).next_id),
            opt_lt(bios_id, old(self).next_id),
        ensures
            final(self).wf(),
            final(self).games@.len() == old(self).games@.len(),
            forall|j: int|
                0 <= j < old(self).games@.len() && j != i ==> #[trigger] final(self).games@[j]
                    == old(self).games@[j],
            final(self).games@[i as int].id == old(self).games@[i as int].id,
            final(self).games@[i as int].name@ == old(self).games@[i as int].name@,
            final(self).games@[i as int].regions@ == regions@,
            final(self).games@[i as int].system_id == old(self).games@[i as int].system_id,
            final(self).games@[i as int].bios == old(self).games@[i as int].bios,
            final(self).games@[i as int].parent_id == parent_id,
            final(self).games@[i as int].bios_id == bios_id,
            final(self).games@[i as int].complete == old(self).games@[i as int].complete,
            final(self).systems@ == old(self).systems@,
            final(self).headers@ == old(self).headers@,
            final(self).rules@ == old(self).rules@,
            final(self).roms@ == old(self).roms@,
            final(self).romfiles@ == old(self).romfiles@,
            final(self).next_id == old(self).next_id,
    {
        let row = &mut self.games[i];
        row.regions = regions.to_owned();
        row.parent_id = parent_id;
        row.bios_id = bios_id;
    }

    /// Flip a game's completion flag.
    pub fn update_game_complete(&mut self, i: usize, complete: bool)
        requires
            old(self).wf(),
            i < old(self).games@.len(),
        ensures
            final(self).wf(),
            final(self).games@.len() == old(self).games@.len(),
            forall|j: int|
                0 <= j < old(self).games@.len() && j != i ==> #[trigger] final(self).games@[j]
                    == old(self).games@[j],
            final(self).games@[i as int] == (Game { complete, ..old(self).games@[i as int] }),
            final(self).systems@ == old(self).systems@,
            final(self).headers@ == old(self).headers@,
            final(self).rules@ == old(self).rules@,
            final(self).roms@ == old(self).roms@,
            final(self).romfiles@ == old(self).romfiles@,
            final(self).next_id == old(self).next_id,
    {
        let row = &mut self.games[i];
        row.complete = complete;
    }

    /// Flip a system's completion flag.
    pub fn update_system_complete(&mut self, i: usize, complete: bool)
        requires
            old(self).wf(),
            i < old(self).systems@.len(),
        ensures
            final(self).wf(),
            final(self).systems@.len() == old(self).systems@.len(),
            forall|j: int|
                0 <= j < old(self).systems@.len() && j != i ==> #[trigger] final(self).systems@[j]
                    == old(self).systems@[j],
            final(self).systems@[i as int] == (System { complete, ..old(self).systems@[i as int] }),
            final(self).headers@ == old(self).headers@,
            final(self).rules@ == old(self).rules@,
            final(self).games@ == old(self).games@,
            final(self).roms@ == old(self).roms@,
            final(self).romfiles@ == old(self).romfiles@,
            final(self).next_id == old(self).next_id,
    {
        let row = &mut self.systems[i];
        row.complete = complete;
    }

    /// Look a rom up by its identity key (name, game_id).
    pub fn find_rom_by_name_and_game_id(&self, name: &str, game_id: i64) -> (r: Option<usize>)
        ensures
            match r {
                Some(i) => i < self.roms@.len() && rom_keyed(self.roms@[i as int], name@, game_id),
                None => !has_rom(self.roms@, name@, game_id),
            },
    {
        let mut i: usize = 0;
        while i < self.roms.len()
            invariant
                i <= self.roms@.len(),
                forall|j: int| 0 <= j < i ==> !rom_keyed(#[trigger] self.roms@[j], name@, game_id),
            decreases self.roms@.len() - i,
        {
            let r = &self.roms[i];
            if r.game_id == game_id && str_eq(r.name.as_str(), name) {
                return Some(i);
            }
            i += 1;
        }
        None
    }

    /// Look up a rom of a game by its declared size and CRC: how a merge
    /// reference locates its source in the parent or bios game.
    pub fn find_rom_by_size_and_crc_and_game_id(&self, size: i64, crc: &str, game_id: i64) -> (r:
        Option<usize>)
        ensures
            match r {
                Some(i) => i < self.roms@.len() && self.roms@[i as int].size == size
                    && self.roms@[i as int].crc@ == crc@ && self.roms@[i as int].game_id == game_id,
                None => forall|j: int|
                    0 <= j < self.roms@.len() ==> !(#[trigger] self.roms@[j].size == size
                        && self.roms@[j].crc@ == crc@ && self.roms@[j].game_id == game_id),
            },
    {
        let mut i: usize = 0;
        while i < self.roms.len()
            invariant
                i <= self.roms@.len(),
                forall|j: int|
                    0 <= j < i ==> !(#[trigger] self.roms@[j].size == size && self.roms@[j].crc@
                        == crc@ && self.roms@[j].game_id == game_id),
            decreases self.roms@.len() - i,
        {
            let r = &self.roms[i];
            if r.game_id == game_id && r.size == size && str_eq(r.crc.as_str(), crc) {
                return Some(i);
            }
            i += 1;
        }
        None
    }

    /// Create a rom row; new roms have no romfile association yet.
    pub fn create_rom(
        &mut self,
        name: &str,
        bios: bool,
        size: i64,
        crc: &str,
        game_id: i64,
        parent_id: Option<i64>,
    ) -> (id: i64)
        requires
            old(self).wf(),
            old(self).next_id < i64::MAX,
            game_id < old(self).next_id,
            opt_lt(parent_id, old(self).next_id),
            !has_rom(old(self).roms@, name@, game_id),
        ensures
            final(self).wf(),
            id == old(self).next_id,
            final(self).next_id == old(self).next_id + 1,
            final(self).roms@.len() == old(self).roms@.len() + 1,
            forall|j: int|
                0 <= j < old(self).roms@.len() ==> #[trigger] final(self).roms@[j] == old(
                    self,
                ).roms@[j],
            final(self).roms@.last().id == id,
            final(self).roms@.last().name@ == name@,
            final(self).roms@.last().bios == bios,
            final(self).roms@.last().size == size,
            final(self).roms@.last().crc@ == crc@,
            final(self).roms@.last().game_id == game_id,
            final(self).roms@.last().parent_id == parent_id,
            final(self).roms@.last().romfile_id is None,
            final(self).systems@ == old(self).systems@,
            final(self).headers@ == old(self).headers@,
            final(self).rules@ == old(self).rules@,
            final(self).games@ == old(self).games@,
            final(self).romfiles@ == old(self).romfiles@,
    {
        let id = self.next_id;
        self.next_id = self.next_id + 1;
        self.roms.push(
            Rom {
                id,
                name: name.to_owned(),
                bios,
                size,
                crc: crc.to_owned(),
                game_id,
                parent_id,
                romfile_id: None,
            },
        );
        id
    }

    /// Update a rom row in place with its freshly declared identity and
    /// linkage; the key, the id and the romfile association stay.
    pub fn update_rom(&mut self, i: usize, bios: bool, size: i64, crc: &str, parent_id: Option<i64>)
        requires
            old(self).wf(),
            i < old(self).roms@.len(),
            opt_lt(parent_id, old(self).next_id),
        ensures
            final(self).wf(),
            final(self).roms@.len() == old(self).roms@.len(),
            forall|j: int|
                0 <= j < old(self).roms@.len() && j != i ==> #[trigger] final(self).roms@[j] == old(
                    self,
                ).roms@[j],
            final(self).roms@[i as int].id == old(self).roms@[i as int].id,
            final(self).roms@[i as int].name@ == old(self).roms@[i as int].name@,
            final(self).roms@[i as int].bios == bios,
            final(self).roms@[i as int].size == size,
            final(self).roms@[i as int].crc@ == crc@,
            final(self).roms@[i as int].game_id == old(self).roms@[i as int].game_id,
            final(self).roms@[i as int].parent_id == parent_id,
            final(self).roms@[i as int].romfile_id == old(self).roms@[i as int].romfile_id,
            final(self).systems@ == old(self).systems@,
            final(self).headers@ == old(self).headers@,
            final(self).rules@ == old(self).rules@,
            final(self).games@ == old(self).games@,
            final(self).romfiles@ == old(self).romfiles@,
            final(self).next_id == old(self).next_id,
    {
        let row = &mut self.roms[i];
        row.bios = bios;
        row.size = size;
        row.crc = crc.to_owned();
        row.parent_id = parent_id;
    }

    /// Attach or detach a rom's romfile association.
    pub fn update_rom_romfile(&mut self, i: usize, romfile_id: Option<i64>)
        requires
            old(self).wf(),
            i < old(self).roms@.len(),
            opt_lt(romfile_id, old(self).next_id),
        ensures
            final(self).wf(),
            final(self).roms@.len() == old(self).roms@.len(),
            forall|j: int|
                0 <= j < old(self).roms@.len() && j != i ==> #[trigger] final(self).roms@[j] == old(
                    self,
                ).roms@[j],
            final(self).roms@[i as int] == (Rom { romfile_id, ..old(self).roms@[i as int] }),
            final(self).systems@ == old(self).systems@,
            final(self).headers@ == old(self).headers@,
            final(self).rules@ == old(self).rules@,
            final(self).games@ == old(self).games@,
            final(self).romfiles@ == old(self).romfiles@,
            final(self).next_id == old(self).next_id,
    {
        let row = &mut self.roms[i];
        row.romfile_id = romfile_id;
    }

    /// Register a physical file the external importer has hashed; this core
    /// itself only ever detaches or deletes romfiles.
    pub fn create_romfile(&mut self, path: &str) -> (id: i64)
        requires
            old(self).wf(),
            old(self).next_id < i64::MAX,
        ensures
            final(self).wf(),
            id == old(self).next_id,
            final(self).next_id == old(self).next_id + 1,
            final(self).romfiles@.len() == old(self).romfiles@.len() + 1,
            forall|j: int|
                0 <= j < old(self).romfiles@.len() ==> #[trigger] final(self).romfiles@[j] == old(
                    self,
                ).romfiles@[j],
            final(self).romfiles@.last().id == id,
            final(self).romfiles@.last().path@ == path@,
            final(self).systems@ == old(self).systems@,
            final(self).headers@ == old(self).headers@,
            final(self).rules@ == old(self).rules@,
            final(self).games@ == old(self).games@,
            final(self).roms@ == old(self).roms@,
    {
        let id = self.next_id;
        self.next_id = self.next_id + 1;
        self.romfiles.push(RomFile { id, path: path.to_owned() });
        id
    }

    /// Look a romfile up by its id.
    pub fn find_romfile_by_id(&self, id: i64) -> (r: Option<usize>)
        ensures
            match r {
                Some(i) => i < self.romfiles@.len() && self.romfiles@[i as int].id == id,
                None => forall|j: int|
                    0 <= j < self.romfiles@.len() ==> #[trigger] self.romfiles@[j].id != id,
            },
    {
        let mut i: usize = 0;
        while i < self.romfiles.len()
            invariant
                i <= self.romfiles@.len(),
                forall|j: int| 0 <= j < i ==> #[trigger] self.romfiles@[j].id != id,
            decreases self.romfiles@.len() - i,
        {
            if self.romfiles[i].id == id {
                return Some(i);
            }
            i += 1;
        }
        None
    }

    /// Delete a romfile row by index.
    pub fn delete_romfile(&mut self, i: usize)
        requires
            old(self).wf(),
            i < old(self).romfiles@.len(),
        ensures
            final(self).wf(),
            final(self).romfiles@ == old(self).romfiles@.remove(i as int),
            final(self).systems@ == old(self).systems@,
            final(self).headers@ == old(self).headers@,
            final(self).rules@ == old(self).rules@,
            final(self).games@ == old(self).games@,
            final(self).roms@ == old(self).roms@,
            final(self).next_id == old(self).next_id,
    {
        self.romfiles.remove(i);
    }
}

} // verus!
