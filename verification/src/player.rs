//! The player core: bank registry, preset selector and state snapshot.
//!
//! The registry owns every loaded bank's metadata and its decoded font
//! data; the engine holds at most one installed font — the currently
//! selected bank's — and each selection performs the swap protocol: reset
//! the installed font (its data returns to its bank), install the resolved
//! bank's data, and program-select the default channel. The player's
//! well-formedness invariant ties the three parts together: bank ids are
//! unique, every preset id is the documented derivation over its bank's
//! id, every bank's decoded data covers the bank's preset pairs, exactly
//! the selected bank's data is in the engine, and a routed selection
//! always names a registered preset.

use vstd::prelude::*;

use crate::engine::{
    engine_note_off, engine_note_on, engine_remove_font, engine_select_program, font_keys,
    font_mods_ok, font_ok, has_default_channel, install_font, load_font, mods_bounded, new_synth,
    notes_started, offset_free, synth_fonts, synth_program,
};
use crate::errors::ErrorKind;
use crate::ids::{derive_preset_id, preset_id_chars};
use crate::sf2::{
    lemma_sort_presets_elements, lemma_sort_presets_len, parse_presets, sf2_keys, sf2_ok,
    sf2_presets, sf2_validate, sort_preset_metas, sort_presets, PresetMeta,
};

verus! {

/// The engine's single playable channel.
const DEFAULT_CHANNEL: u8 = 0;

/// One selectable instrument of a loaded bank.
#[derive(Debug)]
pub struct Preset {
    /// The owning bank's id.
    pub bank_id: String,
    /// The derived stable id, unique within the bank.
    pub preset_id: String,
    /// The display name from the bank metadata.
    pub name: String,
    /// The numeric namespace within the bank.
    pub bank_number: u32,
    /// The numeric slot within `bank_number`.
    pub program_number: u32,
}

impl Preset {
    /// An equal copy of the preset record.
    pub fn duplicate(&self) -> (r: Preset)
        ensures
            r.bank_id@ == self.bank_id@,
            r.preset_id@ == self.preset_id@,
            r.name@ == self.name@,
            r.bank_number == self.bank_number,
            r.program_number == self.program_number,
    {
        Preset {
            bank_id: self.bank_id.clone(),
            preset_id: self.preset_id.clone(),
            name: self.name.clone(),
            bank_number: self.bank_number,
            program_number: self.program_number,
        }
    }
}

/// One loaded bank: its id and its ordered presets. The bank's decoded
/// font data is owned by the registry beside it, and moves into the engine
/// only while the bank is the selected one.
pub struct Bank {
    /// The caller-supplied id, unique in the registry.
    pub bank_id: String,
    /// The bank's presets, in bank-metadata order.
    pub presets: Vec<Preset>,
}

/// The selector's current routing, by bank and preset id.
pub struct Selection {
    /// The selected bank's id.
    pub bank_id: String,
    /// The selected preset's id within that bank.
    pub preset_id: String,
}

/// Which bank's font data is installed in the engine, and under which
/// handle.
#[derive(Clone, Copy)]
struct InstalledFont {
    index: usize,
    handle: oxisynth::SoundFontId,
}

/// The player: registry, selector and engine in one owner.
pub struct SoundfontPlayer {
    /// The synthesis engine. Rendering, gain and sample rate go straight to
    /// it; bank management and selection go through the player's methods. A
    /// host must leave the engine's font, program and bank-offset state to
    /// those methods.
    pub engine: oxisynth::Synth,
    banks: Vec<Bank>,
    fonts: Vec<Option<oxisynth::SoundFont>>,
    installed: Option<InstalledFont>,
    current: Option<Selection>,
}

/// A preset record is the documented derivation over its owning bank's id.
pub open spec fn preset_wf(bank_id: Seq<char>, p: Preset) -> bool {
    &&& p.bank_id@ == bank_id
    &&& p.preset_id@ == preset_id_chars(bank_id, p.name@, p.bank_number, p.program_number)
}

/// Every preset pair of the list is in the key set.
pub open spec fn bank_keys_in(ps: Seq<Preset>, ks: Set<(u32, u32)>) -> bool {
    forall|i: int|
        0 <= i < ps.len() ==> ks.contains(
            (#[trigger] ps[i].bank_number, ps[i].program_number),
        )
}

/// A bank is well formed: its presets carry derived ids.
pub open spec fn bank_wf(b: Bank) -> bool {
    forall|i: int| 0 <= i < b.presets@.len() ==> preset_wf(b.bank_id@, #[trigger] b.presets@[i])
}

/// A bank's stored font data, when present, covers the bank's preset pairs
/// and keeps its zone modulator lists within the engine's capacity.
pub open spec fn bank_font_wf(b: Bank, data: Option<oxisynth::SoundFont>) -> bool {
    data matches Some(f) ==> bank_keys_in(b.presets@, font_keys(f)) && font_mods_ok(f)
}

/// First index at or after `i` whose bank carries `id`, or -1.
pub open spec fn find_bank_at(banks: Seq<Bank>, id: Seq<char>, i: int) -> int
    decreases banks.len() - i,
{
    if i < 0 || i >= banks.len() {
        -1
    } else if banks[i].bank_id@ == id {
        i
    } else {
        find_bank_at(banks, id, i + 1)
    }
}

/// Whether some bank carries `id`.
pub open spec fn has_bank(banks: Seq<Bank>, id: Seq<char>) -> bool {
    find_bank_at(banks, id, 0) >= 0
}

/// First index at or after `i` whose preset carries `pid`, or -1.
pub open spec fn find_preset_at(ps: Seq<Preset>, pid: Seq<char>, i: int) -> int
    decreases ps.len() - i,
{
    if i < 0 || i >= ps.len() {
        -1
    } else if ps[i].preset_id@ == pid {
        i
    } else {
        find_preset_at(ps, pid, i + 1)
    }
}

/// Whether the bank holds a preset with `pid`.
pub open spec fn has_preset(b: Bank, pid: Seq<char>) -> bool {
    find_preset_at(b.presets@, pid, 0) >= 0
}

/// The selector state as id views.
pub open spec fn sel_view(c: Option<Selection>) -> Option<(Seq<char>, Seq<char>)> {
    match c {
        Some(s) => Some((s.bank_id@, s.preset_id@)),
        None => None,
    }
}

/// A selection names a registered preset.
pub open spec fn sel_valid(banks: Seq<Bank>, c: Option<Selection>) -> bool {
    match c {
        Some(s) => {
            let bi = find_bank_at(banks, s.bank_id@, 0);
            bi >= 0 && has_preset(banks[bi], s.preset_id@)
        },
        None => true,
    }
}

/// Relies on str's PartialEq: two string slices are equal exactly when
/// their character sequences are.
#[verifier::external_body]
fn str_eq(a: &str, b: &str) -> (r: bool)
    ensures
        r == (a@ == b@),
{
    a == b
}

proof fn lemma_find_bank_bounds(banks: Seq<Bank>, id: Seq<char>, i: int)
    requires
        0 <= i <= banks.len(),
    ensures
        find_bank_at(banks, id, i) == -1 || i <= find_bank_at(banks, id, i) < banks.len(),
        find_bank_at(banks, id, i) >= 0 ==> banks[find_bank_at(banks, id, i)].bank_id@ == id,
    decreases banks.len() - i,
{
    if i < banks.len() && banks[i].bank_id@ != id {
        lemma_find_bank_bounds(banks, id, i + 1);
    }
}

proof fn lemma_find_preset_bounds(ps: Seq<Preset>, pid: Seq<char>, i: int)
    requires
        0 <= i <= ps.len(),
    ensures
        find_preset_at(ps, pid, i) == -1 || i <= find_preset_at(ps, pid, i) < ps.len(),
        find_preset_at(ps, pid, i) >= 0 ==> ps[find_preset_at(ps, pid, i)].preset_id@ == pid,
    decreases ps.len() - i,
{
    if i < ps.len() && ps[i].preset_id@ != pid {
        lemma_find_preset_bounds(ps, pid, i + 1);
    }
}

impl SoundfontPlayer {
    /// The registry's banks, for contracts.
    pub closed spec fn banks_view(&self) -> Seq<Bank> {
        self.banks@
    }

    /// The engine's routed program, for contracts.
    pub closed spec fn program_view(&self) -> Option<(u32, u32)> {
        synth_program(self.engine)
    }

    /// The engine's installed fonts, for contracts.
    pub closed spec fn fonts_view(&self) -> Map<oxisynth::SoundFontId, Set<(u32, u32)>> {
        synth_fonts(self.engine)
    }

    /// The selector state, for contracts.
    pub closed spec fn current_view(&self) -> Option<(Seq<char>, Seq<char>)> {
        sel_view(self.current)
    }

    /// The registry index of the bank whose data is installed in the
    /// engine, for contracts.
    pub closed spec fn installed_view(&self) -> Option<int> {
        match self.installed {
            Some(inst) => Some(inst.index as int),
            None => None,
        }
    }

    /// The engine's note sequence counter, for contracts.
    pub closed spec fn notes_view(&self) -> int {
        notes_started(self.engine)
    }

    /// The player's invariant.
    pub closed spec fn wf(&self) -> bool {
        &&& self.banks@.len() >= 1
        &&& self.fonts@.len() == self.banks@.len()
        &&& forall|i: int, j: int|
            0 <= i < j < self.banks@.len() ==> (#[trigger] self.banks@[i].bank_id@)
                != (#[trigger] self.banks@[j].bank_id@)
        &&& forall|i: int| 0 <= i < self.banks@.len() ==> bank_wf(#[trigger] self.banks@[i])
        &&& forall|i: int|
            0 <= i < self.banks@.len() ==> bank_font_wf(
                #[trigger] self.banks@[i],
                self.fonts@[i],
            )
        &&& match self.installed {
            Some(inst) => {
                &&& inst.index < self.banks@.len()
                &&& self.fonts@[inst.index as int] is None
                &&& forall|i: int|
                    0 <= i < self.fonts@.len() && i != inst.index ==> (
                    #[trigger] self.fonts@[i]) is Some
                &&& synth_fonts(self.engine).dom() == set![inst.handle]
                &&& bank_keys_in(
                    self.banks@[inst.index as int].presets@,
                    synth_fonts(self.engine)[inst.handle],
                )
            },
            None => {
                &&& forall|i: int| 0 <= i < self.fonts@.len() ==> (#[trigger] self.fonts@[i]) is Some
                &&& synth_fonts(self.engine) == Map::<oxisynth::SoundFontId, Set<(u32, u32)>>::empty()
            },
        }
        &&& synth_program(self.engine) is Some
        &&& offset_free(self.engine)
        &&& has_default_channel(self.engine)
        &&& mods_bounded(self.engine)
        &&& sel_valid(self.banks@, self.current)
    }

    /// Looks a bank up by id: the first (and, by the invariant, only) bank
    /// carrying it.
    #[verifier::loop_isolation(false)]
    pub fn find_bank(&self, bank_id: &str) -> (r: Option<&Bank>)
        ensures
            match r {
                Some(b) => {
                    let bi = find_bank_at(self.banks_view(), bank_id@, 0);
                    bi >= 0 && *b == self.banks_view()[bi]
                },
                None => !has_bank(self.banks_view(), bank_id@),
            },
    {
        let ghost banks = self.banks@;
        let n = self.banks.len();
        let mut i: usize = 0;
        while i < n
            invariant
                banks == self.banks@,
                n == banks.len(),
                i <= n,
                find_bank_at(banks, bank_id@, 0) == find_bank_at(banks, bank_id@, i as int),
            decreases n - i,
        {
            if str_eq(self.banks[i].bank_id.as_str(), bank_id) {
                return Some(&self.banks[i]);
            }
            i = i + 1;
        }
        None
    }

    /// Looks a preset up by bank id, then preset id, each first match.
    #[verifier::loop_isolation(false)]
    pub fn find_preset(&self, bank_id: &str, preset_id: &str) -> (r: Option<&Preset>)
        ensures
            match r {
                Some(p) => {
                    let bi = find_bank_at(self.banks_view(), bank_id@, 0);
                    let b = self.banks_view()[bi];
                    let pi = find_preset_at(b.presets@, preset_id@, 0);
                    bi >= 0 && pi >= 0 && *p == b.presets@[pi]
                },
                None => !has_bank(self.banks_view(), bank_id@) || !has_preset(
                    self.banks_view()[find_bank_at(self.banks_view(), bank_id@, 0)],
                    preset_id@,
                ),
            },
    {
        let bank = match self.find_bank(bank_id) {
            Some(b) => b,
            None => {
                return None;
            },
        };
        let ghost ps = bank.presets@;
        let n = bank.presets.len();
        let mut i: usize = 0;
        while i < n
            invariant
                ps == bank.presets@,
                n == ps.len(),
                i <= n,
                find_preset_at(ps, preset_id@, 0) == find_preset_at(ps, preset_id@, i as int),
            decreases n - i,
        {
            if str_eq(bank.presets[i].preset_id.as_str(), preset_id) {
                proof {
                    lemma_find_bank_bounds(self.banks_view(), bank_id@, 0);
                    assert(find_preset_at(ps, preset_id@, i as int) == i as int);
                }
                return Some(&bank.presets[i]);
            }
            i = i + 1;
        }
        None
    }
}

} // verus!

verus! {

/// The summary of one bank, as `add_bank` returns it and as snapshots list
/// it: the id and the ordered preset records.
#[derive(Debug)]
pub struct BankSummary {
    /// The bank's id.
    pub bank_id: String,
    /// The bank's presets, in bank-metadata order.
    pub presets: Vec<Preset>,
}

/// The read-only view a user interface polls: every bank in insertion
/// order, and the current selection.
pub struct Snapshot {
    /// One summary per registered bank, in insertion order.
    pub banks: Vec<BankSummary>,
    /// The selector's current routing, if any.
    pub current_preset: Option<Selection>,
}

/// Bytes a registry accepts as a bank: the validated container shape, and
/// the engine's decoder accepting them.
pub open spec fn bank_ok(b: Seq<u8>) -> bool {
    sf2_ok(b) && font_ok(b)
}

/// Two preset records carry the same data.
pub open spec fn preset_eq(a: Preset, b: Preset) -> bool {
    &&& a.bank_id@ == b.bank_id@
    &&& a.preset_id@ == b.preset_id@
    &&& a.name@ == b.name@
    &&& a.bank_number == b.bank_number
    &&& a.program_number == b.program_number
}

/// Two preset lists carry the same data.
pub open spec fn presets_eq(a: Seq<Preset>, b: Seq<Preset>) -> bool {
    a.len() == b.len() && forall|i: int| 0 <= i < a.len() ==> preset_eq(#[trigger] a[i], b[i])
}

/// The preset list a bank must carry for `bank_id` and the metadata
/// entries `metas`: one record per entry, in order, with the derived id.
pub open spec fn presets_match(
    ps: Seq<Preset>,
    bank_id: Seq<char>,
    metas: Seq<(Seq<char>, u32, u32)>,
) -> bool {
    &&& ps.len() == metas.len()
    &&& forall|i: int|
        0 <= i < ps.len() ==> {
            &&& (#[trigger] ps[i]).bank_id@ == bank_id
            &&& ps[i].name@ == metas[i].0
            &&& ps[i].bank_number == metas[i].1
            &&& ps[i].program_number == metas[i].2
            &&& ps[i].preset_id@ == preset_id_chars(bank_id, metas[i].0, metas[i].1, metas[i].2)
        }
}

/// The preset `select(bank_id, preset_id)` resolves: the first matching
/// preset of the first matching bank.
pub open spec fn resolved_preset(
    banks: Seq<Bank>,
    bank_id: Seq<char>,
    preset_id: Seq<char>,
) -> Option<Preset> {
    let bi = find_bank_at(banks, bank_id, 0);
    if bi < 0 {
        None
    } else {
        let pi = find_preset_at(banks[bi].presets@, preset_id, 0);
        if pi < 0 {
            None
        } else {
            Some(banks[bi].presets@[pi])
        }
    }
}

proof fn lemma_find_bank_none(banks: Seq<Bank>, id: Seq<char>, i: int)
    requires
        0 <= i <= banks.len(),
        find_bank_at(banks, id, i) == -1,
    ensures
        forall|j: int| i <= j < banks.len() ==> (#[trigger] banks[j].bank_id@) != id,
    decreases banks.len() - i,
{
    if i < banks.len() {
        lemma_find_bank_none(banks, id, i + 1);
    }
}

proof fn lemma_find_bank_push(banks: Seq<Bank>, b: Bank, id: Seq<char>, i: int)
    requires
        0 <= i <= banks.len(),
    ensures
        find_bank_at(banks, id, i) >= 0 ==> find_bank_at(banks.push(b), id, i) == find_bank_at(
            banks,
            id,
            i,
        ),
    decreases banks.len() - i,
{
    if i < banks.len() {
        assert(banks.push(b)[i] == banks[i]);
        lemma_find_bank_push(banks, b, id, i + 1);
    }
}

fn build_presets(bank_id: &str, metas: &Vec<PresetMeta>) -> (r: Vec<Preset>)
    ensures
        presets_match(r@, bank_id@, metas@.map_values(|m: PresetMeta| m@)),
{
    let ghost goal = metas@.map_values(|m: PresetMeta| m@);
    let mut r: Vec<Preset> = Vec::new();
    let n = metas.len();
    let mut i: usize = 0;
    while i < n
        invariant
            n == metas@.len(),
            goal == metas@.map_values(|m: PresetMeta| m@),
            i <= n,
            presets_match(r@, bank_id@, goal.subrange(0, i as int)),
            r@.len() == i,
        decreases n - i,
    {
        let m = &metas[i];
        let preset_id = derive_preset_id(bank_id, m.name.as_str(), m.bank_number, m.program_number);
        let p = Preset {
            bank_id: bank_id.to_owned(),
            preset_id,
            name: m.name.clone(),
            bank_number: m.bank_number,
            program_number: m.program_number,
        };
        r.push(p);
        proof {
            assert(goal.subrange(0, i as int + 1) =~= goal.subrange(0, i as int).push(
                goal[i as int],
            ));
        }
        i = i + 1;
    }
    proof {
        assert(goal.subrange(0, n as int) =~= goal);
    }
    r
}

fn duplicate_presets(ps: &Vec<Preset>) -> (r: Vec<Preset>)
    ensures
        presets_eq(r@, ps@),
{
    let mut r: Vec<Preset> = Vec::new();
    let n = ps.len();
    let mut i: usize = 0;
    while i < n
        invariant
            n == ps@.len(),
            i <= n,
            r@.len() == i,
            forall|j: int| 0 <= j < i ==> preset_eq(#[trigger] r@[j], ps@[j]),
        decreases n - i,
    {
        let p = ps[i].duplicate();
        r.push(p);
        i = i + 1;
    }
    r
}

impl SoundfontPlayer {
    /// Registers a bank. Fails with `DuplicateId` exactly when the id is
    /// already registered, and with `DecodeError` exactly when the id is
    /// fresh but the bytes are not an acceptable bank. On success the bank
    /// is appended with its decoded data owned by the registry — earlier
    /// banks, the selection and the engine (installed font, routing, note
    /// state) are untouched — its preset list is the bank's metadata in
    /// presentation order (by bank number, then program number) with
    /// derived ids, and the same summary is returned.
    #[verifier::rlimit(100)]
    #[verifier::loop_isolation(false)]
    pub fn add_bank(&mut self, bank_id: &str, data: &[u8]) -> (r: Result<BankSummary, ErrorKind>)
        requires
            old(self).wf(),
        ensures
            final(self).wf(),
            final(self).current_view() == old(self).current_view(),
            final(self).program_view() == old(self).program_view(),
            final(self).fonts_view() == old(self).fonts_view(),
            final(self).installed_view() == old(self).installed_view(),
            final(self).notes_view() == old(self).notes_view(),
            r is Ok <==> !has_bank(old(self).banks_view(), bank_id@) && bank_ok(data@),
            r == Err::<BankSummary, ErrorKind>(ErrorKind::DuplicateId) <==> has_bank(
                old(self).banks_view(),
                bank_id@,
            ),
            r == Err::<BankSummary, ErrorKind>(ErrorKind::DecodeError) <==> !has_bank(
                old(self).banks_view(),
                bank_id@,
            ) && !bank_ok(data@),
            r is Err ==> final(self).banks_view() == old(self).banks_view(),
            r is Ok ==> {
                &&& final(self).banks_view().len() == old(self).banks_view().len() + 1
                &&& (forall|i: int|
                    0 <= i < old(self).banks_view().len() ==> final(self).banks_view()[i] == old(
                        self,
                    ).banks_view()[i])
                &&& final(self).banks_view().last().bank_id@ == bank_id@
                &&& presets_match(
                    final(self).banks_view().last().presets@,
                    bank_id@,
                    sort_presets(sf2_presets(data@)),
                )
            },
            r matches Ok(s) ==> s.bank_id@ == bank_id@ && presets_match(
                s.presets@,
                bank_id@,
                sort_presets(sf2_presets(data@)),
            ),
    {
        let ghost banks0 = self.banks@;
        match self.find_bank(bank_id) {
            Some(_) => {
                return Err(ErrorKind::DuplicateId);
            },
            None => {},
        }
        if !sf2_validate(data) {
            return Err(ErrorKind::DecodeError);
        }
        let metas = parse_presets(data);
        let ordered = sort_preset_metas(&metas);
        let font = match load_font(data) {
            Some(f) => f,
            None => {
                return Err(ErrorKind::DecodeError);
            },
        };
        let presets = build_presets(bank_id, &ordered);
        let summary_presets = duplicate_presets(&presets);
        let bank = Bank { bank_id: bank_id.to_owned(), presets };
        proof {
            lemma_find_bank_bounds(banks0, bank_id@, 0);
            lemma_find_bank_none(banks0, bank_id@, 0);
        }
        self.banks.push(bank);
        self.fonts.push(Some(font));
        proof {
            let banks1 = self.banks@;
            assert forall|k: int|
                0 <= k < banks1.last().presets@.len() implies font_keys(font).contains(
                (
                    #[trigger] banks1.last().presets@[k].bank_number,
                    banks1.last().presets@[k].program_number,
                ),
            ) by {
                lemma_sort_presets_elements(sf2_presets(data@), k);
                let j = choose|j: int|
                    0 <= j < sf2_presets(data@).len() && sf2_presets(data@)[j] == sort_presets(
                        sf2_presets(data@),
                    )[k];
                let entry = sf2_presets(data@)[j];
                assert(sf2_keys(data@).contains((entry.1, entry.2)));
            }
            assert(bank_font_wf(banks1.last(), self.fonts@.last()));
            assert forall|i: int| 0 <= i < banks1.len() implies bank_font_wf(
                #[trigger] banks1[i],
                self.fonts@[i],
            ) by {
                if i < banks0.len() {
                    assert(banks1[i] == banks0[i]);
                    assert(self.fonts@[i] == old(self).fonts@[i]);
                }
            }
            let ghost cur = self.current;
            match cur {
                Some(sel) => {
                    lemma_find_bank_bounds(banks0, sel.bank_id@, 0);
                    lemma_find_bank_push(banks0, banks1.last(), sel.bank_id@, 0);
                    let bi = find_bank_at(banks0, sel.bank_id@, 0);
                    assert(banks1[bi] == banks0[bi]);
                },
                None => {},
            }
        }
        Ok(BankSummary { bank_id: bank_id.to_owned(), presets: summary_presets })
    }
}

} // verus!

verus! {

impl SoundfontPlayer {
    /// Routes the engine's playable channel to a preset. Resolution comes
    /// first: `BankNotFound` exactly when no bank carries the id, then
    /// `PresetNotFound` exactly when the bank holds no such preset, then
    /// `ProgramSelectError` exactly when the resolved preset's program
    /// number is beyond the engine's program range; on a resolution
    /// failure nothing is changed, and on the range failure the selection
    /// is cleared while the engine keeps its previous state. With the
    /// preset resolved, the swap protocol runs: the engine's installed
    /// font is reset (its data returns to its bank), the resolved bank's
    /// data is installed, and the channel is program-selected; the
    /// selection becomes the requested pair atomically with the engine's
    /// routing. The registry's catalog is never touched.
    #[verifier::rlimit(100)]
    #[verifier::loop_isolation(false)]
    pub fn select(&mut self, bank_id: &str, preset_id: &str) -> (r: Result<(), ErrorKind>)
        requires
            old(self).wf(),
        ensures
            final(self).wf(),
            final(self).banks_view() == old(self).banks_view(),
            final(self).notes_view() == old(self).notes_view(),
            r == Err::<(), ErrorKind>(ErrorKind::BankNotFound) <==> !has_bank(
                old(self).banks_view(),
                bank_id@,
            ),
            r == Err::<(), ErrorKind>(ErrorKind::PresetNotFound) <==> has_bank(
                old(self).banks_view(),
                bank_id@,
            ) && resolved_preset(old(self).banks_view(), bank_id@, preset_id@) is None,
            r == Err::<(), ErrorKind>(ErrorKind::ProgramSelectError) <==> (resolved_preset(
                old(self).banks_view(),
                bank_id@,
                preset_id@,
            ) matches Some(p) && p.program_number > 255),
            r is Ok <==> (resolved_preset(old(self).banks_view(), bank_id@, preset_id@) matches
                Some(p) && p.program_number <= 255),
            r is Ok ==> final(self).current_view() == Some((bank_id@, preset_id@)),
            r is Ok ==> final(self).program_view() == Some(
                (
                    resolved_preset(
                        old(self).banks_view(),
                        bank_id@,
                        preset_id@,
                    ).unwrap().bank_number,
                    resolved_preset(
                        old(self).banks_view(),
                        bank_id@,
                        preset_id@,
                    ).unwrap().program_number,
                ),
            ),
            r is Ok ==> final(self).installed_view() == Some(
                find_bank_at(old(self).banks_view(), bank_id@, 0),
            ) && final(self).fonts_view().dom().len() == 1,
            r is Err ==> final(self).program_view() == old(self).program_view()
                && final(self).fonts_view() == old(self).fonts_view()
                && final(self).installed_view() == old(self).installed_view(),
            r == Err::<(), ErrorKind>(ErrorKind::BankNotFound) || r == Err::<(), ErrorKind>(
                ErrorKind::PresetNotFound,
            ) ==> final(self).current_view() == old(self).current_view(),
            r == Err::<(), ErrorKind>(ErrorKind::ProgramSelectError) ==> final(self).current_view()
                is None,
    {
        let ghost banks0 = self.banks@;
        proof {
            lemma_find_bank_bounds(banks0, bank_id@, 0);
        }
        let n = self.banks.len();
        let mut bi: usize = 0;
        let mut bank_found = false;
        while !bank_found && bi < n
            invariant
                n == banks0.len(),
                banks0 == self.banks@,
                bi <= n,
                !bank_found ==> find_bank_at(banks0, bank_id@, 0) == find_bank_at(
                    banks0,
                    bank_id@,
                    bi as int,
                ),
                bank_found ==> bi < n && find_bank_at(banks0, bank_id@, 0) == bi as int,
            decreases n - bi, (if bank_found { 0int } else { 1int }),
        {
            if str_eq(self.banks[bi].bank_id.as_str(), bank_id) {
                bank_found = true;
            } else {
                bi = bi + 1;
            }
        }
        if !bank_found {
            return Err(ErrorKind::BankNotFound);
        }
        let ghost ps = self.banks@[bi as int].presets@;
        proof {
            lemma_find_preset_bounds(ps, preset_id@, 0);
        }
        let m = self.banks[bi].presets.len();
        let mut pi: usize = 0;
        let mut preset_found = false;
        while !preset_found && pi < m
            invariant
                m == ps.len(),
                ps == self.banks@[bi as int].presets@,
                bi < self.banks@.len(),
                pi <= m,
                !preset_found ==> find_preset_at(ps, preset_id@, 0) == find_preset_at(
                    ps,
                    preset_id@,
                    pi as int,
                ),
                preset_found ==> pi < m && find_preset_at(ps, preset_id@, 0) == pi as int,
            decreases m - pi, (if preset_found { 0int } else { 1int }),
        {
            if str_eq(self.banks[bi].presets[pi].preset_id.as_str(), preset_id) {
                preset_found = true;
            } else {
                pi = pi + 1;
            }
        }
        if !preset_found {
            return Err(ErrorKind::PresetNotFound);
        }
        let bank_number = self.banks[bi].presets[pi].bank_number;
        let program_number = self.banks[bi].presets[pi].program_number;
        if program_number > 255 {
            self.current = None;
            return Err(ErrorKind::ProgramSelectError);
        }
        // reset the engine's installed font: its data returns to its bank
        let ghost pre_swap = *self;
        match self.installed {
            Some(inst) => {
                let removed = engine_remove_font(&mut self.engine, inst.handle);
                match removed {
                    Some(f) => {
                        self.fonts[inst.index] = Some(f);
                    },
                    None => {
                        // the invariant says the installed handle is in the
                        // engine, so the font always comes back
                        proof {
                            assert(false);
                        }
                    },
                }
                self.installed = None;
            },
            None => {},
        }
        proof {
            assert(synth_fonts(self.engine) =~= Map::<oxisynth::SoundFontId, Set<(u32, u32)>>::empty());
            assert forall|i: int| 0 <= i < self.fonts@.len() implies (
            #[trigger] self.fonts@[i]) is Some by {
                match pre_swap.installed {
                    Some(inst) => {
                        if i != inst.index {
                            assert(self.fonts@[i] == pre_swap.fonts@[i]);
                        }
                    },
                    None => {
                        assert(self.fonts@[i] == pre_swap.fonts@[i]);
                    },
                }
            }
            assert forall|i: int| 0 <= i < self.banks@.len() implies bank_font_wf(
                #[trigger] self.banks@[i],
                self.fonts@[i],
            ) by {
                match pre_swap.installed {
                    Some(inst) => {
                        if i != inst.index {
                            assert(self.fonts@[i] == pre_swap.fonts@[i]);
                            assert(bank_font_wf(pre_swap.banks@[i], pre_swap.fonts@[i]));
                        }
                    },
                    None => {
                        assert(self.fonts@[i] == pre_swap.fonts@[i]);
                        assert(bank_font_wf(pre_swap.banks@[i], pre_swap.fonts@[i]));
                    },
                }
            }
        }
        // install the resolved bank's data
        let taken = self.fonts[bi].take();
        let font = match taken {
            Some(f) => f,
            None => {
                // every bank's data is back in the registry after the reset
                proof {
                    assert(false);
                }
                return Err(ErrorKind::ProgramSelectError);
            },
        };
        let handle = install_font(&mut self.engine, font);
        self.installed = Some(InstalledFont { index: bi, handle });
        // route the channel; the resolved pair is in the installed font
        let r = engine_select_program(
            &mut self.engine,
            DEFAULT_CHANNEL,
            handle,
            bank_number,
            program_number as u8,
        );
        match r {
            Ok(_) => {
                self.current = Some(
                    Selection { bank_id: bank_id.to_owned(), preset_id: preset_id.to_owned() },
                );
                proof {
                    lemma_find_bank_push(banks0, banks0[bi as int], bank_id@, 0);
                    assert(synth_fonts(self.engine).dom() =~= set![handle]);
                }
                Ok(())
            },
            Err(_) => {
                // the installed font covers every pair of the resolved
                // bank, so the engine cannot refuse the program
                proof {
                    assert(synth_fonts(self.engine)[handle].contains(
                        (bank_number, program_number as u32),
                    ));
                    assert(false);
                }
                Err(ErrorKind::ProgramSelectError)
            },
        }
    }

    /// Forwards a note-on to the engine's playable channel; key and
    /// velocity are MIDI values. The engine accepts the event — a nonzero
    /// velocity advances its note counter by exactly one, a zero velocity
    /// acts as a note-off — and registry, selection and engine routing are
    /// unchanged.
    pub fn note_on(&mut self, key: u8, vel: u8)
        requires
            old(self).wf(),
            key < 128,
            vel < 128,
        ensures
            final(self).wf(),
            final(self).banks_view() == old(self).banks_view(),
            final(self).current_view() == old(self).current_view(),
            final(self).program_view() == old(self).program_view(),
            final(self).fonts_view() == old(self).fonts_view(),
            final(self).installed_view() == old(self).installed_view(),
            vel >= 1 ==> final(self).notes_view() == old(self).notes_view() + 1,
            vel == 0 ==> final(self).notes_view() == old(self).notes_view(),
    {
        let r = engine_note_on(&mut self.engine, DEFAULT_CHANNEL, key, vel);
        proof {
            assert(r is Ok);
        }
    }

    /// Forwards a note-off to the engine's playable channel; the key is a
    /// MIDI value. The engine accepts the event; registry, selection,
    /// engine routing and the note counter are unchanged.
    pub fn note_off(&mut self, key: u8)
        requires
            old(self).wf(),
            key < 128,
        ensures
            final(self).wf(),
            final(self).banks_view() == old(self).banks_view(),
            final(self).current_view() == old(self).current_view(),
            final(self).program_view() == old(self).program_view(),
            final(self).fonts_view() == old(self).fonts_view(),
            final(self).installed_view() == old(self).installed_view(),
            final(self).notes_view() == old(self).notes_view(),
    {
        let r = engine_note_off(&mut self.engine, DEFAULT_CHANNEL, key);
        proof {
            assert(r is Ok);
        }
    }

    /// Reports the registry and the selection, read-only: one summary per
    /// bank in insertion order, each with equal preset records, and the
    /// current selection verbatim.
    #[verifier::loop_isolation(false)]
    pub fn snapshot(&self) -> (s: Snapshot)
        ensures
            s.banks@.len() == self.banks_view().len(),
            forall|i: int|
                0 <= i < s.banks@.len() ==> (#[trigger] s.banks@[i].bank_id@)
                    == self.banks_view()[i].bank_id@ && presets_eq(
                    s.banks@[i].presets@,
                    self.banks_view()[i].presets@,
                ),
            sel_view(s.current_preset) == self.current_view(),
    {
        let n = self.banks.len();
        let mut banks: Vec<BankSummary> = Vec::new();
        let mut i: usize = 0;
        while i < n
            invariant
                n == self.banks@.len(),
                i <= n,
                banks@.len() == i,
                forall|j: int|
                    0 <= j < i ==> (#[trigger] banks@[j].bank_id@) == self.banks@[j].bank_id@
                        && presets_eq(banks@[j].presets@, self.banks@[j].presets@),
            decreases n - i,
        {
            let b = &self.banks[i];
            let summary = BankSummary {
                bank_id: b.bank_id.clone(),
                presets: duplicate_presets(&b.presets),
            };
            banks.push(summary);
            i = i + 1;
        }
        let current_preset = match &self.current {
            Some(sel) => Some(
                Selection { bank_id: sel.bank_id.clone(), preset_id: sel.preset_id.clone() },
            ),
            None => None,
        };
        Snapshot { banks, current_preset }
    }
}

} // verus!

verus! {

/// The id under which the built-in fallback bank is registered.
pub open spec fn default_bank_id() -> Seq<char> {
    "sin.sf2 (default)"@
}

/// The id under which the built-in fallback bank is registered.
pub fn default_bank_name() -> (s: String)
    ensures
        s@ == default_bank_id(),
{
    proof {
        reveal_strlit("sin.sf2 (default)");
    }
    "sin.sf2 (default)".to_owned()
}

impl SoundfontPlayer {
    /// Builds a player: a fresh engine, the built-in fallback bank as the
    /// registry's first entry with its data installed, and that bank's
    /// first preset routed, so a note sounds with no further setup. With
    /// the embedded bank's structure validated — which it is by
    /// construction — the build succeeds exactly when the engine's decoder
    /// accepts the embedded bytes, and then the engine is routed to the
    /// first preset's numbers.
    #[verifier::rlimit(100)]
    pub fn new() -> (r: Result<SoundfontPlayer, ErrorKind>)
        ensures
            ({
                let seq = crate::default_font::default_bank_seq();
                sf2_ok(seq) && sf2_presets(seq).len() >= 1 && sort_presets(sf2_presets(seq))[0].2
                    <= 255 ==> (r is Ok <==> font_ok(seq))
            }),
            r matches Ok(p) ==> {
                let seq = crate::default_font::default_bank_seq();
                &&& p.wf()
                &&& p.banks_view().len() == 1
                &&& p.banks_view()[0].bank_id@ == default_bank_id()
                &&& presets_match(
                    p.banks_view()[0].presets@,
                    default_bank_id(),
                    sort_presets(sf2_presets(seq)),
                )
                &&& p.banks_view()[0].presets@.len() >= 1
                &&& p.current_view() == Some(
                    (default_bank_id(), p.banks_view()[0].presets@[0].preset_id@),
                )
                &&& p.program_view() == Some(
                    (
                        sort_presets(sf2_presets(seq))[0].1,
                        sort_presets(sf2_presets(seq))[0].2,
                    ),
                )
                &&& p.installed_view() == Some(0int)
                &&& p.notes_view() == 0
            },
    {
        let ghost seq = crate::default_font::default_bank_seq();
        let data = crate::default_font::default_bank_bytes();
        if !sf2_validate(data.as_slice()) {
            return Err(ErrorKind::DecodeError);
        }
        let metas = parse_presets(data.as_slice());
        let ordered = sort_preset_metas(&metas);
        let font = match load_font(data.as_slice()) {
            Some(f) => f,
            None => {
                return Err(ErrorKind::DecodeError);
            },
        };
        let mut engine = new_synth();
        let name = default_bank_name();
        let presets = build_presets(name.as_str(), &ordered);
        if presets.len() == 0 {
            proof {
                lemma_sort_presets_len(sf2_presets(seq));
            }
            return Err(ErrorKind::PresetNotFound);
        }
        let bank_number = presets[0].bank_number;
        let program_number = presets[0].program_number;
        let preset_id = presets[0].preset_id.clone();
        if program_number > 255 {
            return Err(ErrorKind::ProgramSelectError);
        }
        let handle = install_font(&mut engine, font);
        proof {
            lemma_sort_presets_len(sf2_presets(seq));
            lemma_sort_presets_elements(sf2_presets(seq), 0);
            let j = choose|j: int|
                0 <= j < sf2_presets(seq).len() && sf2_presets(seq)[j] == sort_presets(
                    sf2_presets(seq),
                )[0];
            let entry = sf2_presets(seq)[j];
            assert(sf2_keys(seq).contains((entry.1, entry.2)));
        }
        let sel = engine_select_program(
            &mut engine,
            DEFAULT_CHANNEL,
            handle,
            bank_number,
            program_number as u8,
        );
        match sel {
            Ok(_) => {},
            Err(_) => {
                // the installed font holds the embedded bank's first pair,
                // so the engine cannot refuse the program
                proof {
                    assert(false);
                }
                return Err(ErrorKind::ProgramSelectError);
            },
        }
        let bank = Bank { bank_id: name, presets };
        let mut banks: Vec<Bank> = Vec::new();
        banks.push(bank);
        let mut fonts: Vec<Option<oxisynth::SoundFont>> = Vec::new();
        fonts.push(None);
        let installed = Some(InstalledFont { index: 0, handle });
        let current = Some(
            Selection { bank_id: default_bank_name(), preset_id },
        );
        let p = SoundfontPlayer { engine, banks, fonts, installed, current };
        proof {
            let banks1 = p.banks@;
            assert(banks1.len() == 1);
            assert forall|k: int|
                0 <= k < banks1[0].presets@.len() implies synth_fonts(p.engine)[handle].contains(
                (
                    #[trigger] banks1[0].presets@[k].bank_number,
                    banks1[0].presets@[k].program_number,
                ),
            ) by {
                lemma_sort_presets_elements(sf2_presets(seq), k);
                let j = choose|j: int|
                    0 <= j < sf2_presets(seq).len() && sf2_presets(seq)[j] == sort_presets(
                        sf2_presets(seq),
                    )[k];
                let entry = sf2_presets(seq)[j];
                assert(sf2_keys(seq).contains((entry.1, entry.2)));
            }
            assert(synth_fonts(p.engine).dom() =~= set![handle]);
            assert(find_bank_at(banks1, default_bank_id(), 0) == 0);
            assert(find_preset_at(banks1[0].presets@, banks1[0].presets@[0].preset_id@, 0) == 0);
        }
        Ok(p)
    }
}

} // verus!

verus! {

proof fn lemma_find_bank_push_self(banks: Seq<Bank>, b: Bank, i: int)
    requires
        0 <= i <= banks.len(),
    ensures
        find_bank_at(banks.push(b), b.bank_id@, i) >= 0,
    decreases banks.len() - i,
{
    if i < banks.len() {
        if banks.push(b)[i].bank_id@ != b.bank_id@ {
            lemma_find_bank_push_self(banks, b, i + 1);
        }
    } else {
        assert(banks.push(b)[i] == b);
    }
}

/// A registered id stays registered: once a bank carrying `id` is appended
/// to the registry, `has_bank` holds of `id`, and `add_bank` reports
/// `DuplicateId` exactly on `has_bank` — so after one successful
/// registration of an id, every later `add_bank` with that id fails with
/// `DuplicateId`, whatever bytes it is handed.
pub proof fn lemma_registered_id_is_duplicate(banks: Seq<Bank>, b: Bank)
    ensures
        has_bank(banks.push(b), b.bank_id@),
{
    lemma_find_bank_push_self(banks, b, 0);
}

/// Within one bank, presets whose `(name, bank_number, program_number)`
/// triples are pairwise distinct get pairwise distinct derived ids: the
/// derivation is injective for a fixed bank id.
pub proof fn lemma_preset_ids_unique(bank_id: Seq<char>, ps: Seq<Preset>)
    requires
        forall|i: int| 0 <= i < ps.len() ==> preset_wf(bank_id, #[trigger] ps[i]),
        forall|i: int, j: int|
            0 <= i < j < ps.len() ==> !((#[trigger] ps[i]).name@ == (#[trigger] ps[j]).name@
                && ps[i].bank_number == ps[j].bank_number && ps[i].program_number
                == ps[j].program_number),
    ensures
        forall|i: int, j: int|
            0 <= i < j < ps.len() ==> (#[trigger] ps[i]).preset_id@ != (
            #[trigger] ps[j]).preset_id@,
{
    assert forall|i: int, j: int| 0 <= i < j < ps.len() implies (#[trigger] ps[i]).preset_id@ != (
    #[trigger] ps[j]).preset_id@ by {
        if ps[i].preset_id@ == ps[j].preset_id@ {
            crate::ids::lemma_preset_id_injective(
                bank_id,
                ps[i].name@,
                ps[i].bank_number,
                ps[i].program_number,
                ps[j].name@,
                ps[j].bank_number,
                ps[j].program_number,
            );
        }
    }
}

/// Selecting the same pair twice is idempotent: whether `select` succeeds,
/// and which program it routes, depend on the registry alone, and `select`
/// never changes the registry — so a second `select` with the arguments of
/// a successful one succeeds again and routes the engine to the same
/// program.
pub proof fn lemma_select_idempotent(
    pre: SoundfontPlayer,
    mid: SoundfontPlayer,
    bank_id: Seq<char>,
    preset_id: Seq<char>,
)
    requires
        mid.banks_view() == pre.banks_view(),
    ensures
        resolved_preset(mid.banks_view(), bank_id, preset_id) == resolved_preset(
            pre.banks_view(),
            bank_id,
            preset_id,
        ),
{
}

/// With the registry's ids pairwise distinct — which the player's
/// invariant guarantees — at most one bank carries any id: a second
/// registration under a taken id is rejected rather than stored twice.
pub proof fn lemma_bank_id_unique(banks: Seq<Bank>, id: Seq<char>)
    requires
        forall|i: int, j: int|
            0 <= i < j < banks.len() ==> (#[trigger] banks[i].bank_id@) != (
            #[trigger] banks[j].bank_id@),
    ensures
        forall|i: int, j: int|
            0 <= i < banks.len() && 0 <= j < banks.len() && (#[trigger] banks[i].bank_id@) == id
                && (#[trigger] banks[j].bank_id@) == id ==> i == j,
{
}

} // verus!


