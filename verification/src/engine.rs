//! The trusted boundary to the synthesis engine.
//!
//! The engine is modelled by observations of a `Synth` value: `synth_fonts`
//! — which installed font handle holds which set of `(bank_number,
//! program_number)` pairs; `synth_program` — the pair the default channel
//! is routed to, or nothing while no preset is routed there;
//! `has_default_channel` — that the default channel exists; `offset_free`
//! — that no bank-number offset has been installed (this library never
//! installs one); `mods_bounded` — that every installed font keeps every
//! zone's modulator list within half the engine's fixed per-voice
//! modulator capacity, so a global and a local zone never overrun it
//! together; and `notes_started` — the engine's note sequence counter,
//! which counts the note-on commands it has accepted with a nonzero
//! velocity. Every wrapper below states how the call it makes moves these
//! observations, as the engine's source shows.

use vstd::prelude::*;

use crate::sf2::{sf2_keys, sf2_ok};

verus! {

#[verifier::external_type_specification]
#[verifier::external_body]
pub struct ExSynth(oxisynth::Synth);

#[verifier::external_type_specification]
#[verifier::external_body]
pub struct ExSoundFont(oxisynth::SoundFont);

#[verifier::external_type_specification]
#[verifier::external_body]
#[verifier::reject_recursive_types(T)]
pub struct ExIndex<T>(oxisynth::Index<T>);

#[verifier::external_type_specification]
#[verifier::external_body]
pub struct ExOxiError(oxisynth::OxiError);

/// The `(bank_number, program_number)` pairs of the presets a loaded font
/// holds.
pub uninterp spec fn font_keys(f: oxisynth::SoundFont) -> Set<(u32, u32)>;

/// The fonts installed in the engine, by handle, each with its preset
/// pairs.
pub uninterp spec fn synth_fonts(s: oxisynth::Synth) -> Map<
    oxisynth::SoundFontId,
    Set<(u32, u32)>,
>;

/// The `(bank_number, program_number)` pair the default channel is routed
/// to; nothing while no preset was ever routed there.
pub uninterp spec fn synth_program(s: oxisynth::Synth) -> Option<(u32, u32)>;

/// Whether the engine carries no bank-number offsets (this library never
/// installs one).
pub uninterp spec fn offset_free(s: oxisynth::Synth) -> bool;

/// Whether the engine has its default channel (every synthesizer built
/// with at least the default channel count does).
pub uninterp spec fn has_default_channel(s: oxisynth::Synth) -> bool;

/// Whether every installed font keeps every zone's modulator list within
/// half the engine's fixed per-voice modulator capacity.
pub uninterp spec fn mods_bounded(s: oxisynth::Synth) -> bool;

/// Whether a loaded font keeps every zone's modulator list within half the
/// engine's fixed per-voice modulator capacity.
pub uninterp spec fn font_mods_ok(f: oxisynth::SoundFont) -> bool;

/// The engine's note sequence counter: how many note-on commands it has
/// accepted with a nonzero velocity.
pub uninterp spec fn notes_started(s: oxisynth::Synth) -> int;

/// Whether the engine's decoder accepts these bytes; a function of the
/// bytes alone.
pub uninterp spec fn font_ok(b: Seq<u8>) -> bool;

/// What the model observes of a synthesizer nothing was done to.
pub open spec fn fresh_synth(s: oxisynth::Synth) -> bool {
    &&& synth_fonts(s) == Map::<oxisynth::SoundFontId, Set<(u32, u32)>>::empty()
    &&& synth_program(s) is None
    &&& offset_free(s)
    &&& has_default_channel(s)
    &&& mods_bounded(s)
    &&& notes_started(s) == 0
}

/// Relies on oxisynth::Synth::new and SynthDescriptor's defaults: a fresh
/// synthesizer holds no fonts, routes no preset on the default channel,
/// and carries no bank offsets; the default settings are valid, so
/// construction succeeds. The reverb and chorus units are switched off so
/// that a silent engine writes exact zero samples.
#[verifier::external_body]
pub fn new_synth() -> (s: oxisynth::Synth)
    ensures
        fresh_synth(s),
{
    let desc = oxisynth::SynthDescriptor {
        reverb_active: false,
        chorus_active: false,
        ..Default::default()
    };
    oxisynth::Synth::new(desc).unwrap_or_default()
}

/// Relies on oxisynth::SoundFont::load: on bytes of the validated shape it
/// returns without panicking; on success the font holds at least the
/// bank/program pairs the metadata parser lists — the decoder drops only
/// terminal-tagged records, and the parser's terminal filter is the wider
/// of the two — and, because the validated shape bounds every zone record's
/// modulator span, every zone's modulator list stays within half the
/// engine's per-voice capacity.
#[verifier::external_body]
pub fn load_font(data: &[u8]) -> (r: Option<oxisynth::SoundFont>)
    requires
        sf2_ok(data@),
    ensures
        r is Some <==> font_ok(data@),
        r matches Some(f) ==> sf2_keys(data@).subset_of(font_keys(f)),
        r matches Some(f) ==> font_mods_ok(f),
{
    let mut cursor = std::io::Cursor::new(data);
    oxisynth::SoundFont::load(&mut cursor).ok()
}

/// Relies on oxisynth::Synth::add_font with `reset_presets` false: it
/// stores the font under a handle distinct from every installed one and
/// leaves channel routing, bank offsets, the channel layout and the note
/// counter alone.
#[verifier::external_body]
pub fn install_font(s: &mut oxisynth::Synth, font: oxisynth::SoundFont) -> (id:
    oxisynth::SoundFontId)
    ensures
        !synth_fonts(*old(s)).dom().contains(id),
        synth_fonts(*final(s)) == synth_fonts(*old(s)).insert(id, font_keys(font)),
        synth_program(*final(s)) == synth_program(*old(s)),
        offset_free(*final(s)) == offset_free(*old(s)),
        has_default_channel(*final(s)) == has_default_channel(*old(s)),
        mods_bounded(*final(s)) == (mods_bounded(*old(s)) && font_mods_ok(font)),
        notes_started(*final(s)) == notes_started(*old(s)),
{
    s.add_font(font, false)
}

/// Relies on oxisynth::Synth::remove_font without a preset reset: it hands
/// the stored font back and drops its handle; the channels re-resolve their
/// programs among the remaining fonts, so the routed pair either stays or
/// becomes nothing; offsets are only ever removed, and the channel layout
/// and note counter are untouched.
#[verifier::external_body]
pub fn engine_remove_font(s: &mut oxisynth::Synth, id: oxisynth::SoundFontId) -> (r: Option<
    oxisynth::SoundFont,
>)
    ensures
        synth_fonts(*final(s)) == synth_fonts(*old(s)).remove(id),
        r is Some <==> synth_fonts(*old(s)).dom().contains(id),
        r matches Some(f) ==> font_keys(f) == synth_fonts(*old(s))[id],
        mods_bounded(*old(s)) ==> (r matches Some(f) ==> font_mods_ok(f)),
        mods_bounded(*old(s)) ==> mods_bounded(*final(s)),
        offset_free(*old(s)) ==> offset_free(*final(s)),
        has_default_channel(*final(s)) == has_default_channel(*old(s)),
        notes_started(*final(s)) == notes_started(*old(s)),
        synth_program(*final(s)) == synth_program(*old(s)) || synth_program(*final(s)) is None,
{
    s.remove_font(id, false)
}

/// Relies on oxisynth::Synth::select_program: with no bank offsets and the
/// default channel present, it succeeds on that channel exactly when the
/// named font is installed and holds the bank/program pair; on success it
/// routes the channel to that pair, on failure it changes nothing; fonts,
/// offsets, the channel layout and the note counter are never touched.
#[verifier::external_body]
pub fn engine_select_program(
    s: &mut oxisynth::Synth,
    channel: u8,
    id: oxisynth::SoundFontId,
    bank: u32,
    program: u8,
) -> (r: Result<(), oxisynth::OxiError>)
    ensures
        synth_fonts(*final(s)) == synth_fonts(*old(s)),
        offset_free(*final(s)) == offset_free(*old(s)),
        has_default_channel(*final(s)) == has_default_channel(*old(s)),
        mods_bounded(*final(s)) == mods_bounded(*old(s)),
        notes_started(*final(s)) == notes_started(*old(s)),
        channel == 0 && r is Ok ==> synth_program(*final(s)) == Some((bank, program as u32)),
        channel != 0 ==> synth_program(*final(s)) == synth_program(*old(s)),
        r is Err ==> synth_program(*final(s)) == synth_program(*old(s)),
        channel == 0 && offset_free(*old(s)) && has_default_channel(*old(s)) ==> (r is Ok
            <==> synth_fonts(*old(s)).dom().contains(id) && synth_fonts(*old(s))[id].contains(
            (bank, program as u32),
        )),
{
    s.select_program(channel, id, bank, program)
}

/// Relies on oxisynth::Synth::send_event with a note-on event: it leaves
/// fonts, routing and offsets alone, and succeeds whenever the key and
/// velocity are in MIDI range, the default channel exists and has a preset
/// routed, and the installed fonts' zone modulator lists are bounded (the
/// engine collects a zone pair's modulators into a fixed list when it
/// starts voices); a zero velocity acts as a note-off. An accepted
/// nonzero-velocity note-on advances the note counter by exactly one;
/// nothing else does.
#[verifier::external_body]
pub fn engine_note_on(s: &mut oxisynth::Synth, channel: u8, key: u8, vel: u8) -> (r: Result<
    (),
    oxisynth::OxiError,
>)
    ensures
        synth_fonts(*final(s)) == synth_fonts(*old(s)),
        synth_program(*final(s)) == synth_program(*old(s)),
        offset_free(*final(s)) == offset_free(*old(s)),
        has_default_channel(*final(s)) == has_default_channel(*old(s)),
        mods_bounded(*final(s)) == mods_bounded(*old(s)),
        channel == 0 && key < 128 && vel < 128 && has_default_channel(*old(s)) && mods_bounded(
            *old(s),
        ) && synth_program(*old(s)) is Some ==> r is Ok,
        r is Ok && vel >= 1 ==> notes_started(*final(s)) == notes_started(*old(s)) + 1,
        vel == 0 || r is Err ==> notes_started(*final(s)) == notes_started(*old(s)),
{
    s.send_event(oxisynth::MidiEvent::NoteOn { channel, key, vel })
}

/// Relies on oxisynth::Synth::send_event with a note-off event: it leaves
/// fonts, routing, offsets, the channel layout and the note counter alone,
/// and succeeds whenever the key is in MIDI range and the default channel
/// exists.
#[verifier::external_body]
pub fn engine_note_off(s: &mut oxisynth::Synth, channel: u8, key: u8) -> (r: Result<
    (),
    oxisynth::OxiError,
>)
    ensures
        synth_fonts(*final(s)) == synth_fonts(*old(s)),
        synth_program(*final(s)) == synth_program(*old(s)),
        offset_free(*final(s)) == offset_free(*old(s)),
        has_default_channel(*final(s)) == has_default_channel(*old(s)),
        mods_bounded(*final(s)) == mods_bounded(*old(s)),
        notes_started(*final(s)) == notes_started(*old(s)),
        channel == 0 && key < 128 && has_default_channel(*old(s)) ==> r is Ok,
{
    s.send_event(oxisynth::MidiEvent::NoteOff { channel, key })
}

} // verus!
