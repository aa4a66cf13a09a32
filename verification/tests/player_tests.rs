use soundfont_player::default_font::default_bank_bytes;
use soundfont_player::errors::ErrorKind;
use soundfont_player::ids::derive_preset_id;
use soundfont_player::player::SoundfontPlayer;
use soundfont_player::sf2::{parse_presets, sf2_validate};

const DEFAULT_BANK: &str = "sin.sf2 (default)";

fn render_frames(p: &mut SoundfontPlayer, frames: usize) -> Vec<(f32, f32)> {
    let mut out = Vec::new();
    for _ in 0..frames {
        let mut buf = [0.0f32; 2];
        p.engine.write(&mut buf[..]);
        out.push((buf[0], buf[1]));
    }
    out
}

#[test]
fn fresh_player_reports_default_bank() {
    let p = SoundfontPlayer::new().expect("player construction");
    let snap = p.snapshot();
    assert_eq!(snap.banks.len(), 1);
    assert_eq!(snap.banks[0].bank_id, DEFAULT_BANK);
    assert_eq!(snap.banks[0].presets.len(), 1);
    let preset = &snap.banks[0].presets[0];
    assert_eq!(preset.name, "Sine Wave");
    assert_eq!(preset.bank_number, 0);
    assert_eq!(preset.program_number, 0);
    let expected_id = format!("{}-Sine Wave-0-0", DEFAULT_BANK);
    assert_eq!(preset.preset_id, expected_id);
    let current = snap.current_preset.expect("a default selection");
    assert_eq!(current.bank_id, DEFAULT_BANK);
    assert_eq!(current.preset_id, expected_id);
}

#[test]
fn default_bank_bytes_are_a_valid_bank() {
    let data = default_bank_bytes();
    assert!(sf2_validate(&data));
    let presets = parse_presets(&data);
    assert_eq!(presets.len(), 1);
    assert_eq!(presets[0].name, "Sine Wave");
    assert_eq!(presets[0].bank_number, 0);
    assert_eq!(presets[0].program_number, 0);
}

#[test]
fn validator_rejects_junk() {
    assert!(!sf2_validate(b"not a soundfont at all"));
    assert!(!sf2_validate(b""));
    assert!(!sf2_validate(b"RIFFxxxxWAVE"));
}

#[test]
fn silence_before_any_note() {
    let mut p = SoundfontPlayer::new().expect("player construction");
    let frames = render_frames(&mut p, 100);
    assert_eq!(frames.len(), 100);
    for (l, r) in frames {
        assert_eq!(l, 0.0);
        assert_eq!(r, 0.0);
    }
}

#[test]
fn note_on_produces_sound() {
    let mut p = SoundfontPlayer::new().expect("player construction");
    p.note_on(60, 100);
    let frames = render_frames(&mut p, 1000);
    assert!(frames.iter().any(|&(l, r)| l != 0.0 || r != 0.0));
}

#[test]
fn rendering_is_deterministic() {
    let run = || {
        let mut p = SoundfontPlayer::new().expect("player construction");
        let mut bits: Vec<(u32, u32)> = Vec::new();
        p.note_on(60, 100);
        for (l, r) in render_frames(&mut p, 300) {
            bits.push((l.to_bits(), r.to_bits()));
        }
        p.engine.set_gain(0.4);
        p.note_on(64, 90);
        for (l, r) in render_frames(&mut p, 300) {
            bits.push((l.to_bits(), r.to_bits()));
        }
        p.note_off(60);
        for (l, r) in render_frames(&mut p, 200) {
            bits.push((l.to_bits(), r.to_bits()));
        }
        bits
    };
    assert_eq!(run(), run());
}

#[test]
fn duplicate_bank_id_rejected() {
    let mut p = SoundfontPlayer::new().expect("player construction");
    let data = default_bank_bytes();
    p.add_bank("a", &data).expect("first registration");
    let again = p.add_bank("a", &data);
    assert_eq!(again.unwrap_err(), ErrorKind::DuplicateId);
    let snap = p.snapshot();
    let named_a = snap.banks.iter().filter(|b| b.bank_id == "a").count();
    assert_eq!(named_a, 1);
}

#[test]
fn garbage_bank_bytes_rejected() {
    let mut p = SoundfontPlayer::new().expect("player construction");
    let r = p.add_bank("x", b"garbage bytes");
    assert_eq!(r.unwrap_err(), ErrorKind::DecodeError);
    assert_eq!(p.snapshot().banks.len(), 1);
}

#[test]
fn add_bank_returns_summary() {
    let mut p = SoundfontPlayer::new().expect("player construction");
    let data = default_bank_bytes();
    let summary = p.add_bank("a", &data).expect("registration");
    assert_eq!(summary.bank_id, "a");
    assert_eq!(summary.presets.len(), 1);
    assert_eq!(summary.presets[0].preset_id, "a-Sine Wave-0-0");
}

#[test]
fn select_updates_snapshot() {
    let mut p = SoundfontPlayer::new().expect("player construction");
    let data = default_bank_bytes();
    let summary = p.add_bank("a", &data).expect("registration");
    let pid = summary.presets[0].preset_id.clone();
    p.select("a", &pid).expect("selection");
    let snap = p.snapshot();
    let current = snap.current_preset.expect("a selection");
    assert_eq!(current.bank_id, "a");
    assert_eq!(current.preset_id, pid);
}

#[test]
fn failed_select_leaves_selection() {
    let mut p = SoundfontPlayer::new().expect("player construction");
    let before = p.snapshot().current_preset.expect("default selection");
    let r = p.select("missing", "x");
    assert_eq!(r.unwrap_err(), ErrorKind::BankNotFound);
    let after = p.snapshot().current_preset.expect("selection kept");
    assert_eq!(after.bank_id, before.bank_id);
    assert_eq!(after.preset_id, before.preset_id);

    let data = default_bank_bytes();
    p.add_bank("a", &data).expect("registration");
    let r = p.select("a", "no such preset");
    assert_eq!(r.unwrap_err(), ErrorKind::PresetNotFound);
    let after = p.snapshot().current_preset.expect("selection kept");
    assert_eq!(after.bank_id, before.bank_id);
    assert_eq!(after.preset_id, before.preset_id);
}

#[test]
fn select_twice_is_idempotent() {
    let mut p = SoundfontPlayer::new().expect("player construction");
    let data = default_bank_bytes();
    let summary = p.add_bank("a", &data).expect("registration");
    let pid = summary.presets[0].preset_id.clone();
    p.select("a", &pid).expect("first selection");
    let program_one = p.engine.program(0).expect("program");
    let snap_one = p.snapshot();
    p.select("a", &pid).expect("second selection");
    let program_two = p.engine.program(0).expect("program");
    let snap_two = p.snapshot();
    assert_eq!(program_one.1, program_two.1);
    assert_eq!(program_one.2, program_two.2);
    let one = snap_one.current_preset.expect("selection");
    let two = snap_two.current_preset.expect("selection");
    assert_eq!(one.bank_id, two.bank_id);
    assert_eq!(one.preset_id, two.preset_id);
}

#[test]
fn find_bank_and_preset() {
    let mut p = SoundfontPlayer::new().expect("player construction");
    let data = default_bank_bytes();
    p.add_bank("a", &data).expect("registration");
    let bank = p.find_bank("a").expect("bank present");
    assert_eq!(bank.presets.len(), 1);
    assert!(p.find_bank("b").is_none());
    let preset = p.find_preset("a", "a-Sine Wave-0-0").expect("preset present");
    assert_eq!(preset.name, "Sine Wave");
    assert!(p.find_preset("a", "nope").is_none());
    assert!(p.find_preset("b", "a-Sine Wave-0-0").is_none());
}

#[test]
fn derived_ids_concatenate_fields() {
    assert_eq!(derive_preset_id("bank", "name", 12, 34), "bank-name-12-34");
    assert_eq!(derive_preset_id("b", "", 0, 0), "b--0-0");
}

#[test]
fn derived_ids_distinguish_dashed_names() {
    // names holding dashes never collide with different numbers, because
    // the two numeric fields are recovered from the right
    let a = derive_preset_id("b", "x-1", 2, 3);
    let b = derive_preset_id("b", "x", 1, 23);
    let c = derive_preset_id("b", "x", 12, 3);
    assert_ne!(a, b);
    assert_ne!(a, c);
    assert_ne!(b, c);
}

#[test]
fn preset_ids_unique_within_bank() {
    let mut p = SoundfontPlayer::new().expect("player construction");
    let data = default_bank_bytes();
    p.add_bank("a", &data).expect("registration");
    let snap = p.snapshot();
    for bank in &snap.banks {
        for i in 0..bank.presets.len() {
            for j in (i + 1)..bank.presets.len() {
                assert_ne!(bank.presets[i].preset_id, bank.presets[j].preset_id);
            }
        }
    }
}

#[test]
fn error_messages_are_nonempty() {
    let kinds = [
        ErrorKind::DuplicateId,
        ErrorKind::DecodeError,
        ErrorKind::BankNotFound,
        ErrorKind::PresetNotFound,
        ErrorKind::ProgramSelectError,
        ErrorKind::UnsupportedFormat,
        ErrorKind::ArchiveReadError,
        ErrorKind::NoUsableEntries,
    ];
    for k in kinds {
        assert!(!k.message().is_empty());
    }
}

#[test]
fn out_of_range_program_clears_selection() {
    let mut p = SoundfontPlayer::new().expect("player construction");
    let mut data = default_bank_bytes();
    // raise the first preset-header record's program number to 300, past
    // the engine's program range (the field sits after the twenty-byte
    // name of the first record of the preset-header table)
    data[478] = 44;
    data[479] = 1;
    let summary = p.add_bank("wide", &data).expect("registration");
    assert_eq!(summary.presets[0].program_number, 300);
    let pid = summary.presets[0].preset_id.clone();
    let r = p.select("wide", &pid);
    assert_eq!(r.unwrap_err(), ErrorKind::ProgramSelectError);
    assert!(p.snapshot().current_preset.is_none());
}

#[test]
fn version_one_banks_are_accepted() {
    let mut p = SoundfontPlayer::new().expect("player construction");
    let mut data = default_bank_bytes();
    // the major version sits first in the version record's content
    data[32] = 1;
    assert!(sf2_validate(&data));
    p.add_bank("v1", &data).expect("registration");
    assert!(p.find_bank("v1").is_some());
}
