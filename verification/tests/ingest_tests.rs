use std::io::Write;

use soundfont_player::default_font::default_bank_bytes;
use soundfont_player::errors::ErrorKind;
use soundfont_player::player::SoundfontPlayer;

fn build_zip(entries: &[(&str, &[u8])]) -> Vec<u8> {
    let cursor = std::io::Cursor::new(Vec::new());
    let mut writer = zip::ZipWriter::new(cursor);
    let options = zip::write::SimpleFileOptions::default();
    for (name, data) in entries {
        writer.start_file(name.to_string(), options).expect("zip entry");
        writer.write_all(data).expect("zip entry data");
    }
    writer.finish().expect("zip finish").into_inner()
}

fn build_tar_gz(entries: &[(&str, &[u8])]) -> Vec<u8> {
    let mut builder = tar::Builder::new(Vec::new());
    for (name, data) in entries {
        let mut header = tar::Header::new_gnu();
        header.set_size(data.len() as u64);
        header.set_mode(0o644);
        builder
            .append_data(&mut header, name, &data[..])
            .expect("tar entry");
    }
    let tar_bytes = builder.into_inner().expect("tar finish");
    let mut encoder = flate2::write::GzEncoder::new(Vec::new(), flate2::Compression::default());
    encoder.write_all(&tar_bytes).expect("gzip data");
    encoder.finish().expect("gzip finish")
}

fn bank_names(p: &SoundfontPlayer) -> Vec<String> {
    p.snapshot().banks.iter().map(|b| b.bank_id.clone()).collect()
}

#[test]
fn single_bank_file_ingest() {
    let mut p = SoundfontPlayer::new().expect("player construction");
    let data = default_bank_bytes();
    let report = p.ingest("solo.sf2", &data).expect("ingestion");
    assert_eq!(report.added, 1);
    assert_eq!(report.failed, 0);
    assert!(bank_names(&p).contains(&"solo.sf2".to_string()));
}

#[test]
fn single_bank_file_duplicate() {
    let mut p = SoundfontPlayer::new().expect("player construction");
    let data = default_bank_bytes();
    p.ingest("solo.sf2", &data).expect("first ingestion");
    let r = p.ingest("solo.sf2", &data);
    assert_eq!(r.unwrap_err(), ErrorKind::DuplicateId);
}

#[test]
fn zip_ingest_tallies_entries() {
    let mut p = SoundfontPlayer::new().expect("player construction");
    let valid = default_bank_bytes();
    let archive = build_zip(&[
        ("a.sf2", valid.as_slice()),
        ("b.sf2", valid.as_slice()),
        ("bad.sf2", b"this entry is not a bank"),
        ("readme.txt", b"irrelevant"),
    ]);
    let report = p.ingest("pack.zip", &archive).expect("ingestion");
    assert_eq!(report.added, 2);
    assert_eq!(report.failed, 1);
    let names = bank_names(&p);
    assert!(names.contains(&"a.sf2".to_string()));
    assert!(names.contains(&"b.sf2".to_string()));
    assert!(!names.contains(&"bad.sf2".to_string()));
}

#[test]
fn zip_with_no_usable_entries() {
    let mut p = SoundfontPlayer::new().expect("player construction");
    let archive = build_zip(&[
        ("bad.sf2", b"this entry is not a bank".as_slice()),
        ("readme.txt", b"irrelevant"),
    ]);
    let r = p.ingest("pack.zip", &archive);
    assert_eq!(r.unwrap_err(), ErrorKind::NoUsableEntries);
    assert_eq!(p.snapshot().banks.len(), 1);
}

#[test]
fn tar_gz_ingest_uses_basenames() {
    let mut p = SoundfontPlayer::new().expect("player construction");
    let valid = default_bank_bytes();
    let archive = build_tar_gz(&[
        ("dir/c.sf2", valid.as_slice()),
        ("bad.sf2", b"this entry is not a bank"),
        ("notes.txt", b"irrelevant"),
    ]);
    let report = p.ingest("pack.tar.gz", &archive).expect("ingestion");
    assert_eq!(report.added, 1);
    assert_eq!(report.failed, 1);
    assert!(bank_names(&p).contains(&"c.sf2".to_string()));
}

#[test]
fn tgz_suffix_is_accepted() {
    let mut p = SoundfontPlayer::new().expect("player construction");
    let valid = default_bank_bytes();
    let archive = build_tar_gz(&[("d.sf2", valid.as_slice())]);
    let report = p.ingest("pack.tgz", &archive).expect("ingestion");
    assert_eq!(report.added, 1);
}

#[test]
fn tar_duplicate_basenames_collide() {
    let mut p = SoundfontPlayer::new().expect("player construction");
    let valid = default_bank_bytes();
    let archive = build_tar_gz(&[
        ("one/a.sf2", valid.as_slice()),
        ("two/a.sf2", valid.as_slice()),
    ]);
    let report = p.ingest("pack.tar.gz", &archive).expect("ingestion");
    assert_eq!(report.added, 1);
    assert_eq!(report.failed, 1);
}

#[test]
fn unknown_container_rejected() {
    let mut p = SoundfontPlayer::new().expect("player construction");
    let r = p.ingest("music.wav", b"whatever");
    assert_eq!(r.unwrap_err(), ErrorKind::UnsupportedFormat);
}

#[test]
fn corrupt_archives_rejected() {
    let mut p = SoundfontPlayer::new().expect("player construction");
    let r = p.ingest("pack.zip", b"not a zip archive");
    assert_eq!(r.unwrap_err(), ErrorKind::ArchiveReadError);
    let r = p.ingest("pack.tar.gz", b"not gzip data");
    assert_eq!(r.unwrap_err(), ErrorKind::ArchiveReadError);
    assert_eq!(p.snapshot().banks.len(), 1);
}

#[test]
fn ingestion_leaves_selection_alone() {
    let mut p = SoundfontPlayer::new().expect("player construction");
    let before = p.snapshot().current_preset.expect("default selection");
    let valid = default_bank_bytes();
    let archive = build_zip(&[("a.sf2", valid.as_slice())]);
    p.ingest("pack.zip", &archive).expect("ingestion");
    let after = p.snapshot().current_preset.expect("selection kept");
    assert_eq!(before.bank_id, after.bank_id);
    assert_eq!(before.preset_id, after.preset_id);
}
