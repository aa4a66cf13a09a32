//! Multi-format bank ingestion.
//!
//! A filename hint picks the container: a bank-file suffix means the whole
//! buffer is one bank; a gzip-compressed tar archive and a zip archive are
//! unpacked and every entry whose basename carries the bank suffix is
//! registered, the entry's name giving the bank id. One bad entry is
//! tallied and skipped, never fatal; the batch fails only when the
//! container itself is unreadable or no entry could be registered. The tar
//! container is parsed here, verified; gzip and zip decompression go
//! through the trusted boundary to the compression crates.

use vstd::prelude::*;
use vstd::slice::slice_to_vec;

use crate::errors::ErrorKind;
use crate::player::{bank_ok, find_bank_at, has_bank, Bank, SoundfontPlayer};
use crate::sf2::{ascii_string, sanitize_byte};

verus! {

/// One extracted archive entry: its path inside the archive, sanitized to
/// printable ASCII, and its raw bytes.
pub struct ArchiveEntry {
    /// The entry's path inside the archive.
    pub name: String,
    /// The entry's contents.
    pub data: Vec<u8>,
}

/// The view of an entry list: name characters and data bytes.
pub open spec fn entries_view(es: Seq<ArchiveEntry>) -> Seq<(Seq<char>, Seq<u8>)> {
    es.map_values(|e: ArchiveEntry| (e.name@, e.data@))
}

/// Whether `s` ends in `suf`.
pub open spec fn ends_with(s: Seq<char>, suf: Seq<char>) -> bool {
    s.len() >= suf.len() && s.subrange(s.len() - suf.len(), s.len() as int) == suf
}

/// Index of the last separator at or before `i`, or -1.
pub open spec fn last_slash_at(s: Seq<char>, i: int) -> int
    decreases i + 1,
{
    if i < 0 || i >= s.len() {
        -1
    } else if s[i] == '/' {
        i
    } else {
        last_slash_at(s, i - 1)
    }
}

/// The text after the last separator.
pub open spec fn basename_of(s: Seq<char>) -> Seq<char> {
    s.subrange(last_slash_at(s, s.len() - 1) + 1, s.len() as int)
}

/// Whether `s` ends in `suf`, decided character by character.
pub fn str_ends_with(s: &str, suf: &str) -> (r: bool)
    ensures
        r == ends_with(s@, suf@),
{
    let n = s.unicode_len();
    let m = suf.unicode_len();
    if n < m {
        return false;
    }
    let mut k: usize = 0;
    while k < m
        invariant
            n == s@.len(),
            m == suf@.len(),
            m <= n,
            k <= m,
            forall|j: int| 0 <= j < k ==> s@[n - m + j] == suf@[j],
        decreases m - k,
    {
        if s.get_char(n - m + k) != suf.get_char(k) {
            assert(s@[n - m + k] != suf@[k as int]);
            assert(!ends_with(s@, suf@)) by {
                if ends_with(s@, suf@) {
                    assert(s@.subrange(n - m, n as int)[k as int] == suf@[k as int]);
                }
            }
            return false;
        }
        k = k + 1;
    }
    assert(s@.subrange(n - m, n as int) =~= suf@);
    true
}

/// The basename of an archive entry path.
pub fn str_basename(s: &str) -> (r: String)
    ensures
        r@ == basename_of(s@),
{
    let n = s.unicode_len();
    let mut i: usize = n;
    while i > 0
        invariant
            n == s@.len(),
            i <= n,
            last_slash_at(s@, n - 1) == last_slash_at(s@, i - 1),
        decreases i,
    {
        if s.get_char(i - 1) == '/' {
            assert(last_slash_at(s@, i - 1) == i - 1);
            let r = s.substring_char(i, n).to_owned();
            assert(r@ =~= basename_of(s@));
            return r;
        }
        proof {
            assert(last_slash_at(s@, i - 1) == last_slash_at(s@, i - 2));
        }
        i = i - 1;
    }
    assert(last_slash_at(s@, n - 1) == -1);
    let r = s.substring_char(0, n).to_owned();
    assert(r@ =~= basename_of(s@));
    r
}

} // verus!

verus! {

/// Length of a tar entry name up to its first NUL, at most one hundred.
pub open spec fn tar_name_len(b: Seq<u8>, off: int, k: int) -> int
    decreases 100 - k,
{
    if k >= 100 {
        100
    } else if b[off + k] == 0 {
        k
    } else {
        tar_name_len(b, off, k + 1)
    }
}

/// The characters of a tar entry name: NUL-truncated, sanitized to
/// printable ASCII.
pub open spec fn tar_name_chars(b: Seq<u8>, off: int) -> Seq<char> {
    Seq::new(tar_name_len(b, off, 0) as nat, |i: int| sanitize_byte(b[off + i]) as char)
}

/// The value of the twelve-byte octal size field at `off`: leading spaces,
/// octal digits, then NUL or space; anything else is malformed.
pub open spec fn tar_octal(b: Seq<u8>, off: int, k: int, acc: int, seen: bool) -> Option<int>
    decreases 12 - k,
{
    if k >= 12 {
        if seen {
            Some(acc)
        } else {
            None
        }
    } else {
        let c = b[off + k];
        if 48 <= c <= 55 {
            if acc >= 0x8000000000 {
                None
            } else {
                tar_octal(b, off, k + 1, acc * 8 + (c - 48), true)
            }
        } else if c == 32 && !seen {
            tar_octal(b, off, k + 1, acc, false)
        } else if (c == 0 || c == 32) && seen {
            Some(acc)
        } else {
            None
        }
    }
}

/// Whether the 512 bytes at `off` are all zero, which ends the archive.
pub open spec fn zero_block(b: Seq<u8>, off: int) -> bool {
    forall|i: int| 0 <= i < 512 ==> #[trigger] b[off + i] == 0
}

/// The entries of a tar archive from block offset `off` on: each block
/// holds a name, an octal size and a type flag, and is followed by the
/// entry's bytes padded to whole blocks; plain-file entries are kept. A
/// short tail or an all-zero block ends the archive; a malformed size
/// field or an entry running past the buffer is a read error.
pub open spec fn tar_entries_spec(b: Seq<u8>, off: int) -> Option<Seq<(Seq<char>, Seq<u8>)>>
    decreases b.len() + 512 - off,
    when 0 <= off <= b.len() + 512
    via tar_entries_spec_decreases
{
    if off + 512 > b.len() {
        Some(Seq::empty())
    } else if zero_block(b, off) {
        Some(Seq::empty())
    } else {
        match tar_octal(b, off + 124, 0, 0, false) {
            None => None,
            Some(size) => {
                if off + 512 + size > b.len() {
                    None
                } else {
                    let nxt = off + 512 + ((size + 511) / 512) * 512;
                    match tar_entries_spec(b, nxt) {
                        None => None,
                        Some(rest) => {
                            if b[off + 156] == 48 || b[off + 156] == 0 {
                                Some(
                                    seq![
                                        (
                                            tar_name_chars(b, off),
                                            b.subrange(off + 512, off + 512 + size),
                                        ),
                                    ] + rest,
                                )
                            } else {
                                Some(rest)
                            }
                        },
                    }
                }
            },
        }
    }
}

#[via_fn]
proof fn tar_entries_spec_decreases(b: Seq<u8>, off: int) {
    if 0 <= off <= b.len() + 512 && off + 512 <= b.len() && !zero_block(b, off) {
        match tar_octal(b, off + 124, 0, 0, false) {
            None => {},
            Some(size) => {
                lemma_tar_octal_bound(b, off + 124, 0, 0, false);
                assert(0 <= (size + 511) / 512 * 512 <= size + 511) by (nonlinear_arith)
                    requires
                        size >= 0,
                ;
            },
        }
    }
}

proof fn lemma_tar_octal_bound(b: Seq<u8>, off: int, k: int, acc: int, seen: bool)
    requires
        0 <= k <= 12,
        0 <= acc < 0x40000000000,
    ensures
        tar_octal(b, off, k, acc, seen) matches Some(v) ==> 0 <= v < 0x40000000000,
    decreases 12 - k,
{
    if k < 12 {
        let c = b[off + k];
        if 48 <= c <= 55 && acc < 0x8000000000 {
            lemma_tar_octal_bound(b, off, k + 1, acc * 8 + (c - 48), true);
        } else if c == 32 && !seen {
            lemma_tar_octal_bound(b, off, k + 1, acc, false);
        }
    }
}

fn read_tar_name(b: &[u8], off: usize) -> (s: String)
    requires
        off + 100 <= b@.len(),
    ensures
        s@ == tar_name_chars(b@, off as int),
{
    let n = b.len();
    let mut l: usize = 0;
    while l < 100 && b[off + l] != 0
        invariant
            off + 100 <= n == b@.len(),
            l <= 100,
            tar_name_len(b@, off as int, 0) == tar_name_len(b@, off as int, l as int),
        decreases 100 - l,
    {
        l = l + 1;
    }
    assert(tar_name_len(b@, off as int, 0) == l as int);
    let mut v: Vec<u8> = Vec::new();
    let mut k: usize = 0;
    while k < l
        invariant
            off + 100 <= n == b@.len(),
            l <= 100,
            k <= l,
            v@.len() == k,
            forall|i: int| 0 <= i < k ==> v@[i] == sanitize_byte(b@[off + i]),
        decreases l - k,
    {
        let x = b[off + k];
        if 32 <= x && x <= 126 {
            v.push(x);
        } else {
            v.push(95);
        }
        k = k + 1;
    }
    let s = ascii_string(&v);
    proof {
        assert(s@ =~= tar_name_chars(b@, off as int));
    }
    s
}

fn read_tar_octal(b: &[u8], off: usize) -> (r: Option<u64>)
    requires
        off + 12 <= b@.len(),
    ensures
        match r {
            Some(v) => tar_octal(b@, off as int, 0, 0, false) == Some(v as int),
            None => tar_octal(b@, off as int, 0, 0, false) is None,
        },
{
    let n = b.len();
    let mut k: usize = 0;
    let mut acc: u64 = 0;
    let mut seen = false;
    while k < 12
        invariant
            off + 12 <= n == b@.len(),
            k <= 12,
            acc < 0x40000000000,
            tar_octal(b@, off as int, 0, 0, false) == tar_octal(
                b@,
                off as int,
                k as int,
                acc as int,
                seen,
            ),
        decreases 12 - k,
    {
        let c = b[off + k];
        if 48 <= c && c <= 55 {
            if acc >= 0x8000000000 {
                return None;
            }
            proof {
                assert(acc * 8 + 7 < 0x40000000000) by (nonlinear_arith)
                    requires
                        acc < 0x8000000000,
                ;
            }
            acc = acc * 8 + (c - 48) as u64;
            seen = true;
        } else if c == 32 && !seen {
        } else if (c == 0 || c == 32) && seen {
            return Some(acc);
        } else {
            return None;
        }
        k = k + 1;
    }
    if seen {
        Some(acc)
    } else {
        None
    }
}

fn is_zero_block(b: &[u8], off: usize) -> (r: bool)
    requires
        off + 512 <= b@.len(),
    ensures
        r == zero_block(b@, off as int),
{
    let n = b.len();
    let mut i: usize = 0;
    while i < 512
        invariant
            off + 512 <= n == b@.len(),
            i <= 512,
            forall|j: int| 0 <= j < i ==> #[trigger] b@[off + j] == 0,
        decreases 512 - i,
    {
        if b[off + i] != 0 {
            return false;
        }
        i = i + 1;
    }
    true
}

/// Unpacks a tar archive: the kept entries in order, or nothing when the
/// container structure is unreadable.
#[verifier::loop_isolation(false)]
#[verifier::rlimit(60)]
pub fn tar_entries(data: &[u8]) -> (r: Option<Vec<ArchiveEntry>>)
    ensures
        match r {
            Some(es) => tar_entries_spec(data@, 0) == Some(entries_view(es@)),
            None => tar_entries_spec(data@, 0) is None,
        },
{
    let n = data.len();
    let mut out: Vec<ArchiveEntry> = Vec::new();
    let mut off: usize = 0;
    loop
        invariant
            n == data@.len(),
            off <= n,
            tar_entries_spec(data@, 0) == (match tar_entries_spec(data@, off as int) {
                Some(rest) => Some(entries_view(out@) + rest),
                None => None::<Seq<(Seq<char>, Seq<u8>)>>,
            }),
        decreases n - off,
    {
        if n - off < 512 {
            proof {
                assert(tar_entries_spec(data@, off as int) == Some(
                    Seq::<(Seq<char>, Seq<u8>)>::empty(),
                ));
                assert(entries_view(out@) + Seq::<(Seq<char>, Seq<u8>)>::empty() =~= entries_view(
                    out@,
                ));
            }
            return Some(out);
        }
        if is_zero_block(data, off) {
            proof {
                assert(entries_view(out@) + Seq::<(Seq<char>, Seq<u8>)>::empty() =~= entries_view(
                    out@,
                ));
            }
            return Some(out);
        }
        let size = match read_tar_octal(data, off + 124) {
            Some(v) => v,
            None => {
                return None;
            },
        };
        proof {
            lemma_tar_octal_bound(data@, off as int + 124, 0, 0, false);
        }
        if size > (n - off - 512) as u64 {
            return None;
        }
        let size_us = size as usize;
        let data_end = off + 512 + size_us;
        proof {
            assert((size_us + 511) / 512 * 512 <= size_us + 511) by (nonlinear_arith);
            assert((size_us + 511) / 512 * 512 >= 0) by (nonlinear_arith);
        }
        let padded = ((size_us + 511) / 512) * 512;
        let keep = data[off + 156] == 48 || data[off + 156] == 0;
        if keep {
            let name = read_tar_name(data, off);
            let body = slice_to_vec(&data[off + 512..data_end]);
            let entry = ArchiveEntry { name, data: body };
            let ghost before = out@;
            out.push(entry);
            proof {
                assert(entries_view(out@) =~= entries_view(before).push(
                    (tar_name_chars(data@, off as int), data@.subrange(
                        off as int + 512,
                        off as int + 512 + size as int,
                    )),
                ));
            }
        }
        let nxt128 = off as u128 + 512 + padded as u128;
        if nxt128 > n as u128 {
            proof {
                assert(tar_entries_spec(data@, off as int + 512 + padded as int) == Some(
                    Seq::<(Seq<char>, Seq<u8>)>::empty(),
                ));
                assert(entries_view(out@) + Seq::<(Seq<char>, Seq<u8>)>::empty() =~= entries_view(
                    out@,
                ));
            }
            return Some(out);
        }
        off = nxt128 as usize;
    }
}

} // verus!

verus! {

/// What gzip decompression yields on these bytes, or nothing for a
/// corrupt stream; a function of the bytes alone.
pub uninterp spec fn gunzip_of(b: Seq<u8>) -> Option<Seq<u8>>;

/// Relies on flate2's GzDecoder: it inflates a gzip stream from memory to
/// memory and reports corrupt input as an error instead of panicking; the
/// result depends on the bytes alone.
#[verifier::external_body]
fn gunzip(data: &[u8]) -> (r: Option<Vec<u8>>)
    ensures
        match r {
            Some(v) => gunzip_of(data@) == Some(v@),
            None => gunzip_of(data@) is None,
        },
{
    let mut decoder = flate2::read::GzDecoder::new(data);
    let mut out = Vec::new();
    match std::io::Read::read_to_end(&mut decoder, &mut out) {
        Ok(_) => Some(out),
        Err(_) => None,
    }
}

/// The entries a zip archive unpacks to — each entry's stored path and
/// inflated bytes, in directory order — or nothing when the container or
/// one of its entries is unreadable; a function of the bytes alone.
pub uninterp spec fn zip_entries_of(b: Seq<u8>) -> Option<Seq<(Seq<char>, Seq<u8>)>>;

/// Relies on the zip crate's ZipArchive: it reads the central directory
/// and inflates entries from memory, reporting unreadable input as an
/// error instead of panicking; the result depends on the bytes alone.
/// Each loop turn only converts one entry into its name and bytes.
#[verifier::external_body]
fn zip_entries(data: &[u8]) -> (r: Option<Vec<ArchiveEntry>>)
    ensures
        match r {
            Some(es) => zip_entries_of(data@) == Some(entries_view(es@)),
            None => zip_entries_of(data@) is None,
        },
{
    let mut archive = zip::ZipArchive::new(std::io::Cursor::new(data)).ok()?;
    let mut out = Vec::new();
    for i in 0..archive.len() {
        let mut file = archive.by_index(i).ok()?;
        let name = file.name().to_string();
        let mut bytes = Vec::new();
        std::io::Read::read_to_end(&mut file, &mut bytes).ok()?;
        out.push(ArchiveEntry { name, data: bytes });
    }
    Some(out)
}

} // verus!

verus! {

/// The registered bank ids, as a set.
pub open spec fn bank_ids(banks: Seq<Bank>) -> Set<Seq<char>> {
    Set::new(|id: Seq<char>| has_bank(banks, id))
}

/// The bank-file suffix ingestion filters on.
pub open spec fn sf2_suffix() -> Seq<char> {
    ".sf2"@
}

/// The bank id an archive entry registers under: its basename for a tar
/// archive, its full entry name for a zip archive.
pub open spec fn entry_bank_id(e: (Seq<char>, Seq<u8>), use_basename: bool) -> Seq<char> {
    if use_basename {
        basename_of(e.0)
    } else {
        e.0
    }
}

/// Whether an entry is a candidate bank file: its basename carries the
/// bank suffix.
pub open spec fn entry_eligible(e: (Seq<char>, Seq<u8>)) -> bool {
    ends_with(basename_of(e.0), sf2_suffix())
}

/// Whether an entry registers, given the ids taken so far: it is a
/// candidate, its bytes are an acceptable bank, and its id is fresh.
pub open spec fn entry_registers(
    ids: Set<Seq<char>>,
    e: (Seq<char>, Seq<u8>),
    use_basename: bool,
) -> bool {
    entry_eligible(e) && bank_ok(e.1) && !ids.contains(entry_bank_id(e, use_basename))
}

/// The ids taken after the first `n` entries were offered.
pub open spec fn ids_after(
    ids: Set<Seq<char>>,
    es: Seq<(Seq<char>, Seq<u8>)>,
    n: int,
    use_basename: bool,
) -> Set<Seq<char>>
    decreases n,
{
    if n <= 0 {
        ids
    } else {
        let prev = ids_after(ids, es, n - 1, use_basename);
        if entry_registers(prev, es[n - 1], use_basename) {
            prev.insert(entry_bank_id(es[n - 1], use_basename))
        } else {
            prev
        }
    }
}

/// How many of the first `n` entries register.
pub open spec fn added_count(
    ids: Set<Seq<char>>,
    es: Seq<(Seq<char>, Seq<u8>)>,
    n: int,
    use_basename: bool,
) -> int
    decreases n,
{
    if n <= 0 {
        0
    } else {
        added_count(ids, es, n - 1, use_basename) + if entry_registers(
            ids_after(ids, es, n - 1, use_basename),
            es[n - 1],
            use_basename,
        ) {
            1int
        } else {
            0int
        }
    }
}

/// How many of the first `n` entries are candidates but fail to register.
pub open spec fn failed_count(
    ids: Set<Seq<char>>,
    es: Seq<(Seq<char>, Seq<u8>)>,
    n: int,
    use_basename: bool,
) -> int
    decreases n,
{
    if n <= 0 {
        0
    } else {
        failed_count(ids, es, n - 1, use_basename) + if entry_eligible(es[n - 1])
            && !entry_registers(ids_after(ids, es, n - 1, use_basename), es[n - 1], use_basename) {
            1int
        } else {
            0int
        }
    }
}

proof fn lemma_find_bank_push_decide(banks: Seq<Bank>, b: Bank, id: Seq<char>, i: int)
    requires
        0 <= i <= banks.len(),
    ensures
        (find_bank_at(banks.push(b), id, i) >= 0) <==> (find_bank_at(banks, id, i) >= 0 || id
            == b.bank_id@),
    decreases banks.len() - i,
{
    if i < banks.len() {
        assert(banks.push(b)[i] == banks[i]);
        lemma_find_bank_push_decide(banks, b, id, i + 1);
    } else {
        assert(banks.push(b)[i] == b);
        if id == b.bank_id@ {
            assert(find_bank_at(banks.push(b), id, i) == i);
        } else {
            assert(find_bank_at(banks.push(b), id, i + 1) == -1);
            assert(find_bank_at(banks.push(b), id, i) == -1);
        }
    }
}

proof fn lemma_bank_ids_push(banks: Seq<Bank>, b: Bank)
    ensures
        bank_ids(banks.push(b)) == bank_ids(banks).insert(b.bank_id@),
{
    assert forall|id: Seq<char>|
        bank_ids(banks.push(b)).contains(id) == bank_ids(banks).insert(b.bank_id@).contains(
            id,
        ) by {
        lemma_find_bank_push_decide(banks, b, id, 0);
    }
    assert(bank_ids(banks.push(b)) =~= bank_ids(banks).insert(b.bank_id@));
}

/// The outcome of one ingestion batch.
#[derive(Debug)]
pub struct IngestReport {
    /// How many banks were registered.
    pub added: usize,
    /// How many candidate entries failed to register.
    pub failed: usize,
}

impl SoundfontPlayer {
    /// Offers every extracted entry to the registry: candidates are the
    /// entries whose basename carries the bank suffix; each registers
    /// under its entry name (or basename, for tar archives) unless its
    /// bytes are rejected or its id is taken, and a rejected candidate is
    /// tallied, never fatal.
    #[verifier::rlimit(100)]
    #[verifier::loop_isolation(false)]
    fn ingest_entries(&mut self, entries: &Vec<ArchiveEntry>, use_basename: bool) -> (r: (
        usize,
        usize,
    ))
        requires
            old(self).wf(),
        ensures
            final(self).wf(),
            final(self).current_view() == old(self).current_view(),
            final(self).program_view() == old(self).program_view(),
            final(self).fonts_view() == old(self).fonts_view(),
            final(self).installed_view() == old(self).installed_view(),
            final(self).notes_view() == old(self).notes_view(),
            r.0 as int == added_count(
                bank_ids(old(self).banks_view()),
                entries_view(entries@),
                entries@.len() as int,
                use_basename,
            ),
            r.1 as int == failed_count(
                bank_ids(old(self).banks_view()),
                entries_view(entries@),
                entries@.len() as int,
                use_basename,
            ),
            final(self).banks_view().len() == old(self).banks_view().len() + r.0,
            forall|i: int|
                0 <= i < old(self).banks_view().len() ==> final(self).banks_view()[i] == old(
                    self,
                ).banks_view()[i],
    {
        let ghost ids0 = bank_ids(old(self).banks_view());
        let ghost ev = entries_view(entries@);
        let n = entries.len();
        let mut added: usize = 0;
        let mut failed: usize = 0;
        let mut i: usize = 0;
        while i < n
            invariant
                n == entries@.len(),
                i <= n,
                added <= i,
                failed <= i,
                self.wf(),
                self.current_view() == old(self).current_view(),
                self.program_view() == old(self).program_view(),
                self.fonts_view() == old(self).fonts_view(),
                self.installed_view() == old(self).installed_view(),
                self.notes_view() == old(self).notes_view(),
                added as int == added_count(ids0, ev, i as int, use_basename),
                failed as int == failed_count(ids0, ev, i as int, use_basename),
                bank_ids(self.banks_view()) == ids_after(ids0, ev, i as int, use_basename),
                self.banks_view().len() == old(self).banks_view().len() + added,
                forall|j: int|
                    0 <= j < old(self).banks_view().len() ==> self.banks_view()[j] == old(
                        self,
                    ).banks_view()[j],
            decreases n - i,
        {
            let ghost banks_i = self.banks_view();
            let entry = &entries[i];
            let base = str_basename(entry.name.as_str());
            let eligible = str_ends_with(base.as_str(), ".sf2");
            if eligible {
                let id_string = if use_basename {
                    base
                } else {
                    entry.name.clone()
                };
                assert(id_string@ == entry_bank_id(ev[i as int], use_basename));
                match self.add_bank(id_string.as_str(), entry.data.as_slice()) {
                    Ok(_) => {
                        added = added + 1;
                        proof {
                            assert(entry_registers(
                                bank_ids(banks_i),
                                ev[i as int],
                                use_basename,
                            ));
                            assert(self.banks_view() =~= banks_i.push(
                                self.banks_view().last(),
                            ));
                            lemma_bank_ids_push(banks_i, self.banks_view().last());
                        }
                    },
                    Err(_) => {
                        failed = failed + 1;
                        proof {
                            assert(!entry_registers(
                                bank_ids(banks_i),
                                ev[i as int],
                                use_basename,
                            ));
                        }
                    },
                }
            } else {
                proof {
                    assert(!entry_eligible(ev[i as int]));
                }
            }
            i = i + 1;
        }
        (added, failed)
    }
}

} // verus!

verus! {

/// The container format a filename hint names.
pub enum ContainerKind {
    /// A single bank file: the whole buffer is one bank.
    SingleBank,
    /// A gzip-compressed tar archive.
    GzipTar,
    /// A zip archive.
    Zip,
    /// Anything else.
    Unknown,
}

/// Which container a filename hint names.
pub open spec fn kind_of(name: Seq<char>) -> ContainerKind {
    if ends_with(name, ".sf2"@) {
        ContainerKind::SingleBank
    } else if ends_with(name, ".tar.gz"@) || ends_with(name, ".tgz"@) {
        ContainerKind::GzipTar
    } else if ends_with(name, ".zip"@) {
        ContainerKind::Zip
    } else {
        ContainerKind::Unknown
    }
}

/// The entries a gzip-compressed tar archive yields, if it is readable.
pub open spec fn tgz_entries_of(b: Seq<u8>) -> Option<Seq<(Seq<char>, Seq<u8>)>> {
    match gunzip_of(b) {
        None => None,
        Some(u) => tar_entries_spec(u, 0),
    }
}

impl SoundfontPlayer {
    /// Ingests one container. A bank-file name registers the whole buffer
    /// as one bank under the filename and reports that registration's own
    /// error on failure. An archive name unpacks the container —
    /// `ArchiveReadError` when the container is unreadable — and offers
    /// every entry whose basename carries the bank suffix, under its
    /// basename (tar) or entry name (zip); a rejected entry is tallied,
    /// never fatal, and the batch succeeds exactly when at least one bank
    /// registered, else `NoUsableEntries`. Any other name is
    /// `UnsupportedFormat`. On failure the registry is unchanged; the
    /// selection and the engine (installed font, routing, note state) are
    /// never touched.
    #[verifier::rlimit(100)]
    pub fn ingest(&mut self, name: &str, data: &[u8]) -> (r: Result<IngestReport, ErrorKind>)
        requires
            old(self).wf(),
        ensures
            final(self).wf(),
            final(self).current_view() == old(self).current_view(),
            final(self).program_view() == old(self).program_view(),
            final(self).fonts_view() == old(self).fonts_view(),
            final(self).installed_view() == old(self).installed_view(),
            final(self).notes_view() == old(self).notes_view(),
            r is Err ==> final(self).banks_view() == old(self).banks_view(),
            kind_of(name@) matches ContainerKind::SingleBank ==> {
                &&& (r is Ok <==> !has_bank(old(self).banks_view(), name@) && bank_ok(data@))
                &&& (r matches Ok(rep) ==> rep.added == 1 && rep.failed == 0
                    && final(self).banks_view().len() == old(self).banks_view().len() + 1)
                &&& (r == Err::<IngestReport, ErrorKind>(ErrorKind::DuplicateId) <==> has_bank(
                    old(self).banks_view(),
                    name@,
                ))
                &&& (r == Err::<IngestReport, ErrorKind>(ErrorKind::DecodeError) <==> !has_bank(
                    old(self).banks_view(),
                    name@,
                ) && !bank_ok(data@))
            },
            kind_of(name@) matches ContainerKind::GzipTar ==> match tgz_entries_of(data@) {
                None => r == Err::<IngestReport, ErrorKind>(ErrorKind::ArchiveReadError),
                Some(es) => {
                    let count = added_count(
                        bank_ids(old(self).banks_view()),
                        es,
                        es.len() as int,
                        true,
                    );
                    &&& (r is Ok <==> count > 0)
                    &&& (r matches Ok(rep) ==> rep.added as int == count && rep.failed as int
                        == failed_count(
                        bank_ids(old(self).banks_view()),
                        es,
                        es.len() as int,
                        true,
                    ) && final(self).banks_view().len() == old(self).banks_view().len() + count)
                    &&& (count == 0 ==> r == Err::<IngestReport, ErrorKind>(
                        ErrorKind::NoUsableEntries,
                    ))
                },
            },
            kind_of(name@) matches ContainerKind::Zip ==> match zip_entries_of(data@) {
                None => r == Err::<IngestReport, ErrorKind>(ErrorKind::ArchiveReadError),
                Some(es) => {
                    let count = added_count(
                        bank_ids(old(self).banks_view()),
                        es,
                        es.len() as int,
                        false,
                    );
                    &&& (r is Ok <==> count > 0)
                    &&& (r matches Ok(rep) ==> rep.added as int == count && rep.failed as int
                        == failed_count(
                        bank_ids(old(self).banks_view()),
                        es,
                        es.len() as int,
                        false,
                    ) && final(self).banks_view().len() == old(self).banks_view().len() + count)
                    &&& (count == 0 ==> r == Err::<IngestReport, ErrorKind>(
                        ErrorKind::NoUsableEntries,
                    ))
                },
            },
            kind_of(name@) matches ContainerKind::Unknown ==> r == Err::<IngestReport, ErrorKind>(
                ErrorKind::UnsupportedFormat,
            ),
    {
        if str_ends_with(name, ".sf2") {
            return match self.add_bank(name, data) {
                Ok(_) => Ok(IngestReport { added: 1, failed: 0 }),
                Err(e) => Err(e),
            };
        }
        if str_ends_with(name, ".tar.gz") || str_ends_with(name, ".tgz") {
            let unpacked = match gunzip(data) {
                Some(u) => u,
                None => {
                    return Err(ErrorKind::ArchiveReadError);
                },
            };
            let entries = match tar_entries(unpacked.as_slice()) {
                Some(es) => es,
                None => {
                    return Err(ErrorKind::ArchiveReadError);
                },
            };
            let (added, failed) = self.ingest_entries(&entries, true);
            if added == 0 {
                return Err(ErrorKind::NoUsableEntries);
            }
            return Ok(IngestReport { added, failed });
        }
        if str_ends_with(name, ".zip") {
            let entries = match zip_entries(data) {
                Some(es) => es,
                None => {
                    return Err(ErrorKind::ArchiveReadError);
                },
            };
            let (added, failed) = self.ingest_entries(&entries, false);
            if added == 0 {
                return Err(ErrorKind::NoUsableEntries);
            }
            return Ok(IngestReport { added, failed });
        }
        Err(ErrorKind::UnsupportedFormat)
    }
}

} // verus!
