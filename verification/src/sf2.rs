//! Structural validation and preset-metadata parsing for soundbank bytes.
//!
//! `sf2_ok` pins down the exact shape of container bytes this library
//! accepts before it hands them to the engine's decoder: a RIFF `sfbk` form
//! holding an INFO list, a sample-data list and a hydra list, with sound
//! record sizes, in-range cross-references between the record tables,
//! bounded zone modulator lists, and a version the decoder supports. Bytes
//! of any other shape are rejected up front, so a malformed buffer yields
//! a decode error instead of aborting the process.
//! `parse_presets` reads the preset-header table of validated bytes and
//! yields each preset's name and numbers in file order.

use vstd::prelude::*;

verus! {

/// The little-endian 16-bit word at `off`.
pub open spec fn le16(b: Seq<u8>, off: int) -> int
    recommends
        0 <= off,
        off + 2 <= b.len(),
{
    b[off] as int + 256 * (b[off + 1] as int)
}

/// The little-endian 32-bit word at `off`, as an unbounded integer.
pub open spec fn le32(b: Seq<u8>, off: int) -> int
    recommends
        0 <= off,
        off + 4 <= b.len(),
{
    b[off] as int + 256 * (b[off + 1] as int) + 65536 * (b[off + 2] as int) + 16777216 * (b[off
        + 3] as int)
}

/// Whether the four bytes at `off` spell the given tag.
pub open spec fn is_fourcc(b: Seq<u8>, off: int, c0: u8, c1: u8, c2: u8, c3: u8) -> bool
    recommends
        0 <= off,
        off + 4 <= b.len(),
{
    b[off] == c0 && b[off + 1] == c1 && b[off + 2] == c2 && b[off + 3] == c3
}

/// The declared content length of the chunk whose header is at `off`.
pub open spec fn chunk_len(b: Seq<u8>, off: int) -> int {
    le32(b, off + 4)
}

/// The header offset of the chunk after the one at `off` (content plus the
/// odd-length padding byte).
pub open spec fn chunk_next(b: Seq<u8>, off: int) -> int {
    off + 8 + chunk_len(b, off) + chunk_len(b, off) % 2
}

/// Header offset of the sample-data list.
pub open spec fn sdta_off(b: Seq<u8>) -> int {
    chunk_next(b, 12)
}

/// Header offset of the hydra (preset/instrument/sample record) list.
pub open spec fn pdta_off(b: Seq<u8>) -> int {
    chunk_next(b, sdta_off(b))
}

/// A list chunk at `off`: header and content inside `[off, end)`, tagged
/// `LIST` with the given list type.
pub open spec fn list_frame_ok(
    b: Seq<u8>,
    off: int,
    end: int,
    t0: u8,
    t1: u8,
    t2: u8,
    t3: u8,
) -> bool {
    &&& 12 <= off
    &&& off + 12 <= end
    &&& is_fourcc(b, off, 76, 73, 83, 84)
    &&& chunk_len(b, off) >= 4
    &&& chunk_next(b, off) <= end
    &&& is_fourcc(b, off + 8, t0, t1, t2, t3)
}

/// Whether the record at `off` is a version-shaped record, which the
/// reader takes as a fixed 32-byte block.
pub open spec fn is_ifil(b: Seq<u8>, off: int) -> bool {
    is_fourcc(b, off, 105, 102, 105, 108)
}

/// An information subchunk other than the version record. The other
/// version-shaped record is read as a fixed 32-byte block too, so it must
/// leave that many bytes in the buffer.
pub open spec fn info_entry_ok(b: Seq<u8>, off: int) -> bool {
    ||| is_fourcc(b, off, 105, 115, 110, 103)
    ||| is_fourcc(b, off, 73, 78, 65, 77)
    ||| is_fourcc(b, off, 105, 114, 111, 109)
    ||| is_fourcc(b, off, 73, 67, 82, 68)
    ||| is_fourcc(b, off, 73, 69, 78, 71)
    ||| is_fourcc(b, off, 73, 80, 82, 68)
    ||| is_fourcc(b, off, 73, 67, 79, 80)
    ||| is_fourcc(b, off, 73, 67, 77, 84)
    ||| is_fourcc(b, off, 73, 83, 70, 84)
    ||| (is_fourcc(b, off, 105, 118, 101, 114) && off + 8 + 32 <= b.len())
}

/// The information subchunks from `off` to exactly `end`: known records
/// only, and `ver_ok` carried through — the latest version record decides,
/// and it must name a major version the decoder supports.
pub open spec fn info_walk_ok(b: Seq<u8>, off: int, end: int, ver_ok: bool) -> bool
    decreases end - off,
{
    if off >= end {
        off == end && ver_ok
    } else {
        &&& off + 8 <= end
        &&& chunk_next(b, off) <= end
        &&& if is_ifil(b, off) {
            off + 8 + 32 <= b.len() && info_walk_ok(
                b,
                chunk_next(b, off),
                end,
                le16(b, off + 8) <= 2,
            )
        } else {
            info_entry_ok(b, off) && info_walk_ok(b, chunk_next(b, off), end, ver_ok)
        }
    }
}

/// The INFO list: known information records, holding a version record
/// whose (latest) major version the decoder supports.
pub open spec fn info_ok(b: Seq<u8>) -> bool {
    let end = 12 + 8 + chunk_len(b, 12);
    &&& 24 <= end
    &&& info_walk_ok(b, 24, end, false)
}

/// The sample-data subchunks after the 16-bit sample words: only low-byte
/// supplements are allowed there.
pub open spec fn sdta_rest_ok(b: Seq<u8>, off: int, end: int) -> bool
    decreases end - off,
{
    if off >= end {
        off == end
    } else {
        &&& off + 8 <= end
        &&& chunk_next(b, off) <= end
        &&& is_fourcc(b, off, 115, 109, 50, 52)
        &&& sdta_rest_ok(b, chunk_next(b, off), end)
    }
}

/// The sample-data list: the 16-bit sample words first, then optional
/// low-byte supplements.
pub open spec fn sdta_ok(b: Seq<u8>) -> bool {
    let o = sdta_off(b);
    let end = o + 8 + chunk_len(b, o);
    &&& o + 12 + 8 <= end
    &&& is_fourcc(b, o + 12, 115, 109, 112, 108)
    &&& chunk_next(b, o + 12) <= end
    &&& sdta_rest_ok(b, chunk_next(b, o + 12), end)
}

/// How many 16-bit sample words the sample-data chunk holds.
pub open spec fn smpl_words(b: Seq<u8>) -> int {
    chunk_len(b, sdta_off(b) + 12) / 2
}

/// Whether a twenty-byte record name starts with the terminal-record tag.
pub open spec fn starts_eos(b: Seq<u8>, off: int) -> bool {
    b[off] == 69 && b[off + 1] == 79 && b[off + 2] == 83
}

/// How many of the first `n` records are counted as real entries rather
/// than terminal records; the record name sits first in each record.
pub open spec fn count_real(b: Seq<u8>, base: int, stride: int, n: int) -> int
    decreases n,
{
    if n <= 0 {
        0
    } else {
        count_real(b, base, stride, n - 1) + if starts_eos(b, base + stride * (n - 1)) {
            0int
        } else {
            1int
        }
    }
}

/// A preset-header record: its zone index stays inside the zone table and
/// its bank number stays below the range the decoder's preset ordering
/// supports.
pub open spec fn phdr_rec_ok(b: Seq<u8>, table: int, i: int, pbag_n: int) -> bool {
    let base = table + 38 * i;
    &&& le16(b, base + 24) <= pbag_n
    &&& le16(b, base + 22) <= 32767
}

/// A preset-zone generator record: never a sample reference, and an
/// instrument reference stays inside the instrument table.
pub open spec fn pgen_rec_ok(b: Seq<u8>, table: int, i: int, inst_n: int) -> bool {
    let base = table + 4 * i;
    &&& le16(b, base) != 53
    &&& (le16(b, base) == 41 ==> le16(b, base + 2) < inst_n)
}

/// An instrument-zone generator record: never an instrument reference, and
/// a sample reference stays inside the sample-header table.
pub open spec fn igen_rec_ok(b: Seq<u8>, table: int, i: int, shdr_n: int) -> bool {
    let base = table + 4 * i;
    &&& le16(b, base) != 41
    &&& (le16(b, base) == 53 ==> le16(b, base + 2) < shdr_n)
}

/// A sample-header record: its sample range is well ordered and, unless the
/// sample is too short to play, its loop end stays inside the sample data.
pub open spec fn shdr_rec_ok(b: Seq<u8>, table: int, i: int, words: int) -> bool {
    let base = table + 46 * i;
    let start = le32(b, base + 20);
    let end = le32(b, base + 24);
    let loop_end = le32(b, base + 32);
    &&& end >= start
    &&& (end - start < 8 || loop_end <= words)
}

/// A modulator record that is not the last of its table must not aim at the
/// terminal generator slot, which the decoder's generator table lacks.
pub open spec fn mod_rec_ok(b: Seq<u8>, table: int, i: int) -> bool {
    le16(b, table + 10 * i + 2) != 60
}

/// A zone record's modulator span stays within half the engine's per-voice
/// modulator capacity, so a global and a local zone together always fit.
pub open spec fn bag_mods_ok(b: Seq<u8>, table: int, j: int, n_bags: int, n_mods: int) -> bool {
    let start = le16(b, table + 4 * j + 2);
    let end = if j + 1 < n_bags {
        le16(b, table + 4 * (j + 1) + 2)
    } else {
        n_bags
    };
    let eff = if end > n_mods {
        n_mods
    } else {
        end
    };
    eff - start <= 32
}

/// An instrument record: its zone index stays inside the zone table.
pub open spec fn inst_rec_ok(b: Seq<u8>, table: int, i: int, ibag_n: int) -> bool {
    le16(b, table + 22 * i + 20) <= ibag_n
}

/// One hydra subchunk: its tag, and a content size that is a non-zero
/// multiple of its record stride.
pub open spec fn rec_chunk_ok(
    b: Seq<u8>,
    off: int,
    end: int,
    t0: u8,
    t1: u8,
    t2: u8,
    t3: u8,
    stride: int,
) -> bool {
    &&& off + 8 <= end
    &&& is_fourcc(b, off, t0, t1, t2, t3)
    &&& chunk_next(b, off) <= end
    &&& chunk_len(b, off) % stride == 0
    &&& chunk_len(b, off) > 0
}

/// The hydra list: its nine record tables in their specified order, filling
/// the list exactly, with every cross-reference in range.
pub open spec fn pdta_ok(b: Seq<u8>) -> bool {
    let o = pdta_off(b);
    let end = o + 8 + chunk_len(b, o);
    let o_phdr = o + 12;
    let o_pbag = chunk_next(b, o_phdr);
    let o_pmod = chunk_next(b, o_pbag);
    let o_pgen = chunk_next(b, o_pmod);
    let o_inst = chunk_next(b, o_pgen);
    let o_ibag = chunk_next(b, o_inst);
    let o_imod = chunk_next(b, o_ibag);
    let o_igen = chunk_next(b, o_imod);
    let o_shdr = chunk_next(b, o_igen);
    let n_phdr = chunk_len(b, o_phdr) / 38;
    let n_pbag = chunk_len(b, o_pbag) / 4;
    let n_pmod = chunk_len(b, o_pmod) / 10;
    let n_pgen = chunk_len(b, o_pgen) / 4;
    let n_inst = chunk_len(b, o_inst) / 22;
    let n_ibag = chunk_len(b, o_ibag) / 4;
    let n_imod = chunk_len(b, o_imod) / 10;
    let n_igen = chunk_len(b, o_igen) / 4;
    let n_shdr = chunk_len(b, o_shdr) / 46;
    &&& rec_chunk_ok(b, o_phdr, end, 112, 104, 100, 114, 38)
    &&& rec_chunk_ok(b, o_pbag, end, 112, 98, 97, 103, 4)
    &&& rec_chunk_ok(b, o_pmod, end, 112, 109, 111, 100, 10)
    &&& rec_chunk_ok(b, o_pgen, end, 112, 103, 101, 110, 4)
    &&& rec_chunk_ok(b, o_inst, end, 105, 110, 115, 116, 22)
    &&& rec_chunk_ok(b, o_ibag, end, 105, 98, 97, 103, 4)
    &&& rec_chunk_ok(b, o_imod, end, 105, 109, 111, 100, 10)
    &&& rec_chunk_ok(b, o_igen, end, 105, 103, 101, 110, 4)
    &&& rec_chunk_ok(b, o_shdr, end, 115, 104, 100, 114, 46)
    &&& chunk_next(b, o_shdr) == end
    &&& (forall|i: int|
        0 <= i < n_phdr ==> #[trigger] phdr_rec_ok(b, o_phdr + 8, i, n_pbag))
    &&& (forall|i: int|
        0 <= i < n_pmod - 1 ==> #[trigger] mod_rec_ok(b, o_pmod + 8, i))
    &&& (forall|j: int|
        0 <= j < n_pbag ==> #[trigger] bag_mods_ok(b, o_pbag + 8, j, n_pbag, n_pmod))
    &&& (forall|i: int|
        0 <= i < n_pgen ==> #[trigger] pgen_rec_ok(
            b,
            o_pgen + 8,
            i,
            count_real(b, o_inst + 8, 22, n_inst),
        ))
    &&& (forall|i: int|
        0 <= i < n_inst ==> #[trigger] inst_rec_ok(b, o_inst + 8, i, n_ibag))
    &&& (forall|i: int|
        0 <= i < n_imod - 1 ==> #[trigger] mod_rec_ok(b, o_imod + 8, i))
    &&& (forall|j: int|
        0 <= j < n_ibag ==> #[trigger] bag_mods_ok(b, o_ibag + 8, j, n_ibag, n_imod))
    &&& (forall|i: int|
        0 <= i < n_igen ==> #[trigger] igen_rec_ok(
            b,
            o_igen + 8,
            i,
            count_real(b, o_shdr + 8, 46, n_shdr),
        ))
    &&& (forall|i: int|
        0 <= i < n_shdr ==> #[trigger] shdr_rec_ok(b, o_shdr + 8, i, smpl_words(b)))
}

/// The shape of soundbank bytes this library accepts: structural conditions,
/// checked before any decoding happens, that are sufficient for the engine's
/// decoder and note path to read the data to a clean answer, and that every
/// soundbank laid out in specification order meets.
#[verifier::opaque]
pub open spec fn sf2_ok(b: Seq<u8>) -> bool {
    &&& b.len() >= 12
    &&& b.len() < 0x100000000
    &&& is_fourcc(b, 0, 82, 73, 70, 70)
    &&& is_fourcc(b, 8, 115, 102, 98, 107)
    &&& 8 + chunk_len(b, 0) <= b.len()
    &&& list_frame_ok(b, 12, 8 + chunk_len(b, 0), 73, 78, 70, 79)
    &&& list_frame_ok(b, sdta_off(b), 8 + chunk_len(b, 0), 115, 100, 116, 97)
    &&& list_frame_ok(b, pdta_off(b), 8 + chunk_len(b, 0), 112, 100, 116, 97)
    &&& chunk_next(b, pdta_off(b)) == 8 + chunk_len(b, 0)
    &&& info_ok(b)
    &&& sdta_ok(b)
    &&& pdta_ok(b)
}

} // verus!

verus! {

fn read_le16(b: &[u8], off: usize) -> (r: u16)
    requires
        off + 2 <= b@.len(),
    ensures
        r as int == le16(b@, off as int),
{
    b[off] as u16 + 256 * (b[off + 1] as u16)
}

fn read_le32(b: &[u8], off: usize) -> (r: u32)
    requires
        off + 4 <= b@.len(),
    ensures
        r as int == le32(b@, off as int),
{
    b[off] as u32 + 256 * (b[off + 1] as u32) + 65536 * (b[off + 2] as u32) + 16777216 * (b[off
        + 3] as u32)
}

fn check4(b: &[u8], off: usize, c0: u8, c1: u8, c2: u8, c3: u8) -> (r: bool)
    requires
        off + 4 <= b@.len(),
    ensures
        r == is_fourcc(b@, off as int, c0, c1, c2, c3),
{
    b[off] == c0 && b[off + 1] == c1 && b[off + 2] == c2 && b[off + 3] == c3
}

fn next_off(b: &[u8], off: usize) -> (r: u64)
    requires
        off + 8 <= b@.len(),
        b@.len() < 0x100000000,
    ensures
        r as int == chunk_next(b@, off as int),
{
    let l = read_le32(b, off + 4);
    off as u64 + 8 + l as u64 + (l as u64) % 2
}

fn list_frame_check(b: &[u8], off: usize, end: usize, t0: u8, t1: u8, t2: u8, t3: u8) -> (r: bool)
    requires
        12 <= off <= b@.len(),
        end <= b@.len(),
        b@.len() < 0x100000000,
    ensures
        r == list_frame_ok(b@, off as int, end as int, t0, t1, t2, t3),
{
    if off as u64 + 12 > end as u64 {
        return false;
    }
    if !check4(b, off, 76, 73, 83, 84) {
        return false;
    }
    let l = read_le32(b, off + 4);
    if l < 4 {
        return false;
    }
    let nxt = next_off(b, off);
    if nxt > end as u64 {
        return false;
    }
    check4(b, off + 8, t0, t1, t2, t3)
}

fn info_entry_check(b: &[u8], off: usize) -> (r: bool)
    requires
        off + 8 <= b@.len(),
        b@.len() < 0x100000000,
    ensures
        r == info_entry_ok(b@, off as int),
{
    if check4(b, off, 105, 115, 110, 103) || check4(b, off, 73, 78, 65, 77) || check4(
        b,
        off,
        105,
        114,
        111,
        109,
    ) || check4(b, off, 73, 67, 82, 68) || check4(b, off, 73, 69, 78, 71) || check4(
        b,
        off,
        73,
        80,
        82,
        68,
    ) || check4(b, off, 73, 67, 79, 80) || check4(b, off, 73, 67, 77, 84) || check4(
        b,
        off,
        73,
        83,
        70,
        84,
    ) {
        return true;
    }
    check4(b, off, 105, 118, 101, 114) && off as u64 + 40 <= b.len() as u64
}

fn info_walk_check(b: &[u8], start: usize, end: usize) -> (r: bool)
    requires
        end <= b@.len(),
        b@.len() < 0x100000000,
    ensures
        r == info_walk_ok(b@, start as int, end as int, false),
{
    if start > end {
        return false;
    }
    let mut off = start;
    let mut ver_ok = false;
    while off < end
        invariant
            end <= b@.len(),
            b@.len() < 0x100000000,
            off <= end,
            info_walk_ok(b@, start as int, end as int, false) == info_walk_ok(
                b@,
                off as int,
                end as int,
                ver_ok,
            ),
        decreases end - off,
    {
        if off as u64 + 8 > end as u64 {
            return false;
        }
        let nxt = next_off(b, off);
        if nxt > end as u64 {
            return false;
        }
        if check4(b, off, 105, 102, 105, 108) {
            if off as u64 + 40 > b.len() as u64 {
                return false;
            }
            let major = read_le16(b, off + 8);
            ver_ok = major <= 2;
        } else {
            if !info_entry_check(b, off) {
                return false;
            }
        }
        proof {
            assert(info_walk_ok(b@, off as int, end as int, ver_ok) == info_walk_ok(
                b@,
                nxt as int,
                end as int,
                ver_ok,
            ));
        }
        off = nxt as usize;
    }
    ver_ok
}

fn sdta_rest_check(b: &[u8], start: usize, end: usize) -> (r: bool)
    requires
        end <= b@.len(),
        b@.len() < 0x100000000,
    ensures
        r == sdta_rest_ok(b@, start as int, end as int),
{
    if start > end {
        return false;
    }
    let mut off = start;
    while off < end
        invariant
            end <= b@.len(),
            b@.len() < 0x100000000,
            off <= end,
            sdta_rest_ok(b@, start as int, end as int) == sdta_rest_ok(b@, off as int, end as int),
        decreases end - off,
    {
        if off as u64 + 8 > end as u64 {
            return false;
        }
        let nxt = next_off(b, off);
        if nxt > end as u64 {
            return false;
        }
        if !check4(b, off, 115, 109, 50, 52) {
            return false;
        }
        proof {
            assert(sdta_rest_ok(b@, off as int, end as int) == sdta_rest_ok(
                b@,
                nxt as int,
                end as int,
            ));
        }
        off = nxt as usize;
    }
    true
}

} // verus!

verus! {

fn rec_chunk_check(
    b: &[u8],
    off: usize,
    end: usize,
    t0: u8,
    t1: u8,
    t2: u8,
    t3: u8,
    stride: u32,
) -> (r: bool)
    requires
        off <= b@.len(),
        end <= b@.len(),
        b@.len() < 0x100000000,
        stride >= 1,
    ensures
        r == rec_chunk_ok(b@, off as int, end as int, t0, t1, t2, t3, stride as int),
{
    if off as u64 + 8 > end as u64 {
        return false;
    }
    if !check4(b, off, t0, t1, t2, t3) {
        return false;
    }
    let l = read_le32(b, off + 4);
    let nxt = next_off(b, off);
    if nxt > end as u64 {
        return false;
    }
    l % stride == 0 && l > 0
}

fn count_real_ex(b: &[u8], table: usize, stride: usize, n: u32) -> (c: u32)
    requires
        4 <= stride <= 46,
        table as int + stride as int * n as int <= b@.len(),
        b@.len() < 0x100000000,
    ensures
        c as int == count_real(b@, table as int, stride as int, n as int),
        c <= n,
{
    let mut c: u32 = 0;
    let mut i: u32 = 0;
    while i < n
        invariant
            i <= n,
            c <= i,
            4 <= stride <= 46,
            table as int + stride as int * n as int <= b@.len(),
            b@.len() < 0x100000000,
            c as int == count_real(b@, table as int, stride as int, i as int),
        decreases n - i,
    {
        proof {
            assert(stride as int * (i as int + 1) <= stride as int * n as int) by (nonlinear_arith)
                requires
                    i < n,
                    4 <= stride,
            ;
            assert(stride as int * (i as int) >= 0) by (nonlinear_arith)
                requires
                    4 <= stride,
                    0 <= i,
            ;
            assert(stride as int * (i as int + 1) == stride as int * (i as int)
                + stride as int) by (nonlinear_arith);
        }
        let base = table + stride * (i as usize);
        let keep = !(b[base] == 69 && b[base + 1] == 79 && b[base + 2] == 83);
        if keep {
            c = c + 1;
        }
        proof {
            assert(count_real(b@, table as int, stride as int, i as int + 1) == count_real(
                b@,
                table as int,
                stride as int,
                i as int,
            ) + if starts_eos(b@, table as int + stride as int * (i as int)) {
                0int
            } else {
                1int
            });
        }
        i = i + 1;
    }
    c
}

} // verus!

verus! {

fn rec_base(table: usize, stride: usize, i: u32, n: u32, Ghost(blen): Ghost<int>) -> (base: usize)
    requires
        i < n,
        1 <= stride <= 46,
        table as int + stride as int * n as int <= blen,
        blen < 0x100000000,
    ensures
        base as int == table as int + stride as int * i as int,
        base as int + stride as int <= blen,
{
    proof {
        assert(stride as int * (i as int + 1) <= stride as int * n as int) by (nonlinear_arith)
            requires
                i < n,
                1 <= stride,
        ;
        assert(stride as int * (i as int) >= 0) by (nonlinear_arith)
            requires
                1 <= stride,
                0 <= i,
        ;
        assert(stride as int * (i as int + 1) == stride as int * (i as int)
            + stride as int) by (nonlinear_arith);
    }
    table + stride * (i as usize)
}

#[verifier::rlimit(100)]
#[verifier::loop_isolation(false)]
fn pdta_check(b: &[u8], o: usize, end: usize, words: u32) -> (r: bool)
    requires
        b@.len() < 0x100000000,
        o as int == pdta_off(b@),
        12 <= o,
        o + 12 <= end,
        end as int == o + 8 + chunk_len(b@, o as int),
        end <= b@.len(),
        words as int == smpl_words(b@),
    ensures
        r == pdta_ok(b@),
{
    let o_phdr: usize = o + 12;
    if !rec_chunk_check(b, o_phdr, end, 112, 104, 100, 114, 38) {
        return false;
    }
    let l_phdr = read_le32(b, o_phdr + 4);
    let o_pbag: usize = next_off(b, o_phdr) as usize;
    if !rec_chunk_check(b, o_pbag, end, 112, 98, 97, 103, 4) {
        return false;
    }
    let l_pbag = read_le32(b, o_pbag + 4);
    let o_pmod: usize = next_off(b, o_pbag) as usize;
    if !rec_chunk_check(b, o_pmod, end, 112, 109, 111, 100, 10) {
        return false;
    }
    let l_pmod = read_le32(b, o_pmod + 4);
    let o_pgen: usize = next_off(b, o_pmod) as usize;
    if !rec_chunk_check(b, o_pgen, end, 112, 103, 101, 110, 4) {
        return false;
    }
    let l_pgen = read_le32(b, o_pgen + 4);
    let o_inst: usize = next_off(b, o_pgen) as usize;
    if !rec_chunk_check(b, o_inst, end, 105, 110, 115, 116, 22) {
        return false;
    }
    let l_inst = read_le32(b, o_inst + 4);
    let o_ibag: usize = next_off(b, o_inst) as usize;
    if !rec_chunk_check(b, o_ibag, end, 105, 98, 97, 103, 4) {
        return false;
    }
    let l_ibag = read_le32(b, o_ibag + 4);
    let o_imod: usize = next_off(b, o_ibag) as usize;
    if !rec_chunk_check(b, o_imod, end, 105, 109, 111, 100, 10) {
        return false;
    }
    let l_imod = read_le32(b, o_imod + 4);
    let o_igen: usize = next_off(b, o_imod) as usize;
    if !rec_chunk_check(b, o_igen, end, 105, 103, 101, 110, 4) {
        return false;
    }
    let l_igen = read_le32(b, o_igen + 4);
    let o_shdr: usize = next_off(b, o_igen) as usize;
    if !rec_chunk_check(b, o_shdr, end, 115, 104, 100, 114, 46) {
        return false;
    }
    let l_shdr = read_le32(b, o_shdr + 4);
    if next_off(b, o_shdr) != end as u64 {
        return false;
    }
    let n_phdr = l_phdr / 38;
    let n_pbag = l_pbag / 4;
    let n_pmod = l_pmod / 10;
    let n_pgen = l_pgen / 4;
    let n_inst = l_inst / 22;
    let n_ibag = l_ibag / 4;
    let n_imod = l_imod / 10;
    let n_igen = l_igen / 4;
    let n_shdr = l_shdr / 46;
    proof {
        assert(38 * (l_phdr as int / 38) <= l_phdr as int) by (nonlinear_arith);
        assert(4 * (l_pbag as int / 4) <= l_pbag as int) by (nonlinear_arith);
        assert(10 * (l_pmod as int / 10) <= l_pmod as int) by (nonlinear_arith);
        assert(4 * (l_pgen as int / 4) <= l_pgen as int) by (nonlinear_arith);
        assert(22 * (l_inst as int / 22) <= l_inst as int) by (nonlinear_arith);
        assert(10 * (l_imod as int / 10) <= l_imod as int) by (nonlinear_arith);
        assert(4 * (l_igen as int / 4) <= l_igen as int) by (nonlinear_arith);
        assert(46 * (l_shdr as int / 46) <= l_shdr as int) by (nonlinear_arith);
    }
    let c_inst = count_real_ex(b, o_inst + 8, 22, n_inst);
    let c_shdr = count_real_ex(b, o_shdr + 8, 46, n_shdr);

    let ghost bb = b@;
    let ghost t_phdr = o_phdr as int + 8;
    let mut i: u32 = 0;
    while i < n_phdr
        invariant
            bb == b@,
            b@.len() < 0x100000000,
            i <= n_phdr,
            o_phdr as int + 8 + 38 * (n_phdr as int) <= b@.len(),
            t_phdr == o_phdr as int + 8,
            forall|j: int| 0 <= j < i ==> #[trigger] phdr_rec_ok(bb, t_phdr, j, l_pbag as int / 4),
        decreases n_phdr - i,
    {
        let base = rec_base(o_phdr + 8, 38, i, n_phdr, Ghost(b@.len() as int));
        let bag = read_le16(b, base + 24);
        let bank = read_le16(b, base + 22);
        if bag as u32 > n_pbag || bank > 32767 {
            assert(!phdr_rec_ok(bb, t_phdr, i as int, l_pbag as int / 4));
            assert(!pdta_ok(bb)) by {
                if pdta_ok(bb) {
                    assert(phdr_rec_ok(bb, t_phdr, i as int, l_pbag as int / 4));
                }
            }
            return false;
        }
        assert(phdr_rec_ok(bb, t_phdr, i as int, l_pbag as int / 4));
        i = i + 1;
    }

    let ghost t_pmod = o_pmod as int + 8;
    let mut i: u32 = 0;
    while n_pmod >= 1 && i < n_pmod - 1
        invariant
            bb == b@,
            b@.len() < 0x100000000,
            n_pmod >= 1 ==> i <= n_pmod - 1,
            o_pmod as int + 8 + 10 * (n_pmod as int) <= b@.len(),
            t_pmod == o_pmod as int + 8,
            forall|j: int| 0 <= j < i ==> #[trigger] mod_rec_ok(bb, t_pmod, j),
        decreases n_pmod - i,
    {
        let base = rec_base(o_pmod + 8, 10, i, n_pmod, Ghost(b@.len() as int));
        let dest = read_le16(b, base + 2);
        if dest == 60 {
            assert(!mod_rec_ok(bb, t_pmod, i as int));
            assert(!pdta_ok(bb)) by {
                if pdta_ok(bb) {
                    assert(mod_rec_ok(bb, t_pmod, i as int));
                }
            }
            return false;
        }
        assert(mod_rec_ok(bb, t_pmod, i as int));
        i = i + 1;
    }


    let ghost t_pbag = o_pbag as int + 8;
    let mut i: u32 = 0;
    while i < n_pbag
        invariant
            bb == b@,
            b@.len() < 0x100000000,
            i <= n_pbag,
            o_pbag as int + 8 + 4 * (n_pbag as int) <= b@.len(),
            t_pbag == o_pbag as int + 8,
            forall|j: int|
                0 <= j < i ==> #[trigger] bag_mods_ok(bb, t_pbag, j, n_pbag as int, l_pmod as int / 10),
        decreases n_pbag - i,
    {
        let base = rec_base(o_pbag + 8, 4, i, n_pbag, Ghost(b@.len() as int));
        let start = read_le16(b, base + 2) as u32;
        let end: u32 = if i + 1 < n_pbag {
            let base2 = rec_base(o_pbag + 8, 4, i + 1, n_pbag, Ghost(b@.len() as int));
            read_le16(b, base2 + 2) as u32
        } else {
            n_pbag
        };
        let eff: u32 = if end > n_pmod {
            n_pmod
        } else {
            end
        };
        if eff > 32 && eff - 32 > start {
            assert(!bag_mods_ok(bb, t_pbag, i as int, n_pbag as int, l_pmod as int / 10));
            assert(!pdta_ok(bb)) by {
                if pdta_ok(bb) {
                    assert(bag_mods_ok(bb, t_pbag, i as int, n_pbag as int, l_pmod as int / 10));
                }
            }
            return false;
        }
        assert(bag_mods_ok(bb, t_pbag, i as int, n_pbag as int, l_pmod as int / 10));
        i = i + 1;
    }

    let ghost t_pgen = o_pgen as int + 8;
    let ghost inst_real = count_real(bb, o_inst as int + 8, 22, n_inst as int);
    let mut i: u32 = 0;
    while i < n_pgen
        invariant
            bb == b@,
            b@.len() < 0x100000000,
            i <= n_pgen,
            o_pgen as int + 8 + 4 * (n_pgen as int) <= b@.len(),
            t_pgen == o_pgen as int + 8,
            c_inst as int == inst_real,
            forall|j: int| 0 <= j < i ==> #[trigger] pgen_rec_ok(bb, t_pgen, j, inst_real),
        decreases n_pgen - i,
    {
        let base = rec_base(o_pgen + 8, 4, i, n_pgen, Ghost(b@.len() as int));
        let ty = read_le16(b, base);
        let amount = read_le16(b, base + 2);
        if ty == 53 || (ty == 41 && amount as u32 >= c_inst) {
            assert(!pgen_rec_ok(bb, t_pgen, i as int, inst_real));
            assert(!pdta_ok(bb)) by {
                if pdta_ok(bb) {
                    assert(pgen_rec_ok(bb, t_pgen, i as int, inst_real));
                }
            }
            return false;
        }
        assert(pgen_rec_ok(bb, t_pgen, i as int, inst_real));
        i = i + 1;
    }

    let ghost t_inst = o_inst as int + 8;
    let mut i: u32 = 0;
    while i < n_inst
        invariant
            bb == b@,
            b@.len() < 0x100000000,
            i <= n_inst,
            o_inst as int + 8 + 22 * (n_inst as int) <= b@.len(),
            t_inst == o_inst as int + 8,
            forall|j: int| 0 <= j < i ==> #[trigger] inst_rec_ok(bb, t_inst, j, l_ibag as int / 4),
        decreases n_inst - i,
    {
        let base = rec_base(o_inst + 8, 22, i, n_inst, Ghost(b@.len() as int));
        let bag = read_le16(b, base + 20);
        if bag as u32 > n_ibag {
            assert(!inst_rec_ok(bb, t_inst, i as int, l_ibag as int / 4));
            assert(!pdta_ok(bb)) by {
                if pdta_ok(bb) {
                    assert(inst_rec_ok(bb, t_inst, i as int, l_ibag as int / 4));
                }
            }
            return false;
        }
        assert(inst_rec_ok(bb, t_inst, i as int, l_ibag as int / 4));
        i = i + 1;
    }

    let ghost t_imod = o_imod as int + 8;
    let mut i: u32 = 0;
    while n_imod >= 1 && i < n_imod - 1
        invariant
            bb == b@,
            b@.len() < 0x100000000,
            n_imod >= 1 ==> i <= n_imod - 1,
            o_imod as int + 8 + 10 * (n_imod as int) <= b@.len(),
            t_imod == o_imod as int + 8,
            forall|j: int| 0 <= j < i ==> #[trigger] mod_rec_ok(bb, t_imod, j),
        decreases n_imod - i,
    {
        let base = rec_base(o_imod + 8, 10, i, n_imod, Ghost(b@.len() as int));
        let dest = read_le16(b, base + 2);
        if dest == 60 {
            assert(!mod_rec_ok(bb, t_imod, i as int));
            assert(!pdta_ok(bb)) by {
                if pdta_ok(bb) {
                    assert(mod_rec_ok(bb, t_imod, i as int));
                }
            }
            return false;
        }
        assert(mod_rec_ok(bb, t_imod, i as int));
        i = i + 1;
    }


    let ghost t_ibag = o_ibag as int + 8;
    let mut i: u32 = 0;
    while i < n_ibag
        invariant
            bb == b@,
            b@.len() < 0x100000000,
            i <= n_ibag,
            o_ibag as int + 8 + 4 * (n_ibag as int) <= b@.len(),
            t_ibag == o_ibag as int + 8,
            forall|j: int|
                0 <= j < i ==> #[trigger] bag_mods_ok(bb, t_ibag, j, n_ibag as int, l_imod as int / 10),
        decreases n_ibag - i,
    {
        let base = rec_base(o_ibag + 8, 4, i, n_ibag, Ghost(b@.len() as int));
        let start = read_le16(b, base + 2) as u32;
        let end: u32 = if i + 1 < n_ibag {
            let base2 = rec_base(o_ibag + 8, 4, i + 1, n_ibag, Ghost(b@.len() as int));
            read_le16(b, base2 + 2) as u32
        } else {
            n_ibag
        };
        let eff: u32 = if end > n_imod {
            n_imod
        } else {
            end
        };
        if eff > 32 && eff - 32 > start {
            assert(!bag_mods_ok(bb, t_ibag, i as int, n_ibag as int, l_imod as int / 10));
            assert(!pdta_ok(bb)) by {
                if pdta_ok(bb) {
                    assert(bag_mods_ok(bb, t_ibag, i as int, n_ibag as int, l_imod as int / 10));
                }
            }
            return false;
        }
        assert(bag_mods_ok(bb, t_ibag, i as int, n_ibag as int, l_imod as int / 10));
        i = i + 1;
    }

    let ghost t_igen = o_igen as int + 8;
    let ghost shdr_real = count_real(bb, o_shdr as int + 8, 46, n_shdr as int);
    let mut i: u32 = 0;
    while i < n_igen
        invariant
            bb == b@,
            b@.len() < 0x100000000,
            i <= n_igen,
            o_igen as int + 8 + 4 * (n_igen as int) <= b@.len(),
            t_igen == o_igen as int + 8,
            c_shdr as int == shdr_real,
            forall|j: int| 0 <= j < i ==> #[trigger] igen_rec_ok(bb, t_igen, j, shdr_real),
        decreases n_igen - i,
    {
        let base = rec_base(o_igen + 8, 4, i, n_igen, Ghost(b@.len() as int));
        let ty = read_le16(b, base);
        let amount = read_le16(b, base + 2);
        if ty == 41 || (ty == 53 && amount as u32 >= c_shdr) {
            assert(!igen_rec_ok(bb, t_igen, i as int, shdr_real));
            assert(!pdta_ok(bb)) by {
                if pdta_ok(bb) {
                    assert(igen_rec_ok(bb, t_igen, i as int, shdr_real));
                }
            }
            return false;
        }
        assert(igen_rec_ok(bb, t_igen, i as int, shdr_real));
        i = i + 1;
    }

    let ghost t_shdr = o_shdr as int + 8;
    let mut i: u32 = 0;
    while i < n_shdr
        invariant
            bb == b@,
            b@.len() < 0x100000000,
            i <= n_shdr,
            o_shdr as int + 8 + 46 * (n_shdr as int) <= b@.len(),
            t_shdr == o_shdr as int + 8,
            words as int == smpl_words(bb),
            forall|j: int| 0 <= j < i ==> #[trigger] shdr_rec_ok(bb, t_shdr, j, smpl_words(bb)),
        decreases n_shdr - i,
    {
        let base = rec_base(o_shdr + 8, 46, i, n_shdr, Ghost(b@.len() as int));
        let s_start = read_le32(b, base + 20);
        let s_end = read_le32(b, base + 24);
        let s_loop_end = read_le32(b, base + 32);
        if s_end < s_start || (s_end - s_start >= 8 && s_loop_end > words) {
            assert(!shdr_rec_ok(bb, t_shdr, i as int, smpl_words(bb)));
            assert(!pdta_ok(bb)) by {
                if pdta_ok(bb) {
                    assert(shdr_rec_ok(bb, t_shdr, i as int, smpl_words(bb)));
                }
            }
            return false;
        }
        assert(shdr_rec_ok(bb, t_shdr, i as int, smpl_words(bb)));
        i = i + 1;
    }

    true
}

} // verus!

verus! {

/// Decides exactly whether `data` has the accepted soundbank shape.
#[verifier::rlimit(30)]
pub fn sf2_validate(data: &[u8]) -> (r: bool)
    ensures
        r == sf2_ok(data@),
{
    proof {
        reveal(sf2_ok);
    }
    if data.len() < 12 {
        return false;
    }
    if data.len() as u64 >= 0x100000000u64 {
        return false;
    }
    if !check4(data, 0, 82, 73, 70, 70) {
        return false;
    }
    if !check4(data, 8, 115, 102, 98, 107) {
        return false;
    }
    let l0 = read_le32(data, 4);
    let end64: u64 = 8u64 + l0 as u64;
    if end64 > data.len() as u64 {
        return false;
    }
    let end = end64 as usize;
    if !list_frame_check(data, 12, end, 73, 78, 70, 79) {
        return false;
    }
    let o_sdta = next_off(data, 12) as usize;
    if !list_frame_check(data, o_sdta, end, 115, 100, 116, 97) {
        return false;
    }
    let o_pdta = next_off(data, o_sdta) as usize;
    if !list_frame_check(data, o_pdta, end, 112, 100, 116, 97) {
        return false;
    }
    if next_off(data, o_pdta) != end as u64 {
        return false;
    }
    // the INFO list: known records with a supported version record
    let l_info = read_le32(data, 16);
    let info_end64: u64 = 20u64 + l_info as u64;
    if info_end64 < 24 {
        return false;
    }
    let info_end = info_end64 as usize;
    if !info_walk_check(data, 24, info_end) {
        return false;
    }
    // the sample-data list: the 16-bit sample words first
    let l_sdta = read_le32(data, o_sdta + 4);
    let sdta_end64: u64 = o_sdta as u64 + 8 + l_sdta as u64;
    if o_sdta as u64 + 20 > sdta_end64 {
        return false;
    }
    let sdta_end = sdta_end64 as usize;
    if !check4(data, o_sdta + 12, 115, 109, 112, 108) {
        return false;
    }
    let after_smpl = next_off(data, o_sdta + 12);
    if after_smpl > sdta_end64 {
        return false;
    }
    if !sdta_rest_check(data, after_smpl as usize, sdta_end) {
        return false;
    }
    let l_smpl = read_le32(data, o_sdta + 16);
    let words = l_smpl / 2;
    // the hydra record tables
    let l_pdta = read_le32(data, o_pdta + 4);
    let pdta_end = (o_pdta as u64 + 8 + l_pdta as u64) as usize;
    pdta_check(data, o_pdta, pdta_end, words)
}

} // verus!

verus! {

/// ASCII whitespace, as trimmed from the tail of record names.
pub open spec fn is_ws(x: u8) -> bool {
    x == 9 || x == 10 || x == 11 || x == 12 || x == 13 || x == 32
}

/// Length of a twenty-byte record name up to its first NUL byte.
pub open spec fn nul_len(b: Seq<u8>, off: int, k: int) -> int
    decreases 20 - k,
{
    if k >= 20 {
        20
    } else if b[off + k] == 0 {
        k
    } else {
        nul_len(b, off, k + 1)
    }
}

/// The name length after trailing ASCII whitespace is trimmed.
pub open spec fn trim_len(b: Seq<u8>, off: int, k: int) -> int
    decreases k,
{
    if k <= 0 {
        0
    } else if is_ws(b[off + k - 1]) {
        trim_len(b, off, k - 1)
    } else {
        k
    }
}

/// Record names keep printable ASCII and stand in for anything else.
pub open spec fn sanitize_byte(x: u8) -> u8 {
    if 32 <= x && x <= 126 {
        x
    } else {
        95
    }
}

/// The characters of the record name at `off`: NUL-truncated, tail-trimmed,
/// sanitized to printable ASCII.
pub open spec fn rec_name_chars(b: Seq<u8>, off: int) -> Seq<char> {
    Seq::new(
        trim_len(b, off, nul_len(b, off, 0)) as nat,
        |i: int| sanitize_byte(b[off + i]) as char,
    )
}

/// Whether the preset-header record name marks the terminal record: it
/// starts with the terminal tag and carries only whitespace or non-ASCII
/// bytes after it, so the decoder drops the record from its preset list.
pub open spec fn eop_like(b: Seq<u8>, off: int) -> bool {
    let l = nul_len(b, off, 0);
    &&& l >= 3
    &&& b[off] == 69
    &&& b[off + 1] == 79
    &&& b[off + 2] == 80
    &&& forall|i: int| 3 <= i < l ==> is_ws(#[trigger] b[off + i]) || b[off + i] >= 128
}

/// Content offset of the preset-header record table.
pub open spec fn phdr_table(b: Seq<u8>) -> int {
    pdta_off(b) + 12 + 8
}

/// Number of preset-header records.
pub open spec fn phdr_count(b: Seq<u8>) -> int {
    chunk_len(b, pdta_off(b) + 12) / 38
}

/// The preset entry contributed by record `i`: empty for a terminal
/// record, else the name and the two numbers of the record.
pub open spec fn preset_entry(b: Seq<u8>, i: int) -> Seq<(Seq<char>, u32, u32)> {
    let base = phdr_table(b) + 38 * i;
    if eop_like(b, base) {
        Seq::empty()
    } else {
        seq![(rec_name_chars(b, base), le16(b, base + 22) as u32, le16(b, base + 20) as u32)]
    }
}

/// The preset list of the first `n` preset-header records, in file order.
pub open spec fn presets_prefix(b: Seq<u8>, n: int) -> Seq<(Seq<char>, u32, u32)>
    decreases n,
{
    if n <= 0 {
        Seq::empty()
    } else {
        presets_prefix(b, n - 1) + preset_entry(b, n - 1)
    }
}

/// Every preset a validated soundbank declares: `(name, bank_number,
/// program_number)` in file order, terminal records dropped.
pub open spec fn sf2_presets(b: Seq<u8>) -> Seq<(Seq<char>, u32, u32)> {
    presets_prefix(b, phdr_count(b))
}

/// The `(bank_number, program_number)` pairs of a validated soundbank.
pub open spec fn sf2_keys(b: Seq<u8>) -> Set<(u32, u32)> {
    Set::new(
        |k: (u32, u32)|
            exists|i: int|
                0 <= i < sf2_presets(b).len() && #[trigger] sf2_presets(b)[i].1 == k.0
                    && sf2_presets(b)[i].2 == k.1,
    )
}

/// The characters of a sequence of ASCII bytes, one character per byte.
pub open spec fn ascii_chars_of(v: Seq<u8>) -> Seq<char> {
    Seq::new(v.len(), |i: int| v[i] as char)
}

/// Relies on std::str::from_utf8: bytes below 0x80 are valid UTF-8 and
/// decode to exactly one character per byte.
#[verifier::external_body]
pub(crate) fn ascii_string(v: &Vec<u8>) -> (s: String)
    requires
        forall|i: int| 0 <= i < v@.len() ==> v@[i] < 128,
    ensures
        s@ == ascii_chars_of(v@),
{
    match std::str::from_utf8(v.as_slice()) {
        Ok(s) => s.to_string(),
        Err(_) => String::new(),
    }
}

/// One preset of a decoded bank, as its metadata reads.
pub struct PresetMeta {
    /// The preset's display name from the bank metadata.
    pub name: String,
    /// The numeric namespace within the bank.
    pub bank_number: u32,
    /// The numeric slot within `bank_number`.
    pub program_number: u32,
}

impl View for PresetMeta {
    type V = (Seq<char>, u32, u32);

    open spec fn view(&self) -> Self::V {
        (self.name@, self.bank_number, self.program_number)
    }
}

impl PresetMeta {
    /// An equal copy of the metadata.
    pub fn duplicate(&self) -> (r: PresetMeta)
        ensures
            r@ == self@,
    {
        PresetMeta {
            name: self.name.clone(),
            bank_number: self.bank_number,
            program_number: self.program_number,
        }
    }
}

/// Reads the record name at `off`.
#[verifier::loop_isolation(false)]
fn read_rec_name(b: &[u8], off: usize) -> (s: String)
    requires
        off + 20 <= b@.len(),
    ensures
        s@ == rec_name_chars(b@, off as int),
{
    let n = b.len();
    assert(off + 20 <= n);
    let mut l: usize = 0;
    while l < 20 && b[off + l] != 0
        invariant
            off + 20 <= b@.len(),
            l <= 20,
            nul_len(b@, off as int, 0) == nul_len(b@, off as int, l as int),
        decreases 20 - l,
    {
        l = l + 1;
    }
    assert(nul_len(b@, off as int, 0) == l as int);
    let mut t: usize = l;
    while t > 0 && is_ws_byte(b[off + t - 1])
        invariant
            off + 20 <= b@.len(),
            t <= l <= 20,
            trim_len(b@, off as int, l as int) == trim_len(b@, off as int, t as int),
        decreases t,
    {
        t = t - 1;
    }
    assert(trim_len(b@, off as int, l as int) == t as int);
    let mut v: Vec<u8> = Vec::new();
    let mut k: usize = 0;
    while k < t
        invariant
            off + 20 <= b@.len(),
            t <= 20,
            k <= t,
            v@.len() == k,
            forall|i: int| 0 <= i < k ==> v@[i] == sanitize_byte(b@[off + i]),
        decreases t - k,
    {
        let x = b[off + k];
        if 32 <= x && x <= 126 {
            v.push(x);
        } else {
            v.push(95);
        }
        k = k + 1;
    }
    let s = ascii_string(&v);
    proof {
        assert(s@ =~= rec_name_chars(b@, off as int));
    }
    s
}

fn is_ws_byte(x: u8) -> (r: bool)
    ensures
        r == is_ws(x),
{
    x == 9 || x == 10 || x == 11 || x == 12 || x == 13 || x == 32
}

} // verus!

verus! {

#[verifier::loop_isolation(false)]
fn eop_check(b: &[u8], off: usize) -> (r: bool)
    requires
        off + 20 <= b@.len(),
    ensures
        r == eop_like(b@, off as int),
{
    let n = b.len();
    assert(off + 20 <= n);
    let mut l: usize = 0;
    while l < 20 && b[off + l] != 0
        invariant
            l <= 20,
            nul_len(b@, off as int, 0) == nul_len(b@, off as int, l as int),
        decreases 20 - l,
    {
        l = l + 1;
    }
    assert(nul_len(b@, off as int, 0) == l as int);
    if l < 3 {
        return false;
    }
    if !(b[off] == 69 && b[off + 1] == 79 && b[off + 2] == 80) {
        return false;
    }
    let mut i: usize = 3;
    while i < l
        invariant
            3 <= i <= l,
            forall|j: int|
                3 <= j < i ==> is_ws(#[trigger] b@[off + j]) || b@[off + j] >= 128,
        decreases l - i,
    {
        let x = b[off + i];
        if !(x == 9 || x == 10 || x == 11 || x == 12 || x == 13 || x == 32 || x >= 128) {
            return false;
        }
        i = i + 1;
    }
    true
}

/// Reads the preset list of a validated soundbank: one entry per
/// preset-header record in file order, terminal records dropped.
#[verifier::loop_isolation(false)]
#[verifier::rlimit(30)]
pub fn parse_presets(data: &[u8]) -> (r: Vec<PresetMeta>)
    requires
        sf2_ok(data@),
    ensures
        r@.map_values(|m: PresetMeta| m@) == sf2_presets(data@),
{
    let blen = data.len();
    proof {
        reveal(sf2_ok);
        assert(list_frame_ok(data@, 12, 8 + chunk_len(data@, 0), 73, 78, 70, 79));
        assert(list_frame_ok(data@, sdta_off(data@), 8 + chunk_len(data@, 0), 115, 100, 116, 97));
        assert(list_frame_ok(data@, pdta_off(data@), 8 + chunk_len(data@, 0), 112, 100, 116, 97));
    }
    let o_sdta = next_off(data, 12) as usize;
    let o_pdta = next_off(data, o_sdta) as usize;
    proof {
        assert(rec_chunk_ok(
            data@,
            pdta_off(data@) + 12,
            pdta_off(data@) + 8 + chunk_len(data@, pdta_off(data@)),
            112,
            104,
            100,
            114,
            38,
        ));
    }
    let table = o_pdta + 20;
    let l_phdr = read_le32(data, o_pdta + 16);
    let n = l_phdr / 38;
    proof {
        assert(38 * (l_phdr as int / 38) <= l_phdr as int) by (nonlinear_arith);
        assert(table as int + 38 * (n as int) <= data@.len());
    }
    let mut out: Vec<PresetMeta> = Vec::new();
    let mut i: u32 = 0;
    while i < n
        invariant
            i <= n,
            out@.map_values(|m: PresetMeta| m@) == presets_prefix(data@, i as int),
        decreases n - i,
    {
        let base = rec_base(table, 38, i, n, Ghost(data@.len() as int));
        let ghost before = out@;
        if !eop_check(data, base) {
            let name = read_rec_name(data, base);
            let bank_number = read_le16(data, base + 22) as u32;
            let program_number = read_le16(data, base + 20) as u32;
            out.push(PresetMeta { name, bank_number, program_number });
        }
        proof {
            assert(presets_prefix(data@, i as int + 1) == presets_prefix(data@, i as int)
                + preset_entry(data@, i as int));
            assert(out@.map_values(|m: PresetMeta| m@) =~= presets_prefix(data@, i as int + 1));
        }
        i = i + 1;
    }
    out
}

} // verus!

verus! {

/// The ordering key of a preset entry: bank number, then program number.
pub open spec fn preset_entry_key(e: (Seq<char>, u32, u32)) -> int {
    e.1 * 0x10000 + e.2
}

/// First position at or after `i` whose entry orders strictly after `e`:
/// inserting there keeps entries with equal keys in their earlier order.
pub open spec fn ins_pos(e: (Seq<char>, u32, u32), s: Seq<(Seq<char>, u32, u32)>, i: int) -> int
    decreases s.len() - i,
{
    if i < 0 || i >= s.len() {
        s.len() as int
    } else if preset_entry_key(s[i]) > preset_entry_key(e) {
        i
    } else {
        ins_pos(e, s, i + 1)
    }
}

/// The entry inserted at its stable position.
pub open spec fn sorted_insert(
    e: (Seq<char>, u32, u32),
    s: Seq<(Seq<char>, u32, u32)>,
) -> Seq<(Seq<char>, u32, u32)> {
    s.insert(ins_pos(e, s, 0), e)
}

/// The preset entries in presentation order: stable-sorted by bank number,
/// then program number — the order the decoded bank reports its presets
/// in, with entries of equal numbers kept in file order.
pub open spec fn sort_presets(s: Seq<(Seq<char>, u32, u32)>) -> Seq<(Seq<char>, u32, u32)>
    decreases s.len(),
{
    if s.len() == 0 {
        Seq::empty()
    } else {
        sorted_insert(s.last(), sort_presets(s.drop_last()))
    }
}

proof fn lemma_ins_pos_range(e: (Seq<char>, u32, u32), s: Seq<(Seq<char>, u32, u32)>, i: int)
    requires
        0 <= i <= s.len(),
    ensures
        i <= ins_pos(e, s, i) <= s.len(),
    decreases s.len() - i,
{
    if i < s.len() && !(preset_entry_key(s[i]) > preset_entry_key(e)) {
        lemma_ins_pos_range(e, s, i + 1);
    }
}

/// Sorting keeps the number of entries.
pub proof fn lemma_sort_presets_len(s: Seq<(Seq<char>, u32, u32)>)
    ensures
        sort_presets(s).len() == s.len(),
    decreases s.len(),
{
    if s.len() > 0 {
        lemma_sort_presets_len(s.drop_last());
        lemma_ins_pos_range(s.last(), sort_presets(s.drop_last()), 0);
        sort_presets(s.drop_last()).insert_ensures(
            ins_pos(s.last(), sort_presets(s.drop_last()), 0),
            s.last(),
        );
    }
}

/// Every sorted entry is one of the original entries.
pub proof fn lemma_sort_presets_elements(s: Seq<(Seq<char>, u32, u32)>, k: int)
    requires
        0 <= k < sort_presets(s).len(),
    ensures
        exists|j: int| 0 <= j < s.len() && s[j] == sort_presets(s)[k],
    decreases s.len(),
{
    lemma_sort_presets_len(s);
    if s.len() > 0 {
        let rest = sort_presets(s.drop_last());
        lemma_sort_presets_len(s.drop_last());
        let pos = ins_pos(s.last(), rest, 0);
        lemma_ins_pos_range(s.last(), rest, 0);
        rest.insert_ensures(pos, s.last());
        if k == pos {
            assert(s[s.len() - 1] == sort_presets(s)[k]);
        } else if k < pos {
            assert(sort_presets(s)[k] == rest[k]);
            lemma_sort_presets_elements(s.drop_last(), k);
            let j = choose|j: int| 0 <= j < s.drop_last().len() && s.drop_last()[j] == rest[k];
            assert(s[j] == sort_presets(s)[k]);
        } else {
            assert(sort_presets(s)[k] == rest[k - 1]);
            lemma_sort_presets_elements(s.drop_last(), k - 1);
            let j = choose|j: int|
                0 <= j < s.drop_last().len() && s.drop_last()[j] == rest[k - 1];
            assert(s[j] == sort_presets(s)[k]);
        }
    }
}

/// Orders parsed preset records for presentation: stable by bank number,
/// then program number.
#[verifier::loop_isolation(false)]
pub fn sort_preset_metas(metas: &Vec<PresetMeta>) -> (r: Vec<PresetMeta>)
    ensures
        r@.map_values(|m: PresetMeta| m@) == sort_presets(
            metas@.map_values(|m: PresetMeta| m@),
        ),
{
    let ghost mv = metas@.map_values(|m: PresetMeta| m@);
    let mut out: Vec<PresetMeta> = Vec::new();
    let n = metas.len();
    let mut i: usize = 0;
    while i < n
        invariant
            n == metas@.len(),
            i <= n,
            mv == metas@.map_values(|m: PresetMeta| m@),
            out@.map_values(|m: PresetMeta| m@) == sort_presets(mv.subrange(0, i as int)),
        decreases n - i,
    {
        let ghost ov = out@.map_values(|m: PresetMeta| m@);
        proof {
            lemma_sort_presets_len(mv.subrange(0, i as int));
        }
        let m = metas[i].duplicate();
        let key: u64 = (m.bank_number as u64) * 65536 + (m.program_number as u64);
        proof {
            assert(key == preset_entry_key(mv[i as int]));
        }
        let mut j: usize = 0;
        while j < out.len() && (out[j].bank_number as u64) * 65536 + (out[j].program_number
            as u64) <= key
            invariant
                j <= out@.len(),
                ins_pos(mv[i as int], ov, 0) == ins_pos(mv[i as int], ov, j as int),
            decreases out@.len() - j,
        {
            proof {
                assert(ov[j as int] == out@[j as int]@);
            }
            j = j + 1;
        }
        proof {
            if j < out@.len() {
                assert(ov[j as int] == out@[j as int]@);
            }
            assert(ins_pos(mv[i as int], ov, j as int) == j as int);
        }
        out.insert(j, m);
        proof {
            assert(mv.subrange(0, i as int + 1).drop_last() =~= mv.subrange(0, i as int));
            assert(mv.subrange(0, i as int + 1).last() == mv[i as int]);
            assert(out@.map_values(|m: PresetMeta| m@) =~= sorted_insert(mv[i as int], ov));
        }
        i = i + 1;
    }
    proof {
        assert(mv.subrange(0, n as int) =~= mv);
    }
    out
}

} // verus!
