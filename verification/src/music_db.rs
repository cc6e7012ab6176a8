//! Decode `music_data.bin` (the IIDX 27+ wide-string format) into a dense, song-id-indexed database, and fold one
//! database into another.
//!
//! Layout (little-endian): a 16-byte header ("IIDX", version, count, index_len), an `int32[index_len]` table keyed by
//! song_id, then `count` fixed-size entries. Each entry is placed at its own song_id (read from the entry), so the
//! database is keyed by song_id; gaps hold empty, invalid slots.

use vstd::prelude::*;
use vstd::slice::slice_subrange;
use vstd::pervasive::VecAdditionalExecFns;
use crate::bytes::{le_u16, le_u32, occurs_at, read_u16_le, read_u32_le, matches_at};
use crate::common::{MusicInfo, MusicView, empty_music_view, music_views, lemma_views_push, lemma_views_update};

verus! {

/// Size in bytes of one entry of the IIDX 32 era database.
pub const ENTRY_SIZE: usize = 2040;

/// Offset of the entry's own song_id within an entry.
pub const ID_OFFSET: usize = 0x67C;

/// Why a buffer is not a music database this decoder reads.
#[derive(Debug, Clone, Copy, PartialEq, Eq)]
pub enum DbError {
    /// the buffer is shorter than the header or does not start with "IIDX"
    BadMagic,
    /// the buffer is shorter than header plus index table, or the header lists no entries
    Truncated,
    /// the entries do not divide into records of [`ENTRY_SIZE`] bytes; `found` is the average record size
    UnexpectedEntrySize { found: u64 },
    /// an entry's song_id cannot index a vector on this machine
    IdOutOfRange,
}

/// "IIDX": the database magic.
pub open spec fn iidx_magic() -> Seq<u8> {
    seq![0x49u8, 0x49u8, 0x44u8, 0x58u8]
}

fn magic_iidx() -> (m: [u8; 4])
    ensures
        m@ == iidx_magic(),
{
    let m: [u8; 4] = [0x49, 0x49, 0x44, 0x58];
    assert(m@ =~= iidx_magic());
    m
}

// ---- fields of one entry ----------------------------------------------------------------------------------------

/// The UTF-16LE code units of the `n`-unit field at `off`, from unit `k` on, up to (not including) the first NUL.
pub open spec fn units_from(s: Seq<u8>, off: int, k: nat, n: nat) -> Seq<u16>
    decreases n - k,
{
    if k >= n {
        Seq::empty()
    } else if le_u16(s, off + 2 * k) == 0 {
        Seq::empty()
    } else {
        seq![le_u16(s, off + 2 * k)] + units_from(s, off, k + 1, n)
    }
}

/// The code units of the wide-string field of `size` bytes at `off`, up to the first NUL.
pub open spec fn field_units(s: Seq<u8>, off: int, size: int) -> Seq<u16> {
    units_from(s, off, 0, (size / 2) as nat)
}

/// A leading (high) surrogate code unit.
pub open spec fn is_high_surrogate(u: u16) -> bool {
    0xD800 <= u && u < 0xDC00
}

/// A trailing (low) surrogate code unit.
pub open spec fn is_low_surrogate(u: u16) -> bool {
    0xDC00 <= u && u < 0xE000
}

/// UTF-16 decoding with U+FFFD in place of every unpaired surrogate: a high surrogate followed by a low one is one
/// supplementary character; any other surrogate unit is U+FFFD (and the unit after an unpaired high surrogate is read
/// on its own); every other unit is the character with that code.
pub open spec fn utf16_lossy(units: Seq<u16>) -> Seq<char>
    decreases units.len(),
{
    if units.len() == 0 {
        Seq::empty()
    } else if units.len() >= 2 && is_high_surrogate(units[0]) && is_low_surrogate(units[1]) {
        seq![(0x10000 + (units[0] - 0xD800) * 0x400 + (units[1] - 0xDC00)) as char] + utf16_lossy(units.skip(2))
    } else if is_high_surrogate(units[0]) || is_low_surrogate(units[0]) {
        seq!['\u{FFFD}'] + utf16_lossy(units.skip(1))
    } else {
        seq![units[0] as char] + utf16_lossy(units.skip(1))
    }
}

/// Trusted: `String::from_utf16_lossy`, which decodes UTF-16 and puts U+FFFD in place of invalid data (unpaired
/// surrogates), as [`utf16_lossy`] states.
#[verifier::external_body]
fn decode_utf16_lossy(units: &[u16]) -> (s: String)
    ensures
        s@ == utf16_lossy(units@),
{
    String::from_utf16_lossy(units)
}

/// Decode the UTF-16LE field of `size` bytes at `off`, stopping at the first NUL.
pub fn wstr(b: &[u8], off: usize, size: usize) -> (s: String)
    requires
        off + size <= b@.len(),
    ensures
        s@ == utf16_lossy(field_units(b@, off as int, size as int)),
{
    let n = size / 2;
    let len = b.len();
    let mut units: Vec<u16> = Vec::new();
    let mut k: usize = 0;
    let mut stopped = false;
    while k < n && !stopped
        invariant
            n == size / 2,
            len == b@.len(),
            off + size <= len,
            k <= n,
            !stopped ==> units@ + units_from(b@, off as int, k as nat, n as nat) == field_units(
                b@,
                off as int,
                size as int,
            ),
            stopped ==> units@ == field_units(b@, off as int, size as int),
        decreases n - k,
    {
        let u = read_u16_le(b, off + 2 * k);
        if u == 0 {
            assert(units@ + Seq::<u16>::empty() =~= units@);
            stopped = true;
        } else {
            let ghost before = units@;
            units.push(u);
            assert(before + units_from(b@, off as int, k as nat, n as nat) =~= units@ + units_from(
                b@,
                off as int,
                (k + 1) as nat,
                n as nat,
            ));
        }
        k += 1;
    }
    if !stopped {
        assert(units@ + Seq::<u16>::empty() =~= units@);
    }
    decode_utf16_lossy(units.as_slice())
}

/// The UTF-16 encoding of `s`: a character below U+10000 is one unit, any other a high and a low surrogate.
pub open spec fn utf16_encode(s: Seq<char>) -> Seq<u16>
    decreases s.len(),
{
    if s.len() == 0 {
        Seq::empty()
    } else {
        let c = (s[0] as u32) as int;
        let head = if c < 0x10000 {
            seq![c as u16]
        } else {
            seq![(0xD800 + (c - 0x10000) / 0x400) as u16, (0xDC00 + (c - 0x10000) % 0x400) as u16]
        };
        head + utf16_encode(s.skip(1))
    }
}

/// The little-endian bytes of a sequence of code units.
pub open spec fn utf16le_bytes(units: Seq<u16>) -> Seq<u8> {
    Seq::new(
        2 * units.len(),
        |i: int|
            if i % 2 == 0 {
                (units[i / 2] % 256) as u8
            } else {
                (units[i / 2] / 256) as u8
            },
    )
}

proof fn lemma_decode_encode(s: Seq<char>)
    ensures
        utf16_lossy(utf16_encode(s)) == s,
        (forall|i: int| 0 <= i < s.len() ==> s[i] != '\0') ==> forall|k: int|
            0 <= k < utf16_encode(s).len() ==> #[trigger] utf16_encode(s)[k] != 0,
    decreases s.len(),
{
    if s.len() > 0 {
        let rest = s.skip(1);
        lemma_decode_encode(rest);
        vstd::utf8::char_is_scalar(s[0]);
        vstd::utf8::char_u32_cast(s[0], s[0] as u32);
        let c = (s[0] as u32) as int;
        let e = utf16_encode(s);
        if c < 0x10000 {
            let u = c as u16;
            assert(u as int == c);
            assert(!(0xD800 <= c && c < 0xE000));
            assert(e.skip(1) =~= utf16_encode(rest));
            assert((u as char) == s[0]);
            assert(s =~= seq![s[0]] + rest);
            if (forall|i: int| 0 <= i < s.len() ==> s[i] != '\0') {
                assert forall|i: int| 0 <= i < rest.len() implies rest[i] != '\0' by {
                    assert(rest[i] == s[i + 1]);
                }
                assert(s[0] != '\0');
                assert forall|k: int| 0 <= k < e.len() implies #[trigger] e[k] != 0 by {
                    if k > 0 {
                        assert(e[k] == utf16_encode(rest)[k - 1]);
                    }
                }
            }
        } else {
            let v = c - 0x10000;
            let q = v / 0x400;
            let r = v % 0x400;
            vstd::arithmetic::div_mod::lemma_fundamental_div_mod(v, 0x400);
            assert(c <= 0x10FFFF);
            assert(0 <= q < 0x400);
            assert(0 <= r < 0x400);
            let hi = (0xD800 + q) as u16;
            let lo = (0xDC00 + r) as u16;
            assert(hi as int == 0xD800 + q);
            assert(lo as int == 0xDC00 + r);
            assert(e.skip(2) =~= utf16_encode(rest));
            assert(0x10000 + (hi - 0xD800) * 0x400 + (lo - 0xDC00) == c);
            assert(((0x10000 + (hi - 0xD800) * 0x400 + (lo - 0xDC00)) as char) == s[0]);
            assert(s =~= seq![s[0]] + rest);
            if (forall|i: int| 0 <= i < s.len() ==> s[i] != '\0') {
                assert forall|i: int| 0 <= i < rest.len() implies rest[i] != '\0' by {
                    assert(rest[i] == s[i + 1]);
                }
                assert forall|k: int| 0 <= k < e.len() implies #[trigger] e[k] != 0 by {
                    if k > 1 {
                        assert(e[k] == utf16_encode(rest)[k - 2]);
                    }
                }
            }
        }
    }
}

proof fn lemma_units_from_encoded(b: Seq<u8>, off: int, enc: Seq<u16>, k: nat, n: nat)
    requires
        k <= enc.len() <= n,
        forall|j: int| 0 <= j < enc.len() ==> #[trigger] le_u16(b, off + 2 * j) == enc[j] && enc[j] != 0,
        enc.len() < n ==> le_u16(b, off + 2 * enc.len()) == 0,
    ensures
        units_from(b, off, k, n) == enc.skip(k as int),
    decreases n - k,
{
    if k < enc.len() {
        lemma_units_from_encoded(b, off, enc, k + 1, n);
        assert(le_u16(b, off + 2 * k) == enc[k as int]);
        assert(enc.skip(k as int) =~= seq![enc[k as int]] + enc.skip(k + 1 as int));
    } else {
        assert(enc.skip(k as int) =~= Seq::<u16>::empty());
    }
}

/// Law: decoding a field that holds the little-endian UTF-16 encoding of a text without NULs, padded with zero
/// bytes, gives the text back.
pub proof fn lemma_wstr_round_trip(b: Seq<u8>, off: int, size: int, s: Seq<char>)
    requires
        0 <= off,
        0 <= size,
        off + size <= b.len(),
        2 * utf16_encode(s).len() <= size,
        b.subrange(off, off + 2 * utf16_encode(s).len()) == utf16le_bytes(utf16_encode(s)),
        forall|j: int| off + 2 * utf16_encode(s).len() <= j < off + size ==> #[trigger] b[j] == 0,
        forall|i: int| 0 <= i < s.len() ==> s[i] != '\0',
    ensures
        utf16_lossy(field_units(b, off, size)) == s,
{
    let enc = utf16_encode(s);
    let n = (size / 2) as nat;
    lemma_decode_encode(s);
    let bytes = utf16le_bytes(enc);
    assert forall|j: int| 0 <= j < enc.len() implies #[trigger] le_u16(b, off + 2 * j) == enc[j] && enc[j] != 0 by {
        assert(b[off + 2 * j] == bytes[2 * j]);
        assert(b[off + 2 * j + 1] == bytes[2 * j + 1]);
        assert((2 * j) / 2 == j);
        assert((2 * j + 1) / 2 == j);
        assert((2 * j) % 2 == 0);
        assert((2 * j + 1) % 2 == 1);
        assert(b[off + (2 * j + 1)] == b[off + 2 * j + 1]);
    }
    if enc.len() < n {
        let m = enc.len() as int;
        assert(b[off + 2 * m] == 0);
        assert(b[off + 2 * m + 1] == 0);
        assert(b[off + (2 * m + 1)] == 0);
    }
    lemma_units_from_encoded(b, off, enc, 0, n);
    assert(enc.skip(0) =~= enc);
}

/// Read a little-endian `u32` at `off` (the caller guarantees the four bytes are there).
pub fn rd_u32(b: &[u8], off: usize) -> (v: u32)
    requires
        off + 4 <= b@.len(),
    ensures
        v == le_u32(b@, off as int),
{
    read_u32_le(b, off)
}

/// Read a little-endian `u16` at `off` (the caller guarantees the two bytes are there).
pub fn rd_u16(b: &[u8], off: usize) -> (v: u16)
    requires
        off + 2 <= b@.len(),
    ensures
        v == le_u16(b@, off as int),
{
    read_u16_le(b, off)
}

/// The song one entry describes: title at 0x000 (0x100 bytes), genre at 0x140 (0x80 bytes), artist at 0x1C0 (0x100
/// bytes), version in the low byte of the `u16` at 0x3DC.
pub open spec fn spec_parse_entry(song_id: u32, e: Seq<u8>) -> MusicView {
    MusicView {
        is_valid: true,
        is_omnimix: false,
        id: song_id,
        title: utf16_lossy(field_units(e, 0x000, 0x100)),
        genre: utf16_lossy(field_units(e, 0x140, 0x80)),
        artist: utf16_lossy(field_units(e, 0x1C0, 0x100)),
        version: le_u16(e, 0x3DC) as u8,
    }
}

/// Read one fixed-size entry; `song_id` is the entry's own id, the canonical key.
pub fn parse_entry(song_id: u32, e: &[u8]) -> (info: MusicInfo)
    requires
        e@.len() >= 0x3DE,
    ensures
        info@ == spec_parse_entry(song_id, e@),
{
    MusicInfo {
        is_valid: true,
        is_omnimix: false,
        id: song_id,
        str_title: wstr(e, 0x000, 0x100),
        str_genre: wstr(e, 0x140, 0x80),
        str_artist: wstr(e, 0x1C0, 0x100),
        version: rd_u16(e, 0x3DC) as u8,
    }
}

// ---- the whole database ----------------------------------------------------------------------------------------

/// Number of entries the header announces.
pub open spec fn header_count(data: Seq<u8>) -> int {
    le_u32(data, 8) as int
}

/// Length of the song_id index table the header announces (also the song_id bound the database is sized to).
pub open spec fn header_index_len(data: Seq<u8>) -> int {
    le_u32(data, 12) as int
}

/// Where the entries start: after the header and the `int32` index table.
pub open spec fn data_start(data: Seq<u8>) -> int {
    16 + 4 * header_index_len(data)
}

/// The bytes of entry `n`.
pub open spec fn entry_bytes(data: Seq<u8>, n: int) -> Seq<u8> {
    data.subrange(data_start(data) + 2040 * n, data_start(data) + 2040 * n + 2040)
}

/// The song_id entry `n` carries.
pub open spec fn entry_id(data: Seq<u8>, n: int) -> u32 {
    le_u32(entry_bytes(data, n), 0x67C)
}

/// `db` extended with empty slots so that position `idx` exists.
pub open spec fn grown_to(db: Seq<MusicView>, idx: int) -> Seq<MusicView> {
    if idx < db.len() {
        db
    } else {
        db + Seq::new((idx + 1 - db.len()) as nat, |_i: int| empty_music_view())
    }
}

/// Extend `db` with empty slots until position `idx` exists.
fn grow_to(db: &mut Vec<MusicInfo>, idx: usize)
    requires
        idx < usize::MAX,
    ensures
        music_views(final(db)@) == grown_to(music_views(old(db)@), idx as int),
        final(db)@.len() == grown_to(music_views(old(db)@), idx as int).len(),
        idx < final(db)@.len(),
{
    let ghost prev = music_views(db@);
    while db.len() <= idx
        invariant
            prev.len() <= db@.len() <= idx + 1 || db@.len() == prev.len(),
            db@.len() >= prev.len(),
            forall|j: int| 0 <= j < prev.len() ==> #[trigger] music_views(db@)[j] == prev[j],
            forall|j: int| prev.len() <= j < db@.len() ==> #[trigger] music_views(db@)[j] == empty_music_view(),
            idx < usize::MAX,
        decreases idx + 1 - db@.len(),
    {
        let x = MusicInfo::empty();
        proof {
            lemma_views_push(db@, x);
        }
        db.push(x);
    }
    assert(music_views(db@) =~= grown_to(prev, idx as int));
}

/// The database after placing the first `k` entries, each at its own song_id, over `index_len` empty slots.
pub open spec fn index_after(data: Seq<u8>, k: nat) -> Seq<MusicView>
    decreases k,
{
    if k == 0 {
        Seq::new(header_index_len(data) as nat, |_i: int| empty_music_view())
    } else {
        let prev = index_after(data, (k - 1) as nat);
        let id = entry_id(data, k - 1) as int;
        grown_to(prev, id).update(id, spec_parse_entry(id as u32, entry_bytes(data, k - 1)))
    }
}

/// What decoding a music database gives: an error for a bad magic, a truncated header or table, entries that are not
/// [`ENTRY_SIZE`] bytes each, or a song_id no vector can reach; else every entry placed at its own song_id.
pub open spec fn spec_parse_index(data: Seq<u8>) -> Result<Seq<MusicView>, DbError> {
    if data.len() < 16 || !occurs_at(data, iidx_magic(), 0) {
        Err(DbError::BadMagic)
    } else {
        let count = header_count(data);
        let start = data_start(data);
        if start > data.len() || count == 0 {
            Err(DbError::Truncated)
        } else {
            let body = data.len() - start;
            if body % count != 0 || body / count != 2040 {
                Err(DbError::UnexpectedEntrySize { found: (body / count) as u64 })
            } else if exists|n: int| 0 <= n < count && entry_id(data, n) >= usize::MAX {
                Err(DbError::IdOutOfRange)
            } else {
                Ok(index_after(data, count as nat))
            }
        }
    }
}

/// Decode a whole music database into a vector whose position equals song_id; gaps are empty, invalid slots.
pub fn parse_index(data: &[u8]) -> (r: Result<Vec<MusicInfo>, DbError>)
    ensures
        match r {
            Ok(db) => spec_parse_index(data@) == Ok::<Seq<MusicView>, DbError>(music_views(db@)),
            Err(e) => spec_parse_index(data@) == Err::<Seq<MusicView>, DbError>(e),
        },
{
    let ghost s = data@;
    let len = data.len();
    let m = magic_iidx();
    if len < 16 || !matches_at(data, m.as_slice(), 0) {
        return Err(DbError::BadMagic);
    }
    let count = read_u32_le(data, 8);
    let index_len = read_u32_le(data, 12);
    let start64 = 16 + 4 * (index_len as u64);
    if start64 > len as u64 || count == 0 {
        return Err(DbError::Truncated);
    }
    let start = start64 as usize;
    let body = (len - start) as u64;
    if body % (count as u64) != 0 || body / (count as u64) != 2040 {
        return Err(DbError::UnexpectedEntrySize { found: body / (count as u64) });
    }
    proof {
        vstd::arithmetic::div_mod::lemma_fundamental_div_mod(body as int, count as int);
        assert(body == 2040 * count);
    }
    let ghost outcome = if exists|j: int| 0 <= j < count && entry_id(s, j) >= usize::MAX {
        Err(DbError::IdOutOfRange)
    } else {
        Ok(index_after(s, count as nat))
    };
    assert(spec_parse_index(s) == outcome);
    let mut db: Vec<MusicInfo> = Vec::new();
    let mut i: usize = 0;
    let slots = index_len as usize;
    while i < slots
        invariant
            slots == header_index_len(s),
            i <= slots,
            music_views(db@) =~= Seq::new(i as nat, |_i: int| empty_music_view()),
        decreases slots - i,
    {
        let x = MusicInfo::empty();
        proof {
            lemma_views_push(db@, x);
        }
        db.push(x);
        i += 1;
    }
    let mut n: u32 = 0;
    while n < count
        invariant
            s == data@,
            len == s.len(),
            count == header_count(s),
            start == data_start(s),
            start + 2040 * count == len,
            n <= count,
            music_views(db@) == index_after(s, n as nat),
            forall|j: int| 0 <= j < n ==> entry_id(s, j) < usize::MAX,
            spec_parse_index(s) == outcome,
            outcome == (if exists|j: int| 0 <= j < count && entry_id(s, j) >= usize::MAX {
                Err(DbError::IdOutOfRange)
            } else {
                Ok(index_after(s, count as nat))
            }),
        decreases count - n,
    {
        let off = start + 2040 * (n as usize);
        let e = slice_subrange(data, off, off + 2040);
        assert(e@ == entry_bytes(s, n as int));
        let song_id = rd_u32(e, ID_OFFSET);
        if song_id as u64 >= usize::MAX as u64 {
            assert(entry_id(s, n as int) >= usize::MAX);
            return Err(DbError::IdOutOfRange);
        }
        let idx = song_id as usize;
        let ghost prev = index_after(s, n as nat);
        grow_to(&mut db, idx);
        let info = parse_entry(song_id, e);
        proof {
            lemma_views_update(db@, idx as int, info);
        }
        db.set(idx, info);
        assert(music_views(db@) =~= grown_to(prev, idx as int).update(idx as int, info@));
        n += 1;
    }
    assert(!(exists|j: int| 0 <= j < count && entry_id(s, j) >= usize::MAX));
    Ok(db)
}

// ---- merging one database into another -------------------------------------------------------------------------

/// The overlay song as it is placed: every field kept, the omnimix flag set to `mark_omnimix`.
pub open spec fn marked(info: MusicView, mark_omnimix: bool) -> MusicView {
    MusicView {
        is_valid: info.is_valid,
        is_omnimix: mark_omnimix,
        id: info.id,
        title: info.title,
        genre: info.genre,
        artist: info.artist,
        version: info.version,
    }
}

/// Folding one overlay song into `db`: an invalid song changes nothing; a valid one grows `db` to reach its id and
/// is placed there when the slot is a gap or `overwrite` holds.
pub open spec fn merge_step(db: Seq<MusicView>, info: MusicView, overwrite: bool, mark_omnimix: bool) -> Seq<
    MusicView,
> {
    if !info.is_valid {
        db
    } else {
        let idx = info.id as int;
        let grown = grown_to(db, idx);
        if !grown[idx].is_valid || overwrite {
            grown.update(idx, marked(info, mark_omnimix))
        } else {
            grown
        }
    }
}

/// Whether folding `info` into `db` fills a gap (a slot that held no valid song).
pub open spec fn merge_step_adds(db: Seq<MusicView>, info: MusicView) -> bool {
    info.is_valid && !grown_to(db, info.id as int)[info.id as int].is_valid
}

/// `db` after folding in every overlay song, in order.
pub open spec fn merge_all(db: Seq<MusicView>, overlay: Seq<MusicView>, overwrite: bool, mark_omnimix: bool) -> Seq<
    MusicView,
>
    decreases overlay.len(),
{
    if overlay.len() == 0 {
        db
    } else {
        merge_step(merge_all(db, overlay.drop_last(), overwrite, mark_omnimix), overlay.last(), overwrite, mark_omnimix)
    }
}

/// How many overlay songs filled a gap while folding `overlay` into `db`.
pub open spec fn merge_added(db: Seq<MusicView>, overlay: Seq<MusicView>, overwrite: bool, mark_omnimix: bool) -> nat
    decreases overlay.len(),
{
    if overlay.len() == 0 {
        0
    } else {
        merge_added(db, overlay.drop_last(), overwrite, mark_omnimix) + if merge_step_adds(
            merge_all(db, overlay.drop_last(), overwrite, mark_omnimix),
            overlay.last(),
        ) {
            1nat
        } else {
            0nat
        }
    }
}

/// Every overlay song has an id that can index a vector on this machine.
pub open spec fn ids_addressable(overlay: Seq<MusicInfo>) -> bool {
    forall|i: int| 0 <= i < overlay.len() ==> (#[trigger] overlay[i]).id < usize::MAX
}

/// Fold an overlay database into the base. `overwrite`: overlay songs replace existing base songs; otherwise only
/// gaps are filled and existing songs win. `mark_omnimix`: the flag every placed song gets. Returns the number of
/// gaps filled.
fn merge_into(
    vec_base: &mut Vec<MusicInfo>,
    vec_overlay: Vec<MusicInfo>,
    overwrite: bool,
    mark_omnimix: bool,
) -> (count_added: usize)
    requires
        ids_addressable(vec_overlay@),
    ensures
        music_views(final(vec_base)@) == merge_all(
            music_views(old(vec_base)@),
            music_views(vec_overlay@),
            overwrite,
            mark_omnimix,
        ),
        count_added == merge_added(music_views(old(vec_base)@), music_views(vec_overlay@), overwrite, mark_omnimix),
{
    let ghost base0 = music_views(vec_base@);
    let ghost orig = vec_overlay@;
    let ghost ov = music_views(orig);
    let mut overlay = vec_overlay;
    let mut count_added: usize = 0;
    let mut k: usize = 0;
    assert(ov.take(0) =~= Seq::<MusicView>::empty());
    while k < overlay.len()
        invariant
            overlay@.len() == orig.len(),
            ov == music_views(orig),
            ids_addressable(orig),
            k <= orig.len(),
            forall|j: int| k <= j < orig.len() ==> #[trigger] overlay@[j] == orig[j],
            music_views(vec_base@) == merge_all(base0, ov.take(k as int), overwrite, mark_omnimix),
            count_added == merge_added(base0, ov.take(k as int), overwrite, mark_omnimix),
            count_added <= k,
        decreases orig.len() - k,
    {
        let ghost before = music_views(vec_base@);
        assert(ov.take(k + 1).drop_last() =~= ov.take(k as int));
        assert(ov.take(k + 1).last() == orig[k as int]@);
        let mut info = MusicInfo::empty();
        overlay.set_and_swap(k, &mut info);
        assert(info == orig[k as int]);
        if info.is_valid {
            assert(orig[k as int].id < usize::MAX);
            let idx = info.id as usize;
            grow_to(vec_base, idx);
            let is_gap = !vec_base[idx].is_valid;
            if is_gap || overwrite {
                info.is_omnimix = mark_omnimix;
                proof {
                    lemma_views_update(vec_base@, idx as int, info);
                }
                vec_base.set(idx, info);
            }
            if is_gap {
                count_added += 1;
            }
        }
        assert(music_views(vec_base@) =~= merge_step(before, orig[k as int]@, overwrite, mark_omnimix));
        k += 1;
    }
    assert(ov.take(k as int) =~= ov);
    count_added
}

/// Fold an overlay database into the base with the overlay winning: it overwrites existing songs and fills gaps.
/// Returns how many ids were newly added (not already valid in the base).
pub fn merge_override(vec_base: &mut Vec<MusicInfo>, vec_overlay: Vec<MusicInfo>) -> (count_added: usize)
    requires
        ids_addressable(vec_overlay@),
    ensures
        music_views(final(vec_base)@) == merge_all(music_views(old(vec_base)@), music_views(vec_overlay@), true, false),
        count_added == merge_added(music_views(old(vec_base)@), music_views(vec_overlay@), true, false),
{
    merge_into(vec_base, vec_overlay, true, false)
}

/// Fold an omnimix patch into the base: fill only gaps (existing songs win), flagging every revived song omnimix.
/// Returns how many were added.
pub fn merge_omnimix(vec_base: &mut Vec<MusicInfo>, vec_omni: Vec<MusicInfo>) -> (count_added: usize)
    requires
        ids_addressable(vec_omni@),
    ensures
        music_views(final(vec_base)@) == merge_all(music_views(old(vec_base)@), music_views(vec_omni@), false, true),
        count_added == merge_added(music_views(old(vec_base)@), music_views(vec_omni@), false, true),
{
    merge_into(vec_base, vec_omni, false, true)
}

// ---- properties of the database --------------------------------------------------------------------------------

/// Every valid song sits at the position equal to its song_id.
pub open spec fn well_indexed(db: Seq<MusicView>) -> bool {
    forall|i: int| 0 <= i < db.len() && (#[trigger] db[i]).is_valid ==> db[i].id == i
}

/// Number of valid songs in `db`.
pub open spec fn count_valid(db: Seq<MusicView>) -> nat
    decreases db.len(),
{
    if db.len() == 0 {
        0
    } else {
        count_valid(db.drop_last()) + if db.last().is_valid {
            1nat
        } else {
            0nat
        }
    }
}

/// Count the valid songs of a database.
pub fn count_valid_songs(db: &[MusicInfo]) -> (n: usize)
    ensures
        n == count_valid(music_views(db@)),
{
    let ghost all = music_views(db@);
    let mut n: usize = 0;
    let mut k: usize = 0;
    assert(all.take(0) =~= Seq::<MusicView>::empty());
    while k < db.len()
        invariant
            all == music_views(db@),
            k <= db@.len(),
            n <= k,
            n == count_valid(all.take(k as int)),
        decreases db@.len() - k,
    {
        assert(all.take(k + 1).drop_last() =~= all.take(k as int));
        if db[k].is_valid {
            n += 1;
        }
        k += 1;
    }
    assert(all.take(k as int) =~= all);
    n
}

proof fn lemma_grown_keeps(db: Seq<MusicView>, idx: int)
    requires
        0 <= idx,
    ensures
        grown_to(db, idx).len() == if idx < db.len() {
            db.len() as int
        } else {
            idx + 1
        },
        forall|i: int| 0 <= i < db.len() ==> #[trigger] grown_to(db, idx)[i] == db[i],
        forall|i: int| db.len() <= i < grown_to(db, idx).len() ==> #[trigger] grown_to(db, idx)[i] == empty_music_view(),
{
}

proof fn lemma_count_grown(db: Seq<MusicView>, idx: int)
    requires
        0 <= idx,
    ensures
        count_valid(grown_to(db, idx)) == count_valid(db),
    decreases idx + 1 - db.len(),
{
    lemma_grown_keeps(db, idx);
    if idx >= db.len() {
        let g = grown_to(db, idx);
        if idx == db.len() {
            assert(g.drop_last() =~= db);
        } else {
            lemma_count_grown(db, idx - 1);
            lemma_grown_keeps(db, idx - 1);
            assert(g.drop_last() =~= grown_to(db, idx - 1));
        }
    }
}

proof fn lemma_count_update(db: Seq<MusicView>, i: int, v: MusicView)
    requires
        0 <= i < db.len(),
    ensures
        count_valid(db.update(i, v)) + (if db[i].is_valid {
            1int
        } else {
            0int
        }) == count_valid(db) + (if v.is_valid {
            1int
        } else {
            0int
        }),
    decreases db.len(),
{
    let u = db.update(i, v);
    if i == db.len() - 1 {
        assert(u.drop_last() =~= db.drop_last());
    } else {
        lemma_count_update(db.drop_last(), i, v);
        assert(u.drop_last() =~= db.drop_last().update(i, v));
    }
}

/// Folding one song in adds exactly one valid song when it fills a gap, and none otherwise.
proof fn lemma_count_step(db: Seq<MusicView>, info: MusicView, overwrite: bool, mark_omnimix: bool)
    ensures
        count_valid(merge_step(db, info, overwrite, mark_omnimix)) == count_valid(db) + if merge_step_adds(db, info) {
            1int
        } else {
            0int
        },
{
    if info.is_valid {
        let idx = info.id as int;
        lemma_count_grown(db, idx);
        lemma_grown_keeps(db, idx);
        let g = grown_to(db, idx);
        if !g[idx].is_valid || overwrite {
            lemma_count_update(g, idx, marked(info, mark_omnimix));
        }
    }
}

/// Law: the count a merge returns is exactly how many more valid songs the database holds afterwards.
pub proof fn lemma_merge_count(db: Seq<MusicView>, overlay: Seq<MusicView>, overwrite: bool, mark_omnimix: bool)
    ensures
        count_valid(merge_all(db, overlay, overwrite, mark_omnimix)) == count_valid(db) + merge_added(
            db,
            overlay,
            overwrite,
            mark_omnimix,
        ),
    decreases overlay.len(),
{
    if overlay.len() > 0 {
        lemma_merge_count(db, overlay.drop_last(), overwrite, mark_omnimix);
        lemma_count_step(
            merge_all(db, overlay.drop_last(), overwrite, mark_omnimix),
            overlay.last(),
            overwrite,
            mark_omnimix,
        );
    }
}

proof fn lemma_step_keeps_index(db: Seq<MusicView>, info: MusicView, overwrite: bool, mark_omnimix: bool)
    requires
        well_indexed(db),
    ensures
        well_indexed(merge_step(db, info, overwrite, mark_omnimix)),
        merge_step(db, info, overwrite, mark_omnimix).len() >= db.len(),
        forall|i: int| 0 <= i < db.len() && db[i].is_valid ==> (#[trigger] merge_step(
            db,
            info,
            overwrite,
            mark_omnimix,
        )[i]).is_valid,
        info.is_valid ==> info.id < merge_step(db, info, overwrite, mark_omnimix).len() && merge_step(
            db,
            info,
            overwrite,
            mark_omnimix,
        )[info.id as int].is_valid,
{
    if info.is_valid {
        lemma_grown_keeps(db, info.id as int);
    }
}

/// Law: merging keeps every valid song at the position equal to its song_id.
pub proof fn lemma_merge_well_indexed(
    db: Seq<MusicView>,
    overlay: Seq<MusicView>,
    overwrite: bool,
    mark_omnimix: bool,
)
    requires
        well_indexed(db),
    ensures
        well_indexed(merge_all(db, overlay, overwrite, mark_omnimix)),
    decreases overlay.len(),
{
    if overlay.len() > 0 {
        lemma_merge_well_indexed(db, overlay.drop_last(), overwrite, mark_omnimix);
        lemma_step_keeps_index(
            merge_all(db, overlay.drop_last(), overwrite, mark_omnimix),
            overlay.last(),
            overwrite,
            mark_omnimix,
        );
    }
}

/// Law: a gap-filling merge (the omnimix one) never changes a song the base already holds.
pub proof fn lemma_merge_keeps_existing(db: Seq<MusicView>, overlay: Seq<MusicView>, mark_omnimix: bool)
    ensures
        merge_all(db, overlay, false, mark_omnimix).len() >= db.len(),
        forall|i: int| 0 <= i < db.len() && db[i].is_valid ==> #[trigger] merge_all(
            db,
            overlay,
            false,
            mark_omnimix,
        )[i] == db[i],
    decreases overlay.len(),
{
    if overlay.len() > 0 {
        let prefix = overlay.drop_last();
        lemma_merge_keeps_existing(db, prefix, mark_omnimix);
        let mid = merge_all(db, prefix, false, mark_omnimix);
        let info = overlay.last();
        if info.is_valid {
            lemma_grown_keeps(mid, info.id as int);
        }
    }
}

/// Law: in an overriding merge, each id ends up holding the last valid overlay song with that id (its omnimix flag
/// cleared).
pub proof fn lemma_merge_override_last_wins(db: Seq<MusicView>, overlay: Seq<MusicView>)
    ensures
        forall|j: int|
            0 <= j < overlay.len() && (#[trigger] overlay[j]).is_valid && (forall|k: int|
                j < k < overlay.len() && overlay[k].is_valid ==> overlay[k].id != overlay[j].id) ==> {
                let r = merge_all(db, overlay, true, false);
                overlay[j].id < r.len() && r[overlay[j].id as int] == marked(overlay[j], false)
            },
    decreases overlay.len(),
{
    if overlay.len() > 0 {
        let prefix = overlay.drop_last();
        lemma_merge_override_last_wins(db, prefix);
        let mid = merge_all(db, prefix, true, false);
        let info = overlay.last();
        if info.is_valid {
            lemma_grown_keeps(mid, info.id as int);
        }
        assert forall|j: int|
            0 <= j < overlay.len() && (#[trigger] overlay[j]).is_valid && (forall|k: int|
                j < k < overlay.len() && overlay[k].is_valid ==> overlay[k].id != overlay[j].id) implies {
            let r = merge_all(db, overlay, true, false);
            overlay[j].id < r.len() && r[overlay[j].id as int] == marked(overlay[j], false)
        } by {
            if j < overlay.len() - 1 {
                assert(prefix[j] == overlay[j]);
                assert forall|k: int| j < k < prefix.len() && prefix[k].is_valid implies prefix[k].id
                    != prefix[j].id by {
                    assert(prefix[k] == overlay[k]);
                }
                let last = overlay.len() - 1;
                if info.is_valid {
                    assert(overlay[last].id != overlay[j].id);
                }
            }
        }
    }
}

proof fn lemma_index_after_well_indexed(data: Seq<u8>, k: nat)
    ensures
        well_indexed(index_after(data, k)),
    decreases k,
{
    if k > 0 {
        lemma_index_after_well_indexed(data, (k - 1) as nat);
        let prev = index_after(data, (k - 1) as nat);
        lemma_grown_keeps(prev, entry_id(data, k - 1) as int);
    }
}

/// Law: a decoded database holds every valid song at the position equal to its song_id.
pub proof fn lemma_parse_index_well_indexed(data: Seq<u8>)
    ensures
        spec_parse_index(data) matches Ok(db) ==> well_indexed(db),
{
    if let Ok(_) = spec_parse_index(data) {
        lemma_index_after_well_indexed(data, header_count(data) as nat);
    }
}

proof fn lemma_index_after_places(data: Seq<u8>, k: nat)
    ensures
        forall|n: int|
            0 <= n < k && (forall|m: int| n < m < k ==> entry_id(data, m) != entry_id(data, n)) ==> {
                let db = index_after(data, k);
                &&& (#[trigger] entry_id(data, n)) < db.len()
                &&& db[entry_id(data, n) as int] == spec_parse_entry(entry_id(data, n), entry_bytes(data, n))
            },
    decreases k,
{
    if k > 0 {
        lemma_index_after_places(data, (k - 1) as nat);
        let prev = index_after(data, (k - 1) as nat);
        lemma_grown_keeps(prev, entry_id(data, k - 1) as int);
    }
}

/// Law: in a decoded database each entry sits at its own song_id; when several entries share an id, the last one
/// is kept.
pub proof fn lemma_parse_index_places_entries(data: Seq<u8>)
    ensures
        spec_parse_index(data) matches Ok(db) ==> forall|n: int|
            0 <= n < header_count(data) && (forall|m: int|
                n < m < header_count(data) ==> entry_id(data, m) != entry_id(data, n)) ==> {
                &&& (#[trigger] entry_id(data, n)) < db.len()
                &&& db[entry_id(data, n) as int] == spec_parse_entry(entry_id(data, n), entry_bytes(data, n))
            },
{
    if let Ok(_) = spec_parse_index(data) {
        lemma_index_after_places(data, header_count(data) as nat);
    }
}

/// Law: after a merge, every valid overlay song's id holds a valid song, and every song valid before stays valid.
pub proof fn lemma_merge_covers(db: Seq<MusicView>, overlay: Seq<MusicView>, overwrite: bool, mark_omnimix: bool)
    ensures
        merge_all(db, overlay, overwrite, mark_omnimix).len() >= db.len(),
        forall|i: int| 0 <= i < db.len() && db[i].is_valid ==> (#[trigger] merge_all(
            db,
            overlay,
            overwrite,
            mark_omnimix,
        )[i]).is_valid,
        forall|j: int| 0 <= j < overlay.len() && (#[trigger] overlay[j]).is_valid ==> {
            let r = merge_all(db, overlay, overwrite, mark_omnimix);
            overlay[j].id < r.len() && r[overlay[j].id as int].is_valid
        },
    decreases overlay.len(),
{
    if overlay.len() > 0 {
        let prefix = overlay.drop_last();
        lemma_merge_covers(db, prefix, overwrite, mark_omnimix);
        let mid = merge_all(db, prefix, overwrite, mark_omnimix);
        let info = overlay.last();
        if info.is_valid {
            lemma_grown_keeps(mid, info.id as int);
        }
        assert forall|j: int| 0 <= j < overlay.len() && (#[trigger] overlay[j]).is_valid implies {
            let r = merge_all(db, overlay, overwrite, mark_omnimix);
            overlay[j].id < r.len() && r[overlay[j].id as int].is_valid
        } by {
            if j < overlay.len() - 1 {
                assert(prefix[j] == overlay[j]);
            }
        }
    }
}

/// Every valid overlay song's id already holds a valid song in `db`.
pub open spec fn ids_present(db: Seq<MusicView>, overlay: Seq<MusicView>) -> bool {
    forall|j: int|
        0 <= j < overlay.len() && (#[trigger] overlay[j]).is_valid ==> overlay[j].id < db.len()
            && db[overlay[j].id as int].is_valid
}

proof fn lemma_merge_nothing_new(db: Seq<MusicView>, overlay: Seq<MusicView>, overwrite: bool, mark_omnimix: bool)
    requires
        ids_present(db, overlay),
    ensures
        merge_added(db, overlay, overwrite, mark_omnimix) == 0,
        merge_all(db, overlay, overwrite, mark_omnimix).len() == db.len(),
        !overwrite ==> merge_all(db, overlay, overwrite, mark_omnimix) == db,
    decreases overlay.len(),
{
    if overlay.len() > 0 {
        let prefix = overlay.drop_last();
        assert forall|j: int| 0 <= j < prefix.len() && (#[trigger] prefix[j]).is_valid implies prefix[j].id
            < db.len() && db[prefix[j].id as int].is_valid by {
            assert(prefix[j] == overlay[j]);
        }
        lemma_merge_nothing_new(db, prefix, overwrite, mark_omnimix);
        lemma_merge_covers(db, prefix, overwrite, mark_omnimix);
        let mid = merge_all(db, prefix, overwrite, mark_omnimix);
        let info = overlay.last();
        if info.is_valid {
            assert(overlay[overlay.len() - 1] == info);
            lemma_grown_keeps(mid, info.id as int);
            assert(grown_to(mid, info.id as int) =~= mid);
        }
    }
}

/// The position of the last valid overlay song with id `i`, if any.
pub open spec fn last_with_id(overlay: Seq<MusicView>, i: int) -> Option<int>
    decreases overlay.len(),
{
    if overlay.len() == 0 {
        None
    } else if overlay.last().is_valid && overlay.last().id == i {
        Some(overlay.len() - 1)
    } else {
        last_with_id(overlay.drop_last(), i)
    }
}

proof fn lemma_last_with_id_range(overlay: Seq<MusicView>, i: int)
    ensures
        last_with_id(overlay, i) matches Some(j) ==> 0 <= j < overlay.len() && overlay[j].is_valid
            && overlay[j].id == i,
    decreases overlay.len(),
{
    if overlay.len() > 0 {
        lemma_last_with_id_range(overlay.drop_last(), i);
    }
}

/// The slots of an overriding merge: the last valid overlay song with the slot's id (omnimix flag cleared), else
/// what the base held there (an empty slot past its end).
proof fn lemma_override_shape(db: Seq<MusicView>, overlay: Seq<MusicView>)
    ensures
        merge_all(db, overlay, true, false).len() >= db.len(),
        forall|i: int|
            0 <= i < merge_all(db, overlay, true, false).len() ==> #[trigger] merge_all(db, overlay, true, false)[i]
                == match last_with_id(overlay, i) {
                Some(j) => marked(overlay[j], false),
                None => if i < db.len() {
                    db[i]
                } else {
                    empty_music_view()
                },
            },
        forall|i: int|
            #![trigger last_with_id(overlay, i)]
            last_with_id(overlay, i) is Some ==> i < merge_all(db, overlay, true, false).len(),
    decreases overlay.len(),
{
    if overlay.len() > 0 {
        let prefix = overlay.drop_last();
        lemma_override_shape(db, prefix);
        let mid = merge_all(db, prefix, true, false);
        let info = overlay.last();
        if info.is_valid {
            lemma_grown_keeps(mid, info.id as int);
        }
        assert forall|i: int|
            #![trigger last_with_id(overlay, i)]
            last_with_id(overlay, i) is Some implies i < merge_all(db, overlay, true, false).len() by {
            if !(info.is_valid && info.id == i) {
                assert(last_with_id(prefix, i) is Some);
            }
        }
        assert forall|i: int| 0 <= i < merge_all(db, overlay, true, false).len() implies #[trigger] merge_all(
            db,
            overlay,
            true,
            false,
        )[i] == match last_with_id(overlay, i) {
            Some(j) => marked(overlay[j], false),
            None => if i < db.len() {
                db[i]
            } else {
                empty_music_view()
            },
        } by {
            if info.is_valid && info.id == i {
                assert(overlay[overlay.len() - 1] == info);
            } else {
                lemma_last_with_id_range(prefix, i);
                if let Some(j) = last_with_id(prefix, i) {
                    assert(prefix[j] == overlay[j]);
                }
                if i >= mid.len() {
                    assert(last_with_id(prefix, i) is None);
                }
            }
        }
    }
}

/// Law: merging the same overlay a second time with the overlay winning changes nothing and adds nothing.
pub proof fn lemma_merge_override_idempotent(db: Seq<MusicView>, overlay: Seq<MusicView>)
    ensures
        merge_all(merge_all(db, overlay, true, false), overlay, true, false) == merge_all(db, overlay, true, false),
        merge_added(merge_all(db, overlay, true, false), overlay, true, false) == 0,
{
    let r = merge_all(db, overlay, true, false);
    lemma_merge_covers(db, overlay, true, false);
    lemma_merge_nothing_new(r, overlay, true, false);
    lemma_override_shape(db, overlay);
    lemma_override_shape(r, overlay);
    let r2 = merge_all(r, overlay, true, false);
    assert forall|i: int| 0 <= i < r2.len() implies #[trigger] r2[i] == r[i] by {
        assert(r2[i] == match last_with_id(overlay, i) {
            Some(j) => marked(overlay[j], false),
            None => if i < r.len() {
                r[i]
            } else {
                empty_music_view()
            },
        });
        assert(r[i] == match last_with_id(overlay, i) {
            Some(j) => marked(overlay[j], false),
            None => if i < db.len() {
                db[i]
            } else {
                empty_music_view()
            },
        });
    }
    assert(r2 =~= r);
}

/// Law: merging the same gap-filling overlay (the omnimix one) a second time changes nothing and adds nothing.
pub proof fn lemma_merge_fill_idempotent(db: Seq<MusicView>, overlay: Seq<MusicView>, mark_omnimix: bool)
    ensures
        merge_all(merge_all(db, overlay, false, mark_omnimix), overlay, false, mark_omnimix) == merge_all(
            db,
            overlay,
            false,
            mark_omnimix,
        ),
        merge_added(merge_all(db, overlay, false, mark_omnimix), overlay, false, mark_omnimix) == 0,
{
    let r = merge_all(db, overlay, false, mark_omnimix);
    lemma_merge_covers(db, overlay, false, mark_omnimix);
    lemma_merge_nothing_new(r, overlay, false, mark_omnimix);
}

/// The `size`-byte field at `off` holds the UTF-16LE encoding of the NUL-free text `t`, padded with zero bytes.
pub open spec fn field_holds_text(e: Seq<u8>, off: int, size: int, t: Seq<char>) -> bool {
    &&& 0 <= off
    &&& 0 <= size
    &&& off + size <= e.len()
    &&& 2 * utf16_encode(t).len() <= size
    &&& e.subrange(off, off + 2 * utf16_encode(t).len()) == utf16le_bytes(utf16_encode(t))
    &&& forall|j: int| off + 2 * utf16_encode(t).len() <= j < off + size ==> #[trigger] e[j] == 0
    &&& forall|i: int| 0 <= i < t.len() ==> t[i] != '\0'
}

/// Law: an entry decodes to a valid song with the given id whose title, genre and artist are the texts its fields
/// hold (title in the 0x100 bytes at 0x000, genre in the 0x80 bytes at 0x140, artist in the 0x100 bytes at 0x1C0),
/// and whose version is the byte at 0x3DC.
pub proof fn lemma_entry_round_trip(song_id: u32, e: Seq<u8>, title: Seq<char>, genre: Seq<char>, artist: Seq<char>)
    requires
        e.len() >= 0x3DE,
    ensures
        spec_parse_entry(song_id, e).is_valid,
        !spec_parse_entry(song_id, e).is_omnimix,
        spec_parse_entry(song_id, e).id == song_id,
        spec_parse_entry(song_id, e).version == e[0x3DC],
        field_holds_text(e, 0x000, 0x100, title) ==> spec_parse_entry(song_id, e).title == title,
        field_holds_text(e, 0x140, 0x80, genre) ==> spec_parse_entry(song_id, e).genre == genre,
        field_holds_text(e, 0x1C0, 0x100, artist) ==> spec_parse_entry(song_id, e).artist == artist,
{
    if field_holds_text(e, 0x000, 0x100, title) {
        lemma_wstr_round_trip(e, 0x000, 0x100, title);
    }
    if field_holds_text(e, 0x140, 0x80, genre) {
        lemma_wstr_round_trip(e, 0x140, 0x80, genre);
    }
    if field_holds_text(e, 0x1C0, 0x100, artist) {
        lemma_wstr_round_trip(e, 0x1C0, 0x100, artist);
    }
    let lo = e[0x3DC];
    let hi = e[0x3DD];
    assert(((lo as int + 256 * (hi as int)) as u16) as u8 == lo) by (bit_vector);
}

/// The u32 at offset 0x67C of entry `n`, read straight from the file's layout.
pub open spec fn raw_entry_id(data: Seq<u8>, n: int) -> u32 {
    le_u32(data, 16 + 4 * le_u32(data, 12) + 2040 * n + 0x67C)
}

/// Law: a database decodes only when it starts with "IIDX" and is exactly the 16-byte header, the `int32` index table
/// of (u32 at offset 12) slots and (u32 at offset 8, at least one) entries of 2040 bytes. Each entry then lands at the
/// song_id stored at its offset 0x67C (the last one wins when ids repeat), decoded from its own 2040 bytes, and no
/// other slot holds a valid song.
pub proof fn lemma_parse_index_layout(data: Seq<u8>)
    ensures
        spec_parse_index(data) is Ok ==> {
            &&& data.len() >= 16
            &&& data[0] == 0x49 && data[1] == 0x49 && data[2] == 0x44 && data[3] == 0x58
            &&& le_u32(data, 8) >= 1
            &&& data.len() == 16 + 4 * le_u32(data, 12) + 2040 * le_u32(data, 8)
        },
        spec_parse_index(data) matches Ok(db) ==> forall|n: int|
            0 <= n < le_u32(data, 8) && (forall|m: int|
                n < m < le_u32(data, 8) ==> #[trigger] raw_entry_id(data, m) != raw_entry_id(data, n)) ==> {
                let start = 16 + 4 * le_u32(data, 12) + 2040 * n;
                let id = #[trigger] raw_entry_id(data, n);
                &&& id < db.len()
                &&& db[id as int] == spec_parse_entry(id, data.subrange(start, start + 2040))
            },
{
    if let Ok(db) = spec_parse_index(data) {
        let count = header_count(data);
        let body = data.len() - data_start(data);
        vstd::arithmetic::div_mod::lemma_fundamental_div_mod(body, count);
        assert(data[0int + 0] == iidx_magic()[0]);
        assert(data[0int + 1] == iidx_magic()[1]);
        assert(data[0int + 2] == iidx_magic()[2]);
        assert(data[0int + 3] == iidx_magic()[3]);
        lemma_parse_index_places_entries(data);
        assert forall|n: int| 0 <= n < count implies #[trigger] entry_id(data, n) == raw_entry_id(data, n) by {
            let e = entry_bytes(data, n);
            let st = data_start(data) + 2040 * n;
            assert(e[0x67Cint] == data[st + 0x67C]);
            assert(e[0x67Cint + 1] == data[st + 0x67C + 1]);
            assert(e[0x67Cint + 2] == data[st + 0x67C + 2]);
            assert(e[0x67Cint + 3] == data[st + 0x67C + 3]);
        }
        assert forall|n: int|
            0 <= n < le_u32(data, 8) && (forall|m: int|
                n < m < le_u32(data, 8) ==> #[trigger] raw_entry_id(data, m) != raw_entry_id(data, n)) implies {
            let start = 16 + 4 * le_u32(data, 12) + 2040 * n;
            let id = #[trigger] raw_entry_id(data, n);
            &&& id < db.len()
            &&& db[id as int] == spec_parse_entry(id, data.subrange(start, start + 2040))
        } by {
            assert(entry_id(data, n) == raw_entry_id(data, n));
            assert forall|m: int| n < m < header_count(data) implies entry_id(data, m) != entry_id(data, n) by {
                assert(entry_id(data, m) == raw_entry_id(data, m));
                assert(raw_entry_id(data, m) != raw_entry_id(data, n));
            }
            assert(entry_bytes(data, n) == data.subrange(
                16 + 4 * le_u32(data, 12) + 2040 * n,
                16 + 4 * le_u32(data, 12) + 2040 * n + 2040,
            ));
        }
    }
}

} // verus!
