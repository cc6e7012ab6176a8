//! Extract a song's full-mix audio out of its container, yielding the raw WMA or WAV bytes for the transcoder.
//!
//! Every container reduces to "find the largest block": an `.s3p` (or an `S3P0` inside an `.ifs`) holds `S3V0` blocks
//! wrapping WMA, the biggest being the full mix; a `.2dx` (or the `2DX9` sequence inside an old `.ifs`) holds `2DX9`
//! blocks wrapping RIFF/WAVE, the biggest being the full mix. An old 2dx-only `.ifs` can contain a stray `S3P0` byte
//! pattern, so a failed s3p extraction there falls back to the 2DX9 path; some `.2dx` are a bare RIFF/WAVE.

use vstd::prelude::*;
use vstd::slice::slice_subrange;
use vstd::slice::slice_to_vec;
use vstd::string::StrSliceExecFns;
use crate::text::{ascii_lower, eq_ignore_ascii_case};
use crate::bytes::{le_u32, occurs_at, read_u32_le, matches_at, find_from, lemma_no_self_overlap};

verus! {

// ---- magic numbers ----------------------------------------------------------------------------------------------

/// "S3P0": an s3p archive header.
pub open spec fn s3p0_magic() -> Seq<u8> {
    seq![0x53u8, 0x33u8, 0x50u8, 0x30u8]
}

/// "S3V0": one s3p entry, wrapping ASF/WMA.
pub open spec fn s3v0_magic() -> Seq<u8> {
    seq![0x53u8, 0x33u8, 0x56u8, 0x30u8]
}

/// "2DX9": one 2dx block, wrapping RIFF/WAVE.
pub open spec fn dx9_magic() -> Seq<u8> {
    seq![0x32u8, 0x44u8, 0x58u8, 0x39u8]
}

/// "RIFF": the start of a RIFF/WAVE file.
pub open spec fn riff_magic() -> Seq<u8> {
    seq![0x52u8, 0x49u8, 0x46u8, 0x46u8]
}

fn magic_s3p0() -> (m: [u8; 4])
    ensures
        m@ == s3p0_magic(),
{
    let m: [u8; 4] = [0x53, 0x33, 0x50, 0x30];
    assert(m@ =~= s3p0_magic());
    m
}

fn magic_s3v0() -> (m: [u8; 4])
    ensures
        m@ == s3v0_magic(),
{
    let m: [u8; 4] = [0x53, 0x33, 0x56, 0x30];
    assert(m@ =~= s3v0_magic());
    m
}

fn magic_2dx9() -> (m: [u8; 4])
    ensures
        m@ == dx9_magic(),
{
    let m: [u8; 4] = [0x32, 0x44, 0x58, 0x39];
    assert(m@ =~= dx9_magic());
    m
}

fn magic_riff() -> (m: [u8; 4])
    ensures
        m@ == riff_magic(),
{
    let m: [u8; 4] = [0x52, 0x49, 0x46, 0x46];
    assert(m@ =~= riff_magic());
    m
}


// ---- errors and results -----------------------------------------------------------------------------------------

/// Why a container yielded no audio.
#[derive(Debug, Clone, Copy, PartialEq, Eq)]
pub enum UnpackError {
    /// the S3P0 header position lies past the end of the data
    S3pBaseOutOfRange,
    /// the S3P0 header is cut short before its entry count
    S3pHeaderTruncated,
    /// the S3P0 entry table runs past the end of the data
    S3pTableTruncated,
    /// the S3P0 archive lists no entries
    S3pNoEntries,
    /// the largest entry runs past the end of the data
    S3pEntryOutOfRange,
    /// the largest entry does not start with "S3V0"
    NotS3v0Block,
    /// the S3V0 block is too short to hold its header fields
    S3v0HeaderTruncated,
    /// the S3V0 payload runs past the end of its block
    S3v0PayloadOutOfRange,
    /// no valid 2DX9 block was found and the data is not a bare RIFF/WAVE
    NoAudioBlock,
}

/// The extracted full-mix audio, tagged by codec so the transcoder picks the right input handling.
pub enum AudioBlob {
    /// ASF/WMA bytes from an S3V0 block (s3p family)
    Wma(Vec<u8>),
    /// RIFF/WAVE bytes from a 2DX9 block (2dx family)
    Wav(Vec<u8>),
}

/// The content of an [`AudioBlob`].
pub enum BlobView {
    Wma(Seq<u8>),
    Wav(Seq<u8>),
}

impl View for AudioBlob {
    type V = BlobView;

    open spec fn view(&self) -> BlobView {
        match self {
            AudioBlob::Wma(v) => BlobView::Wma(v@),
            AudioBlob::Wav(v) => BlobView::Wav(v@),
        }
    }
}

/// The audio bytes of a blob, whatever the codec.
pub open spec fn blob_payload(b: BlobView) -> Seq<u8> {
    match b {
        BlobView::Wma(s) => s,
        BlobView::Wav(s) => s,
    }
}

impl AudioBlob {
    /// Byte length of the contained audio, for diagnostics.
    pub fn len(&self) -> (n: usize)
        ensures
            n == blob_payload(self@).len(),
    {
        match self {
            AudioBlob::Wma(v) => v.len(),
            AudioBlob::Wav(v) => v.len(),
        }
    }

    /// The raw audio bytes, to be written to the transcoder's input file.
    pub fn bytes(&self) -> (b: &[u8])
        ensures
            b@ == blob_payload(self@),
    {
        match self {
            AudioBlob::Wma(v) => v.as_slice(),
            AudioBlob::Wav(v) => v.as_slice(),
        }
    }

    /// File extension for the transcoder's input file, so it picks the right demuxer.
    pub fn input_ext(&self) -> (ext: &'static str)
        ensures
            ext@ == (match self@ {
                BlobView::Wma(_) => "wma"@,
                BlobView::Wav(_) => "wav"@,
            }),
    {
        match self {
            AudioBlob::Wma(_) => "wma",
            AudioBlob::Wav(_) => "wav",
        }
    }
}

// ---- s3p (WMA) --------------------------------------------------------------------------------------------------

/// Offset (relative to the S3P0 header at `base`) of entry `i`.
pub open spec fn s3p_entry_offset(data: Seq<u8>, base: int, i: int) -> u32 {
    le_u32(data, base + 8 + 8 * i)
}

/// Size of entry `i` of the S3P0 archive at `base`.
pub open spec fn s3p_entry_size(data: Seq<u8>, base: int, i: int) -> u32 {
    le_u32(data, base + 12 + 8 * i)
}

/// Index of the largest of the first `n` entries; the first one wins a tie.
pub open spec fn largest_s3p_entry(data: Seq<u8>, base: int, n: nat) -> nat
    decreases n,
{
    if n <= 1 {
        0
    } else {
        let b = largest_s3p_entry(data, base, (n - 1) as nat);
        if s3p_entry_size(data, base, n - 1) > s3p_entry_size(data, base, b as int) {
            (n - 1) as nat
        } else {
            b
        }
    }
}

/// The largest entry is no smaller than any entry, and strictly larger than every entry before it.
pub proof fn lemma_largest_s3p_entry(data: Seq<u8>, base: int, n: nat)
    requires
        n >= 1,
    ensures
        largest_s3p_entry(data, base, n) < n,
        forall|j: int| 0 <= j < n ==> #[trigger] s3p_entry_size(data, base, j) <= s3p_entry_size(
            data,
            base,
            largest_s3p_entry(data, base, n) as int,
        ),
        forall|j: int| 0 <= j < largest_s3p_entry(data, base, n) ==> #[trigger] s3p_entry_size(data, base, j)
            < s3p_entry_size(data, base, largest_s3p_entry(data, base, n) as int),
    decreases n,
{
    if n > 1 {
        lemma_largest_s3p_entry(data, base, (n - 1) as nat);
    }
}

/// What extracting the full mix from the S3P0 archive whose header sits at `base` gives: the payload of the largest
/// entry's S3V0 block, or the first check that fails. Entry offsets are relative to `base`.
pub open spec fn spec_extract_s3p(data: Seq<u8>, base: int) -> Result<Seq<u8>, UnpackError> {
    let len = data.len() as int;
    if base > len {
        Err(UnpackError::S3pBaseOutOfRange)
    } else if base + 8 > len {
        Err(UnpackError::S3pHeaderTruncated)
    } else {
        let count = le_u32(data, base + 4) as int;
        if base + 8 + 8 * count > len {
            Err(UnpackError::S3pTableTruncated)
        } else if count == 0 {
            Err(UnpackError::S3pNoEntries)
        } else {
            let k = largest_s3p_entry(data, base, count as nat) as int;
            let start = base + s3p_entry_offset(data, base, k);
            let size = s3p_entry_size(data, base, k) as int;
            if start + size > len {
                Err(UnpackError::S3pEntryOutOfRange)
            } else if size < 4 || !occurs_at(data, s3v0_magic(), start) {
                Err(UnpackError::NotS3v0Block)
            } else if size < 12 {
                Err(UnpackError::S3v0HeaderTruncated)
            } else {
                let header_size = le_u32(data, start + 4) as int;
                let data_size = le_u32(data, start + 8) as int;
                if header_size + data_size > size {
                    Err(UnpackError::S3v0PayloadOutOfRange)
                } else {
                    Ok(data.subrange(start + header_size, start + header_size + data_size))
                }
            }
        }
    }
}

/// Extract the largest S3V0 entry's WMA payload, where the S3P0 header sits at `base` within `data` (0 for a loose
/// `.s3p`; the scan offset for one inside an `.ifs`).
pub fn extract_s3p_wma(data: &[u8], base: usize) -> (r: Result<Vec<u8>, UnpackError>)
    ensures
        match r {
            Ok(w) => spec_extract_s3p(data@, base as int) == Ok::<Seq<u8>, UnpackError>(w@),
            Err(e) => spec_extract_s3p(data@, base as int) == Err::<Seq<u8>, UnpackError>(e),
        },
{
    let len = data.len();
    if base > len {
        return Err(UnpackError::S3pBaseOutOfRange);
    }
    if len - base < 8 {
        return Err(UnpackError::S3pHeaderTruncated);
    }
    let count = read_u32_le(data, base + 4);
    if ((len - base - 8) as u64) < 8 * (count as u64) {
        return Err(UnpackError::S3pTableTruncated);
    }
    if count == 0 {
        return Err(UnpackError::S3pNoEntries);
    }
    let ghost s = data@;
    let mut best: u32 = 0;
    let mut best_size = read_u32_le(data, base + 12);
    let mut i: u32 = 1;
    while i < count
        invariant
            s == data@,
            len == data@.len(),
            count == le_u32(s, base + 4),
            base + 8 + 8 * count <= len,
            1 <= i <= count,
            best as nat == largest_s3p_entry(s, base as int, i as nat),
            best_size == s3p_entry_size(s, base as int, best as int),
        decreases count - i,
    {
        let size = read_u32_le(data, base + 12 + 8 * (i as usize));
        if size > best_size {
            best = i;
            best_size = size;
        }
        i += 1;
    }
    proof {
        lemma_largest_s3p_entry(s, base as int, count as nat);
    }
    let off = read_u32_le(data, base + 8 + 8 * (best as usize));
    if off as u64 + best_size as u64 > (len - base) as u64 {
        return Err(UnpackError::S3pEntryOutOfRange);
    }
    let start = base + off as usize;
    let size = best_size as usize;
    let m = magic_s3v0();
    if size < 4 || !matches_at(data, m.as_slice(), start) {
        return Err(UnpackError::NotS3v0Block);
    }
    if size < 12 {
        return Err(UnpackError::S3v0HeaderTruncated);
    }
    let header_size = read_u32_le(data, start + 4) as u64;
    let data_size = read_u32_le(data, start + 8) as u64;
    if header_size + data_size > size as u64 {
        return Err(UnpackError::S3v0PayloadOutOfRange);
    }
    let from = start + header_size as usize;
    let to = from + data_size as usize;
    Ok(slice_to_vec(slice_subrange(data, from, to)))
}

/// A position where a plausible S3P0 header starts: the magic, a count in 1..=100000, and an entry table that fits.
pub open spec fn plausible_s3p0_at(data: Seq<u8>, p: int) -> bool {
    &&& occurs_at(data, s3p0_magic(), p)
    &&& p + 8 <= data.len()
    &&& 1 <= le_u32(data, p + 4) <= 100_000
    &&& p + 8 + 8 * le_u32(data, p + 4) <= data.len()
}

/// The first plausible S3P0 position at or after `from`.
pub open spec fn first_plausible_s3p0_from(data: Seq<u8>, from: int) -> Option<int>
    decreases data.len() - from,
{
    if from < 0 || from >= data.len() {
        None
    } else if plausible_s3p0_at(data, from) {
        Some(from)
    } else {
        first_plausible_s3p0_from(data, from + 1)
    }
}

/// The first plausible S3P0 position in `data`.
pub open spec fn first_plausible_s3p0(data: Seq<u8>) -> Option<int> {
    first_plausible_s3p0_from(data, 0)
}

proof fn lemma_first_plausible_skip(data: Seq<u8>, a: int, b: int)
    requires
        0 <= a <= b,
        forall|j: int| a <= j < b ==> !plausible_s3p0_at(data, j),
    ensures
        first_plausible_s3p0_from(data, a) == first_plausible_s3p0_from(data, b),
    decreases b - a,
{
    if a < b {
        lemma_first_plausible_skip(data, a + 1, b);
    }
}

proof fn lemma_first_plausible_found(data: Seq<u8>, p: int)
    requires
        0 <= p,
        plausible_s3p0_at(data, p),
    ensures
        first_plausible_s3p0_from(data, p) == Some(p),
{
}

proof fn lemma_first_plausible_none(data: Seq<u8>, a: int)
    requires
        0 <= a,
        forall|j: int| a <= j ==> !plausible_s3p0_at(data, j),
    ensures
        first_plausible_s3p0_from(data, a) == None::<int>,
    decreases data.len() - a,
{
    if a < data.len() {
        lemma_first_plausible_none(data, a + 1);
    }
}

/// Locate the first plausible S3P0 header in `data`. A rare stray "S3P0" byte pattern can still pass, which is why the
/// packed path falls back to 2DX9 when the s3p extraction fails.
pub fn find_valid_s3p0(data: &[u8]) -> (r: Option<usize>)
    ensures
        match r {
            Some(p) => first_plausible_s3p0(data@) == Some(p as int),
            None => first_plausible_s3p0(data@) == None::<int>,
        },
{
    let ghost s = data@;
    let len = data.len();
    let m = magic_s3p0();
    let mut pos: usize = 0;
    loop
        invariant
            s == data@,
            len == s.len(),
            m@ == s3p0_magic(),
            pos <= len,
            first_plausible_s3p0(s) == first_plausible_s3p0_from(s, pos as int),
        decreases len - pos,
    {
        match find_from(data, m.as_slice(), pos) {
            None => {
                proof {
                    lemma_first_plausible_none(s, pos as int);
                }
                return None;
            },
            Some(p) => {
                proof {
                    lemma_first_plausible_skip(s, pos as int, p as int);
                }
                if len - p >= 8 {
                    let count = read_u32_le(data, p + 4);
                    if 1 <= count && count <= 100_000 && ((len - p - 8) as u64) >= 8 * (count as u64) {
                        proof {
                            lemma_first_plausible_found(s, p as int);
                        }
                        return Some(p);
                    }
                }
                assert(!plausible_s3p0_at(s, p as int));
                proof {
                    assert forall|j: int| p < j < p + 4 implies !plausible_s3p0_at(s, j) by {
                        assert forall|t: int| 0 < t < s3p0_magic().len() implies #[trigger] s3p0_magic()[t]
                            != s3p0_magic()[0] by {}
                        lemma_no_self_overlap(s, s3p0_magic(), p as int, j);
                    }
                    lemma_first_plausible_skip(s, p as int, p + 4);
                }
                pos = p + 4;
            },
        }
    }
}

// ---- 2dx (WAV) --------------------------------------------------------------------------------------------------

/// The 2DX9 block at `p` as (payload offset, payload size), when its header fits and its payload lies inside the
/// data, is at least 4 bytes long and starts with "RIFF"; `None` otherwise.
pub open spec fn spec_block_2dx9(data: Seq<u8>, p: int) -> Option<(int, int)> {
    if p + 12 > data.len() {
        None
    } else {
        let doff = p + le_u32(data, p + 4);
        let size = le_u32(data, p + 8) as int;
        if size >= 4 && doff + size <= data.len() && occurs_at(data, riff_magic(), doff) {
            Some((doff, size))
        } else {
            None
        }
    }
}

/// The largest valid 2DX9 block starting before position `n`; the first one wins a tie.
pub open spec fn best_2dx9_below(data: Seq<u8>, n: nat) -> Option<(int, int)>
    decreases n,
{
    if n == 0 {
        None
    } else {
        let b = best_2dx9_below(data, (n - 1) as nat);
        let p = n - 1;
        let here = spec_block_2dx9(data, p);
        if occurs_at(data, dx9_magic(), p) && here is Some && (b is None || here.unwrap().1 > b.unwrap().1) {
            here
        } else {
            b
        }
    }
}

/// The payload of the largest valid 2DX9 block in `data`, or `None` when there is none.
pub open spec fn spec_largest_2dx9(data: Seq<u8>) -> Option<Seq<u8>> {
    match best_2dx9_below(data, data.len()) {
        Some((doff, size)) => Some(data.subrange(doff, doff + size)),
        None => None,
    }
}

proof fn lemma_best_2dx9_skip(data: Seq<u8>, a: nat, b: nat)
    requires
        a <= b,
        forall|j: int| a <= j < b ==> !occurs_at(data, dx9_magic(), j),
    ensures
        best_2dx9_below(data, b) == best_2dx9_below(data, a),
    decreases b - a,
{
    if a < b {
        lemma_best_2dx9_skip(data, a, (b - 1) as nat);
    }
}

proof fn lemma_best_2dx9_inside(data: Seq<u8>, n: nat)
    ensures
        best_2dx9_below(data, n) matches Some((doff, size)) ==> 0 <= doff && 0 <= size && doff + size
            <= data.len() && occurs_at(data, riff_magic(), doff),
    decreases n,
{
    if n > 0 {
        lemma_best_2dx9_inside(data, (n - 1) as nat);
    }
}

/// Validate a 2DX9 block at `p`: its payload (offset, size) when the sizes are in range and the payload is a
/// RIFF/WAVE, else `None` (truncated header, out of range, or a stray "2DX9" pattern inside audio data).
pub fn block_2dx9(data: &[u8], p: usize) -> (r: Option<(usize, usize)>)
    ensures
        match r {
            Some((doff, size)) => spec_block_2dx9(data@, p as int) == Some((doff as int, size as int)),
            None => spec_block_2dx9(data@, p as int) == None::<(int, int)>,
        },
{
    let len = data.len();
    if p > len || len - p < 12 {
        return None;
    }
    let header_size = read_u32_le(data, p + 4) as u64;
    let data_size = read_u32_le(data, p + 8) as u64;
    if data_size < 4 || header_size + data_size > (len - p) as u64 {
        return None;
    }
    let doff = p + header_size as usize;
    let m = magic_riff();
    if !matches_at(data, m.as_slice(), doff) {
        return None;
    }
    Some((doff, data_size as usize))
}

/// The payload of the largest valid 2DX9 block, or `None` when no block validates.
pub fn largest_2dx9_block(data: &[u8]) -> (r: Option<Vec<u8>>)
    ensures
        match r {
            Some(w) => spec_largest_2dx9(data@) == Some(w@),
            None => spec_largest_2dx9(data@) == None::<Seq<u8>>,
        },
{
    let ghost s = data@;
    let len = data.len();
    let m = magic_2dx9();
    let mut best: Option<(usize, usize)> = None;
    let mut pos: usize = 0;
    loop
        invariant
            s == data@,
            len == s.len(),
            m@ == dx9_magic(),
            pos <= len,
            match best {
                Some((doff, size)) => best_2dx9_below(s, pos as nat) == Some((doff as int, size as int)),
                None => best_2dx9_below(s, pos as nat) == None::<(int, int)>,
            },
        ensures
            match best {
                Some((doff, size)) => best_2dx9_below(s, len as nat) == Some((doff as int, size as int)),
                None => best_2dx9_below(s, len as nat) == None::<(int, int)>,
            },
        decreases len - pos,
    {
        match find_from(data, m.as_slice(), pos) {
            None => {
                proof {
                    lemma_best_2dx9_skip(s, pos as nat, len as nat);
                }
                break;
            },
            Some(p) => {
                proof {
                    lemma_best_2dx9_skip(s, pos as nat, p as nat);
                }
                match block_2dx9(data, p) {
                    Some((doff, size)) => {
                        let better = match best {
                            None => true,
                            Some((_, best_size)) => size > best_size,
                        };
                        if better {
                            best = Some((doff, size));
                        }
                    },
                    None => {},
                }
                assert(match best {
                    Some((doff, size)) => best_2dx9_below(s, (p + 1) as nat) == Some((doff as int, size as int)),
                    None => best_2dx9_below(s, (p + 1) as nat) == None::<(int, int)>,
                });
                proof {
                    assert forall|j: int| p + 1 <= j < p + 4 implies !occurs_at(s, dx9_magic(), j) by {
                        assert forall|t: int| 0 < t < dx9_magic().len() implies #[trigger] dx9_magic()[t]
                            != dx9_magic()[0] by {}
                        lemma_no_self_overlap(s, dx9_magic(), p as int, j);
                    }
                    lemma_best_2dx9_skip(s, (p + 1) as nat, (p + 4) as nat);
                }
                pos = p + 4;
            },
        }
    }
    proof {
        lemma_best_2dx9_inside(s, len as nat);
    }
    match best {
        Some((doff, size)) => Some(slice_to_vec(slice_subrange(data, doff, doff + size))),
        None => None,
    }
}

/// What extracting the full mix from a 2dx-family container gives: the largest 2DX9 block's payload, or, when no
/// block validates, the whole buffer if it is a bare RIFF/WAVE.
pub open spec fn spec_extract_2dx(data: Seq<u8>) -> Result<Seq<u8>, UnpackError> {
    match spec_largest_2dx9(data) {
        Some(w) => Ok(w),
        None => if occurs_at(data, riff_magic(), 0) {
            Ok(data)
        } else {
            Err(UnpackError::NoAudioBlock)
        },
    }
}

/// Extract the full-mix WAV from a 2dx-family container.
pub fn extract_2dx_wav(data: &[u8]) -> (r: Result<Vec<u8>, UnpackError>)
    ensures
        match r {
            Ok(w) => spec_extract_2dx(data@) == Ok::<Seq<u8>, UnpackError>(w@),
            Err(e) => spec_extract_2dx(data@) == Err::<Seq<u8>, UnpackError>(e),
        },
{
    if let Some(wav) = largest_2dx9_block(data) {
        return Ok(wav);
    }
    let m = magic_riff();
    if matches_at(data, m.as_slice(), 0) {
        return Ok(slice_to_vec(data));
    }
    Err(UnpackError::NoAudioBlock)
}

// ---- the whole extraction ---------------------------------------------------------------------------------------

/// A song's resolved audio container, read into memory.
pub enum AudioSource {
    /// a loose audio file (`.s3p` or `.2dx`): its bytes and its file extension (empty when it has none)
    Loose { data: Vec<u8>, extension: String },
    /// a packed `.ifs` archive: its bytes
    Ifs(Vec<u8>),
}

/// The content of an [`AudioSource`].
pub enum SourceView {
    Loose { data: Seq<u8>, extension: Seq<char> },
    Ifs(Seq<u8>),
}

impl View for AudioSource {
    type V = SourceView;

    open spec fn view(&self) -> SourceView {
        match self {
            AudioSource::Loose { data, extension } => SourceView::Loose { data: data@, extension: extension@ },
            AudioSource::Ifs(data) => SourceView::Ifs(data@),
        }
    }
}

/// The extension is "s3p", ignoring ASCII case.
pub open spec fn is_s3p_ext(ext: Seq<char>) -> bool {
    &&& ext.len() == 3
    &&& (ext[0] == 's' || ext[0] == 'S')
    &&& ext[1] == '3'
    &&& (ext[2] == 'p' || ext[2] == 'P')
}

/// Whether a file extension names an s3p archive ("s3p", ignoring ASCII case).
pub fn is_s3p_extension(ext: &str) -> (r: bool)
    ensures
        r == is_s3p_ext(ext@),
{
    if ext.unicode_len() != 3 {
        return false;
    }
    let c0 = ext.get_char(0);
    let c1 = ext.get_char(1);
    let c2 = ext.get_char(2);
    (c0 == 's' || c0 == 'S') && c1 == '3' && (c2 == 'p' || c2 == 'P')
}

/// What extracting a source's full mix gives. A loose `.s3p` is read as an S3P0 archive at offset 0, any other loose
/// file as a 2dx container. An `.ifs` is read through its first plausible S3P0 header when that extraction succeeds,
/// and as a 2dx container otherwise.
pub open spec fn spec_unpack(src: SourceView) -> Result<BlobView, UnpackError> {
    match src {
        SourceView::Loose { data, extension } => if is_s3p_ext(extension) {
            match spec_extract_s3p(data, 0) {
                Ok(w) => Ok(BlobView::Wma(w)),
                Err(e) => Err(e),
            }
        } else {
            match spec_extract_2dx(data) {
                Ok(w) => Ok(BlobView::Wav(w)),
                Err(e) => Err(e),
            }
        },
        SourceView::Ifs(data) => {
            let embedded = first_plausible_s3p0(data);
            if embedded is Some && spec_extract_s3p(data, embedded->0) is Ok {
                Ok(BlobView::Wma(spec_extract_s3p(data, embedded->0)->Ok_0))
            } else {
                match spec_extract_2dx(data) {
                    Ok(w) => Ok(BlobView::Wav(w)),
                    Err(e) => Err(e),
                }
            }
        },
    }
}

/// Extract the full-mix audio from a song's audio source.
pub fn unpack(src: &AudioSource) -> (r: Result<AudioBlob, UnpackError>)
    ensures
        match r {
            Ok(b) => spec_unpack(src@) == Ok::<BlobView, UnpackError>(b@),
            Err(e) => spec_unpack(src@) == Err::<BlobView, UnpackError>(e),
        },
{
    match src {
        AudioSource::Loose { data, extension } => {
            if is_s3p_extension(extension.as_str()) {
                match extract_s3p_wma(data.as_slice(), 0) {
                    Ok(w) => Ok(AudioBlob::Wma(w)),
                    Err(e) => Err(e),
                }
            } else {
                match extract_2dx_wav(data.as_slice()) {
                    Ok(w) => Ok(AudioBlob::Wav(w)),
                    Err(e) => Err(e),
                }
            }
        },
        AudioSource::Ifs(data) => {
            if let Some(off) = find_valid_s3p0(data.as_slice()) {
                if let Ok(w) = extract_s3p_wma(data.as_slice(), off) {
                    return Ok(AudioBlob::Wma(w));
                }
            }
            match extract_2dx_wav(data.as_slice()) {
                Ok(w) => Ok(AudioBlob::Wav(w)),
                Err(e) => Err(e),
            }
        },
    }
}

// ---- properties of the extraction -------------------------------------------------------------------------------

/// Law: the chosen 2DX9 block is the largest: no valid block starting before `n` has a larger payload, and the
/// chosen one is itself a valid block starting before `n`.
pub proof fn lemma_largest_2dx9_is_largest(data: Seq<u8>, n: nat)
    ensures
        forall|p: int|
            0 <= p < n && occurs_at(data, dx9_magic(), p) && (#[trigger] spec_block_2dx9(data, p)) is Some ==> {
                &&& best_2dx9_below(data, n) is Some
                &&& spec_block_2dx9(data, p).unwrap().1 <= best_2dx9_below(data, n).unwrap().1
            },
        best_2dx9_below(data, n) is Some ==> exists|p: int|
            0 <= p < n && occurs_at(data, dx9_magic(), p) && #[trigger] spec_block_2dx9(data, p)
                == best_2dx9_below(data, n),
    decreases n,
{
    if n > 0 {
        let m = (n - 1) as nat;
        lemma_largest_2dx9_is_largest(data, m);
        let b = best_2dx9_below(data, m);
        let here = spec_block_2dx9(data, m as int);
        if occurs_at(data, dx9_magic(), m as int) && here is Some && (b is None || here.unwrap().1 > b.unwrap().1) {
            assert(spec_block_2dx9(data, m as int) == best_2dx9_below(data, n));
        } else if b is Some {
            let w = choose|p: int|
                0 <= p < m && occurs_at(data, dx9_magic(), p) && #[trigger] spec_block_2dx9(data, p) == b;
            assert(0 <= w < n && occurs_at(data, dx9_magic(), w) && spec_block_2dx9(data, w) == best_2dx9_below(
                data,
                n,
            ));
        }
    }
}

proof fn lemma_le_u32_shift(data: Seq<u8>, inner: Seq<u8>, b: int, x: int)
    requires
        0 <= b,
        0 <= x,
        x + 4 <= inner.len(),
        b + inner.len() <= data.len(),
        forall|k: int| 0 <= k < inner.len() ==> data[b + k] == #[trigger] inner[k],
    ensures
        le_u32(data, b + x) == le_u32(inner, x),
{
    assert(data[b + x] == inner[x]);
    assert(data[b + (x + 1)] == inner[x + 1]);
    assert(data[b + (x + 2)] == inner[x + 2]);
    assert(data[b + (x + 3)] == inner[x + 3]);
    assert(b + x + 1 == b + (x + 1));
    assert(b + x + 2 == b + (x + 2));
    assert(b + x + 3 == b + (x + 3));
}

#[verifier::spinoff_prover]
#[verifier::rlimit(30)]
proof fn lemma_largest_shift(data: Seq<u8>, inner: Seq<u8>, b: int, n: nat)
    requires
        0 <= b,
        b + inner.len() <= data.len(),
        8 + 8 * n <= inner.len(),
        forall|k: int| 0 <= k < inner.len() ==> data[b + k] == #[trigger] inner[k],
    ensures
        largest_s3p_entry(data, b, n) == largest_s3p_entry(inner, 0, n),
    decreases n,
{
    if n > 1 {
        lemma_largest_shift(data, inner, b, (n - 1) as nat);
        let k = largest_s3p_entry(inner, 0, (n - 1) as nat) as int;
        lemma_largest_s3p_entry(inner, 0, (n - 1) as nat);
        lemma_le_u32_shift(data, inner, b, 12 + 8 * (n - 1));
        lemma_le_u32_shift(data, inner, b, 12 + 8 * k);
        assert(b + (12 + 8 * (n - 1)) == b + 12 + 8 * (n - 1));
        assert(b + (12 + 8 * k) == b + 12 + 8 * k);
    }
}

/// Law: an s3p archive gives the same audio, byte for byte, whether it is read as a loose file or found embedded
/// at its offset in a larger buffer (as inside an `.ifs`).
#[verifier::spinoff_prover]
#[verifier::rlimit(30)]
pub proof fn lemma_s3p_relocation(prefix: Seq<u8>, s3p: Seq<u8>, suffix: Seq<u8>)
    requires
        spec_extract_s3p(s3p, 0) is Ok,
    ensures
        spec_extract_s3p(prefix + s3p + suffix, prefix.len() as int) == spec_extract_s3p(s3p, 0),
{
    let data = prefix + s3p + suffix;
    let b = prefix.len() as int;
    assert forall|k: int| 0 <= k < s3p.len() implies data[b + k] == #[trigger] s3p[k] by {}
    lemma_le_u32_shift(data, s3p, b, 4);
    let count = le_u32(s3p, 4) as int;
    lemma_largest_shift(data, s3p, b, count as nat);
    let k = largest_s3p_entry(s3p, 0, count as nat) as int;
    lemma_largest_s3p_entry(s3p, 0, count as nat);
    lemma_le_u32_shift(data, s3p, b, 8 + 8 * k);
    lemma_le_u32_shift(data, s3p, b, 12 + 8 * k);
    assert(b + (8 + 8 * k) == b + 8 + 8 * k);
    assert(b + (12 + 8 * k) == b + 12 + 8 * k);
    let start = s3p_entry_offset(s3p, 0, k) as int;
    let size = s3p_entry_size(s3p, 0, k) as int;
    assert(occurs_at(data, s3v0_magic(), b + start) == occurs_at(s3p, s3v0_magic(), start)) by {
        if occurs_at(s3p, s3v0_magic(), start) {
            assert forall|t: int| 0 <= t < s3v0_magic().len() implies #[trigger] data[b + start + t]
                == s3v0_magic()[t] by {
                assert(data[b + (start + t)] == s3p[start + t]);
                assert(b + (start + t) == b + start + t);
            }
        }
        if occurs_at(data, s3v0_magic(), b + start) {
            assert forall|t: int| 0 <= t < s3v0_magic().len() implies #[trigger] s3p[start + t]
                == s3v0_magic()[t] by {
                assert(data[b + (start + t)] == s3p[start + t]);
                assert(b + (start + t) == b + start + t);
                assert(data[b + start + t] == s3v0_magic()[t]);
            }
        }
    }
    lemma_le_u32_shift(data, s3p, b, start + 4);
    lemma_le_u32_shift(data, s3p, b, start + 8);
    assert(b + (start + 4) == b + start + 4);
    assert(b + (start + 8) == b + start + 8);
    let hs = le_u32(s3p, start + 4) as int;
    let ds = le_u32(s3p, start + 8) as int;
    assert(data.subrange(b + start + hs, b + start + hs + ds) =~= s3p.subrange(start + hs, start + hs + ds));
}

/// Law: the bytes before an S3P0 header never matter: reading the archive at its offset after any prefix gives
/// exactly what reading it alone gives, the same audio or the same error.
#[verifier::spinoff_prover]
#[verifier::rlimit(30)]
pub proof fn lemma_s3p_relocation_exact(prefix: Seq<u8>, s3p: Seq<u8>)
    ensures
        spec_extract_s3p(prefix + s3p, prefix.len() as int) == spec_extract_s3p(s3p, 0),
{
    let data = prefix + s3p;
    let b = prefix.len() as int;
    assert forall|k: int| 0 <= k < s3p.len() implies data[b + k] == #[trigger] s3p[k] by {}
    if s3p.len() >= 8 {
        lemma_le_u32_shift(data, s3p, b, 4);
        let count = le_u32(s3p, 4) as int;
        if 8 + 8 * count <= s3p.len() && count > 0 {
            lemma_largest_shift(data, s3p, b, count as nat);
            let k = largest_s3p_entry(s3p, 0, count as nat) as int;
            lemma_largest_s3p_entry(s3p, 0, count as nat);
            lemma_le_u32_shift(data, s3p, b, 8 + 8 * k);
            lemma_le_u32_shift(data, s3p, b, 12 + 8 * k);
            assert(b + (8 + 8 * k) == b + 8 + 8 * k);
            assert(b + (12 + 8 * k) == b + 12 + 8 * k);
            let start = s3p_entry_offset(s3p, 0, k) as int;
            let size = s3p_entry_size(s3p, 0, k) as int;
            if start + size <= s3p.len() {
                assert(occurs_at(data, s3v0_magic(), b + start) == occurs_at(s3p, s3v0_magic(), start)) by {
                    if occurs_at(s3p, s3v0_magic(), start) {
                        assert forall|t: int| 0 <= t < s3v0_magic().len() implies #[trigger] data[b + start + t]
                            == s3v0_magic()[t] by {
                            assert(data[b + (start + t)] == s3p[start + t]);
                            assert(b + (start + t) == b + start + t);
                        }
                    }
                    if occurs_at(data, s3v0_magic(), b + start) {
                        assert forall|t: int| 0 <= t < s3v0_magic().len() implies #[trigger] s3p[start + t]
                            == s3v0_magic()[t] by {
                            assert(data[b + (start + t)] == s3p[start + t]);
                            assert(b + (start + t) == b + start + t);
                            assert(data[b + start + t] == s3v0_magic()[t]);
                        }
                    }
                }
                if size >= 12 {
                    lemma_le_u32_shift(data, s3p, b, start + 4);
                    lemma_le_u32_shift(data, s3p, b, start + 8);
                    assert(b + (start + 4) == b + start + 4);
                    assert(b + (start + 8) == b + start + 8);
                    let hs = le_u32(s3p, start + 4) as int;
                    let ds = le_u32(s3p, start + 8) as int;
                    if hs + ds <= size {
                        assert(data.subrange(b + start + hs, b + start + hs + ds) =~= s3p.subrange(
                            start + hs,
                            start + hs + ds,
                        ));
                    }
                }
            }
        }
    }
}

/// Law: an extension names an s3p archive exactly when it equals "s3p" ignoring ASCII case; a loose source with such
/// an extension is read as an S3P0 archive at offset 0, any other loose source as a 2dx container.
pub proof fn lemma_s3p_extension_ignores_case(ext: Seq<char>, data: Seq<u8>)
    ensures
        is_s3p_ext(ext) == eq_ignore_ascii_case(ext, seq!['s', '3', 'p']),
        eq_ignore_ascii_case(ext, seq!['s', '3', 'p']) ==> spec_unpack(SourceView::Loose { data, extension: ext })
            == match spec_extract_s3p(data, 0) {
            Ok(w) => Ok(BlobView::Wma(w)),
            Err(e) => Err(e),
        },
        !eq_ignore_ascii_case(ext, seq!['s', '3', 'p']) ==> spec_unpack(SourceView::Loose { data, extension: ext })
            == match spec_extract_2dx(data) {
            Ok(w) => Ok(BlobView::Wav(w)),
            Err(e) => Err(e),
        },
{
    let want = seq!['s', '3', 'p'];
    if ext.len() == 3 {
        vstd::utf8::char_u32_cast(ext[0], ext[0] as u32);
        vstd::utf8::char_u32_cast(ext[1], ext[1] as u32);
        vstd::utf8::char_u32_cast(ext[2], ext[2] as u32);
        assert(ascii_lower(ext[0]) == 's' <==> (ext[0] == 's' || ext[0] == 'S'));
        assert(ascii_lower(ext[1]) == '3' <==> ext[1] == '3');
        assert(ascii_lower(ext[2]) == 'p' <==> (ext[2] == 'p' || ext[2] == 'P'));
        assert(ascii_lower(want[0]) == 's');
        assert(ascii_lower(want[1]) == '3');
        assert(ascii_lower(want[2]) == 'p');
        if is_s3p_ext(ext) {
            assert forall|i: int| 0 <= i < ext.len() implies #[trigger] ascii_lower(ext[i]) == ascii_lower(want[i]) by {
                if i == 0 {
                } else if i == 1 {
                } else {
                }
            }
        }
        if eq_ignore_ascii_case(ext, want) {
            assert(ascii_lower(ext[0]) == ascii_lower(want[0]));
            assert(ascii_lower(ext[1]) == ascii_lower(want[1]));
            assert(ascii_lower(ext[2]) == ascii_lower(want[2]));
        }
    }
}

} // verus!
