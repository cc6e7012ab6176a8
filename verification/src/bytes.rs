//! Little-endian field reads and magic-number search over raw byte buffers.

use vstd::prelude::*;

verus! {

/// The little-endian `u32` stored at `s[off..off + 4]`.
pub open spec fn le_u32(s: Seq<u8>, off: int) -> u32 {
    (s[off] as int + 256 * (s[off + 1] as int) + 65536 * (s[off + 2] as int) + 16777216 * (s[off + 3] as int)) as u32
}

/// The little-endian `u16` stored at `s[off..off + 2]`.
pub open spec fn le_u16(s: Seq<u8>, off: int) -> u16 {
    (s[off] as int + 256 * (s[off + 1] as int)) as u16
}

/// `needle` occurs in `s` starting at position `p`.
pub open spec fn occurs_at(s: Seq<u8>, needle: Seq<u8>, p: int) -> bool {
    &&& 0 <= p
    &&& p + needle.len() <= s.len()
    &&& forall|k: int| 0 <= k < needle.len() ==> #[trigger] s[p + k] == needle[k]
}

/// Read the little-endian `u32` at `off`; the four bytes must lie inside `b`.
pub fn read_u32_le(b: &[u8], off: usize) -> (v: u32)
    requires
        off + 4 <= b@.len(),
    ensures
        v == le_u32(b@, off as int),
{
    let b0 = b[off] as u32;
    let b1 = b[off + 1] as u32;
    let b2 = b[off + 2] as u32;
    let b3 = b[off + 3] as u32;
    b0 + 256 * b1 + 65536 * b2 + 16777216 * b3
}

/// Read the little-endian `u16` at `off`; the two bytes must lie inside `b`.
pub fn read_u16_le(b: &[u8], off: usize) -> (v: u16)
    requires
        off + 2 <= b@.len(),
    ensures
        v == le_u16(b@, off as int),
{
    let b0 = b[off] as u16;
    let b1 = b[off + 1] as u16;
    b0 + 256 * b1
}

/// Whether `needle` occurs in `data` at position `p`.
pub fn matches_at(data: &[u8], needle: &[u8], p: usize) -> (r: bool)
    ensures
        r == occurs_at(data@, needle@, p as int),
{
    if p > data.len() || data.len() - p < needle.len() {
        return false;
    }
    let n = needle.len();
    let len = data.len();
    let mut k: usize = 0;
    let mut same = true;
    while k < n && same
        invariant
            n == needle@.len(),
            len == data@.len(),
            p + n <= data@.len(),
            k <= n,
            same <==> forall|t: int| 0 <= t < k ==> #[trigger] data@[p + t] == needle@[t],
        decreases n - k,
    {
        if data[p + k] != needle[k] {
            same = false;
        }
        k += 1;
    }
    same
}

/// First position at or after `start` where `needle` occurs in `data`, or `None` when there is none.
pub fn find_from(data: &[u8], needle: &[u8], start: usize) -> (r: Option<usize>)
    requires
        needle@.len() > 0,
    ensures
        match r {
            Some(i) => {
                &&& start <= i
                &&& occurs_at(data@, needle@, i as int)
                &&& forall|j: int| start <= j < i ==> !occurs_at(data@, needle@, j)
            },
            None => forall|j: int| start <= j ==> !occurs_at(data@, needle@, j),
        },
{
    let n = needle.len();
    if start > data.len() || data.len() - start < n {
        return None;
    }
    let len = data.len();
    let last = len - n;
    let mut i = start;
    while i <= last
        invariant
            n == needle@.len(),
            len == data@.len(),
            n > 0,
            last + n == len,
            start <= i <= last + 1,
            forall|j: int| start <= j < i ==> !occurs_at(data@, needle@, j),
        decreases last + 1 - i,
    {
        if matches_at(data, needle, i) {
            return Some(i);
        }
        i += 1;
    }
    None
}

/// A needle whose first byte appears nowhere else in it cannot occur again within its own length.
pub proof fn lemma_no_self_overlap(s: Seq<u8>, needle: Seq<u8>, p: int, j: int)
    requires
        occurs_at(s, needle, p),
        p < j < p + needle.len(),
        forall|t: int| 0 < t < needle.len() ==> #[trigger] needle[t] != needle[0],
    ensures
        !occurs_at(s, needle, j),
{
    if occurs_at(s, needle, j) {
        assert(s[j + 0] == needle[0]);
        assert(s[p + (j - p)] == needle[j - p]);
        assert(needle[j - p] != needle[0]);
    }
}

} // verus!
