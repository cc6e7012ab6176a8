//! Album cover art: the jacket source of each game version and the local cache path it is stored under.

use vstd::prelude::*;
use vstd::string::StrSliceExecFns;
use vstd::string::StringExecFns;
use crate::text::{decimal, decimal_chars, has_suffix, join_path, spec_join_path};

verus! {

/// The jacket source URL of each version (index == version); empty when the version has no cover.
pub open spec fn spec_jacket_url(version: u8) -> Seq<char> {
    match version {
        0 => "https://eacache.s.konaminet.jp/game/2dx/mobile/images/music/jk/albumjacket_01000.jpg"@,
        1 => "https://eacache.s.konaminet.jp/game/2dx/mobile/images/music/jk/albumjacket_01000.jpg"@,
        2 => "https://eacache.s.konaminet.jp/game/2dx/mobile/images/music/jk/albumjacket_01001.jpg"@,
        3 => "https://eacache.s.konaminet.jp/game/2dx/mobile/images/music/jk/albumjacket_01002.jpg"@,
        4 => "https://eacache.s.konaminet.jp/game/2dx/mobile/images/music/jk/albumjacket_01003.jpg"@,
        5 => "https://eacache.s.konaminet.jp/game/2dx/mobile/images/music/jk/albumjacket_01004.jpg"@,
        6 => "https://eacache.s.konaminet.jp/game/2dx/mobile/images/music/jk/albumjacket_01005.jpg"@,
        7 => "https://eacache.s.konaminet.jp/game/2dx/mobile/images/music/jk/albumjacket_01006.jpg"@,
        8 => "https://eacache.s.konaminet.jp/game/2dx/mobile/images/music/jk/albumjacket_01007.jpg"@,
        9 => "https://eacache.s.konaminet.jp/game/2dx/mobile/images/music/jk/albumjacket_01008.jpg"@,
        10 => "https://eacache.s.konaminet.jp/game/2dx/mobile/images/music/jk/albumjacket_01009.jpg"@,
        11 => "https://eacache.s.konaminet.jp/game/2dx/mobile/images/music/jk/albumjacket_01010.jpg"@,
        12 => "https://eacache.s.konaminet.jp/game/2dx/mobile/images/music/jk/albumjacket_01011.jpg"@,
        13 => "https://eacache.s.konaminet.jp/game/2dx/mobile/images/music/jk/albumjacket_01012.jpg"@,
        14 => "https://eacache.s.konaminet.jp/game/2dx/mobile/images/music/jk/albumjacket_01013.jpg"@,
        15 => "https://eacache.s.konaminet.jp/game/2dx/mobile/images/music/jk/albumjacket_01014.jpg"@,
        16 => "https://eacache.s.konaminet.jp/game/2dx/mobile/images/music/jk/albumjacket_01015.jpg"@,
        17 => "https://eacache.s.konaminet.jp/game/2dx/mobile/images/music/jk/albumjacket_01016.jpg"@,
        18 => "https://eacache.s.konaminet.jp/game/2dx/mobile/images/music/jk/albumjacket_01018.jpg"@,
        19 => "https://eacache.s.konaminet.jp/game/2dx/mobile/images/music/jk/albumjacket_01019.jpg"@,
        20 => "https://eacache.s.konaminet.jp/game/2dx/mobile/images/music/jk/albumjacket_01020.jpg"@,
        21 => "https://eacache.s.konaminet.jp/game/2dx/mobile/images/music/jk/albumjacket_01021.jpg"@,
        22 => "https://eacache.s.konaminet.jp/game/2dx/mobile/images/music/jk/albumjacket_01023.jpg"@,
        23 => "https://eacache.s.konaminet.jp/game/2dx/mobile/images/music/jk/albumjacket_01025.jpg"@,
        24 => "https://eacache.s.konaminet.jp/game/2dx/mobile/images/music/jk/albumjacket_01027.jpg"@,
        25 => "https://eacache.s.konaminet.jp/game/2dx/mobile/images/music/jk/albumjacket_01028.jpg"@,
        26 => "https://eacache.s.konaminet.jp/game/2dx/mobile/images/music/jk/albumjacket_01029.jpg"@,
        27 => "https://media.vgm.io/albums/94/95249/95249-4674da022712.jpg"@,
        28 => "https://media.vgm.io/albums/06/107560/107560-13529c73082d.jpg"@,
        29 => "https://media.vgm.io/albums/31/117313/117313-b11b29630afd.jpg"@,
        30 => "https://media.vgm.io/albums/15/125751/125751-d316c581c5dd.jpg"@,
        31 => "https://media.vgm.io/albums/74/135147/135147-2de459935c8d.jpg"@,
        32 => "https://eacache.s.konaminet.jp/game/2dx/mobile/images/music/jk/albumjacket_01037.jpg"@,
        33 => "https://eacache.s.konaminet.jp/game/2dx/mobile/images/music/jk/albumjacket_01039.jpg"@,
        34 => ""@,
        35 => ""@,
        36 => ""@,
        37 => ""@,
        38 => ""@,
        39 => ""@,
        40 => ""@,
        _ => ""@,
    }
}

/// The jacket source URL of a version; empty when the version has no cover (and for versions past the table).
pub fn jacket_url(version: u8) -> (url: &'static str)
    ensures
        url@ == spec_jacket_url(version),
{
    match version {
        0 => "https://eacache.s.konaminet.jp/game/2dx/mobile/images/music/jk/albumjacket_01000.jpg",
        1 => "https://eacache.s.konaminet.jp/game/2dx/mobile/images/music/jk/albumjacket_01000.jpg",
        2 => "https://eacache.s.konaminet.jp/game/2dx/mobile/images/music/jk/albumjacket_01001.jpg",
        3 => "https://eacache.s.konaminet.jp/game/2dx/mobile/images/music/jk/albumjacket_01002.jpg",
        4 => "https://eacache.s.konaminet.jp/game/2dx/mobile/images/music/jk/albumjacket_01003.jpg",
        5 => "https://eacache.s.konaminet.jp/game/2dx/mobile/images/music/jk/albumjacket_01004.jpg",
        6 => "https://eacache.s.konaminet.jp/game/2dx/mobile/images/music/jk/albumjacket_01005.jpg",
        7 => "https://eacache.s.konaminet.jp/game/2dx/mobile/images/music/jk/albumjacket_01006.jpg",
        8 => "https://eacache.s.konaminet.jp/game/2dx/mobile/images/music/jk/albumjacket_01007.jpg",
        9 => "https://eacache.s.konaminet.jp/game/2dx/mobile/images/music/jk/albumjacket_01008.jpg",
        10 => "https://eacache.s.konaminet.jp/game/2dx/mobile/images/music/jk/albumjacket_01009.jpg",
        11 => "https://eacache.s.konaminet.jp/game/2dx/mobile/images/music/jk/albumjacket_01010.jpg",
        12 => "https://eacache.s.konaminet.jp/game/2dx/mobile/images/music/jk/albumjacket_01011.jpg",
        13 => "https://eacache.s.konaminet.jp/game/2dx/mobile/images/music/jk/albumjacket_01012.jpg",
        14 => "https://eacache.s.konaminet.jp/game/2dx/mobile/images/music/jk/albumjacket_01013.jpg",
        15 => "https://eacache.s.konaminet.jp/game/2dx/mobile/images/music/jk/albumjacket_01014.jpg",
        16 => "https://eacache.s.konaminet.jp/game/2dx/mobile/images/music/jk/albumjacket_01015.jpg",
        17 => "https://eacache.s.konaminet.jp/game/2dx/mobile/images/music/jk/albumjacket_01016.jpg",
        18 => "https://eacache.s.konaminet.jp/game/2dx/mobile/images/music/jk/albumjacket_01018.jpg",
        19 => "https://eacache.s.konaminet.jp/game/2dx/mobile/images/music/jk/albumjacket_01019.jpg",
        20 => "https://eacache.s.konaminet.jp/game/2dx/mobile/images/music/jk/albumjacket_01020.jpg",
        21 => "https://eacache.s.konaminet.jp/game/2dx/mobile/images/music/jk/albumjacket_01021.jpg",
        22 => "https://eacache.s.konaminet.jp/game/2dx/mobile/images/music/jk/albumjacket_01023.jpg",
        23 => "https://eacache.s.konaminet.jp/game/2dx/mobile/images/music/jk/albumjacket_01025.jpg",
        24 => "https://eacache.s.konaminet.jp/game/2dx/mobile/images/music/jk/albumjacket_01027.jpg",
        25 => "https://eacache.s.konaminet.jp/game/2dx/mobile/images/music/jk/albumjacket_01028.jpg",
        26 => "https://eacache.s.konaminet.jp/game/2dx/mobile/images/music/jk/albumjacket_01029.jpg",
        27 => "https://media.vgm.io/albums/94/95249/95249-4674da022712.jpg",
        28 => "https://media.vgm.io/albums/06/107560/107560-13529c73082d.jpg",
        29 => "https://media.vgm.io/albums/31/117313/117313-b11b29630afd.jpg",
        30 => "https://media.vgm.io/albums/15/125751/125751-d316c581c5dd.jpg",
        31 => "https://media.vgm.io/albums/74/135147/135147-2de459935c8d.jpg",
        32 => "https://eacache.s.konaminet.jp/game/2dx/mobile/images/music/jk/albumjacket_01037.jpg",
        33 => "https://eacache.s.konaminet.jp/game/2dx/mobile/images/music/jk/albumjacket_01039.jpg",
        34 => "",
        35 => "",
        36 => "",
        37 => "",
        38 => "",
        39 => "",
        40 => "",
        _ => "",
    }
}

/// What follows the last '.' of `s` (all of `s` when it has none).
pub open spec fn after_last_dot(s: Seq<char>) -> Seq<char>
    decreases s.len(),
{
    if s.len() == 0 {
        s
    } else if s.last() == '.' {
        Seq::empty()
    } else {
        after_last_dot(s.drop_last()).push(s.last())
    }
}

proof fn lemma_after_last_dot(s: Seq<char>, j: int)
    requires
        -1 <= j < s.len(),
        j >= 0 ==> s[j] == '.',
        forall|k: int| j < k < s.len() ==> s[k] != '.',
    ensures
        after_last_dot(s) == s.subrange(j + 1, s.len() as int),
    decreases s.len(),
{
    if s.len() > 0 && j < s.len() - 1 {
        lemma_after_last_dot(s.drop_last(), j);
        assert(s.drop_last().subrange(j + 1, s.len() - 1).push(s.last()) =~= s.subrange(j + 1, s.len() as int));
    } else if s.len() > 0 {
        assert(s.subrange(j + 1, s.len() as int) =~= Seq::<char>::empty());
    }
}

/// The local cache file name of a version's jacket: "<version>.<ext>", the extension taken from the source URL.
pub open spec fn spec_local_name(version: u8, url: Seq<char>) -> Seq<char> {
    decimal_chars(version as nat) + "."@ + after_last_dot(url)
}

/// Local cache file name for a version's jacket: "<version>.<ext>", the extension being what follows the URL's last
/// '.' (jpg, png, ...).
pub fn local_name(version: u8, url: &str) -> (name: String)
    ensures
        name@ == spec_local_name(version, url@),
{
    let n = url.unicode_len();
    let mut i = n;
    while i > 0 && url.get_char(i - 1) != '.'
        invariant
            n == url@.len(),
            i <= n,
            forall|k: int| i <= k < n ==> url@[k] != '.',
        decreases i,
    {
        i -= 1;
    }
    proof {
        lemma_after_last_dot(url@, i - 1);
    }
    let ext = url.substring_char(i, n);
    let mut name = decimal(version as u64);
    name.append(".");
    name.append(ext);
    name
}

/// Where a version's jacket is cached inside `jacket_dir` (whether or not it exists yet); `None` when the version
/// has no source URL.
pub open spec fn spec_jacket_path(jacket_dir: Seq<char>, version: u8, sep: char) -> Option<Seq<char>> {
    if spec_jacket_url(version).len() == 0 {
        None
    } else {
        Some(spec_join_path(jacket_dir, spec_local_name(version, spec_jacket_url(version)), sep))
    }
}

/// Resolve the local jacket path for a version (`sep` is the platform's path separator); `None` when the version has
/// no source URL.
pub fn jacket_path(jacket_dir: &str, version: u8, sep: char) -> (p: Option<String>)
    ensures
        match p {
            Some(s) => spec_jacket_path(jacket_dir@, version, sep) == Some(s@),
            None => spec_jacket_path(jacket_dir@, version, sep) == None::<Seq<char>>,
        },
{
    let url = jacket_url(version);
    if url.is_empty() {
        return None;
    }
    let name = local_name(version, url);
    Some(join_path(jacket_dir, name.as_str(), sep))
}

/// The four characters before the last four of `s`, as one number (for URLs, the end of the file stem).
spec fn stem_tail_key(s: Seq<char>) -> int {
    (s[s.len() - 8] as u32) * 16777216 + (s[s.len() - 7] as u32) * 65536 + (s[s.len() - 6] as u32) * 256 + (
    s[s.len() - 5] as u32)
}

spec fn expected_stem_tail_key(version: u8) -> int {
    match version {
        1 => 825241648,
        2 => 825241649,
        3 => 825241650,
        4 => 825241651,
        5 => 825241652,
        6 => 825241653,
        7 => 825241654,
        8 => 825241655,
        9 => 825241656,
        10 => 825241657,
        11 => 825241904,
        12 => 825241905,
        13 => 825241906,
        14 => 825241907,
        15 => 825241908,
        16 => 825241909,
        17 => 825241910,
        18 => 825241912,
        19 => 825241913,
        20 => 825242160,
        21 => 825242161,
        22 => 825242163,
        23 => 825242165,
        24 => 825242167,
        25 => 825242168,
        26 => 825242169,
        27 => 842477874,
        28 => 808989284,
        29 => 811689572,
        30 => 1664443492,
        31 => 895694948,
        32 => 825242423,
        33 => 825242425,
        _ => 0,
    }
}

proof fn lemma_jacket_url_shape(version: u8)
    requires
        version <= 33,
    ensures
        spec_jacket_url(version).len() >= 8,
        has_suffix(spec_jacket_url(version), ".jpg"@),
        version >= 1 ==> stem_tail_key(spec_jacket_url(version)) == expected_stem_tail_key(version),
{
    reveal_strlit(".jpg");
    match version {
        0 => {
            reveal_strlit("https://eacache.s.konaminet.jp/game/2dx/mobile/images/music/jk/albumjacket_01000.jpg");
        },
        1 => {
            reveal_strlit("https://eacache.s.konaminet.jp/game/2dx/mobile/images/music/jk/albumjacket_01000.jpg");
        },
        2 => {
            reveal_strlit("https://eacache.s.konaminet.jp/game/2dx/mobile/images/music/jk/albumjacket_01001.jpg");
        },
        3 => {
            reveal_strlit("https://eacache.s.konaminet.jp/game/2dx/mobile/images/music/jk/albumjacket_01002.jpg");
        },
        4 => {
            reveal_strlit("https://eacache.s.konaminet.jp/game/2dx/mobile/images/music/jk/albumjacket_01003.jpg");
        },
        5 => {
            reveal_strlit("https://eacache.s.konaminet.jp/game/2dx/mobile/images/music/jk/albumjacket_01004.jpg");
        },
        6 => {
            reveal_strlit("https://eacache.s.konaminet.jp/game/2dx/mobile/images/music/jk/albumjacket_01005.jpg");
        },
        7 => {
            reveal_strlit("https://eacache.s.konaminet.jp/game/2dx/mobile/images/music/jk/albumjacket_01006.jpg");
        },
        8 => {
            reveal_strlit("https://eacache.s.konaminet.jp/game/2dx/mobile/images/music/jk/albumjacket_01007.jpg");
        },
        9 => {
            reveal_strlit("https://eacache.s.konaminet.jp/game/2dx/mobile/images/music/jk/albumjacket_01008.jpg");
        },
        10 => {
            reveal_strlit("https://eacache.s.konaminet.jp/game/2dx/mobile/images/music/jk/albumjacket_01009.jpg");
        },
        11 => {
            reveal_strlit("https://eacache.s.konaminet.jp/game/2dx/mobile/images/music/jk/albumjacket_01010.jpg");
        },
        12 => {
            reveal_strlit("https://eacache.s.konaminet.jp/game/2dx/mobile/images/music/jk/albumjacket_01011.jpg");
        },
        13 => {
            reveal_strlit("https://eacache.s.konaminet.jp/game/2dx/mobile/images/music/jk/albumjacket_01012.jpg");
        },
        14 => {
            reveal_strlit("https://eacache.s.konaminet.jp/game/2dx/mobile/images/music/jk/albumjacket_01013.jpg");
        },
        15 => {
            reveal_strlit("https://eacache.s.konaminet.jp/game/2dx/mobile/images/music/jk/albumjacket_01014.jpg");
        },
        16 => {
            reveal_strlit("https://eacache.s.konaminet.jp/game/2dx/mobile/images/music/jk/albumjacket_01015.jpg");
        },
        17 => {
            reveal_strlit("https://eacache.s.konaminet.jp/game/2dx/mobile/images/music/jk/albumjacket_01016.jpg");
        },
        18 => {
            reveal_strlit("https://eacache.s.konaminet.jp/game/2dx/mobile/images/music/jk/albumjacket_01018.jpg");
        },
        19 => {
            reveal_strlit("https://eacache.s.konaminet.jp/game/2dx/mobile/images/music/jk/albumjacket_01019.jpg");
        },
        20 => {
            reveal_strlit("https://eacache.s.konaminet.jp/game/2dx/mobile/images/music/jk/albumjacket_01020.jpg");
        },
        21 => {
            reveal_strlit("https://eacache.s.konaminet.jp/game/2dx/mobile/images/music/jk/albumjacket_01021.jpg");
        },
        22 => {
            reveal_strlit("https://eacache.s.konaminet.jp/game/2dx/mobile/images/music/jk/albumjacket_01023.jpg");
        },
        23 => {
            reveal_strlit("https://eacache.s.konaminet.jp/game/2dx/mobile/images/music/jk/albumjacket_01025.jpg");
        },
        24 => {
            reveal_strlit("https://eacache.s.konaminet.jp/game/2dx/mobile/images/music/jk/albumjacket_01027.jpg");
        },
        25 => {
            reveal_strlit("https://eacache.s.konaminet.jp/game/2dx/mobile/images/music/jk/albumjacket_01028.jpg");
        },
        26 => {
            reveal_strlit("https://eacache.s.konaminet.jp/game/2dx/mobile/images/music/jk/albumjacket_01029.jpg");
        },
        27 => {
            reveal_strlit("https://media.vgm.io/albums/94/95249/95249-4674da022712.jpg");
        },
        28 => {
            reveal_strlit("https://media.vgm.io/albums/06/107560/107560-13529c73082d.jpg");
        },
        29 => {
            reveal_strlit("https://media.vgm.io/albums/31/117313/117313-b11b29630afd.jpg");
        },
        30 => {
            reveal_strlit("https://media.vgm.io/albums/15/125751/125751-d316c581c5dd.jpg");
        },
        31 => {
            reveal_strlit("https://media.vgm.io/albums/74/135147/135147-2de459935c8d.jpg");
        },
        32 => {
            reveal_strlit("https://eacache.s.konaminet.jp/game/2dx/mobile/images/music/jk/albumjacket_01037.jpg");
        },
        33 => {
            reveal_strlit("https://eacache.s.konaminet.jp/game/2dx/mobile/images/music/jk/albumjacket_01039.jpg");
        },
        _ => {},
    }
    assert(spec_jacket_url(version).subrange(
        spec_jacket_url(version).len() - 4,
        spec_jacket_url(version).len() as int,
    ) =~= ".jpg"@);
}

/// Law: the jacket sources of the versions 1..=33 are pairwise different (each version has its own cover), version 0
/// shares version 1's (Substream is filed with the 1st style), every version up to 33 has a ".jpg" source, and no
/// version past 33 has one.
pub proof fn lemma_jacket_urls(v1: u8, v2: u8)
    ensures
        1 <= v1 <= 33 && 1 <= v2 <= 33 && v1 != v2 ==> spec_jacket_url(v1) != spec_jacket_url(v2),
        spec_jacket_url(0) == spec_jacket_url(1),
        v1 <= 33 ==> spec_jacket_url(v1).len() > 0 && has_suffix(spec_jacket_url(v1), ".jpg"@),
        v1 > 33 ==> spec_jacket_url(v1).len() == 0,
{
    reveal_strlit("");
    if v1 <= 33 {
        lemma_jacket_url_shape(v1);
    }
    if 1 <= v1 <= 33 && 1 <= v2 <= 33 && v1 != v2 {
        lemma_jacket_url_shape(v2);
        assert(expected_stem_tail_key(v1) != expected_stem_tail_key(v2));
    }
}

proof fn lemma_after_last_dot_jpg(s: Seq<char>)
    requires
        has_suffix(s, ".jpg"@),
    ensures
        after_last_dot(s) == "jpg"@,
{
    reveal_strlit(".jpg");
    reveal_strlit("jpg");
    let n = s.len() as int;
    let t = s.subrange(n - 4, n);
    assert(t[0] == '.' && t[1] == 'j' && t[2] == 'p' && t[3] == 'g');
    assert(s[n - 4] == '.' && s[n - 3] == 'j' && s[n - 2] == 'p' && s[n - 1] == 'g');
    lemma_after_last_dot(s, n - 4);
    assert(s.subrange(n - 3, n) =~= "jpg"@);
}

/// Law: every version up to 33 caches its jacket as "<version>.jpg" in the jacket directory; later versions have none.
pub proof fn lemma_jacket_cache_names(jacket_dir: Seq<char>, version: u8, sep: char)
    ensures
        version <= 33 ==> spec_jacket_path(jacket_dir, version, sep) == Some(
            spec_join_path(jacket_dir, decimal_chars(version as nat) + "."@ + "jpg"@, sep),
        ),
        version > 33 ==> spec_jacket_path(jacket_dir, version, sep) == None::<Seq<char>>,
{
    lemma_jacket_urls(version, version);
    if version <= 33 {
        lemma_after_last_dot_jpg(spec_jacket_url(version));
    }
}

} // verus!
