//! Shared records: the parsed song entry, the packaging task and its input, and the per-version name tables.

use vstd::prelude::*;
use crate::text::{chars_lt, lemma_chars_lt_total_order};

verus! {

/// One song entry of the music database. In a loaded database the entry at position `i` has `id == i`; gaps keep
/// `is_valid == false`.
#[derive(Clone, Debug)]
pub struct MusicInfo {
    /// false for id gaps and placeholders, which every traversal skips
    pub is_valid: bool,
    /// revived by an omnimix patch: its audio lives under the omnimix sound directory
    pub is_omnimix: bool,
    /// song_id, also the 5-digit on-disk folder / file name
    pub id: u32,
    /// TITLE
    pub str_title: String,
    /// GENRE
    pub str_genre: String,
    /// ARTIST
    pub str_artist: String,
    /// game version 0..=40; picks the album and the output folder (0 is the 1st style era)
    pub version: u8,
}

/// The mathematical content of a [`MusicInfo`].
pub struct MusicView {
    pub is_valid: bool,
    pub is_omnimix: bool,
    pub id: u32,
    pub title: Seq<char>,
    pub genre: Seq<char>,
    pub artist: Seq<char>,
    pub version: u8,
}

impl View for MusicInfo {
    type V = MusicView;

    open spec fn view(&self) -> MusicView {
        MusicView {
            is_valid: self.is_valid,
            is_omnimix: self.is_omnimix,
            id: self.id,
            title: self.str_title@,
            genre: self.str_genre@,
            artist: self.str_artist@,
            version: self.version,
        }
    }
}

/// The view of an empty slot: not valid, every field zero or empty.
pub open spec fn empty_music_view() -> MusicView {
    MusicView {
        is_valid: false,
        is_omnimix: false,
        id: 0,
        title: Seq::empty(),
        genre: Seq::empty(),
        artist: Seq::empty(),
        version: 0,
    }
}

/// The views of a sequence of songs, position by position.
pub open spec fn music_views(s: Seq<MusicInfo>) -> Seq<MusicView> {
    s.map_values(|m: MusicInfo| m@)
}

/// Views of a pushed sequence: the old views with the new view pushed.
pub proof fn lemma_views_push(s: Seq<MusicInfo>, x: MusicInfo)
    ensures
        music_views(s.push(x)) == music_views(s).push(x@),
{
    assert(music_views(s.push(x)) =~= music_views(s).push(x@));
}

/// Views of an updated sequence: the old views with the one position updated.
pub proof fn lemma_views_update(s: Seq<MusicInfo>, i: int, x: MusicInfo)
    requires
        0 <= i < s.len(),
    ensures
        music_views(s.update(i, x)) == music_views(s).update(i, x@),
{
    assert(music_views(s.update(i, x)) =~= music_views(s).update(i, x@));
}

impl MusicInfo {
    /// An empty slot (the default record).
    pub fn empty() -> (info: MusicInfo)
        ensures
            info@ == empty_music_view(),
    {
        MusicInfo {
            is_valid: false,
            is_omnimix: false,
            id: 0,
            str_title: String::new(),
            str_genre: String::new(),
            str_artist: String::new(),
            version: 0,
        }
    }

    /// A field-by-field copy.
    pub fn duplicate(&self) -> (info: MusicInfo)
        ensures
            info@ == self@,
    {
        MusicInfo {
            is_valid: self.is_valid,
            is_omnimix: self.is_omnimix,
            id: self.id,
            str_title: self.str_title.clone(),
            str_genre: self.str_genre.clone(),
            str_artist: self.str_artist.clone(),
            version: self.version,
        }
    }
}

/// Where a song's audio and chart live on disk.
#[derive(Clone, Debug)]
pub enum SongInput {
    /// a loose folder (gen 30+ and omnimix): the audio file (`.s3p` or `.2dx`) and the `.1` chart
    Loose { audio: String, chart: String },
    /// a packed `<id5>.ifs` archive holding both
    Packed(String),
}

/// The content of a [`SongInput`].
pub enum SongInputView {
    Loose { audio: Seq<char>, chart: Seq<char> },
    Packed(Seq<char>),
}

impl View for SongInput {
    type V = SongInputView;

    open spec fn view(&self) -> SongInputView {
        match self {
            SongInput::Loose { audio, chart } => SongInputView::Loose { audio: audio@, chart: chart@ },
            SongInput::Packed(p) => SongInputView::Packed(p@),
        }
    }
}

/// One output file to produce: the song's metadata, its on-disk input, and the output path.
#[derive(Clone, Debug)]
pub struct PackTask {
    /// song metadata, the source of the tags
    pub info: MusicInfo,
    /// the song's located audio and chart
    pub input: SongInput,
    /// output ".opus" path
    pub dst_path: String,
}

/// The content of a [`PackTask`].
pub struct PackTaskView {
    pub info: MusicView,
    pub input: SongInputView,
    pub dst_path: Seq<char>,
}

impl View for PackTask {
    type V = PackTaskView;

    open spec fn view(&self) -> PackTaskView {
        PackTaskView { info: self.info@, input: self.input@, dst_path: self.dst_path@ }
    }
}

impl Default for MusicInfo {
    /// An empty slot.
    fn default() -> (info: MusicInfo)
        ensures
            info@ == empty_music_view(),
    {
        MusicInfo::empty()
    }
}

/// Fixed ALBUMARTIST, so each version album groups together despite differing per-track artists.
pub const ALBUM_ARTIST: &'static str = "BEMANI";

/// The album name of each version (index == version); empty past the table.
pub open spec fn spec_version_album_name(version: u8) -> Seq<char> {
    match version {
        0 => "beatmania IIDX 1st style"@,
        1 => "beatmania IIDX Substream"@,
        2 => "beatmania IIDX 2nd style"@,
        3 => "beatmania IIDX 3rd style"@,
        4 => "beatmania IIDX 4th style"@,
        5 => "beatmania IIDX 5th style"@,
        6 => "beatmania IIDX 6th style"@,
        7 => "beatmania IIDX 7th style"@,
        8 => "beatmania IIDX 8th style"@,
        9 => "beatmania IIDX 9th style"@,
        10 => "beatmania IIDX 10th style"@,
        11 => "beatmania IIDX 11 IIDX RED"@,
        12 => "beatmania IIDX 12 HAPPY SKY"@,
        13 => "beatmania IIDX 13 DistorteD"@,
        14 => "beatmania IIDX 14 GOLD"@,
        15 => "beatmania IIDX 15 DJ TROOPERS"@,
        16 => "beatmania IIDX 16 EMPRESS"@,
        17 => "beatmania IIDX 17 SIRIUS"@,
        18 => "beatmania IIDX 18 Resort Anthem"@,
        19 => "beatmania IIDX 19 Lincle"@,
        20 => "beatmania IIDX 20 tricoro"@,
        21 => "beatmania IIDX 21 SPADA"@,
        22 => "beatmania IIDX 22 PENDUAL"@,
        23 => "beatmania IIDX 23 copula"@,
        24 => "beatmania IIDX 24 SINOBUZ"@,
        25 => "beatmania IIDX 25 CANNON BALLERS"@,
        26 => "beatmania IIDX 26 Rootage"@,
        27 => "beatmania IIDX 27 HEROIC VERSE"@,
        28 => "beatmania IIDX 28 BISTROVER"@,
        29 => "beatmania IIDX 29 CastHour"@,
        30 => "beatmania IIDX 30 RESIDENT"@,
        31 => "beatmania IIDX 31 EPOLIS"@,
        32 => "beatmania IIDX 32 Pinky Crush"@,
        33 => "beatmania IIDX 33 Sparkle Shower"@,
        34 => "beatmania IIDX 34"@,
        35 => "beatmania IIDX 35"@,
        36 => "beatmania IIDX 36"@,
        37 => "beatmania IIDX 37"@,
        38 => "beatmania IIDX 38"@,
        39 => "beatmania IIDX 39"@,
        40 => "beatmania IIDX 40"@,
        _ => ""@,
    }
}

/// ALBUM tag for a version: the full official game title; versions past the table give an empty string.
pub fn version_album_name(version: u8) -> (name: &'static str)
    ensures
        name@ == spec_version_album_name(version),
{
    match version {
        0 => "beatmania IIDX 1st style",
        1 => "beatmania IIDX Substream",
        2 => "beatmania IIDX 2nd style",
        3 => "beatmania IIDX 3rd style",
        4 => "beatmania IIDX 4th style",
        5 => "beatmania IIDX 5th style",
        6 => "beatmania IIDX 6th style",
        7 => "beatmania IIDX 7th style",
        8 => "beatmania IIDX 8th style",
        9 => "beatmania IIDX 9th style",
        10 => "beatmania IIDX 10th style",
        11 => "beatmania IIDX 11 IIDX RED",
        12 => "beatmania IIDX 12 HAPPY SKY",
        13 => "beatmania IIDX 13 DistorteD",
        14 => "beatmania IIDX 14 GOLD",
        15 => "beatmania IIDX 15 DJ TROOPERS",
        16 => "beatmania IIDX 16 EMPRESS",
        17 => "beatmania IIDX 17 SIRIUS",
        18 => "beatmania IIDX 18 Resort Anthem",
        19 => "beatmania IIDX 19 Lincle",
        20 => "beatmania IIDX 20 tricoro",
        21 => "beatmania IIDX 21 SPADA",
        22 => "beatmania IIDX 22 PENDUAL",
        23 => "beatmania IIDX 23 copula",
        24 => "beatmania IIDX 24 SINOBUZ",
        25 => "beatmania IIDX 25 CANNON BALLERS",
        26 => "beatmania IIDX 26 Rootage",
        27 => "beatmania IIDX 27 HEROIC VERSE",
        28 => "beatmania IIDX 28 BISTROVER",
        29 => "beatmania IIDX 29 CastHour",
        30 => "beatmania IIDX 30 RESIDENT",
        31 => "beatmania IIDX 31 EPOLIS",
        32 => "beatmania IIDX 32 Pinky Crush",
        33 => "beatmania IIDX 33 Sparkle Shower",
        34 => "beatmania IIDX 34",
        35 => "beatmania IIDX 35",
        36 => "beatmania IIDX 36",
        37 => "beatmania IIDX 37",
        38 => "beatmania IIDX 38",
        39 => "beatmania IIDX 39",
        40 => "beatmania IIDX 40",
        _ => "",
    }
}

/// The output folder name of each version (index == version); empty past the table.
pub open spec fn spec_version_folder_name(version: u8) -> Seq<char> {
    match version {
        0 => "IIDX 01 1st style"@,
        1 => "IIDX 01 Substream"@,
        2 => "IIDX 02 2nd style"@,
        3 => "IIDX 03 3rd style"@,
        4 => "IIDX 04 4th style"@,
        5 => "IIDX 05 5th style"@,
        6 => "IIDX 06 6th style"@,
        7 => "IIDX 07 7th style"@,
        8 => "IIDX 08 8th style"@,
        9 => "IIDX 09 9th style"@,
        10 => "IIDX 10 10th style"@,
        11 => "IIDX 11 IIDX RED"@,
        12 => "IIDX 12 HAPPY SKY"@,
        13 => "IIDX 13 DistorteD"@,
        14 => "IIDX 14 GOLD"@,
        15 => "IIDX 15 DJ TROOPERS"@,
        16 => "IIDX 16 EMPRESS"@,
        17 => "IIDX 17 SIRIUS"@,
        18 => "IIDX 18 Resort Anthem"@,
        19 => "IIDX 19 Lincle"@,
        20 => "IIDX 20 tricoro"@,
        21 => "IIDX 21 SPADA"@,
        22 => "IIDX 22 PENDUAL"@,
        23 => "IIDX 23 copula"@,
        24 => "IIDX 24 SINOBUZ"@,
        25 => "IIDX 25 CANNON BALLERS"@,
        26 => "IIDX 26 Rootage"@,
        27 => "IIDX 27 HEROIC VERSE"@,
        28 => "IIDX 28 BISTROVER"@,
        29 => "IIDX 29 CastHour"@,
        30 => "IIDX 30 RESIDENT"@,
        31 => "IIDX 31 EPOLIS"@,
        32 => "IIDX 32 Pinky Crush"@,
        33 => "IIDX 33 Sparkle Shower"@,
        34 => "IIDX 34"@,
        35 => "IIDX 35"@,
        36 => "IIDX 36"@,
        37 => "IIDX 37"@,
        38 => "IIDX 38"@,
        39 => "IIDX 39"@,
        40 => "IIDX 40"@,
        _ => ""@,
    }
}

/// Output sub-folder for a version, "IIDX NN <name>" with a zero-padded number; versions past the table give an empty string.
pub fn version_folder_name(version: u8) -> (name: &'static str)
    ensures
        name@ == spec_version_folder_name(version),
{
    match version {
        0 => "IIDX 01 1st style",
        1 => "IIDX 01 Substream",
        2 => "IIDX 02 2nd style",
        3 => "IIDX 03 3rd style",
        4 => "IIDX 04 4th style",
        5 => "IIDX 05 5th style",
        6 => "IIDX 06 6th style",
        7 => "IIDX 07 7th style",
        8 => "IIDX 08 8th style",
        9 => "IIDX 09 9th style",
        10 => "IIDX 10 10th style",
        11 => "IIDX 11 IIDX RED",
        12 => "IIDX 12 HAPPY SKY",
        13 => "IIDX 13 DistorteD",
        14 => "IIDX 14 GOLD",
        15 => "IIDX 15 DJ TROOPERS",
        16 => "IIDX 16 EMPRESS",
        17 => "IIDX 17 SIRIUS",
        18 => "IIDX 18 Resort Anthem",
        19 => "IIDX 19 Lincle",
        20 => "IIDX 20 tricoro",
        21 => "IIDX 21 SPADA",
        22 => "IIDX 22 PENDUAL",
        23 => "IIDX 23 copula",
        24 => "IIDX 24 SINOBUZ",
        25 => "IIDX 25 CANNON BALLERS",
        26 => "IIDX 26 Rootage",
        27 => "IIDX 27 HEROIC VERSE",
        28 => "IIDX 28 BISTROVER",
        29 => "IIDX 29 CastHour",
        30 => "IIDX 30 RESIDENT",
        31 => "IIDX 31 EPOLIS",
        32 => "IIDX 32 Pinky Crush",
        33 => "IIDX 33 Sparkle Shower",
        34 => "IIDX 34",
        35 => "IIDX 35",
        36 => "IIDX 36",
        37 => "IIDX 37",
        38 => "IIDX 38",
        39 => "IIDX 39",
        40 => "IIDX 40",
        _ => "",
    }
}

/// Law: a version past the name tables has an empty album name and an empty folder name.
pub proof fn lemma_names_past_table_empty(version: u8)
    requires
        version > 40,
    ensures
        spec_version_album_name(version) == ""@,
        spec_version_folder_name(version) == ""@,
{
}

proof fn lemma_folder_name_step(v: u8)
    requires
        v < 40,
    ensures
        chars_lt(spec_version_folder_name(v), spec_version_folder_name((v + 1) as u8)),
{
    reveal_with_fuel(chars_lt, 10);
    match v {
        0 => {
            reveal_strlit("IIDX 01 1st style");
            reveal_strlit("IIDX 01 Substream");
        },
        1 => {
            reveal_strlit("IIDX 01 Substream");
            reveal_strlit("IIDX 02 2nd style");
        },
        2 => {
            reveal_strlit("IIDX 02 2nd style");
            reveal_strlit("IIDX 03 3rd style");
        },
        3 => {
            reveal_strlit("IIDX 03 3rd style");
            reveal_strlit("IIDX 04 4th style");
        },
        4 => {
            reveal_strlit("IIDX 04 4th style");
            reveal_strlit("IIDX 05 5th style");
        },
        5 => {
            reveal_strlit("IIDX 05 5th style");
            reveal_strlit("IIDX 06 6th style");
        },
        6 => {
            reveal_strlit("IIDX 06 6th style");
            reveal_strlit("IIDX 07 7th style");
        },
        7 => {
            reveal_strlit("IIDX 07 7th style");
            reveal_strlit("IIDX 08 8th style");
        },
        8 => {
            reveal_strlit("IIDX 08 8th style");
            reveal_strlit("IIDX 09 9th style");
        },
        9 => {
            reveal_strlit("IIDX 09 9th style");
            reveal_strlit("IIDX 10 10th style");
        },
        10 => {
            reveal_strlit("IIDX 10 10th style");
            reveal_strlit("IIDX 11 IIDX RED");
        },
        11 => {
            reveal_strlit("IIDX 11 IIDX RED");
            reveal_strlit("IIDX 12 HAPPY SKY");
        },
        12 => {
            reveal_strlit("IIDX 12 HAPPY SKY");
            reveal_strlit("IIDX 13 DistorteD");
        },
        13 => {
            reveal_strlit("IIDX 13 DistorteD");
            reveal_strlit("IIDX 14 GOLD");
        },
        14 => {
            reveal_strlit("IIDX 14 GOLD");
            reveal_strlit("IIDX 15 DJ TROOPERS");
        },
        15 => {
            reveal_strlit("IIDX 15 DJ TROOPERS");
            reveal_strlit("IIDX 16 EMPRESS");
        },
        16 => {
            reveal_strlit("IIDX 16 EMPRESS");
            reveal_strlit("IIDX 17 SIRIUS");
        },
        17 => {
            reveal_strlit("IIDX 17 SIRIUS");
            reveal_strlit("IIDX 18 Resort Anthem");
        },
        18 => {
            reveal_strlit("IIDX 18 Resort Anthem");
            reveal_strlit("IIDX 19 Lincle");
        },
        19 => {
            reveal_strlit("IIDX 19 Lincle");
            reveal_strlit("IIDX 20 tricoro");
        },
        20 => {
            reveal_strlit("IIDX 20 tricoro");
            reveal_strlit("IIDX 21 SPADA");
        },
        21 => {
            reveal_strlit("IIDX 21 SPADA");
            reveal_strlit("IIDX 22 PENDUAL");
        },
        22 => {
            reveal_strlit("IIDX 22 PENDUAL");
            reveal_strlit("IIDX 23 copula");
        },
        23 => {
            reveal_strlit("IIDX 23 copula");
            reveal_strlit("IIDX 24 SINOBUZ");
        },
        24 => {
            reveal_strlit("IIDX 24 SINOBUZ");
            reveal_strlit("IIDX 25 CANNON BALLERS");
        },
        25 => {
            reveal_strlit("IIDX 25 CANNON BALLERS");
            reveal_strlit("IIDX 26 Rootage");
        },
        26 => {
            reveal_strlit("IIDX 26 Rootage");
            reveal_strlit("IIDX 27 HEROIC VERSE");
        },
        27 => {
            reveal_strlit("IIDX 27 HEROIC VERSE");
            reveal_strlit("IIDX 28 BISTROVER");
        },
        28 => {
            reveal_strlit("IIDX 28 BISTROVER");
            reveal_strlit("IIDX 29 CastHour");
        },
        29 => {
            reveal_strlit("IIDX 29 CastHour");
            reveal_strlit("IIDX 30 RESIDENT");
        },
        30 => {
            reveal_strlit("IIDX 30 RESIDENT");
            reveal_strlit("IIDX 31 EPOLIS");
        },
        31 => {
            reveal_strlit("IIDX 31 EPOLIS");
            reveal_strlit("IIDX 32 Pinky Crush");
        },
        32 => {
            reveal_strlit("IIDX 32 Pinky Crush");
            reveal_strlit("IIDX 33 Sparkle Shower");
        },
        33 => {
            reveal_strlit("IIDX 33 Sparkle Shower");
            reveal_strlit("IIDX 34");
        },
        34 => {
            reveal_strlit("IIDX 34");
            reveal_strlit("IIDX 35");
        },
        35 => {
            reveal_strlit("IIDX 35");
            reveal_strlit("IIDX 36");
        },
        36 => {
            reveal_strlit("IIDX 36");
            reveal_strlit("IIDX 37");
        },
        37 => {
            reveal_strlit("IIDX 37");
            reveal_strlit("IIDX 38");
        },
        38 => {
            reveal_strlit("IIDX 38");
            reveal_strlit("IIDX 39");
        },
        39 => {
            reveal_strlit("IIDX 39");
            reveal_strlit("IIDX 40");
        },
        _ => {},
    }
}

/// Law: the output folders of the named versions sort in version order (the zero-padded numbers order them on disk).
pub proof fn lemma_folder_names_sorted(v1: u8, v2: u8)
    requires
        v1 < v2 <= 40,
    ensures
        chars_lt(spec_version_folder_name(v1), spec_version_folder_name(v2)),
    decreases v2 - v1,
{
    lemma_folder_name_step((v2 - 1) as u8);
    if v1 < v2 - 1 {
        lemma_folder_names_sorted(v1, (v2 - 1) as u8);
        lemma_chars_lt_total_order(
            spec_version_folder_name(v1),
            spec_version_folder_name((v2 - 1) as u8),
            spec_version_folder_name(v2),
        );
    }
}

/// The two-digit, zero-padded number of a version as the folder names write it (version 0 shares number 01).
pub open spec fn folder_number(version: u8) -> Seq<char> {
    let n: int = if version == 0 { 1 } else { version as int };
    seq![(48 + n / 10) as char, (48 + n % 10) as char]
}

/// Law: every named version's folder is "IIDX " followed by its two-digit number, and its album name is
/// "beatmania " followed by the folder name, except that up to version 10 the album spells the style without the
/// number ("beatmania IIDX " followed by the folder name after "IIDX NN ").
pub proof fn lemma_album_and_folder_names(v: u8)
    requires
        v <= 40,
    ensures
        spec_version_folder_name(v).len() >= 7,
        spec_version_folder_name(v).subrange(0, 7) == seq!['I', 'I', 'D', 'X', ' '] + folder_number(v),
        v <= 10 ==> spec_version_album_name(v) == "beatmania IIDX "@ + spec_version_folder_name(v).skip(8),
        v > 10 ==> spec_version_album_name(v) == "beatmania "@ + spec_version_folder_name(v),
{
    reveal_strlit("beatmania IIDX ");
    reveal_strlit("beatmania ");
    match v {
        0 => {
            reveal_strlit("beatmania IIDX 1st style");
            reveal_strlit("IIDX 01 1st style");
            assert(spec_version_album_name(0) =~= "beatmania IIDX "@ + spec_version_folder_name(0).skip(8));
            assert(spec_version_folder_name(0).subrange(0, 7) =~= seq!['I', 'I', 'D', 'X', ' ', '0', '1']);
        },
        1 => {
            reveal_strlit("beatmania IIDX Substream");
            reveal_strlit("IIDX 01 Substream");
            assert(spec_version_album_name(1) =~= "beatmania IIDX "@ + spec_version_folder_name(1).skip(8));
            assert(spec_version_folder_name(1).subrange(0, 7) =~= seq!['I', 'I', 'D', 'X', ' ', '0', '1']);
        },
        2 => {
            reveal_strlit("beatmania IIDX 2nd style");
            reveal_strlit("IIDX 02 2nd style");
            assert(spec_version_album_name(2) =~= "beatmania IIDX "@ + spec_version_folder_name(2).skip(8));
            assert(spec_version_folder_name(2).subrange(0, 7) =~= seq!['I', 'I', 'D', 'X', ' ', '0', '2']);
        },
        3 => {
            reveal_strlit("beatmania IIDX 3rd style");
            reveal_strlit("IIDX 03 3rd style");
            assert(spec_version_album_name(3) =~= "beatmania IIDX "@ + spec_version_folder_name(3).skip(8));
            assert(spec_version_folder_name(3).subrange(0, 7) =~= seq!['I', 'I', 'D', 'X', ' ', '0', '3']);
        },
        4 => {
            reveal_strlit("beatmania IIDX 4th style");
            reveal_strlit("IIDX 04 4th style");
            assert(spec_version_album_name(4) =~= "beatmania IIDX "@ + spec_version_folder_name(4).skip(8));
            assert(spec_version_folder_name(4).subrange(0, 7) =~= seq!['I', 'I', 'D', 'X', ' ', '0', '4']);
        },
        5 => {
            reveal_strlit("beatmania IIDX 5th style");
            reveal_strlit("IIDX 05 5th style");
            assert(spec_version_album_name(5) =~= "beatmania IIDX "@ + spec_version_folder_name(5).skip(8));
            assert(spec_version_folder_name(5).subrange(0, 7) =~= seq!['I', 'I', 'D', 'X', ' ', '0', '5']);
        },
        6 => {
            reveal_strlit("beatmania IIDX 6th style");
            reveal_strlit("IIDX 06 6th style");
            assert(spec_version_album_name(6) =~= "beatmania IIDX "@ + spec_version_folder_name(6).skip(8));
            assert(spec_version_folder_name(6).subrange(0, 7) =~= seq!['I', 'I', 'D', 'X', ' ', '0', '6']);
        },
        7 => {
            reveal_strlit("beatmania IIDX 7th style");
            reveal_strlit("IIDX 07 7th style");
            assert(spec_version_album_name(7) =~= "beatmania IIDX "@ + spec_version_folder_name(7).skip(8));
            assert(spec_version_folder_name(7).subrange(0, 7) =~= seq!['I', 'I', 'D', 'X', ' ', '0', '7']);
        },
        8 => {
            reveal_strlit("beatmania IIDX 8th style");
            reveal_strlit("IIDX 08 8th style");
            assert(spec_version_album_name(8) =~= "beatmania IIDX "@ + spec_version_folder_name(8).skip(8));
            assert(spec_version_folder_name(8).subrange(0, 7) =~= seq!['I', 'I', 'D', 'X', ' ', '0', '8']);
        },
        9 => {
            reveal_strlit("beatmania IIDX 9th style");
            reveal_strlit("IIDX 09 9th style");
            assert(spec_version_album_name(9) =~= "beatmania IIDX "@ + spec_version_folder_name(9).skip(8));
            assert(spec_version_folder_name(9).subrange(0, 7) =~= seq!['I', 'I', 'D', 'X', ' ', '0', '9']);
        },
        10 => {
            reveal_strlit("beatmania IIDX 10th style");
            reveal_strlit("IIDX 10 10th style");
            assert(spec_version_album_name(10) =~= "beatmania IIDX "@ + spec_version_folder_name(10).skip(8));
            assert(spec_version_folder_name(10).subrange(0, 7) =~= seq!['I', 'I', 'D', 'X', ' ', '1', '0']);
        },
        11 => {
            reveal_strlit("beatmania IIDX 11 IIDX RED");
            reveal_strlit("IIDX 11 IIDX RED");
            assert(spec_version_album_name(11) =~= "beatmania "@ + spec_version_folder_name(11));
            assert(spec_version_folder_name(11).subrange(0, 7) =~= seq!['I', 'I', 'D', 'X', ' ', '1', '1']);
        },
        12 => {
            reveal_strlit("beatmania IIDX 12 HAPPY SKY");
            reveal_strlit("IIDX 12 HAPPY SKY");
            assert(spec_version_album_name(12) =~= "beatmania "@ + spec_version_folder_name(12));
            assert(spec_version_folder_name(12).subrange(0, 7) =~= seq!['I', 'I', 'D', 'X', ' ', '1', '2']);
        },
        13 => {
            reveal_strlit("beatmania IIDX 13 DistorteD");
            reveal_strlit("IIDX 13 DistorteD");
            assert(spec_version_album_name(13) =~= "beatmania "@ + spec_version_folder_name(13));
            assert(spec_version_folder_name(13).subrange(0, 7) =~= seq!['I', 'I', 'D', 'X', ' ', '1', '3']);
        },
        14 => {
            reveal_strlit("beatmania IIDX 14 GOLD");
            reveal_strlit("IIDX 14 GOLD");
            assert(spec_version_album_name(14) =~= "beatmania "@ + spec_version_folder_name(14));
            assert(spec_version_folder_name(14).subrange(0, 7) =~= seq!['I', 'I', 'D', 'X', ' ', '1', '4']);
        },
        15 => {
            reveal_strlit("beatmania IIDX 15 DJ TROOPERS");
            reveal_strlit("IIDX 15 DJ TROOPERS");
            assert(spec_version_album_name(15) =~= "beatmania "@ + spec_version_folder_name(15));
            assert(spec_version_folder_name(15).subrange(0, 7) =~= seq!['I', 'I', 'D', 'X', ' ', '1', '5']);
        },
        16 => {
            reveal_strlit("beatmania IIDX 16 EMPRESS");
            reveal_strlit("IIDX 16 EMPRESS");
            assert(spec_version_album_name(16) =~= "beatmania "@ + spec_version_folder_name(16));
            assert(spec_version_folder_name(16).subrange(0, 7) =~= seq!['I', 'I', 'D', 'X', ' ', '1', '6']);
        },
        17 => {
            reveal_strlit("beatmania IIDX 17 SIRIUS");
            reveal_strlit("IIDX 17 SIRIUS");
            assert(spec_version_album_name(17) =~= "beatmania "@ + spec_version_folder_name(17));
            assert(spec_version_folder_name(17).subrange(0, 7) =~= seq!['I', 'I', 'D', 'X', ' ', '1', '7']);
        },
        18 => {
            reveal_strlit("beatmania IIDX 18 Resort Anthem");
            reveal_strlit("IIDX 18 Resort Anthem");
            assert(spec_version_album_name(18) =~= "beatmania "@ + spec_version_folder_name(18));
            assert(spec_version_folder_name(18).subrange(0, 7) =~= seq!['I', 'I', 'D', 'X', ' ', '1', '8']);
        },
        19 => {
            reveal_strlit("beatmania IIDX 19 Lincle");
            reveal_strlit("IIDX 19 Lincle");
            assert(spec_version_album_name(19) =~= "beatmania "@ + spec_version_folder_name(19));
            assert(spec_version_folder_name(19).subrange(0, 7) =~= seq!['I', 'I', 'D', 'X', ' ', '1', '9']);
        },
        20 => {
            reveal_strlit("beatmania IIDX 20 tricoro");
            reveal_strlit("IIDX 20 tricoro");
            assert(spec_version_album_name(20) =~= "beatmania "@ + spec_version_folder_name(20));
            assert(spec_version_folder_name(20).subrange(0, 7) =~= seq!['I', 'I', 'D', 'X', ' ', '2', '0']);
        },
        21 => {
            reveal_strlit("beatmania IIDX 21 SPADA");
            reveal_strlit("IIDX 21 SPADA");
            assert(spec_version_album_name(21) =~= "beatmania "@ + spec_version_folder_name(21));
            assert(spec_version_folder_name(21).subrange(0, 7) =~= seq!['I', 'I', 'D', 'X', ' ', '2', '1']);
        },
        22 => {
            reveal_strlit("beatmania IIDX 22 PENDUAL");
            reveal_strlit("IIDX 22 PENDUAL");
            assert(spec_version_album_name(22) =~= "beatmania "@ + spec_version_folder_name(22));
            assert(spec_version_folder_name(22).subrange(0, 7) =~= seq!['I', 'I', 'D', 'X', ' ', '2', '2']);
        },
        23 => {
            reveal_strlit("beatmania IIDX 23 copula");
            reveal_strlit("IIDX 23 copula");
            assert(spec_version_album_name(23) =~= "beatmania "@ + spec_version_folder_name(23));
            assert(spec_version_folder_name(23).subrange(0, 7) =~= seq!['I', 'I', 'D', 'X', ' ', '2', '3']);
        },
        24 => {
            reveal_strlit("beatmania IIDX 24 SINOBUZ");
            reveal_strlit("IIDX 24 SINOBUZ");
            assert(spec_version_album_name(24) =~= "beatmania "@ + spec_version_folder_name(24));
            assert(spec_version_folder_name(24).subrange(0, 7) =~= seq!['I', 'I', 'D', 'X', ' ', '2', '4']);
        },
        25 => {
            reveal_strlit("beatmania IIDX 25 CANNON BALLERS");
            reveal_strlit("IIDX 25 CANNON BALLERS");
            assert(spec_version_album_name(25) =~= "beatmania "@ + spec_version_folder_name(25));
            assert(spec_version_folder_name(25).subrange(0, 7) =~= seq!['I', 'I', 'D', 'X', ' ', '2', '5']);
        },
        26 => {
            reveal_strlit("beatmania IIDX 26 Rootage");
            reveal_strlit("IIDX 26 Rootage");
            assert(spec_version_album_name(26) =~= "beatmania "@ + spec_version_folder_name(26));
            assert(spec_version_folder_name(26).subrange(0, 7) =~= seq!['I', 'I', 'D', 'X', ' ', '2', '6']);
        },
        27 => {
            reveal_strlit("beatmania IIDX 27 HEROIC VERSE");
            reveal_strlit("IIDX 27 HEROIC VERSE");
            assert(spec_version_album_name(27) =~= "beatmania "@ + spec_version_folder_name(27));
            assert(spec_version_folder_name(27).subrange(0, 7) =~= seq!['I', 'I', 'D', 'X', ' ', '2', '7']);
        },
        28 => {
            reveal_strlit("beatmania IIDX 28 BISTROVER");
            reveal_strlit("IIDX 28 BISTROVER");
            assert(spec_version_album_name(28) =~= "beatmania "@ + spec_version_folder_name(28));
            assert(spec_version_folder_name(28).subrange(0, 7) =~= seq!['I', 'I', 'D', 'X', ' ', '2', '8']);
        },
        29 => {
            reveal_strlit("beatmania IIDX 29 CastHour");
            reveal_strlit("IIDX 29 CastHour");
            assert(spec_version_album_name(29) =~= "beatmania "@ + spec_version_folder_name(29));
            assert(spec_version_folder_name(29).subrange(0, 7) =~= seq!['I', 'I', 'D', 'X', ' ', '2', '9']);
        },
        30 => {
            reveal_strlit("beatmania IIDX 30 RESIDENT");
            reveal_strlit("IIDX 30 RESIDENT");
            assert(spec_version_album_name(30) =~= "beatmania "@ + spec_version_folder_name(30));
            assert(spec_version_folder_name(30).subrange(0, 7) =~= seq!['I', 'I', 'D', 'X', ' ', '3', '0']);
        },
        31 => {
            reveal_strlit("beatmania IIDX 31 EPOLIS");
            reveal_strlit("IIDX 31 EPOLIS");
            assert(spec_version_album_name(31) =~= "beatmania "@ + spec_version_folder_name(31));
            assert(spec_version_folder_name(31).subrange(0, 7) =~= seq!['I', 'I', 'D', 'X', ' ', '3', '1']);
        },
        32 => {
            reveal_strlit("beatmania IIDX 32 Pinky Crush");
            reveal_strlit("IIDX 32 Pinky Crush");
            assert(spec_version_album_name(32) =~= "beatmania "@ + spec_version_folder_name(32));
            assert(spec_version_folder_name(32).subrange(0, 7) =~= seq!['I', 'I', 'D', 'X', ' ', '3', '2']);
        },
        33 => {
            reveal_strlit("beatmania IIDX 33 Sparkle Shower");
            reveal_strlit("IIDX 33 Sparkle Shower");
            assert(spec_version_album_name(33) =~= "beatmania "@ + spec_version_folder_name(33));
            assert(spec_version_folder_name(33).subrange(0, 7) =~= seq!['I', 'I', 'D', 'X', ' ', '3', '3']);
        },
        34 => {
            reveal_strlit("beatmania IIDX 34");
            reveal_strlit("IIDX 34");
            assert(spec_version_album_name(34) =~= "beatmania "@ + spec_version_folder_name(34));
            assert(spec_version_folder_name(34).subrange(0, 7) =~= seq!['I', 'I', 'D', 'X', ' ', '3', '4']);
        },
        35 => {
            reveal_strlit("beatmania IIDX 35");
            reveal_strlit("IIDX 35");
            assert(spec_version_album_name(35) =~= "beatmania "@ + spec_version_folder_name(35));
            assert(spec_version_folder_name(35).subrange(0, 7) =~= seq!['I', 'I', 'D', 'X', ' ', '3', '5']);
        },
        36 => {
            reveal_strlit("beatmania IIDX 36");
            reveal_strlit("IIDX 36");
            assert(spec_version_album_name(36) =~= "beatmania "@ + spec_version_folder_name(36));
            assert(spec_version_folder_name(36).subrange(0, 7) =~= seq!['I', 'I', 'D', 'X', ' ', '3', '6']);
        },
        37 => {
            reveal_strlit("beatmania IIDX 37");
            reveal_strlit("IIDX 37");
            assert(spec_version_album_name(37) =~= "beatmania "@ + spec_version_folder_name(37));
            assert(spec_version_folder_name(37).subrange(0, 7) =~= seq!['I', 'I', 'D', 'X', ' ', '3', '7']);
        },
        38 => {
            reveal_strlit("beatmania IIDX 38");
            reveal_strlit("IIDX 38");
            assert(spec_version_album_name(38) =~= "beatmania "@ + spec_version_folder_name(38));
            assert(spec_version_folder_name(38).subrange(0, 7) =~= seq!['I', 'I', 'D', 'X', ' ', '3', '8']);
        },
        39 => {
            reveal_strlit("beatmania IIDX 39");
            reveal_strlit("IIDX 39");
            assert(spec_version_album_name(39) =~= "beatmania "@ + spec_version_folder_name(39));
            assert(spec_version_folder_name(39).subrange(0, 7) =~= seq!['I', 'I', 'D', 'X', ' ', '3', '9']);
        },
        40 => {
            reveal_strlit("beatmania IIDX 40");
            reveal_strlit("IIDX 40");
            assert(spec_version_album_name(40) =~= "beatmania "@ + spec_version_folder_name(40));
            assert(spec_version_folder_name(40).subrange(0, 7) =~= seq!['I', 'I', 'D', 'X', ' ', '4', '0']);
        },
        _ => {},
    }
    assert(seq!['I', 'I', 'D', 'X', ' '] + folder_number(v) =~= spec_version_folder_name(v).subrange(0, 7));
}

} // verus!
