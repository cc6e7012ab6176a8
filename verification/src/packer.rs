//! What goes into one output file besides the audio: the Vorbis comments and the cover's image type, and the order
//! in which the chart difficulties are tried when rendering a song.

use vstd::prelude::*;
use vstd::string::StrSliceExecFns;
use vstd::string::StringExecFns;
use crate::common::{ALBUM_ARTIST, MusicInfo, MusicView, spec_version_album_name, version_album_name};
use crate::text::{all_digits, ascii_lower, decimal, decimal_chars, decimal_value, eq_ignore_ascii_case, lemma_decimal_value};

verus! {

// ---- tags -------------------------------------------------------------------------------------------------------

/// A Vorbis comment field written to every output file.
#[derive(Debug, Clone, Copy, PartialEq, Eq)]
pub enum TagField {
    /// TITLE
    Title,
    /// ARTIST
    Artist,
    /// ALBUM
    Album,
    /// GENRE
    Genre,
    /// ALBUMARTIST
    AlbumArtist,
    /// TRACKNUMBER
    TrackNumber,
}

/// One Vorbis comment: a field and its text.
pub struct TagItem {
    pub field: TagField,
    pub value: String,
}

/// The content of a [`TagItem`].
pub struct TagView {
    pub field: TagField,
    pub value: Seq<char>,
}

impl View for TagItem {
    type V = TagView;

    open spec fn view(&self) -> TagView {
        TagView { field: self.field, value: self.value@ }
    }
}

/// The track number of a song within its version album: the last three digits of its id, plus one.
pub open spec fn track_number(id: u32) -> nat {
    (id % 1000 + 1) as nat
}

/// The comments of a song, in order: TITLE, ARTIST, ALBUM (the version's full name), GENRE (only when the song has
/// one), ALBUMARTIST ("BEMANI"), TRACKNUMBER.
pub open spec fn spec_vorbis_tags(m: MusicView) -> Seq<TagView> {
    let head = seq![
        TagView { field: TagField::Title, value: m.title },
        TagView { field: TagField::Artist, value: m.artist },
        TagView { field: TagField::Album, value: spec_version_album_name(m.version) },
    ];
    let genre = if m.genre.len() > 0 {
        seq![TagView { field: TagField::Genre, value: m.genre }]
    } else {
        Seq::empty()
    };
    head + genre + seq![
        TagView { field: TagField::AlbumArtist, value: "BEMANI"@ },
        TagView { field: TagField::TrackNumber, value: decimal_chars(track_number(m.id)) },
    ]
}

/// The views of a list of comments.
pub open spec fn tags_view(tags: Seq<TagItem>) -> Seq<TagView> {
    tags.map_values(|t: TagItem| t@)
}

/// The Vorbis comments to attach to a song's output file; a blank genre is left out.
pub fn vorbis_tags(info: &MusicInfo) -> (tags: Vec<TagItem>)
    ensures
        tags_view(tags@) == spec_vorbis_tags(info@),
{
    let mut tags: Vec<TagItem> = Vec::new();
    tags.push(TagItem { field: TagField::Title, value: info.str_title.clone() });
    tags.push(TagItem { field: TagField::Artist, value: info.str_artist.clone() });
    tags.push(TagItem { field: TagField::Album, value: String::from_str(version_album_name(info.version)) });
    if info.str_genre.as_str().unicode_len() > 0 {
        tags.push(TagItem { field: TagField::Genre, value: info.str_genre.clone() });
    }
    tags.push(TagItem { field: TagField::AlbumArtist, value: String::from_str(ALBUM_ARTIST) });
    tags.push(TagItem { field: TagField::TrackNumber, value: decimal((info.id % 1000 + 1) as u64) });
    assert(ALBUM_ARTIST@ == "BEMANI"@);
    assert(tags_view(tags@) =~= spec_vorbis_tags(info@));
    tags
}

/// The image type of an embedded cover.
#[derive(Debug, Clone, Copy, PartialEq, Eq)]
pub enum CoverMime {
    Png,
    Jpeg,
}

/// The extension is "png", ignoring ASCII case.
pub open spec fn is_png_ext(ext: Seq<char>) -> bool {
    &&& ext.len() == 3
    &&& (ext[0] == 'p' || ext[0] == 'P')
    &&& (ext[1] == 'n' || ext[1] == 'N')
    &&& (ext[2] == 'g' || ext[2] == 'G')
}

/// The image type of a cached cover, from its file extension: PNG for "png" (any ASCII case), JPEG otherwise.
pub fn cover_mime(extension: &str) -> (m: CoverMime)
    ensures
        m == (if is_png_ext(extension@) {
            CoverMime::Png
        } else {
            CoverMime::Jpeg
        }),
{
    if extension.unicode_len() != 3 {
        return CoverMime::Jpeg;
    }
    let c0 = extension.get_char(0);
    let c1 = extension.get_char(1);
    let c2 = extension.get_char(2);
    if (c0 == 'p' || c0 == 'P') && (c1 == 'n' || c1 == 'N') && (c2 == 'g' || c2 == 'G') {
        CoverMime::Png
    } else {
        CoverMime::Jpeg
    }
}

// ---- rendering: which chart to try next -------------------------------------------------------------------------

/// A chart slot of a song. Any of them reconstructs the same song.
#[derive(Debug, Clone, Copy, PartialEq, Eq)]
pub enum Difficulty {
    SpNormal,
    SpHyper,
    SpAnother,
    SpBeginner,
    SpLeggendaria,
    DpNormal,
    DpHyper,
    DpAnother,
    DpBeginner,
    DpLeggendaria,
}

/// How many chart slots are tried.
pub const DIFFICULTY_COUNT: usize = 10;

/// The order in which chart slots are tried: SP normal exists for nearly every song, the rest are fallbacks.
pub open spec fn spec_difficulty_priority(i: int) -> Difficulty {
    if i == 0 {
        Difficulty::SpNormal
    } else if i == 1 {
        Difficulty::SpHyper
    } else if i == 2 {
        Difficulty::SpAnother
    } else if i == 3 {
        Difficulty::SpBeginner
    } else if i == 4 {
        Difficulty::SpLeggendaria
    } else if i == 5 {
        Difficulty::DpNormal
    } else if i == 6 {
        Difficulty::DpHyper
    } else if i == 7 {
        Difficulty::DpAnother
    } else if i == 8 {
        Difficulty::DpBeginner
    } else {
        Difficulty::DpLeggendaria
    }
}

/// The chart slot tried at attempt `i`.
pub fn difficulty_priority(i: usize) -> (d: Difficulty)
    requires
        i < DIFFICULTY_COUNT,
    ensures
        d == spec_difficulty_priority(i as int),
{
    if i == 0 {
        Difficulty::SpNormal
    } else if i == 1 {
        Difficulty::SpHyper
    } else if i == 2 {
        Difficulty::SpAnother
    } else if i == 3 {
        Difficulty::SpBeginner
    } else if i == 4 {
        Difficulty::SpLeggendaria
    } else if i == 5 {
        Difficulty::DpNormal
    } else if i == 6 {
        Difficulty::DpHyper
    } else if i == 7 {
        Difficulty::DpAnother
    } else if i == 8 {
        Difficulty::DpBeginner
    } else {
        Difficulty::DpLeggendaria
    }
}

/// What one render attempt came to.
#[derive(Debug, Clone, Copy, PartialEq, Eq)]
pub enum RenderOutcome {
    /// the song was rendered
    Rendered,
    /// the audio is pre-mixed, not keysounds (found before the chart is read, so no other slot can do better)
    NotKeysound,
    /// this slot is missing or failed to decode
    Failed,
}

/// What to do after a render attempt.
#[derive(Debug, Clone, Copy, PartialEq, Eq)]
pub enum RenderStep {
    /// the output is written
    Finished,
    /// try the chart slot of attempt `attempt`
    Retry { attempt: usize },
    /// transcode the loose pre-mixed audio file directly
    ConvertPremixed,
    /// fail: a packed archive holds pre-mixed audio, with no separate file to transcode
    FailNotKeysound,
    /// fail with the first attempt's error: every slot failed
    FailFirstError,
}

/// The step after attempt `attempt` came to `outcome`.
pub open spec fn spec_next_render_step(attempt: int, outcome: RenderOutcome, is_loose: bool) -> RenderStep {
    match outcome {
        RenderOutcome::Rendered => RenderStep::Finished,
        RenderOutcome::NotKeysound => if is_loose {
            RenderStep::ConvertPremixed
        } else {
            RenderStep::FailNotKeysound
        },
        RenderOutcome::Failed => if attempt + 1 < DIFFICULTY_COUNT {
            RenderStep::Retry { attempt: (attempt + 1) as usize }
        } else {
            RenderStep::FailFirstError
        },
    }
}

/// Decide what follows a render attempt: stop on success; on pre-mixed audio transcode a loose file or fail for a
/// packed one; on a failed slot try the next one, and when none is left fail with the first error.
pub fn next_render_step(attempt: usize, outcome: RenderOutcome, is_loose: bool) -> (step: RenderStep)
    requires
        attempt < DIFFICULTY_COUNT,
    ensures
        step == spec_next_render_step(attempt as int, outcome, is_loose),
{
    match outcome {
        RenderOutcome::Rendered => RenderStep::Finished,
        RenderOutcome::NotKeysound => if is_loose {
            RenderStep::ConvertPremixed
        } else {
            RenderStep::FailNotKeysound
        },
        RenderOutcome::Failed => if attempt + 1 < DIFFICULTY_COUNT {
            RenderStep::Retry { attempt: attempt + 1 }
        } else {
            RenderStep::FailFirstError
        },
    }
}

/// Law: a song's comments are TITLE = its title, ARTIST = its artist, ALBUM = its version's album name, GENRE = its
/// genre (present exactly when the genre is not blank), ALBUMARTIST = "BEMANI", and last TRACKNUMBER, whose digits
/// denote the last three decimal digits of the song_id plus one (1..=1000).
pub proof fn lemma_vorbis_tag_values(m: MusicView)
    ensures
        ({
            let tags = spec_vorbis_tags(m);
            let n = tags.len();
            &&& n == if m.genre.len() > 0 { 6int } else { 5int }
            &&& tags[0] == TagView { field: TagField::Title, value: m.title }
            &&& tags[1] == TagView { field: TagField::Artist, value: m.artist }
            &&& tags[2] == TagView { field: TagField::Album, value: spec_version_album_name(m.version) }
            &&& m.genre.len() > 0 ==> tags[3] == TagView { field: TagField::Genre, value: m.genre }
            &&& tags[n - 2] == TagView { field: TagField::AlbumArtist, value: "BEMANI"@ }
            &&& tags[n - 1].field == TagField::TrackNumber
            &&& tags[n - 1].value == decimal_chars((m.id as nat) % 1000 + 1)
            &&& all_digits(tags[n - 1].value)
            &&& decimal_value(tags[n - 1].value) == (m.id as nat) % 1000 + 1
            &&& 1 <= decimal_value(tags[n - 1].value) <= 1000
            &&& forall|k: int| 0 <= k < n - 1 ==> (#[trigger] tags[k]).field != TagField::TrackNumber
            &&& forall|k: int|
                0 <= k < n && (#[trigger] tags[k]).field == TagField::Genre ==> m.genre.len() > 0 && k == 3
        }),
{
    lemma_decimal_value((m.id as nat) % 1000 + 1);
}

/// Law: a cover is PNG exactly when its extension equals "png" ignoring ASCII case.
pub proof fn lemma_png_extension_ignores_case(ext: Seq<char>)
    ensures
        is_png_ext(ext) == eq_ignore_ascii_case(ext, seq!['p', 'n', 'g']),
{
    let want = seq!['p', 'n', 'g'];
    if ext.len() == 3 {
        assert(ascii_lower(ext[0]) == 'p' <==> (ext[0] == 'p' || ext[0] == 'P'));
        assert(ascii_lower(ext[1]) == 'n' <==> (ext[1] == 'n' || ext[1] == 'N'));
        assert(ascii_lower(ext[2]) == 'g' <==> (ext[2] == 'g' || ext[2] == 'G'));
        assert(ascii_lower(want[0]) == 'p');
        assert(ascii_lower(want[1]) == 'n');
        assert(ascii_lower(want[2]) == 'g');
        if is_png_ext(ext) {
            assert forall|i: int| 0 <= i < ext.len() implies #[trigger] ascii_lower(ext[i]) == ascii_lower(want[i]) by {
                if i == 0 {
                } else if i == 1 {
                } else {
                }
            }
        }
        if eq_ignore_ascii_case(ext, want) {
            assert(ascii_lower(ext[0]) == ascii_lower(want[0]));
            assert(ascii_lower(ext[1]) == ascii_lower(want[1]));
            assert(ascii_lower(ext[2]) == ascii_lower(want[2]));
        }
    }
}

/// A single-play chart slot.
pub open spec fn is_single_play(d: Difficulty) -> bool {
    matches!(d, Difficulty::SpNormal | Difficulty::SpHyper | Difficulty::SpAnother | Difficulty::SpBeginner
        | Difficulty::SpLeggendaria)
}

/// Law: the attempts try ten different chart slots, SP normal first, every single-play slot before any double-play
/// one.
pub proof fn lemma_difficulty_order(i: int, j: int)
    ensures
        0 <= i < DIFFICULTY_COUNT && 0 <= j < DIFFICULTY_COUNT && i != j ==> spec_difficulty_priority(i)
            != spec_difficulty_priority(j),
        spec_difficulty_priority(0) == Difficulty::SpNormal,
        0 <= i < 5 ==> is_single_play(spec_difficulty_priority(i)),
        5 <= i < DIFFICULTY_COUNT ==> !is_single_play(spec_difficulty_priority(i)),
{
}

/// Law: a rendered song stops the attempts; pre-mixed audio stops them too (converted directly when loose, a failure
/// when packed); only a failed slot moves on, always to the very next attempt, and the last failure gives up.
pub proof fn lemma_render_steps(attempt: int, outcome: RenderOutcome, is_loose: bool)
    requires
        0 <= attempt < DIFFICULTY_COUNT,
    ensures
        outcome == RenderOutcome::Rendered ==> spec_next_render_step(attempt, outcome, is_loose)
            == RenderStep::Finished,
        outcome == RenderOutcome::NotKeysound ==> spec_next_render_step(attempt, outcome, is_loose) == if is_loose {
            RenderStep::ConvertPremixed
        } else {
            RenderStep::FailNotKeysound
        },
        spec_next_render_step(attempt, outcome, is_loose) matches RenderStep::Retry { attempt: next } ==> outcome
            == RenderOutcome::Failed && next == attempt + 1,
        outcome == RenderOutcome::Failed && attempt + 1 < DIFFICULTY_COUNT ==> spec_next_render_step(
            attempt,
            outcome,
            is_loose,
        ) is Retry,
        outcome == RenderOutcome::Failed && attempt + 1 == DIFFICULTY_COUNT ==> spec_next_render_step(
            attempt,
            outcome,
            is_loose,
        ) == RenderStep::FailFirstError,
{
}

} // verus!
