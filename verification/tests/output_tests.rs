use iidx_on_ear::common::MusicInfo;
use iidx_on_ear::packer::{
    cover_mime, difficulty_priority, next_render_step, vorbis_tags, CoverMime, Difficulty, RenderOutcome, RenderStep,
    TagField, DIFFICULTY_COUNT,
};
use iidx_on_ear::tool::{csv_field, music_csv};

fn song(id: u32, title: &str, genre: &str, artist: &str, version: u8, is_omnimix: bool) -> MusicInfo {
    MusicInfo {
        is_valid: true,
        is_omnimix,
        id,
        str_title: title.to_string(),
        str_genre: genre.to_string(),
        str_artist: artist.to_string(),
        version,
    }
}

#[test]
fn csv_fields_are_quoted_only_when_needed() {
    assert_eq!(csv_field("plain"), "plain");
    assert_eq!(csv_field("a,b"), "\"a,b\"");
    assert_eq!(csv_field("say \"hi\""), "\"say \"\"hi\"\"\"");
    assert_eq!(csv_field("line\nbreak"), "\"line\nbreak\"");
    assert_eq!(csv_field(""), "");
}

#[test]
fn csv_lists_valid_songs_with_bom_and_header() {
    let db = vec![
        MusicInfo::empty(),
        song(1000, "5.1.1.", "TECHNO", "dj nagureo", 0, false),
        MusicInfo::empty(),
        song(1011, "A,B", "", "X", 10, true),
    ];
    assert_eq!(
        music_csv(&db),
        "\u{FEFF}id,omnimix,title,genre,artist,version\n1000,0,5.1.1.,TECHNO,dj nagureo,0\n1011,1,\"A,B\",,X,10\n"
    );
    assert_eq!(music_csv(&[]), "\u{FEFF}id,omnimix,title,genre,artist,version\n");
}

#[test]
fn vorbis_tags_of_a_song() {
    let tags = vorbis_tags(&song(32095, "Title", "POPS", "Artist", 32, false));
    let got: Vec<(TagField, &str)> = tags.iter().map(|t| (t.field, t.value.as_str())).collect();
    assert_eq!(got, vec![
        (TagField::Title, "Title"),
        (TagField::Artist, "Artist"),
        (TagField::Album, "beatmania IIDX 32 Pinky Crush"),
        (TagField::Genre, "POPS"),
        (TagField::AlbumArtist, "BEMANI"),
        (TagField::TrackNumber, "96"),
    ]);
    let no_genre = vorbis_tags(&song(1000, "T", "", "A", 0, false));
    assert_eq!(no_genre.len(), 5);
    assert!(no_genre.iter().all(|t| t.field != TagField::Genre));
    assert_eq!(no_genre[4].value, "1");
}

#[test]
fn cover_type_from_extension() {
    assert_eq!(cover_mime("png"), CoverMime::Png);
    assert_eq!(cover_mime("PnG"), CoverMime::Png);
    assert_eq!(cover_mime("jpg"), CoverMime::Jpeg);
    assert_eq!(cover_mime(""), CoverMime::Jpeg);
}

#[test]
fn render_fallback_order() {
    assert_eq!(DIFFICULTY_COUNT, 10);
    assert_eq!(difficulty_priority(0), Difficulty::SpNormal);
    assert_eq!(difficulty_priority(4), Difficulty::SpLeggendaria);
    assert_eq!(difficulty_priority(5), Difficulty::DpNormal);
    assert_eq!(difficulty_priority(9), Difficulty::DpLeggendaria);
    assert_eq!(next_render_step(0, RenderOutcome::Rendered, true), RenderStep::Finished);
    assert_eq!(next_render_step(0, RenderOutcome::Failed, true), RenderStep::Retry { attempt: 1 });
    assert_eq!(next_render_step(9, RenderOutcome::Failed, false), RenderStep::FailFirstError);
    assert_eq!(next_render_step(3, RenderOutcome::NotKeysound, true), RenderStep::ConvertPremixed);
    assert_eq!(next_render_step(3, RenderOutcome::NotKeysound, false), RenderStep::FailNotKeysound);
}
