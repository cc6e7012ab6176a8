use iidx_on_ear::common::MusicInfo;
use iidx_on_ear::music_db::{
    count_valid_songs, merge_omnimix, merge_override, parse_entry, parse_index, rd_u16, rd_u32, wstr, DbError,
    ENTRY_SIZE,
};

fn put_wide(e: &mut [u8], off: usize, text: &str) {
    for (k, u) in text.encode_utf16().enumerate() {
        e[off + 2 * k..off + 2 * k + 2].copy_from_slice(&u.to_le_bytes());
    }
}

fn entry(id: u32, title: &str, genre: &str, artist: &str, version: u16) -> Vec<u8> {
    let mut e = vec![0u8; ENTRY_SIZE];
    put_wide(&mut e, 0x000, title);
    put_wide(&mut e, 0x140, genre);
    put_wide(&mut e, 0x1C0, artist);
    e[0x3DC..0x3DE].copy_from_slice(&version.to_le_bytes());
    e[0x67C..0x680].copy_from_slice(&id.to_le_bytes());
    e
}

fn database(index_len: u32, entries: &[Vec<u8>]) -> Vec<u8> {
    let mut d = b"IIDX".to_vec();
    d.extend_from_slice(&32u32.to_le_bytes());
    d.extend_from_slice(&(entries.len() as u32).to_le_bytes());
    d.extend_from_slice(&index_len.to_le_bytes());
    d.extend_from_slice(&vec![0xffu8; 4 * index_len as usize]);
    for e in entries {
        d.extend_from_slice(e);
    }
    d
}

fn song(id: u32, title: &str) -> MusicInfo {
    MusicInfo {
        is_valid: true,
        is_omnimix: false,
        id,
        str_title: title.to_string(),
        str_genre: String::new(),
        str_artist: String::new(),
        version: 1,
    }
}

fn gap(id: u32) -> MusicInfo {
    let mut m = MusicInfo::empty();
    m.id = id;
    m
}

#[test]
fn field_readers() {
    let b = [1u8, 2, 3, 4, 5];
    assert_eq!(rd_u32(&b, 1), 0x0504_0302);
    assert_eq!(rd_u16(&b, 0), 0x0201);
}

#[test]
fn wide_strings_stop_at_nul_and_replace_lone_surrogates() {
    let mut e = vec![0u8; 16];
    put_wide(&mut e, 0, "冥");
    assert_eq!(wstr(&e, 0, 16), "冥");
    let mut f = vec![0u8; 8];
    f[0..2].copy_from_slice(&0xD800u16.to_le_bytes());
    f[2..4].copy_from_slice(&u16::from(b'A').to_le_bytes());
    assert_eq!(wstr(&f, 0, 8), "\u{FFFD}A");
    // a field with no NUL runs to its end
    let mut g = vec![0u8; 4];
    put_wide(&mut g, 0, "ab");
    assert_eq!(wstr(&g, 0, 4), "ab");
}

#[test]
fn entry_fields() {
    let e = entry(12004, "冥", "HARDCORE", "Zektbach", 0x010C);
    let info = parse_entry(12004, &e);
    assert!(info.is_valid && !info.is_omnimix);
    assert_eq!(info.id, 12004);
    assert_eq!(info.str_title, "冥");
    assert_eq!(info.str_genre, "HARDCORE");
    assert_eq!(info.str_artist, "Zektbach");
    assert_eq!(info.version, 12);
}

#[test]
fn database_is_keyed_by_song_id() {
    let data = database(3, &[entry(1, "one", "g", "a", 30), entry(5, "five", "", "b", 31), entry(1, "uno", "", "", 32)]);
    let db = parse_index(&data).unwrap();
    assert_eq!(db.len(), 6);
    for (i, m) in db.iter().enumerate() {
        if m.is_valid {
            assert_eq!(m.id as usize, i);
        }
    }
    assert_eq!(db[1].str_title, "uno");
    assert_eq!(db[1].version, 32);
    assert_eq!(db[5].str_title, "five");
    assert!(!db[0].is_valid && !db[2].is_valid && !db[3].is_valid && !db[4].is_valid);
    assert_eq!(count_valid_songs(&db), 2);
}

#[test]
fn database_errors() {
    assert_eq!(parse_index(b"IIDX").err(), Some(DbError::BadMagic));
    let mut wrong = database(0, &[entry(1, "x", "", "", 1)]);
    wrong[0] = b'J';
    assert_eq!(parse_index(&wrong).err(), Some(DbError::BadMagic));
    assert_eq!(parse_index(&database(0, &[])).err(), Some(DbError::Truncated));
    let mut short_table = database(0, &[entry(1, "x", "", "", 1)]);
    short_table[12..16].copy_from_slice(&10_000u32.to_le_bytes());
    assert_eq!(parse_index(&short_table).err(), Some(DbError::Truncated));
    let mut odd = database(0, &[entry(1, "x", "", "", 1)]);
    odd.extend_from_slice(&[0u8; 10]);
    assert_eq!(parse_index(&odd).err(), Some(DbError::UnexpectedEntrySize { found: 2050 }));
    let mut half = database(0, &[entry(1, "x", "", "", 1), entry(2, "y", "", "", 1)]);
    half.truncate(half.len() - ENTRY_SIZE);
    assert_eq!(parse_index(&half).err(), Some(DbError::UnexpectedEntrySize { found: 1020 }));
}

#[test]
fn override_merge_lets_overlay_win_and_counts_new_ids() {
    let mut base = vec![gap(0), song(1, "old"), gap(2)];
    let overlay = vec![song(1, "new"), song(2, "two"), gap(3), song(6, "six")];
    let added = merge_override(&mut base, overlay);
    assert_eq!(added, 2);
    assert_eq!(base.len(), 7);
    assert_eq!(base[1].str_title, "new");
    assert_eq!(base[2].str_title, "two");
    assert_eq!(base[6].str_title, "six");
    assert!(!base[6].is_omnimix);
    assert_eq!(count_valid_songs(&base), 3);
}

#[test]
fn omnimix_merge_fills_only_gaps_and_flags_them() {
    let mut base = vec![gap(0), song(1, "base"), gap(2)];
    let omni = vec![song(1, "omni"), song(2, "revived"), song(2, "revived again")];
    let before = count_valid_songs(&base);
    let added = merge_omnimix(&mut base, omni);
    assert_eq!(added, 1);
    assert_eq!(count_valid_songs(&base), before + added);
    assert_eq!(base[1].str_title, "base");
    assert!(!base[1].is_omnimix);
    assert_eq!(base[2].str_title, "revived");
    assert!(base[2].is_omnimix);
}

#[test]
fn wide_strings_join_surrogate_pairs() {
    let mut e = vec![0u8; 12];
    put_wide(&mut e, 0, "\u{1D11E}x");
    assert_eq!(wstr(&e, 0, 12), "\u{1D11E}x");
    let mut f = vec![0u8; 8];
    f[0..2].copy_from_slice(&0xDC00u16.to_le_bytes());
    f[2..4].copy_from_slice(&0xD800u16.to_le_bytes());
    f[4..6].copy_from_slice(&u16::from(b'B').to_le_bytes());
    assert_eq!(wstr(&f, 0, 8), "\u{FFFD}\u{FFFD}B");
}

#[test]
fn entries_need_only_the_bytes_up_to_the_version() {
    let e = entry(7, "t", "g", "a", 5);
    let info = parse_entry(7, &e[..0x3DE]);
    assert_eq!(info.str_title, "t");
    assert_eq!(info.version, 5);
}

#[test]
fn merging_the_same_overlay_twice_changes_nothing() {
    let overlay = vec![song(1, "a"), song(3, "b"), song(1, "c")];
    let mut base = vec![gap(0), song(1, "old")];
    merge_override(&mut base, overlay.clone());
    let once: Vec<(bool, String)> = base.iter().map(|m| (m.is_valid, m.str_title.clone())).collect();
    assert_eq!(merge_override(&mut base, overlay.clone()), 0);
    let twice: Vec<(bool, String)> = base.iter().map(|m| (m.is_valid, m.str_title.clone())).collect();
    assert_eq!(once, twice);

    let mut base = vec![gap(0), song(1, "old")];
    assert_eq!(merge_omnimix(&mut base, overlay.clone()), 1);
    assert_eq!(merge_omnimix(&mut base, overlay), 0);
    assert_eq!(base.len(), 4);
    assert_eq!(base[3].str_title, "b");
}

#[test]
fn records_have_defaults_and_copies() {
    let d = MusicInfo::default();
    assert!(!d.is_valid && d.id == 0 && d.str_title.is_empty() && d.version == 0);
    let s = song(9, "nine");
    let c = s.clone();
    assert_eq!(c.str_title, "nine");
    assert!(format!("{c:?}").contains("nine"));
}
