use iidx_on_ear::common::{version_album_name, version_folder_name, ALBUM_ARTIST};
use iidx_on_ear::jacket::{jacket_path, jacket_url, local_name};
use iidx_on_ear::text::{decimal, join_path, str_eq, str_ends_with, str_lt, str_starts_with, zero_padded};

#[test]
fn album_names_per_version() {
    assert_eq!(version_album_name(0), "beatmania IIDX 1st style");
    assert_eq!(version_album_name(1), "beatmania IIDX Substream");
    assert_eq!(version_album_name(32), "beatmania IIDX 32 Pinky Crush");
    assert_eq!(version_album_name(40), "beatmania IIDX 40");
    assert_eq!(version_album_name(41), "");
    assert_eq!(version_album_name(255), "");
    assert_eq!(ALBUM_ARTIST, "BEMANI");
}

#[test]
fn folder_names_per_version() {
    assert_eq!(version_folder_name(0), "IIDX 01 1st style");
    assert_eq!(version_folder_name(9), "IIDX 09 9th style");
    assert_eq!(version_folder_name(32), "IIDX 32 Pinky Crush");
    assert_eq!(version_folder_name(34), "IIDX 34");
    assert_eq!(version_folder_name(41), "");
}

#[test]
fn jacket_sources_and_cache_names() {
    assert_eq!(jacket_url(1), jacket_url(0));
    assert!(jacket_url(32).ends_with("albumjacket_01037.jpg"));
    assert_eq!(jacket_url(34), "");
    assert_eq!(jacket_url(200), "");
    assert_eq!(local_name(27, "https://media.vgm.io/albums/94/95249/95249-4674da022712.jpg"), "27.jpg");
    assert_eq!(local_name(5, "https://example.org/a.b/cover.png"), "5.png");
    assert_eq!(local_name(3, "no-extension"), "3.no-extension");
    assert_eq!(local_name(4, "trailing."), "4.");
}

#[test]
fn jacket_paths() {
    assert_eq!(jacket_path("jacket", 27, '/'), Some("jacket/27.jpg".to_string()));
    assert_eq!(jacket_path("jacket/", 2, '/'), Some("jacket/2.jpg".to_string()));
    assert_eq!(jacket_path("C:\\cache", 10, '\\'), Some("C:\\cache\\10.jpg".to_string()));
    assert_eq!(jacket_path("C:\\cache\\", 10, '\\'), Some("C:\\cache\\10.jpg".to_string()));
    assert_eq!(jacket_path("C:\\cache/", 10, '\\'), Some("C:\\cache/10.jpg".to_string()));
    assert_eq!(jacket_path("cache\\", 10, '/'), Some("cache\\/10.jpg".to_string()));
    assert_eq!(jacket_path("", 2, '/'), Some("2.jpg".to_string()));
    assert_eq!(jacket_path("jacket", 34, '/'), None);
    assert_eq!(jacket_path("jacket", 41, '/'), None);
}

#[test]
fn decimal_and_padding() {
    assert_eq!(decimal(0), "0");
    assert_eq!(decimal(1000), "1000");
    assert_eq!(decimal(u64::MAX), "18446744073709551615");
    assert_eq!(zero_padded(1000, 5), "01000");
    assert_eq!(zero_padded(0, 5), "00000");
    assert_eq!(zero_padded(123456, 5), "123456");
}

#[test]
fn joining_paths() {
    assert_eq!(join_path("out", "IIDX 32 Pinky Crush", '/'), "out/IIDX 32 Pinky Crush");
    assert_eq!(join_path("out/", "x", '/'), "out/x");
    assert_eq!(join_path("", "x", '/'), "x");
    assert_eq!(join_path("out", "", '/'), "out/");
}

#[test]
fn string_comparisons() {
    assert!(str_lt("01000.2dx", "01000a.2dx"));
    assert!(str_lt("a", "b"));
    assert!(str_lt("", "a"));
    assert!(!str_lt("b", "a"));
    assert!(!str_lt("abc", "abc"));
    assert!(str_lt("Z", "a"));
    assert!(str_eq("冥", "冥"));
    assert!(!str_eq("a", "ab"));
    assert!(str_starts_with("01000a.2dx", "01000"));
    assert!(!str_starts_with("0100", "01000"));
    assert!(str_ends_with("01000a.2dx", ".2dx"));
    assert!(!str_ends_with("01000a.2dxx", ".2dx"));
}

#[test]
fn folder_names_sort_by_version() {
    for v in 0..40u8 {
        assert!(version_folder_name(v) < version_folder_name(v + 1), "{v}");
    }
}
