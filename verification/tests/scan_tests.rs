use iidx_on_ear::common::{MusicInfo, PackTask, SongInput};
use iidx_on_ear::scan::{
    build_dst, filter_existing, find_dir, find_omnimix, locate_input, pick_loose_2dx, probe_paths, sanitize_filename,
    scan_songs, song_id5, song_roots, song_selected, tasks_per_version, DirNode, RootProbe,
};

fn song(id: u32, title: &str, version: u8, is_omnimix: bool) -> MusicInfo {
    MusicInfo {
        is_valid: true,
        is_omnimix,
        id,
        str_title: title.to_string(),
        str_genre: String::new(),
        str_artist: String::new(),
        version,
    }
}

fn names(v: &[&str]) -> Vec<String> {
    v.iter().map(|s| s.to_string()).collect()
}

fn nothing() -> RootProbe {
    RootProbe {
        dir_exists: false,
        chart_exists: false,
        s3p_exists: false,
        dir_names: Vec::new(),
        ifs_in_dir_exists: false,
        ifs_exists: false,
    }
}

fn packed() -> RootProbe {
    RootProbe { ifs_exists: true, ..nothing() }
}

fn loose_s3p() -> RootProbe {
    RootProbe { dir_exists: true, chart_exists: true, s3p_exists: true, ..nothing() }
}

fn task(title: &str, version: u8) -> PackTask {
    PackTask {
        info: song(1, title, version, false),
        input: SongInput::Packed(format!("{title}.ifs")),
        dst_path: format!("out/{title}.opus"),
    }
}

#[test]
fn sanitizes_illegal_characters() {
    assert_eq!(sanitize_filename("a/b\\c:d*e?f\"g<h>i|j"), "a_b_c_d_e_f_g_h_i_j");
    assert_eq!(sanitize_filename("冥 (Ryu☆ Remix)"), "冥 (Ryu☆ Remix)");
    assert_eq!(sanitize_filename(""), "");
}

#[test]
fn destination_paths() {
    assert_eq!(build_dst("out", 32, "A/B", '/'), "out/IIDX 32 Pinky Crush/A_B.opus");
    assert_eq!(build_dst("out", 99, "x", '/'), "out/x.opus");
    assert_eq!(build_dst("D:\\music", 30, "x", '\\'), "D:\\music\\IIDX 30 RESIDENT\\x.opus");
}

#[test]
fn ids_are_zero_padded_to_five() {
    assert_eq!(song_id5(1000), "01000");
    assert_eq!(song_id5(32095), "32095");
    assert_eq!(song_id5(7), "00007");
}

#[test]
fn version_selection() {
    let s = song(30000, "x", 30, false);
    assert!(song_selected(&s, &[]));
    assert!(song_selected(&s, &[29, 30]));
    assert!(!song_selected(&s, &[31]));
    assert!(!song_selected(&MusicInfo::empty(), &[]));
}

#[test]
fn root_order() {
    assert_eq!(song_roots(true, "snd", Some("omni")), names(&["omni", "snd"]));
    assert_eq!(song_roots(false, "snd", Some("omni")), names(&["snd", "omni"]));
    assert_eq!(song_roots(true, "snd", None), names(&["snd"]));
}

#[test]
fn picks_preferred_loose_2dx() {
    let id = "01011";
    assert_eq!(pick_loose_2dx(id, &names(&["01011.1", "01011_pre.2dx"])), None);
    assert_eq!(pick_loose_2dx(id, &names(&["01011.2dx", "01011a.2dx", "01011_pre.2dx"])), Some("01011a.2dx".to_string()));
    assert_eq!(pick_loose_2dx(id, &names(&["01011.2dx", "010111.2dx"])), Some("010111.2dx".to_string()));
    assert_eq!(pick_loose_2dx(id, &names(&["01011h.2dx", "01011.2dx"])), Some("01011.2dx".to_string()));
    assert_eq!(pick_loose_2dx(id, &names(&["01011n.2dx", "01011h.2dx", "other.2dx"])), Some("01011h.2dx".to_string()));
}

#[test]
fn probe_paths_and_location() {
    let p = probe_paths("snd", "30000", '/');
    assert_eq!(p.dir, "snd/30000");
    assert_eq!(p.chart, "snd/30000/30000.1");
    assert_eq!(p.s3p, "snd/30000/30000.s3p");
    assert_eq!(p.ifs_in_dir, "snd/30000/30000.ifs");
    assert_eq!(p.ifs, "snd/30000.ifs");

    let roots = names(&["omni", "snd"]);
    let r = locate_input(&roots, "30000", &[nothing(), loose_s3p()], '/');
    assert!(matches!(r, Some(SongInput::Loose { ref audio, ref chart })
        if audio == "snd/30000/30000.s3p" && chart == "snd/30000/30000.1"));
    let r = locate_input(&roots, "01000", &[packed(), loose_s3p()], '/');
    assert!(matches!(r, Some(SongInput::Packed(ref p)) if p == "omni/01000.ifs"));
    let two_dx = RootProbe { dir_exists: true, chart_exists: true, dir_names: names(&["01002.2dx", "01002.1"]), ..nothing() };
    let r = locate_input(&roots, "01002", &[two_dx, nothing()], '/');
    assert!(matches!(r, Some(SongInput::Loose { ref audio, .. }) if audio == "omni/01002/01002.2dx"));
    let no_chart = RootProbe { dir_exists: true, s3p_exists: true, ifs_in_dir_exists: true, ..nothing() };
    let r = locate_input(&roots, "12000", &[no_chart, nothing()], '/');
    assert!(matches!(r, Some(SongInput::Packed(ref p)) if p == "omni/12000/12000.ifs"));
    assert!(locate_input(&roots, "12000", &[nothing(), nothing()], '/').is_none());
}

#[test]
fn scanning_plans_found_songs_and_reports_missing() {
    let music = vec![
        MusicInfo::empty(),
        song(1000, "Song/One", 1, false),
        song(30000, "Thirty", 30, false),
        song(1011, "Revived", 10, true),
    ];
    let probes = vec![Vec::new(), vec![packed(), nothing()], vec![nothing(), nothing()], vec![loose_s3p(), nothing()]];
    let plan = scan_songs("snd", Some("omni"), "out", &music, &[], &probes, '/');
    assert_eq!(plan.missing, vec![2]);
    assert_eq!(plan.tasks.len(), 2);
    assert_eq!(plan.tasks[0].info.id, 1000);
    assert!(matches!(plan.tasks[0].input, SongInput::Packed(ref p) if p == "snd/01000.ifs"));
    assert_eq!(plan.tasks[0].dst_path, "out/IIDX 01 Substream/Song_One.opus");
    assert!(matches!(plan.tasks[1].input, SongInput::Loose { ref audio, .. } if audio == "omni/01011/01011.s3p"));
    assert_eq!(plan.tasks[1].dst_path, "out/IIDX 10 10th style/Revived.opus");

    let selected = scan_songs("snd", Some("omni"), "out", &music, &[10], &probes, '/');
    assert_eq!(selected.tasks.len(), 1);
    assert!(selected.missing.is_empty());
}

#[test]
fn incremental_filter_keeps_absent_outputs_in_order() {
    let mut tasks = vec![task("a", 1), task("b", 2), task("c", 3), task("d", 4)];
    let copy = tasks[1].clone();
    assert_eq!(copy.dst_path, "out/b.opus");
    filter_existing(&mut tasks, &[true, false, true, false]);
    let titles: Vec<&str> = tasks.iter().map(|t| t.info.str_title.as_str()).collect();
    assert_eq!(titles, vec!["b", "d"]);
}

#[test]
fn per_version_counts_are_ascending() {
    let tasks = vec![task("a", 32), task("b", 1), task("c", 32), task("d", 0)];
    let summary = tasks_per_version(&tasks);
    assert_eq!(summary, vec![(0, 1), (1, 1), (32, 2)]);
    let total: usize = summary.iter().map(|p| p.1).sum();
    assert_eq!(total, tasks.len());
    assert!(tasks_per_version(&[]).is_empty());
}

fn dir(path: &str, name: &str, children: Vec<DirNode>) -> DirNode {
    DirNode { path: path.to_string(), name: name.to_string(), children }
}

#[test]
fn omnimix_directory_search_is_depth_bounded() {
    let tree = dir("c", "c", vec![
        dir("c/data", "data", vec![dir("c/data/sound", "sound", vec![])]),
        dir("c/data_mods", "data_mods", vec![dir("c/data_mods/omnimix", "omnimix", vec![])]),
    ]);
    assert_eq!(find_omnimix(&tree), Some("c/data_mods/omnimix".to_string()));
    let deep = dir("c", "c", vec![dir("c/a", "a", vec![dir("c/a/b", "b", vec![dir("c/a/b/c", "c", vec![
        dir("c/a/b/c/omnimix", "omnimix", vec![]),
    ])])])]);
    assert_eq!(find_omnimix(&deep), None);
    assert_eq!(find_dir(&deep, "omnimix", 3), None);
    assert_eq!(find_dir(&deep, "omnimix", 4), Some("c/a/b/c/omnimix".to_string()));
    assert_eq!(find_dir(&deep, "omnimix", 0), None);
    let third_level = dir("c", "c", vec![dir("c/a", "a", vec![dir("c/a/b", "b", vec![dir("c/a/b/omnimix", "omnimix", vec![])])])]);
    assert_eq!(find_omnimix(&third_level), None);
    let deeper_first = dir("c", "c", vec![
        dir("c/a", "a", vec![dir("c/a/x", "x", vec![dir("c/a/x/omnimix", "omnimix", vec![])])]),
        dir("c/b", "b", vec![dir("c/b/omnimix", "omnimix", vec![])]),
    ]);
    assert_eq!(find_omnimix(&deeper_first), Some("c/b/omnimix".to_string()));
    let shallow_first = dir("c", "c", vec![
        dir("c/x", "x", vec![dir("c/x/omnimix", "omnimix", vec![])]),
        dir("c/omnimix", "omnimix", vec![]),
    ]);
    assert_eq!(find_omnimix(&shallow_first), Some("c/omnimix".to_string()));
}
