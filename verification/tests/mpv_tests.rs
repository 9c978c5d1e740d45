use mpv_tidy::mpv::{
    expected_external_subtitle_count, external_subtitle_count, find_subtitle_track_id_by_path, mpv_argument_count,
    normalize_path_text, parse_subtitle_tracks, path_for_mpv, resolve_requested_subtitle_track_ids, subtitle_title,
    track_list_contains_requested_subtitles, track_list_has_video, verify_subtitle_track_main_selection, TrackInfo,
};
use mpv_tidy::mpv::{
    external_subtitle_ids_descending, has_external_subtitle, launch_result, launch_step, mpv_launch_args,
    subtitle_selection_changes, LaunchStep, PropertyValue,
};
use mpv_tidy::path::{MediaPath, PathPart};

fn track(id: i64, kind: &str) -> TrackInfo {
    TrackInfo {
        kind: Some(kind.to_owned()),
        id: Some(id),
        title: None,
        lang: None,
        external: None,
        external_filename: None,
        filename: None,
        selected: None,
        main_selection: None,
        codec: None,
    }
}

fn with_codec(mut t: TrackInfo, codec: &str) -> TrackInfo {
    t.codec = Some(codec.to_owned());
    t
}

fn external(mut t: TrackInfo, value: bool) -> TrackInfo {
    t.external = Some(value);
    t
}

#[test]
fn detects_video_track_list_readiness() {
    let tracks = Some(vec![with_codec(track(1, "video"), "h264"), with_codec(track(1, "audio"), "aac")]);

    assert!(track_list_has_video(&tracks));
}

#[test]
fn parses_subtitle_tracks_for_debug_output() {
    let mut sub = track(3, "sub");
    sub.title = Some("zh-Hans.ass".to_owned());
    sub.lang = Some("zh-Hans".to_owned());
    sub.external = Some(true);
    sub.external_filename = Some("D:/Anime/zh-Hans.ass".to_owned());
    sub.selected = Some(true);
    sub.main_selection = Some(0);
    sub.codec = Some("ass".to_owned());
    let tracks = Some(vec![with_codec(track(1, "video"), "h264"), sub]);

    let subtitles = parse_subtitle_tracks(&tracks);

    assert_eq!(subtitles.len(), 1);
    assert_eq!(subtitles[0].id, 3);
    assert!(subtitles[0].external);
}

#[test]
fn counts_external_subtitles_in_track_list() {
    let tracks = Some(vec![
        track(1, "video"),
        external(track(1, "sub"), false),
        external(track(2, "sub"), true),
        external(track(3, "sub"), true),
    ]);

    assert_eq!(external_subtitle_count(&tracks), 2);
}

#[test]
fn track_list_that_is_not_an_array_has_nothing() {
    assert!(!track_list_has_video(&None));
    assert_eq!(external_subtitle_count(&None), 0);
    assert!(parse_subtitle_tracks(&None).is_empty());
}

#[test]
fn finds_requested_subtitles_by_path() {
    let mut primary = external(track(4, "sub"), true);
    primary.external_filename = Some("D:/Anime/A.ASS".to_owned());
    let mut secondary = external(track(5, "sub"), true);
    secondary.external_filename = Some("D:/Anime/a.ja.srt".to_owned());
    let list = Some(vec![track(1, "video"), primary, secondary]);
    let tracks = parse_subtitle_tracks(&list);

    assert_eq!(find_subtitle_track_id_by_path(&tracks, "d:\\anime\\a.ass"), Some(4));
    assert_eq!(find_subtitle_track_id_by_path(&tracks, "d:/anime/b.ass"), None);
    assert!(track_list_contains_requested_subtitles(&list, &Some("D:\\Anime\\A.ass".to_owned()), &None));
    assert_eq!(
        resolve_requested_subtitle_track_ids(&Some("D:/Anime/A.ass".to_owned()), &Some("D:/Anime/a.ja.srt".to_owned()), &tracks),
        Ok((Some(4), Some(5)))
    );
    assert_eq!(
        resolve_requested_subtitle_track_ids(&Some("D:/Anime/B.ass".to_owned()), &None, &tracks),
        Err("未在 MPV track-list 中找到主字幕：D:/Anime/B.ass".to_owned())
    );
    assert_eq!(
        resolve_requested_subtitle_track_ids(&Some("D:/Anime/A.ass".to_owned()), &Some("d:/anime/a.ass".to_owned()), &tracks),
        Err("主字幕和副字幕不能解析到同一个 MPV track id".to_owned())
    );
}

#[test]
fn verifies_main_selection() {
    let mut sub = external(track(3, "sub"), true);
    sub.main_selection = Some(0);
    let tracks = parse_subtitle_tracks(&Some(vec![sub]));
    assert_eq!(verify_subtitle_track_main_selection(&tracks, Some(3), Some(0), "主字幕"), Ok(()));
    assert_eq!(verify_subtitle_track_main_selection(&tracks, None, Some(1), "副字幕"), Ok(()));
    assert_eq!(
        verify_subtitle_track_main_selection(&tracks, Some(3), Some(1), "副字幕"),
        Err("副字幕 track id 3 未成功成为 main_selection=1".to_owned())
    );
    assert_eq!(
        verify_subtitle_track_main_selection(&tracks, Some(-2), None, "x"),
        Err("x track id -2 未成功成为 main_selection=None".to_owned())
    );
}

#[test]
fn counts_launch_arguments_and_normalizes_paths() {
    let extra = vec!["--fs".to_owned(), "  ".to_owned(), "--mute".to_owned()];
    assert_eq!(mpv_argument_count(true, false, &extra), 7);
    assert_eq!(mpv_argument_count(false, false, &Vec::new()), 4);
    assert_eq!(expected_external_subtitle_count(true, true), 2);
    assert_eq!(path_for_mpv("C:\\Videos\\A.mkv"), "C:/Videos/A.mkv");
    assert_eq!(normalize_path_text("C:\\Videos\\A.MKV"), "c:/videos/a.mkv");
    let p = MediaPath { parts: vec![PathPart::Name("subs".to_owned()), PathPart::Name("A.ass".to_owned())] };
    assert_eq!(subtitle_title(&p, "fallback"), "A.ass");
    assert_eq!(subtitle_title(&MediaPath { parts: vec![PathPart::Root] }, "fallback"), "fallback");
}

#[test]
fn launch_args_list_video_settings_subtitles_and_nonblank_extras() {
    let extra = vec!["--fs".to_owned(), "  ".to_owned(), "--volume=50".to_owned()];
    let args = mpv_launch_args(
        "D:/Anime/ep1.mkv",
        &Some("D:/Anime/ep1.zh.ass".to_owned()),
        &None,
        &extra,
        r"\\.\pipe\mpv-1",
    );
    assert_eq!(
        args,
        vec![
            "D:/Anime/ep1.mkv".to_owned(),
            "--idle=yes".to_owned(),
            "--sub-auto=no".to_owned(),
            r"--input-ipc-server=\\.\pipe\mpv-1".to_owned(),
            "--sub-file=D:/Anime/ep1.zh.ass".to_owned(),
            "--fs".to_owned(),
            "--volume=50".to_owned(),
        ]
    );
    assert_eq!(mpv_argument_count(true, false, &extra), args.len());
}

#[test]
fn removes_external_subtitles_largest_id_first() {
    let make = |id: i64, ext: bool| {
        let t = external(track(id, "sub"), ext);
        parse_subtitle_tracks(&Some(vec![t])).remove(0)
    };
    let tracks = vec![make(2, true), make(5, false), make(7, true), make(3, true)];
    assert_eq!(external_subtitle_ids_descending(&tracks), vec![7, 3, 2]);
    assert!(has_external_subtitle(&tracks));
    assert!(!has_external_subtitle(&vec![make(5, false)]));
    assert!(external_subtitle_ids_descending(&vec![make(5, false)]).is_empty());
}

#[test]
fn selects_tracks_and_switches_off_missing_roles() {
    let changes = subtitle_selection_changes(Some(4), None);
    let pairs: Vec<(String, PropertyValue)> = changes.into_iter().map(|c| (c.name, c.value)).collect();
    assert_eq!(
        pairs,
        vec![
            ("sid".to_owned(), PropertyValue::Track(4)),
            ("sub-visibility".to_owned(), PropertyValue::On),
            ("secondary-sid".to_owned(), PropertyValue::No),
        ]
    );
    let both = subtitle_selection_changes(None, Some(9));
    assert_eq!(both.len(), 3);
    assert_eq!(both[0].value, PropertyValue::No);
    assert_eq!(both[1].name, "secondary-sid");
    assert_eq!(both[1].value, PropertyValue::Track(9));
    assert_eq!(both[2].name, "secondary-sub-visibility");
}

#[test]
fn launch_reuses_a_live_player() {
    assert_eq!(launch_step(false, true), LaunchStep::SpawnNew);
    assert_eq!(launch_step(true, true), LaunchStep::FocusExisting);
    assert_eq!(launch_step(true, false), LaunchStep::SwitchVideo);
    let spawned = launch_result(LaunchStep::SpawnNew, 42, 6);
    assert_eq!((spawned.process_id, spawned.argument_count, spawned.reused_existing, spawned.switched_video), (42, 6, false, false));
    let switched = launch_result(LaunchStep::SwitchVideo, 42, 6);
    assert_eq!((switched.argument_count, switched.reused_existing, switched.switched_video), (0, true, true));
    let focused = launch_result(LaunchStep::FocusExisting, 42, 6);
    assert_eq!((focused.argument_count, focused.reused_existing, focused.switched_video), (0, true, false));
}
