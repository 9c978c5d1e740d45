use mpv_tidy::domain::{EpisodeKey, LanguageCode, MatchStatus, ParseStatus, ScanResult, ScannedSubtitle, ScannedVideo, SubtitleRole};
use mpv_tidy::matcher::{language_rank, match_scan, match_status, subtitle_format_rank};
use mpv_tidy::path::{MediaPath, PathPart};

fn path(text: &str) -> MediaPath {
    MediaPath { parts: text.split('/').filter(|part| !part.is_empty()).map(|part| PathPart::Name(part.to_owned())).collect() }
}

fn scan_result(videos: Vec<ScannedVideo>, subtitles: Vec<ScannedSubtitle>) -> ScanResult {
    ScanResult { videos, subtitles }
}

fn video(name: &str) -> ScannedVideo {
    ScannedVideo {
        path: path(name),
        file_name: name.to_owned(),
        extension: "mkv".to_owned(),
        file_size_bytes: 0,
        episode: Some(EpisodeKey::new(1, 1)),
        episode_key: Some("S01E01".to_owned()),
        confidence: 100,
        parse_status: ParseStatus::Accepted,
        parse_notes: Vec::new(),
        parse_candidates: Vec::new(),
    }
}

fn sub(name: &str, language: LanguageCode) -> ScannedSubtitle {
    ScannedSubtitle {
        path: path(name),
        file_name: name.to_owned(),
        extension: name.rsplit('.').next().unwrap_or("ass").to_owned(),
        file_size_bytes: 0,
        episode: Some(EpisodeKey::new(1, 1)),
        episode_key: Some("S01E01".to_owned()),
        confidence: 100,
        parse_status: ParseStatus::Accepted,
        parse_notes: Vec::new(),
        parse_candidates: Vec::new(),
        language,
    }
}

#[test]
fn matches_one_video_with_one_subtitle() {
    let result = match_scan(scan_result(vec![video("S01E01.mkv")], vec![sub("S01E01.zh-Hans.ass", LanguageCode::ZhHans)]));

    assert_eq!(result.matches.len(), 1);
    assert_eq!(result.matches[0].status, MatchStatus::Matched);
    assert!(result.matches[0].primary_subtitle.is_some());
}

#[test]
fn matches_primary_and_secondary_subtitles() {
    let result = match_scan(scan_result(
        vec![video("S01E01.mkv")],
        vec![sub("S01E01.zh-Hans.ass", LanguageCode::ZhHans), sub("S01E01.ja.srt", LanguageCode::Ja)],
    ));

    assert_eq!(result.matches[0].status, MatchStatus::Matched);
    assert!(result.matches[0].primary_subtitle.is_some());
    assert!(result.matches[0].secondary_subtitle.is_some());
}

#[test]
fn reports_missing_primary_subtitle() {
    let result = match_scan(scan_result(vec![video("S01E01.mkv")], vec![sub("S01E01.ja.srt", LanguageCode::Ja)]));

    assert_eq!(result.matches[0].status, MatchStatus::MissingSub);
}

#[test]
fn reports_conflict_for_duplicate_subtitle_candidates() {
    let result = match_scan(scan_result(
        vec![video("S01E01.mkv")],
        vec![sub("S01E01.zh-Hans.ass", LanguageCode::ZhHans), sub("S01E01.zh-Hans.srt", LanguageCode::ZhHans)],
    ));

    assert_eq!(result.matches[0].status, MatchStatus::Conflict);
}

#[test]
fn keeps_files_without_episode_out_of_match_table() {
    let mut video = video("Movie.1080p.H.264.mkv");
    video.episode = None;
    video.episode_key = None;
    let mut subtitle = sub("Subtitle.10bit.[2D6390A9].ass", LanguageCode::ZhHans);
    subtitle.episode = None;
    subtitle.episode_key = None;

    let result = match_scan(scan_result(vec![video], vec![subtitle]));

    assert!(result.matches.is_empty());
    assert_eq!(result.unprocessed_videos.len(), 1);
    assert_eq!(result.unprocessed_subtitles.len(), 1);
}

#[test]
fn keeps_ambiguous_parser_results_out_of_match_table() {
    let mut video = video("A-01-02-03.mkv");
    video.episode = None;
    video.episode_key = None;
    video.confidence = 0;
    video.parse_status = ParseStatus::Ambiguous;
    video.parse_notes = vec!["存在多个接近的 episode 候选，需要手动确认。".to_owned()];

    let result = match_scan(scan_result(vec![video], Vec::new()));

    assert!(result.matches.is_empty());
    assert_eq!(result.unprocessed_videos.len(), 1);
    assert_eq!(result.unprocessed_videos[0].parse_status, ParseStatus::Ambiguous);
}

#[test]
fn orders_matches_by_episode_and_prefers_ass_subtitles() {
    let mut second = video("S01E02.mkv");
    second.episode = Some(EpisodeKey::new(1, 2));
    let mut srt = sub("S01E01.zh-Hans.srt", LanguageCode::ZhHans);
    srt.confidence = 100;
    let ass = sub("S01E01.zh-Hans.ass", LanguageCode::ZhHans);
    let result = match_scan(scan_result(vec![second, video("S01E01.mkv")], vec![srt, ass]));

    assert_eq!(result.matches.len(), 2);
    assert_eq!(result.matches[0].episode, EpisodeKey::new(1, 1));
    assert_eq!(result.matches[1].episode, EpisodeKey::new(1, 2));
    assert_eq!(result.matches[0].episode_key, "S01E01");
    let primary = result.matches[0].primary_subtitle.as_ref().expect("primary");
    assert_eq!(primary.extension, "ass");
    assert_eq!(primary.role, SubtitleRole::Primary);
    assert_eq!(result.matches[1].status, MatchStatus::MissingSub);
    assert_eq!(result.scan.videos.len(), 2);
}

#[test]
fn reports_missing_video_and_several_videos() {
    let only_sub = match_scan(scan_result(Vec::new(), vec![sub("S01E01.zh-Hans.ass", LanguageCode::ZhHans)]));
    assert_eq!(only_sub.matches[0].status, MatchStatus::MissingVideo);
    assert!(only_sub.matches[0].video.is_none());

    let two = match_scan(scan_result(vec![video("b.mkv"), video("a.mkv")], vec![sub("S01E01.zh-Hans.ass", LanguageCode::ZhHans)]));
    assert_eq!(two.matches[0].status, MatchStatus::Conflict);
    assert_eq!(two.matches[0].video.as_ref().expect("video").file_name, "a.mkv");
    assert_eq!(two.matches[0].notes, vec!["同一集检测到多个视频文件".to_owned()]);
}

#[test]
fn ranks_languages_and_formats() {
    let prefs = LanguageCode::default_preference();
    assert_eq!(language_rank(LanguageCode::ZhHans, &prefs), 0);
    assert_eq!(language_rank(LanguageCode::Ja, &prefs), 2);
    assert_eq!(language_rank(LanguageCode::Und, &prefs), 4);
    assert_eq!(subtitle_format_rank("ass"), 0);
    assert_eq!(subtitle_format_rank("ssa"), 1);
    assert_eq!(subtitle_format_rank("srt"), 2);
    assert_eq!(subtitle_format_rank("vtt"), 3);
    assert_eq!(subtitle_format_rank("sup"), 4);
    assert_eq!(match_status(false, false, false, false), MatchStatus::Unprocessed);
    assert_eq!(match_status(true, true, false, false), MatchStatus::Matched);
}
