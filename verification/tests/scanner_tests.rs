use mpv_tidy::domain::{EpisodeKey, LanguageCode, ParseCandidateSource, ParseStatus};
use mpv_tidy::parser::{EpisodeCandidate, ParseDecision, ParsedEpisode};
use mpv_tidy::path::{MediaPath, PathPart};
use mpv_tidy::scanner::{extension, file_name, is_subtitle_file, is_video_file, scan_listed, visible_parse_candidates, ListedFile};

fn path(text: &str) -> MediaPath {
    MediaPath { parts: text.split('/').filter(|part| !part.is_empty()).map(|part| PathPart::Name(part.to_owned())).collect() }
}

fn candidate(key: EpisodeKey, confidence: u8) -> EpisodeCandidate {
    EpisodeCandidate { key, confidence, source: ParseCandidateSource::Rule, note: "test candidate".to_owned() }
}

#[test]
fn accepted_parse_evidence_only_exposes_matching_episode_candidates() {
    let accepted_key = EpisodeKey::new(1, 11);
    let decision = ParseDecision {
        parsed: Some(ParsedEpisode {
            key: accepted_key,
            confidence: 90,
            candidates: Vec::new(),
            status: ParseStatus::Accepted,
            notes: Vec::new(),
        }),
        status: ParseStatus::Accepted,
        notes: Vec::new(),
        candidates: vec![candidate(EpisodeKey::new(1, 1), 90), candidate(accepted_key, 90), candidate(accepted_key, 76)],
    };

    let visible = visible_parse_candidates(&decision);

    assert_eq!(visible.len(), 2);
    assert!(visible.iter().all(|candidate| candidate.key == accepted_key));
}

#[test]
fn scan_uses_batch_episode_induction_and_natural_sort() {
    let names = ["Jujutsu.Kaisen.10.1080p.WEB-DL.mkv", "Jujutsu.Kaisen.2.1080p.WEB-DL.mkv", "Jujutsu.Kaisen.1.1080p.WEB-DL.mkv"];
    let files: Vec<ListedFile> =
        names.iter().map(|name| ListedFile { path: path(&format!("dir/{name}")), file_size_bytes: 0 }).collect();

    let result = scan_listed(vec![files], Vec::new());

    assert_eq!(result.videos.len(), 3);
    assert_eq!(result.videos[0].episode, Some(EpisodeKey::new(1, 1)));
    assert_eq!(result.videos[0].parse_status, ParseStatus::Accepted);
    assert!(result.videos[0].parse_notes.iter().any(|note| note.contains("模板置信度")));
    assert_eq!(result.videos[1].episode, Some(EpisodeKey::new(1, 2)));
    assert_eq!(result.videos[2].episode, Some(EpisodeKey::new(1, 10)));
}

#[test]
fn scan_keeps_subtitles_of_subtitle_directories_with_their_language() {
    let files = vec![
        ListedFile { path: path("subs/Show - 01.zh-Hans.ASS"), file_size_bytes: 12 },
        ListedFile { path: path("subs/notes.txt"), file_size_bytes: 3 },
        ListedFile { path: path("subs/Show - 01.mkv"), file_size_bytes: 7 },
    ];

    let result = scan_listed(Vec::new(), vec![files]);

    assert!(result.videos.is_empty());
    assert_eq!(result.subtitles.len(), 1);
    assert_eq!(result.subtitles[0].extension, "ass");
    assert_eq!(result.subtitles[0].file_name, "Show - 01.zh-Hans.ASS");
    assert_eq!(result.subtitles[0].file_size_bytes, 12);
    assert_eq!(result.subtitles[0].language, LanguageCode::ZhHans);
    assert_eq!(result.subtitles[0].episode, Some(EpisodeKey::new(1, 1)));
    assert_eq!(result.subtitles[0].episode_key.as_deref(), Some("S01E01"));
}

#[test]
fn classifies_media_files_by_extension() {
    assert!(is_video_file(&path("a/Show.MKV")));
    assert!(is_video_file(&path("Show.mp4")));
    assert!(!is_video_file(&path("Show.avi")));
    assert!(is_subtitle_file(&path("Show.vtt")));
    assert!(!is_subtitle_file(&path(".ass")));
    assert_eq!(extension(&path("dir/Show.Tar.GZ")), "gz");
    assert_eq!(extension(&path("dir/README")), "");
    assert_eq!(file_name(&path("dir/Show.mkv")), "Show.mkv");
    assert_eq!(file_name(&MediaPath { parts: vec![PathPart::Root] }), "");
}

#[test]
fn unaccepted_decisions_expose_all_candidates() {
    let decision = ParseDecision {
        parsed: None,
        status: ParseStatus::Ambiguous,
        notes: Vec::new(),
        candidates: vec![candidate(EpisodeKey::new(1, 1), 90), candidate(EpisodeKey::new(1, 2), 88)],
    };
    assert_eq!(visible_parse_candidates(&decision).len(), 2);
}
