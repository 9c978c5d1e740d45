use mpv_tidy::domain::{
    AnimeSubMap, AnimeSubMapEpisode, EmbeddedSubtitleTrack, LanguageCode, LibraryEpisodeRecord, LocalAnimeLibraryEntry,
    LocalAnimeLibraryFile, MatchStatus, OrganizeMode, SaveLocalLibraryRequest, UpdateLibraryEpisodeProgressRequest,
    WatchStatus,
};
use mpv_tidy::library::{
    embedded_scan_sample, empty_library_file, library_entry_id, library_entry_index, library_entry_map_path,
    normalize_episode_record, normalize_library_file, record_embedded_scan, remove_library_entry, repair_library_entry,
    resolve_project_map_path, save_library_entry, update_library_episode_progress, EmbeddedScanOutcome, LibraryError,
};
use mpv_tidy::path::{MediaPath, PathPart};

fn path(text: &str) -> MediaPath {
    let mut parts = Vec::new();
    if text.starts_with('/') {
        parts.push(PathPart::Root);
    }
    for part in text.split('/').filter(|part| !part.is_empty()) {
        parts.push(PathPart::Name(part.to_owned()));
    }
    MediaPath { parts }
}

fn request(output_dir: MediaPath) -> SaveLocalLibraryRequest {
    SaveLocalLibraryRequest {
        project_name: "Jujutsu Kaisen".to_owned(),
        season: "S01".to_owned(),
        output_dir,
        mode: OrganizeMode::Copy,
        subtitle_preference_snapshot: None,
        cover_strategy_snapshot: None,
        episodes: vec![LibraryEpisodeRecord {
            episode_key: "S01E01".to_owned(),
            video_path: None,
            primary_subtitle_path: None,
            secondary_subtitle_path: None,
            subtitle_count: 2,
            status: MatchStatus::Matched,
            watch_status: WatchStatus::Unwatched,
            last_position_sec: None,
            progress_percent: None,
            updated_at_unix: 0,
            embedded_subtitle_tracks: vec![EmbeddedSubtitleTrack {
                id: 2,
                language: LanguageCode::Ja,
                language_tag: Some("ja".to_owned()),
                title: Some("Japanese".to_owned()),
                codec: Some("ass".to_owned()),
            }],
        }],
    }
}

#[test]
fn saves_and_replaces_library_entry() {
    let mut file = empty_library_file();
    let saved_first = save_library_entry(&mut file, request(path("/tmp/t/out")), 100);
    assert_eq!(saved_first.project_name, "Jujutsu Kaisen");

    let saved_second = save_library_entry(&mut file, request(path("/tmp/t/out")), 200);
    assert_eq!(saved_second.episode_count, 1);
    assert!(!saved_second.id.is_empty());
    assert_eq!(file.entries.len(), 1);
    assert_eq!(saved_second.created_at_unix, 100);
    assert_eq!(saved_second.updated_at_unix, 200);
    assert_eq!(file.schema_version, 1);
}

#[test]
fn updates_episode_progress_in_library_file() {
    let mut file = empty_library_file();
    let saved = save_library_entry(&mut file, request(path("/tmp/t/out")), 100);

    let updated = update_library_episode_progress(
        &mut file,
        UpdateLibraryEpisodeProgressRequest {
            entry_id: saved.id,
            episode_key: "S01E01".to_owned(),
            watch_status: WatchStatus::Partial,
            last_position_sec: Some(120),
            progress_percent: Some(12),
        },
        150,
    )
    .expect("updated");

    assert_eq!(updated.episodes[0].watch_status, WatchStatus::Partial);
    assert_eq!(updated.episodes[0].last_position_sec, Some(120));
    assert_eq!(file.entries[0].episodes[0].progress_percent, Some(12));
    assert_eq!(file.entries[0].updated_at_unix, 150);
}

#[test]
fn progress_update_of_unknown_entry_or_episode_is_refused() {
    let mut file = empty_library_file();
    let saved = save_library_entry(&mut file, request(path("/tmp/t/out")), 100);
    let progress = |entry_id: String, episode_key: &str| UpdateLibraryEpisodeProgressRequest {
        entry_id,
        episode_key: episode_key.to_owned(),
        watch_status: WatchStatus::Watched,
        last_position_sec: None,
        progress_percent: None,
    };
    let missing_entry = update_library_episode_progress(&mut file, progress("nope".to_owned(), "S01E01"), 1);
    assert_eq!(missing_entry.err().map(|e| e.message()), Some("未找到本地动漫库条目".to_owned()));
    let missing_episode = update_library_episode_progress(&mut file, progress(saved.id, "S01E09"), 1);
    assert!(matches!(missing_episode, Err(LibraryError::EpisodeNotFound)));
}

#[test]
fn loads_empty_library_when_file_is_missing() {
    let loaded = empty_library_file();
    assert!(loaded.entries.is_empty());
    assert_eq!(loaded.schema_version, 1);
    assert_eq!(loaded.app_version, "0.1.0");
}

#[test]
fn removes_library_entry_without_touching_files() {
    let temp = tempfile::tempdir().unwrap();
    let output_dir = temp.path().to_path_buf();
    let media_file = tempfile::NamedTempFile::new_in(&output_dir).unwrap();
    let mut file = empty_library_file();
    let saved = save_library_entry(&mut file, request(path(&output_dir.to_string_lossy())), 100);

    assert_eq!(remove_library_entry(&mut file, &saved.id, 100), Ok(()));

    assert!(file.entries.is_empty());
    assert!(media_file.path().exists());
}

#[test]
fn removing_an_unknown_entry_is_refused() {
    let mut file = empty_library_file();
    save_library_entry(&mut file, request(path("/tmp/t/out")), 100);
    assert_eq!(remove_library_entry(&mut file, "unknown", 100), Err(LibraryError::EntryNotFound));
    assert_eq!(file.entries.len(), 1);
}

#[test]
fn migrates_old_library_entries_with_defaults() {
    let mut file = LocalAnimeLibraryFile {
        schema_version: 0,
        app_version: "0.1.0".to_owned(),
        entries: vec![LocalAnimeLibraryEntry {
            id: String::new(),
            project_name: "Old Show".to_owned(),
            season: "S01".to_owned(),
            output_dir: path("D:/Old Show"),
            mode: OrganizeMode::Copy,
            episode_count: 1,
            subtitle_preference_snapshot: None,
            cover_strategy_snapshot: None,
            episodes: vec![LibraryEpisodeRecord {
                episode_key: "S01E01".to_owned(),
                video_path: None,
                primary_subtitle_path: None,
                secondary_subtitle_path: None,
                subtitle_count: 0,
                status: MatchStatus::MissingSub,
                watch_status: WatchStatus::Partial,
                last_position_sec: None,
                progress_percent: Some(140),
                updated_at_unix: 0,
                embedded_subtitle_tracks: Vec::new(),
            }],
            created_at_unix: 0,
            updated_at_unix: 0,
            organized_at_unix: 10,
        }],
    };

    normalize_library_file(&mut file, 500);

    assert_eq!(file.schema_version, 1);
    assert_eq!(file.entries[0].created_at_unix, 10);
    assert_eq!(file.entries[0].updated_at_unix, 10);
    assert_eq!(file.entries[0].id, "old-show-s01-d-old-show");
    assert_eq!(file.entries[0].episodes[0].watch_status, WatchStatus::Unwatched);
    assert_eq!(file.entries[0].episodes[0].progress_percent, Some(100));
    assert_eq!(file.entries[0].episodes[0].updated_at_unix, 10);
    assert!(file.entries[0].episodes[0].embedded_subtitle_tracks.is_empty());
}

#[test]
fn repairs_library_episode_paths_from_project_map() {
    let output_dir = path("/tmp/t/Dealing S01");
    let mut req = request(output_dir.clone());
    req.episodes[0].video_path = Some(path("/tmp/t/old/Dealing S01E01.mkv"));
    req.episodes[0].secondary_subtitle_path = Some(path("/tmp/t/old/Dealing S01E01.ja.srt"));
    let mut file = empty_library_file();
    let saved = save_library_entry(&mut file, req, 100);

    let project_map = AnimeSubMap {
        app_version: "0.1.0".to_owned(),
        project_name: "Dealing".to_owned(),
        season: "S01".to_owned(),
        output_dir: output_dir.clone(),
        primary_language: LanguageCode::ZhHans,
        secondary_language: Some(LanguageCode::Ja),
        episodes: vec![AnimeSubMapEpisode {
            episode_key: "S01E01".to_owned(),
            video: Some(path("videos/Dealing S01E01.mkv")),
            primary_subtitle: None,
            secondary_subtitle: Some(path("subs/ja/Dealing S01E01.ja.srt")),
            additional_subtitles: Vec::new(),
        }],
    };

    assert_eq!(library_entry_map_path(&file, &saved.id), Some(path("/tmp/t/Dealing S01/anime-sub-map.json")));
    let repaired = repair_library_entry(&mut file, &saved.id, project_map, true, 300).expect("repaired");

    assert_eq!(repaired.repaired_episode_count, 1);
    assert_eq!(repaired.missing_episode_count, 0);
    assert_eq!(repaired.entry.episodes[0].video_path, Some(path("/tmp/t/Dealing S01/videos/Dealing S01E01.mkv")));
    assert_eq!(
        repaired.entry.episodes[0].secondary_subtitle_path,
        Some(path("/tmp/t/Dealing S01/subs/ja/Dealing S01E01.ja.srt"))
    );
    assert_eq!(repaired.entry.project_name, "Dealing");
    assert_eq!(repaired.map_file_path, path("/tmp/t/Dealing S01/anime-sub-map.json"));
}

#[test]
fn repairing_again_from_the_same_map_changes_nothing() {
    let output_dir = path("/tmp/t/Dealing S01");
    let mut req = request(output_dir.clone());
    req.episodes[0].video_path = Some(path("/tmp/t/old/Dealing S01E01.mkv"));
    let mut file = empty_library_file();
    let saved = save_library_entry(&mut file, req, 100);
    let project_map = AnimeSubMap {
        app_version: "0.1.0".to_owned(),
        project_name: "Dealing".to_owned(),
        season: "S01".to_owned(),
        output_dir: output_dir.clone(),
        primary_language: LanguageCode::ZhHans,
        secondary_language: None,
        episodes: vec![AnimeSubMapEpisode {
            episode_key: "S01E01".to_owned(),
            video: Some(path("videos/Dealing S01E01.mkv")),
            primary_subtitle: None,
            secondary_subtitle: None,
            additional_subtitles: Vec::new(),
        }],
    };

    let first = repair_library_entry(&mut file, &saved.id, project_map.clone(), true, 300).expect("repaired");
    let second = repair_library_entry(&mut file, &saved.id, project_map, true, 400).expect("repaired");

    assert_eq!(first.repaired_episode_count, 1);
    assert_eq!(second.repaired_episode_count, 0);
    assert_eq!(second.entry.episodes[0].video_path, first.entry.episodes[0].video_path);
}

#[test]
fn builds_entry_ids_from_project_season_and_directory() {
    assert_eq!(library_entry_id("Jujutsu Kaisen", "S01", &path("/tmp/out"), 5), "jujutsu-kaisen-s01-tmp-out");
    assert_eq!(library_entry_id("", "", &MediaPath { parts: Vec::new() }, 42), "library-42");
    assert_eq!(library_entry_id("咒术", "--", &MediaPath { parts: Vec::new() }, 7), "library-7");
}

#[test]
fn resolves_map_paths_against_the_base_directory() {
    assert_eq!(resolve_project_map_path(&path("/base"), &path("videos/a.mkv")), path("/base/videos/a.mkv"));
    assert_eq!(resolve_project_map_path(&path("/base"), &path("/abs/a.mkv")), path("/abs/a.mkv"));
}

#[test]
fn normalizes_episode_records() {
    let record = LibraryEpisodeRecord {
        episode_key: "S01E02".to_owned(),
        video_path: Some(path("/v.mkv")),
        primary_subtitle_path: None,
        secondary_subtitle_path: None,
        subtitle_count: 0,
        status: MatchStatus::Matched,
        watch_status: WatchStatus::Watched,
        last_position_sec: Some(5),
        progress_percent: Some(101),
        updated_at_unix: 0,
        embedded_subtitle_tracks: Vec::new(),
    };
    let normalized = normalize_episode_record(record, 77);
    assert_eq!(normalized.progress_percent, Some(100));
    assert_eq!(normalized.updated_at_unix, 77);
    assert_eq!(normalized.watch_status, WatchStatus::Watched);
}

#[test]
fn records_embedded_subtitle_scans() {
    let mut req = request(path("/out"));
    req.episodes[0].video_path = Some(path("/out/videos/a.mkv"));
    let mut file = empty_library_file();
    let saved = save_library_entry(&mut file, req, 100);
    let index = library_entry_index(&file, &saved.id).expect("entry");
    let sample = embedded_scan_sample(&file.entries[index], &vec![path("/out/videos/a.mkv")]).expect("sample");
    assert_eq!(sample.0, "S01E01");
    assert!(embedded_scan_sample(&file.entries[index], &Vec::new()).is_none());

    let none = record_embedded_scan(&mut file, &saved.id, EmbeddedScanOutcome::NoSample, 120).expect("recorded");
    assert_eq!(none.scanned_episode_count, 0);
    assert_eq!(none.failed_episodes[0].episode_key, "all");

    let found = record_embedded_scan(&mut file, &saved.id, EmbeddedScanOutcome::Tracks(Vec::new()), 130).expect("recorded");
    assert_eq!(found.scanned_episode_count, 1);
    assert_eq!(found.embedded_subtitle_count, 0);
    assert_eq!(found.episodes_without_embedded_subtitles, 1);
    assert!(found.entry.episodes[0].embedded_subtitle_tracks.is_empty());
    assert_eq!(found.entry.updated_at_unix, 130);
}
