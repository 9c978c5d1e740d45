use mpv_tidy::domain::LanguageCode;
use mpv_tidy::natural::{parts_of_normalized, NaturalPart};
use mpv_tidy::rules::language_from_marks_of;
use mpv_tidy::domain::{
    CollisionAction, EpisodeKey, FileOperationKind, FileOperationStatus, LocalAnimeLibraryEntry, LocalAnimeLibraryFile,
    OrganizeMode, ParseCandidateSource,
};
use mpv_tidy::library::{empty_library_file, normalize_library_file, save_library_entry};
use mpv_tidy::organizer::{destination_step, DestinationStep};
use mpv_tidy::domain::OrganizePlanItem;
use mpv_tidy::path::{path_equal, path_less, strip_prefix, MediaPath, PathPart, PrefixKind};
use mpv_tidy::rules::{episode_candidates_of, season_episode_candidates_of, season_of_match};

fn caps(groups: &[Option<&str>]) -> Vec<Option<String>> {
    groups.iter().map(|g| g.map(|t| t.to_owned())).collect()
}

#[test]
fn reads_season_and_episode_groups_of_each_match() {
    let list = vec![
        caps(&[Some("S02E05"), Some("02"), Some("05")]),
        caps(&[Some("S01E300"), Some("1"), Some("300")]),
        caps(&[Some("S01"), Some("1"), None]),
        caps(&[Some("S03E07"), Some("3"), Some("7")]),
    ];
    let found = season_episode_candidates_of(&list, 100);
    let keys: Vec<(u16, u16, u8)> = found.iter().map(|c| (c.key.season, c.key.episode, c.confidence)).collect();
    assert_eq!(keys, vec![(2, 5, 100), (3, 7, 100)]);
    assert!(found.iter().all(|c| c.source == ParseCandidateSource::Rule));
}

#[test]
fn reads_episode_group_in_the_given_season() {
    let list = vec![caps(&[Some("第12话"), Some("12")]), caps(&[Some("第0话"), Some("0")]), caps(&[Some("x"), Some("abc")])];
    let found = episode_candidates_of(&list, 2, 95);
    assert_eq!(found.len(), 1);
    assert_eq!(found[0].key, EpisodeKey::new(2, 12));
    assert_eq!(found[0].confidence, 95);
    assert!(episode_candidates_of(&Vec::new(), 1, 90).is_empty());
}

#[test]
fn season_of_first_match_lies_in_one_to_ninety_nine() {
    assert_eq!(season_of_match(&Some(caps(&[Some("S03"), Some("03")]))), Some(3));
    assert_eq!(season_of_match(&Some(caps(&[Some("S100"), Some("100")]))), None);
    assert_eq!(season_of_match(&Some(caps(&[Some("S00"), Some("0")]))), None);
    assert_eq!(season_of_match(&None), None);
}

fn disk(raw: &str, drive: u8, rest: &[&str]) -> MediaPath {
    let mut parts = vec![PathPart::Prefix(raw.to_owned(), PrefixKind::Disk(drive)), PathPart::Root];
    parts.extend(rest.iter().map(|n| PathPart::Name((*n).to_owned())));
    MediaPath { parts }
}

#[test]
fn prefixes_compare_by_their_parsed_form() {
    let lower = disk("c:", b'C', &["Anime", "x.mkv"]);
    let upper = disk("C:", b'C', &["Anime", "x.mkv"]);
    assert!(path_equal(&lower, &upper));
    assert!(!path_less(&lower, &upper));
    assert!(!path_less(&upper, &lower));
    let d = disk("D:", b'D', &["Anime"]);
    assert!(path_less(&upper, &d));
    assert!(!path_equal(&upper, &d));
    let unc = MediaPath {
        parts: vec![PathPart::Prefix(r"\\server\share".to_owned(), PrefixKind::UNC("server".to_owned(), "share".to_owned()))],
    };
    // std orders UNC prefixes before disk prefixes.
    assert!(path_less(&unc, &upper));
    let base = disk("C:", b'C', &["Anime"]);
    let rel = strip_prefix(&base, &lower).expect("inside");
    assert_eq!(rel, MediaPath { parts: vec![PathPart::Name("x.mkv".to_owned())] });
}

fn item(action: CollisionAction) -> OrganizePlanItem {
    OrganizePlanItem {
        source: MediaPath { parts: vec![PathPart::Name("a.mkv".to_owned())] },
        destination: MediaPath { parts: vec![PathPart::Name("b.mkv".to_owned())] },
        kind: FileOperationKind::Video,
        episode_key: "S01E01".to_owned(),
        language: None,
        role: None,
        collision: false,
        collision_action: action,
        status: FileOperationStatus::Planned,
        message: None,
    }
}

#[test]
fn existing_destination_follows_the_collision_action() {
    assert_eq!(destination_step(&item(CollisionAction::Skip), false), DestinationStep::CopyThere);
    assert_eq!(destination_step(&item(CollisionAction::Skip), true), DestinationStep::SkipItem);
    assert_eq!(destination_step(&item(CollisionAction::Replace), true), DestinationStep::ReplaceExisting);
    assert_eq!(destination_step(&item(CollisionAction::Rename), true), DestinationStep::RenameCopy);
}

#[test]
fn normalized_library_has_ids_and_positive_times() {
    let mut file = LocalAnimeLibraryFile {
        schema_version: 0,
        app_version: "0.1.0".to_owned(),
        entries: vec![LocalAnimeLibraryEntry {
            id: "  ".to_owned(),
            project_name: "Show".to_owned(),
            season: "S01".to_owned(),
            output_dir: MediaPath { parts: vec![PathPart::Name("out".to_owned())] },
            mode: OrganizeMode::Copy,
            episode_count: 7,
            subtitle_preference_snapshot: None,
            cover_strategy_snapshot: None,
            episodes: Vec::new(),
            created_at_unix: 0,
            updated_at_unix: 0,
            organized_at_unix: 0,
        }],
    };
    normalize_library_file(&mut file, 50);
    let e = &file.entries[0];
    assert_eq!(file.schema_version, 1);
    assert_eq!(e.id, "show-s01-out");
    assert_eq!((e.created_at_unix, e.updated_at_unix, e.organized_at_unix), (50, 50, 50));
    assert_eq!(e.episode_count, 0);
}

#[test]
fn saved_entry_is_last_with_its_built_identifier() {
    let mut file = empty_library_file();
    let request = mpv_tidy::domain::SaveLocalLibraryRequest {
        project_name: "Show".to_owned(),
        season: "S01".to_owned(),
        output_dir: disk("c:", b'C', &["out"]),
        mode: OrganizeMode::Copy,
        episodes: Vec::new(),
        subtitle_preference_snapshot: None,
        cover_strategy_snapshot: None,
    };
    let first = save_library_entry(&mut file, request.clone(), 10);
    let mut again = request;
    again.output_dir = disk("C:", b'C', &["out"]);
    let second = save_library_entry(&mut file, again, 20);
    // The same folder written with another drive-letter case replaces the entry.
    assert_eq!(file.entries.len(), 1);
    assert_eq!(second.created_at_unix, first.created_at_unix);
    assert_eq!(file.entries.last().unwrap().id, second.id);
    assert_eq!(second.id, "show-s01-c-out");
}

#[test]
fn identifier_from_lowered_text_collapses_other_characters() {
    let text: Vec<char> = "jujutsu kaisen-s01-//tmp/out".chars().collect();
    assert_eq!(mpv_tidy::library::entry_id_from_lowered(&text, 5), "jujutsu-kaisen-s01-tmp-out");
    let blank: Vec<char> = "--__ ".chars().collect();
    assert_eq!(mpv_tidy::library::entry_id_from_lowered(&blank, 42), "library-42");
}

#[test]
fn language_marks_come_before_isolated_tokens() {
    let chs: Vec<char> = "show [chs] 01.ass".chars().collect();
    assert_eq!(language_from_marks_of(&chs, false, false, false, true), LanguageCode::ZhHans);
    let plain: Vec<char> = "show 01.ass".chars().collect();
    assert_eq!(language_from_marks_of(&plain, false, true, true, false), LanguageCode::ZhHant);
    assert_eq!(language_from_marks_of(&plain, false, false, false, true), LanguageCode::En);
    assert_eq!(language_from_marks_of(&plain, false, false, false, false), LanguageCode::Und);
}

#[test]
fn normalized_text_splits_into_digit_and_text_runs() {
    let text: Vec<char> = "ep12v2".chars().collect();
    let parts = parts_of_normalized(&text);
    assert_eq!(parts.len(), 4);
    assert!(matches!(parts[1], NaturalPart::Number(12)));
    assert!(matches!(parts[3], NaturalPart::Number(2)));
}
