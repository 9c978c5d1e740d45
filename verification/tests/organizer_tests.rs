use mpv_tidy::domain::{
    BuildOrganizePlanRequest, CollisionAction, EpisodeKey, EpisodeMatch, FileOperationKind, FileOperationStatus, LanguageCode,
    MatchStatus, OrganizeMode, ParseStatus, ScannedVideo, SubtitleCandidate, SubtitleRole,
};
use mpv_tidy::organizer::{
    build_plan, completion_message, is_reserved_windows_name, item_progress_event, mark_done, mark_skipped, next_available_path,
    plan_paths, project_output_dir, rename_candidate, sanitize_windows_file_name, skipped_on_collision, start_event, OrganizeError,
};
use mpv_tidy::path::{MediaPath, PathPart};

fn path(text: &str) -> MediaPath {
    let mut parts = Vec::new();
    if text.starts_with('/') {
        parts.push(PathPart::Root);
    }
    for part in text.split('/').filter(|part| !part.is_empty()) {
        parts.push(PathPart::Name(part.to_owned()));
    }
    MediaPath { parts }
}

fn join(base: &MediaPath, name: &str) -> MediaPath {
    let mut parts = base.parts.clone();
    parts.push(PathPart::Name(name.to_owned()));
    MediaPath { parts }
}

fn project_root(output: &MediaPath) -> MediaPath {
    join(output, "Jujutsu Kaisen S01")
}

fn episode_match(video: &MediaPath, sub: &MediaPath) -> EpisodeMatch {
    EpisodeMatch {
        episode: EpisodeKey::new(1, 1),
        episode_key: "S01E01".to_owned(),
        video: Some(ScannedVideo {
            path: video.clone(),
            file_name: "S01E01.mkv".to_owned(),
            extension: "mkv".to_owned(),
            file_size_bytes: 0,
            episode: Some(EpisodeKey::new(1, 1)),
            episode_key: Some("S01E01".to_owned()),
            confidence: 100,
            parse_status: ParseStatus::Accepted,
            parse_notes: Vec::new(),
            parse_candidates: Vec::new(),
        }),
        primary_subtitle: Some(SubtitleCandidate {
            path: sub.clone(),
            file_name: "S01E01.zh-Hans.ass".to_owned(),
            extension: "ass".to_owned(),
            language: LanguageCode::ZhHans,
            confidence: 100,
            role: SubtitleRole::Primary,
        }),
        secondary_subtitle: None,
        candidates: Vec::new(),
        status: MatchStatus::Matched,
        notes: Vec::new(),
    }
}

fn request(output: &MediaPath, mode: OrganizeMode, video: &MediaPath, sub: &MediaPath) -> BuildOrganizePlanRequest {
    BuildOrganizePlanRequest {
        project_name: "Jujutsu Kaisen".to_owned(),
        season: "S01".to_owned(),
        output_dir: output.clone(),
        matches: vec![episode_match(video, sub)],
        mode,
        primary_language: LanguageCode::ZhHans,
        secondary_language: Some(LanguageCode::Ja),
    }
}

#[test]
fn plan_output_root_includes_project_and_season_folder() {
    let output = path("/tmp/t/out");
    let video = path("/tmp/t/src/S01E01.mkv");
    let sub = path("/tmp/t/src/S01E01.zh-Hans.ass");

    let plan = build_plan(request(&output, OrganizeMode::Copy, &video, &sub), &Vec::new()).expect("plan");

    assert_eq!(plan.output_dir, project_root(&output));
    assert_eq!(plan.map_file_path, join(&project_root(&output), "anime-sub-map.json"));
    assert!(plan
        .items
        .iter()
        .any(|item| item.destination == join(&join(&project_root(&output), "videos"), "Jujutsu Kaisen S01E01.mkv")));
}

#[test]
fn does_not_duplicate_project_folder_when_output_already_points_to_it() {
    let output = project_root(&path("/tmp/t"));
    let video = path("/tmp/t/src/S01E01.mkv");
    let sub = path("/tmp/t/src/S01E01.zh-Hans.ass");

    let plan = build_plan(request(&output, OrganizeMode::Copy, &video, &sub), &Vec::new()).expect("plan");

    assert_eq!(plan.output_dir, output);
}

#[test]
fn detects_collisions_without_overwriting() {
    let output = path("/tmp/t/out");
    let video = path("/tmp/t/src/S01E01.mkv");
    let sub = path("/tmp/t/src/S01E01.zh-Hans.ass");
    let destination = join(&join(&project_root(&output), "videos"), "Jujutsu Kaisen S01E01.mkv");

    let plan = build_plan(request(&output, OrganizeMode::Copy, &video, &sub), &vec![destination.clone()]).expect("plan");

    assert!(plan.has_conflicts);
    assert_eq!(plan.summary.conflicts, 1);
    let item = plan.items.iter().find(|item| item.destination == destination).expect("video item");
    assert!(item.collision);
    assert_eq!(item.collision_action, CollisionAction::Skip);
    assert!(skipped_on_collision(item));
}

#[test]
fn rename_collision_action_preserves_existing_file() {
    let output = path("/tmp/t/out");
    let existing = join(&join(&project_root(&output), "videos"), "Jujutsu Kaisen S01E01.mkv");

    let renamed = next_available_path(&existing, &vec![existing.clone()]);

    assert_eq!(renamed, join(&join(&project_root(&output), "videos"), "Jujutsu Kaisen S01E01 (1).mkv"));
}

#[test]
fn plan_lists_items_summary_and_map() {
    let output = path("/tmp/t/out");
    let video = path("/tmp/t/src/S01E01.mkv");
    let sub = path("/tmp/t/src/S01E01.zh-Hans.ass");

    let plan = build_plan(request(&output, OrganizeMode::Move, &video, &sub), &Vec::new()).expect("plan");

    assert_eq!(plan.items.len(), 2);
    assert_eq!(plan.summary.videos, 1);
    assert_eq!(plan.summary.subtitles, 1);
    assert_eq!(plan.summary.conflicts, 0);
    assert!(!plan.has_conflicts);
    assert!(!plan.map_file_exists);
    assert_eq!(plan.mode, OrganizeMode::Move);
    assert_eq!(plan.items[0].kind, FileOperationKind::Video);
    assert_eq!(plan.items[0].source, video);
    assert_eq!(plan.items[1].destination, join(&join(&join(&project_root(&output), "subs"), "zh-Hans"), "Jujutsu Kaisen S01E01.zh-Hans.ass"));
    assert_eq!(plan.items[1].status, FileOperationStatus::Planned);
    assert_eq!(plan.project_map.app_version, "0.1.0");
    assert_eq!(plan.project_map.episodes.len(), 1);
    assert_eq!(plan.project_map.episodes[0].video, Some(path("videos/Jujutsu Kaisen S01E01.mkv")));
    assert_eq!(plan.project_map.episodes[0].primary_subtitle, Some(path("subs/zh-Hans/Jujutsu Kaisen S01E01.zh-Hans.ass")));
    assert_eq!(plan.project_map.episodes[0].secondary_subtitle, None);

    let checked = plan_paths(&request(&output, OrganizeMode::Move, &video, &sub));
    assert_eq!(checked.len(), 3);
    assert_eq!(checked[2], plan.map_file_path);
}

#[test]
fn empty_plans_are_refused() {
    let mut req = request(&path("/tmp/t/out"), OrganizeMode::Copy, &path("/a.mkv"), &path("/a.ass"));
    req.matches[0].video = None;
    req.matches[0].primary_subtitle = None;
    assert_eq!(build_plan(req, &Vec::new()).err(), Some(OrganizeError::EmptyOrganizePlan));
}

#[test]
fn sanitizes_windows_file_names() {
    assert_eq!(sanitize_windows_file_name("a<b>c:d\"e/f\\g|h?i*j"), "a_b_c_d_e_f_g_h_i_j");
    assert_eq!(sanitize_windows_file_name(" .Show. "), "Show");
    assert_eq!(sanitize_windows_file_name("..."), "Anime");
    assert_eq!(sanitize_windows_file_name(""), "Anime");
    assert_eq!(sanitize_windows_file_name("con"), "con_");
    assert_eq!(sanitize_windows_file_name("LPT1.txt"), "LPT1.txt_");
    assert_eq!(sanitize_windows_file_name("Jujutsu Kaisen S01"), "Jujutsu Kaisen S01");
    assert!(is_reserved_windows_name("nul"));
    assert!(!is_reserved_windows_name("com"));
    assert!(is_reserved_windows_name("Com1.backup"));
}

#[test]
fn project_folder_is_matched_ignoring_ascii_case() {
    let base = path("/x/JUJUTSU KAISEN s01");
    assert_eq!(project_output_dir(&base, "Jujutsu Kaisen", "S01"), base);
    let other = path("/x/out");
    assert_eq!(project_output_dir(&other, "A:B", "S1"), join(&other, "A_B S1"));
}

#[test]
fn renaming_skips_taken_names() {
    let p = path("/v/Show.mkv");
    let taken = vec![p.clone(), rename_candidate(&p, 1), rename_candidate(&p, 2)];
    assert_eq!(next_available_path(&p, &taken), path("/v/Show (3).mkv"));
    assert_eq!(next_available_path(&p, &Vec::new()), p);
    assert_eq!(rename_candidate(&path("/v/README"), 4), path("/v/README (4)"));
}

#[test]
fn execution_marks_and_events() {
    let output = path("/tmp/t/out");
    let plan = build_plan(request(&output, OrganizeMode::Copy, &path("/s/a.mkv"), &path("/s/a.ass")), &Vec::new()).expect("plan");
    let mut item = plan.items[0].clone();
    mark_skipped(&mut item);
    assert_eq!(item.status, FileOperationStatus::Skipped);
    assert_eq!(item.message.as_deref(), Some("目标文件已存在，已跳过。"));
    let event = item_progress_event(2, 1, &item);
    assert_eq!(event.processed, 1);
    assert_eq!(event.message, "目标文件已存在，已跳过。");
    assert_eq!(event.current_episode_key.as_deref(), Some("S01E01"));
    let mut moved = plan.items[1].clone();
    mark_done(&mut moved, OrganizeMode::Move);
    assert_eq!(moved.status, FileOperationStatus::Moved);
    assert_eq!(item_progress_event(2, 2, &plan.items[1]).message, "文件处理完成。");
    assert_eq!(start_event(2).message, "整理任务已开始。");
    assert_eq!(completion_message(OrganizeMode::Move), "移动整理完成。请检查输出目录中的结果。");
}
