use mpv_tidy::domain::{EpisodeKey, LanguageCode, ParseCandidateSource, ParseStatus};
use mpv_tidy::natural::natural_str_cmp;
use mpv_tidy::parser::{
    decide_episode, parse_episode, parse_episode_batch, parse_episode_decision, to_parse_candidates, EpisodeCandidate,
};
use mpv_tidy::path::{MediaPath, PathPart};
use mpv_tidy::rules::detect_language;
use std::cmp::Ordering;
use std::error::Error;

fn path(text: &str) -> MediaPath {
    let mut parts = Vec::new();
    if text.starts_with('/') {
        parts.push(PathPart::Root);
    }
    for part in text.split('/').filter(|part| !part.is_empty()) {
        parts.push(PathPart::Name(part.to_owned()));
    }
    MediaPath { parts }
}

fn paths(names: &[&str]) -> Vec<MediaPath> {
    names.iter().map(|name| path(name)).collect()
}

#[test]
fn parses_common_anime_episode_names() -> Result<(), Box<dyn Error>> {
    let fixtures = [
        ("[SubsPlease] Jujutsu Kaisen - 01v2 (1080p) [2D6390A9].mkv", EpisodeKey::new(1, 1)),
        ("[SubsPlease] Jujutsu Kaisen - 10v2 (1080p) [78B19E01].mkv", EpisodeKey::new(1, 10)),
        ("Jujutsu.Kaisen.10v2.1080p.WEB-DL.mkv", EpisodeKey::new(1, 10)),
        ("呪術廻戦.第1話.両面宿儺.AMZN.WEB-DL.ja-jp.srt", EpisodeKey::new(1, 1)),
        ("[DBD-Raws][咒术回战][01][1080P][BDRip][HEVC-10bit][FLAC].SC.ass", EpisodeKey::new(1, 1)),
        (
            "Dealing.With.Mikadono.Sisters.Is.A.Breeze.S01E01.Prodigy.and.Mediocrity.1080p.CR.WEB-DL.DUAL.DDP2.0.H.264-Dooky.mkv",
            EpisodeKey::new(1, 1),
        ),
        ("JujutsuKaisenE01BD1080p.mkv", EpisodeKey::new(1, 1)),
    ];

    for (name, expected) in fixtures {
        let parsed = parse_episode(&path(name)).ok_or_else(|| format!("episode should parse: {name}"))?;
        assert_eq!(parsed.key, expected);
    }

    Ok(())
}

#[test]
fn infers_episode_slot_from_cohort_template() -> Result<(), Box<dyn Error>> {
    let paths = paths(&[
        "Jujutsu.Kaisen.01.1080p.WEB-DL.mkv",
        "Jujutsu.Kaisen.02.1080p.WEB-DL.mkv",
        "Jujutsu.Kaisen.03.1080p.WEB-DL.mkv",
    ]);

    let parsed = parse_episode_batch(&paths);

    assert_eq!(parsed[0].parsed.as_ref().ok_or("episode 1")?.key, EpisodeKey::new(1, 1));
    assert_eq!(parsed[1].parsed.as_ref().ok_or("episode 2")?.key, EpisodeKey::new(1, 2));
    assert_eq!(parsed[2].parsed.as_ref().ok_or("episode 3")?.key, EpisodeKey::new(1, 3));
    Ok(())
}

#[test]
fn keeps_mixed_series_in_separate_cohorts() -> Result<(), Box<dyn Error>> {
    let paths = paths(&["ShowA - 01.mkv", "ShowA - 02.mkv", "ShowB - 01.mkv", "ShowB - 02.mkv"]);

    let parsed = parse_episode_batch(&paths);

    assert_eq!(parsed[0].parsed.as_ref().ok_or("show a episode 1")?.key, EpisodeKey::new(1, 1));
    assert_eq!(parsed[1].parsed.as_ref().ok_or("show a episode 2")?.key, EpisodeKey::new(1, 2));
    assert_eq!(parsed[2].parsed.as_ref().ok_or("show b episode 1")?.key, EpisodeKey::new(1, 1));
    assert_eq!(parsed[3].parsed.as_ref().ok_or("show b episode 2")?.key, EpisodeKey::new(1, 2));
    Ok(())
}

#[test]
fn infers_optional_version_slot_without_breaking_episode() -> Result<(), Box<dyn Error>> {
    let paths = paths(&["Show - 01v2 [1080p].mkv", "Show - 02 [1080p].mkv", "Show - 03v3 [1080p].mkv"]);

    let parsed = parse_episode_batch(&paths);

    assert_eq!(parsed[0].parsed.as_ref().ok_or("episode 1")?.key, EpisodeKey::new(1, 1));
    assert_eq!(parsed[1].parsed.as_ref().ok_or("episode 2")?.key, EpisodeKey::new(1, 2));
    assert_eq!(parsed[2].parsed.as_ref().ok_or("episode 3")?.key, EpisodeKey::new(1, 3));
    Ok(())
}

#[test]
fn keeps_special_outliers_out_of_main_episode_template() -> Result<(), Box<dyn Error>> {
    let paths = paths(&["Show - 01 [1080p].mkv", "Show - OVA [1080p].mkv", "Show - 02 [1080p].mkv"]);

    let parsed = parse_episode_batch(&paths);

    assert_eq!(parsed[0].parsed.as_ref().ok_or("episode 1")?.key, EpisodeKey::new(1, 1));
    assert_eq!(parsed[1].status, ParseStatus::Rejected);
    assert!(parsed[1].notes.iter().any(|note| note.contains("特殊内容")));
    assert_eq!(parsed[2].parsed.as_ref().ok_or("episode 2")?.key, EpisodeKey::new(1, 2));
    Ok(())
}

#[test]
fn rejects_ambiguous_multi_number_slots() {
    let paths = paths(&["A-01-02-03.mkv", "A-02-03-04.mkv", "A-03-04-05.mkv"]);

    let parsed = parse_episode_batch(&paths);
    assert!(parsed.iter().all(|decision| decision.parsed.is_none()));
    assert!(parsed.iter().all(|decision| decision.status == ParseStatus::Ambiguous));
}

#[test]
fn rejects_random_hash_like_names() {
    let paths = paths(&["a8f3c9.mkv", "B12FF0.mkv", "zz991q.mkv"]);

    assert!(parse_episode_batch(&paths).iter().all(|decision| decision.parsed.is_none()));
}

#[test]
fn avoids_resolution_codec_and_hash_false_positives() {
    let fixtures = [
        "Movie.1080p.HEVC-10bit.FLAC.mkv",
        "Archive.[2D6390A9].H.264.AAC.ass",
        "Show.2025.2160p.x265.mkv",
        "News.Show.2024.07.01.1080p.WEB.mkv",
    ];

    for name in fixtures {
        assert!(parse_episode(&path(name)).is_none());
    }
}

#[test]
fn natural_sort_compares_numbers_by_value() {
    assert_eq!(natural_str_cmp("Show - 8.mkv", "Show - 10.mkv"), Ordering::Less);
    assert_eq!(natural_str_cmp("Show - 07.mkv", "Show - 8.mkv"), Ordering::Less);
}

#[test]
fn detects_language_from_file_and_parent_directory() {
    let fixtures = [
        ("subs/简中/Jujutsu.Kaisen.S01E01.ass", LanguageCode::ZhHans),
        ("subs/繁体/Jujutsu.Kaisen.S01E01.srt", LanguageCode::ZhHant),
        ("subs/Jujutsu.Kaisen.S01E01.ja-jp.srt", LanguageCode::Ja),
        ("subs/English/Jujutsu.Kaisen.S01E01.en.srt", LanguageCode::En),
        ("subs/Jujutsu.Kaisen.S01E01.srt", LanguageCode::Und),
    ];

    for (name, expected) in fixtures {
        assert_eq!(detect_language(&path(name)), expected);
    }
}

fn candidate(key: EpisodeKey, confidence: u8) -> EpisodeCandidate {
    EpisodeCandidate { key, confidence, source: ParseCandidateSource::Rule, note: "rule".to_owned() }
}

#[test]
fn decision_accepts_the_best_confident_candidate() {
    let decision = decide_episode(vec![candidate(EpisodeKey::new(1, 3), 60), candidate(EpisodeKey::new(1, 2), 95)], Vec::new());
    assert_eq!(decision.status, ParseStatus::Accepted);
    let parsed = decision.parsed.expect("accepted");
    assert_eq!(parsed.key, EpisodeKey::new(1, 2));
    assert_eq!(parsed.confidence, 95);
    assert_eq!(decision.candidates[0].key, EpisodeKey::new(1, 2));
    assert_eq!(decision.notes, vec!["已接受 S01E02，置信度 95。".to_owned()]);
}

#[test]
fn decision_without_candidates_is_rejected() {
    let decision = decide_episode(Vec::new(), vec!["a".to_owned(), "a".to_owned()]);
    assert_eq!(decision.status, ParseStatus::Rejected);
    assert!(decision.parsed.is_none());
    assert_eq!(decision.notes, vec!["a".to_owned()]);
}

#[test]
fn decision_with_close_rivals_is_ambiguous() {
    let decision = decide_episode(vec![candidate(EpisodeKey::new(1, 1), 90), candidate(EpisodeKey::new(1, 2), 85)], Vec::new());
    assert_eq!(decision.status, ParseStatus::Ambiguous);
    assert!(decision.parsed.is_none());
}

#[test]
fn decision_below_threshold_is_low_confidence() {
    let decision = decide_episode(vec![candidate(EpisodeKey::new(1, 4), 69)], Vec::new());
    assert_eq!(decision.status, ParseStatus::LowConfidence);
    assert_eq!(decision.parsed.expect("tentative").key, EpisodeKey::new(1, 4));
    assert_eq!(decision.notes, vec!["S01E04 置信度 69 低于自动匹配阈值，需要手动确认。".to_owned()]);
}

#[test]
fn decision_drops_repeated_candidates() {
    let decision = decide_episode(vec![candidate(EpisodeKey::new(1, 1), 90), candidate(EpisodeKey::new(1, 1), 90)], Vec::new());
    assert_eq!(decision.candidates.len(), 1);
}

#[test]
fn single_file_batch_matches_single_decision() {
    let p = path("Show - 05 [1080p].mkv");
    let batch = parse_episode_batch(&vec![p.clone()]);
    let single = parse_episode_decision(&p);
    assert_eq!(batch.len(), 1);
    assert_eq!(batch[0].status, single.status);
    assert_eq!(batch[0].parsed.as_ref().map(|value| value.key), single.parsed.as_ref().map(|value| value.key));
    assert_eq!(single.parsed.expect("parsed").key, EpisodeKey::new(1, 5));
}

#[test]
fn candidates_report_their_key_text() {
    let reported = to_parse_candidates(&vec![candidate(EpisodeKey::new(2, 11), 80)]);
    assert_eq!(reported.len(), 1);
    assert_eq!(reported[0].episode_key, "S02E11");
    assert_eq!(reported[0].episode, EpisodeKey::new(2, 11));
    assert_eq!(reported[0].confidence, 80);
}

#[test]
fn episode_key_text_is_zero_padded() {
    assert_eq!(EpisodeKey::new(1, 3).to_string(), "S01E03");
    assert_eq!(EpisodeKey::new(12, 105).to_string(), "S12E105");
}

#[test]
fn natural_sort_breaks_ties_by_text() {
    assert_eq!(natural_str_cmp("a", "a"), Ordering::Equal);
    assert_eq!(natural_str_cmp("Show - 8.mkv", "Show - 08.mkv"), Ordering::Greater);
    assert_eq!(natural_str_cmp("b", "a1"), Ordering::Greater);
    assert_eq!(natural_str_cmp("1", "a"), Ordering::Less);
}

#[test]
fn parses_full_width_digits_after_normalization() {
    let parsed = parse_episode(&path("Show - ０５.mkv")).expect("full-width digits normalize to 05");
    assert_eq!(parsed.key, EpisodeKey::new(1, 5));
    assert_eq!(parsed.confidence, 78);
}
