use mpv_tidy::crf::{active_feature_names, clamp_episode_confidence, number_bucket, validate_model_labels, CrfModelError};
use mpv_tidy::domain::{AppSettings, CoverStrategy, LanguageCode, ParseSlotLabel, TokenCompoundKind, TokenFeatureKind, TokenFeatures};
use mpv_tidy::path::{MediaPath, PathPart};
use mpv_tidy::settings::{default_app_settings, stamp_settings};

fn data_dir() -> MediaPath {
    MediaPath { parts: vec![PathPart::Root, PathPart::Name("data".to_owned())] }
}

#[test]
fn returns_defaults_when_settings_file_is_missing() {
    let loaded: AppSettings = default_app_settings(&data_dir(), 0);

    assert_eq!(loaded.mpv_executable_path, MediaPath { parts: vec![PathPart::Name("mpv".to_owned())] });
    assert!(loaded.auto_scan_anime_library_on_startup);
}

#[test]
fn default_settings_and_stamping() {
    let mut settings = default_app_settings(&data_dir(), 9);
    assert_eq!(settings.schema_version, 1);
    assert_eq!(settings.updated_at_unix, 9);
    assert_eq!(settings.default_primary_subtitle_language, LanguageCode::ZhHans);
    assert_eq!(settings.default_secondary_subtitle_language, LanguageCode::Ja);
    assert_eq!(settings.default_cover_strategy, CoverStrategy::LocalFirstThenScreenshot);
    assert_eq!(
        settings.temp_dir,
        MediaPath { parts: vec![PathPart::Root, PathPart::Name("data".to_owned()), PathPart::Name("temp".to_owned())] }
    );
    settings.schema_version = 7;
    stamp_settings(&mut settings, 99);
    assert_eq!(settings.schema_version, 1);
    assert_eq!(settings.updated_at_unix, 99);
}

fn token(number_value: Option<u32>) -> TokenFeatures {
    TokenFeatures {
        index: 2,
        text: "7".to_owned(),
        lower: "7".to_owned(),
        kind: TokenFeatureKind::Number,
        compound_kind: None,
        number_value,
        number_width: number_value.map(|value| value.to_string().len()),
        previous_token: None,
        next_token: Some("tail".to_owned()),
        is_bracketed: false,
        is_episode_marker_context: true,
        is_season_marker_context: false,
        is_quality_or_source: false,
        is_language_token: false,
        is_special_token: false,
    }
}

#[test]
fn lists_active_features_of_a_token() {
    let names = active_feature_names(&token(Some(7)));
    assert_eq!(
        names,
        vec![
            "bias", "kind=number", "compound=none", "lower=7", "prev=<bos>", "next=tail", "bracketed=false",
            "episode_marker=true", "season_marker=false", "quality_or_source=false", "language_token=false",
            "special_token=false", "number=present", "number_bucket=small", "number_value=7", "number_width=1",
        ]
    );
    let mut big = token(Some(1080));
    big.compound_kind = Some(TokenCompoundKind::Resolution);
    let names = active_feature_names(&big);
    assert!(names.contains(&"compound=resolution".to_owned()));
    assert!(names.contains(&"number_bucket=resolution".to_owned()));
    assert!(!names.iter().any(|name| name.starts_with("number_value=")));
    assert_eq!(active_feature_names(&token(None)).last().map(String::as_str), Some("number=absent"));
}

#[test]
fn buckets_numbers() {
    assert_eq!(number_bucket(0), "zero");
    assert_eq!(number_bucket(12), "small");
    assert_eq!(number_bucket(13), "episode_range");
    assert_eq!(number_bucket(200), "long_series");
    assert_eq!(number_bucket(479), "large_noise");
    assert_eq!(number_bucket(720), "resolution");
    assert_eq!(number_bucket(2024), "year");
    assert_eq!(number_bucket(500), "other");
}

#[test]
fn validates_model_labels_and_confidence() {
    assert_eq!(validate_model_labels(2, &vec![ParseSlotLabel::Episode]), Err(CrfModelError::UnsupportedSchemaVersion(2)));
    assert_eq!(validate_model_labels(1, &Vec::new()), Err(CrfModelError::NoLabels));
    assert_eq!(validate_model_labels(1, &vec![ParseSlotLabel::Noise]), Err(CrfModelError::NoEpisodeLabel));
    assert_eq!(validate_model_labels(1, &vec![ParseSlotLabel::Noise, ParseSlotLabel::Episode]), Ok(()));
    assert_eq!(clamp_episode_confidence(10), 50);
    assert_eq!(clamp_episode_confidence(74), 74);
    assert_eq!(clamp_episode_confidence(99), 92);
}

#[test]
fn saves_and_loads_settings_json() {
    let mut settings = default_app_settings(&data_dir(), 5);
    settings.mpv_executable_path = MediaPath { parts: vec![PathPart::Name("C:\\Tools\\mpv.exe".to_owned())] };
    settings.schema_version = 3;
    let before = settings.clone();

    stamp_settings(&mut settings, 42);

    assert_eq!(settings.mpv_executable_path, before.mpv_executable_path);
    assert_eq!(settings.schema_version, 1);
    assert_eq!(settings.updated_at_unix, 42);
}
