//! Application settings: their defaults and what saving stamps on them.

use vstd::prelude::*;
use crate::domain::{AppSettings, CoverStrategy, LanguageCode};
use crate::path::{ComponentV, MediaPath};
use crate::text::{chars_to_string, str_chars};

verus! {

/// The settings schema version.
pub open spec fn settings_schema_version() -> u16 {
    1
}

/// The default settings for a data directory, stamped with `now`.
pub fn default_app_settings(data_dir: &MediaPath, now: u64) -> (r: AppSettings)
    ensures
        r.schema_version == settings_schema_version(),
        r.mpv_executable_path@ == seq![ComponentV::Name("mpv"@)],
        r.default_output_dir@ == seq![ComponentV::Name("D:\\整理输出"@)],
        r.anime_library_root_dir@ == seq![ComponentV::Name("D:\\AnimeLibrary"@)],
        r.temp_dir@ == data_dir@.push(ComponentV::Name("temp"@)),
        r.default_primary_subtitle_language == LanguageCode::ZhHans,
        r.default_secondary_subtitle_language == LanguageCode::Ja,
        r.remember_playback_progress,
        r.auto_scan_anime_library_on_startup,
        r.auto_save_watch_progress,
        r.default_cover_strategy == CoverStrategy::LocalFirstThenScreenshot,
        r.updated_at_unix == now,
{
    let mpv = str_chars("mpv");
    let output = str_chars("D:\\整理输出");
    let library = str_chars("D:\\AnimeLibrary");
    let temp = str_chars("temp");
    AppSettings {
        schema_version: 1,
        mpv_executable_path: MediaPath::empty().join_name(mpv.as_slice()),
        default_output_dir: MediaPath::empty().join_name(output.as_slice()),
        anime_library_root_dir: MediaPath::empty().join_name(library.as_slice()),
        temp_dir: data_dir.join_name(temp.as_slice()),
        default_primary_subtitle_language: LanguageCode::ZhHans,
        default_secondary_subtitle_language: LanguageCode::Ja,
        remember_playback_progress: true,
        auto_scan_anime_library_on_startup: true,
        auto_save_watch_progress: true,
        default_cover_strategy: CoverStrategy::LocalFirstThenScreenshot,
        updated_at_unix: now,
    }
}

/// What saving does to settings before writing them: the current schema
/// version and the save time.
pub fn stamp_settings(settings: &mut AppSettings, now: u64)
    ensures
        final(settings).schema_version == settings_schema_version(),
        final(settings).updated_at_unix == now,
        final(settings).mpv_executable_path == old(settings).mpv_executable_path,
        final(settings).default_output_dir == old(settings).default_output_dir,
        final(settings).anime_library_root_dir == old(settings).anime_library_root_dir,
        final(settings).temp_dir == old(settings).temp_dir,
        final(settings).default_primary_subtitle_language == old(settings).default_primary_subtitle_language,
        final(settings).default_secondary_subtitle_language == old(settings).default_secondary_subtitle_language,
        final(settings).remember_playback_progress == old(settings).remember_playback_progress,
        final(settings).auto_scan_anime_library_on_startup == old(settings).auto_scan_anime_library_on_startup,
        final(settings).auto_save_watch_progress == old(settings).auto_save_watch_progress,
        final(settings).default_cover_strategy == old(settings).default_cover_strategy,
{
    settings.schema_version = 1;
    settings.updated_at_unix = now;
}

} // verus!
