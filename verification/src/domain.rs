//! The library's data: episode keys, languages, scan results, matches, plans
//! and library records.

use vstd::prelude::*;
use crate::path::{MediaPath, ComponentV, copy_path};
use crate::text::{decimal_pad2, decimal_pad2_chars, chars_to_string};

verus! {

/// A season and an episode number.
#[derive(Debug, Clone, Copy, PartialEq, Eq, Structural, PartialOrd, Ord, Hash)]
pub struct EpisodeKey {
    pub season: u16,
    pub episode: u16,
}

/// The key's text, `S{season:02}E{episode:02}`.
pub open spec fn episode_key_text(k: EpisodeKey) -> Seq<char> {
    seq!['S'] + decimal_pad2(k.season as nat) + seq!['E'] + decimal_pad2(k.episode as nat)
}

/// Whether `a` sorts before `b`: by season, then by episode.
pub open spec fn episode_key_lt(a: EpisodeKey, b: EpisodeKey) -> bool {
    a.season < b.season || (a.season == b.season && a.episode < b.episode)
}

impl EpisodeKey {
    pub fn new(season: u16, episode: u16) -> (r: Self)
        ensures
            r.season == season,
            r.episode == episode,
    {
        Self { season, episode }
    }

    /// The key's text characters, e.g. `S01E03`.
    pub fn key_chars(&self) -> (r: Vec<char>)
        ensures
            r@ == episode_key_text(*self),
    {
        let mut v: Vec<char> = Vec::new();
        v.push('S');
        let s = decimal_pad2_chars(self.season as u64);
        crate::text::push_chars(&mut v, s.as_slice());
        v.push('E');
        let e = decimal_pad2_chars(self.episode as u64);
        crate::text::push_chars(&mut v, e.as_slice());
        assert(v@ =~= episode_key_text(*self));
        v
    }

    /// The key's text, e.g. `S01E03`.
    pub fn to_string(&self) -> (r: String)
        ensures
            r@ == episode_key_text(*self),
    {
        let v = self.key_chars();
        chars_to_string(v.as_slice())
    }
}

/// A subtitle language.
#[derive(Debug, Clone, Copy, PartialEq, Eq, Structural, PartialOrd, Ord, Hash)]
pub enum LanguageCode {
    ZhHans,
    ZhHant,
    Ja,
    En,
    Und,
}

/// The language tag of each code.
pub open spec fn language_tag(l: LanguageCode) -> Seq<char> {
    match l {
        LanguageCode::ZhHans => "zh-Hans"@,
        LanguageCode::ZhHant => "zh-Hant"@,
        LanguageCode::Ja => "ja"@,
        LanguageCode::En => "en"@,
        LanguageCode::Und => "und"@,
    }
}

/// The default subtitle language preference, most preferred first.
pub open spec fn default_preference_spec() -> Seq<LanguageCode> {
    seq![LanguageCode::ZhHans, LanguageCode::ZhHant, LanguageCode::Ja, LanguageCode::En]
}

impl LanguageCode {
    pub fn as_str(&self) -> (r: &'static str)
        ensures
            r@ == language_tag(*self),
    {
        match self {
            LanguageCode::ZhHans => "zh-Hans",
            LanguageCode::ZhHant => "zh-Hant",
            LanguageCode::Ja => "ja",
            LanguageCode::En => "en",
            LanguageCode::Und => "und",
        }
    }

    pub fn default_preference() -> (r: [Self; 4])
        ensures
            r@ == default_preference_spec(),
    {
        let r = [LanguageCode::ZhHans, LanguageCode::ZhHant, LanguageCode::Ja, LanguageCode::En];
        assert(r@ =~= default_preference_spec());
        r
    }
}

#[derive(Debug, Clone, Copy, PartialEq, Eq, Structural)]
pub enum MatchStatus {
    Matched,
    PendingFix,
    Conflict,
    Unprocessed,
    MissingVideo,
    MissingSub,
}

#[derive(Debug, Clone, Copy, PartialEq, Eq, Structural)]
pub enum OrganizeMode {
    Copy,
    Move,
}

#[derive(Debug, Clone, Copy, PartialEq, Eq, Structural)]
pub enum SubtitleRole {
    Primary,
    Secondary,
    Candidate,
}

#[derive(Debug, Clone, Copy, PartialEq, Eq, Structural)]
pub enum ParseStatus {
    Accepted,
    LowConfidence,
    Ambiguous,
    Rejected,
}

#[derive(Debug, Clone, Copy, PartialEq, Eq, Structural)]
pub enum ParseCandidateSource {
    Rule,
    Template,
    Crf,
}

#[derive(Debug, Clone, Copy, PartialEq, Eq, Structural, PartialOrd, Ord)]
pub enum ParseSlotLabel {
    Episode,
    Season,
    Version,
    Hash,
    Resolution,
    Codec,
    Source,
    Language,
    Title,
    Noise,
    Special,
    Unknown,
}

#[derive(Debug, Clone, Copy, PartialEq, Eq, Structural)]
pub enum TokenFeatureKind {
    Alpha,
    Number,
    Separator,
    Other,
}

#[derive(Debug, Clone, Copy, PartialEq, Eq, Structural)]
pub enum TokenCompoundKind {
    SxxExx,
    VersionedEpisode,
    Resolution,
    Codec,
    Source,
    Language,
    Hash,
}

#[derive(Debug, Clone)]
pub struct ParseCandidate {
    pub episode: EpisodeKey,
    pub episode_key: String,
    pub confidence: u8,
    pub source: ParseCandidateSource,
    pub note: String,
}

#[derive(Debug, Clone)]
pub struct TokenFeatures {
    pub index: usize,
    pub text: String,
    pub lower: String,
    pub kind: TokenFeatureKind,
    pub compound_kind: Option<TokenCompoundKind>,
    pub number_value: Option<u32>,
    pub number_width: Option<usize>,
    pub previous_token: Option<String>,
    pub next_token: Option<String>,
    pub is_bracketed: bool,
    pub is_episode_marker_context: bool,
    pub is_season_marker_context: bool,
    pub is_quality_or_source: bool,
    pub is_language_token: bool,
    pub is_special_token: bool,
}

#[derive(Debug, Clone)]
pub struct LabeledToken {
    pub features: TokenFeatures,
    pub label: ParseSlotLabel,
}

#[derive(Debug, Clone, Copy, PartialEq, Eq, Structural)]
pub enum ParseTrainingSampleSource {
    UserConfirmation,
    Fixture,
}

#[derive(Debug, Clone)]
pub struct ParseTrainingSample {
    pub schema_version: u16,
    pub source: ParseTrainingSampleSource,
    pub path: MediaPath,
    pub file_name: String,
    pub extension: String,
    pub confirmed_episode: Option<EpisodeKey>,
    pub note: Option<String>,
    pub tokens: Vec<LabeledToken>,
    pub created_at_unix: u64,
}

#[derive(Debug, Clone)]
pub struct SaveParseTrainingSampleRequest {
    pub path: MediaPath,
    pub confirmed_episode: Option<EpisodeKey>,
    pub note: Option<String>,
}

#[derive(Debug, Clone)]
pub struct SettingsStoragePaths {
    pub training_data_dir: MediaPath,
    pub training_sample_file: MediaPath,
    pub crf_model_file: MediaPath,
    pub app_settings_file: MediaPath,
    pub local_library_file: MediaPath,
}

#[derive(Debug, Clone, Copy, PartialEq, Eq, Structural)]
pub enum CoverStrategy {
    LocalFirstThenScreenshot,
    LocalOnly,
    ScreenshotOnly,
    Disabled,
}

#[derive(Debug, Clone, Copy, PartialEq, Eq, Structural)]
pub enum WatchStatus {
    Watched,
    Partial,
    Unwatched,
}

#[derive(Debug, Clone, Copy, PartialEq, Eq, Structural)]
pub struct SubtitlePreferenceSnapshot {
    pub primary_language: LanguageCode,
    pub secondary_language: Option<LanguageCode>,
}

#[derive(Debug, Clone)]
pub struct AppSettings {
    pub schema_version: u16,
    pub mpv_executable_path: MediaPath,
    pub default_output_dir: MediaPath,
    pub anime_library_root_dir: MediaPath,
    pub temp_dir: MediaPath,
    pub default_primary_subtitle_language: LanguageCode,
    pub default_secondary_subtitle_language: LanguageCode,
    pub remember_playback_progress: bool,
    pub auto_scan_anime_library_on_startup: bool,
    pub auto_save_watch_progress: bool,
    pub default_cover_strategy: CoverStrategy,
    pub updated_at_unix: u64,
}

#[derive(Debug, Clone, Copy, PartialEq, Eq, Structural)]
pub enum FileOperationKind {
    Video,
    Subtitle,
}

#[derive(Debug, Clone, Copy, PartialEq, Eq, Structural)]
pub enum CollisionAction {
    Skip,
    Replace,
    Rename,
}

#[derive(Debug, Clone, Copy, PartialEq, Eq, Structural)]
pub enum FileOperationStatus {
    Planned,
    Copied,
    Moved,
    Skipped,
    Failed,
}

#[derive(Debug, Clone)]
pub struct ProjectConfig {
    pub project_name: String,
    pub season: String,
    pub video_dirs: Vec<MediaPath>,
    pub subtitle_dirs: Vec<MediaPath>,
    pub output_dir: Option<MediaPath>,
    pub primary_language: LanguageCode,
    pub secondary_language: Option<LanguageCode>,
    pub mpv_path: MediaPath,
    pub extra_mpv_args: Vec<String>,
}

#[derive(Debug, Clone)]
pub struct ScanInput {
    pub video_dirs: Vec<MediaPath>,
    pub subtitle_dirs: Vec<MediaPath>,
}

#[derive(Debug, Clone)]
pub struct ScannedVideo {
    pub path: MediaPath,
    pub file_name: String,
    pub extension: String,
    pub file_size_bytes: u64,
    pub episode: Option<EpisodeKey>,
    pub episode_key: Option<String>,
    pub confidence: u8,
    pub parse_status: ParseStatus,
    pub parse_notes: Vec<String>,
    pub parse_candidates: Vec<ParseCandidate>,
}

#[derive(Debug, Clone)]
pub struct ScannedSubtitle {
    pub path: MediaPath,
    pub file_name: String,
    pub extension: String,
    pub file_size_bytes: u64,
    pub episode: Option<EpisodeKey>,
    pub episode_key: Option<String>,
    pub confidence: u8,
    pub parse_status: ParseStatus,
    pub parse_notes: Vec<String>,
    pub parse_candidates: Vec<ParseCandidate>,
    pub language: LanguageCode,
}

#[derive(Debug, Clone)]
pub struct ScanResult {
    pub videos: Vec<ScannedVideo>,
    pub subtitles: Vec<ScannedSubtitle>,
}

#[derive(Debug, Clone)]
pub struct SubtitleCandidate {
    pub path: MediaPath,
    pub file_name: String,
    pub extension: String,
    pub language: LanguageCode,
    pub confidence: u8,
    pub role: SubtitleRole,
}

#[derive(Debug, Clone)]
pub struct EpisodeMatch {
    pub episode: EpisodeKey,
    pub episode_key: String,
    pub video: Option<ScannedVideo>,
    pub primary_subtitle: Option<SubtitleCandidate>,
    pub secondary_subtitle: Option<SubtitleCandidate>,
    pub candidates: Vec<SubtitleCandidate>,
    pub status: MatchStatus,
    pub notes: Vec<String>,
}

#[derive(Debug, Clone)]
pub struct ScanAndMatchResult {
    pub scan: ScanResult,
    pub matches: Vec<EpisodeMatch>,
    pub unprocessed_videos: Vec<ScannedVideo>,
    pub unprocessed_subtitles: Vec<ScannedSubtitle>,
}

#[derive(Debug, Clone)]
pub struct BuildOrganizePlanRequest {
    pub project_name: String,
    pub season: String,
    pub output_dir: MediaPath,
    pub matches: Vec<EpisodeMatch>,
    pub mode: OrganizeMode,
    pub primary_language: LanguageCode,
    pub secondary_language: Option<LanguageCode>,
}

#[derive(Debug, Clone)]
pub struct OrganizePlan {
    pub project_name: String,
    pub season: String,
    pub output_dir: MediaPath,
    pub mode: OrganizeMode,
    pub items: Vec<OrganizePlanItem>,
    pub has_conflicts: bool,
    pub map_file_path: MediaPath,
    pub map_file_exists: bool,
    pub summary: OrganizePlanSummary,
    pub project_map: AnimeSubMap,
}

#[derive(Debug, Clone, Copy)]
pub struct OrganizePlanSummary {
    pub videos: usize,
    pub subtitles: usize,
    pub conflicts: usize,
}

#[derive(Debug, Clone)]
pub struct OrganizePlanItem {
    pub source: MediaPath,
    pub destination: MediaPath,
    pub kind: FileOperationKind,
    pub episode_key: String,
    pub language: Option<LanguageCode>,
    pub role: Option<SubtitleRole>,
    pub collision: bool,
    pub collision_action: CollisionAction,
    pub status: FileOperationStatus,
    pub message: Option<String>,
}

#[derive(Debug, Clone)]
pub struct OrganizeExecutionResult {
    pub items: Vec<OrganizePlanItem>,
    pub map_written: bool,
    pub message: String,
}

#[derive(Debug, Clone)]
pub struct OrganizeProgressEvent {
    pub total: usize,
    pub processed: usize,
    pub current_episode_key: Option<String>,
    pub current_destination: Option<MediaPath>,
    pub status: FileOperationStatus,
    pub message: String,
}

#[derive(Debug, Clone)]
pub struct AnimeSubMap {
    pub app_version: String,
    pub project_name: String,
    pub season: String,
    pub output_dir: MediaPath,
    pub primary_language: LanguageCode,
    pub secondary_language: Option<LanguageCode>,
    pub episodes: Vec<AnimeSubMapEpisode>,
}

#[derive(Debug, Clone)]
pub struct AnimeSubMapEpisode {
    pub episode_key: String,
    pub video: Option<MediaPath>,
    pub primary_subtitle: Option<MediaPath>,
    pub secondary_subtitle: Option<MediaPath>,
    pub additional_subtitles: Vec<MediaPath>,
}

#[derive(Debug, Clone, Copy)]
pub struct MpvLaunchResult {
    pub process_id: u32,
    pub argument_count: usize,
    pub reused_existing: bool,
    pub switched_video: bool,
}

/// A subtitle track embedded in a video, as the player lists it.
#[derive(Debug, Clone)]
pub struct EmbeddedSubtitleTrack {
    pub id: i64,
    pub language: LanguageCode,
    pub language_tag: Option<String>,
    pub title: Option<String>,
    pub codec: Option<String>,
}

#[derive(Debug, Clone)]
pub struct LibraryEpisodeRecord {
    pub episode_key: String,
    pub video_path: Option<MediaPath>,
    pub primary_subtitle_path: Option<MediaPath>,
    pub secondary_subtitle_path: Option<MediaPath>,
    pub subtitle_count: usize,
    pub status: MatchStatus,
    pub watch_status: WatchStatus,
    pub last_position_sec: Option<u64>,
    pub progress_percent: Option<u8>,
    pub updated_at_unix: u64,
    pub embedded_subtitle_tracks: Vec<EmbeddedSubtitleTrack>,
}

#[derive(Debug, Clone)]
pub struct SaveLocalLibraryRequest {
    pub project_name: String,
    pub season: String,
    pub output_dir: MediaPath,
    pub mode: OrganizeMode,
    pub episodes: Vec<LibraryEpisodeRecord>,
    pub subtitle_preference_snapshot: Option<SubtitlePreferenceSnapshot>,
    pub cover_strategy_snapshot: Option<CoverStrategy>,
}

#[derive(Debug, Clone)]
pub struct RemoveLocalLibraryEntryRequest {
    pub entry_id: String,
}

#[derive(Debug, Clone)]
pub struct RepairLibraryEntryPathsRequest {
    pub entry_id: String,
}

#[derive(Debug, Clone)]
pub struct ScanEmbeddedSubtitleTracksRequest {
    pub entry_id: String,
}

#[derive(Debug, Clone)]
pub struct EmbeddedSubtitleScanFailure {
    pub episode_key: String,
    pub message: String,
}

#[derive(Debug, Clone)]
pub struct LocalAnimeLibraryEntry {
    pub id: String,
    pub project_name: String,
    pub season: String,
    pub output_dir: MediaPath,
    pub mode: OrganizeMode,
    pub episode_count: usize,
    pub subtitle_preference_snapshot: Option<SubtitlePreferenceSnapshot>,
    pub cover_strategy_snapshot: Option<CoverStrategy>,
    pub episodes: Vec<LibraryEpisodeRecord>,
    pub created_at_unix: u64,
    pub updated_at_unix: u64,
    pub organized_at_unix: u64,
}

#[derive(Debug, Clone)]
pub struct RepairLibraryEntryPathsResult {
    pub entry: LocalAnimeLibraryEntry,
    pub repaired_episode_count: usize,
    pub missing_episode_count: usize,
    pub map_file_path: MediaPath,
}

#[derive(Debug, Clone)]
pub struct ScanEmbeddedSubtitleTracksResult {
    pub entry: LocalAnimeLibraryEntry,
    pub scanned_episode_count: usize,
    pub embedded_subtitle_count: usize,
    pub episodes_without_embedded_subtitles: usize,
    pub failed_episodes: Vec<EmbeddedSubtitleScanFailure>,
}

#[derive(Debug, Clone)]
pub struct LocalAnimeLibraryFile {
    pub schema_version: u16,
    pub app_version: String,
    pub entries: Vec<LocalAnimeLibraryEntry>,
}

#[derive(Debug, Clone)]
pub struct UpdateLibraryEpisodeProgressRequest {
    pub entry_id: String,
    pub episode_key: String,
    pub watch_status: WatchStatus,
    pub last_position_sec: Option<u64>,
    pub progress_percent: Option<u8>,
}

/// The schema version that a library file without one is read as.
pub fn default_schema_version() -> (r: u16)
    ensures
        r == 1,
{
    1
}

/// A parse candidate as mathematical values.
pub struct ParseCandidateV {
    pub episode: EpisodeKey,
    pub episode_key: Seq<char>,
    pub confidence: u8,
    pub source: ParseCandidateSource,
    pub note: Seq<char>,
}

impl View for ParseCandidate {
    type V = ParseCandidateV;

    open spec fn view(&self) -> ParseCandidateV {
        ParseCandidateV {
            episode: self.episode,
            episode_key: self.episode_key@,
            confidence: self.confidence,
            source: self.source,
            note: self.note@,
        }
    }
}

/// The views of a sequence of values.
pub open spec fn views<T: View>(s: Seq<T>) -> Seq<T::V> {
    Seq::new(s.len(), |i: int| s[i]@)
}

/// The views of the strings in a sequence.
pub open spec fn texts(s: Seq<String>) -> Seq<Seq<char>> {
    Seq::new(s.len(), |i: int| s[i]@)
}

/// The view of an optional string.
pub open spec fn opt_text(s: Option<String>) -> Option<Seq<char>> {
    match s {
        Some(t) => Some(t@),
        None => None,
    }
}

/// The view of an optional path.
pub open spec fn opt_path(p: Option<MediaPath>) -> Option<Seq<ComponentV>> {
    match p {
        Some(q) => Some(q@),
        None => None,
    }
}

/// A scanned video file as mathematical values.
pub struct VideoV {
    pub path: Seq<ComponentV>,
    pub file_name: Seq<char>,
    pub extension: Seq<char>,
    pub file_size_bytes: u64,
    pub episode: Option<EpisodeKey>,
    pub episode_key: Option<Seq<char>>,
    pub confidence: u8,
    pub parse_status: ParseStatus,
    pub parse_notes: Seq<Seq<char>>,
    pub parse_candidates: Seq<ParseCandidateV>,
}

impl View for ScannedVideo {
    type V = VideoV;

    open spec fn view(&self) -> VideoV {
        VideoV {
            path: self.path@,
            file_name: self.file_name@,
            extension: self.extension@,
            file_size_bytes: self.file_size_bytes,
            episode: self.episode,
            episode_key: opt_text(self.episode_key),
            confidence: self.confidence,
            parse_status: self.parse_status,
            parse_notes: texts(self.parse_notes@),
            parse_candidates: views(self.parse_candidates@),
        }
    }
}

/// A scanned subtitle file as mathematical values.
pub struct SubtitleFileV {
    pub path: Seq<ComponentV>,
    pub file_name: Seq<char>,
    pub extension: Seq<char>,
    pub file_size_bytes: u64,
    pub episode: Option<EpisodeKey>,
    pub episode_key: Option<Seq<char>>,
    pub confidence: u8,
    pub parse_status: ParseStatus,
    pub parse_notes: Seq<Seq<char>>,
    pub parse_candidates: Seq<ParseCandidateV>,
    pub language: LanguageCode,
}

impl View for ScannedSubtitle {
    type V = SubtitleFileV;

    open spec fn view(&self) -> SubtitleFileV {
        SubtitleFileV {
            path: self.path@,
            file_name: self.file_name@,
            extension: self.extension@,
            file_size_bytes: self.file_size_bytes,
            episode: self.episode,
            episode_key: opt_text(self.episode_key),
            confidence: self.confidence,
            parse_status: self.parse_status,
            parse_notes: texts(self.parse_notes@),
            parse_candidates: views(self.parse_candidates@),
            language: self.language,
        }
    }
}

/// A subtitle candidate as mathematical values.
pub struct SubtitleCandidateV {
    pub path: Seq<ComponentV>,
    pub file_name: Seq<char>,
    pub extension: Seq<char>,
    pub language: LanguageCode,
    pub confidence: u8,
    pub role: SubtitleRole,
}

impl View for SubtitleCandidate {
    type V = SubtitleCandidateV;

    open spec fn view(&self) -> SubtitleCandidateV {
        SubtitleCandidateV {
            path: self.path@,
            file_name: self.file_name@,
            extension: self.extension@,
            language: self.language,
            confidence: self.confidence,
            role: self.role,
        }
    }
}

/// The view of an optional video.
pub open spec fn opt_video(v: Option<ScannedVideo>) -> Option<VideoV> {
    match v {
        Some(x) => Some(x@),
        None => None,
    }
}

/// The view of an optional subtitle candidate.
pub open spec fn opt_candidate(c: Option<SubtitleCandidate>) -> Option<SubtitleCandidateV> {
    match c {
        Some(x) => Some(x@),
        None => None,
    }
}

/// An episode's match as mathematical values.
pub struct EpisodeMatchV {
    pub episode: EpisodeKey,
    pub episode_key: Seq<char>,
    pub video: Option<VideoV>,
    pub primary_subtitle: Option<SubtitleCandidateV>,
    pub secondary_subtitle: Option<SubtitleCandidateV>,
    pub candidates: Seq<SubtitleCandidateV>,
    pub status: MatchStatus,
    pub notes: Seq<Seq<char>>,
}

impl View for EpisodeMatch {
    type V = EpisodeMatchV;

    open spec fn view(&self) -> EpisodeMatchV {
        EpisodeMatchV {
            episode: self.episode,
            episode_key: self.episode_key@,
            video: opt_video(self.video),
            primary_subtitle: opt_candidate(self.primary_subtitle),
            secondary_subtitle: opt_candidate(self.secondary_subtitle),
            candidates: views(self.candidates@),
            status: self.status,
            notes: texts(self.notes@),
        }
    }
}

pub fn copy_opt_text(s: &Option<String>) -> (r: Option<String>)
    ensures
        opt_text(r) == opt_text(*s),
{
    match s {
        Some(t) => Some(t.clone()),
        None => None,
    }
}

pub fn copy_texts(v: &Vec<String>) -> (r: Vec<String>)
    ensures
        texts(r@) == texts(v@),
{
    let mut out: Vec<String> = Vec::new();
    let mut i: usize = 0;
    while i < v.len()
        invariant
            i <= v@.len(),
            out@.len() == i,
            forall|k: int| 0 <= k < i ==> (#[trigger] out@[k])@ == v@[k]@,
        decreases v@.len() - i,
    {
        out.push(v[i].clone());
        i += 1;
    }
    assert(texts(out@) =~= texts(v@));
    out
}

pub fn copy_opt_path(p: &Option<MediaPath>) -> (r: Option<MediaPath>)
    ensures
        opt_path(r) == opt_path(*p),
{
    match p {
        Some(q) => Some(copy_path(q)),
        None => None,
    }
}

pub fn copy_parse_candidate(c: &ParseCandidate) -> (r: ParseCandidate)
    ensures
        r@ == c@,
{
    ParseCandidate {
        episode: c.episode,
        episode_key: c.episode_key.clone(),
        confidence: c.confidence,
        source: c.source,
        note: c.note.clone(),
    }
}

pub fn copy_parse_candidates(v: &Vec<ParseCandidate>) -> (r: Vec<ParseCandidate>)
    ensures
        views(r@) == views(v@),
{
    let mut out: Vec<ParseCandidate> = Vec::new();
    let mut i: usize = 0;
    while i < v.len()
        invariant
            i <= v@.len(),
            out@.len() == i,
            forall|k: int| 0 <= k < i ==> (#[trigger] out@[k])@ == v@[k]@,
        decreases v@.len() - i,
    {
        out.push(copy_parse_candidate(&v[i]));
        i += 1;
    }
    assert(views(out@) =~= views(v@));
    out
}

pub fn copy_video(v: &ScannedVideo) -> (r: ScannedVideo)
    ensures
        r@ == v@,
{
    ScannedVideo {
        path: copy_path(&v.path),
        file_name: v.file_name.clone(),
        extension: v.extension.clone(),
        file_size_bytes: v.file_size_bytes,
        episode: v.episode,
        episode_key: copy_opt_text(&v.episode_key),
        confidence: v.confidence,
        parse_status: v.parse_status,
        parse_notes: copy_texts(&v.parse_notes),
        parse_candidates: copy_parse_candidates(&v.parse_candidates),
    }
}

pub fn copy_subtitle(v: &ScannedSubtitle) -> (r: ScannedSubtitle)
    ensures
        r@ == v@,
{
    ScannedSubtitle {
        path: copy_path(&v.path),
        file_name: v.file_name.clone(),
        extension: v.extension.clone(),
        file_size_bytes: v.file_size_bytes,
        episode: v.episode,
        episode_key: copy_opt_text(&v.episode_key),
        confidence: v.confidence,
        parse_status: v.parse_status,
        parse_notes: copy_texts(&v.parse_notes),
        parse_candidates: copy_parse_candidates(&v.parse_candidates),
        language: v.language,
    }
}

pub fn copy_subtitle_candidate(c: &SubtitleCandidate) -> (r: SubtitleCandidate)
    ensures
        r@ == c@,
{
    SubtitleCandidate {
        path: copy_path(&c.path),
        file_name: c.file_name.clone(),
        extension: c.extension.clone(),
        language: c.language,
        confidence: c.confidence,
        role: c.role,
    }
}

/// A planned file operation as mathematical values.
pub struct PlanItemV {
    pub source: Seq<ComponentV>,
    pub destination: Seq<ComponentV>,
    pub kind: FileOperationKind,
    pub episode_key: Seq<char>,
    pub language: Option<LanguageCode>,
    pub role: Option<SubtitleRole>,
    pub collision: bool,
    pub collision_action: CollisionAction,
    pub status: FileOperationStatus,
    pub message: Option<Seq<char>>,
}

impl View for OrganizePlanItem {
    type V = PlanItemV;

    open spec fn view(&self) -> PlanItemV {
        PlanItemV {
            source: self.source@,
            destination: self.destination@,
            kind: self.kind,
            episode_key: self.episode_key@,
            language: self.language,
            role: self.role,
            collision: self.collision,
            collision_action: self.collision_action,
            status: self.status,
            message: opt_text(self.message),
        }
    }
}

/// An episode of the project map as mathematical values.
pub struct MapEpisodeV {
    pub episode_key: Seq<char>,
    pub video: Option<Seq<ComponentV>>,
    pub primary_subtitle: Option<Seq<ComponentV>>,
    pub secondary_subtitle: Option<Seq<ComponentV>>,
    pub additional_subtitles: Seq<Seq<ComponentV>>,
}

impl View for AnimeSubMapEpisode {
    type V = MapEpisodeV;

    open spec fn view(&self) -> MapEpisodeV {
        MapEpisodeV {
            episode_key: self.episode_key@,
            video: opt_path(self.video),
            primary_subtitle: opt_path(self.primary_subtitle),
            secondary_subtitle: opt_path(self.secondary_subtitle),
            additional_subtitles: views(self.additional_subtitles@),
        }
    }
}

/// An embedded subtitle track as mathematical values.
pub struct EmbeddedTrackV {
    pub id: i64,
    pub language: LanguageCode,
    pub language_tag: Option<Seq<char>>,
    pub title: Option<Seq<char>>,
    pub codec: Option<Seq<char>>,
}

impl View for EmbeddedSubtitleTrack {
    type V = EmbeddedTrackV;

    open spec fn view(&self) -> EmbeddedTrackV {
        EmbeddedTrackV {
            id: self.id,
            language: self.language,
            language_tag: opt_text(self.language_tag),
            title: opt_text(self.title),
            codec: opt_text(self.codec),
        }
    }
}

/// A library episode record as mathematical values.
pub struct EpisodeRecordV {
    pub episode_key: Seq<char>,
    pub video_path: Option<Seq<ComponentV>>,
    pub primary_subtitle_path: Option<Seq<ComponentV>>,
    pub secondary_subtitle_path: Option<Seq<ComponentV>>,
    pub subtitle_count: usize,
    pub status: MatchStatus,
    pub watch_status: WatchStatus,
    pub last_position_sec: Option<u64>,
    pub progress_percent: Option<u8>,
    pub updated_at_unix: u64,
    pub embedded_subtitle_tracks: Seq<EmbeddedTrackV>,
}

impl View for LibraryEpisodeRecord {
    type V = EpisodeRecordV;

    open spec fn view(&self) -> EpisodeRecordV {
        EpisodeRecordV {
            episode_key: self.episode_key@,
            video_path: opt_path(self.video_path),
            primary_subtitle_path: opt_path(self.primary_subtitle_path),
            secondary_subtitle_path: opt_path(self.secondary_subtitle_path),
            subtitle_count: self.subtitle_count,
            status: self.status,
            watch_status: self.watch_status,
            last_position_sec: self.last_position_sec,
            progress_percent: self.progress_percent,
            updated_at_unix: self.updated_at_unix,
            embedded_subtitle_tracks: views(self.embedded_subtitle_tracks@),
        }
    }
}

/// A library entry as mathematical values.
pub struct EntryV {
    pub id: Seq<char>,
    pub project_name: Seq<char>,
    pub season: Seq<char>,
    pub output_dir: Seq<ComponentV>,
    pub mode: OrganizeMode,
    pub episode_count: usize,
    pub subtitle_preference_snapshot: Option<SubtitlePreferenceSnapshot>,
    pub cover_strategy_snapshot: Option<CoverStrategy>,
    pub episodes: Seq<EpisodeRecordV>,
    pub created_at_unix: u64,
    pub updated_at_unix: u64,
    pub organized_at_unix: u64,
}

impl View for LocalAnimeLibraryEntry {
    type V = EntryV;

    open spec fn view(&self) -> EntryV {
        EntryV {
            id: self.id@,
            project_name: self.project_name@,
            season: self.season@,
            output_dir: self.output_dir@,
            mode: self.mode,
            episode_count: self.episode_count,
            subtitle_preference_snapshot: self.subtitle_preference_snapshot,
            cover_strategy_snapshot: self.cover_strategy_snapshot,
            episodes: views(self.episodes@),
            created_at_unix: self.created_at_unix,
            updated_at_unix: self.updated_at_unix,
            organized_at_unix: self.organized_at_unix,
        }
    }
}

/// A library file as mathematical values.
pub struct LibraryFileV {
    pub schema_version: u16,
    pub app_version: Seq<char>,
    pub entries: Seq<EntryV>,
}

impl View for LocalAnimeLibraryFile {
    type V = LibraryFileV;

    open spec fn view(&self) -> LibraryFileV {
        LibraryFileV { schema_version: self.schema_version, app_version: self.app_version@, entries: views(self.entries@) }
    }
}

pub fn copy_track(t: &EmbeddedSubtitleTrack) -> (r: EmbeddedSubtitleTrack)
    ensures
        r@ == t@,
{
    EmbeddedSubtitleTrack {
        id: t.id,
        language: t.language,
        language_tag: copy_opt_text(&t.language_tag),
        title: copy_opt_text(&t.title),
        codec: copy_opt_text(&t.codec),
    }
}

pub fn copy_tracks(v: &Vec<EmbeddedSubtitleTrack>) -> (r: Vec<EmbeddedSubtitleTrack>)
    ensures
        views(r@) == views(v@),
{
    let mut out: Vec<EmbeddedSubtitleTrack> = Vec::new();
    let mut i: usize = 0;
    while i < v.len()
        invariant
            i <= v@.len(),
            out@.len() == i,
            forall|k: int| 0 <= k < i ==> (#[trigger] out@[k])@ == v@[k]@,
        decreases v@.len() - i,
    {
        out.push(copy_track(&v[i]));
        i += 1;
    }
    assert(views(out@) =~= views(v@));
    out
}

pub fn copy_episode_record(e: &LibraryEpisodeRecord) -> (r: LibraryEpisodeRecord)
    ensures
        r@ == e@,
{
    LibraryEpisodeRecord {
        episode_key: e.episode_key.clone(),
        video_path: copy_opt_path(&e.video_path),
        primary_subtitle_path: copy_opt_path(&e.primary_subtitle_path),
        secondary_subtitle_path: copy_opt_path(&e.secondary_subtitle_path),
        subtitle_count: e.subtitle_count,
        status: e.status,
        watch_status: e.watch_status,
        last_position_sec: e.last_position_sec,
        progress_percent: e.progress_percent,
        updated_at_unix: e.updated_at_unix,
        embedded_subtitle_tracks: copy_tracks(&e.embedded_subtitle_tracks),
    }
}

pub fn copy_episode_records(v: &Vec<LibraryEpisodeRecord>) -> (r: Vec<LibraryEpisodeRecord>)
    ensures
        views(r@) == views(v@),
{
    let mut out: Vec<LibraryEpisodeRecord> = Vec::new();
    let mut i: usize = 0;
    while i < v.len()
        invariant
            i <= v@.len(),
            out@.len() == i,
            forall|k: int| 0 <= k < i ==> (#[trigger] out@[k])@ == v@[k]@,
        decreases v@.len() - i,
    {
        out.push(copy_episode_record(&v[i]));
        i += 1;
    }
    assert(views(out@) =~= views(v@));
    out
}

pub fn copy_entry(e: &LocalAnimeLibraryEntry) -> (r: LocalAnimeLibraryEntry)
    ensures
        r@ == e@,
{
    LocalAnimeLibraryEntry {
        id: e.id.clone(),
        project_name: e.project_name.clone(),
        season: e.season.clone(),
        output_dir: copy_path(&e.output_dir),
        mode: e.mode,
        episode_count: e.episode_count,
        subtitle_preference_snapshot: e.subtitle_preference_snapshot,
        cover_strategy_snapshot: e.cover_strategy_snapshot,
        episodes: copy_episode_records(&e.episodes),
        created_at_unix: e.created_at_unix,
        updated_at_unix: e.updated_at_unix,
        organized_at_unix: e.organized_at_unix,
    }
}

} // verus!
