//! Planning where matched files go and what the project map records.

use vstd::prelude::*;
use crate::domain::{
    AnimeSubMap, AnimeSubMapEpisode, BuildOrganizePlanRequest, CollisionAction, EpisodeMatch, EpisodeMatchV,
    FileOperationKind, FileOperationStatus, LanguageCode, OrganizeExecutionResult, OrganizeMode, OrganizePlan,
    OrganizePlanItem, OrganizePlanSummary, OrganizeProgressEvent, SubtitleCandidate, SubtitleCandidateV,
    SubtitleRole, language_tag, opt_path, opt_text, views, PlanItemV, MapEpisodeV,
};
use crate::path::{
    ComponentV, MediaPath, component_text, copy_path, path_equal, strip_prefix, strip_prefix_spec,
};
use crate::text::{
    ascii_lower_seq, ascii_upper_chars, ascii_upper_seq, char_is_whitespace, chars_to_string, eq_ignore_ascii_case,
    in_words, is_whitespace, push_chars, push_lit, str_chars, string_chars, words_contain,
};

verus! {

/// A character that Windows forbids in file names becomes `_`.
pub open spec fn sanitize_char(c: char) -> char {
    if c == '<' || c == '>' || c == ':' || c == '"' || c == '/' || c == '\\' || c == '|' || c == '?' || c == '*' {
        '_'
    } else {
        c
    }
}

pub open spec fn is_space_or_dot(c: char) -> bool {
    c == ' ' || c == '.'
}

/// The number of leading characters of `s` that satisfy `pred`.
pub open spec fn leading_count(s: Seq<char>, pred: spec_fn(char) -> bool) -> nat
    decreases s.len(),
{
    if s.len() > 0 && pred(s[0]) {
        1 + leading_count(s.drop_first(), pred)
    } else {
        0
    }
}

/// The number of trailing characters of `s` that satisfy `pred`.
pub open spec fn trailing_count(s: Seq<char>, pred: spec_fn(char) -> bool) -> nat
    decreases s.len(),
{
    if s.len() > 0 && pred(s.last()) {
        1 + trailing_count(s.drop_last(), pred)
    } else {
        0
    }
}

/// `s` without its leading and trailing characters that satisfy `pred`.
pub open spec fn trim_by(s: Seq<char>, pred: spec_fn(char) -> bool) -> Seq<char> {
    let a = leading_count(s, pred);
    if a >= s.len() {
        Seq::empty()
    } else {
        s.subrange(a as int, s.len() - trailing_count(s, pred))
    }
}

/// The names Windows reserves for devices.
pub open spec fn reserved_names() -> Seq<&'static str> {
    seq![
        "CON", "PRN", "AUX", "NUL", "COM1", "COM2", "COM3", "COM4", "COM5", "COM6", "COM7", "COM8", "COM9",
        "LPT1", "LPT2", "LPT3", "LPT4", "LPT5", "LPT6", "LPT7", "LPT8", "LPT9",
    ]
}

/// What comes before the first `.` of `s`, or all of `s`.
pub open spec fn first_segment(s: Seq<char>) -> Seq<char> {
    s.take(leading_count(s, |c: char| c != '.') as int)
}

/// Whether a name, before its first dot and in ASCII uppercase, is a reserved device name.
pub open spec fn is_reserved_windows_name_spec(value: Seq<char>) -> bool {
    words_contain(reserved_names(), first_segment(ascii_upper_seq(value)))
}

/// A text made safe as a Windows file name: forbidden characters become `_`,
/// spaces and dots are trimmed from both ends, then whitespace; an empty
/// result becomes `Anime`, and a reserved device name gets a trailing `_`.
pub open spec fn sanitize_spec(input: Seq<char>) -> Seq<char> {
    let replaced = Seq::new(input.len(), |i: int| sanitize_char(input[i]));
    let trimmed = trim_by(trim_by(replaced, |c: char| is_space_or_dot(c)), |c: char| char_is_whitespace(c));
    let fallback = if trimmed.len() == 0 { "Anime"@ } else { trimmed };
    if is_reserved_windows_name_spec(fallback) {
        fallback.push('_')
    } else {
        fallback
    }
}

proof fn lemma_leading_skip(s: Seq<char>, pred: spec_fn(char) -> bool, i: int)
    requires
        0 <= i < s.len(),
        pred(s[i]),
    ensures
        leading_count(s.skip(i), pred) == 1 + leading_count(s.skip(i + 1), pred),
{
    assert(s.skip(i).drop_first() =~= s.skip(i + 1));
}

proof fn lemma_trailing_take(s: Seq<char>, pred: spec_fn(char) -> bool, j: int)
    requires
        0 < j <= s.len(),
        pred(s[j - 1]),
    ensures
        trailing_count(s.take(j), pred) == 1 + trailing_count(s.take(j - 1), pred),
{
    assert(s.take(j).drop_last() =~= s.take(j - 1));
}

pub proof fn lemma_leading_bound(s: Seq<char>, pred: spec_fn(char) -> bool)
    ensures
        leading_count(s, pred) <= s.len(),
        leading_count(s, pred) < s.len() ==> !pred(s[leading_count(s, pred) as int]),
        forall|k: int| 0 <= k < leading_count(s, pred) ==> pred(#[trigger] s[k]),
    decreases s.len(),
{
    if s.len() > 0 && pred(s[0]) {
        lemma_leading_bound(s.drop_first(), pred);
        assert forall|k: int| 0 <= k < leading_count(s, pred) implies pred(#[trigger] s[k]) by {
            if k > 0 {
                assert(s[k] == s.drop_first()[k - 1]);
            }
        }
    }
}

pub proof fn lemma_trailing_bound(s: Seq<char>, pred: spec_fn(char) -> bool)
    ensures
        trailing_count(s, pred) <= s.len(),
        trailing_count(s, pred) < s.len() ==> !pred(s[s.len() - 1 - trailing_count(s, pred)]),
        forall|k: int| s.len() - trailing_count(s, pred) <= k < s.len() ==> pred(#[trigger] s[k]),
    decreases s.len(),
{
    if s.len() > 0 && pred(s.last()) {
        lemma_trailing_bound(s.drop_last(), pred);
        assert forall|k: int| s.len() - trailing_count(s, pred) <= k < s.len() implies pred(#[trigger] s[k]) by {
            if k < s.len() - 1 {
                assert(s[k] == s.drop_last()[k]);
            }
        }
    }
}

/// The number of leading characters that satisfy a test, given by its results.
fn count_leading(s: &[char], flags: &Vec<bool>, Ghost(pred): Ghost<spec_fn(char) -> bool>) -> (r: usize)
    requires
        flags@.len() == s@.len(),
        forall|k: int| 0 <= k < s@.len() ==> flags@[k] == pred(#[trigger] s@[k]),
    ensures
        r as nat == leading_count(s@, pred),
{
    let mut i: usize = 0;
    assert(s@.skip(0) =~= s@);
    while i < s.len()
        invariant
            i <= s@.len(),
            flags@.len() == s@.len(),
            forall|k: int| 0 <= k < s@.len() ==> flags@[k] == pred(#[trigger] s@[k]),
            leading_count(s@, pred) == i + leading_count(s@.skip(i as int), pred),
        decreases s@.len() - i,
    {
        assert(s@.skip(i as int)[0] == s@[i as int]);
        if !flags[i] {
            return i;
        }
        proof {
            lemma_leading_skip(s@, pred, i as int);
        }
        i += 1;
    }
    i
}

/// The number of trailing characters that satisfy a test, given by its results.
fn count_trailing(s: &[char], flags: &Vec<bool>, Ghost(pred): Ghost<spec_fn(char) -> bool>) -> (r: usize)
    requires
        flags@.len() == s@.len(),
        forall|k: int| 0 <= k < s@.len() ==> flags@[k] == pred(#[trigger] s@[k]),
    ensures
        r as nat == trailing_count(s@, pred),
{
    let mut j: usize = s.len();
    assert(s@.take(s@.len() as int) =~= s@);
    while j > 0
        invariant
            j <= s@.len(),
            flags@.len() == s@.len(),
            forall|k: int| 0 <= k < s@.len() ==> flags@[k] == pred(#[trigger] s@[k]),
            trailing_count(s@, pred) == (s@.len() - j) + trailing_count(s@.take(j as int), pred),
        decreases j,
    {
        assert(s@.take(j as int).last() == s@[j - 1]);
        if !flags[j - 1] {
            return s.len() - j;
        }
        proof {
            lemma_trailing_take(s@, pred, j as int);
        }
        j -= 1;
    }
    s.len()
}

/// `s` without the leading and trailing characters whose flags are set.
fn trim_flagged(s: &[char], flags: &Vec<bool>, Ghost(pred): Ghost<spec_fn(char) -> bool>) -> (r: Vec<char>)
    requires
        flags@.len() == s@.len(),
        forall|k: int| 0 <= k < s@.len() ==> flags@[k] == pred(#[trigger] s@[k]),
    ensures
        r@ == trim_by(s@, pred),
{
    let a = count_leading(s, flags, Ghost(pred));
    if a >= s.len() {
        let v: Vec<char> = Vec::new();
        assert(v@ =~= Seq::<char>::empty());
        return v;
    }
    let b = count_trailing(s, flags, Ghost(pred));
    proof {
        lemma_leading_bound(s@, pred);
        lemma_trailing_bound(s@, pred);
        if a + b >= s@.len() {
            assert(pred(s@[a as int]));
            assert(false);
        }
    }
    let mut out: Vec<char> = Vec::new();
    let mut i: usize = a;
    while i < s.len() - b
        invariant
            a <= i <= s@.len() - b,
            a + b < s@.len(),
            out@ =~= s@.subrange(a as int, i as int),
        decreases s@.len() - b - i,
    {
        out.push(s[i]);
        i += 1;
    }
    out
}

/// Whether a name, before its first dot and in ASCII uppercase, is a reserved device name.
pub fn is_reserved_windows_name(value: &str) -> (r: bool)
    ensures
        r == is_reserved_windows_name_spec(value@),
{
    let chars = str_chars(value);
    let upper = ascii_upper_chars(chars.as_slice());
    let mut flags: Vec<bool> = Vec::new();
    let mut i: usize = 0;
    while i < upper.len()
        invariant
            i <= upper@.len(),
            flags@.len() == i,
            forall|k: int| 0 <= k < i ==> flags@[k] == (|c: char| c != '.')(#[trigger] upper@[k]),
        decreases upper@.len() - i,
    {
        flags.push(upper[i] != '.');
        i += 1;
    }
    let n = count_leading(upper.as_slice(), &flags, Ghost(|c: char| c != '.'));
    proof {
        lemma_leading_bound(upper@, |c: char| c != '.');
    }
    let mut segment: Vec<char> = Vec::new();
    let mut j: usize = 0;
    while j < n
        invariant
            j <= n <= upper@.len(),
            segment@ =~= upper@.take(j as int),
        decreases n - j,
    {
        segment.push(upper[j]);
        j += 1;
    }
    let names: [&str; 22] = [
        "CON", "PRN", "AUX", "NUL", "COM1", "COM2", "COM3", "COM4", "COM5", "COM6", "COM7", "COM8", "COM9",
        "LPT1", "LPT2", "LPT3", "LPT4", "LPT5", "LPT6", "LPT7", "LPT8", "LPT9",
    ];
    assert(names@ =~= reserved_names());
    in_words(segment.as_slice(), names.as_slice())
}

/// Makes a text safe as a Windows file name: forbidden characters become `_`,
/// spaces and dots are trimmed from both ends, then whitespace; an empty
/// result becomes `Anime`, and a reserved device name gets a trailing `_`.
pub fn sanitize_windows_file_name(input: &str) -> (r: String)
    ensures
        r@ == sanitize_spec(input@),
{
    let chars = str_chars(input);
    let mut replaced: Vec<char> = Vec::new();
    let mut i: usize = 0;
    while i < chars.len()
        invariant
            i <= chars@.len(),
            replaced@ =~= Seq::new(i as nat, |k: int| sanitize_char(chars@[k])),
        decreases chars@.len() - i,
    {
        let c = chars[i];
        let d = if c == '<' || c == '>' || c == ':' || c == '"' || c == '/' || c == '\\' || c == '|' || c == '?' || c == '*' {
            '_'
        } else {
            c
        };
        replaced.push(d);
        i += 1;
    }
    let ghost dots = |c: char| is_space_or_dot(c);
    let mut flags: Vec<bool> = Vec::new();
    let mut k: usize = 0;
    while k < replaced.len()
        invariant
            k <= replaced@.len(),
            flags@.len() == k,
            dots == (|c: char| is_space_or_dot(c)),
            forall|q: int| 0 <= q < k ==> flags@[q] == dots(#[trigger] replaced@[q]),
        decreases replaced@.len() - k,
    {
        let c = replaced[k];
        flags.push(c == ' ' || c == '.');
        k += 1;
    }
    let first = trim_flagged(replaced.as_slice(), &flags, Ghost(dots));
    let ghost spaces = |c: char| char_is_whitespace(c);
    let mut flags2: Vec<bool> = Vec::new();
    let mut k: usize = 0;
    while k < first.len()
        invariant
            k <= first@.len(),
            flags2@.len() == k,
            spaces == (|c: char| char_is_whitespace(c)),
            forall|q: int| 0 <= q < k ==> flags2@[q] == spaces(#[trigger] first@[q]),
        decreases first@.len() - k,
    {
        flags2.push(is_whitespace(first[k]));
        k += 1;
    }
    let trimmed = trim_flagged(first.as_slice(), &flags2, Ghost(spaces));
    let mut fallback = if trimmed.len() == 0 { str_chars("Anime") } else { trimmed };
    let text = chars_to_string(fallback.as_slice());
    if is_reserved_windows_name(text.as_str()) {
        fallback.push('_');
    }
    chars_to_string(fallback.as_slice())
}

/// Whether `p` is among the paths known to exist (paths compared as std compares them).
pub open spec fn contains_path(existing: Seq<MediaPath>, p: Seq<ComponentV>) -> bool {
    exists|i: int| 0 <= i < existing.len() && crate::path::same_path((#[trigger] existing[i])@, p)
}

/// The project folder name: the sanitized `"{project} {season}"`.
pub open spec fn project_folder_name(project_name: Seq<char>, season: Seq<char>) -> Seq<char> {
    sanitize_spec(project_name + seq![' '] + season)
}

/// The project's output directory: the base directory itself when its last
/// component already is the project folder (ignoring ASCII case), the
/// project folder inside it otherwise.
pub open spec fn project_output_dir_spec(base: Seq<ComponentV>, project_name: Seq<char>, season: Seq<char>) -> Seq<ComponentV> {
    let folder = project_folder_name(project_name, season);
    if base.len() > 0 && base.last() is Name && ascii_lower_seq(component_text(base.last())) == ascii_lower_seq(folder) {
        base
    } else {
        base.push(ComponentV::Name(folder))
    }
}

/// The destination of an episode's video: `videos/{project} {episode}.{ext}`.
pub open spec fn video_destination_spec(m: EpisodeMatchV, out: Seq<ComponentV>, project_name: Seq<char>) -> Option<Seq<ComponentV>> {
    match m.video {
        Some(v) => Some(out.push(ComponentV::Name("videos"@)).push(
            ComponentV::Name(project_name + " "@ + m.episode_key + "."@ + v.extension),
        )),
        None => None,
    }
}

/// The destination of a subtitle: `subs/{lang}/{project} {episode}.{lang}.{ext}`.
pub open spec fn subtitle_destination_spec(
    subtitle: Option<SubtitleCandidateV>,
    out: Seq<ComponentV>,
    project_name: Seq<char>,
    episode_key: Seq<char>,
) -> Option<Seq<ComponentV>> {
    match subtitle {
        Some(c) => {
            let lang = language_tag(c.language);
            Some(out.push(ComponentV::Name("subs"@)).push(ComponentV::Name(lang)).push(
                ComponentV::Name(project_name + " "@ + episode_key + "."@ + lang + "."@ + c.extension),
            ))
        },
        None => None,
    }
}

/// A file to move into the project, before collisions are known.
pub struct TargetV {
    pub source: Seq<ComponentV>,
    pub destination: Seq<ComponentV>,
    pub kind: FileOperationKind,
    pub episode_key: Seq<char>,
    pub language: Option<LanguageCode>,
    pub role: Option<SubtitleRole>,
}

/// The files of one episode: its video, then its primary and secondary subtitles.
pub open spec fn match_targets(m: EpisodeMatchV, out: Seq<ComponentV>, project_name: Seq<char>) -> Seq<TargetV> {
    let key = m.episode_key;
    let video = match (m.video, video_destination_spec(m, out, project_name)) {
        (Some(v), Some(d)) => seq![TargetV { source: v.path, destination: d, kind: FileOperationKind::Video, episode_key: key, language: None, role: None }],
        _ => Seq::empty(),
    };
    let primary = match (m.primary_subtitle, subtitle_destination_spec(m.primary_subtitle, out, project_name, key)) {
        (Some(c), Some(d)) => seq![TargetV {
            source: c.path,
            destination: d,
            kind: FileOperationKind::Subtitle,
            episode_key: key,
            language: Some(c.language),
            role: Some(SubtitleRole::Primary),
        }],
        _ => Seq::empty(),
    };
    let secondary = match (m.secondary_subtitle, subtitle_destination_spec(m.secondary_subtitle, out, project_name, key)) {
        (Some(c), Some(d)) => seq![TargetV {
            source: c.path,
            destination: d,
            kind: FileOperationKind::Subtitle,
            episode_key: key,
            language: Some(c.language),
            role: Some(SubtitleRole::Secondary),
        }],
        _ => Seq::empty(),
    };
    video + primary + secondary
}

/// The files of all episodes, episode after episode.
pub open spec fn all_targets(ms: Seq<EpisodeMatchV>, out: Seq<ComponentV>, project_name: Seq<char>) -> Seq<TargetV>
    decreases ms.len(),
{
    if ms.len() == 0 {
        Seq::empty()
    } else {
        all_targets(ms.drop_last(), out, project_name) + match_targets(ms.last(), out, project_name)
    }
}

/// The planned operation for a target: skip on collision, not yet done.
pub open spec fn plan_item_spec(t: TargetV, existing: Seq<MediaPath>) -> PlanItemV {
    PlanItemV {
        source: t.source,
        destination: t.destination,
        kind: t.kind,
        episode_key: t.episode_key,
        language: t.language,
        role: t.role,
        collision: contains_path(existing, t.destination),
        collision_action: CollisionAction::Skip,
        status: FileOperationStatus::Planned,
        message: None,
    }
}

pub open spec fn plan_items_spec(ts: Seq<TargetV>, existing: Seq<MediaPath>) -> Seq<PlanItemV> {
    Seq::new(ts.len(), |i: int| plan_item_spec(ts[i], existing))
}

/// A destination relative to the output directory.
pub open spec fn relative_spec(out: Seq<ComponentV>, p: Option<Seq<ComponentV>>) -> Option<Seq<ComponentV>> {
    match p {
        Some(q) => strip_prefix_spec(out, q),
        None => None,
    }
}

/// The project map's record of one episode.
pub open spec fn map_episode_spec(m: EpisodeMatchV, out: Seq<ComponentV>, project_name: Seq<char>) -> MapEpisodeV {
    MapEpisodeV {
        episode_key: m.episode_key,
        video: relative_spec(out, video_destination_spec(m, out, project_name)),
        primary_subtitle: relative_spec(out, subtitle_destination_spec(m.primary_subtitle, out, project_name, m.episode_key)),
        secondary_subtitle: relative_spec(out, subtitle_destination_spec(m.secondary_subtitle, out, project_name, m.episode_key)),
        additional_subtitles: Seq::empty(),
    }
}

/// The number of planned operations that collide with an existing file.
pub open spec fn count_collisions(items: Seq<PlanItemV>) -> nat
    decreases items.len(),
{
    if items.len() == 0 {
        0
    } else {
        count_collisions(items.drop_last()) + if items.last().collision { 1nat } else { 0nat }
    }
}

/// The number of planned operations of one kind.
pub open spec fn count_kind(items: Seq<PlanItemV>, kind: FileOperationKind) -> nat
    decreases items.len(),
{
    if items.len() == 0 {
        0
    } else {
        count_kind(items.drop_last(), kind) + if items.last().kind == kind { 1nat } else { 0nat }
    }
}

/// The file name of the project map.
pub open spec fn map_file_name() -> Seq<char> {
    "anime-sub-map.json"@
}

/// The project's output directory.
pub fn project_output_dir(base_output_dir: &MediaPath, project_name: &str, season: &str) -> (r: MediaPath)
    ensures
        r@ == project_output_dir_spec(base_output_dir@, project_name@, season@),
{
    let mut text: Vec<char> = str_chars(project_name);
    text.push(' ');
    let s = str_chars(season);
    push_chars(&mut text, s.as_slice());
    let joined = chars_to_string(text.as_slice());
    assert(text@ =~= project_name@ + seq![' '] + season@);
    let folder = sanitize_windows_file_name(joined.as_str());
    let folder_chars = string_chars(&folder);
    match base_output_dir.file_name_chars() {
        Some(name) => {
            let n = base_output_dir.parts.len();
            proof {
                assert(base_output_dir@.last() == base_output_dir.parts@[n - 1]@);
            }
            if eq_ignore_ascii_case(name.as_slice(), folder_chars.as_slice()) {
                return copy_path(base_output_dir);
            }
        },
        None => {
            proof {
                if base_output_dir@.len() > 0 {
                    assert(base_output_dir@.last() == base_output_dir.parts@.last()@);
                }
            }
        },
    }
    base_output_dir.join_name(folder_chars.as_slice())
}

/// `"{project} {episode}.{tail}"`.
fn episode_file_name(project_name: &[char], episode_key: &[char], tail: &[char]) -> (r: Vec<char>)
    ensures
        r@ == project_name@ + " "@ + episode_key@ + "."@ + tail@,
{
    let mut v = crate::text::to_vec(project_name);
    push_lit(&mut v, " ");
    push_chars(&mut v, episode_key);
    push_lit(&mut v, ".");
    push_chars(&mut v, tail);
    v
}

/// Where an episode's video goes in the project.
fn video_destination(m: &EpisodeMatch, output_dir: &MediaPath, project_name: &[char]) -> (r: Option<MediaPath>)
    ensures
        opt_path(r) == video_destination_spec(m@, output_dir@, project_name@),
{
    match &m.video {
        Some(video) => {
            let key = string_chars(&m.episode_key);
            let ext = string_chars(&video.extension);
            let name = episode_file_name(project_name, key.as_slice(), ext.as_slice());
            let videos = str_chars("videos");
            let dir = output_dir.join_name(videos.as_slice());
            Some(dir.join_name(name.as_slice()))
        },
        None => None,
    }
}

/// Where a subtitle goes in the project, by its language.
pub fn subtitle_destination(
    subtitle: &Option<SubtitleCandidate>,
    output_dir: &MediaPath,
    project_name: &str,
    episode_key: &str,
    role: SubtitleRole,
) -> (r: Option<MediaPath>)
    ensures
        opt_path(r) == subtitle_destination_spec(crate::domain::opt_candidate(*subtitle), output_dir@, project_name@, episode_key@),
{
    match subtitle {
        Some(selected) => {
            let lang = str_chars(selected.language.as_str());
            let mut tail = crate::text::to_vec(lang.as_slice());
            push_lit(&mut tail, ".");
            let ext = string_chars(&selected.extension);
            push_chars(&mut tail, ext.as_slice());
            let p = str_chars(project_name);
            let k = str_chars(episode_key);
            let name = episode_file_name(p.as_slice(), k.as_slice(), tail.as_slice());
            assert(name@ =~= project_name@ + " "@ + episode_key@ + "."@ + lang@ + "."@ + selected.extension@);
            let subs = str_chars("subs");
            let dir = output_dir.join_name(subs.as_slice()).join_name(lang.as_slice());
            Some(dir.join_name(name.as_slice()))
        },
        None => None,
    }
}

/// Whether `p` is among the paths known to exist.
pub fn path_exists_in(existing: &Vec<MediaPath>, p: &MediaPath) -> (r: bool)
    ensures
        r == contains_path(existing@, p@),
{
    let mut i: usize = 0;
    while i < existing.len()
        invariant
            i <= existing@.len(),
            forall|k: int| 0 <= k < i ==> !crate::path::same_path((#[trigger] existing@[k])@, p@),
        decreases existing@.len() - i,
    {
        if path_equal(&existing[i], p) {
            return true;
        }
        i += 1;
    }
    false
}

/// The planned operation for one file: skip on collision, not yet done.
pub fn plan_item(
    source: &MediaPath,
    destination: MediaPath,
    kind: FileOperationKind,
    episode_key: &str,
    language: Option<LanguageCode>,
    role: Option<SubtitleRole>,
    existing: &Vec<MediaPath>,
) -> (r: OrganizePlanItem)
    ensures
        r@ == plan_item_spec(
            TargetV { source: source@, destination: destination@, kind, episode_key: episode_key@, language, role },
            existing@,
        ),
{
    let collision = path_exists_in(existing, &destination);
    let key = str_chars(episode_key);
    OrganizePlanItem {
        source: copy_path(source),
        destination,
        kind,
        episode_key: chars_to_string(key.as_slice()),
        language,
        role,
        collision,
        collision_action: CollisionAction::Skip,
        status: FileOperationStatus::Planned,
        message: None,
    }
}

/// A destination relative to the output directory.
pub fn relative_to_output(output_dir: &MediaPath, path: &MediaPath) -> (r: Option<MediaPath>)
    ensures
        opt_path(r) == strip_prefix_spec(output_dir@, path@),
{
    strip_prefix(output_dir, path)
}

fn relative_opt(output_dir: &MediaPath, path: &Option<MediaPath>) -> (r: Option<MediaPath>)
    ensures
        opt_path(r) == relative_spec(output_dir@, opt_path(*path)),
{
    match path {
        Some(p) => relative_to_output(output_dir, p),
        None => None,
    }
}

/// Appends the planned operations of one episode and returns its map record.
pub fn add_match_items(
    episode_match: &EpisodeMatch,
    output_dir: &MediaPath,
    project_name: &str,
    items: &mut Vec<OrganizePlanItem>,
    existing: &Vec<MediaPath>,
) -> (r: AnimeSubMapEpisode)
    ensures
        views(final(items)@) == views(old(items)@) + plan_items_spec(match_targets(episode_match@, output_dir@, project_name@), existing@),
        r@ == map_episode_spec(episode_match@, output_dir@, project_name@),
{
    let ghost m = episode_match@;
    let ghost start = views(items@);
    let key = episode_match.episode_key.as_str();
    let p = str_chars(project_name);
    let video_dest = video_destination(episode_match, output_dir, p.as_slice());
    let ghost vt: Seq<TargetV> = match (m.video, video_destination_spec(m, output_dir@, project_name@)) {
        (Some(v), Some(d)) => seq![TargetV { source: v.path, destination: d, kind: FileOperationKind::Video, episode_key: m.episode_key, language: None, role: None }],
        _ => Seq::empty(),
    };
    match (&episode_match.video, &video_dest) {
        (Some(video), Some(dest)) => {
            let item = plan_item(&video.path, copy_path(dest), FileOperationKind::Video, key, None, None, existing);
            items.push(item);
        },
        _ => {},
    }
    assert(views(items@) =~= start + plan_items_spec(vt, existing@));
    let primary_dest = subtitle_destination(&episode_match.primary_subtitle, output_dir, project_name, key, SubtitleRole::Primary);
    let secondary_dest = subtitle_destination(&episode_match.secondary_subtitle, output_dir, project_name, key, SubtitleRole::Secondary);
    let ghost pt: Seq<TargetV> = match (m.primary_subtitle, subtitle_destination_spec(m.primary_subtitle, output_dir@, project_name@, m.episode_key)) {
        (Some(c), Some(d)) => seq![TargetV {
            source: c.path,
            destination: d,
            kind: FileOperationKind::Subtitle,
            episode_key: m.episode_key,
            language: Some(c.language),
            role: Some(SubtitleRole::Primary),
        }],
        _ => Seq::empty(),
    };
    let ghost after_video = views(items@);
    match (&episode_match.primary_subtitle, &primary_dest) {
        (Some(subtitle), Some(dest)) => {
            let item = plan_item(&subtitle.path, copy_path(dest), FileOperationKind::Subtitle, key, Some(subtitle.language), Some(SubtitleRole::Primary), existing);
            items.push(item);
        },
        _ => {},
    }
    assert(views(items@) =~= after_video + plan_items_spec(pt, existing@));
    let ghost st: Seq<TargetV> = match (m.secondary_subtitle, subtitle_destination_spec(m.secondary_subtitle, output_dir@, project_name@, m.episode_key)) {
        (Some(c), Some(d)) => seq![TargetV {
            source: c.path,
            destination: d,
            kind: FileOperationKind::Subtitle,
            episode_key: m.episode_key,
            language: Some(c.language),
            role: Some(SubtitleRole::Secondary),
        }],
        _ => Seq::empty(),
    };
    let ghost after_primary = views(items@);
    match (&episode_match.secondary_subtitle, &secondary_dest) {
        (Some(subtitle), Some(dest)) => {
            let item = plan_item(&subtitle.path, copy_path(dest), FileOperationKind::Subtitle, key, Some(subtitle.language), Some(SubtitleRole::Secondary), existing);
            items.push(item);
        },
        _ => {},
    }
    assert(views(items@) =~= after_primary + plan_items_spec(st, existing@));
    assert(match_targets(m, output_dir@, project_name@) == vt + pt + st);
    assert(plan_items_spec(vt + pt + st, existing@) =~= plan_items_spec(vt, existing@) + plan_items_spec(pt, existing@) + plan_items_spec(st, existing@));
    let r = AnimeSubMapEpisode {
        episode_key: episode_match.episode_key.clone(),
        video: relative_opt(output_dir, &video_dest),
        primary_subtitle: relative_opt(output_dir, &primary_dest),
        secondary_subtitle: relative_opt(output_dir, &secondary_dest),
        additional_subtitles: Vec::new(),
    };
    assert(r@.additional_subtitles =~= Seq::<Seq<ComponentV>>::empty());
    r
}

/// Why no plan could be built.
#[derive(Debug, Clone, Copy, PartialEq, Eq, Structural)]
pub enum OrganizeError {
    /// No episode had a file to organize.
    EmptyOrganizePlan,
}

/// The version the project map records.
pub open spec fn app_version() -> Seq<char> {
    "0.1.0"@
}

/// The directory the project is organized into, for a request.
pub open spec fn request_output_dir(request: BuildOrganizePlanRequest) -> Seq<ComponentV> {
    project_output_dir_spec(request.output_dir@, sanitize_spec(request.project_name@), request.season@)
}

/// The files a request organizes.
pub open spec fn request_targets(request: BuildOrganizePlanRequest) -> Seq<TargetV> {
    all_targets(views(request.matches@), request_output_dir(request), sanitize_spec(request.project_name@))
}

/// The path of the project map, for a request.
pub open spec fn request_map_path(request: BuildOrganizePlanRequest) -> Seq<ComponentV> {
    request_output_dir(request).push(ComponentV::Name(map_file_name()))
}

/// Collects the planned operations and map records of all episodes.
fn collect_items(
    matches: &Vec<EpisodeMatch>,
    output_dir: &MediaPath,
    project_name: &str,
    existing: &Vec<MediaPath>,
) -> (r: (Vec<OrganizePlanItem>, Vec<AnimeSubMapEpisode>))
    ensures
        views(r.0@) == plan_items_spec(all_targets(views(matches@), output_dir@, project_name@), existing@),
        views(r.1@) == Seq::new(matches@.len(), |i: int| map_episode_spec(matches@[i]@, output_dir@, project_name@)),
{
    let ghost ms = views(matches@);
    let mut items: Vec<OrganizePlanItem> = Vec::new();
    let mut episodes: Vec<AnimeSubMapEpisode> = Vec::new();
    let mut i: usize = 0;
    assert(ms.subrange(0, 0) =~= Seq::<EpisodeMatchV>::empty());
    assert(views(items@) =~= plan_items_spec(Seq::<TargetV>::empty(), existing@));
    while i < matches.len()
        invariant
            i <= matches@.len(),
            ms == views(matches@),
            views(items@) == plan_items_spec(all_targets(ms.subrange(0, i as int), output_dir@, project_name@), existing@),
            episodes@.len() == i,
            forall|k: int| 0 <= k < i ==> (#[trigger] episodes@[k])@ == map_episode_spec(matches@[k]@, output_dir@, project_name@),
        decreases matches@.len() - i,
    {
        let ghost before = all_targets(ms.subrange(0, i as int), output_dir@, project_name@);
        let e = add_match_items(&matches[i], output_dir, project_name, &mut items, existing);
        episodes.push(e);
        proof {
            let t = ms.subrange(0, i + 1);
            assert(t.drop_last() =~= ms.subrange(0, i as int));
            assert(t.last() == matches@[i as int]@);
            let mt = match_targets(matches@[i as int]@, output_dir@, project_name@);
            assert(plan_items_spec(before + mt, existing@) =~= plan_items_spec(before, existing@) + plan_items_spec(mt, existing@));
        }
        i += 1;
    }
    assert(ms.subrange(0, ms.len() as int) =~= ms);
    assert(views(episodes@) =~= Seq::new(matches@.len(), |i: int| map_episode_spec(matches@[i]@, output_dir@, project_name@)));
    (items, episodes)
}

/// Counts the collisions and the operations of each kind.
fn summarize(items: &Vec<OrganizePlanItem>) -> (r: OrganizePlanSummary)
    ensures
        r.conflicts as nat == count_collisions(views(items@)),
        r.videos as nat == count_kind(views(items@), FileOperationKind::Video),
        r.subtitles as nat == count_kind(views(items@), FileOperationKind::Subtitle),
{
    let ghost iv = views(items@);
    let mut conflicts: usize = 0;
    let mut videos: usize = 0;
    let mut subtitles: usize = 0;
    let mut i: usize = 0;
    while i < items.len()
        invariant
            i <= items@.len(),
            iv == views(items@),
            conflicts as nat == count_collisions(iv.subrange(0, i as int)),
            videos as nat == count_kind(iv.subrange(0, i as int), FileOperationKind::Video),
            subtitles as nat == count_kind(iv.subrange(0, i as int), FileOperationKind::Subtitle),
            conflicts <= i,
            videos + subtitles <= i,
        decreases items@.len() - i,
    {
        proof {
            let t = iv.subrange(0, i + 1);
            assert(t.drop_last() =~= iv.subrange(0, i as int));
            assert(t.last() == items@[i as int]@);
        }
        if items[i].collision {
            conflicts += 1;
        }
        match items[i].kind {
            FileOperationKind::Video => { videos += 1; },
            FileOperationKind::Subtitle => { subtitles += 1; },
        }
        i += 1;
    }
    assert(iv.subrange(0, iv.len() as int) =~= iv);
    OrganizePlanSummary { videos, subtitles, conflicts }
}

/// The paths whose existence a plan depends on: every destination, then the
/// project map.
pub fn plan_paths(request: &BuildOrganizePlanRequest) -> (r: Vec<MediaPath>)
    ensures
        views(r@) == Seq::new(request_targets(*request).len(), |i: int| request_targets(*request)[i].destination)
            .push(request_map_path(*request)),
{
    let safe_project_name = sanitize_windows_file_name(request.project_name.as_str());
    let output_dir = project_output_dir(&request.output_dir, safe_project_name.as_str(), request.season.as_str());
    let none: Vec<MediaPath> = Vec::new();
    let (items, _) = collect_items(&request.matches, &output_dir, safe_project_name.as_str(), &none);
    let ghost ts = request_targets(*request);
    assert(views(items@) == plan_items_spec(ts, none@));
    assert(views(items@).len() == ts.len());
    let mut out: Vec<MediaPath> = Vec::new();
    let mut i: usize = 0;
    while i < items.len()
        invariant
            i <= items@.len(),
            items@.len() == ts.len(),
            views(items@) == plan_items_spec(ts, none@),
            out@.len() == i,
            forall|k: int| 0 <= k < i ==> (#[trigger] out@[k])@ == ts[k].destination,
        decreases items@.len() - i,
    {
        assert(views(items@)[i as int] == items@[i as int]@);
        assert(plan_items_spec(ts, none@)[i as int] == plan_item_spec(ts[i as int], none@));
        out.push(copy_path(&items[i].destination));
        i += 1;
    }
    let name = str_chars("anime-sub-map.json");
    out.push(output_dir.join_name(name.as_slice()));
    assert(views(out@) =~= Seq::new(ts.len(), |i: int| ts[i].destination).push(request_map_path(*request)));
    out
}

/// Plans the organization of matched episodes into the project's output
/// directory: one operation per file, each marked as a collision when its
/// destination is among `existing`, and the project map.
pub fn build_plan(request: BuildOrganizePlanRequest, existing: &Vec<MediaPath>) -> (r: Result<OrganizePlan, OrganizeError>)
    ensures
        match r {
            Err(e) => e == OrganizeError::EmptyOrganizePlan && request_targets(request).len() == 0,
            Ok(plan) => {
                let items = plan_items_spec(request_targets(request), existing@);
                &&& request_targets(request).len() > 0
                &&& plan.project_name@ == request.project_name@
                &&& plan.season@ == request.season@
                &&& plan.output_dir@ == request_output_dir(request)
                &&& plan.mode == request.mode
                &&& views(plan.items@) == items
                &&& plan.has_conflicts == (count_collisions(items) > 0)
                &&& plan.map_file_path@ == request_map_path(request)
                &&& plan.map_file_exists == contains_path(existing@, request_map_path(request))
                &&& plan.summary.videos as nat == count_kind(items, FileOperationKind::Video)
                &&& plan.summary.subtitles as nat == count_kind(items, FileOperationKind::Subtitle)
                &&& plan.summary.conflicts as nat == count_collisions(items)
                &&& plan.project_map.app_version@ == app_version()
                &&& plan.project_map.project_name@ == request.project_name@
                &&& plan.project_map.season@ == request.season@
                &&& plan.project_map.output_dir@ == request_output_dir(request)
                &&& plan.project_map.primary_language == request.primary_language
                &&& plan.project_map.secondary_language == request.secondary_language
                &&& views(plan.project_map.episodes@) == Seq::new(request.matches@.len(),
                    |i: int| map_episode_spec(request.matches@[i]@, request_output_dir(request), sanitize_spec(request.project_name@)))
            },
        },
{
    let safe_project_name = sanitize_windows_file_name(request.project_name.as_str());
    let output_dir = project_output_dir(&request.output_dir, safe_project_name.as_str(), request.season.as_str());
    let (items, episodes) = collect_items(&request.matches, &output_dir, safe_project_name.as_str(), existing);
    assert(views(items@) == plan_items_spec(request_targets(request), existing@));
    assert(views(items@).len() == request_targets(request).len());
    if items.len() == 0 {
        return Err(OrganizeError::EmptyOrganizePlan);
    }
    let summary = summarize(&items);
    let name = str_chars("anime-sub-map.json");
    let map_file_path = output_dir.join_name(name.as_slice());
    let map_file_exists = path_exists_in(existing, &map_file_path);
    let version = str_chars("0.1.0");
    let project_map = AnimeSubMap {
        app_version: chars_to_string(version.as_slice()),
        project_name: request.project_name.clone(),
        season: request.season.clone(),
        output_dir: copy_path(&output_dir),
        primary_language: request.primary_language,
        secondary_language: request.secondary_language,
        episodes,
    };
    Ok(OrganizePlan {
        project_name: request.project_name,
        season: request.season,
        output_dir,
        mode: request.mode,
        items,
        has_conflicts: summary.conflicts > 0,
        map_file_path,
        map_file_exists,
        summary,
        project_map,
    })
}

/// The file name of a path's view: its last component when that is a name.
pub open spec fn view_file_name(v: Seq<ComponentV>) -> Option<Seq<char>> {
    if v.len() > 0 && v.last() is Name {
        Some(component_text(v.last()))
    } else {
        None
    }
}

/// A path's parent, or the empty path when it has none.
pub open spec fn parent_or_empty(v: Seq<ComponentV>) -> Seq<ComponentV> {
    if v.len() > 0 && !(v.last() is Root) && !(v.last() is Prefix) {
        v.drop_last()
    } else {
        Seq::empty()
    }
}

/// A path's file stem, or `file` when it has none.
pub open spec fn stem_or_file(v: Seq<ComponentV>) -> Seq<char> {
    match view_file_name(v) {
        Some(n) => crate::path::stem_of(n),
        None => "file"@,
    }
}

/// A path's extension, if it has one.
pub open spec fn view_extension(v: Seq<ComponentV>) -> Option<Seq<char>> {
    match view_file_name(v) {
        Some(n) => crate::path::extension_of(n),
        None => None,
    }
}

/// The `index`-th renamed path: `{stem} ({index}).{ext}` beside the original.
pub open spec fn rename_candidate_spec(path: Seq<ComponentV>, index: nat) -> Seq<ComponentV> {
    let base = stem_or_file(path) + " ("@ + crate::text::decimal(index) + ")"@;
    let name = match view_extension(path) {
        Some(e) => base + "."@ + e,
        None => base,
    };
    parent_or_empty(path).push(ComponentV::Name(name))
}

/// The last resort: `{stem} (renamed)` beside the original.
pub open spec fn renamed_fallback_spec(path: Seq<ComponentV>) -> Seq<ComponentV> {
    parent_or_empty(path).push(ComponentV::Name(stem_or_file(path) + " (renamed)"@))
}

/// The first renamed path from the `index`-th on that does not exist.
pub open spec fn first_free_from(path: Seq<ComponentV>, existing: Seq<MediaPath>, index: nat) -> Seq<ComponentV>
    decreases 1000 - index,
{
    if index > 999 {
        renamed_fallback_spec(path)
    } else if !contains_path(existing, rename_candidate_spec(path, index)) {
        rename_candidate_spec(path, index)
    } else {
        first_free_from(path, existing, index + 1)
    }
}

/// The path itself when it does not exist, else the first of its renamed
/// forms 1 to 999 that does not, else the fallback name.
pub open spec fn next_available_spec(path: Seq<ComponentV>, existing: Seq<MediaPath>) -> Seq<ComponentV> {
    if !contains_path(existing, path) {
        path
    } else {
        first_free_from(path, existing, 1)
    }
}

fn parent_path(path: &MediaPath) -> (r: MediaPath)
    ensures
        r@ == parent_or_empty(path@),
{
    let n = path.parts.len();
    if n > 0 {
        assert(path@.last() == path.parts@[n - 1]@);
        match &path.parts[n - 1] {
            crate::path::PathPart::Root => {},
            crate::path::PathPart::Prefix(..) => {},
            _ => {
                let mut parts: Vec<crate::path::PathPart> = Vec::new();
                let mut i: usize = 0;
                while i < n - 1
                    invariant
                        n == path@.len(),
                        i <= n - 1,
                        parts@.len() == i,
                        forall|k: int| 0 <= k < i ==> (#[trigger] parts@[k])@ == path@[k],
                    decreases n - 1 - i,
                {
                    parts.push(crate::path::copy_part(&path.parts[i]));
                    i += 1;
                }
                let r = MediaPath { parts };
                assert(r@ =~= path@.drop_last());
                return r;
            },
        }
    }
    MediaPath::empty()
}

fn name_parts(path: &MediaPath) -> (r: (Vec<char>, Option<Vec<char>>))
    ensures
        r.0@ == stem_or_file(path@),
        match r.1 {
            Some(e) => view_extension(path@) == Some(e@),
            None => view_extension(path@) is None,
        },
{
    let n = path.parts.len();
    if n > 0 {
        assert(path@.last() == path.parts@[n - 1]@);
        match &path.parts[n - 1] {
            crate::path::PathPart::Name(s) => {
                let name = string_chars(s);
                return crate::path::split_at_last_dot(name.as_slice());
            },
            _ => {},
        }
    }
    (str_chars("file"), None)
}

/// The `index`-th renamed path: `{stem} ({index}).{ext}` beside the original.
pub fn rename_candidate(path: &MediaPath, index: u64) -> (r: MediaPath)
    ensures
        r@ == rename_candidate_spec(path@, index as nat),
{
    let (stem, ext) = name_parts(path);
    let mut name = stem;
    push_lit(&mut name, " (");
    let digits = crate::text::decimal_chars(index);
    push_chars(&mut name, digits.as_slice());
    push_lit(&mut name, ")");
    match ext {
        Some(e) => {
            push_lit(&mut name, ".");
            push_chars(&mut name, e.as_slice());
        },
        None => {},
    }
    let parent = parent_path(path);
    parent.join_name(name.as_slice())
}

/// The last resort: `{stem} (renamed)` beside the original.
pub fn renamed_fallback(path: &MediaPath) -> (r: MediaPath)
    ensures
        r@ == renamed_fallback_spec(path@),
{
    let (stem, _) = name_parts(path);
    let mut name = stem;
    push_lit(&mut name, " (renamed)");
    let parent = parent_path(path);
    parent.join_name(name.as_slice())
}

/// The path itself, then its renamed forms 1 to 999: the paths whose
/// existence decides where a renamed copy goes.
pub fn rename_candidates(path: &MediaPath) -> (r: Vec<MediaPath>)
    ensures
        r@.len() == 1000,
        r@[0]@ == path@,
        forall|i: int| 1 <= i < 1000 ==> (#[trigger] r@[i])@ == rename_candidate_spec(path@, i as nat),
{
    let mut out: Vec<MediaPath> = Vec::new();
    out.push(copy_path(path));
    let mut index: u64 = 1;
    while index <= 999
        invariant
            1 <= index <= 1000,
            out@.len() == index,
            out@[0]@ == path@,
            forall|i: int| 1 <= i < index ==> (#[trigger] out@[i])@ == rename_candidate_spec(path@, i as nat),
        decreases 1000 - index,
    {
        out.push(rename_candidate(path, index));
        index += 1;
    }
    out
}

/// Where a copy goes when its destination is taken: the path itself when it
/// is not among `existing`, else its first renamed form that is not.
pub fn next_available_path(path: &MediaPath, existing: &Vec<MediaPath>) -> (r: MediaPath)
    ensures
        r@ == next_available_spec(path@, existing@),
{
    if !path_exists_in(existing, path) {
        return copy_path(path);
    }
    let mut index: u64 = 1;
    while index <= 999
        invariant
            1 <= index <= 1000,
            contains_path(existing@, path@),
            first_free_from(path@, existing@, 1) == first_free_from(path@, existing@, index as nat),
        decreases 1000 - index,
    {
        let candidate = rename_candidate(path, index);
        if !path_exists_in(existing, &candidate) {
            return candidate;
        }
        index += 1;
    }
    renamed_fallback(path)
}

/// Whether an item is skipped without touching the disk: it collides and is
/// to be skipped on collision.
pub fn skipped_on_collision(item: &OrganizePlanItem) -> (r: bool)
    ensures
        r == (item.collision && item.collision_action == CollisionAction::Skip),
{
    item.collision && item.collision_action == CollisionAction::Skip
}

/// What executing an item does about its destination.
#[derive(Debug, Clone, Copy, PartialEq, Eq, Structural)]
pub enum DestinationStep {
    /// The destination is free: copy (or move) the file there.
    CopyThere,
    /// The destination exists and the item is skipped.
    SkipItem,
    /// The destination exists and is removed before the copy.
    ReplaceExisting,
    /// The destination exists and the copy goes to the next free renamed path.
    RenameCopy,
}

/// Decides, when an item is executed, what to do about its destination:
/// a free destination is used; an existing one is handled by the item's
/// collision action.
pub fn destination_step(item: &OrganizePlanItem, destination_exists: bool) -> (r: DestinationStep)
    ensures
        r == (if !destination_exists {
            DestinationStep::CopyThere
        } else {
            match item.collision_action {
                CollisionAction::Skip => DestinationStep::SkipItem,
                CollisionAction::Replace => DestinationStep::ReplaceExisting,
                CollisionAction::Rename => DestinationStep::RenameCopy,
            }
        }),
{
    if !destination_exists {
        return DestinationStep::CopyThere;
    }
    match item.collision_action {
        CollisionAction::Skip => DestinationStep::SkipItem,
        CollisionAction::Replace => DestinationStep::ReplaceExisting,
        CollisionAction::Rename => DestinationStep::RenameCopy,
    }
}

pub open spec fn skipped_message() -> Seq<char> {
    "目标文件已存在，已跳过。"@
}

/// Marks an item skipped because its destination exists.
pub fn mark_skipped(item: &mut OrganizePlanItem)
    ensures
        final(item)@ == (PlanItemV { status: FileOperationStatus::Skipped, message: Some(skipped_message()), ..old(item)@ }),
{
    let m = str_chars("目标文件已存在，已跳过。");
    item.status = FileOperationStatus::Skipped;
    item.message = Some(chars_to_string(m.as_slice()));
}

pub open spec fn done_status(mode: OrganizeMode) -> FileOperationStatus {
    match mode {
        OrganizeMode::Copy => FileOperationStatus::Copied,
        OrganizeMode::Move => FileOperationStatus::Moved,
    }
}

pub open spec fn done_message(mode: OrganizeMode) -> Seq<char> {
    match mode {
        OrganizeMode::Copy => "已复制。"@,
        OrganizeMode::Move => "已移动。"@,
    }
}

/// Marks an item done: copied or moved, by the mode.
pub fn mark_done(item: &mut OrganizePlanItem, mode: OrganizeMode)
    ensures
        final(item)@ == (PlanItemV { status: done_status(mode), message: Some(done_message(mode)), ..old(item)@ }),
{
    match mode {
        OrganizeMode::Copy => {
            let m = str_chars("已复制。");
            item.status = FileOperationStatus::Copied;
            item.message = Some(chars_to_string(m.as_slice()));
        },
        OrganizeMode::Move => {
            let m = str_chars("已移动。");
            item.status = FileOperationStatus::Moved;
            item.message = Some(chars_to_string(m.as_slice()));
        },
    }
}

/// The progress event that opens an execution.
pub fn start_event(total: usize) -> (r: OrganizeProgressEvent)
    ensures
        r.total == total,
        r.processed == 0,
        r.current_episode_key is None,
        r.current_destination is None,
        r.status == FileOperationStatus::Planned,
        r.message@ == "整理任务已开始。"@,
{
    let m = str_chars("整理任务已开始。");
    OrganizeProgressEvent {
        total,
        processed: 0,
        current_episode_key: None,
        current_destination: None,
        status: FileOperationStatus::Planned,
        message: chars_to_string(m.as_slice()),
    }
}

/// The progress event after one item: its episode, destination, status, and
/// its message or a generic one.
pub fn item_progress_event(total: usize, processed: usize, item: &OrganizePlanItem) -> (r: OrganizeProgressEvent)
    ensures
        r.total == total,
        r.processed == processed,
        opt_text(r.current_episode_key) == Some(item.episode_key@),
        opt_path(r.current_destination) == Some(item.destination@),
        r.status == item.status,
        r.message@ == (match item.message {
            Some(m) => m@,
            None => "文件处理完成。"@,
        }),
{
    let message = match &item.message {
        Some(m) => m.clone(),
        None => {
            let d = str_chars("文件处理完成。");
            chars_to_string(d.as_slice())
        },
    };
    OrganizeProgressEvent {
        total,
        processed,
        current_episode_key: Some(item.episode_key.clone()),
        current_destination: Some(copy_path(&item.destination)),
        status: item.status,
        message,
    }
}

/// The progress event once the project map is written.
pub fn map_written_event(total: usize, map_file_path: &MediaPath) -> (r: OrganizeProgressEvent)
    ensures
        r.total == total,
        r.processed == total,
        r.current_episode_key is None,
        opt_path(r.current_destination) == Some(map_file_path@),
        r.status == FileOperationStatus::Copied,
        r.message@ == "整理映射文件已写入。"@,
{
    let m = str_chars("整理映射文件已写入。");
    OrganizeProgressEvent {
        total,
        processed: total,
        current_episode_key: None,
        current_destination: Some(copy_path(map_file_path)),
        status: FileOperationStatus::Copied,
        message: chars_to_string(m.as_slice()),
    }
}

pub open spec fn completion_message_spec(mode: OrganizeMode) -> Seq<char> {
    match mode {
        OrganizeMode::Copy => "整理完成。原文件仍保留在原目录中。确认结果无误后，你可以手动删除原文件。"@,
        OrganizeMode::Move => "移动整理完成。请检查输出目录中的结果。"@,
    }
}

/// The closing message of an execution, by mode.
pub fn completion_message(mode: OrganizeMode) -> (r: String)
    ensures
        r@ == completion_message_spec(mode),
{
    let m = match mode {
        OrganizeMode::Copy => str_chars("整理完成。原文件仍保留在原目录中。确认结果无误后，你可以手动删除原文件。"),
        OrganizeMode::Move => str_chars("移动整理完成。请检查输出目录中的结果。"),
    };
    chars_to_string(m.as_slice())
}

} // verus!
