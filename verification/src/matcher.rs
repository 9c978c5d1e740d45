//! Matching scanned videos and subtitles by episode.

use vstd::prelude::*;
use crate::domain::{
    EpisodeKey, EpisodeMatch, EpisodeMatchV, LanguageCode, MatchStatus, ScanAndMatchResult, ScanResult,
    ScannedSubtitle, ScannedVideo, SubtitleCandidate, SubtitleCandidateV, SubtitleFileV, SubtitleRole, VideoV,
    copy_subtitle, copy_subtitle_candidate, copy_video, default_preference_spec, episode_key_lt,
    episode_key_text, views,
};
use crate::path::{copy_path, path_less, path_lt};
use crate::sort::{sort_by, stable_sort};
use crate::text::{eq_lit, str_chars, chars_to_string, string_chars};

verus! {

/// The position of a language in the preference list, or the list's length when absent.
pub open spec fn language_rank_spec(language: LanguageCode, preferences: Seq<LanguageCode>) -> nat
    decreases preferences.len(),
{
    if preferences.len() == 0 {
        0
    } else if preferences[0] == language {
        0
    } else {
        1 + language_rank_spec(language, preferences.drop_first())
    }
}

/// The rank of a subtitle format: ASS, SSA, SRT, VTT, then anything else.
pub open spec fn subtitle_format_rank_spec(extension: Seq<char>) -> nat {
    if extension == "ass"@ {
        0
    } else if extension == "ssa"@ {
        1
    } else if extension == "srt"@ {
        2
    } else if extension == "vtt"@ {
        3
    } else {
        4
    }
}

/// Videos of one episode are ranked by confidence, highest first, then by path.
pub open spec fn video_before(a: VideoV, b: VideoV) -> bool {
    a.confidence > b.confidence || (a.confidence == b.confidence && path_lt(a.path, b.path))
}

/// Subtitles of one language are ranked by format, then confidence (highest
/// first), then path.
pub open spec fn format_before(a: SubtitleCandidateV, b: SubtitleCandidateV) -> bool {
    let fa = subtitle_format_rank_spec(a.extension);
    let fb = subtitle_format_rank_spec(b.extension);
    fa < fb || (fa == fb && (a.confidence > b.confidence || (a.confidence == b.confidence && path_lt(a.path, b.path))))
}

/// All subtitles of one episode are ranked by language preference, then as
/// [`format_before`] ranks them.
pub open spec fn candidate_before(a: SubtitleCandidateV, b: SubtitleCandidateV, preferences: Seq<LanguageCode>) -> bool {
    let la = language_rank_spec(a.language, preferences);
    let lb = language_rank_spec(b.language, preferences);
    la < lb || (la == lb && format_before(a, b))
}

/// A scanned subtitle as a candidate of its episode.
pub open spec fn candidate_of(s: SubtitleFileV) -> SubtitleCandidateV {
    SubtitleCandidateV {
        path: s.path,
        file_name: s.file_name,
        extension: s.extension,
        language: s.language,
        confidence: s.confidence,
        role: SubtitleRole::Candidate,
    }
}

/// The ranked candidates of an episode's subtitles.
pub open spec fn ranked_candidates(subs: Seq<SubtitleFileV>, preferences: Seq<LanguageCode>) -> Seq<SubtitleCandidateV> {
    stable_sort(
        Seq::new(subs.len(), |i: int| candidate_of(subs[i])),
        |a: SubtitleCandidateV, b: SubtitleCandidateV| candidate_before(a, b, preferences),
    )
}

/// Whether two candidates share a language.
pub open spec fn has_duplicate_language_spec(c: Seq<SubtitleCandidateV>) -> bool {
    exists|i: int, j: int| 0 <= i < j < c.len() && (#[trigger] c[i]).language == (#[trigger] c[j]).language
}

/// The best candidate of a language, given the role it is chosen for.
pub open spec fn best_for_language_spec(c: Seq<SubtitleCandidateV>, language: LanguageCode, role: SubtitleRole) -> Option<SubtitleCandidateV> {
    let m = stable_sort(c.filter(|x: SubtitleCandidateV| x.language == language), |a: SubtitleCandidateV, b: SubtitleCandidateV| format_before(a, b));
    if m.len() > 0 {
        Some(SubtitleCandidateV { role, ..m[0] })
    } else {
        None
    }
}

/// The status of an episode from whether it has a video, a primary subtitle,
/// two subtitles of one language, and more than one video.
pub open spec fn match_status_spec(has_video: bool, has_primary: bool, duplicate_language: bool, several_videos: bool) -> MatchStatus {
    match (has_video, has_primary, duplicate_language, several_videos) {
        (false, true, false, false) | (false, true, true, false) => MatchStatus::MissingVideo,
        (true, false, false, false) => MatchStatus::MissingSub,
        (true, _, true, _) | (true, _, _, true) => MatchStatus::Conflict,
        (true, true, false, false) => MatchStatus::Matched,
        (false, false, false, false) => MatchStatus::Unprocessed,
        (false, false, true, _) => MatchStatus::Conflict,
        (false, true, false, true) => MatchStatus::MissingVideo,
        (false, true, true, true) => MatchStatus::Conflict,
        (false, false, false, true) => MatchStatus::MissingVideo,
    }
}

pub open spec fn several_videos_note() -> Seq<char> {
    "同一集检测到多个视频文件"@
}

pub open spec fn duplicate_language_note() -> Seq<char> {
    "同一语言存在多个字幕候选，需要确认"@
}

/// The match of one episode from its videos and subtitles.
pub open spec fn episode_match_spec(
    episode: EpisodeKey,
    videos: Seq<VideoV>,
    subs: Seq<SubtitleFileV>,
    preferences: Seq<LanguageCode>,
) -> EpisodeMatchV {
    let sorted = stable_sort(videos, |a: VideoV, b: VideoV| video_before(a, b));
    let video = if sorted.len() > 0 { Some(sorted[0]) } else { None };
    let several = videos.len() > 1;
    let candidates = ranked_candidates(subs, preferences);
    let duplicate = has_duplicate_language_spec(candidates);
    let primary_language = if preferences.len() > 0 { preferences[0] } else { LanguageCode::ZhHans };
    let secondary_language = if preferences.len() > 2 { preferences[2] } else { LanguageCode::Ja };
    let primary = best_for_language_spec(candidates, primary_language, SubtitleRole::Primary);
    let secondary = best_for_language_spec(candidates, secondary_language, SubtitleRole::Secondary);
    EpisodeMatchV {
        episode,
        episode_key: episode_key_text(episode),
        video,
        primary_subtitle: primary,
        secondary_subtitle: secondary,
        candidates,
        status: match_status_spec(video is Some, primary is Some, duplicate, several),
        notes: (if several { seq![several_videos_note()] } else { Seq::empty() })
            + (if duplicate { seq![duplicate_language_note()] } else { Seq::empty() }),
    }
}

/// The position of a language in the preference list, or the list's length when absent.
pub fn language_rank(language: LanguageCode, preferences: &[LanguageCode]) -> (r: usize)
    ensures
        r as nat == language_rank_spec(language, preferences@),
{
    let mut i: usize = 0;
    assert(preferences@.skip(0) =~= preferences@);
    while i < preferences.len()
        invariant
            i <= preferences@.len(),
            language_rank_spec(language, preferences@) == i + language_rank_spec(language, preferences@.skip(i as int)),
        decreases preferences@.len() - i,
    {
        assert(preferences@.skip(i as int)[0] == preferences@[i as int]);
        if preferences[i] == language {
            return i;
        }
        assert(preferences@.skip(i as int).drop_first() =~= preferences@.skip(i + 1));
        i += 1;
    }
    i
}

/// The rank of a subtitle format: ASS, SSA, SRT, VTT, then anything else.
pub fn subtitle_format_rank(extension: &str) -> (r: usize)
    ensures
        r as nat == subtitle_format_rank_spec(extension@),
{
    let e = str_chars(extension);
    if eq_lit(e.as_slice(), "ass") {
        0
    } else if eq_lit(e.as_slice(), "ssa") {
        1
    } else if eq_lit(e.as_slice(), "srt") {
        2
    } else if eq_lit(e.as_slice(), "vtt") {
        3
    } else {
        4
    }
}

fn format_less(a: &SubtitleCandidate, b: &SubtitleCandidate) -> (r: bool)
    ensures
        r == format_before(a@, b@),
{
    let fa = subtitle_format_rank(a.extension.as_str());
    let fb = subtitle_format_rank(b.extension.as_str());
    fa < fb || (fa == fb && (a.confidence > b.confidence || (a.confidence == b.confidence && path_less(&a.path, &b.path))))
}

fn candidate_less(a: &SubtitleCandidate, b: &SubtitleCandidate, preferences: &[LanguageCode]) -> (r: bool)
    ensures
        r == candidate_before(a@, b@, preferences@),
{
    let la = language_rank(a.language, preferences);
    let lb = language_rank(b.language, preferences);
    la < lb || (la == lb && format_less(a, b))
}

/// The best candidate of a language, with the role it is chosen for.
pub fn best_for_language(candidates: &Vec<SubtitleCandidate>, language: LanguageCode, role: SubtitleRole) -> (r: Option<SubtitleCandidate>)
    ensures
        match r {
            Some(c) => best_for_language_spec(views(candidates@), language, role) == Some(c@),
            None => best_for_language_spec(views(candidates@), language, role) is None,
        },
{
    let ghost pred = |x: SubtitleCandidateV| x.language == language;
    let ghost cv = views(candidates@);
    let mut matching: Vec<SubtitleCandidate> = Vec::new();
    let mut i: usize = 0;
    while i < candidates.len()
        invariant
            i <= candidates@.len(),
            cv == views(candidates@),
            pred == (|x: SubtitleCandidateV| x.language == language),
            views(matching@) == cv.subrange(0, i as int).filter(pred),
        decreases candidates@.len() - i,
    {
        assert(cv.subrange(0, i + 1).drop_last() =~= cv.subrange(0, i as int));
        assert(cv.subrange(0, i + 1).last() == candidates@[i as int]@);
        let ghost old_matching = matching@;
        if candidates[i].language == language {
            matching.push(copy_subtitle_candidate(&candidates[i]));
            assert(views(matching@) =~= views(old_matching).push(cv[i as int]));
        }
        proof {
            let t = cv.subrange(0, i + 1);
            assert(t.filter(pred) == (if pred(t.last()) { t.drop_last().filter(pred).push(t.last()) } else { t.drop_last().filter(pred) })) by {
                reveal(Seq::filter);
            }
            assert(pred(t.last()) == (candidates@[i as int].language == language));
        }
        i += 1;
    }
    assert(cv.subrange(0, cv.len() as int) =~= cv);
    assert(cv.subrange(0, 0).filter(pred) =~= Seq::<SubtitleCandidateV>::empty()) by {
        reveal(Seq::filter);
    }
    let ghost f = |c: SubtitleCandidate| c@;
    let ghost ba = |a: SubtitleCandidate, b: SubtitleCandidate| format_before(a@, b@);
    let ghost vb = |a: SubtitleCandidateV, b: SubtitleCandidateV| format_before(a, b);
    let ghost m = matching@;
    let less = |a: &SubtitleCandidate, b: &SubtitleCandidate| -> (o: bool)
        ensures
            o == format_before(a@, b@),
        { format_less(a, b) };
    let sorted = sort_by(matching, less, Ghost(ba));
    proof {
        crate::sort::lemma_stable_sort_map(m, f, ba, vb);
        assert(m.map_values(f) =~= views(m));
        assert(sorted@.map_values(f) =~= views(sorted@));
        assert(views(sorted@) == stable_sort(cv.filter(pred), vb));
    }
    if sorted.len() > 0 {
        let first = &sorted[0];
        assert(views(sorted@)[0] == first@);
        Some(SubtitleCandidate {
            path: copy_path(&first.path),
            file_name: first.file_name.clone(),
            extension: first.extension.clone(),
            language: first.language,
            confidence: first.confidence,
            role,
        })
    } else {
        None
    }
}

/// The status of an episode from whether it has a video, a primary subtitle,
/// two subtitles of one language, and more than one video.
pub fn match_status(has_video: bool, has_primary: bool, duplicate_language: bool, several_videos: bool) -> (r: MatchStatus)
    ensures
        r == match_status_spec(has_video, has_primary, duplicate_language, several_videos),
{
    match (has_video, has_primary, duplicate_language, several_videos) {
        (false, true, false, false) | (false, true, true, false) => MatchStatus::MissingVideo,
        (true, false, false, false) => MatchStatus::MissingSub,
        (true, _, true, _) | (true, _, _, true) => MatchStatus::Conflict,
        (true, true, false, false) => MatchStatus::Matched,
        (false, false, false, false) => MatchStatus::Unprocessed,
        (false, false, true, _) => MatchStatus::Conflict,
        (false, true, false, true) => MatchStatus::MissingVideo,
        (false, true, true, true) => MatchStatus::Conflict,
        (false, false, false, true) => MatchStatus::MissingVideo,
    }
}

/// Whether two candidates share a language.
pub fn has_duplicate_language(c: &Vec<SubtitleCandidate>) -> (r: bool)
    ensures
        r == has_duplicate_language_spec(views(c@)),
{
    let ghost cv = views(c@);
    let mut i: usize = 0;
    while i < c.len()
        invariant
            i <= c@.len(),
            cv == views(c@),
            forall|a: int, b: int| 0 <= a < b < cv.len() && a < i ==> (#[trigger] cv[a]).language != (#[trigger] cv[b]).language,
        decreases c@.len() - i,
    {
        let mut j: usize = i + 1;
        while j < c.len()
            invariant
                i < j <= c@.len(),
                cv == views(c@),
                forall|a: int, b: int| 0 <= a < b < cv.len() && a < i ==> (#[trigger] cv[a]).language != (#[trigger] cv[b]).language,
                forall|b: int| i < b < j ==> cv[i as int].language != (#[trigger] cv[b]).language,
            decreases c@.len() - j,
        {
            if c[i].language == c[j].language {
                assert(cv[i as int].language == cv[j as int].language);
                return true;
            }
            j += 1;
        }
        i += 1;
    }
    false
}

fn candidate_from(s: &ScannedSubtitle) -> (r: SubtitleCandidate)
    ensures
        r@ == candidate_of(s@),
{
    SubtitleCandidate {
        path: copy_path(&s.path),
        file_name: s.file_name.clone(),
        extension: s.extension.clone(),
        language: s.language,
        confidence: s.confidence,
        role: SubtitleRole::Candidate,
    }
}

fn video_less(a: &ScannedVideo, b: &ScannedVideo) -> (r: bool)
    ensures
        r == video_before(a@, b@),
{
    a.confidence > b.confidence || (a.confidence == b.confidence && path_less(&a.path, &b.path))
}

fn sorted_videos(videos: Vec<ScannedVideo>) -> (r: Vec<ScannedVideo>)
    ensures
        views(r@) == stable_sort(views(videos@), |a: VideoV, b: VideoV| video_before(a, b)),
{
    let ghost f = |c: ScannedVideo| c@;
    let ghost ba = |a: ScannedVideo, b: ScannedVideo| video_before(a@, b@);
    let ghost vb = |a: VideoV, b: VideoV| video_before(a, b);
    let ghost m = videos@;
    let less = |a: &ScannedVideo, b: &ScannedVideo| -> (o: bool)
        ensures
            o == video_before(a@, b@),
        { video_less(a, b) };
    let sorted = sort_by(videos, less, Ghost(ba));
    proof {
        crate::sort::lemma_stable_sort_map(m, f, ba, vb);
        assert(m.map_values(f) =~= views(m));
        assert(sorted@.map_values(f) =~= views(sorted@));
    }
    sorted
}

fn ranked_candidate_list(subtitles: &Vec<ScannedSubtitle>, preferences: &[LanguageCode]) -> (r: Vec<SubtitleCandidate>)
    ensures
        views(r@) == ranked_candidates(views(subtitles@), preferences@),
{
    let ghost sv = views(subtitles@);
    let mut candidates: Vec<SubtitleCandidate> = Vec::new();
    let mut i: usize = 0;
    while i < subtitles.len()
        invariant
            i <= subtitles@.len(),
            sv == views(subtitles@),
            candidates@.len() == i,
            forall|k: int| 0 <= k < i ==> (#[trigger] candidates@[k])@ == candidate_of(sv[k]),
        decreases subtitles@.len() - i,
    {
        candidates.push(candidate_from(&subtitles[i]));
        i += 1;
    }
    let ghost f = |c: SubtitleCandidate| c@;
    let ghost prefs = preferences@;
    let ghost ba = |a: SubtitleCandidate, b: SubtitleCandidate| candidate_before(a@, b@, prefs);
    let ghost vb = |a: SubtitleCandidateV, b: SubtitleCandidateV| candidate_before(a, b, prefs);
    let ghost m = candidates@;
    let less = |a: &SubtitleCandidate, b: &SubtitleCandidate| -> (o: bool)
        ensures
            o == candidate_before(a@, b@, preferences@),
        { candidate_less(a, b, preferences) };
    let sorted = sort_by(candidates, less, Ghost(ba));
    proof {
        crate::sort::lemma_stable_sort_map(m, f, ba, vb);
        assert(m.map_values(f) =~= Seq::new(sv.len(), |k: int| candidate_of(sv[k])));
        assert(sorted@.map_values(f) =~= views(sorted@));
    }
    sorted
}

/// Builds the match of one episode from its videos and subtitles.
pub fn build_episode_match(
    episode: EpisodeKey,
    videos: Vec<ScannedVideo>,
    subtitles: Vec<ScannedSubtitle>,
    preferences: &[LanguageCode],
) -> (r: EpisodeMatch)
    ensures
        r@ == episode_match_spec(episode, views(videos@), views(subtitles@), preferences@),
{
    let several = videos.len() > 1;
    let sorted = sorted_videos(videos);
    let video = if sorted.len() > 0 {
        assert(views(sorted@)[0] == sorted@[0]@);
        Some(copy_video(&sorted[0]))
    } else {
        None
    };
    let mut notes: Vec<String> = Vec::new();
    if several {
        let n = str_chars("同一集检测到多个视频文件");
        notes.push(chars_to_string(n.as_slice()));
    }
    let candidates = ranked_candidate_list(&subtitles, preferences);
    let duplicate = has_duplicate_language(&candidates);
    if duplicate {
        let n = str_chars("同一语言存在多个字幕候选，需要确认");
        notes.push(chars_to_string(n.as_slice()));
    }
    let primary_language = if preferences.len() > 0 { preferences[0] } else { LanguageCode::ZhHans };
    let secondary_language = if preferences.len() > 2 { preferences[2] } else { LanguageCode::Ja };
    let primary_subtitle = best_for_language(&candidates, primary_language, SubtitleRole::Primary);
    let secondary_subtitle = best_for_language(&candidates, secondary_language, SubtitleRole::Secondary);
    let status = match_status(video.is_some(), primary_subtitle.is_some(), duplicate, several);
    let r = EpisodeMatch {
        episode,
        episode_key: episode.to_string(),
        video,
        primary_subtitle,
        secondary_subtitle,
        candidates,
        status,
        notes,
    };
    assert(r@.notes =~= episode_match_spec(episode, views(videos@), views(subtitles@), preferences@).notes);
    r
}

/// Whether the keys are in strictly ascending order.
pub open spec fn strictly_ascending(keys: Seq<EpisodeKey>) -> bool {
    forall|i: int, j: int| 0 <= i < j < keys.len() ==> episode_key_lt(#[trigger] keys[i], #[trigger] keys[j])
}

/// Whether some scanned video or subtitle was parsed as episode `k`.
pub open spec fn key_present(videos: Seq<VideoV>, subs: Seq<SubtitleFileV>, k: EpisodeKey) -> bool {
    (exists|i: int| 0 <= i < videos.len() && (#[trigger] videos[i]).episode == Some(k))
        || (exists|i: int| 0 <= i < subs.len() && (#[trigger] subs[i]).episode == Some(k))
}

/// The videos parsed as episode `k`, in scan order.
pub open spec fn videos_of(videos: Seq<VideoV>, k: EpisodeKey) -> Seq<VideoV> {
    videos.filter(|v: VideoV| v.episode == Some(k))
}

/// The videos without an episode, in scan order.
pub open spec fn unparsed_videos_of(videos: Seq<VideoV>) -> Seq<VideoV> {
    videos.filter(|v: VideoV| v.episode is None)
}

/// The subtitles without an episode, in scan order.
pub open spec fn unparsed_subtitles_of(subs: Seq<SubtitleFileV>) -> Seq<SubtitleFileV> {
    subs.filter(|v: SubtitleFileV| v.episode is None)
}

/// The subtitles parsed as episode `k`, in scan order.
pub open spec fn subtitles_of(subs: Seq<SubtitleFileV>, k: EpisodeKey) -> Seq<SubtitleFileV> {
    subs.filter(|v: SubtitleFileV| v.episode == Some(k))
}

fn key_less(a: EpisodeKey, b: EpisodeKey) -> (r: bool)
    ensures
        r == episode_key_lt(a, b),
{
    a.season < b.season || (a.season == b.season && a.episode < b.episode)
}

/// The first position whose key does not sort before `k`.
fn lower_bound(keys: &Vec<EpisodeKey>, k: EpisodeKey) -> (p: usize)
    ensures
        p <= keys@.len(),
        forall|q: int| 0 <= q < p ==> episode_key_lt(#[trigger] keys@[q], k),
        p < keys@.len() ==> !episode_key_lt(keys@[p as int], k),
{
    let mut p: usize = 0;
    while p < keys.len()
        invariant
            p <= keys@.len(),
            forall|q: int| 0 <= q < p ==> episode_key_lt(#[trigger] keys@[q], k),
        decreases keys@.len() - p,
    {
        if !key_less(keys[p], k) {
            return p;
        }
        p += 1;
    }
    p
}

/// Adds a key to an ascending list of distinct keys.
fn insert_key(keys: &mut Vec<EpisodeKey>, k: EpisodeKey)
    requires
        strictly_ascending(old(keys)@),
    ensures
        strictly_ascending(final(keys)@),
        forall|x: EpisodeKey| final(keys)@.contains(x) <==> (old(keys)@.contains(x) || x == k),
{
    let p = lower_bound(keys, k);
    if p < keys.len() && keys[p] == k {
        return;
    }
    let ghost old_keys = keys@;
    keys.insert(p, k);
    proof {
        let nk = keys@;
        assert(nk =~= old_keys.insert(p as int, k));
        assert forall|i: int, j: int| 0 <= i < j < nk.len() implies episode_key_lt(#[trigger] nk[i], #[trigger] nk[j]) by {
            if j < p {
                assert(nk[i] == old_keys[i] && nk[j] == old_keys[j]);
            } else if j == p {
                assert(nk[i] == old_keys[i]);
            } else if i == p {
                assert(nk[j] == old_keys[j - 1]);
                if j - 1 > p {
                    assert(episode_key_lt(old_keys[p as int], old_keys[j - 1]));
                }
            } else if i < p {
                assert(nk[i] == old_keys[i] && nk[j] == old_keys[j - 1]);
            } else {
                assert(nk[i] == old_keys[i - 1] && nk[j] == old_keys[j - 1]);
            }
        }
        assert forall|x: EpisodeKey| nk.contains(x) <==> (old_keys.contains(x) || x == k) by {
            if nk.contains(x) {
                let i = choose|i: int| 0 <= i < nk.len() && nk[i] == x;
                if i < p {
                    assert(old_keys[i] == x);
                } else if i > p {
                    assert(old_keys[i - 1] == x);
                }
            }
            if old_keys.contains(x) {
                let i = choose|i: int| 0 <= i < old_keys.len() && old_keys[i] == x;
                if i < p {
                    assert(nk[i] == x);
                } else {
                    assert(nk[i + 1] == x);
                }
            }
            if x == k {
                assert(nk[p as int] == x);
            }
        }
    }
}

fn videos_for_key(videos: &Vec<ScannedVideo>, k: EpisodeKey) -> (r: Vec<ScannedVideo>)
    ensures
        views(r@) == videos_of(views(videos@), k),
{
    let ghost pred = |v: VideoV| v.episode == Some(k);
    let ghost cv = views(videos@);
    let mut out: Vec<ScannedVideo> = Vec::new();
    assert(cv.subrange(0, 0).filter(pred) =~= Seq::<VideoV>::empty()) by {
        reveal(Seq::filter);
    }
    let mut i: usize = 0;
    while i < videos.len()
        invariant
            i <= videos@.len(),
            cv == views(videos@),
            pred == (|v: VideoV| v.episode == Some(k)),
            views(out@) == cv.subrange(0, i as int).filter(pred),
        decreases videos@.len() - i,
    {
        let ghost old_out = out@;
        if videos[i].episode == Some(k) {
            out.push(copy_video(&videos[i]));
            assert(views(out@) =~= views(old_out).push(cv[i as int]));
        }
        proof {
            let t = cv.subrange(0, i + 1);
            assert(t.drop_last() =~= cv.subrange(0, i as int));
            assert(t.last() == videos@[i as int]@);
            assert(t.filter(pred) == (if pred(t.last()) { t.drop_last().filter(pred).push(t.last()) } else { t.drop_last().filter(pred) })) by {
                reveal(Seq::filter);
            }
        }
        i += 1;
    }
    assert(cv.subrange(0, cv.len() as int) =~= cv);
    out
}

fn subtitles_for_key(subs: &Vec<ScannedSubtitle>, k: EpisodeKey) -> (r: Vec<ScannedSubtitle>)
    ensures
        views(r@) == subtitles_of(views(subs@), k),
{
    let ghost pred = |v: SubtitleFileV| v.episode == Some(k);
    let ghost cv = views(subs@);
    let mut out: Vec<ScannedSubtitle> = Vec::new();
    assert(cv.subrange(0, 0).filter(pred) =~= Seq::<SubtitleFileV>::empty()) by {
        reveal(Seq::filter);
    }
    let mut i: usize = 0;
    while i < subs.len()
        invariant
            i <= subs@.len(),
            cv == views(subs@),
            pred == (|v: SubtitleFileV| v.episode == Some(k)),
            views(out@) == cv.subrange(0, i as int).filter(pred),
        decreases subs@.len() - i,
    {
        let ghost old_out = out@;
        if subs[i].episode == Some(k) {
            out.push(copy_subtitle(&subs[i]));
            assert(views(out@) =~= views(old_out).push(cv[i as int]));
        }
        proof {
            let t = cv.subrange(0, i + 1);
            assert(t.drop_last() =~= cv.subrange(0, i as int));
            assert(t.last() == subs@[i as int]@);
            assert(t.filter(pred) == (if pred(t.last()) { t.drop_last().filter(pred).push(t.last()) } else { t.drop_last().filter(pred) })) by {
                reveal(Seq::filter);
            }
        }
        i += 1;
    }
    assert(cv.subrange(0, cv.len() as int) =~= cv);
    out
}

fn unparsed_videos(videos: &Vec<ScannedVideo>) -> (r: Vec<ScannedVideo>)
    ensures
        views(r@) == views(videos@).filter(|v: VideoV| v.episode is None),
{
    let ghost pred = |v: VideoV| v.episode is None;
    let ghost cv = views(videos@);
    let mut out: Vec<ScannedVideo> = Vec::new();
    assert(cv.subrange(0, 0).filter(pred) =~= Seq::<VideoV>::empty()) by {
        reveal(Seq::filter);
    }
    let mut i: usize = 0;
    while i < videos.len()
        invariant
            i <= videos@.len(),
            cv == views(videos@),
            pred == (|v: VideoV| v.episode is None),
            views(out@) == cv.subrange(0, i as int).filter(pred),
        decreases videos@.len() - i,
    {
        let ghost old_out = out@;
        if videos[i].episode.is_none() {
            out.push(copy_video(&videos[i]));
            assert(views(out@) =~= views(old_out).push(cv[i as int]));
        }
        proof {
            let t = cv.subrange(0, i + 1);
            assert(t.drop_last() =~= cv.subrange(0, i as int));
            assert(t.last() == videos@[i as int]@);
            assert(t.filter(pred) == (if pred(t.last()) { t.drop_last().filter(pred).push(t.last()) } else { t.drop_last().filter(pred) })) by {
                reveal(Seq::filter);
            }
        }
        i += 1;
    }
    assert(cv.subrange(0, cv.len() as int) =~= cv);
    out
}

fn unparsed_subtitles(subs: &Vec<ScannedSubtitle>) -> (r: Vec<ScannedSubtitle>)
    ensures
        views(r@) == views(subs@).filter(|v: SubtitleFileV| v.episode is None),
{
    let ghost pred = |v: SubtitleFileV| v.episode is None;
    let ghost cv = views(subs@);
    let mut out: Vec<ScannedSubtitle> = Vec::new();
    assert(cv.subrange(0, 0).filter(pred) =~= Seq::<SubtitleFileV>::empty()) by {
        reveal(Seq::filter);
    }
    let mut i: usize = 0;
    while i < subs.len()
        invariant
            i <= subs@.len(),
            cv == views(subs@),
            pred == (|v: SubtitleFileV| v.episode is None),
            views(out@) == cv.subrange(0, i as int).filter(pred),
        decreases subs@.len() - i,
    {
        let ghost old_out = out@;
        if subs[i].episode.is_none() {
            out.push(copy_subtitle(&subs[i]));
            assert(views(out@) =~= views(old_out).push(cv[i as int]));
        }
        proof {
            let t = cv.subrange(0, i + 1);
            assert(t.drop_last() =~= cv.subrange(0, i as int));
            assert(t.last() == subs@[i as int]@);
            assert(t.filter(pred) == (if pred(t.last()) { t.drop_last().filter(pred).push(t.last()) } else { t.drop_last().filter(pred) })) by {
                reveal(Seq::filter);
            }
        }
        i += 1;
    }
    assert(cv.subrange(0, cv.len() as int) =~= cv);
    out
}

/// The episodes present in a scan, in ascending order, each once.
fn episode_keys(videos: &Vec<ScannedVideo>, subs: &Vec<ScannedSubtitle>) -> (r: Vec<EpisodeKey>)
    ensures
        strictly_ascending(r@),
        forall|k: EpisodeKey| r@.contains(k) <==> key_present(views(videos@), views(subs@), k),
{
    let ghost vv = views(videos@);
    let ghost sv = views(subs@);
    let mut keys: Vec<EpisodeKey> = Vec::new();
    let mut i: usize = 0;
    while i < videos.len()
        invariant
            i <= videos@.len(),
            vv == views(videos@),
            strictly_ascending(keys@),
            forall|k: EpisodeKey| keys@.contains(k) <==> (exists|q: int| 0 <= q < i && (#[trigger] vv[q]).episode == Some(k)),
        decreases videos@.len() - i,
    {
        assert(vv[i as int] == videos@[i as int]@);
        if let Some(k) = videos[i].episode {
            insert_key(&mut keys, k);
        }
        proof {
            assert forall|k: EpisodeKey| keys@.contains(k) <==> (exists|q: int| 0 <= q < i + 1 && (#[trigger] vv[q]).episode == Some(k)) by {
                if exists|q: int| 0 <= q < i + 1 && (#[trigger] vv[q]).episode == Some(k) {
                    let q = choose|q: int| 0 <= q < i + 1 && (#[trigger] vv[q]).episode == Some(k);
                    if q < i {
                        assert(exists|q: int| 0 <= q < i && (#[trigger] vv[q]).episode == Some(k));
                    }
                }
            }
        }
        i += 1;
    }
    let mut j: usize = 0;
    while j < subs.len()
        invariant
            j <= subs@.len(),
            vv == views(videos@),
            sv == views(subs@),
            strictly_ascending(keys@),
            forall|k: EpisodeKey| keys@.contains(k) <==> ((exists|q: int| 0 <= q < vv.len() && (#[trigger] vv[q]).episode == Some(k))
                || (exists|q: int| 0 <= q < j && (#[trigger] sv[q]).episode == Some(k))),
        decreases subs@.len() - j,
    {
        assert(sv[j as int] == subs@[j as int]@);
        if let Some(k) = subs[j].episode {
            insert_key(&mut keys, k);
        }
        proof {
            assert forall|k: EpisodeKey| keys@.contains(k) <==> ((exists|q: int| 0 <= q < vv.len() && (#[trigger] vv[q]).episode == Some(k))
                || (exists|q: int| 0 <= q < j + 1 && (#[trigger] sv[q]).episode == Some(k))) by {
                if exists|q: int| 0 <= q < j + 1 && (#[trigger] sv[q]).episode == Some(k) {
                    let q = choose|q: int| 0 <= q < j + 1 && (#[trigger] sv[q]).episode == Some(k);
                    if q < j {
                        assert(exists|q: int| 0 <= q < j && (#[trigger] sv[q]).episode == Some(k));
                    }
                }
            }
        }
        j += 1;
    }
    keys
}

/// Groups a scan by episode: one match per parsed episode in ascending order,
/// and the files without an episode set apart.
pub fn match_scan(scan: ScanResult) -> (r: ScanAndMatchResult)
    ensures
        r.scan == scan,
        views(r.unprocessed_videos@) == unparsed_videos_of(views(scan.videos@)),
        views(r.unprocessed_subtitles@) == unparsed_subtitles_of(views(scan.subtitles@)),
        strictly_ascending(Seq::new(r.matches@.len(), |i: int| r.matches@[i].episode)),
        forall|k: EpisodeKey| key_present(views(scan.videos@), views(scan.subtitles@), k)
            <==> exists|i: int| 0 <= i < r.matches@.len() && (#[trigger] r.matches@[i]).episode == k,
        forall|i: int| 0 <= i < r.matches@.len() ==> (#[trigger] r.matches@[i])@ == episode_match_spec(
            r.matches@[i].episode,
            videos_of(views(scan.videos@), r.matches@[i].episode),
            subtitles_of(views(scan.subtitles@), r.matches@[i].episode),
            default_preference_spec(),
        ),
{
    let unprocessed_videos = unparsed_videos(&scan.videos);
    let unprocessed_subtitles = unparsed_subtitles(&scan.subtitles);
    let keys = episode_keys(&scan.videos, &scan.subtitles);
    let preferences = LanguageCode::default_preference();
    let prefs = preferences.as_slice();
    let mut matches: Vec<EpisodeMatch> = Vec::new();
    let mut i: usize = 0;
    while i < keys.len()
        invariant
            i <= keys@.len(),
            prefs@ == default_preference_spec(),
            matches@.len() == i,
            forall|q: int| 0 <= q < i ==> (#[trigger] matches@[q]).episode == keys@[q],
            forall|q: int| 0 <= q < i ==> (#[trigger] matches@[q])@ == episode_match_spec(
                keys@[q],
                videos_of(views(scan.videos@), keys@[q]),
                subtitles_of(views(scan.subtitles@), keys@[q]),
                default_preference_spec(),
            ),
        decreases keys@.len() - i,
    {
        let k = keys[i];
        let vs = videos_for_key(&scan.videos, k);
        let ss = subtitles_for_key(&scan.subtitles, k);
        let m = build_episode_match(k, vs, ss, prefs);
        matches.push(m);
        i += 1;
    }
    let ghost ks = Seq::new(matches@.len(), |q: int| matches@[q].episode);
    assert(ks =~= keys@);
    proof {
        assert forall|k: EpisodeKey| key_present(views(scan.videos@), views(scan.subtitles@), k)
            <==> exists|q: int| 0 <= q < matches@.len() && (#[trigger] matches@[q]).episode == k by {
            if key_present(views(scan.videos@), views(scan.subtitles@), k) {
                assert(keys@.contains(k));
                let q = choose|q: int| 0 <= q < keys@.len() && keys@[q] == k;
                assert(matches@[q].episode == k);
            }
            if exists|q: int| 0 <= q < matches@.len() && (#[trigger] matches@[q]).episode == k {
                let q = choose|q: int| 0 <= q < matches@.len() && (#[trigger] matches@[q]).episode == k;
                assert(keys@[q] == k);
                assert(keys@.contains(k));
            }
        }
    }
    ScanAndMatchResult { scan, matches, unprocessed_videos, unprocessed_subtitles }
}

} // verus!
