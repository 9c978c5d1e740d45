//! Turning listed media files into scanned videos and subtitles.

use vstd::prelude::*;
use crate::domain::{
    EpisodeKey, ParseCandidate, ParseCandidateV, ParseStatus, ScanResult, ScannedSubtitle, ScannedVideo,
    SubtitleFileV, VideoV, episode_key_text, texts, views,
};
use crate::parser::{
    CandidateView, DecisionView, EpisodeCandidate, ParseDecision, ParsedView, batch_decision, copy_candidate, copy_decision,
    copy_strings, parse_episode_batch, to_parse_candidates,
};
use crate::path::{MediaPath, copy_path, extension_spec, file_name_spec};
use crate::natural::{natural_path_before, natural_path_less};
use crate::rules::{detect_language, detect_language_spec};
use crate::sort::{sort_by, stable_sort};
use crate::text::{ascii_lower_chars, ascii_lower_seq, chars_to_string, eq_lit};
use crate::domain::LanguageCode;

verus! {

/// A file found under a scanned directory, with its size in bytes.
#[derive(Debug, Clone)]
pub struct ListedFile {
    pub path: MediaPath,
    pub file_size_bytes: u64,
}

/// A path's extension in ASCII lowercase, empty when it has none.
pub open spec fn extension_text(p: MediaPath) -> Seq<char> {
    match extension_spec(p.parts@) {
        Some(e) => ascii_lower_seq(e),
        None => Seq::empty(),
    }
}

/// A path's file name, empty when it has none.
pub open spec fn file_name_text(p: MediaPath) -> Seq<char> {
    match file_name_spec(p.parts@) {
        Some(n) => n,
        None => Seq::empty(),
    }
}

pub open spec fn is_video_extension(e: Seq<char>) -> bool {
    e == "mkv"@ || e == "mp4"@
}

pub open spec fn is_subtitle_extension(e: Seq<char>) -> bool {
    e == "ass"@ || e == "ssa"@ || e == "srt"@ || e == "vtt"@
}

/// The candidates a scan shows: those of the accepted episode when there is
/// one, all of them otherwise.
pub open spec fn visible_candidates_spec(d: DecisionView) -> Seq<CandidateView> {
    match d.parsed {
        Some(p) => d.candidates.filter(|c: CandidateView| c.key == p.key),
        None => d.candidates,
    }
}

/// A candidate as a scan reports it.
pub open spec fn parse_candidate_view(c: CandidateView) -> ParseCandidateV {
    ParseCandidateV {
        episode: c.key,
        episode_key: episode_key_text(c.key),
        confidence: c.confidence,
        source: c.source,
        note: c.note,
    }
}

/// The reported candidates of a decision.
pub open spec fn reported_candidates(d: DecisionView) -> Seq<ParseCandidateV> {
    let v = visible_candidates_spec(d);
    Seq::new(v.len(), |i: int| parse_candidate_view(v[i]))
}

/// The parsed episode when its status is `Accepted`.
pub open spec fn accepted_of(d: DecisionView) -> Option<ParsedView> {
    match d.parsed {
        Some(p) => if p.status == ParseStatus::Accepted { Some(p) } else { None },
        None => None,
    }
}

pub open spec fn accepted_episode(d: DecisionView) -> Option<EpisodeKey> {
    match accepted_of(d) {
        Some(p) => Some(p.key),
        None => None,
    }
}

pub open spec fn accepted_confidence(d: DecisionView) -> u8 {
    match accepted_of(d) {
        Some(p) => p.confidence,
        None => 0,
    }
}

pub open spec fn accepted_key_text(d: DecisionView) -> Option<Seq<char>> {
    match accepted_of(d) {
        Some(p) => Some(episode_key_text(p.key)),
        None => None,
    }
}

/// The scanned video made of a file, its size and its parse decision.
pub open spec fn scanned_video_spec(path: MediaPath, size: u64, d: DecisionView) -> VideoV {
    VideoV {
        path: path@,
        file_name: file_name_text(path),
        extension: extension_text(path),
        file_size_bytes: size,
        episode: accepted_episode(d),
        episode_key: accepted_key_text(d),
        confidence: accepted_confidence(d),
        parse_status: d.status,
        parse_notes: d.notes,
        parse_candidates: reported_candidates(d),
    }
}

/// The scanned subtitle made of a file, its size and its parse decision.
pub open spec fn scanned_subtitle_spec(path: MediaPath, size: u64, d: DecisionView) -> SubtitleFileV {
    SubtitleFileV {
        path: path@,
        file_name: file_name_text(path),
        extension: extension_text(path),
        file_size_bytes: size,
        episode: accepted_episode(d),
        episode_key: accepted_key_text(d),
        confidence: accepted_confidence(d),
        parse_status: d.status,
        parse_notes: d.notes,
        parse_candidates: reported_candidates(d),
        language: detect_language_spec(path),
    }
}

/// The paths of a directory's files.
pub open spec fn listed_paths(files: Seq<ListedFile>) -> Seq<MediaPath> {
    Seq::new(files.len(), |i: int| files[i].path)
}

/// The sizes of a directory's files.
pub open spec fn listed_sizes(files: Seq<ListedFile>) -> Seq<u64> {
    Seq::new(files.len(), |i: int| files[i].file_size_bytes)
}

/// The videos among a directory's files: every file is parsed with its
/// neighbours, then the video files are kept in listing order.
pub open spec fn videos_among(paths: Seq<MediaPath>, sizes: Seq<u64>) -> Seq<VideoV> {
    Seq::new(paths.len(), |i: int| scanned_video_spec(paths[i], sizes[i], batch_decision(paths, i)))
        .filter(|v: VideoV| is_video_extension(v.extension))
}

/// The subtitles among a directory's files, parsed the same way.
pub open spec fn subtitles_among(paths: Seq<MediaPath>, sizes: Seq<u64>) -> Seq<SubtitleFileV> {
    Seq::new(paths.len(), |i: int| scanned_subtitle_spec(paths[i], sizes[i], batch_decision(paths, i)))
        .filter(|v: SubtitleFileV| is_subtitle_extension(v.extension))
}

/// The videos of one directory.
pub open spec fn directory_videos(files: Seq<ListedFile>) -> Seq<VideoV> {
    videos_among(listed_paths(files), listed_sizes(files))
}

/// The subtitles of one directory.
pub open spec fn directory_subtitles(files: Seq<ListedFile>) -> Seq<SubtitleFileV> {
    subtitles_among(listed_paths(files), listed_sizes(files))
}

/// The videos of all directories, directory after directory.
pub open spec fn all_videos(dirs: Seq<Vec<ListedFile>>) -> Seq<VideoV>
    decreases dirs.len(),
{
    if dirs.len() == 0 {
        Seq::empty()
    } else {
        all_videos(dirs.drop_last()) + directory_videos(dirs.last()@)
    }
}

/// The subtitles of all directories, directory after directory.
pub open spec fn all_subtitles(dirs: Seq<Vec<ListedFile>>) -> Seq<SubtitleFileV>
    decreases dirs.len(),
{
    if dirs.len() == 0 {
        Seq::empty()
    } else {
        all_subtitles(dirs.drop_last()) + directory_subtitles(dirs.last()@)
    }
}

/// A path's extension in ASCII lowercase, empty when it has none.
pub fn extension(path: &MediaPath) -> (r: String)
    ensures
        r@ == extension_text(*path),
{
    match path.extension_chars() {
        Some(e) => {
            let l = ascii_lower_chars(e.as_slice());
            chars_to_string(l.as_slice())
        },
        None => {
            let v: Vec<char> = Vec::new();
            assert(v@ =~= Seq::<char>::empty());
            chars_to_string(v.as_slice())
        },
    }
}

/// A path's file name, empty when it has none.
pub fn file_name(path: &MediaPath) -> (r: String)
    ensures
        r@ == file_name_text(*path),
{
    match path.file_name_chars() {
        Some(n) => chars_to_string(n.as_slice()),
        None => {
            let v: Vec<char> = Vec::new();
            assert(v@ =~= Seq::<char>::empty());
            chars_to_string(v.as_slice())
        },
    }
}

/// Whether the path names an MKV or MP4 file.
pub fn is_video_file(path: &MediaPath) -> (r: bool)
    ensures
        r == is_video_extension(extension_text(*path)),
{
    let e = extension(path);
    let c = crate::text::string_chars(&e);
    eq_lit(c.as_slice(), "mkv") || eq_lit(c.as_slice(), "mp4")
}

/// Whether the path names an ASS, SSA, SRT or VTT file.
pub fn is_subtitle_file(path: &MediaPath) -> (r: bool)
    ensures
        r == is_subtitle_extension(extension_text(*path)),
{
    let e = extension(path);
    let c = crate::text::string_chars(&e);
    eq_lit(c.as_slice(), "ass") || eq_lit(c.as_slice(), "ssa") || eq_lit(c.as_slice(), "srt") || eq_lit(c.as_slice(), "vtt")
}

/// The candidates a scan shows: those of the accepted episode when there is
/// one, all of them otherwise.
pub fn visible_parse_candidates(parsed: &ParseDecision) -> (r: Vec<EpisodeCandidate>)
    ensures
        r.deep_view() == visible_candidates_spec(parsed.deep_view()),
{
    let ghost cv = parsed.candidates.deep_view();
    match &parsed.parsed {
        Some(accepted) => {
            let key = accepted.key;
            let ghost pred = |c: CandidateView| c.key == key;
            let mut out: Vec<EpisodeCandidate> = Vec::new();
            assert(cv.subrange(0, 0).filter(pred) =~= Seq::<CandidateView>::empty()) by {
                reveal(Seq::filter);
            }
            let mut i: usize = 0;
            while i < parsed.candidates.len()
                invariant
                    i <= parsed.candidates@.len(),
                    cv == parsed.candidates.deep_view(),
                    pred == (|c: CandidateView| c.key == key),
                    out.deep_view() == cv.subrange(0, i as int).filter(pred),
                decreases parsed.candidates@.len() - i,
            {
                let ghost old_out = out.deep_view();
                if parsed.candidates[i].key == key {
                    out.push(copy_candidate(&parsed.candidates[i]));
                    assert(out.deep_view() =~= old_out.push(cv[i as int]));
                }
                proof {
                    let t = cv.subrange(0, i + 1);
                    assert(t.drop_last() =~= cv.subrange(0, i as int));
                    assert(t.last() == parsed.candidates@[i as int]@);
                    assert(t.filter(pred) == (if pred(t.last()) { t.drop_last().filter(pred).push(t.last()) } else { t.drop_last().filter(pred) })) by {
                        reveal(Seq::filter);
                    }
                }
                i += 1;
            }
            assert(cv.subrange(0, cv.len() as int) =~= cv);
            out
        },
        None => crate::parser::copy_candidates(&parsed.candidates),
    }
}

fn reported(parsed: &ParseDecision) -> (r: Vec<ParseCandidate>)
    ensures
        views(r@) == reported_candidates(parsed.deep_view()),
{
    let visible = visible_parse_candidates(parsed);
    let r = to_parse_candidates(&visible);
    assert(views(r@) =~= reported_candidates(parsed.deep_view())) by {
        assert forall|i: int| 0 <= i < r@.len() implies #[trigger] views(r@)[i] == reported_candidates(parsed.deep_view())[i] by {
            assert(visible.deep_view()[i] == visible@[i]@);
        }
    }
    r
}

fn accepted_parts(parsed: &ParseDecision) -> (r: (Option<EpisodeKey>, u8))
    ensures
        r.0 == accepted_episode(parsed.deep_view()),
        r.1 == accepted_confidence(parsed.deep_view()),
{
    match &parsed.parsed {
        Some(p) => {
            if p.status == ParseStatus::Accepted {
                (Some(p.key), p.confidence)
            } else {
                (None, 0)
            }
        },
        None => (None, 0),
    }
}

fn key_text_of(episode: Option<EpisodeKey>) -> (r: Option<String>)
    ensures
        crate::domain::opt_text(r) == (match episode {
            Some(k) => Some(episode_key_text(k)),
            None => None,
        }),
{
    match episode {
        Some(k) => Some(k.to_string()),
        None => None,
    }
}

/// The scanned video made of a file, its size and its parse decision.
pub fn scan_video(path: &MediaPath, file_size_bytes: u64, parsed: ParseDecision) -> (r: ScannedVideo)
    ensures
        r@ == scanned_video_spec(*path, file_size_bytes, parsed.deep_view()),
{
    let (episode, confidence) = accepted_parts(&parsed);
    let episode_key = key_text_of(episode);
    let parse_candidates = reported(&parsed);
    let r = ScannedVideo {
        path: copy_path(path),
        file_name: file_name(path),
        extension: extension(path),
        file_size_bytes,
        episode,
        episode_key,
        confidence,
        parse_status: parsed.status,
        parse_notes: parsed.notes,
        parse_candidates,
    };
    assert(texts(r.parse_notes@) =~= parsed.deep_view().notes);
    r
}

/// The scanned subtitle made of a file, its size and its parse decision.
pub fn scan_subtitle(path: &MediaPath, file_size_bytes: u64, parsed: ParseDecision) -> (r: ScannedSubtitle)
    ensures
        r@ == scanned_subtitle_spec(*path, file_size_bytes, parsed.deep_view()),
{
    let (episode, confidence) = accepted_parts(&parsed);
    let episode_key = key_text_of(episode);
    let parse_candidates = reported(&parsed);
    let language = detect_language(path);
    let r = ScannedSubtitle {
        path: copy_path(path),
        file_name: file_name(path),
        extension: extension(path),
        file_size_bytes,
        episode,
        episode_key,
        confidence,
        parse_status: parsed.status,
        parse_notes: parsed.notes,
        parse_candidates,
        language,
    };
    assert(texts(r.parse_notes@) =~= parsed.deep_view().notes);
    r
}

/// Splits a listing into its paths and sizes, moving the paths.
fn split_listing(files: Vec<ListedFile>) -> (r: (Vec<MediaPath>, Vec<u64>))
    ensures
        r.0@ == listed_paths(files@),
        r.1@ == listed_sizes(files@),
{
    let ghost orig = files@;
    let mut rest = files;
    let mut reversed: Vec<ListedFile> = Vec::new();
    while rest.len() > 0
        invariant
            reversed@ + rest@.reverse() == orig.reverse(),
        decreases rest@.len(),
    {
        let ghost before = rest@;
        let f = rest.pop().unwrap();
        proof {
            assert(before =~= rest@.push(f));
            assert(before.reverse() =~= seq![f] + rest@.reverse());
        }
        reversed.push(f);
        assert(reversed@ + rest@.reverse() =~= orig.reverse());
    }
    assert(reversed@ =~= orig.reverse());
    let mut paths: Vec<MediaPath> = Vec::new();
    let mut sizes: Vec<u64> = Vec::new();
    while reversed.len() > 0
        invariant
            reversed@.len() + paths@.len() == orig.len(),
            sizes@.len() == paths@.len(),
            reversed@ == orig.subrange(paths@.len() as int, orig.len() as int).reverse(),
            paths@ == listed_paths(orig.subrange(0, paths@.len() as int)),
            sizes@ == listed_sizes(orig.subrange(0, paths@.len() as int)),
        decreases reversed@.len(),
    {
        let ghost k = paths@.len() as int;
        let ghost before = reversed@;
        let f = reversed.pop().unwrap();
        proof {
            assert(before.last() == orig[k]);
            assert(reversed@ =~= orig.subrange(k + 1, orig.len() as int).reverse());
        }
        paths.push(f.path);
        sizes.push(f.file_size_bytes);
        assert(paths@ =~= listed_paths(orig.subrange(0, k + 1)));
        assert(sizes@ =~= listed_sizes(orig.subrange(0, k + 1)));
    }
    assert(orig.subrange(0, orig.len() as int) =~= orig);
    (paths, sizes)
}

/// The videos among one directory's files.
fn scan_directory_videos(paths: &Vec<MediaPath>, sizes: &Vec<u64>) -> (r: Vec<ScannedVideo>)
    requires
        paths@.len() == sizes@.len(),
    ensures
        views(r@) == videos_among(paths@, sizes@),
{
    let decisions = parse_episode_batch(paths);
    let ghost all = Seq::new(paths@.len(), |i: int| scanned_video_spec(paths@[i], sizes@[i], batch_decision(paths@, i)));
    let ghost pred = |v: VideoV| is_video_extension(v.extension);
    let mut out: Vec<ScannedVideo> = Vec::new();
    assert(all.subrange(0, 0).filter(pred) =~= Seq::<VideoV>::empty()) by {
        reveal(Seq::filter);
    }
    let mut i: usize = 0;
    while i < paths.len()
        invariant
            i <= paths@.len(),
            paths@.len() == sizes@.len(),
            decisions@.len() == paths@.len(),
            forall|j: int| 0 <= j < paths@.len() ==> (#[trigger] decisions@[j]).deep_view() == batch_decision(paths@, j),
            all == Seq::new(paths@.len(), |i: int| scanned_video_spec(paths@[i], sizes@[i], batch_decision(paths@, i))),
            pred == (|v: VideoV| is_video_extension(v.extension)),
            views(out@) == all.subrange(0, i as int).filter(pred),
        decreases paths@.len() - i,
    {
        let ghost old_out = out@;
        let keep = is_video_file(&paths[i]);
        if keep {
            let d = copy_decision(&decisions[i]);
            let v = scan_video(&paths[i], sizes[i], d);
            out.push(v);
            assert(views(out@) =~= views(old_out).push(all[i as int]));
        }
        proof {
            let t = all.subrange(0, i + 1);
            assert(t.drop_last() =~= all.subrange(0, i as int));
            assert(t.last() == all[i as int]);
            assert(t.filter(pred) == (if pred(t.last()) { t.drop_last().filter(pred).push(t.last()) } else { t.drop_last().filter(pred) })) by {
                reveal(Seq::filter);
            }
        }
        i += 1;
    }
    assert(all.subrange(0, all.len() as int) =~= all);
    out
}

/// The subtitles among one directory's files.
fn scan_directory_subtitles(paths: &Vec<MediaPath>, sizes: &Vec<u64>) -> (r: Vec<ScannedSubtitle>)
    requires
        paths@.len() == sizes@.len(),
    ensures
        views(r@) == subtitles_among(paths@, sizes@),
{
    let decisions = parse_episode_batch(paths);
    let ghost all = Seq::new(paths@.len(), |i: int| scanned_subtitle_spec(paths@[i], sizes@[i], batch_decision(paths@, i)));
    let ghost pred = |v: SubtitleFileV| is_subtitle_extension(v.extension);
    let mut out: Vec<ScannedSubtitle> = Vec::new();
    assert(all.subrange(0, 0).filter(pred) =~= Seq::<SubtitleFileV>::empty()) by {
        reveal(Seq::filter);
    }
    let mut i: usize = 0;
    while i < paths.len()
        invariant
            i <= paths@.len(),
            paths@.len() == sizes@.len(),
            decisions@.len() == paths@.len(),
            forall|j: int| 0 <= j < paths@.len() ==> (#[trigger] decisions@[j]).deep_view() == batch_decision(paths@, j),
            all == Seq::new(paths@.len(), |i: int| scanned_subtitle_spec(paths@[i], sizes@[i], batch_decision(paths@, i))),
            pred == (|v: SubtitleFileV| is_subtitle_extension(v.extension)),
            views(out@) == all.subrange(0, i as int).filter(pred),
        decreases paths@.len() - i,
    {
        let ghost old_out = out@;
        let keep = is_subtitle_file(&paths[i]);
        if keep {
            let d = copy_decision(&decisions[i]);
            let v = scan_subtitle(&paths[i], sizes[i], d);
            out.push(v);
            assert(views(out@) =~= views(old_out).push(all[i as int]));
        }
        proof {
            let t = all.subrange(0, i + 1);
            assert(t.drop_last() =~= all.subrange(0, i as int));
            assert(t.last() == all[i as int]);
            assert(t.filter(pred) == (if pred(t.last()) { t.drop_last().filter(pred).push(t.last()) } else { t.drop_last().filter(pred) })) by {
                reveal(Seq::filter);
            }
        }
        i += 1;
    }
    assert(all.subrange(0, all.len() as int) =~= all);
    out
}

/// The elements of `v` in reverse order.
fn reversed<T>(v: Vec<T>) -> (r: Vec<T>)
    ensures
        r@ == v@.reverse(),
{
    let ghost orig = v@;
    let mut rest = v;
    let mut out: Vec<T> = Vec::new();
    while rest.len() > 0
        invariant
            out@ + rest@.reverse() == orig.reverse(),
        decreases rest@.len(),
    {
        let ghost before = rest@;
        let x = rest.pop().unwrap();
        proof {
            assert(before =~= rest@.push(x));
            assert(before.reverse() =~= seq![x] + rest@.reverse());
        }
        out.push(x);
        assert(out@ + rest@.reverse() =~= orig.reverse());
    }
    assert(out@ =~= orig.reverse());
    out
}

/// Scans listed directories: the videos of the video directories and the
/// subtitles of the subtitle directories, each list in natural order of path.
pub fn scan_listed(video_dirs: Vec<Vec<ListedFile>>, subtitle_dirs: Vec<Vec<ListedFile>>) -> (r: ScanResult)
    ensures
        views(r.videos@) == stable_sort(all_videos(video_dirs@), |a: VideoV, b: VideoV| natural_path_before(a.path, b.path)),
        views(r.subtitles@) == stable_sort(all_subtitles(subtitle_dirs@), |a: SubtitleFileV, b: SubtitleFileV| natural_path_before(a.path, b.path)),
{
    let ghost vd = video_dirs@;
    let n = video_dirs.len();
    let mut rest = reversed(video_dirs);
    let mut videos: Vec<ScannedVideo> = Vec::new();
    let mut k: usize = 0;
    while rest.len() > 0
        invariant
            n == vd.len(),
            k + rest@.len() == n,
            rest@ == vd.subrange(k as int, n as int).reverse(),
            views(videos@) == all_videos(vd.subrange(0, k as int)),
        decreases rest@.len(),
    {
        let ghost before = rest@;
        let dir = rest.pop().unwrap();
        proof {
            assert(dir == vd[k as int]);
            assert(rest@ =~= vd.subrange(k + 1, n as int).reverse());
            assert(vd.subrange(0, k + 1).drop_last() =~= vd.subrange(0, k as int));
        }
        let (paths, sizes) = split_listing(dir);
        let mut found = scan_directory_videos(&paths, &sizes);
        let ghost old_videos = videos@;
        videos.append(&mut found);
        assert(views(videos@) =~= views(old_videos) + directory_videos(vd[k as int]@));
        k += 1;
    }
    assert(vd.subrange(0, n as int) =~= vd);
    let ghost sd = subtitle_dirs@;
    let m = subtitle_dirs.len();
    let mut rest = reversed(subtitle_dirs);
    let mut subtitles: Vec<ScannedSubtitle> = Vec::new();
    let mut k: usize = 0;
    while rest.len() > 0
        invariant
            m == sd.len(),
            k + rest@.len() == m,
            rest@ == sd.subrange(k as int, m as int).reverse(),
            views(subtitles@) == all_subtitles(sd.subrange(0, k as int)),
        decreases rest@.len(),
    {
        let ghost before = rest@;
        let dir = rest.pop().unwrap();
        proof {
            assert(dir == sd[k as int]);
            assert(rest@ =~= sd.subrange(k + 1, m as int).reverse());
            assert(sd.subrange(0, k + 1).drop_last() =~= sd.subrange(0, k as int));
        }
        let (paths, sizes) = split_listing(dir);
        let mut found = scan_directory_subtitles(&paths, &sizes);
        let ghost old_subtitles = subtitles@;
        subtitles.append(&mut found);
        assert(views(subtitles@) =~= views(old_subtitles) + directory_subtitles(sd[k as int]@));
        k += 1;
    }
    assert(sd.subrange(0, m as int) =~= sd);
    let ghost fv = |c: ScannedVideo| c@;
    let ghost bv = |a: ScannedVideo, b: ScannedVideo| natural_path_before(a@.path, b@.path);
    let ghost vb = |a: VideoV, b: VideoV| natural_path_before(a.path, b.path);
    let ghost mv = videos@;
    let less_video = |a: &ScannedVideo, b: &ScannedVideo| -> (o: bool)
        ensures
            o == natural_path_before(a@.path, b@.path),
        { natural_path_less(&a.path, &b.path) };
    let sorted_videos = sort_by(videos, less_video, Ghost(bv));
    let ghost fs = |c: ScannedSubtitle| c@;
    let ghost bs = |a: ScannedSubtitle, b: ScannedSubtitle| natural_path_before(a@.path, b@.path);
    let ghost sb = |a: SubtitleFileV, b: SubtitleFileV| natural_path_before(a.path, b.path);
    let ghost ms = subtitles@;
    let less_subtitle = |a: &ScannedSubtitle, b: &ScannedSubtitle| -> (o: bool)
        ensures
            o == natural_path_before(a@.path, b@.path),
        { natural_path_less(&a.path, &b.path) };
    let sorted_subtitles = sort_by(subtitles, less_subtitle, Ghost(bs));
    proof {
        crate::sort::lemma_stable_sort_map(mv, fv, bv, vb);
        assert(mv.map_values(fv) =~= views(mv));
        assert(sorted_videos@.map_values(fv) =~= views(sorted_videos@));
        crate::sort::lemma_stable_sort_map(ms, fs, bs, sb);
        assert(ms.map_values(fs) =~= views(ms));
        assert(sorted_subtitles@.map_values(fs) =~= views(sorted_subtitles@));
    }
    ScanResult { videos: sorted_videos, subtitles: sorted_subtitles }
}

} // verus!
