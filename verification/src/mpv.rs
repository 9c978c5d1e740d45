//! What the player's track list says about the requested video and subtitles.

use vstd::prelude::*;
use crate::domain::{opt_text, texts, MpvLaunchResult};
use crate::path::MediaPath;
use crate::text::{
    ascii_lower_chars, ascii_lower_seq, char_is_whitespace, chars_to_string, decimal, decimal_chars, eq_lit,
    is_whitespace, push_chars, push_lit, str_chars, string_chars,
};

verus! {

/// One entry of the player's track list, field by field as its JSON object
/// gives them (`None` where the field is missing or of another type).
#[derive(Debug, Clone)]
pub struct TrackInfo {
    pub kind: Option<String>,
    pub id: Option<i64>,
    pub title: Option<String>,
    pub lang: Option<String>,
    pub external: Option<bool>,
    pub external_filename: Option<String>,
    pub filename: Option<String>,
    pub selected: Option<bool>,
    pub main_selection: Option<i64>,
    pub codec: Option<String>,
}

/// A subtitle track of the player.
#[derive(Debug, Clone)]
pub struct MpvSubtitleTrack {
    pub id: i64,
    pub title: Option<String>,
    pub lang: Option<String>,
    pub external: bool,
    pub external_filename: Option<String>,
    pub filename: Option<String>,
    pub selected: bool,
    pub main_selection: Option<i64>,
    pub codec: Option<String>,
}

/// A subtitle track as mathematical values.
pub struct MpvTrackV {
    pub id: i64,
    pub title: Option<Seq<char>>,
    pub lang: Option<Seq<char>>,
    pub external: bool,
    pub external_filename: Option<Seq<char>>,
    pub filename: Option<Seq<char>>,
    pub selected: bool,
    pub main_selection: Option<i64>,
    pub codec: Option<Seq<char>>,
}

impl View for MpvSubtitleTrack {
    type V = MpvTrackV;

    open spec fn view(&self) -> MpvTrackV {
        MpvTrackV {
            id: self.id,
            title: opt_text(self.title),
            lang: opt_text(self.lang),
            external: self.external,
            external_filename: opt_text(self.external_filename),
            filename: opt_text(self.filename),
            selected: self.selected,
            main_selection: self.main_selection,
            codec: opt_text(self.codec),
        }
    }
}

/// Whether a track list entry has the given type.
pub open spec fn has_kind(t: TrackInfo, kind: Seq<char>) -> bool {
    opt_text(t.kind) == Some(kind)
}

/// Whether a track list entry is an external subtitle.
pub open spec fn is_external_sub(t: TrackInfo) -> bool {
    has_kind(t, "sub"@) && t.external == Some(true)
}

/// The subtitle track an entry stands for: a subtitle entry with an integer id.
pub open spec fn subtitle_track_of(t: TrackInfo) -> MpvTrackV {
    MpvTrackV {
        id: t.id.unwrap(),
        title: opt_text(t.title),
        lang: opt_text(t.lang),
        external: t.external == Some(true),
        external_filename: opt_text(t.external_filename),
        filename: opt_text(t.filename),
        selected: t.selected == Some(true),
        main_selection: t.main_selection,
        codec: opt_text(t.codec),
    }
}

/// The entries of a track list, none when the list is not an array.
pub open spec fn entries_of(list: Option<Vec<TrackInfo>>) -> Seq<TrackInfo> {
    match list {
        Some(v) => v@,
        None => Seq::empty(),
    }
}

/// The number of entries that satisfy a test.
pub open spec fn count_where(s: Seq<TrackInfo>, p: spec_fn(TrackInfo) -> bool) -> nat
    decreases s.len(),
{
    if s.len() == 0 {
        0
    } else {
        count_where(s.drop_last(), p) + if p(s.last()) { 1nat } else { 0nat }
    }
}

/// The subtitle tracks of a track list, in order.
pub open spec fn subtitle_tracks_spec(list: Option<Vec<TrackInfo>>) -> Seq<MpvTrackV> {
    let subs = entries_of(list).filter(|t: TrackInfo| has_kind(t, "sub"@) && t.id is Some);
    Seq::new(subs.len(), |i: int| subtitle_track_of(subs[i]))
}

/// A path text with `\` turned into `/`.
pub open spec fn forward_slashes(s: Seq<char>) -> Seq<char> {
    Seq::new(s.len(), |i: int| if s[i] == '\\' { '/' } else { s[i] })
}

/// A path text as tracks are matched: forward slashes, ASCII lowercase.
pub open spec fn normalize_path_text_spec(s: Seq<char>) -> Seq<char> {
    ascii_lower_seq(forward_slashes(s))
}

/// Whether a track is the external subtitle loaded from a path.
pub open spec fn track_loaded_from(t: MpvTrackV, path: Seq<char>) -> bool {
    t.external && match t.external_filename {
        Some(f) => normalize_path_text_spec(f) == normalize_path_text_spec(path),
        None => false,
    }
}

/// The id of the first external subtitle track loaded from a path.
pub open spec fn track_id_for_path(tracks: Seq<MpvTrackV>, path: Seq<char>) -> Option<i64> {
    match crate::sort::first_index(tracks, |t: MpvTrackV| track_loaded_from(t, path)) {
        Some(i) => Some(tracks[i].id),
        None => None,
    }
}

/// The decimal text of an integer, with a leading `-` when negative.
pub open spec fn int_text(v: int) -> Seq<char> {
    if v < 0 { seq!['-'] + decimal((-v) as nat) } else { decimal(v as nat) }
}

/// Whether the track list has a video track.
pub fn track_list_has_video(list: &Option<Vec<TrackInfo>>) -> (r: bool)
    ensures
        r == exists|i: int| 0 <= i < entries_of(*list).len() && has_kind(#[trigger] entries_of(*list)[i], "video"@),
{
    match list {
        Some(items) => {
            let mut i: usize = 0;
            while i < items.len()
                invariant
                    i <= items@.len(),
                    entries_of(*list) == items@,
                    forall|k: int| 0 <= k < i ==> !has_kind(#[trigger] items@[k], "video"@),
                decreases items@.len() - i,
            {
                let is_video = match &items[i].kind {
                    Some(k) => {
                        let c = string_chars(k);
                        eq_lit(c.as_slice(), "video")
                    },
                    None => false,
                };
                if is_video {
                    assert(has_kind(items@[i as int], "video"@));
                    return true;
                }
                i += 1;
            }
            false
        },
        None => false,
    }
}

fn kind_is(t: &TrackInfo, kind: &str) -> (r: bool)
    ensures
        r == has_kind(*t, kind@),
{
    match &t.kind {
        Some(k) => {
            let c = string_chars(k);
            let want = str_chars(kind);
            crate::text::eq_chars(c.as_slice(), want.as_slice())
        },
        None => false,
    }
}

/// The number of external subtitle tracks in the track list.
pub fn external_subtitle_count(list: &Option<Vec<TrackInfo>>) -> (r: usize)
    ensures
        r as nat == count_where(entries_of(*list), |t: TrackInfo| is_external_sub(t)),
{
    let ghost p = |t: TrackInfo| is_external_sub(t);
    match list {
        Some(items) => {
            let mut n: usize = 0;
            let mut i: usize = 0;
            while i < items.len()
                invariant
                    i <= items@.len(),
                    n <= i,
                    p == (|t: TrackInfo| is_external_sub(t)),
                    n as nat == count_where(items@.subrange(0, i as int), p),
                decreases items@.len() - i,
            {
                proof {
                    let t = items@.subrange(0, i + 1);
                    assert(t.drop_last() =~= items@.subrange(0, i as int));
                    assert(t.last() == items@[i as int]);
                }
                if kind_is(&items[i], "sub") && items[i].external == Some(true) {
                    n += 1;
                }
                i += 1;
            }
            assert(items@.subrange(0, items@.len() as int) =~= items@);
            n
        },
        None => 0,
    }
}

/// The subtitle tracks of entries that all are subtitle entries with an id.
pub open spec fn tracks_of(f: Seq<TrackInfo>) -> Seq<MpvTrackV> {
    Seq::new(f.len(), |k: int| subtitle_track_of(f[k]))
}

/// The subtitle tracks of the track list: its subtitle entries that have an id.
pub fn parse_subtitle_tracks(list: &Option<Vec<TrackInfo>>) -> (r: Vec<MpvSubtitleTrack>)
    ensures
        crate::domain::views(r@) == subtitle_tracks_spec(*list),
{
    let ghost pred = |t: TrackInfo| has_kind(t, "sub"@) && t.id is Some;
    let ghost es = entries_of(*list);
    let mut out: Vec<MpvSubtitleTrack> = Vec::new();
    assert(es.subrange(0, 0).filter(pred) =~= Seq::<TrackInfo>::empty()) by {
        reveal(Seq::filter);
    }
    assert(crate::domain::views(out@) =~= tracks_of(Seq::<TrackInfo>::empty()));
    match list {
        Some(items) => {
            let mut i: usize = 0;
            while i < items.len()
                invariant
                    i <= items@.len(),
                    es == items@,
                    pred == (|t: TrackInfo| has_kind(t, "sub"@) && t.id is Some),
                    crate::domain::views(out@) == tracks_of(es.subrange(0, i as int).filter(pred)),
                decreases items@.len() - i,
            {
                let t = &items[i];
                let ghost old_out = out@;
                let ghost f = es.subrange(0, i as int).filter(pred);
                if kind_is(t, "sub") {
                    match t.id {
                        Some(id) => {
                            let external = match t.external {
                                Some(b) => b,
                                None => false,
                            };
                            let selected = match t.selected {
                                Some(b) => b,
                                None => false,
                            };
                            let track = MpvSubtitleTrack {
                                id,
                                title: crate::domain::copy_opt_text(&t.title),
                                lang: crate::domain::copy_opt_text(&t.lang),
                                external,
                                external_filename: crate::domain::copy_opt_text(&t.external_filename),
                                filename: crate::domain::copy_opt_text(&t.filename),
                                selected,
                                main_selection: t.main_selection,
                                codec: crate::domain::copy_opt_text(&t.codec),
                            };
                            assert(track@ == subtitle_track_of(items@[i as int]));
                            out.push(track);
                            assert(crate::domain::views(out@) =~= crate::domain::views(old_out).push(track@));
                            assert(tracks_of(f.push(items@[i as int])) =~= tracks_of(f).push(subtitle_track_of(items@[i as int])));
                        },
                        None => {},
                    }
                }
                proof {
                    let s = es.subrange(0, i + 1);
                    assert(s.drop_last() =~= es.subrange(0, i as int));
                    assert(s.last() == items@[i as int]);
                    assert(s.filter(pred) == (if pred(s.last()) { s.drop_last().filter(pred).push(s.last()) } else { s.drop_last().filter(pred) })) by {
                        reveal(Seq::filter);
                    }
                }
                i += 1;
            }
            assert(es.subrange(0, es.len() as int) =~= es);
        },
        None => {
            assert(es.filter(pred) =~= Seq::<TrackInfo>::empty()) by {
                reveal(Seq::filter);
            }
        },
    }
    out
}

/// A path text with `\` turned into `/`.
pub fn path_for_mpv(path: &str) -> (r: String)
    ensures
        r@ == forward_slashes(path@),
{
    let c = str_chars(path);
    let mut out: Vec<char> = Vec::new();
    let mut i: usize = 0;
    while i < c.len()
        invariant
            i <= c@.len(),
            out@ =~= Seq::new(i as nat, |k: int| if c@[k] == '\\' { '/' } else { c@[k] }),
        decreases c@.len() - i,
    {
        out.push(if c[i] == '\\' { '/' } else { c[i] });
        i += 1;
    }
    chars_to_string(out.as_slice())
}

fn normalized_path_chars(path: &str) -> (r: Vec<char>)
    ensures
        r@ == normalize_path_text_spec(path@),
{
    let s = path_for_mpv(path);
    let c = string_chars(&s);
    ascii_lower_chars(c.as_slice())
}

/// A path text as tracks are matched: forward slashes, ASCII lowercase.
pub fn normalize_path_text(path: &str) -> (r: String)
    ensures
        r@ == normalize_path_text_spec(path@),
{
    let c = normalized_path_chars(path);
    chars_to_string(c.as_slice())
}

/// The id of the first external subtitle track loaded from a path.
pub fn find_subtitle_track_id_by_path(tracks: &Vec<MpvSubtitleTrack>, subtitle_path: &str) -> (r: Option<i64>)
    ensures
        r == track_id_for_path(crate::domain::views(tracks@), subtitle_path@),
{
    let ghost tv = crate::domain::views(tracks@);
    let ghost p = |t: MpvTrackV| track_loaded_from(t, subtitle_path@);
    let wanted = normalized_path_chars(subtitle_path);
    let mut i: usize = 0;
    while i < tracks.len()
        invariant
            i <= tracks@.len(),
            tv == crate::domain::views(tracks@),
            wanted@ == normalize_path_text_spec(subtitle_path@),
            p == (|t: MpvTrackV| track_loaded_from(t, subtitle_path@)),
            forall|k: int| 0 <= k < i ==> !p(#[trigger] tv[k]),
        decreases tracks@.len() - i,
    {
        assert(tv[i as int] == tracks@[i as int]@);
        let t = &tracks[i];
        if t.external {
            match &t.external_filename {
                Some(f) => {
                    let actual = normalized_path_chars(f.as_str());
                    if crate::text::eq_chars(actual.as_slice(), wanted.as_slice()) {
                        proof {
                            crate::sort::lemma_first_index(tv, p, i as int);
                        }
                        return Some(t.id);
                    }
                },
                None => {},
            }
        }
        i += 1;
    }
    proof {
        crate::sort::lemma_first_index(tv, p, i as int);
    }
    None
}

/// Whether every requested subtitle is loaded as an external track.
pub fn track_list_contains_requested_subtitles(
    list: &Option<Vec<TrackInfo>>,
    primary_subtitle: &Option<String>,
    secondary_subtitle: &Option<String>,
) -> (r: bool)
    ensures
        r == ((match primary_subtitle {
            Some(p) => track_id_for_path(subtitle_tracks_spec(*list), p@) is Some,
            None => true,
        }) && (match secondary_subtitle {
            Some(s) => track_id_for_path(subtitle_tracks_spec(*list), s@) is Some,
            None => true,
        })),
{
    let tracks = parse_subtitle_tracks(list);
    let primary_ok = match primary_subtitle {
        Some(p) => find_subtitle_track_id_by_path(&tracks, p.as_str()).is_some(),
        None => true,
    };
    let secondary_ok = match secondary_subtitle {
        Some(s) => find_subtitle_track_id_by_path(&tracks, s.as_str()).is_some(),
        None => true,
    };
    primary_ok && secondary_ok
}

/// Whether the track list is ready for a request: it has a video and every
/// requested subtitle.
pub fn track_list_ready_for_request(
    list: &Option<Vec<TrackInfo>>,
    primary_subtitle: &Option<String>,
    secondary_subtitle: &Option<String>,
) -> (r: bool)
    ensures
        r == ((exists|i: int| 0 <= i < entries_of(*list).len() && has_kind(#[trigger] entries_of(*list)[i], "video"@))
            && (match primary_subtitle {
                Some(p) => track_id_for_path(subtitle_tracks_spec(*list), p@) is Some,
                None => true,
            }) && (match secondary_subtitle {
                Some(s) => track_id_for_path(subtitle_tracks_spec(*list), s@) is Some,
                None => true,
            })),
{
    track_list_has_video(list) && track_list_contains_requested_subtitles(list, primary_subtitle, secondary_subtitle)
}

/// The number of external subtitles a request loads.
pub fn expected_external_subtitle_count(has_primary: bool, has_secondary: bool) -> (r: usize)
    ensures
        r == (if has_primary { 1usize } else { 0usize }) + (if has_secondary { 1usize } else { 0usize }),
{
    (if has_primary { 1 } else { 0 }) + (if has_secondary { 1 } else { 0 })
}

/// Whether a text is empty once trimmed.
pub open spec fn blank(s: Seq<char>) -> bool {
    forall|i: int| 0 <= i < s.len() ==> char_is_whitespace(#[trigger] s[i])
}

/// The number of extra arguments that are not blank.
pub open spec fn count_nonblank(args: Seq<Seq<char>>) -> nat
    decreases args.len(),
{
    if args.len() == 0 {
        0
    } else {
        count_nonblank(args.drop_last()) + if blank(args.last()) { 0nat } else { 1nat }
    }
}

fn is_blank_text(s: &String) -> (r: bool)
    ensures
        r == blank(s@),
{
    let c = string_chars(s);
    let mut i: usize = 0;
    while i < c.len()
        invariant
            i <= c@.len(),
            c@ == s@,
            forall|k: int| 0 <= k < i ==> char_is_whitespace(#[trigger] c@[k]),
        decreases c@.len() - i,
    {
        if !is_whitespace(c[i]) {
            return false;
        }
        i += 1;
    }
    true
}

/// The number of arguments the player is launched with: four of its own,
/// one per subtitle, and the extra arguments that are not blank.
pub fn mpv_argument_count(has_primary: bool, has_secondary: bool, extra_args: &Vec<String>) -> (r: usize)
    requires
        extra_args@.len() + 6 <= usize::MAX,
    ensures
        r as nat == 4 + (if has_primary { 1nat } else { 0nat }) + (if has_secondary { 1nat } else { 0nat })
            + count_nonblank(texts(extra_args@)),
{
    let ghost tv = texts(extra_args@);
    let mut n: usize = 0;
    let mut i: usize = 0;
    while i < extra_args.len()
        invariant
            i <= extra_args@.len(),
            extra_args@.len() + 6 <= usize::MAX,
            tv == texts(extra_args@),
            n <= i,
            n as nat == count_nonblank(tv.subrange(0, i as int)),
        decreases extra_args@.len() - i,
    {
        proof {
            let t = tv.subrange(0, i + 1);
            assert(t.drop_last() =~= tv.subrange(0, i as int));
            assert(t.last() == extra_args@[i as int]@);
        }
        if !is_blank_text(&extra_args[i]) {
            n += 1;
        }
        i += 1;
    }
    assert(tv.subrange(0, tv.len() as int) =~= tv);
    4 + expected_external_subtitle_count(has_primary, has_secondary) + n
}

/// The decimal text of an integer, with a leading `-` when negative.
pub fn i64_chars(v: i64) -> (r: Vec<char>)
    ensures
        r@ == int_text(v as int),
{
    if v >= 0 {
        decimal_chars(v as u64)
    } else {
        let m: u64 = ((-(v + 1)) as u64) + 1;
        let mut out: Vec<char> = Vec::new();
        out.push('-');
        let d = decimal_chars(m);
        push_chars(&mut out, d.as_slice());
        assert(m as int == -(v as int));
        out
    }
}

pub open spec fn primary_missing_message(path: Seq<char>) -> Seq<char> {
    "未在 MPV track-list 中找到主字幕："@ + path
}

pub open spec fn secondary_missing_message(path: Seq<char>) -> Seq<char> {
    "未在 MPV track-list 中找到副字幕："@ + path
}

pub open spec fn same_track_message() -> Seq<char> {
    "主字幕和副字幕不能解析到同一个 MPV track id"@
}

/// The track ids of the requested subtitles, each found by its path; refused
/// when one is missing or both resolve to one track.
pub fn resolve_requested_subtitle_track_ids(
    primary_subtitle: &Option<String>,
    secondary_subtitle: &Option<String>,
    tracks: &Vec<MpvSubtitleTrack>,
) -> (r: Result<(Option<i64>, Option<i64>), String>)
    ensures
        ({
            let tv = crate::domain::views(tracks@);
            let p = match primary_subtitle { Some(x) => track_id_for_path(tv, x@), None => None };
            let s = match secondary_subtitle { Some(x) => track_id_for_path(tv, x@), None => None };
            if primary_subtitle is Some && p is None {
                r matches Err(m) && m@ == primary_missing_message(primary_subtitle.unwrap()@)
            } else if secondary_subtitle is Some && s is None {
                r matches Err(m) && m@ == secondary_missing_message(secondary_subtitle.unwrap()@)
            } else if p is Some && s is Some && p == s {
                r matches Err(m) && m@ == same_track_message()
            } else {
                r == Ok::<(Option<i64>, Option<i64>), String>((p, s))
            }
        }),
{
    let primary_id = match primary_subtitle {
        Some(path) => match find_subtitle_track_id_by_path(tracks, path.as_str()) {
            Some(id) => Some(id),
            None => {
                let mut m = str_chars("未在 MPV track-list 中找到主字幕：");
                let p = string_chars(path);
                push_chars(&mut m, p.as_slice());
                return Err(chars_to_string(m.as_slice()));
            },
        },
        None => None,
    };
    let secondary_id = match secondary_subtitle {
        Some(path) => match find_subtitle_track_id_by_path(tracks, path.as_str()) {
            Some(id) => Some(id),
            None => {
                let mut m = str_chars("未在 MPV track-list 中找到副字幕：");
                let p = string_chars(path);
                push_chars(&mut m, p.as_slice());
                return Err(chars_to_string(m.as_slice()));
            },
        },
        None => None,
    };
    match (primary_id, secondary_id) {
        (Some(a), Some(b)) => {
            if a == b {
                let m = str_chars("主字幕和副字幕不能解析到同一个 MPV track id");
                return Err(chars_to_string(m.as_slice()));
            }
        },
        _ => {},
    }
    Ok((primary_id, secondary_id))
}

/// Whether some track has the id and the main selection.
pub open spec fn has_main_selection(tracks: Seq<MpvTrackV>, id: i64, expected: Option<i64>) -> bool {
    exists|i: int| 0 <= i < tracks.len() && (#[trigger] tracks[i]).id == id && tracks[i].main_selection == expected
}

pub open spec fn selection_message(role: Seq<char>, id: i64, expected: Option<i64>) -> Seq<char> {
    role + " track id "@ + int_text(id as int) + " 未成功成为 main_selection="@ + match expected {
        Some(v) => int_text(v as int),
        None => "None"@,
    }
}

/// Checks that a selected track became the expected main selection.
pub fn verify_subtitle_track_main_selection(
    tracks: &Vec<MpvSubtitleTrack>,
    track_id: Option<i64>,
    expected_main_selection: Option<i64>,
    role: &str,
) -> (r: Result<(), String>)
    ensures
        match track_id {
            None => r is Ok,
            Some(id) => if has_main_selection(crate::domain::views(tracks@), id, expected_main_selection) {
                r is Ok
            } else {
                r matches Err(m) && m@ == selection_message(role@, id, expected_main_selection)
            },
        },
{
    let id = match track_id {
        Some(id) => id,
        None => {
            return Ok(());
        },
    };
    let ghost tv = crate::domain::views(tracks@);
    let mut i: usize = 0;
    while i < tracks.len()
        invariant
            track_id == Some(id),
            i <= tracks@.len(),
            tv == crate::domain::views(tracks@),
            forall|k: int| 0 <= k < i ==> !((#[trigger] tv[k]).id == id && tv[k].main_selection == expected_main_selection),
        decreases tracks@.len() - i,
    {
        assert(tv[i as int] == tracks@[i as int]@);
        let same_selection = match (tracks[i].main_selection, expected_main_selection) {
            (Some(a), Some(b)) => a == b,
            (None, None) => true,
            _ => false,
        };
        if tracks[i].id == id && same_selection {
            assert(has_main_selection(tv, id, expected_main_selection));
            return Ok(());
        }
        i += 1;
    }
    let mut m = str_chars(role);
    push_lit(&mut m, " track id ");
    let idt = i64_chars(id);
    push_chars(&mut m, idt.as_slice());
    push_lit(&mut m, " 未成功成为 main_selection=");
    let e = match expected_main_selection {
        Some(v) => i64_chars(v),
        None => str_chars("None"),
    };
    push_chars(&mut m, e.as_slice());
    Err(chars_to_string(m.as_slice()))
}

/// The title shown for a subtitle: its file name unless that is blank, the fallback otherwise.
pub fn subtitle_title(path: &MediaPath, fallback: &str) -> (r: String)
    ensures
        r@ == (match crate::path::file_name_spec(path.parts@) {
            Some(n) => if blank(n) { fallback@ } else { n },
            None => fallback@,
        }),
{
    match path.file_name_chars() {
        Some(n) => {
            let s = chars_to_string(n.as_slice());
            if is_blank_text(&s) {
                let f = str_chars(fallback);
                chars_to_string(f.as_slice())
            } else {
                s
            }
        },
        None => {
            let f = str_chars(fallback);
            chars_to_string(f.as_slice())
        },
    }
}


/// A string holding exactly the characters of `s`.
fn owned_text(s: &str) -> (r: String)
    ensures
        r@ == s@,
{
    let c = str_chars(s);
    chars_to_string(c.as_slice())
}

/// The extra arguments that are not blank, in order.
pub open spec fn nonblank_args(args: Seq<Seq<char>>) -> Seq<Seq<char>>
    decreases args.len(),
{
    if args.len() == 0 {
        seq![]
    } else {
        nonblank_args(args.drop_last()) + if blank(args.last()) { Seq::<Seq<char>>::empty() } else { seq![args.last()] }
    }
}

/// The argument that loads a subtitle file, where one is requested.
pub open spec fn sub_file_arg(path: Option<Seq<char>>) -> Seq<Seq<char>> {
    match path {
        Some(p) => seq!["--sub-file="@ + p],
        None => Seq::<Seq<char>>::empty(),
    }
}

/// The arguments a new player is launched with: the video, the player's own
/// settings, the requested subtitles and the extra arguments that are not blank.
pub open spec fn launch_args_spec(
    video_path: Seq<char>,
    primary_subtitle: Option<Seq<char>>,
    secondary_subtitle: Option<Seq<char>>,
    extra_args: Seq<Seq<char>>,
    ipc_pipe_path: Seq<char>,
) -> Seq<Seq<char>> {
    seq![video_path, "--idle=yes"@, "--sub-auto=no"@, "--input-ipc-server="@ + ipc_pipe_path]
        + sub_file_arg(primary_subtitle) + sub_file_arg(secondary_subtitle) + nonblank_args(extra_args)
}

/// The number of non-blank arguments equals the length of their list.
pub proof fn lemma_nonblank_count(args: Seq<Seq<char>>)
    ensures
        nonblank_args(args).len() == count_nonblank(args),
    decreases args.len(),
{
    if args.len() > 0 {
        lemma_nonblank_count(args.drop_last());
    }
}

fn push_sub_file_arg(out: &mut Vec<String>, path: &Option<String>)
    ensures
        texts(final(out)@) == texts(old(out)@) + sub_file_arg(opt_text(*path)),
{
    match path {
        Some(p) => {
            let mut a = str_chars("--sub-file=");
            let pc = string_chars(p);
            push_chars(&mut a, pc.as_slice());
            let arg = chars_to_string(a.as_slice());
            out.push(arg);
        },
        None => {},
    }
    assert(texts(out@) =~= texts(old(out)@) + sub_file_arg(opt_text(*path)));
}

/// The command-line arguments of a newly launched player.
pub fn mpv_launch_args(
    video_path: &str,
    primary_subtitle: &Option<String>,
    secondary_subtitle: &Option<String>,
    extra_args: &Vec<String>,
    ipc_pipe_path: &str,
) -> (r: Vec<String>)
    ensures
        texts(r@) == launch_args_spec(
            video_path@,
            opt_text(*primary_subtitle),
            opt_text(*secondary_subtitle),
            texts(extra_args@),
            ipc_pipe_path@,
        ),
{
    let mut out: Vec<String> = Vec::new();
    out.push(owned_text(video_path));
    out.push(owned_text("--idle=yes"));
    out.push(owned_text("--sub-auto=no"));
    let mut ipc = str_chars("--input-ipc-server=");
    let pc = str_chars(ipc_pipe_path);
    push_chars(&mut ipc, pc.as_slice());
    out.push(chars_to_string(ipc.as_slice()));
    assert(texts(out@) =~= seq![video_path@, "--idle=yes"@, "--sub-auto=no"@, "--input-ipc-server="@ + ipc_pipe_path@]);
    push_sub_file_arg(&mut out, primary_subtitle);
    push_sub_file_arg(&mut out, secondary_subtitle);
    let ghost head = texts(out@);
    let ghost tv = texts(extra_args@);
    let mut i: usize = 0;
    while i < extra_args.len()
        invariant
            i <= extra_args@.len(),
            tv == texts(extra_args@),
            texts(out@) == head + nonblank_args(tv.subrange(0, i as int)),
        decreases extra_args@.len() - i,
    {
        let ghost before = out@;
        proof {
            let t = tv.subrange(0, i + 1);
            assert(t.drop_last() =~= tv.subrange(0, i as int));
            assert(t.last() == extra_args@[i as int]@);
        }
        if !is_blank_text(&extra_args[i]) {
            out.push(extra_args[i].clone());
            assert(texts(out@) =~= texts(before) + seq![extra_args@[i as int]@]);
        } else {
            assert(texts(out@) =~= texts(before));
        }
        i += 1;
    }
    assert(tv.subrange(0, tv.len() as int) =~= tv);
    out
}

/// The ids of the external subtitle tracks, in the order of the track list.
pub open spec fn external_ids(tracks: Seq<MpvTrackV>) -> Seq<i64>
    decreases tracks.len(),
{
    if tracks.len() == 0 {
        seq![]
    } else {
        external_ids(tracks.drop_last()) + if tracks.last().external { seq![tracks.last().id] } else { Seq::<i64>::empty() }
    }
}

/// Larger ids first.
pub open spec fn id_descending(a: i64, b: i64) -> bool {
    a > b
}

/// The ids of the external subtitle tracks, largest first: the order in which
/// they are removed from a running player.
pub fn external_subtitle_ids_descending(tracks: &Vec<MpvSubtitleTrack>) -> (r: Vec<i64>)
    ensures
        r@ == crate::sort::stable_sort(external_ids(crate::domain::views(tracks@)), |a: i64, b: i64| id_descending(a, b)),
{
    let ghost tv = crate::domain::views(tracks@);
    let mut ids: Vec<i64> = Vec::new();
    let mut i: usize = 0;
    while i < tracks.len()
        invariant
            i <= tracks@.len(),
            tv == crate::domain::views(tracks@),
            ids@ == external_ids(tv.subrange(0, i as int)),
        decreases tracks@.len() - i,
    {
        proof {
            let t = tv.subrange(0, i + 1);
            assert(t.drop_last() =~= tv.subrange(0, i as int));
            assert(t.last() == tracks@[i as int]@);
        }
        if tracks[i].external {
            ids.push(tracks[i].id);
        }
        i += 1;
    }
    assert(tv.subrange(0, tv.len() as int) =~= tv);
    let ghost ba = |a: i64, b: i64| id_descending(a, b);
    let greater = |a: &i64, b: &i64| -> (o: bool)
        ensures
            o == id_descending(*a, *b),
        { *a > *b };
    crate::sort::sort_by(ids, greater, Ghost(ba))
}

/// Whether the track list still holds an external subtitle.
pub fn has_external_subtitle(tracks: &Vec<MpvSubtitleTrack>) -> (r: bool)
    ensures
        r == exists|k: int| 0 <= k < tracks@.len() && (#[trigger] tracks@[k]).external,
{
    let mut i: usize = 0;
    while i < tracks.len()
        invariant
            i <= tracks@.len(),
            forall|k: int| 0 <= k < i ==> !(#[trigger] tracks@[k]).external,
        decreases tracks@.len() - i,
    {
        if tracks[i].external {
            return true;
        }
        i += 1;
    }
    false
}

/// The value a player property is set to.
#[derive(Debug, Clone, Copy, PartialEq, Eq, Structural)]
pub enum PropertyValue {
    Track(i64),
    No,
    On,
}

/// One property change sent to the running player.
#[derive(Debug, Clone)]
pub struct PropertyChange {
    pub name: String,
    pub value: PropertyValue,
}

impl View for PropertyChange {
    type V = (Seq<char>, PropertyValue);

    open spec fn view(&self) -> (Seq<char>, PropertyValue) {
        (self.name@, self.value)
    }
}

/// The changes that select one track, or switch its role off.
pub open spec fn track_changes(id: Option<i64>, sid: Seq<char>, visibility: Seq<char>) -> Seq<(Seq<char>, PropertyValue)> {
    match id {
        Some(i) => seq![(sid, PropertyValue::Track(i)), (visibility, PropertyValue::On)],
        None => seq![(sid, PropertyValue::No)],
    }
}

/// The changes that select the primary and the secondary subtitle.
pub open spec fn selection_changes_spec(primary: Option<i64>, secondary: Option<i64>) -> Seq<(Seq<char>, PropertyValue)> {
    track_changes(primary, "sid"@, "sub-visibility"@) + track_changes(secondary, "secondary-sid"@, "secondary-sub-visibility"@)
}

fn push_track_changes(out: &mut Vec<PropertyChange>, id: Option<i64>, sid: &str, visibility: &str)
    ensures
        crate::domain::views(final(out)@) == crate::domain::views(old(out)@) + track_changes(id, sid@, visibility@),
{
    match id {
        Some(i) => {
            out.push(PropertyChange { name: owned_text(sid), value: PropertyValue::Track(i) });
            out.push(PropertyChange { name: owned_text(visibility), value: PropertyValue::On });
        },
        None => {
            out.push(PropertyChange { name: owned_text(sid), value: PropertyValue::No });
        },
    }
    assert(crate::domain::views(out@) =~= crate::domain::views(old(out)@) + track_changes(id, sid@, visibility@));
}

/// The property changes that select the resolved subtitle tracks: each role
/// gets its track and is made visible, or is switched off.
pub fn subtitle_selection_changes(primary_track_id: Option<i64>, secondary_track_id: Option<i64>) -> (r: Vec<PropertyChange>)
    ensures
        crate::domain::views(r@) == selection_changes_spec(primary_track_id, secondary_track_id),
{
    let mut out: Vec<PropertyChange> = Vec::new();
    assert(crate::domain::views(out@) =~= Seq::<(Seq<char>, PropertyValue)>::empty());
    push_track_changes(&mut out, primary_track_id, "sid", "sub-visibility");
    push_track_changes(&mut out, secondary_track_id, "secondary-sid", "secondary-sub-visibility");
    out
}

/// What a launch request does, given the player session already running.
#[derive(Debug, Clone, Copy, PartialEq, Eq, Structural)]
pub enum LaunchStep {
    /// The running player already shows the video: bring it to the front.
    FocusExisting,
    /// The running player switches to the requested video.
    SwitchVideo,
    /// No live player: start a new one.
    SpawnNew,
}

/// Chooses how a launch request is served.
pub fn launch_step(has_live_session: bool, same_video: bool) -> (r: LaunchStep)
    ensures
        r == (if !has_live_session {
            LaunchStep::SpawnNew
        } else if same_video {
            LaunchStep::FocusExisting
        } else {
            LaunchStep::SwitchVideo
        }),
{
    if !has_live_session {
        LaunchStep::SpawnNew
    } else if same_video {
        LaunchStep::FocusExisting
    } else {
        LaunchStep::SwitchVideo
    }
}

/// The answer to a launch request served by `step`; only a new player
/// reports its argument count.
pub fn launch_result(step: LaunchStep, process_id: u32, argument_count: usize) -> (r: MpvLaunchResult)
    ensures
        r.process_id == process_id,
        r.argument_count == (if step == LaunchStep::SpawnNew { argument_count } else { 0 }),
        r.reused_existing == (step != LaunchStep::SpawnNew),
        r.switched_video == (step == LaunchStep::SwitchVideo),
{
    match step {
        LaunchStep::SpawnNew => MpvLaunchResult { process_id, argument_count, reused_existing: false, switched_video: false },
        LaunchStep::FocusExisting => MpvLaunchResult { process_id, argument_count: 0, reused_existing: true, switched_video: false },
        LaunchStep::SwitchVideo => MpvLaunchResult { process_id, argument_count: 0, reused_existing: true, switched_video: true },
    }
}

} // verus!
