//! The local anime library: its entries, their episodes, and how saving,
//! removing, repairing and progress updates change them.

use vstd::prelude::*;
use crate::domain::{
    AnimeSubMap, EmbeddedSubtitleScanFailure, EmbeddedSubtitleTrack, EmbeddedTrackV, EntryV, EpisodeRecordV,
    LibraryEpisodeRecord, LibraryFileV, LocalAnimeLibraryEntry, LocalAnimeLibraryFile, MapEpisodeV,
    RepairLibraryEntryPathsResult, SaveLocalLibraryRequest, ScanEmbeddedSubtitleTracksResult,
    UpdateLibraryEpisodeProgressRequest, WatchStatus, copy_entry, copy_episode_record, copy_opt_path, copy_tracks,
    opt_path, views,
};
use crate::path::{ComponentV, MediaPath, PathPart, copy_path, path_equal, view_text};
use crate::sort::{first_index, lemma_first_index};
use crate::text::{
    char_is_whitespace, chars_to_string, decimal, decimal_chars, is_ascii_alnum, is_ascii_alnum_spec, is_whitespace,
    join_chars, join_seqs, lower_chars, lowercase_text, push_chars, push_lit, str_chars, string_chars,
};

verus! {

/// An identifier character: ASCII letters and digits stay, anything else becomes `-`.
pub open spec fn id_char(c: char) -> char {
    if is_ascii_alnum_spec(c) { c } else { '-' }
}

/// The maximal runs of characters other than `-`, in order.
pub open spec fn dash_words(s: Seq<char>) -> Seq<Seq<char>>
    decreases s.len(),
{
    if s.len() == 0 {
        Seq::empty()
    } else {
        let w = dash_words(s.drop_last());
        let c = s.last();
        if c == '-' {
            w
        } else if s.len() >= 2 && s[s.len() - 2] != '-' && w.len() > 0 {
            w.update(w.len() - 1, w.last().push(c))
        } else {
            w.push(seq![c])
        }
    }
}

/// An entry's identifier: `"{project}-{season}-{output dir}"` lowercased, with
/// every run of characters other than ASCII letters and digits turned into a
/// single `-` and none at either end; `library-{now}` when nothing is left.
pub open spec fn entry_id_spec(project_name: Seq<char>, season: Seq<char>, output_dir: Seq<ComponentV>, now: u64) -> Seq<char> {
    let raw = project_name + "-"@ + season + "-"@ + view_text(output_dir, "/"@);
    id_from_lowered(lowercase_text(raw), now)
}

/// The identifier made from an already lowercased text: every run of
/// characters other than ASCII letters and digits becomes a single `-`, none
/// at either end; `library-{now}` when nothing is left.
pub open spec fn id_from_lowered(lower: Seq<char>, now: u64) -> Seq<char> {
    let mapped = Seq::new(lower.len(), |i: int| id_char(lower[i]));
    let collapsed = join_seqs(dash_words(mapped), "-"@);
    if collapsed.len() == 0 {
        "library-"@ + decimal(now as nat)
    } else {
        collapsed
    }
}

/// Whether every character of `s` is whitespace (so that it trims to nothing).
pub open spec fn all_whitespace(s: Seq<char>) -> bool {
    forall|i: int| 0 <= i < s.len() ==> char_is_whitespace(#[trigger] s[i])
}

/// An episode record with its defaults filled in: a missing update time
/// becomes `default_updated_at`, progress is capped at 100, and an episode
/// without any file is unwatched.
pub open spec fn normalize_episode_spec(e: EpisodeRecordV, default_updated_at: u64) -> EpisodeRecordV {
    EpisodeRecordV {
        updated_at_unix: if e.updated_at_unix == 0 { default_updated_at } else { e.updated_at_unix },
        progress_percent: match e.progress_percent {
            Some(v) => if v > 100 { Some(100u8) } else { Some(v) },
            None => None,
        },
        watch_status: if e.video_path is None && e.primary_subtitle_path is None && e.secondary_subtitle_path is None {
            WatchStatus::Unwatched
        } else {
            e.watch_status
        },
        ..e
    }
}

/// An entry with its defaults filled in: an identifier when it has none,
/// its times from one another or `now`, its episode count from its episodes,
/// and each episode normalized against the entry's update time.
pub open spec fn normalize_entry_spec(e: EntryV, now: u64) -> EntryV {
    let id = if all_whitespace(e.id) { entry_id_spec(e.project_name, e.season, e.output_dir, now) } else { e.id };
    let created = if e.created_at_unix == 0 {
        if e.organized_at_unix > 0 { e.organized_at_unix } else { now }
    } else {
        e.created_at_unix
    };
    let updated = if e.updated_at_unix == 0 {
        if e.organized_at_unix > 0 { e.organized_at_unix } else { created }
    } else {
        e.updated_at_unix
    };
    let organized = if e.organized_at_unix == 0 { created } else { e.organized_at_unix };
    EntryV {
        id,
        created_at_unix: created,
        updated_at_unix: updated,
        organized_at_unix: organized,
        episode_count: e.episodes.len() as usize,
        episodes: Seq::new(e.episodes.len(), |i: int| normalize_episode_spec(e.episodes[i], updated)),
        ..e
    }
}

/// A library file with schema version 1 and every entry normalized.
pub open spec fn normalize_file_spec(f: LibraryFileV, now: u64) -> LibraryFileV {
    LibraryFileV {
        schema_version: 1,
        entries: Seq::new(f.entries.len(), |i: int| normalize_entry_spec(f.entries[i], now)),
        ..f
    }
}

/// Whether every character of `s` is whitespace.
fn is_blank(s: &[char]) -> (r: bool)
    ensures
        r == all_whitespace(s@),
{
    let mut i: usize = 0;
    while i < s.len()
        invariant
            i <= s@.len(),
            forall|k: int| 0 <= k < i ==> char_is_whitespace(#[trigger] s@[k]),
        decreases s@.len() - i,
    {
        if !is_whitespace(s[i]) {
            return false;
        }
        i += 1;
    }
    true
}

proof fn lemma_dash_words_nonempty_last(s: Seq<char>)
    ensures
        s.len() > 0 && s.last() != '-' ==> dash_words(s).len() > 0,
    decreases s.len(),
{
    if s.len() > 0 {
        lemma_dash_words_nonempty_last(s.drop_last());
    }
}

/// An entry's identifier from its project, season and output directory.
pub fn library_entry_id(project_name: &str, season: &str, output_dir: &MediaPath, now: u64) -> (r: String)
    ensures
        r@ == entry_id_spec(project_name@, season@, output_dir@, now),
{
    let mut raw = str_chars(project_name);
    push_lit(&mut raw, "-");
    push_lit(&mut raw, season);
    push_lit(&mut raw, "-");
    let dir = output_dir.joined_text("/");
    proof {
        crate::path::lemma_path_text_view(*output_dir, "/"@);
    }
    push_chars(&mut raw, dir.as_slice());
    let lower = lower_chars(raw.as_slice());
    assert(raw@ =~= project_name@ + "-"@ + season@ + "-"@ + view_text(output_dir@, "/"@));
    entry_id_from_lowered(lower.as_slice(), now)
}

/// The identifier made from an already lowercased text (see `id_from_lowered`).
pub fn entry_id_from_lowered(lower: &[char], now: u64) -> (r: String)
    ensures
        r@ == id_from_lowered(lower@, now),
{
    let mut mapped: Vec<char> = Vec::new();
    let mut i: usize = 0;
    while i < lower.len()
        invariant
            i <= lower@.len(),
            mapped@ =~= Seq::new(i as nat, |k: int| id_char(lower@[k])),
        decreases lower@.len() - i,
    {
        let c = lower[i];
        mapped.push(if is_ascii_alnum(c) { c } else { '-' });
        i += 1;
    }
    let mut words: Vec<Vec<char>> = Vec::new();
    let mut j: usize = 0;
    while j < mapped.len()
        invariant
            j <= mapped@.len(),
            words.deep_view() == dash_words(mapped@.subrange(0, j as int)),
        decreases mapped@.len() - j,
    {
        let c = mapped[j];
        let ghost prefix = mapped@.subrange(0, j as int);
        let ghost next = mapped@.subrange(0, j + 1);
        proof {
            assert(next.drop_last() =~= prefix);
            assert(next.last() == c);
            if j >= 1 {
                assert(next[next.len() - 2] == mapped@[j - 1]);
                if mapped@[j - 1] != '-' {
                    assert(prefix.last() == mapped@[j - 1]);
                    lemma_dash_words_nonempty_last(prefix);
                }
            }
        }
        if c == '-' {
        } else if j >= 1 && mapped[j - 1] != '-' && words.len() > 0 {
            let ghost before = words.deep_view();
            let mut last = words.pop().unwrap();
            proof {
                crate::text::lemma_chars_deep_view(last);
                assert(last@ == before.last());
            }
            last.push(c);
            words.push(last);
            proof {
                crate::text::lemma_chars_deep_view(last);
                assert(words.deep_view() =~= before.update(before.len() - 1, before.last().push(c)));
            }
        } else {
            let ghost before = words.deep_view();
            let mut w: Vec<char> = Vec::new();
            w.push(c);
            words.push(w);
            proof {
                crate::text::lemma_chars_deep_view(w);
                assert(w@ =~= seq![c]);
                assert(words.deep_view() =~= before.push(seq![c]));
            }
        }
        j += 1;
    }
    assert(mapped@.subrange(0, mapped@.len() as int) =~= mapped@);
    let collapsed = join_chars(&words, "-");
    if collapsed.len() == 0 {
        let mut fallback = str_chars("library-");
        let digits = decimal_chars(now);
        push_chars(&mut fallback, digits.as_slice());
        chars_to_string(fallback.as_slice())
    } else {
        chars_to_string(collapsed.as_slice())
    }
}

/// An episode record with its defaults filled in.
pub fn normalize_episode_record(episode: LibraryEpisodeRecord, default_updated_at: u64) -> (r: LibraryEpisodeRecord)
    ensures
        r@ == normalize_episode_spec(episode@, default_updated_at),
{
    let mut episode = episode;
    if episode.updated_at_unix == 0 {
        episode.updated_at_unix = default_updated_at;
    }
    match episode.progress_percent {
        Some(v) => {
            if v > 100 {
                episode.progress_percent = Some(100);
            }
        },
        None => {},
    }
    if episode.video_path.is_none() && episode.primary_subtitle_path.is_none() && episode.secondary_subtitle_path.is_none() {
        episode.watch_status = WatchStatus::Unwatched;
    }
    episode
}

/// An entry with its defaults filled in.
pub fn normalize_entry(entry: &LocalAnimeLibraryEntry, now: u64) -> (r: LocalAnimeLibraryEntry)
    ensures
        r@ == normalize_entry_spec(entry@, now),
{
    let id_chars = string_chars(&entry.id);
    let id = if is_blank(id_chars.as_slice()) {
        library_entry_id(entry.project_name.as_str(), entry.season.as_str(), &entry.output_dir, now)
    } else {
        entry.id.clone()
    };
    let created = if entry.created_at_unix == 0 {
        if entry.organized_at_unix > 0 { entry.organized_at_unix } else { now }
    } else {
        entry.created_at_unix
    };
    let updated = if entry.updated_at_unix == 0 {
        if entry.organized_at_unix > 0 { entry.organized_at_unix } else { created }
    } else {
        entry.updated_at_unix
    };
    let organized = if entry.organized_at_unix == 0 { created } else { entry.organized_at_unix };
    let ghost ev = views(entry.episodes@);
    let mut episodes: Vec<LibraryEpisodeRecord> = Vec::new();
    let mut i: usize = 0;
    while i < entry.episodes.len()
        invariant
            i <= entry.episodes@.len(),
            ev == views(entry.episodes@),
            episodes@.len() == i,
            forall|k: int| 0 <= k < i ==> (#[trigger] episodes@[k])@ == normalize_episode_spec(ev[k], updated),
        decreases entry.episodes@.len() - i,
    {
        let e = copy_episode_record(&entry.episodes[i]);
        episodes.push(normalize_episode_record(e, updated));
        i += 1;
    }
    let r = LocalAnimeLibraryEntry {
        id,
        project_name: entry.project_name.clone(),
        season: entry.season.clone(),
        output_dir: copy_path(&entry.output_dir),
        mode: entry.mode,
        episode_count: entry.episodes.len(),
        subtitle_preference_snapshot: entry.subtitle_preference_snapshot,
        cover_strategy_snapshot: entry.cover_strategy_snapshot,
        episodes,
        created_at_unix: created,
        updated_at_unix: updated,
        organized_at_unix: organized,
    };
    assert(r@.episodes =~= normalize_entry_spec(entry@, now).episodes);
    r
}

/// Normalizes a library file: schema version 1 and every entry normalized.
pub fn normalize_library_file(file: &mut LocalAnimeLibraryFile, now: u64)
    ensures
        final(file)@ == normalize_file_spec(old(file)@, now),
{
    let ghost before = file@;
    let mut entries: Vec<LocalAnimeLibraryEntry> = Vec::new();
    let mut i: usize = 0;
    while i < file.entries.len()
        invariant
            i <= file.entries@.len(),
            before == file@,
            entries@.len() == i,
            forall|k: int| 0 <= k < i ==> (#[trigger] entries@[k])@ == normalize_entry_spec(before.entries[k], now),
        decreases file.entries@.len() - i,
    {
        entries.push(normalize_entry(&file.entries[i], now));
        i += 1;
    }
    file.schema_version = 1;
    file.entries = entries;
    assert(file@.entries =~= normalize_file_spec(before, now).entries);
}

/// A library file with no entries.
pub fn empty_library_file() -> (r: LocalAnimeLibraryFile)
    ensures
        r@.schema_version == 1,
        r@.app_version == "0.1.0"@,
        r@.entries.len() == 0,
{
    let v = str_chars("0.1.0");
    LocalAnimeLibraryFile { schema_version: 1, app_version: chars_to_string(v.as_slice()), entries: Vec::new() }
}

/// Whether a path is absolute: it starts at the root, or at a prefix and then the root.
pub open spec fn is_absolute_spec(p: Seq<ComponentV>) -> bool {
    (p.len() > 0 && p[0] is Root) || (p.len() > 1 && p[0] is Prefix && p[1] is Root)
}

/// A path from the project map: absolute ones as they are, relative ones
/// under `base_dir`.
pub open spec fn resolve_spec(base_dir: Seq<ComponentV>, path: Seq<ComponentV>) -> Seq<ComponentV> {
    if is_absolute_spec(path) { path } else { base_dir + path }
}

/// A path from the project map: absolute ones as they are, relative ones
/// under `base_dir`.
pub fn resolve_project_map_path(base_dir: &MediaPath, path: &MediaPath) -> (r: MediaPath)
    ensures
        r@ == resolve_spec(base_dir@, path@),
{
    let n = path.parts.len();
    let absolute = if n > 0 {
        assert(path@[0] == path.parts@[0]@);
        match &path.parts[0] {
            PathPart::Root => true,
            PathPart::Prefix(..) => {
                if n > 1 {
                    assert(path@[1] == path.parts@[1]@);
                    match &path.parts[1] {
                        PathPart::Root => true,
                        _ => false,
                    }
                } else {
                    false
                }
            },
            _ => false,
        }
    } else {
        false
    };
    if absolute {
        return copy_path(path);
    }
    let mut r = copy_path(base_dir);
    let mut i: usize = 0;
    while i < n
        invariant
            n == path@.len(),
            i <= n,
            r@ == base_dir@ + path@.subrange(0, i as int),
        decreases n - i,
    {
        let ghost before = r@;
        r.parts.push(crate::path::copy_part(&path.parts[i]));
        assert(r@ =~= before.push(path@[i as int]));
        assert(path@.subrange(0, i + 1) =~= path@.subrange(0, i as int).push(path@[i as int]));
        i += 1;
    }
    assert(path@.subrange(0, n as int) =~= path@);
    r
}

/// Why a library operation was refused.
#[derive(Debug, Clone, Copy, PartialEq, Eq, Structural)]
pub enum LibraryError {
    /// No entry has the requested identifier.
    EntryNotFound,
    /// The entry has no episode with the requested key.
    EpisodeNotFound,
}

pub open spec fn library_error_text(e: LibraryError) -> Seq<char> {
    match e {
        LibraryError::EntryNotFound => "未找到本地动漫库条目"@,
        LibraryError::EpisodeNotFound => "未找到本地动漫库剧集"@,
    }
}

impl LibraryError {
    /// The message shown for the error.
    pub fn message(&self) -> (r: String)
        ensures
            r@ == library_error_text(*self),
    {
        let m = match self {
            LibraryError::EntryNotFound => str_chars("未找到本地动漫库条目"),
            LibraryError::EpisodeNotFound => str_chars("未找到本地动漫库剧集"),
        };
        chars_to_string(m.as_slice())
    }
}

/// Whether an entry is the one a save replaces: same identifier, or same
/// project, season and output directory.
pub open spec fn same_entry(e: EntryV, id: Seq<char>, project_name: Seq<char>, season: Seq<char>, output_dir: Seq<ComponentV>) -> bool {
    e.id == id || (e.project_name == project_name && e.season == season && crate::path::same_path(e.output_dir, output_dir))
}

/// The creation time of the first entry a save replaces.
pub open spec fn first_same_created(
    es: Seq<EntryV>,
    id: Seq<char>,
    project_name: Seq<char>,
    season: Seq<char>,
    output_dir: Seq<ComponentV>,
) -> Option<u64>
    decreases es.len(),
{
    if es.len() == 0 {
        None
    } else if same_entry(es[0], id, project_name, season, output_dir) {
        Some(es[0].created_at_unix)
    } else {
        first_same_created(es.drop_first(), id, project_name, season, output_dir)
    }
}

/// The entry a save writes, before the file is normalized.
pub open spec fn saved_entry_spec(request: SaveLocalLibraryRequest, old_entries: Seq<EntryV>, now: u64) -> EntryV {
    let id = entry_id_spec(request.project_name@, request.season@, request.output_dir@, now);
    let created = match first_same_created(old_entries, id, request.project_name@, request.season@, request.output_dir@) {
        Some(c) => if c > 0 { c } else { now },
        None => now,
    };
    let eps = views(request.episodes@);
    EntryV {
        id,
        project_name: request.project_name@,
        season: request.season@,
        output_dir: request.output_dir@,
        mode: request.mode,
        episode_count: request.episodes@.len() as usize,
        subtitle_preference_snapshot: request.subtitle_preference_snapshot,
        cover_strategy_snapshot: request.cover_strategy_snapshot,
        episodes: Seq::new(eps.len(), |i: int| normalize_episode_spec(eps[i], now)),
        created_at_unix: created,
        updated_at_unix: now,
        organized_at_unix: now,
    }
}

/// The library after a save: the entries it replaces removed, the new entry
/// last, and the whole file normalized.
pub open spec fn saved_file_spec(f: LibraryFileV, request: SaveLocalLibraryRequest, now: u64) -> LibraryFileV {
    let e = saved_entry_spec(request, f.entries, now);
    let kept = f.entries.filter(|x: EntryV| !same_entry(x, e.id, e.project_name, e.season, e.output_dir));
    normalize_file_spec(LibraryFileV { entries: kept.push(e), ..f }, now)
}

fn entry_matches(e: &LocalAnimeLibraryEntry, id: &String, project_name: &String, season: &String, output_dir: &MediaPath) -> (r: bool)
    ensures
        r == same_entry(e@, id@, project_name@, season@, output_dir@),
{
    e.id == *id || (e.project_name == *project_name && e.season == *season && path_equal(&e.output_dir, output_dir))
}

/// Saves an entry for an organized project: it replaces the entries with the
/// same identifier or the same project, season and output directory, keeps
/// the creation time of the first of them, and goes last. Returns the saved
/// entry as normalized.
pub fn save_library_entry(file: &mut LocalAnimeLibraryFile, request: SaveLocalLibraryRequest, now: u64) -> (r: LocalAnimeLibraryEntry)
    ensures
        final(file)@ == saved_file_spec(old(file)@, request, now),
        final(file)@.entries.len() > 0,
        r@ == final(file)@.entries.last(),
{
    let ghost before = file@;
    let id = library_entry_id(request.project_name.as_str(), request.season.as_str(), &request.output_dir, now);
    let ghost es = before.entries;
    let mut created = now;
    let mut found = false;
    let mut i: usize = 0;
    assert(es.skip(0) =~= es);
    while i < file.entries.len()
        invariant
            i <= file.entries@.len(),
            es == views(file.entries@),
            !found ==> created == now,
            !found ==> first_same_created(es, id@, request.project_name@, request.season@, request.output_dir@)
                == first_same_created(es.skip(i as int), id@, request.project_name@, request.season@, request.output_dir@),
            found ==> created == (match first_same_created(es, id@, request.project_name@, request.season@, request.output_dir@) {
                Some(c) => if c > 0 { c } else { now },
                None => now,
            }),
        decreases file.entries@.len() - i,
    {
        assert(es.skip(i as int)[0] == es[i as int]);
        assert(es.skip(i as int).drop_first() =~= es.skip(i + 1));
        if !found && entry_matches(&file.entries[i], &id, &request.project_name, &request.season, &request.output_dir) {
            let c = file.entries[i].created_at_unix;
            created = if c > 0 { c } else { now };
            found = true;
        }
        i += 1;
    }
    assert(!found ==> es.skip(es.len() as int) =~= Seq::<EntryV>::empty());
    let ghost eps = views(request.episodes@);
    let mut episodes: Vec<LibraryEpisodeRecord> = Vec::new();
    let mut k: usize = 0;
    while k < request.episodes.len()
        invariant
            k <= request.episodes@.len(),
            eps == views(request.episodes@),
            episodes@.len() == k,
            forall|q: int| 0 <= q < k ==> (#[trigger] episodes@[q])@ == normalize_episode_spec(eps[q], now),
        decreases request.episodes@.len() - k,
    {
        let e = copy_episode_record(&request.episodes[k]);
        episodes.push(normalize_episode_record(e, now));
        k += 1;
    }
    let entry = LocalAnimeLibraryEntry {
        id,
        project_name: request.project_name,
        season: request.season,
        output_dir: request.output_dir,
        mode: request.mode,
        episode_count: request.episodes.len(),
        subtitle_preference_snapshot: request.subtitle_preference_snapshot,
        cover_strategy_snapshot: request.cover_strategy_snapshot,
        episodes,
        created_at_unix: created,
        updated_at_unix: now,
        organized_at_unix: now,
    };
    let ghost ev = saved_entry_spec(request, es, now);
    assert(entry@.episodes =~= ev.episodes);
    assert(entry@ == ev);
    let ghost pred = |x: EntryV| !same_entry(x, ev.id, ev.project_name, ev.season, ev.output_dir);
    let mut kept: Vec<LocalAnimeLibraryEntry> = Vec::new();
    assert(es.subrange(0, 0).filter(pred) =~= Seq::<EntryV>::empty()) by {
        reveal(Seq::filter);
    }
    let mut j: usize = 0;
    while j < file.entries.len()
        invariant
            j <= file.entries@.len(),
            es == views(file.entries@),
            entry@ == ev,
            pred == (|x: EntryV| !same_entry(x, ev.id, ev.project_name, ev.season, ev.output_dir)),
            views(kept@) == es.subrange(0, j as int).filter(pred),
        decreases file.entries@.len() - j,
    {
        let ghost old_kept = views(kept@);
        if !entry_matches(&file.entries[j], &entry.id, &entry.project_name, &entry.season, &entry.output_dir) {
            kept.push(copy_entry(&file.entries[j]));
            assert(views(kept@) =~= old_kept.push(es[j as int]));
        }
        proof {
            let t = es.subrange(0, j + 1);
            assert(t.drop_last() =~= es.subrange(0, j as int));
            assert(t.last() == file.entries@[j as int]@);
            assert(t.filter(pred) == (if pred(t.last()) { t.drop_last().filter(pred).push(t.last()) } else { t.drop_last().filter(pred) })) by {
                reveal(Seq::filter);
            }
        }
        j += 1;
    }
    assert(es.subrange(0, es.len() as int) =~= es);
    let ghost kv = views(kept@);
    kept.push(entry);
    assert(views(kept@) =~= kv.push(ev));
    file.entries = kept;
    assert(file@ == (LibraryFileV { entries: kv.push(ev), ..before }));
    normalize_library_file(file, now);
    assert(file@.entries.len() == kv.len() + 1);
    let n = file.entries.len();
    assert(file@.entries[n - 1] == file.entries@[n - 1]@);
    copy_entry(&file.entries[n - 1])
}

/// Removes the entries with an identifier; refused when there is none.
pub fn remove_library_entry(file: &mut LocalAnimeLibraryFile, entry_id: &str, now: u64) -> (r: Result<(), LibraryError>)
    ensures
        ({
            let kept = old(file)@.entries.filter(|x: EntryV| x.id != entry_id@);
            &&& (r is Err) == (kept.len() == old(file)@.entries.len())
            &&& r is Err ==> r == Err::<(), LibraryError>(LibraryError::EntryNotFound) && final(file)@ == old(file)@
            &&& r is Ok ==> final(file)@ == normalize_file_spec(LibraryFileV { entries: kept, ..old(file)@ }, now)
        }),
{
    let ghost before = file@;
    let ghost es = before.entries;
    let ghost pred = |x: EntryV| x.id != entry_id@;
    let target = str_chars(entry_id);
    let target_text = chars_to_string(target.as_slice());
    let mut kept: Vec<LocalAnimeLibraryEntry> = Vec::new();
    assert(es.subrange(0, 0).filter(pred) =~= Seq::<EntryV>::empty()) by {
        reveal(Seq::filter);
    }
    let mut j: usize = 0;
    while j < file.entries.len()
        invariant
            j <= file.entries@.len(),
            es == views(file.entries@),
            target_text@ == entry_id@,
            pred == (|x: EntryV| x.id != entry_id@),
            views(kept@) == es.subrange(0, j as int).filter(pred),
        decreases file.entries@.len() - j,
    {
        let ghost old_kept = views(kept@);
        if file.entries[j].id != target_text {
            kept.push(copy_entry(&file.entries[j]));
            assert(views(kept@) =~= old_kept.push(es[j as int]));
        }
        proof {
            let t = es.subrange(0, j + 1);
            assert(t.drop_last() =~= es.subrange(0, j as int));
            assert(t.last() == file.entries@[j as int]@);
            assert(t.filter(pred) == (if pred(t.last()) { t.drop_last().filter(pred).push(t.last()) } else { t.drop_last().filter(pred) })) by {
                reveal(Seq::filter);
            }
        }
        j += 1;
    }
    assert(es.subrange(0, es.len() as int) =~= es);
    if kept.len() == file.entries.len() {
        return Err(LibraryError::EntryNotFound);
    }
    let ghost kv = views(kept@);
    file.entries = kept;
    assert(file@.entries =~= kv);
    assert(file@ == (LibraryFileV { entries: kv, ..before }));
    normalize_library_file(file, now);
    Ok(())
}

/// The position of the first entry with an identifier.
pub open spec fn entry_position(es: Seq<EntryV>, id: Seq<char>) -> Option<int> {
    first_index(es, |e: EntryV| e.id == id)
}

/// Finds the first entry with an identifier.
pub fn library_entry_index(file: &LocalAnimeLibraryFile, entry_id: &str) -> (r: Option<usize>)
    ensures
        match r {
            Some(i) => entry_position(file@.entries, entry_id@) == Some(i as int),
            None => entry_position(file@.entries, entry_id@) is None,
        },
{
    let ghost es = file@.entries;
    let ghost p = |e: EntryV| e.id == entry_id@;
    let target = str_chars(entry_id);
    let target_text = chars_to_string(target.as_slice());
    let mut i: usize = 0;
    while i < file.entries.len()
        invariant
            i <= file.entries@.len(),
            es == views(file.entries@),
            target_text@ == entry_id@,
            p == (|e: EntryV| e.id == entry_id@),
            forall|k: int| 0 <= k < i ==> !p(#[trigger] es[k]),
        decreases file.entries@.len() - i,
    {
        assert(es[i as int] == file.entries@[i as int]@);
        if file.entries[i].id == target_text {
            proof {
                lemma_first_index(es, p, i as int);
            }
            return Some(i);
        }
        i += 1;
    }
    proof {
        lemma_first_index(es, p, i as int);
    }
    None
}

/// Finds the first episode of an entry with a key.
pub fn episode_index(entry: &LocalAnimeLibraryEntry, episode_key: &str) -> (r: Option<usize>)
    ensures
        match r {
            Some(j) => first_index(entry@.episodes, |e: EpisodeRecordV| e.episode_key == episode_key@) == Some(j as int),
            None => first_index(entry@.episodes, |e: EpisodeRecordV| e.episode_key == episode_key@) is None,
        },
{
    let ghost eps = entry@.episodes;
    let ghost p = |e: EpisodeRecordV| e.episode_key == episode_key@;
    let target = str_chars(episode_key);
    let target_text = chars_to_string(target.as_slice());
    let mut j: usize = 0;
    while j < entry.episodes.len()
        invariant
            j <= entry.episodes@.len(),
            eps == views(entry.episodes@),
            target_text@ == episode_key@,
            p == (|e: EpisodeRecordV| e.episode_key == episode_key@),
            forall|k: int| 0 <= k < j ==> !p(#[trigger] eps[k]),
        decreases entry.episodes@.len() - j,
    {
        assert(eps[j as int] == entry.episodes@[j as int]@);
        if entry.episodes[j].episode_key == target_text {
            proof {
                lemma_first_index(eps, p, j as int);
            }
            return Some(j);
        }
        j += 1;
    }
    proof {
        lemma_first_index(eps, p, j as int);
    }
    None
}

/// An episode after a progress update.
pub open spec fn progressed_episode(e: EpisodeRecordV, request: UpdateLibraryEpisodeProgressRequest, now: u64) -> EpisodeRecordV {
    EpisodeRecordV {
        watch_status: request.watch_status,
        last_position_sec: request.last_position_sec,
        progress_percent: request.progress_percent,
        updated_at_unix: now,
        ..e
    }
}

/// An entry after a progress update of its `j`-th episode.
pub open spec fn progressed_entry(e: EntryV, j: int, request: UpdateLibraryEpisodeProgressRequest, now: u64) -> EntryV {
    EntryV {
        episodes: e.episodes.update(j, progressed_episode(e.episodes[j], request, now)),
        updated_at_unix: now,
        ..e
    }
}

/// Records the watch progress of an episode: the first entry with the
/// requested identifier, its first episode with the requested key. Returns
/// the updated entry.
pub fn update_library_episode_progress(
    file: &mut LocalAnimeLibraryFile,
    request: UpdateLibraryEpisodeProgressRequest,
    now: u64,
) -> (r: Result<LocalAnimeLibraryEntry, LibraryError>)
    ensures
        match entry_position(old(file)@.entries, request.entry_id@) {
            None => r == Err::<LocalAnimeLibraryEntry, LibraryError>(LibraryError::EntryNotFound) && final(file)@ == old(file)@,
            Some(i) => match first_index(old(file)@.entries[i].episodes, |e: EpisodeRecordV| e.episode_key == request.episode_key@) {
                None => r == Err::<LocalAnimeLibraryEntry, LibraryError>(LibraryError::EpisodeNotFound) && final(file)@ == old(file)@,
                Some(j) => {
                    let ne = progressed_entry(old(file)@.entries[i], j, request, now);
                    &&& final(file)@ == (LibraryFileV { entries: old(file)@.entries.update(i, ne), ..old(file)@ })
                    &&& r matches Ok(e) && e@ == ne
                },
            },
        },
{
    let ghost before = file@;
    let found = library_entry_index(file, request.entry_id.as_str());
    let i = match found {
        Some(i) => i,
        None => {
            return Err(LibraryError::EntryNotFound);
        },
    };
    proof {
        crate::sort::lemma_first_index_found(before.entries, |e: EntryV| e.id == request.entry_id@);
    }
    let mut entry = copy_entry(&file.entries[i]);
    let ghost ev = entry@;
    let ghost eps = ev.episodes;
    let j = match episode_index(&entry, request.episode_key.as_str()) {
        Some(j) => j,
        None => {
            return Err(LibraryError::EpisodeNotFound);
        },
    };
    proof {
        crate::sort::lemma_first_index_found(eps, |e: EpisodeRecordV| e.episode_key == request.episode_key@);
    }
    let mut episode = copy_episode_record(&entry.episodes[j]);
    episode.watch_status = request.watch_status;
    episode.last_position_sec = request.last_position_sec;
    episode.progress_percent = request.progress_percent;
    episode.updated_at_unix = now;
    entry.episodes.set(j, episode);
    entry.updated_at_unix = now;
    assert(entry@.episodes =~= eps.update(j as int, progressed_episode(eps[j as int], request, now)));
    let result = copy_entry(&entry);
    file.entries.set(i, entry);
    assert(file@.entries =~= before.entries.update(i as int, result@));
    Ok(result)
}

/// An optional path from the project map, resolved against a directory.
pub open spec fn resolve_opt(base_dir: Seq<ComponentV>, p: Option<Seq<ComponentV>>) -> Option<Seq<ComponentV>> {
    match p {
        Some(q) => Some(resolve_spec(base_dir, q)),
        None => None,
    }
}

/// The project map's record of an episode key, the first one.
pub open spec fn map_episode_for(map_episodes: Seq<MapEpisodeV>, key: Seq<char>) -> Option<MapEpisodeV> {
    match first_index(map_episodes, |m: MapEpisodeV| m.episode_key == key) {
        Some(i) => Some(map_episodes[i]),
        None => None,
    }
}

/// Whether the map gives an episode other paths than it has.
pub open spec fn episode_changed(e: EpisodeRecordV, m: MapEpisodeV, base_dir: Seq<ComponentV>) -> bool {
    !crate::path::same_opt_path(e.video_path, resolve_opt(base_dir, m.video))
        || !crate::path::same_opt_path(e.primary_subtitle_path, resolve_opt(base_dir, m.primary_subtitle))
        || !crate::path::same_opt_path(e.secondary_subtitle_path, resolve_opt(base_dir, m.secondary_subtitle))
}

/// An episode with its paths taken from the map, when the map has it.
pub open spec fn repair_episode_spec(e: EpisodeRecordV, map_episodes: Seq<MapEpisodeV>, base_dir: Seq<ComponentV>, now: u64) -> EpisodeRecordV {
    match map_episode_for(map_episodes, e.episode_key) {
        Some(m) => EpisodeRecordV {
            video_path: resolve_opt(base_dir, m.video),
            primary_subtitle_path: resolve_opt(base_dir, m.primary_subtitle),
            secondary_subtitle_path: resolve_opt(base_dir, m.secondary_subtitle),
            updated_at_unix: now,
            ..e
        },
        None => e,
    }
}

/// The number of episodes the map gives other paths.
pub open spec fn count_repaired(eps: Seq<EpisodeRecordV>, map_episodes: Seq<MapEpisodeV>, base_dir: Seq<ComponentV>) -> nat
    decreases eps.len(),
{
    if eps.len() == 0 {
        0
    } else {
        count_repaired(eps.drop_last(), map_episodes, base_dir) + match map_episode_for(map_episodes, eps.last().episode_key) {
            Some(m) => if episode_changed(eps.last(), m, base_dir) { 1nat } else { 0nat },
            None => 0nat,
        }
    }
}

/// The number of episodes the map lacks.
pub open spec fn count_missing(eps: Seq<EpisodeRecordV>, map_episodes: Seq<MapEpisodeV>) -> nat
    decreases eps.len(),
{
    if eps.len() == 0 {
        0
    } else {
        count_missing(eps.drop_last(), map_episodes) + if map_episode_for(map_episodes, eps.last().episode_key) is None { 1nat } else { 0nat }
    }
}

/// An entry repaired from a project map: its episodes' paths, its project,
/// season and output directory.
pub open spec fn repaired_entry_spec(
    e: EntryV,
    project_name: Seq<char>,
    season: Seq<char>,
    map_episodes: Seq<MapEpisodeV>,
    base_dir: Seq<ComponentV>,
    now: u64,
) -> EntryV {
    EntryV {
        project_name,
        season,
        output_dir: base_dir,
        updated_at_unix: now,
        episodes: Seq::new(e.episodes.len(), |k: int| repair_episode_spec(e.episodes[k], map_episodes, base_dir, now)),
        ..e
    }
}

/// The project map of an entry: `anime-sub-map.json` in its output directory.
pub open spec fn entry_map_path(e: EntryV) -> Seq<ComponentV> {
    e.output_dir.push(ComponentV::Name("anime-sub-map.json"@))
}

/// The project map path of the first entry with an identifier.
pub fn library_entry_map_path(file: &LocalAnimeLibraryFile, entry_id: &str) -> (r: Option<MediaPath>)
    ensures
        match entry_position(file@.entries, entry_id@) {
            Some(i) => r matches Some(p) && p@ == entry_map_path(file@.entries[i]),
            None => r is None,
        },
{
    match library_entry_index(file, entry_id) {
        Some(i) => {
            proof {
                crate::sort::lemma_first_index_found(file@.entries, |e: EntryV| e.id == entry_id@);
            }
            assert(file@.entries[i as int] == file.entries@[i as int]@);
            let name = str_chars("anime-sub-map.json");
            Some(file.entries[i].output_dir.join_name(name.as_slice()))
        },
        None => None,
    }
}

fn opt_path_equal(a: &Option<MediaPath>, b: &Option<MediaPath>) -> (r: bool)
    ensures
        r == crate::path::same_opt_path(opt_path(*a), opt_path(*b)),
{
    match (a, b) {
        (Some(x), Some(y)) => path_equal(x, y),
        (None, None) => true,
        _ => false,
    }
}

fn resolve_opt_path(base_dir: &MediaPath, p: &Option<MediaPath>) -> (r: Option<MediaPath>)
    ensures
        opt_path(r) == resolve_opt(base_dir@, opt_path(*p)),
{
    match p {
        Some(q) => Some(resolve_project_map_path(base_dir, q)),
        None => None,
    }
}

/// Repairs one episode from the map: its new record and whether the map
/// has it and changed it.
fn repair_episode(
    e: &LibraryEpisodeRecord,
    map_episodes: &Vec<crate::domain::AnimeSubMapEpisode>,
    base_dir: &MediaPath,
    now: u64,
) -> (r: (LibraryEpisodeRecord, bool, bool))
    ensures
        r.0@ == repair_episode_spec(e@, views(map_episodes@), base_dir@, now),
        r.1 == (map_episode_for(views(map_episodes@), e@.episode_key) is None),
        r.2 == (match map_episode_for(views(map_episodes@), e@.episode_key) {
            Some(m) => episode_changed(e@, m, base_dir@),
            None => false,
        }),
{
    let ghost ms = views(map_episodes@);
    let ghost p = |m: MapEpisodeV| m.episode_key == e@.episode_key;
    let mut k: usize = 0;
    while k < map_episodes.len()
        invariant
            k <= map_episodes@.len(),
            ms == views(map_episodes@),
            p == (|m: MapEpisodeV| m.episode_key == e@.episode_key),
            forall|q: int| 0 <= q < k ==> !p(#[trigger] ms[q]),
        decreases map_episodes@.len() - k,
    {
        assert(ms[k as int] == map_episodes@[k as int]@);
        if map_episodes[k].episode_key == e.episode_key {
            proof {
                lemma_first_index(ms, p, k as int);
            }
            let m = &map_episodes[k];
            let video = resolve_opt_path(base_dir, &m.video);
            let primary = resolve_opt_path(base_dir, &m.primary_subtitle);
            let secondary = resolve_opt_path(base_dir, &m.secondary_subtitle);
            let changed = !opt_path_equal(&e.video_path, &video) || !opt_path_equal(&e.primary_subtitle_path, &primary)
                || !opt_path_equal(&e.secondary_subtitle_path, &secondary);
            let mut r = copy_episode_record(e);
            r.video_path = video;
            r.primary_subtitle_path = primary;
            r.secondary_subtitle_path = secondary;
            r.updated_at_unix = now;
            return (r, false, changed);
        }
        k += 1;
    }
    proof {
        lemma_first_index(ms, p, k as int);
    }
    (copy_episode_record(e), true, false)
}

/// Repairs the first entry with an identifier from its project map: each
/// episode the map has gets the map's paths, resolved against the map's
/// output directory when that exists and the entry's otherwise; the entry
/// takes the map's project and season. The file is normalized.
pub fn repair_library_entry(
    file: &mut LocalAnimeLibraryFile,
    entry_id: &str,
    project_map: AnimeSubMap,
    map_dir_exists: bool,
    now: u64,
) -> (r: Result<RepairLibraryEntryPathsResult, LibraryError>)
    ensures
        match entry_position(old(file)@.entries, entry_id@) {
            None => r == Err::<RepairLibraryEntryPathsResult, LibraryError>(LibraryError::EntryNotFound) && final(file)@ == old(file)@,
            Some(i) => {
                let e = old(file)@.entries[i];
                let base = if map_dir_exists { project_map.output_dir@ } else { e.output_dir };
                let ms = views(project_map.episodes@);
                let ne = repaired_entry_spec(e, project_map.project_name@, project_map.season@, ms, base, now);
                &&& final(file)@ == normalize_file_spec(LibraryFileV { entries: old(file)@.entries.update(i, ne), ..old(file)@ }, now)
                &&& r matches Ok(res) && {
                    &&& res.entry@ == final(file)@.entries[i]
                    &&& res.repaired_episode_count as nat == count_repaired(e.episodes, ms, base)
                    &&& res.missing_episode_count as nat == count_missing(e.episodes, ms)
                    &&& res.map_file_path@ == entry_map_path(e)
                }
            },
        },
{
    let ghost before = file@;
    let i = match library_entry_index(file, entry_id) {
        Some(i) => i,
        None => {
            return Err(LibraryError::EntryNotFound);
        },
    };
    proof {
        crate::sort::lemma_first_index_found(before.entries, |e: EntryV| e.id == entry_id@);
    }
    let ghost e = before.entries[i as int];
    assert(e == file.entries@[i as int]@);
    let name = str_chars("anime-sub-map.json");
    let map_file_path = file.entries[i].output_dir.join_name(name.as_slice());
    let base_dir = if map_dir_exists { copy_path(&project_map.output_dir) } else { copy_path(&file.entries[i].output_dir) };
    let ghost ms = views(project_map.episodes@);
    let mut repaired: usize = 0;
    let mut missing: usize = 0;
    let mut episodes: Vec<LibraryEpisodeRecord> = Vec::new();
    let mut k: usize = 0;
    while k < file.entries[i].episodes.len()
        invariant
            i < file.entries@.len(),
            file@ == before,
            e == file.entries@[i as int]@,
            k <= e.episodes.len(),
            ms == views(project_map.episodes@),
            episodes@.len() == k,
            forall|q: int| 0 <= q < k ==> (#[trigger] episodes@[q])@ == repair_episode_spec(e.episodes[q], ms, base_dir@, now),
            repaired as nat == count_repaired(e.episodes.subrange(0, k as int), ms, base_dir@),
            missing as nat == count_missing(e.episodes.subrange(0, k as int), ms),
            repaired <= k,
            missing <= k,
        decreases e.episodes.len() - k,
    {
        let ghost t = e.episodes.subrange(0, k + 1);
        assert(t.drop_last() =~= e.episodes.subrange(0, k as int));
        assert(t.last() == file.entries@[i as int].episodes@[k as int]@);
        let (record, is_missing, changed) = repair_episode(&file.entries[i].episodes[k], &project_map.episodes, &base_dir, now);
        if is_missing {
            missing += 1;
        }
        if changed {
            repaired += 1;
        }
        episodes.push(record);
        k += 1;
    }
    assert(e.episodes.subrange(0, e.episodes.len() as int) =~= e.episodes);
    let mut entry = copy_entry(&file.entries[i]);
    entry.project_name = project_map.project_name;
    entry.season = project_map.season;
    entry.output_dir = base_dir;
    entry.updated_at_unix = now;
    entry.episodes = episodes;
    let ghost ne = entry@;
    assert(ne.episodes =~= repaired_entry_spec(e, project_map.project_name@, project_map.season@, ms, if map_dir_exists { project_map.output_dir@ } else { e.output_dir }, now).episodes);
    file.entries.set(i, entry);
    assert(file@.entries =~= before.entries.update(i as int, ne));
    normalize_library_file(file, now);
    assert(file@.entries.len() == before.entries.len());
    assert(views(file.entries@).len() == file.entries@.len());
    assert(file@.entries[i as int] == file.entries@[i as int]@);
    let updated = copy_entry(&file.entries[i]);
    Ok(RepairLibraryEntryPathsResult {
        entry: updated,
        repaired_episode_count: repaired,
        missing_episode_count: missing,
        map_file_path,
    })
}

/// What scanning a sample video for embedded subtitles gave.
#[derive(Debug, Clone)]
pub enum EmbeddedScanOutcome {
    /// No episode had a video file to scan.
    NoSample,
    /// Scanning the sample of the episode with this key failed with this message.
    Failed(String, String),
    /// The sample's embedded subtitle tracks.
    Tracks(Vec<EmbeddedSubtitleTrack>),
}

/// Whether an episode has a video path among the files that exist.
pub open spec fn has_video_among(e: EpisodeRecordV, video_files: Seq<MediaPath>) -> bool {
    match e.video_path {
        Some(p) => crate::organizer::contains_path(video_files, p),
        None => false,
    }
}

/// The sample to scan: the first episode whose video file exists, with its key and video path.
pub fn embedded_scan_sample(entry: &LocalAnimeLibraryEntry, video_files: &Vec<MediaPath>) -> (r: Option<(String, MediaPath)>)
    ensures
        match first_index(entry@.episodes, |e: EpisodeRecordV| has_video_among(e, video_files@)) {
            Some(j) => r matches Some(pair) && pair.0@ == entry@.episodes[j].episode_key
                && Some(pair.1@) == entry@.episodes[j].video_path,
            None => r is None,
        },
{
    let ghost eps = entry@.episodes;
    let ghost p = |e: EpisodeRecordV| has_video_among(e, video_files@);
    let mut j: usize = 0;
    while j < entry.episodes.len()
        invariant
            j <= entry.episodes@.len(),
            eps == views(entry.episodes@),
            p == (|e: EpisodeRecordV| has_video_among(e, video_files@)),
            forall|k: int| 0 <= k < j ==> !p(#[trigger] eps[k]),
        decreases entry.episodes@.len() - j,
    {
        assert(eps[j as int] == entry.episodes@[j as int]@);
        match &entry.episodes[j].video_path {
            Some(v) => {
                if crate::organizer::path_exists_in(video_files, v) {
                    proof {
                        lemma_first_index(eps, p, j as int);
                    }
                    return Some((entry.episodes[j].episode_key.clone(), copy_path(v)));
                }
            },
            None => {},
        }
        j += 1;
    }
    proof {
        lemma_first_index(eps, p, j as int);
    }
    None
}

/// The number of episodes with a video path.
pub open spec fn count_with_video(eps: Seq<EpisodeRecordV>) -> nat
    decreases eps.len(),
{
    if eps.len() == 0 {
        0
    } else {
        count_with_video(eps.drop_last()) + if eps.last().video_path is Some { 1nat } else { 0nat }
    }
}

/// An episode given the scanned tracks when it has a video.
pub open spec fn with_tracks(e: EpisodeRecordV, tracks: Seq<EmbeddedTrackV>, now: u64) -> EpisodeRecordV {
    if e.video_path is Some {
        EpisodeRecordV { embedded_subtitle_tracks: tracks, updated_at_unix: now, ..e }
    } else {
        e
    }
}

/// An entry after a scan outcome.
pub open spec fn scanned_entry_spec(e: EntryV, outcome: EmbeddedScanOutcome, now: u64) -> EntryV {
    match outcome {
        EmbeddedScanOutcome::Tracks(ts) => EntryV {
            episodes: Seq::new(e.episodes.len(), |k: int| with_tracks(e.episodes[k], views(ts@), now)),
            updated_at_unix: now,
            ..e
        },
        _ => EntryV { updated_at_unix: now, ..e },
    }
}

pub open spec fn no_sample_message() -> Seq<char> {
    "没有找到可用于识别内封字幕的视频文件"@
}

/// Records an embedded-subtitle scan of the first entry with an identifier:
/// found tracks go to every episode with a video; a failure, or the lack of
/// a sample, is reported. The file is normalized.
pub fn record_embedded_scan(
    file: &mut LocalAnimeLibraryFile,
    entry_id: &str,
    outcome: EmbeddedScanOutcome,
    now: u64,
) -> (r: Result<ScanEmbeddedSubtitleTracksResult, LibraryError>)
    ensures
        match entry_position(old(file)@.entries, entry_id@) {
            None => r == Err::<ScanEmbeddedSubtitleTracksResult, LibraryError>(LibraryError::EntryNotFound) && final(file)@ == old(file)@,
            Some(i) => {
                let e = old(file)@.entries[i];
                &&& final(file)@ == normalize_file_spec(LibraryFileV { entries: old(file)@.entries.update(i, scanned_entry_spec(e, outcome, now)), ..old(file)@ }, now)
                &&& r matches Ok(res) && {
                    &&& res.entry@ == final(file)@.entries[i]
                    &&& match outcome {
                        EmbeddedScanOutcome::NoSample => {
                            &&& res.scanned_episode_count == 0
                            &&& res.embedded_subtitle_count == 0
                            &&& res.episodes_without_embedded_subtitles == 0
                            &&& res.failed_episodes@.len() == 1
                            &&& res.failed_episodes@[0].episode_key@ == "all"@
                            &&& res.failed_episodes@[0].message@ == no_sample_message()
                        },
                        EmbeddedScanOutcome::Failed(key, message) => {
                            &&& res.scanned_episode_count == 1
                            &&& res.embedded_subtitle_count == 0
                            &&& res.episodes_without_embedded_subtitles == 0
                            &&& res.failed_episodes@.len() == 1
                            &&& res.failed_episodes@[0].episode_key@ == key@
                            &&& res.failed_episodes@[0].message@ == message@
                        },
                        EmbeddedScanOutcome::Tracks(ts) => {
                            &&& res.scanned_episode_count == 1
                            &&& res.embedded_subtitle_count == ts@.len()
                            &&& res.episodes_without_embedded_subtitles as nat == if ts@.len() == 0 { count_with_video(e.episodes) } else { 0 }
                            &&& res.failed_episodes@.len() == 0
                        },
                    }
                }
            },
        },
{
    let ghost before = file@;
    let i = match library_entry_index(file, entry_id) {
        Some(i) => i,
        None => {
            return Err(LibraryError::EntryNotFound);
        },
    };
    proof {
        crate::sort::lemma_first_index_found(before.entries, |e: EntryV| e.id == entry_id@);
    }
    let ghost e = before.entries[i as int];
    assert(e == file.entries@[i as int]@);
    let mut entry = copy_entry(&file.entries[i]);
    let mut scanned: usize = 0;
    let mut embedded: usize = 0;
    let mut without: usize = 0;
    let mut failed: Vec<EmbeddedSubtitleScanFailure> = Vec::new();
    let ghost out = outcome;
    match outcome {
        EmbeddedScanOutcome::NoSample => {
            let k = str_chars("all");
            let m = str_chars("没有找到可用于识别内封字幕的视频文件");
            failed.push(EmbeddedSubtitleScanFailure { episode_key: chars_to_string(k.as_slice()), message: chars_to_string(m.as_slice()) });
        },
        EmbeddedScanOutcome::Failed(key, message) => {
            scanned = 1;
            failed.push(EmbeddedSubtitleScanFailure { episode_key: key, message });
        },
        EmbeddedScanOutcome::Tracks(tracks) => {
            scanned = 1;
            embedded = tracks.len();
            let ghost tv = views(tracks@);
            let mut with_video: usize = 0;
            let mut episodes: Vec<LibraryEpisodeRecord> = Vec::new();
            let mut k: usize = 0;
            while k < entry.episodes.len()
                invariant
                    k <= entry.episodes@.len(),
                    entry@ == e,
                    tv == views(tracks@),
                    episodes@.len() == k,
                    forall|q: int| 0 <= q < k ==> (#[trigger] episodes@[q])@ == with_tracks(e.episodes[q], tv, now),
                    with_video as nat == count_with_video(e.episodes.subrange(0, k as int)),
                    with_video <= k,
                decreases entry.episodes@.len() - k,
            {
                let ghost t = e.episodes.subrange(0, k + 1);
                assert(t.drop_last() =~= e.episodes.subrange(0, k as int));
                assert(t.last() == entry.episodes@[k as int]@);
                let mut record = copy_episode_record(&entry.episodes[k]);
                if record.video_path.is_some() {
                    with_video += 1;
                    record.embedded_subtitle_tracks = copy_tracks(&tracks);
                    record.updated_at_unix = now;
                }
                episodes.push(record);
                k += 1;
            }
            assert(e.episodes.subrange(0, e.episodes.len() as int) =~= e.episodes);
            if tracks.len() == 0 {
                without = with_video;
            }
            entry.episodes = episodes;
        },
    }
    entry.updated_at_unix = now;
    let ghost ne = entry@;
    assert(ne.episodes =~= scanned_entry_spec(e, out, now).episodes);
    file.entries.set(i, entry);
    assert(file@.entries =~= before.entries.update(i as int, ne));
    normalize_library_file(file, now);
    assert(file@.entries.len() == before.entries.len());
    assert(views(file.entries@).len() == file.entries@.len());
    assert(file@.entries[i as int] == file.entries@[i as int]@);
    let updated = copy_entry(&file.entries[i]);
    Ok(ScanEmbeddedSubtitleTracksResult {
        entry: updated,
        scanned_episode_count: scanned,
        embedded_subtitle_count: embedded,
        episodes_without_embedded_subtitles: without,
        failed_episodes: failed,
    })
}

} // verus!
