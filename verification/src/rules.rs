//! Single-file rules: text normalization, the regular-expression episode rules,
//! the season marker and the subtitle language.

use vstd::prelude::*;
use crate::domain::{EpisodeKey, LanguageCode, ParseCandidateSource};
use crate::parser::{EpisodeCandidate, CandidateView, sort_candidates, sort_candidates_spec};
use crate::path::{MediaPath, path_text};
use crate::slots::{is_plausible_episode_spec, is_plausible_episode_u32};
use crate::text::{
    nfkc_text, nfkc_str, parse_u16_spec, parse_u16, chars_to_string, string_chars, str_chars,
    contains_seq, contains_lit, lowercase_text, lower_chars, push_lit, push_chars,
};

verus! {

/// What the `regex` crate's `captures_iter` yields for a pattern and a text:
/// `None` when the pattern does not compile, else the groups of each
/// successive non-overlapping match (group 0 first; `None` for a group that
/// did not take part).
pub uninterp spec fn regex_captures_all(pattern: Seq<char>, haystack: Seq<char>) -> Option<Seq<Seq<Option<Seq<char>>>>>;

/// What the `regex` crate's `captures` yields: `None` when the pattern does
/// not compile, else the groups of the leftmost-first match, if any.
pub uninterp spec fn regex_captures_first(pattern: Seq<char>, haystack: Seq<char>) -> Option<Option<Seq<Option<Seq<char>>>>>;

/// What the `regex` crate's `is_match` says: `None` when the pattern does not compile.
pub uninterp spec fn regex_is_match(pattern: Seq<char>, haystack: Seq<char>) -> Option<bool>;

/// Whether a character has a meaning in a regex and must be escaped to match
/// itself (the set of regex-syntax's `is_meta_character`).
pub open spec fn is_regex_meta(c: char) -> bool {
    c == '\\' || c == '.' || c == '+' || c == '*' || c == '?' || c == '(' || c == ')' || c == '|' || c == '['
        || c == ']' || c == '{' || c == '}' || c == '^' || c == '$' || c == '#' || c == '&' || c == '-' || c == '~'
}

/// What the `regex` crate's `escape` returns for a text: each character in
/// order, with a backslash before every meta character.
pub open spec fn regex_escaped(s: Seq<char>) -> Seq<char>
    decreases s.len(),
{
    if s.len() == 0 {
        Seq::empty()
    } else {
        regex_escaped(s.drop_last()) + if is_regex_meta(s.last()) { seq!['\\', s.last()] } else { seq![s.last()] }
    }
}

/// Compiles `pattern` with `regex::Regex::new` and collects the groups of every
/// match of `Regex::captures_iter`; the contract claims only that the result
/// is a function of the pattern and the text.
#[verifier::external_body]
fn regex_all_captures(pattern: &str, haystack: &str) -> (r: Option<Vec<Vec<Option<String>>>>)
    ensures
        r.deep_view() == regex_captures_all(pattern@, haystack@),
{
    match regex::Regex::new(pattern) {
        Ok(re) => Some(re.captures_iter(haystack).map(|c| c.iter().map(|m| m.map(|m| m.as_str().to_owned())).collect()).collect()),
        Err(_) => None,
    }
}

/// Compiles `pattern` with `regex::Regex::new` and collects the groups of
/// `Regex::captures`; the result is a function of the pattern and the text.
#[verifier::external_body]
fn regex_first_captures(pattern: &str, haystack: &str) -> (r: Option<Option<Vec<Option<String>>>>)
    ensures
        r.deep_view() == regex_captures_first(pattern@, haystack@),
{
    match regex::Regex::new(pattern) {
        Ok(re) => Some(re.captures(haystack).map(|c| c.iter().map(|m| m.map(|m| m.as_str().to_owned())).collect())),
        Err(_) => None,
    }
}

/// Compiles `pattern` with `regex::Regex::new` and calls `Regex::is_match`;
/// the result is a function of the pattern and the text.
#[verifier::external_body]
fn regex_matches(pattern: &str, haystack: &str) -> (r: Option<bool>)
    ensures
        r == regex_is_match(pattern@, haystack@),
{
    match regex::Regex::new(pattern) {
        Ok(re) => Some(re.is_match(haystack)),
        Err(_) => None,
    }
}

/// Calls `regex::escape`, which puts a backslash before every regex meta
/// character of the text and keeps the other characters.
#[verifier::external_body]
fn regex_escape(s: &str) -> (r: String)
    ensures
        r@ == regex_escaped(s@),
{
    regex::escape(s)
}

pub const SEASON_SXX_PATTERN: &'static str = r"(?i)(?:^|[^a-z0-9])s0*(\d{1,2})(?:e\d{1,3}|[^a-z0-9]|$)";
pub const SEASON_WORD_PATTERN: &'static str = r"(?i)season\s*0*(\d{1,2})";
pub const SEASON_CHINESE_PATTERN: &'static str = r"第\s*0*(\d{1,2})\s*季";
pub const SXX_EXX_PATTERN: &'static str = r"(?i)(?:^|[^a-z0-9])s0*(\d{1,2})\s*e0*(\d{1,3})(?:v\d+)?(?:[^a-z0-9]|$)";
pub const CHINESE_EPISODE_PATTERN: &'static str = r"第\s*0*(\d{1,3})\s*[话話]";
pub const VERSIONED_EPISODE_PATTERN: &'static str = r"(?i)(?:^|[^a-z0-9])0*(\d{1,3})v\d+(?:[^a-z0-9]|$)";
pub const EP_PREFIX_PATTERN: &'static str = r"(?i)(?:^|[^a-z0-9])ep\s*0*(\d{1,3})(?:v\d+)?(?:[^a-z0-9]|$)";
pub const E_PREFIX_PATTERN: &'static str = r"(?i)(?:^|[^a-z0-9])e\s*0*(\d{1,3})(?:v\d+)?(?:[^a-z0-9]|$)";
pub const EMBEDDED_E_PATTERN: &'static str = r"(?i)e0*(\d{1,3})(?:v\d+)?[a-z]";
pub const DASH_EPISODE_PATTERN: &'static str = r"(?:^|[\s._])-\s*0*(\d{1,3})(?:v\d+)?(?:[^a-z0-9]|$)";
pub const BRACKET_EPISODE_PATTERN: &'static str = r"\[\s*0*(\d{1,3})(?:v\d+)?\s*\]";
pub const ISOLATED_PREFIX: &'static str = r"(?i)(?:^|[^a-z0-9])";
pub const ISOLATED_SUFFIX: &'static str = r"(?:[^a-z0-9]|$)";
pub const RULE_NOTE: &'static str = "命中单文件强规则。";

/// One character after NFKC: dashes become `-`, full-width brackets and
/// slashes become their ASCII forms, and `\` becomes `/`.
pub open spec fn fold_char(c: char) -> char {
    if c == '\u{2013}' || c == '\u{2014}' || c == '\u{2212}' || c == '\u{2010}' || c == '\u{2011}' {
        '-'
    } else if c == '\u{ff08}' {
        '('
    } else if c == '\u{ff09}' {
        ')'
    } else if c == '\u{ff3b}' {
        '['
    } else if c == '\u{ff3d}' {
        ']'
    } else if c == '\u{ff0f}' || c == '\\' {
        '/'
    } else {
        c
    }
}

/// NFKC normalization followed by the character folding above.
pub open spec fn normalize_text_spec(s: Seq<char>) -> Seq<char> {
    Seq::new(nfkc_text(s).len(), |i: int| fold_char(nfkc_text(s)[i]))
}

/// The normalized components of a path joined with spaces.
pub open spec fn searchable_text_spec(p: MediaPath) -> Seq<char> {
    normalize_text_spec(path_text(p.parts@, " "@))
}

/// The normalized components of a path joined with `/`.
pub open spec fn sort_text_spec(p: MediaPath) -> Seq<char> {
    parts_sort_text(p.parts@)
}

/// The normalized components joined with `/`.
pub open spec fn parts_sort_text(parts: Seq<crate::path::PathPart>) -> Seq<char> {
    normalize_text_spec(path_text(parts, "/"@))
}

/// The groups of every match of a pattern, none when it does not compile.
pub open spec fn captures_list(pattern: Seq<char>, text: Seq<char>) -> Seq<Seq<Option<Seq<char>>>> {
    match regex_captures_all(pattern, text) {
        Some(l) => l,
        None => Seq::empty(),
    }
}

/// Group `i` of a match read as a `u16`.
pub open spec fn group_u16(caps: Seq<Option<Seq<char>>>, i: int) -> Option<u16> {
    if 0 <= i < caps.len() {
        match caps[i] {
            Some(t) => parse_u16_spec(t),
            None => None,
        }
    } else {
        None
    }
}

/// The rule candidate for an episode, kept only when the episode is plausible.
pub open spec fn rule_candidate(season: u16, episode: u16, confidence: u8) -> Seq<CandidateView> {
    if is_plausible_episode_spec(episode as u32) {
        seq![CandidateView {
            key: EpisodeKey { season, episode },
            confidence,
            source: ParseCandidateSource::Rule,
            note: RULE_NOTE@,
        }]
    } else {
        Seq::empty()
    }
}

/// The candidates of matches whose group 1 is the season and group 2 the episode.
pub open spec fn season_episode_candidates(l: Seq<Seq<Option<Seq<char>>>>, confidence: u8) -> Seq<CandidateView>
    decreases l.len(),
{
    if l.len() == 0 {
        Seq::empty()
    } else {
        season_episode_candidates(l.drop_last(), confidence) + match (group_u16(l.last(), 1), group_u16(l.last(), 2)) {
            (Some(s), Some(e)) => rule_candidate(s, e, confidence),
            _ => Seq::empty(),
        }
    }
}

/// The candidates of matches whose group 1 is the episode, in the given season.
pub open spec fn episode_candidates(l: Seq<Seq<Option<Seq<char>>>>, season: u16, confidence: u8) -> Seq<CandidateView>
    decreases l.len(),
{
    if l.len() == 0 {
        Seq::empty()
    } else {
        episode_candidates(l.drop_last(), season, confidence) + match group_u16(l.last(), 1) {
            Some(e) => rule_candidate(season, e, confidence),
            None => Seq::empty(),
        }
    }
}

/// The season one pattern gives: `None` when it does not compile, else the
/// season of its first match when that lies in 1..=99.
pub open spec fn season_by(pattern: Seq<char>, text: Seq<char>) -> Option<Option<u16>> {
    match regex_captures_first(pattern, text) {
        None => None,
        Some(first) => Some(season_of_captures(first)),
    }
}

/// The season a first match gives: its group 1 as `u16` when in 1..=99.
pub open spec fn season_of_captures(first: Option<Seq<Option<Seq<char>>>>) -> Option<u16> {
    match first {
        None => None,
        Some(caps) => match group_u16(caps, 1) {
            Some(v) => if 1 <= v <= 99 { Some(v) } else { None },
            None => None,
        },
    }
}

/// The season marked in a text: the first of the season patterns that gives one.
pub open spec fn parse_season_spec(text: Seq<char>) -> Option<u16> {
    match season_by(SEASON_SXX_PATTERN@, text) {
        None => None,
        Some(Some(v)) => Some(v),
        Some(None) => match season_by(SEASON_WORD_PATTERN@, text) {
            None => None,
            Some(Some(v)) => Some(v),
            Some(None) => match season_by(SEASON_CHINESE_PATTERN@, text) {
                None => None,
                Some(v) => v,
            },
        },
    }
}

pub open spec fn season_or_first(text: Seq<char>) -> u16 {
    match parse_season_spec(text) {
        Some(s) => s,
        None => 1,
    }
}

/// Every rule candidate of a text, in rule order, before ranking.
pub open spec fn raw_rule_candidates(text: Seq<char>) -> Seq<CandidateView> {
    let season = season_or_first(text);
    season_episode_candidates(captures_list(SXX_EXX_PATTERN@, text), 100)
        + episode_candidates(captures_list(CHINESE_EPISODE_PATTERN@, text), season, 95)
        + episode_candidates(captures_list(VERSIONED_EPISODE_PATTERN@, text), season, 90)
        + episode_candidates(captures_list(EP_PREFIX_PATTERN@, text), season, 88)
        + episode_candidates(captures_list(E_PREFIX_PATTERN@, text), season, 82)
        + episode_candidates(captures_list(EMBEDDED_E_PATTERN@, text), season, 82)
        + episode_candidates(captures_list(DASH_EPISODE_PATTERN@, text), season, 78)
        + episode_candidates(captures_list(BRACKET_EPISODE_PATTERN@, text), season, 70)
}

/// The ranked rule candidates of a text.
pub open spec fn rule_candidates_spec(text: Seq<char>) -> Seq<CandidateView> {
    sort_candidates_spec(raw_rule_candidates(text))
}

/// Whether one of the literal needles occurs in the text.
pub open spec fn contains_any_spec(text: Seq<char>, needles: Seq<&str>) -> bool {
    exists|j: int| 0 <= j < needles.len() && contains_seq(text, #[trigger] needles[j]@)
}

/// Whether `token` stands in the text between non-alphanumeric boundaries.
pub open spec fn isolated_token_spec(text: Seq<char>, token: Seq<char>) -> bool {
    match regex_is_match(ISOLATED_PREFIX@ + regex_escaped(token) + ISOLATED_SUFFIX@, text) {
        Some(b) => b,
        None => false,
    }
}

pub open spec fn zh_hans_marks() -> Seq<&'static str> {
    seq!["zh-hans", "zh_cn", "zh-cn", ".chs.", "[chs]", "简中", "简体"]
}

pub open spec fn zh_hant_marks() -> Seq<&'static str> {
    seq!["zh-hant", "zh_tw", "zh-tw", ".cht.", "[cht]", "繁中", "繁体"]
}

pub open spec fn ja_marks() -> Seq<&'static str> {
    seq!["ja-jp", ".jpn.", "[jpn]", ".ja.", "[ja]", "日文", "日本語"]
}

pub open spec fn en_marks() -> Seq<&'static str> {
    seq!["english", ".eng.", "[eng]", ".en.", "[en]", "英文"]
}

/// The subtitle language a lowercased path text names, given whether the
/// tokens `sc`, `tc`, `ja` and `en` stand isolated in it: the marks first,
/// then the isolated tokens, else undetermined.
pub open spec fn language_from_marks(lower: Seq<char>, sc: bool, tc: bool, ja: bool, en: bool) -> LanguageCode {
    if contains_any_spec(lower, zh_hans_marks()) {
        LanguageCode::ZhHans
    } else if contains_any_spec(lower, zh_hant_marks()) {
        LanguageCode::ZhHant
    } else if contains_any_spec(lower, ja_marks()) {
        LanguageCode::Ja
    } else if contains_any_spec(lower, en_marks()) {
        LanguageCode::En
    } else if sc {
        LanguageCode::ZhHans
    } else if tc {
        LanguageCode::ZhHant
    } else if ja {
        LanguageCode::Ja
    } else if en {
        LanguageCode::En
    } else {
        LanguageCode::Und
    }
}

/// The subtitle language a lowercased path text names.
pub open spec fn language_of_lower(lower: Seq<char>) -> LanguageCode {
    language_from_marks(
        lower,
        isolated_token_spec(lower, "sc"@),
        isolated_token_spec(lower, "tc"@),
        isolated_token_spec(lower, "ja"@),
        isolated_token_spec(lower, "en"@),
    )
}

/// The subtitle language a path names, in its file name or its directories.
pub open spec fn detect_language_spec(p: MediaPath) -> LanguageCode {
    language_of_lower(lowercase_text(searchable_text_spec(p)))
}

fn fold(c: char) -> (r: char)
    ensures
        r == fold_char(c),
{
    if c == '\u{2013}' || c == '\u{2014}' || c == '\u{2212}' || c == '\u{2010}' || c == '\u{2011}' {
        '-'
    } else if c == '\u{ff08}' {
        '('
    } else if c == '\u{ff09}' {
        ')'
    } else if c == '\u{ff3b}' {
        '['
    } else if c == '\u{ff3d}' {
        ']'
    } else if c == '\u{ff0f}' || c == '\\' {
        '/'
    } else {
        c
    }
}

/// NFKC-normalizes a text and folds dashes, full-width brackets and slashes.
pub fn normalize_text(text: &[char]) -> (r: Vec<char>)
    ensures
        r@ == normalize_text_spec(text@),
{
    let s = chars_to_string(text);
    let n = nfkc_str(s.as_str());
    let chars = string_chars(&n);
    let mut out: Vec<char> = Vec::new();
    let mut i: usize = 0;
    while i < chars.len()
        invariant
            i <= chars@.len(),
            chars@ == nfkc_text(text@),
            out@ =~= Seq::new(i as nat, |k: int| fold_char(chars@[k])),
        decreases chars@.len() - i,
    {
        out.push(fold(chars[i]));
        i += 1;
    }
    out
}

/// The normalized path components joined with spaces.
pub fn searchable_path_text(path: &MediaPath) -> (r: Vec<char>)
    ensures
        r@ == searchable_text_spec(*path),
{
    let joined = path.joined_text(" ");
    normalize_text(joined.as_slice())
}

/// The normalized path components joined with `/`.
pub fn path_sort_text(path: &MediaPath) -> (r: Vec<char>)
    ensures
        r@ == sort_text_spec(*path),
{
    let joined = path.joined_text("/");
    normalize_text(joined.as_slice())
}

fn captures_of(pattern: &str, text: &String) -> (r: Vec<Vec<Option<String>>>)
    ensures
        r.deep_view() == captures_list(pattern@, text@),
{
    match regex_all_captures(pattern, text.as_str()) {
        Some(l) => l,
        None => {
            let v: Vec<Vec<Option<String>>> = Vec::new();
            assert(v.deep_view() =~= Seq::<Seq<Option<Seq<char>>>>::empty());
            v
        },
    }
}

fn group_u16_of(caps: &Vec<Option<String>>, i: usize) -> (r: Option<u16>)
    ensures
        r == group_u16(caps.deep_view(), i as int),
{
    if i < caps.len() {
        match &caps[i] {
            Some(t) => {
                assert(caps.deep_view()[i as int] == Some(t@));
                let cs = string_chars(t);
                parse_u16(cs.as_slice())
            },
            None => None,
        }
    } else {
        None
    }
}

/// Appends the rule candidate for an episode when the episode is plausible.
fn push_candidate(candidates: &mut Vec<EpisodeCandidate>, season: u16, episode: u16, confidence: u8)
    ensures
        final(candidates).deep_view() == old(candidates).deep_view() + rule_candidate(season, episode, confidence),
{
    let ghost before = candidates.deep_view();
    if is_plausible_episode_u32(episode as u32) {
        let note = str_chars(RULE_NOTE);
        candidates.push(EpisodeCandidate {
            key: EpisodeKey::new(season, episode),
            confidence,
            source: ParseCandidateSource::Rule,
            note: chars_to_string(note.as_slice()),
        });
        assert(candidates.deep_view() =~= before + rule_candidate(season, episode, confidence));
    } else {
        assert(candidates.deep_view() =~= before + rule_candidate(season, episode, confidence));
    }
}

/// The rule candidates of the matches of a pattern whose group 1 is the
/// season and group 2 the episode: one per match whose two groups read as
/// `u16` and whose episode is plausible, in match order.
pub fn season_episode_candidates_of(caps: &Vec<Vec<Option<String>>>, confidence: u8) -> (r: Vec<EpisodeCandidate>)
    ensures
        r.deep_view() == season_episode_candidates(caps.deep_view(), confidence),
{
    let ghost l = caps.deep_view();
    let mut candidates: Vec<EpisodeCandidate> = Vec::new();
    assert(candidates.deep_view() =~= Seq::<CandidateView>::empty());
    let mut i: usize = 0;
    while i < caps.len()
        invariant
            i <= caps@.len(),
            l == caps.deep_view(),
            candidates.deep_view() == season_episode_candidates(l.subrange(0, i as int), confidence),
        decreases caps@.len() - i,
    {
        let m = &caps[i];
        proof {
            assert(l.subrange(0, i + 1).drop_last() =~= l.subrange(0, i as int));
            assert(l.subrange(0, i + 1).last() == m.deep_view());
        }
        match (group_u16_of(m, 1), group_u16_of(m, 2)) {
            (Some(s), Some(e)) => push_candidate(&mut candidates, s, e, confidence),
            _ => {},
        }
        assert(candidates.deep_view() =~= season_episode_candidates(l.subrange(0, i + 1), confidence));
        i += 1;
    }
    assert(l.subrange(0, l.len() as int) =~= l);
    candidates
}

/// The rule candidates of the matches of a pattern whose group 1 is the
/// episode, in the given season: one per match whose group reads as `u16`
/// and is a plausible episode, in match order.
pub fn episode_candidates_of(caps: &Vec<Vec<Option<String>>>, season: u16, confidence: u8) -> (r: Vec<EpisodeCandidate>)
    ensures
        r.deep_view() == episode_candidates(caps.deep_view(), season, confidence),
{
    let ghost l = caps.deep_view();
    let mut candidates: Vec<EpisodeCandidate> = Vec::new();
    assert(candidates.deep_view() =~= Seq::<CandidateView>::empty());
    let mut i: usize = 0;
    while i < caps.len()
        invariant
            i <= caps@.len(),
            l == caps.deep_view(),
            candidates.deep_view() == episode_candidates(l.subrange(0, i as int), season, confidence),
        decreases caps@.len() - i,
    {
        let m = &caps[i];
        proof {
            assert(l.subrange(0, i + 1).drop_last() =~= l.subrange(0, i as int));
            assert(l.subrange(0, i + 1).last() == m.deep_view());
        }
        match group_u16_of(m, 1) {
            Some(e) => push_candidate(&mut candidates, season, e, confidence),
            None => {},
        }
        assert(candidates.deep_view() =~= episode_candidates(l.subrange(0, i + 1), season, confidence));
        i += 1;
    }
    assert(l.subrange(0, l.len() as int) =~= l);
    candidates
}

fn append_candidates(candidates: &mut Vec<EpisodeCandidate>, found: Vec<EpisodeCandidate>)
    ensures
        final(candidates).deep_view() == old(candidates).deep_view() + found.deep_view(),
{
    let ghost f = found.deep_view();
    let mut found = found;
    candidates.append(&mut found);
    assert(candidates.deep_view() =~= old(candidates).deep_view() + f);
}

/// Candidates from a pattern whose group 1 is the season and group 2 the episode.
fn collect_season_episode(pattern: &str, text: &String, confidence: u8, candidates: &mut Vec<EpisodeCandidate>)
    ensures
        final(candidates).deep_view() == old(candidates).deep_view()
            + season_episode_candidates(captures_list(pattern@, text@), confidence),
{
    let list = captures_of(pattern, text);
    let found = season_episode_candidates_of(&list, confidence);
    append_candidates(candidates, found);
}

/// Candidates from a pattern whose group 1 is the episode.
fn collect_episode(pattern: &str, text: &String, season: u16, confidence: u8, candidates: &mut Vec<EpisodeCandidate>)
    ensures
        final(candidates).deep_view() == old(candidates).deep_view()
            + episode_candidates(captures_list(pattern@, text@), season, confidence),
{
    let list = captures_of(pattern, text);
    let found = episode_candidates_of(&list, season, confidence);
    append_candidates(candidates, found);
}

/// The season of a pattern's first match: its group 1 read as `u16`, when
/// there is a match and that lies in 1..=99.
pub fn season_of_match(first: &Option<Vec<Option<String>>>) -> (r: Option<u16>)
    ensures
        r == season_of_captures(first.deep_view()),
{
    match first {
        None => None,
        Some(caps) => {
            match group_u16_of(caps, 1) {
                Some(v) => if 1 <= v && v <= 99 { Some(v) } else { None },
                None => None,
            }
        },
    }
}

fn season_from(pattern: &str, text: &String) -> (r: Option<Option<u16>>)
    ensures
        r == season_by(pattern@, text@),
{
    match regex_first_captures(pattern, text.as_str()) {
        None => None,
        Some(first) => Some(season_of_match(&first)),
    }
}

/// The season marked in a text (`S01`, `Season 1`, `第1季`), in 1..=99.
pub fn parse_season(text: &[char]) -> (r: Option<u16>)
    ensures
        r == parse_season_spec(text@),
{
    let t = chars_to_string(text);
    match season_from(SEASON_SXX_PATTERN, &t) {
        None => None,
        Some(Some(v)) => Some(v),
        Some(None) => match season_from(SEASON_WORD_PATTERN, &t) {
            None => None,
            Some(Some(v)) => Some(v),
            Some(None) => match season_from(SEASON_CHINESE_PATTERN, &t) {
                None => None,
                Some(v) => v,
            },
        },
    }
}

/// Every single-file rule applied to a text, ranked.
pub fn regex_episode_candidates(text: &[char]) -> (r: Vec<EpisodeCandidate>)
    ensures
        r.deep_view() == rule_candidates_spec(text@),
{
    let season = match parse_season(text) {
        Some(s) => s,
        None => 1,
    };
    let t = chars_to_string(text);
    let mut candidates: Vec<EpisodeCandidate> = Vec::new();
    assert(candidates.deep_view() =~= Seq::<CandidateView>::empty());
    collect_season_episode(SXX_EXX_PATTERN, &t, 100, &mut candidates);
    collect_episode(CHINESE_EPISODE_PATTERN, &t, season, 95, &mut candidates);
    collect_episode(VERSIONED_EPISODE_PATTERN, &t, season, 90, &mut candidates);
    collect_episode(EP_PREFIX_PATTERN, &t, season, 88, &mut candidates);
    collect_episode(E_PREFIX_PATTERN, &t, season, 82, &mut candidates);
    collect_episode(EMBEDDED_E_PATTERN, &t, season, 82, &mut candidates);
    collect_episode(DASH_EPISODE_PATTERN, &t, season, 78, &mut candidates);
    collect_episode(BRACKET_EPISODE_PATTERN, &t, season, 70, &mut candidates);
    assert(candidates.deep_view() =~= raw_rule_candidates(text@));
    sort_candidates(candidates)
}

fn contains_any(text: &[char], needles: &[&str]) -> (r: bool)
    ensures
        r == contains_any_spec(text@, needles@),
{
    let mut i: usize = 0;
    while i < needles.len()
        invariant
            i <= needles@.len(),
            forall|j: int| 0 <= j < i ==> !contains_seq(text@, #[trigger] needles@[j]@),
        decreases needles@.len() - i,
    {
        if contains_lit(text, needles[i]) {
            return true;
        }
        i += 1;
    }
    false
}

fn isolated_token(text: &[char], token: &str) -> (r: bool)
    ensures
        r == isolated_token_spec(text@, token@),
{
    let escaped = regex_escape(token);
    let mut pattern: Vec<char> = Vec::new();
    push_lit(&mut pattern, ISOLATED_PREFIX);
    push_chars(&mut pattern, string_chars(&escaped).as_slice());
    push_lit(&mut pattern, ISOLATED_SUFFIX);
    let p = chars_to_string(pattern.as_slice());
    let t = chars_to_string(text);
    match regex_matches(p.as_str(), t.as_str()) {
        Some(b) => b,
        None => false,
    }
}

/// The subtitle language a path names, in its file name or its directories.
pub fn detect_language(path: &MediaPath) -> (r: LanguageCode)
    ensures
        r == detect_language_spec(*path),
{
    let text = searchable_path_text(path);
    let lower = lower_chars(text.as_slice());
    let l = lower.as_slice();
    let sc = isolated_token(l, "sc");
    let tc = isolated_token(l, "tc");
    let ja = isolated_token(l, "ja");
    let en = isolated_token(l, "en");
    language_from_marks_of(l, sc, tc, ja, en)
}

/// The subtitle language a lowercased path text names, given whether the
/// tokens `sc`, `tc`, `ja` and `en` stand isolated in it.
pub fn language_from_marks_of(l: &[char], sc: bool, tc: bool, ja: bool, en: bool) -> (r: LanguageCode)
    ensures
        r == language_from_marks(l@, sc, tc, ja, en),
{
    let a = ["zh-hans", "zh_cn", "zh-cn", ".chs.", "[chs]", "简中", "简体"];
    assert(a@ =~= zh_hans_marks());
    if contains_any(l, &a) {
        return LanguageCode::ZhHans;
    }
    let b = ["zh-hant", "zh_tw", "zh-tw", ".cht.", "[cht]", "繁中", "繁体"];
    assert(b@ =~= zh_hant_marks());
    if contains_any(l, &b) {
        return LanguageCode::ZhHant;
    }
    let c = ["ja-jp", ".jpn.", "[jpn]", ".ja.", "[ja]", "日文", "日本語"];
    assert(c@ =~= ja_marks());
    if contains_any(l, &c) {
        return LanguageCode::Ja;
    }
    let d = ["english", ".eng.", "[eng]", ".en.", "[en]", "英文"];
    assert(d@ =~= en_marks());
    if contains_any(l, &d) {
        return LanguageCode::En;
    }
    if sc {
        LanguageCode::ZhHans
    } else if tc {
        LanguageCode::ZhHant
    } else if ja {
        LanguageCode::Ja
    } else if en {
        LanguageCode::En
    } else {
        LanguageCode::Und
    }
}

} // verus!
