//! The context in which a number token stands, and the slot it most likely fills.

use vstd::prelude::*;
use crate::domain::ParseSlotLabel;
use crate::text::{words_contain, in_words, has_char, to_vec, push_chars};
use crate::tokens::{Token, TokenKind, NumberToken, TokenV, token_seq_view};

verus! {

/// The index of the last non-separator token before position `j`.
pub open spec fn prev_before(ts: Seq<TokenV>, j: int) -> Option<int>
    decreases j,
{
    if j <= 0 || j > ts.len() {
        None
    } else if ts[j - 1].kind != TokenKind::Separator {
        Some(j - 1)
    } else {
        prev_before(ts, j - 1)
    }
}

/// The index of the first non-separator token at or after position `j`.
pub open spec fn next_from(ts: Seq<TokenV>, j: int) -> Option<int>
    decreases ts.len() - j,
{
    if j < 0 || j >= ts.len() {
        None
    } else if ts[j].kind != TokenKind::Separator {
        Some(j)
    } else {
        next_from(ts, j + 1)
    }
}

/// The nearest meaningful (non-separator) token before `index`.
pub open spec fn prev_meaningful(ts: Seq<TokenV>, index: int) -> Option<int> {
    prev_before(ts, index)
}

/// The nearest meaningful (non-separator) token after `index`.
pub open spec fn next_meaningful(ts: Seq<TokenV>, index: int) -> Option<int> {
    next_from(ts, index + 1)
}

/// Whether the meaningful token before `index` is one of `ws`.
pub open spec fn prev_word_in(ts: Seq<TokenV>, index: int, ws: Seq<&str>) -> bool {
    match prev_meaningful(ts, index) {
        Some(k) => words_contain(ws, ts[k].lower),
        None => false,
    }
}

/// Whether the meaningful token after `index` is one of `ws`.
pub open spec fn next_word_in(ts: Seq<TokenV>, index: int, ws: Seq<&str>) -> bool {
    match next_meaningful(ts, index) {
        Some(k) => words_contain(ws, ts[k].lower),
        None => false,
    }
}

/// The number of the token at `index`, if it is a number token.
pub open spec fn number_at(ts: Seq<TokenV>, index: int) -> Option<NumberToken> {
    if 0 <= index < ts.len() {
        ts[index].number
    } else {
        None
    }
}

pub open spec fn quality_words() -> Seq<&'static str> {
    seq!["p", "k", "web", "webdl", "web-dl", "bdrip", "bluray", "amzn", "nf", "cr", "h", "x", "hevc", "avc", "aac", "flac", "ddp"]
}

pub open spec fn language_words() -> Seq<&'static str> {
    seq!["zh", "hans", "hant", "zh-hans", "zh-hant", "chs", "cht", "sc", "tc", "ja", "jpn", "jp", "en", "eng", "english"]
}

pub open spec fn special_words() -> Seq<&'static str> {
    seq!["ova", "sp", "special", "ncop", "nced", "pv", "trailer", "op", "ed"]
}

pub open spec fn version_words() -> Seq<&'static str> {
    seq!["v", "ver", "version"]
}

pub open spec fn segment_words() -> Seq<&'static str> {
    seq!["p", "pv", "part", "page", "chapter", "chap", "segment", "seg", "shard", "step", "backup", "log"]
}

/// Words after which a number is an episode, or which follow an episode number.
pub open spec fn is_episode_marker_context_spec(ts: Seq<TokenV>, index: int) -> bool {
    prev_word_in(ts, index, seq!["e", "ep", "episode", "第"]) || next_word_in(ts, index, seq!["话", "話"])
}

pub open spec fn is_season_marker_context_spec(ts: Seq<TokenV>, index: int) -> bool {
    prev_word_in(ts, index, seq!["s", "season", "第"]) || next_word_in(ts, index, seq!["季"])
}

pub open spec fn has_separator_context_spec(ts: Seq<TokenV>, index: int) -> bool {
    (1 <= index <= ts.len() && ts[index - 1].kind == TokenKind::Separator)
        || (0 <= index + 1 < ts.len() && ts[index + 1].kind == TokenKind::Separator)
}

pub open spec fn is_resolution_spec(ts: Seq<TokenV>, index: int) -> bool {
    match number_at(ts, index) {
        Some(n) => {
            let v = n.value;
            (v == 480 || v == 720 || v == 1080 || v == 1440 || v == 2160 || v == 4320 || v == 4 || v == 8)
                && next_word_in(ts, index, seq!["p", "k"])
        },
        None => false,
    }
}

pub open spec fn is_codec_number_spec(ts: Seq<TokenV>, index: int) -> bool {
    match number_at(ts, index) {
        Some(n) => 264 <= n.value <= 266 && (prev_word_in(ts, index, seq!["h", "x", "avc", "hevc"])
            || next_word_in(ts, index, seq!["avc", "hevc"])),
        None => false,
    }
}

pub open spec fn is_bit_depth_spec(ts: Seq<TokenV>, index: int) -> bool {
    match number_at(ts, index) {
        Some(n) => (n.value == 8 || n.value == 10 || n.value == 12) && next_word_in(ts, index, seq!["bit", "bits"]),
        None => false,
    }
}

pub open spec fn is_audio_number_spec(ts: Seq<TokenV>, index: int) -> bool {
    prev_word_in(ts, index, seq!["aac", "flac", "ddp", "dd", "atmos", "dts"])
}

/// The tokens on both sides of `index` hold an opening and a closing bracket.
pub open spec fn is_bracketed_spec(ts: Seq<TokenV>, index: int) -> bool {
    &&& 1 <= index <= ts.len()
    &&& (ts[index - 1].text.contains('[') || ts[index - 1].text.contains('('))
    &&& 0 <= index + 1 < ts.len()
    &&& (ts[index + 1].text.contains(']') || ts[index + 1].text.contains(')'))
}

pub open spec fn is_hash_number_spec(ts: Seq<TokenV>, index: int) -> bool {
    match number_at(ts, index) {
        Some(n) => n.width >= 6 && is_bracketed_spec(ts, index),
        None => false,
    }
}

pub open spec fn is_source_number_spec(ts: Seq<TokenV>, index: int) -> bool {
    prev_word_in(ts, index, seq!["web", "amzn", "nf", "cr", "bdrip", "bluray"])
}

pub open spec fn is_language_number_spec(ts: Seq<TokenV>, index: int) -> bool {
    prev_word_in(ts, index, seq!["zh", "ja", "jp", "jpn", "en", "eng"])
}

pub open spec fn is_special_number_spec(ts: Seq<TokenV>, index: int) -> bool {
    prev_word_in(ts, index, special_words())
}

pub open spec fn is_title_number_spec(ts: Seq<TokenV>, index: int) -> bool {
    prev_word_in(ts, index, seq!["title", "track"])
}

pub open spec fn is_version_number_spec(ts: Seq<TokenV>, index: int) -> bool {
    prev_word_in(ts, index, version_words())
}

pub open spec fn is_segment_or_page_number_spec(ts: Seq<TokenV>, index: int) -> bool {
    prev_word_in(ts, index, segment_words())
}

pub open spec fn is_year_spec(v: u32) -> bool {
    1900 <= v <= 2099
}

pub open spec fn meaningful_number(ts: Seq<TokenV>, k: Option<int>) -> Option<NumberToken> {
    match k {
        Some(k) => ts[k].number,
        None => None,
    }
}

/// A month or a day after a year, or a year before a month.
pub open spec fn is_date_component_spec(ts: Seq<TokenV>, index: int) -> bool {
    let current = number_at(ts, index);
    let previous = meaningful_number(ts, prev_meaningful(ts, index));
    let next = meaningful_number(ts, next_meaningful(ts, index));
    ||| (previous matches Some(y) && current matches Some(c) && is_year_spec(y.value) && 1 <= c.value <= 31)
    ||| (current matches Some(c) && next matches Some(f) && is_year_spec(c.value) && 1 <= f.value <= 12)
}

/// Numbers that can be episode numbers.
pub open spec fn is_plausible_episode_spec(v: u32) -> bool {
    1 <= v <= 200 && !(264 <= v <= 266)
}

pub open spec fn number_slot_is_noise_spec(ts: Seq<TokenV>, index: int) -> bool {
    match number_at(ts, index) {
        None => true,
        Some(n) => !is_plausible_episode_spec(n.value)
            || is_resolution_spec(ts, index)
            || is_codec_number_spec(ts, index)
            || is_bit_depth_spec(ts, index)
            || is_audio_number_spec(ts, index)
            || is_date_component_spec(ts, index)
            || is_version_number_spec(ts, index)
            || is_segment_or_page_number_spec(ts, index),
    }
}

/// The slot a number token most likely fills, judged from its context.
pub open spec fn classify_number_slot_spec(ts: Seq<TokenV>, index: int) -> ParseSlotLabel {
    if is_season_marker_context_spec(ts, index) {
        ParseSlotLabel::Season
    } else if is_hash_number_spec(ts, index) {
        ParseSlotLabel::Hash
    } else if is_resolution_spec(ts, index) {
        ParseSlotLabel::Resolution
    } else if is_codec_number_spec(ts, index) {
        ParseSlotLabel::Codec
    } else if is_version_number_spec(ts, index) {
        ParseSlotLabel::Version
    } else if is_source_number_spec(ts, index) {
        ParseSlotLabel::Source
    } else if is_language_number_spec(ts, index) {
        ParseSlotLabel::Language
    } else if is_special_number_spec(ts, index) {
        ParseSlotLabel::Special
    } else if is_title_number_spec(ts, index) {
        ParseSlotLabel::Title
    } else if is_date_component_spec(ts, index) || is_bit_depth_spec(ts, index)
        || is_audio_number_spec(ts, index) || is_segment_or_page_number_spec(ts, index)
        || number_slot_is_noise_spec(ts, index) {
        ParseSlotLabel::Noise
    } else if is_episode_marker_context_spec(ts, index) || has_separator_context_spec(ts, index) {
        ParseSlotLabel::Episode
    } else {
        ParseSlotLabel::Unknown
    }
}

/// The key of a context token: `#` for a number, its lowercase text otherwise.
pub open spec fn context_token_key_spec(t: TokenV) -> Seq<char> {
    if t.kind == TokenKind::Number {
        seq!['#']
    } else {
        t.lower
    }
}

/// After a number, an optional `v`/`ver`/`version` followed by a number: the
/// index of that second number.
pub open spec fn optional_version_suffix_end_spec(ts: Seq<TokenV>, index: int) -> Option<int> {
    match next_meaningful(ts, index) {
        Some(vi) => if words_contain(version_words(), ts[vi].lower) {
            match next_meaningful(ts, vi) {
                Some(ni) => if ts[ni].kind == TokenKind::Number { Some(ni) } else { None },
                None => None,
            }
        } else {
            None
        },
        None => None,
    }
}

/// The slot's context: the meaningful neighbours on both sides, skipping an
/// optional version suffix on the right, as `left|right`.
pub open spec fn slot_context_key_spec(ts: Seq<TokenV>, index: int) -> Seq<char> {
    let left = match prev_meaningful(ts, index) {
        Some(k) => context_token_key_spec(ts[k]),
        None => seq!['^'],
    };
    let right_index = match optional_version_suffix_end_spec(ts, index) {
        Some(e) => e,
        None => index,
    };
    let right = match next_meaningful(ts, right_index) {
        Some(k) => context_token_key_spec(ts[k]),
        None => seq!['$'],
    };
    left + seq!['|'] + right
}

pub fn previous_meaningful(ts: &[Token], index: usize) -> (r: Option<usize>)
    ensures
        r matches Some(k) ==> k < index && k < ts@.len(),
        match r {
            Some(k) => prev_meaningful(token_seq_view(ts@), index as int) == Some(k as int),
            None => prev_meaningful(token_seq_view(ts@), index as int) is None,
        },
{
    if index > ts.len() {
        return None;
    }
    let mut j: usize = index;
    while j > 0
        invariant
            j <= index <= ts@.len(),
            prev_before(token_seq_view(ts@), index as int) == prev_before(token_seq_view(ts@), j as int),
        decreases j,
    {
        if ts[j - 1].kind != TokenKind::Separator {
            return Some(j - 1);
        }
        j -= 1;
    }
    None
}

pub fn next_meaningful_index(ts: &[Token], index: usize) -> (r: Option<usize>)
    ensures
        r matches Some(k) ==> index < k < ts@.len(),
        match r {
            Some(k) => next_meaningful(token_seq_view(ts@), index as int) == Some(k as int),
            None => next_meaningful(token_seq_view(ts@), index as int) is None,
        },
{
    if index >= ts.len() {
        return None;
    }
    let mut j: usize = index + 1;
    while j < ts.len()
        invariant
            index < j <= ts@.len(),
            next_from(token_seq_view(ts@), index + 1) == next_from(token_seq_view(ts@), j as int),
        decreases ts@.len() - j,
    {
        if ts[j].kind != TokenKind::Separator {
            return Some(j);
        }
        j += 1;
    }
    None
}

fn previous_word_in(ts: &[Token], index: usize, ws: &[&str]) -> (r: bool)
    ensures
        r == prev_word_in(token_seq_view(ts@), index as int, ws@),
{
    match previous_meaningful(ts, index) {
        Some(k) => in_words(ts[k].lower.as_slice(), ws),
        None => false,
    }
}

fn following_word_in(ts: &[Token], index: usize, ws: &[&str]) -> (r: bool)
    ensures
        r == next_word_in(token_seq_view(ts@), index as int, ws@),
{
    match next_meaningful_index(ts, index) {
        Some(k) => in_words(ts[k].lower.as_slice(), ws),
        None => false,
    }
}

fn number_token_at(ts: &[Token], index: usize) -> (r: Option<NumberToken>)
    ensures
        r == number_at(token_seq_view(ts@), index as int),
{
    if index < ts.len() {
        ts[index].number
    } else {
        None
    }
}

pub fn known_quality_or_source(t: &[char]) -> (r: bool)
    ensures
        r == words_contain(quality_words(), t@),
{
    let ws = ["p", "k", "web", "webdl", "web-dl", "bdrip", "bluray", "amzn", "nf", "cr", "h", "x", "hevc", "avc", "aac", "flac", "ddp"];
    assert(ws@ =~= quality_words());
    in_words(t, &ws)
}

pub fn known_language_token(t: &[char]) -> (r: bool)
    ensures
        r == words_contain(language_words(), t@),
{
    let ws = ["zh", "hans", "hant", "zh-hans", "zh-hant", "chs", "cht", "sc", "tc", "ja", "jpn", "jp", "en", "eng", "english"];
    assert(ws@ =~= language_words());
    in_words(t, &ws)
}

pub fn is_special_token(t: &[char]) -> (r: bool)
    ensures
        r == words_contain(special_words(), t@),
{
    let ws = ["ova", "sp", "special", "ncop", "nced", "pv", "trailer", "op", "ed"];
    assert(ws@ =~= special_words());
    in_words(t, &ws)
}

pub fn is_episode_marker_context(ts: &[Token], index: usize) -> (r: bool)
    ensures
        r == is_episode_marker_context_spec(token_seq_view(ts@), index as int),
{
    let p = ["e", "ep", "episode", "第"];
    let n = ["话", "話"];
    assert(p@ =~= seq!["e", "ep", "episode", "第"]);
    assert(n@ =~= seq!["话", "話"]);
    previous_word_in(ts, index, &p) || following_word_in(ts, index, &n)
}

pub fn is_season_marker_context(ts: &[Token], index: usize) -> (r: bool)
    ensures
        r == is_season_marker_context_spec(token_seq_view(ts@), index as int),
{
    let p = ["s", "season", "第"];
    let n = ["季"];
    assert(p@ =~= seq!["s", "season", "第"]);
    assert(n@ =~= seq!["季"]);
    previous_word_in(ts, index, &p) || following_word_in(ts, index, &n)
}

pub fn has_separator_context(ts: &[Token], index: usize) -> (r: bool)
    ensures
        r == has_separator_context_spec(token_seq_view(ts@), index as int),
{
    let before = index >= 1 && index <= ts.len() && ts[index - 1].kind == TokenKind::Separator;
    let after = index < ts.len() && index + 1 < ts.len() && ts[index + 1].kind == TokenKind::Separator;
    before || after
}

fn is_resolution(ts: &[Token], index: usize) -> (r: bool)
    ensures
        r == is_resolution_spec(token_seq_view(ts@), index as int),
{
    match number_token_at(ts, index) {
        Some(n) => {
            let v = n.value;
            let n_words = ["p", "k"];
            assert(n_words@ =~= seq!["p", "k"]);
            (v == 480 || v == 720 || v == 1080 || v == 1440 || v == 2160 || v == 4320 || v == 4 || v == 8)
                && following_word_in(ts, index, &n_words)
        },
        None => false,
    }
}

fn is_codec_number(ts: &[Token], index: usize) -> (r: bool)
    ensures
        r == is_codec_number_spec(token_seq_view(ts@), index as int),
{
    match number_token_at(ts, index) {
        Some(n) => {
            let p = ["h", "x", "avc", "hevc"];
            let q = ["avc", "hevc"];
            assert(p@ =~= seq!["h", "x", "avc", "hevc"]);
            assert(q@ =~= seq!["avc", "hevc"]);
            264 <= n.value && n.value <= 266 && (previous_word_in(ts, index, &p) || following_word_in(ts, index, &q))
        },
        None => false,
    }
}

fn is_bit_depth(ts: &[Token], index: usize) -> (r: bool)
    ensures
        r == is_bit_depth_spec(token_seq_view(ts@), index as int),
{
    match number_token_at(ts, index) {
        Some(n) => {
            let q = ["bit", "bits"];
            assert(q@ =~= seq!["bit", "bits"]);
            (n.value == 8 || n.value == 10 || n.value == 12) && following_word_in(ts, index, &q)
        },
        None => false,
    }
}

fn is_audio_number(ts: &[Token], index: usize) -> (r: bool)
    ensures
        r == is_audio_number_spec(token_seq_view(ts@), index as int),
{
    let p = ["aac", "flac", "ddp", "dd", "atmos", "dts"];
    assert(p@ =~= seq!["aac", "flac", "ddp", "dd", "atmos", "dts"]);
    previous_word_in(ts, index, &p)
}

fn is_bracketed(ts: &[Token], index: usize) -> (r: bool)
    ensures
        r == is_bracketed_spec(token_seq_view(ts@), index as int),
{
    if index < 1 || index > ts.len() {
        return false;
    }
    let before = &ts[index - 1].text;
    let opens = has_char(before.as_slice(), '[') || has_char(before.as_slice(), '(');
    if !opens || index >= ts.len() || index + 1 >= ts.len() {
        return false;
    }
    let after = &ts[index + 1].text;
    has_char(after.as_slice(), ']') || has_char(after.as_slice(), ')')
}

fn is_hash_number(ts: &[Token], index: usize) -> (r: bool)
    ensures
        r == is_hash_number_spec(token_seq_view(ts@), index as int),
{
    match number_token_at(ts, index) {
        Some(n) => n.width >= 6 && is_bracketed(ts, index),
        None => false,
    }
}

fn is_source_number(ts: &[Token], index: usize) -> (r: bool)
    ensures
        r == is_source_number_spec(token_seq_view(ts@), index as int),
{
    let p = ["web", "amzn", "nf", "cr", "bdrip", "bluray"];
    assert(p@ =~= seq!["web", "amzn", "nf", "cr", "bdrip", "bluray"]);
    previous_word_in(ts, index, &p)
}

fn is_language_number(ts: &[Token], index: usize) -> (r: bool)
    ensures
        r == is_language_number_spec(token_seq_view(ts@), index as int),
{
    let p = ["zh", "ja", "jp", "jpn", "en", "eng"];
    assert(p@ =~= seq!["zh", "ja", "jp", "jpn", "en", "eng"]);
    previous_word_in(ts, index, &p)
}

fn is_special_number(ts: &[Token], index: usize) -> (r: bool)
    ensures
        r == is_special_number_spec(token_seq_view(ts@), index as int),
{
    match previous_meaningful(ts, index) {
        Some(k) => is_special_token(ts[k].lower.as_slice()),
        None => false,
    }
}

fn is_title_number(ts: &[Token], index: usize) -> (r: bool)
    ensures
        r == is_title_number_spec(token_seq_view(ts@), index as int),
{
    let p = ["title", "track"];
    assert(p@ =~= seq!["title", "track"]);
    previous_word_in(ts, index, &p)
}

fn is_version_number(ts: &[Token], index: usize) -> (r: bool)
    ensures
        r == is_version_number_spec(token_seq_view(ts@), index as int),
{
    let p = ["v", "ver", "version"];
    assert(p@ =~= version_words());
    previous_word_in(ts, index, &p)
}

fn is_segment_or_page_number(ts: &[Token], index: usize) -> (r: bool)
    ensures
        r == is_segment_or_page_number_spec(token_seq_view(ts@), index as int),
{
    let p = ["p", "pv", "part", "page", "chapter", "chap", "segment", "seg", "shard", "step", "backup", "log"];
    assert(p@ =~= segment_words());
    previous_word_in(ts, index, &p)
}

fn is_year(v: u32) -> (r: bool)
    ensures
        r == is_year_spec(v),
{
    1900 <= v && v <= 2099
}

fn number_of_index(ts: &[Token], k: Option<usize>) -> (r: Option<NumberToken>)
    requires
        k matches Some(k) ==> k < ts@.len(),
    ensures
        r == meaningful_number(token_seq_view(ts@), match k { Some(k) => Some(k as int), None => None }),
{
    match k {
        Some(k) => ts[k].number,
        None => None,
    }
}

fn is_date_component(ts: &[Token], index: usize) -> (r: bool)
    ensures
        r == is_date_component_spec(token_seq_view(ts@), index as int),
{
    let current = number_token_at(ts, index);
    let previous = number_of_index(ts, previous_meaningful(ts, index));
    let next = number_of_index(ts, next_meaningful_index(ts, index));
    let first = match (previous, current) {
        (Some(y), Some(c)) => is_year(y.value) && 1 <= c.value && c.value <= 31,
        _ => false,
    };
    let second = match (current, next) {
        (Some(c), Some(f)) => is_year(c.value) && 1 <= f.value && f.value <= 12,
        _ => false,
    };
    first || second
}

pub fn is_plausible_episode_u32(v: u32) -> (r: bool)
    ensures
        r == is_plausible_episode_spec(v),
{
    1 <= v && v <= 200 && !(264 <= v && v <= 266)
}

fn number_slot_is_noise(ts: &[Token], index: usize) -> (r: bool)
    ensures
        r == number_slot_is_noise_spec(token_seq_view(ts@), index as int),
{
    match number_token_at(ts, index) {
        None => true,
        Some(n) => {
            if !is_plausible_episode_u32(n.value) {
                return true;
            }
            is_resolution(ts, index) || is_codec_number(ts, index) || is_bit_depth(ts, index)
                || is_audio_number(ts, index) || is_date_component(ts, index)
                || is_version_number(ts, index) || is_segment_or_page_number(ts, index)
        },
    }
}

pub fn classify_number_slot(ts: &[Token], index: usize) -> (r: ParseSlotLabel)
    ensures
        r == classify_number_slot_spec(token_seq_view(ts@), index as int),
{
    if is_season_marker_context(ts, index) {
        ParseSlotLabel::Season
    } else if is_hash_number(ts, index) {
        ParseSlotLabel::Hash
    } else if is_resolution(ts, index) {
        ParseSlotLabel::Resolution
    } else if is_codec_number(ts, index) {
        ParseSlotLabel::Codec
    } else if is_version_number(ts, index) {
        ParseSlotLabel::Version
    } else if is_source_number(ts, index) {
        ParseSlotLabel::Source
    } else if is_language_number(ts, index) {
        ParseSlotLabel::Language
    } else if is_special_number(ts, index) {
        ParseSlotLabel::Special
    } else if is_title_number(ts, index) {
        ParseSlotLabel::Title
    } else if is_date_component(ts, index) || is_bit_depth(ts, index) || is_audio_number(ts, index)
        || is_segment_or_page_number(ts, index) || number_slot_is_noise(ts, index) {
        ParseSlotLabel::Noise
    } else if is_episode_marker_context(ts, index) || has_separator_context(ts, index) {
        ParseSlotLabel::Episode
    } else {
        ParseSlotLabel::Unknown
    }
}

fn context_token_key(t: &Token) -> (r: Vec<char>)
    ensures
        r@ == context_token_key_spec(t@),
{
    if t.kind == TokenKind::Number {
        let mut v: Vec<char> = Vec::new();
        v.push('#');
        assert(v@ =~= seq!['#']);
        v
    } else {
        to_vec(t.lower.as_slice())
    }
}

fn optional_version_suffix_end(ts: &[Token], index: usize) -> (r: Option<usize>)
    ensures
        r matches Some(k) ==> k < ts@.len(),
        match r {
            Some(k) => optional_version_suffix_end_spec(token_seq_view(ts@), index as int) == Some(k as int),
            None => optional_version_suffix_end_spec(token_seq_view(ts@), index as int) is None,
        },
{
    let vi = match next_meaningful_index(ts, index) {
        Some(vi) => vi,
        None => return None,
    };
    let ws = ["v", "ver", "version"];
    assert(ws@ =~= version_words());
    if !in_words(ts[vi].lower.as_slice(), &ws) {
        return None;
    }
    let ni = match next_meaningful_index(ts, vi) {
        Some(ni) => ni,
        None => return None,
    };
    if ts[ni].kind == TokenKind::Number {
        Some(ni)
    } else {
        None
    }
}

pub fn slot_context_key(ts: &[Token], index: usize) -> (r: Vec<char>)
    ensures
        r@ == slot_context_key_spec(token_seq_view(ts@), index as int),
{
    let mut out = match previous_meaningful(ts, index) {
        Some(k) => context_token_key(&ts[k]),
        None => {
            let mut v: Vec<char> = Vec::new();
            v.push('^');
            assert(v@ =~= seq!['^']);
            v
        },
    };
    out.push('|');
    let right_index = match optional_version_suffix_end(ts, index) {
        Some(e) => e,
        None => index,
    };
    let right = match next_meaningful_index(ts, right_index) {
        Some(k) => context_token_key(&ts[k]),
        None => {
            let mut v: Vec<char> = Vec::new();
            v.push('$');
            assert(v@ =~= seq!['$']);
            v
        },
    };
    let ghost left = out@.drop_last();
    push_chars(&mut out, right.as_slice());
    assert(out@ =~= left + seq!['|'] + right@);
    out
}

} // verus!
