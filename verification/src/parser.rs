//! Episode candidates and the decision taken on them.

use vstd::prelude::*;
use crate::domain::{EpisodeKey, ParseCandidate, ParseCandidateSource, ParseStatus, episode_key_text, episode_key_lt};
use crate::sort::{stable_sort, dedup_consecutive, sort_by, dedup_by};
use crate::text::{
    decimal, chars_to_string, push_lit, push_chars, decimal_chars, words_contain, lowercase_text,
    ascii_lower_seq, join_seqs, str_chars, lower_chars, ascii_lower_chars, to_vec, eq_chars,
};
use crate::path::{MediaPath, file_stem_spec, extension_spec, parent_spec};
use crate::rules::{
    normalize_text_spec, normalize_text, searchable_text_spec, searchable_path_text, path_sort_text,
    parts_sort_text, rule_candidates_spec, regex_episode_candidates, season_or_first, parse_season,
};
use crate::slots::{special_words, quality_words, language_words, is_special_token, known_quality_or_source,
    known_language_token, is_plausible_episode_spec, is_plausible_episode_u32};
use crate::template::{CohortPath, CohortV, TemplateV, SlotV, TemplateSlot, TemplatePattern, infer_template_spec,
    infer_template_pattern, cohort_views, slot_views};
use crate::tokens::{Token, TokenKind, TokenV, token_seq_view, token_views, tokenize_text};

verus! {

/// A possible episode for a file, with how sure the rule that found it is.
#[derive(Debug, Clone)]
pub struct EpisodeCandidate {
    pub key: EpisodeKey,
    pub confidence: u8,
    pub source: ParseCandidateSource,
    pub note: String,
}

/// The episode accepted (or tentatively accepted) for a file.
#[derive(Debug, Clone)]
pub struct ParsedEpisode {
    pub key: EpisodeKey,
    pub confidence: u8,
    pub candidates: Vec<EpisodeCandidate>,
    pub status: ParseStatus,
    pub notes: Vec<String>,
}

/// The outcome of parsing one file name.
#[derive(Debug, Clone)]
pub struct ParseDecision {
    pub parsed: Option<ParsedEpisode>,
    pub status: ParseStatus,
    pub notes: Vec<String>,
    pub candidates: Vec<EpisodeCandidate>,
}

pub struct CandidateView {
    pub key: EpisodeKey,
    pub confidence: u8,
    pub source: ParseCandidateSource,
    pub note: Seq<char>,
}

pub struct ParsedView {
    pub key: EpisodeKey,
    pub confidence: u8,
    pub candidates: Seq<CandidateView>,
    pub status: ParseStatus,
    pub notes: Seq<Seq<char>>,
}

pub struct DecisionView {
    pub parsed: Option<ParsedView>,
    pub status: ParseStatus,
    pub notes: Seq<Seq<char>>,
    pub candidates: Seq<CandidateView>,
}

impl View for EpisodeCandidate {
    type V = CandidateView;

    open spec fn view(&self) -> CandidateView {
        CandidateView { key: self.key, confidence: self.confidence, source: self.source, note: self.note@ }
    }
}

impl DeepView for EpisodeCandidate {
    type V = CandidateView;

    open spec fn deep_view(&self) -> CandidateView {
        self.view()
    }
}

impl DeepView for ParsedEpisode {
    type V = ParsedView;

    open spec fn deep_view(&self) -> ParsedView {
        ParsedView {
            key: self.key,
            confidence: self.confidence,
            candidates: self.candidates.deep_view(),
            status: self.status,
            notes: self.notes.deep_view(),
        }
    }
}

impl DeepView for ParseDecision {
    type V = DecisionView;

    open spec fn deep_view(&self) -> DecisionView {
        DecisionView {
            parsed: self.parsed.deep_view(),
            status: self.status,
            notes: self.notes.deep_view(),
            candidates: self.candidates.deep_view(),
        }
    }
}

/// Candidates are ranked by confidence (highest first), then by season and episode.
pub open spec fn candidate_before(a: CandidateView, b: CandidateView) -> bool {
    a.confidence > b.confidence || (a.confidence == b.confidence && episode_key_lt(a.key, b.key))
}

/// Two candidates with the same key, confidence and source say the same thing.
pub open spec fn same_candidate(a: CandidateView, b: CandidateView) -> bool {
    a.key == b.key && a.confidence == b.confidence && a.source == b.source
}

/// The candidates ranked, with repeated neighbours dropped.
pub open spec fn sort_candidates_spec(c: Seq<CandidateView>) -> Seq<CandidateView> {
    dedup_consecutive(stable_sort(c, |a: CandidateView, b: CandidateView| candidate_before(a, b)),
        |a: CandidateView, b: CandidateView| same_candidate(a, b))
}

/// The notes with every repeated note dropped after its first occurrence.
pub open spec fn unique_seq(s: Seq<Seq<char>>) -> Seq<Seq<char>>
    decreases s.len(),
{
    if s.len() == 0 {
        s
    } else {
        let d = unique_seq(s.drop_last());
        if d.contains(s.last()) {
            d
        } else {
            d.push(s.last())
        }
    }
}

/// A candidate with a different key whose confidence is within 8 of the best one.
pub open spec fn has_close_competing_candidate_spec(s: Seq<CandidateView>) -> bool {
    s.len() > 0 && exists|i: int| 1 <= i < s.len() && #[trigger] s[i].key != s[0].key
        && (if s[0].confidence >= s[i].confidence { s[0].confidence - s[i].confidence } else { 0 }) < 8
}

pub open spec fn accepted_note(k: EpisodeKey, c: u8) -> Seq<char> {
    "已接受 "@ + episode_key_text(k) + "，置信度 "@ + decimal(c as nat) + "。"@
}

pub open spec fn low_confidence_note(k: EpisodeKey, c: u8) -> Seq<char> {
    episode_key_text(k) + " 置信度 "@ + decimal(c as nat) + " 低于自动匹配阈值，需要手动确认。"@
}

pub open spec fn ambiguous_note() -> Seq<char> {
    "存在多个接近的 episode 候选，需要手动确认。"@
}

/// The status a non-empty ranked candidate list earns.
pub open spec fn decision_status(s: Seq<CandidateView>) -> ParseStatus {
    if has_close_competing_candidate_spec(s) {
        ParseStatus::Ambiguous
    } else if s[0].confidence >= 70 {
        ParseStatus::Accepted
    } else {
        ParseStatus::LowConfidence
    }
}

pub open spec fn status_note(status: ParseStatus, best: CandidateView) -> Seq<char> {
    match status {
        ParseStatus::Accepted => accepted_note(best.key, best.confidence),
        ParseStatus::LowConfidence => low_confidence_note(best.key, best.confidence),
        _ => ambiguous_note(),
    }
}

/// The decision on a list of candidates and the notes gathered so far.
pub open spec fn decide_spec(cands: Seq<CandidateView>, notes: Seq<Seq<char>>) -> DecisionView {
    let sorted = sort_candidates_spec(cands);
    let views = sorted;
    let un = unique_seq(notes);
    if sorted.len() == 0 {
        DecisionView { parsed: None, status: ParseStatus::Rejected, notes: un, candidates: views }
    } else {
        let best = sorted[0];
        let status = decision_status(sorted);
        let final_notes = unique_seq(un.push(status_note(status, best)));
        DecisionView {
            parsed: if status == ParseStatus::Ambiguous {
                None
            } else {
                Some(ParsedView { key: best.key, confidence: best.confidence, candidates: views, status, notes: final_notes })
            },
            status,
            notes: final_notes,
            candidates: views,
        }
    }
}

pub fn copy_candidate(c: &EpisodeCandidate) -> (r: EpisodeCandidate)
    ensures
        r == *c,
{
    EpisodeCandidate { key: c.key, confidence: c.confidence, source: c.source, note: c.note.clone() }
}

pub fn copy_candidates(v: &Vec<EpisodeCandidate>) -> (r: Vec<EpisodeCandidate>)
    ensures
        r@ == v@,
{
    let mut out: Vec<EpisodeCandidate> = Vec::new();
    let mut i: usize = 0;
    while i < v.len()
        invariant
            i <= v@.len(),
            out@ =~= v@.subrange(0, i as int),
        decreases v@.len() - i,
    {
        out.push(copy_candidate(&v[i]));
        i += 1;
    }
    assert(out@ =~= v@);
    out
}

pub fn copy_strings(v: &Vec<String>) -> (r: Vec<String>)
    ensures
        r@ == v@,
{
    let mut out: Vec<String> = Vec::new();
    let mut i: usize = 0;
    while i < v.len()
        invariant
            i <= v@.len(),
            out@ =~= v@.subrange(0, i as int),
        decreases v@.len() - i,
    {
        out.push(v[i].clone());
        i += 1;
    }
    assert(out@ =~= v@);
    out
}

/// Ranks the candidates and drops repeated neighbours.
pub fn sort_candidates(v: Vec<EpisodeCandidate>) -> (r: Vec<EpisodeCandidate>)
    ensures
        r.deep_view() == sort_candidates_spec(v.deep_view()),
{
    let ghost f = |c: EpisodeCandidate| c@;
    let ghost ba = |a: EpisodeCandidate, b: EpisodeCandidate| candidate_before(a@, b@);
    let ghost sa = |a: EpisodeCandidate, b: EpisodeCandidate| same_candidate(a@, b@);
    let ghost vb = |a: CandidateView, b: CandidateView| candidate_before(a, b);
    let ghost vs = |a: CandidateView, b: CandidateView| same_candidate(a, b);
    let ghost orig = v@;
    let before = |a: &EpisodeCandidate, b: &EpisodeCandidate| -> (o: bool)
        ensures
            o == candidate_before(a@, b@),
        {
            a.confidence > b.confidence || (a.confidence == b.confidence && (a.key.season < b.key.season
                || (a.key.season == b.key.season && a.key.episode < b.key.episode)))
        };
    let sorted = sort_by(v, before, Ghost(ba));
    let same = |a: &EpisodeCandidate, b: &EpisodeCandidate| -> (o: bool)
        ensures
            o == same_candidate(a@, b@),
        { a.key.season == b.key.season && a.key.episode == b.key.episode && a.confidence == b.confidence && a.source == b.source };
    let r = dedup_by(sorted, same, Ghost(sa));
    proof {
        crate::sort::lemma_stable_sort_map(orig, f, ba, vb);
        crate::sort::lemma_dedup_map(stable_sort(orig, ba), f, sa, vs);
        assert(orig.map_values(f) =~= v.deep_view());
        assert(r@.map_values(f) =~= r.deep_view());
    }
    r
}

pub proof fn lemma_unique_seq_contains(s: Seq<Seq<char>>, x: Seq<char>)
    ensures
        unique_seq(s).contains(x) == s.contains(x),
    decreases s.len(),
{
    if s.len() > 0 {
        lemma_unique_seq_contains(s.drop_last(), x);
        let d = unique_seq(s.drop_last());
        if !d.contains(s.last()) {
            assert(d.push(s.last()).contains(x) == (d.contains(x) || x == s.last())) by {
                if d.push(s.last()).contains(x) {
                    let k = choose|k: int| 0 <= k < d.len() + 1 && d.push(s.last())[k] == x;
                    if k < d.len() {
                        assert(d[k] == x);
                    }
                }
                if d.contains(x) {
                    let k = choose|k: int| 0 <= k < d.len() && d[k] == x;
                    assert(d.push(s.last())[k] == x);
                }
                if x == s.last() {
                    assert(d.push(s.last())[d.len() as int] == x);
                }
            }
        }
        assert(s.contains(x) == (s.drop_last().contains(x) || x == s.last())) by {
            if s.contains(x) {
                let k = choose|k: int| 0 <= k < s.len() && s[k] == x;
                if k < s.len() - 1 {
                    assert(s.drop_last()[k] == x);
                }
            }
            if s.drop_last().contains(x) {
                let k = choose|k: int| 0 <= k < s.len() - 1 && s.drop_last()[k] == x;
                assert(s[k] == x);
            }
            if x == s.last() {
                assert(s[s.len() - 1] == x);
            }
        }
    }
}

/// The notes with every repeated note dropped after its first occurrence.
pub fn unique_notes(notes: Vec<String>) -> (r: Vec<String>)
    ensures
        r.deep_view() == unique_seq(notes.deep_view()),
{
    let ghost orig = notes.deep_view();
    let mut out: Vec<String> = Vec::new();
    let mut i: usize = 0;
    while i < notes.len()
        invariant
            i <= notes@.len(),
            orig == notes.deep_view(),
            out.deep_view() =~= unique_seq(orig.subrange(0, i as int)),
        decreases notes@.len() - i,
    {
        let note = &notes[i];
        let mut seen = false;
        let mut j: usize = 0;
        while j < out.len()
            invariant
                j <= out@.len(),
                seen == exists|k: int| 0 <= k < j && out@[k]@ == note@,
            decreases out@.len() - j,
        {
            if out[j] == *note {
                seen = true;
            }
            j += 1;
        }
        proof {
            let pre = orig.subrange(0, i + 1);
            assert(pre.drop_last() =~= orig.subrange(0, i as int));
            assert(pre.last() == note@);
            let d = unique_seq(orig.subrange(0, i as int));
            assert(seen == d.contains(note@)) by {
                if seen {
                    let k = choose|k: int| 0 <= k < out@.len() && out@[k]@ == note@;
                    assert(d[k] == note@);
                }
                if d.contains(note@) {
                    let k = choose|k: int| 0 <= k < d.len() && d[k] == note@;
                    assert(out@[k]@ == note@);
                }
            }
        }
        if !seen {
            out.push(note.clone());
        }
        i += 1;
    }
    assert(orig.subrange(0, notes@.len() as int) =~= orig);
    out
}

pub fn has_close_competing_candidate(s: &Vec<EpisodeCandidate>) -> (r: bool)
    ensures
        r == has_close_competing_candidate_spec(s.deep_view()),
{
    if s.len() == 0 {
        return false;
    }
    let best = &s[0];
    let mut i: usize = 1;
    while i < s.len()
        invariant
            1 <= i <= s@.len(),
            best == s@[0],
            forall|k: int| 1 <= k < i ==> !(#[trigger] s@[k].key != s@[0].key
                && (if s@[0].confidence >= s@[k].confidence { s@[0].confidence - s@[k].confidence } else { 0 }) < 8),
        decreases s@.len() - i,
    {
        let c = &s[i];
        let gap: u8 = if best.confidence >= c.confidence { best.confidence - c.confidence } else { 0 };
        if (c.key.season != best.key.season || c.key.episode != best.key.episode) && gap < 8 {
            assert(s.deep_view()[i as int] == s@[i as int]@);
            assert(s.deep_view()[0] == s@[0]@);
            assert(s.deep_view()[i as int].key != s.deep_view()[0].key);
            return true;
        }
        i += 1;
    }
    assert forall|k: int| 1 <= k < s@.len() implies !(#[trigger] s.deep_view()[k].key != s.deep_view()[0].key
        && (if s.deep_view()[0].confidence >= s.deep_view()[k].confidence { s.deep_view()[0].confidence - s.deep_view()[k].confidence } else { 0 }) < 8) by {
        assert(s.deep_view()[k] == s@[k]@);
        assert(s.deep_view()[0] == s@[0]@);
    }
    false
}

fn status_note_chars(status: ParseStatus, best: &EpisodeCandidate) -> (r: Vec<char>)
    ensures
        r@ == status_note(status, best@),
{
    let mut out: Vec<char> = Vec::new();
    match status {
        ParseStatus::Accepted => {
            push_lit(&mut out, "已接受 ");
            push_chars(&mut out, best.key.key_chars().as_slice());
            push_lit(&mut out, "，置信度 ");
            push_chars(&mut out, decimal_chars(best.confidence as u64).as_slice());
            push_lit(&mut out, "。");
        },
        ParseStatus::LowConfidence => {
            push_chars(&mut out, best.key.key_chars().as_slice());
            push_lit(&mut out, " 置信度 ");
            push_chars(&mut out, decimal_chars(best.confidence as u64).as_slice());
            push_lit(&mut out, " 低于自动匹配阈值，需要手动确认。");
        },
        _ => {
            push_lit(&mut out, "存在多个接近的 episode 候选，需要手动确认。");
        },
    }
    assert(out@ =~= status_note(status, best@));
    out
}

/// Decides on the candidates: the best one is accepted when it is sure enough
/// and has no close competitor with another key.
pub fn decide_episode(candidates: Vec<EpisodeCandidate>, notes: Vec<String>) -> (r: ParseDecision)
    ensures
        r.deep_view() == decide_spec(candidates.deep_view(), notes.deep_view()),
{
    let sorted = sort_candidates(candidates);
    let un = unique_notes(notes);
    if sorted.len() == 0 {
        return ParseDecision { parsed: None, status: ParseStatus::Rejected, notes: un, candidates: sorted };
    }
    let best = copy_candidate(&sorted[0]);
    let status = if has_close_competing_candidate(&sorted) {
        ParseStatus::Ambiguous
    } else if best.confidence >= 70 {
        ParseStatus::Accepted
    } else {
        ParseStatus::LowConfidence
    };
    let msg = status_note_chars(status, &best);
    let mut decision_notes = un;
    let ghost before_push = decision_notes.deep_view();
    decision_notes.push(chars_to_string(msg.as_slice()));
    assert(decision_notes.deep_view() =~= before_push.push(msg@));
    let parsed = if status == ParseStatus::Ambiguous {
        None
    } else {
        let cands = copy_candidates(&sorted);
        assert(cands.deep_view() =~= sorted.deep_view());
        Some(ParsedEpisode {
            key: best.key,
            confidence: best.confidence,
            candidates: cands,
            status,
            notes: unique_notes(copy_strings(&decision_notes)),
        })
    };
    ParseDecision { parsed, status, notes: unique_notes(decision_notes), candidates: sorted }
}

pub open spec fn no_rule_note() -> Seq<char> {
    "未命中单文件强规则。"@
}

pub open spec fn no_template_note() -> Seq<char> {
    "同组文件未能归纳出稳定 episode 模板。"@
}

pub open spec fn special_content_note() -> Seq<char> {
    "识别为 OVA/SP/NCOP/NCED/PV/Trailer 等特殊内容，需要手动确认。"@
}

/// The decision the single-file rules alone reach for a path.
pub open spec fn single_decision(p: MediaPath) -> DecisionView {
    let cands = rule_candidates_spec(searchable_text_spec(p));
    decide_spec(cands, if cands.len() == 0 { seq![no_rule_note()] } else { Seq::empty() })
}

/// The tokens of a path's file stem.
pub open spec fn stem_tokens(p: MediaPath) -> Seq<TokenV> {
    match file_stem_spec(p.parts@) {
        Some(stem) => token_views(normalize_text_spec(stem)),
        None => Seq::empty(),
    }
}

/// A file is special content (OVA, SP, NCOP, ...) when one of its words says so.
pub open spec fn is_special_spec(ts: Seq<TokenV>) -> bool {
    exists|i: int| 0 <= i < ts.len() && (#[trigger] ts[i]).kind == TokenKind::Alpha && words_contain(special_words(), ts[i].lower)
}

/// Words that do not identify a series.
pub open spec fn ignored_signature_spec(t: Seq<char>) -> bool {
    words_contain(quality_words(), t) || words_contain(language_words(), t) || words_contain(special_words(), t)
        || words_contain(seq!["s", "e", "ep", "v", "p", "h", "x"], t)
}

/// The signature words among the first `n` tokens.
pub open spec fn signature_words(ts: Seq<TokenV>, n: int) -> Seq<Seq<char>>
    decreases n,
{
    if n <= 0 || n > ts.len() {
        Seq::empty()
    } else {
        let rest = signature_words(ts, n - 1);
        if ts[n - 1].kind == TokenKind::Alpha && !ignored_signature_spec(ts[n - 1].lower) {
            rest.push(ts[n - 1].lower)
        } else {
            rest
        }
    }
}

/// The index of the first number token at or after `k`, or the length.
pub open spec fn first_number_from(ts: Seq<TokenV>, k: int) -> int
    decreases ts.len() - k,
{
    if k < 0 || k >= ts.len() {
        ts.len() as int
    } else if ts[k].kind == TokenKind::Number {
        k
    } else {
        first_number_from(ts, k + 1)
    }
}

/// The series words of a name: those before the first number, or all of them
/// when none stands there.
pub open spec fn cohort_signature_spec(ts: Seq<TokenV>) -> Seq<char> {
    let before = signature_words(ts, first_number_from(ts, 0));
    if before.len() > 0 {
        join_seqs(before, " "@)
    } else {
        join_seqs(signature_words(ts, ts.len() as int), " "@)
    }
}

/// Files share a cohort when they share a directory, an extension and a series signature.
pub open spec fn cohort_key_spec(p: MediaPath) -> Seq<char> {
    let parent = match parent_spec(p.parts@) {
        Some(pp) => lowercase_text(parts_sort_text(pp)),
        None => lowercase_text(Seq::empty()),
    };
    let ext = match extension_spec(p.parts@) {
        Some(e) => ascii_lower_seq(e),
        None => Seq::empty(),
    };
    parent + "|"@ + ext + "|"@ + cohort_signature_spec(stem_tokens(p))
}

pub open spec fn cohort_view(p: MediaPath) -> CohortV {
    CohortV {
        tokens: stem_tokens(p),
        season: season_or_first(searchable_text_spec(p)),
        special: is_special_spec(stem_tokens(p)),
    }
}

/// The indexes of the first `n` paths that share the cohort key `key`.
pub open spec fn cohort_members(paths: Seq<MediaPath>, key: Seq<char>, n: int) -> Seq<int>
    decreases n,
{
    if n <= 0 || n > paths.len() {
        Seq::empty()
    } else {
        let rest = cohort_members(paths, key, n - 1);
        if cohort_key_spec(paths[n - 1]) == key {
            rest.push(n - 1)
        } else {
            rest
        }
    }
}

/// The slots labelled as episodes.
pub open spec fn episode_slots_spec(slots: Seq<SlotV>) -> Seq<SlotV>
    decreases slots.len(),
{
    if slots.len() == 0 {
        slots
    } else {
        let rest = episode_slots_spec(slots.drop_last());
        if slots.last().label == crate::domain::ParseSlotLabel::Episode {
            rest.push(slots.last())
        } else {
            rest
        }
    }
}

/// The candidate one slot gives for a file, when the file has a plausible episode number there.
pub open spec fn slot_candidate(slot: SlotV, cp: CohortV) -> Seq<CandidateView> {
    if (slot.token_index as int) < cp.tokens.len() {
        match cp.tokens[slot.token_index as int].number {
            Some(n) => if n.value <= 0xffff && is_plausible_episode_spec(n.value) {
                seq![CandidateView {
                    key: EpisodeKey { season: cp.season, episode: n.value as u16 },
                    confidence: slot.confidence,
                    source: slot.source,
                    note: slot.note,
                }]
            } else {
                Seq::empty()
            },
            None => Seq::empty(),
        }
    } else {
        Seq::empty()
    }
}

pub open spec fn slot_candidates(slots: Seq<SlotV>, cp: CohortV) -> Seq<CandidateView>
    decreases slots.len(),
{
    if slots.len() == 0 {
        Seq::empty()
    } else {
        slot_candidates(slots.drop_last(), cp) + slot_candidate(slots.last(), cp)
    }
}

/// The decision for file `i` of a batch: the single-file decision, revised
/// by the template of the file's cohort when the cohort has one.
pub open spec fn batch_decision(paths: Seq<MediaPath>, i: int) -> DecisionView {
    let single = single_decision(paths[i]);
    let members = cohort_members(paths, cohort_key_spec(paths[i]), paths.len() as int);
    if members.len() < 2 {
        single
    } else {
        let cps = Seq::new(members.len(), |k: int| cohort_view(paths[members[k]]));
        match infer_template_spec(cps) {
            None => if single.status == ParseStatus::Rejected {
                DecisionView { notes: single.notes.push(no_template_note()), ..single }
            } else {
                single
            },
            Some(t) => {
                let eps = episode_slots_spec(t.slots);
                let cp = cohort_view(paths[i]);
                if eps.len() == 0 {
                    single
                } else if cp.special {
                    decide_spec(single.candidates, unique_seq(single.notes.push(special_content_note())))
                } else {
                    decide_spec(single.candidates + slot_candidates(eps, cp), unique_seq(single.notes + t.notes))
                }
            },
        }
    }
}

/// Parses the episode of one file name by the single-file rules.
pub fn parse_episode(path: &MediaPath) -> (r: Option<ParsedEpisode>)
    ensures
        r.deep_view() == single_decision(*path).parsed,
{
    let text = searchable_path_text(path);
    let mut notes: Vec<String> = Vec::new();
    let candidates = regex_episode_candidates(text.as_slice());
    if candidates.len() == 0 {
        let n = str_chars("未命中单文件强规则。");
        notes.push(chars_to_string(n.as_slice()));
    }
    assert(notes.deep_view() =~= (if candidates.deep_view().len() == 0 { seq![no_rule_note()] } else { Seq::<Seq<char>>::empty() }));
    decide_episode(candidates, notes).parsed
}

/// Parses one file name by the single-file rules, keeping the candidates and
/// notes when no episode is accepted.
pub fn parse_episode_decision(path: &MediaPath) -> (r: ParseDecision)
    ensures
        r.deep_view() == single_decision(*path),
{
    if let Some(parsed) = parse_episode(path) {
        let notes = copy_strings(&parsed.notes);
        let candidates = copy_candidates(&parsed.candidates);
        let status = parsed.status;
        return ParseDecision { status, notes, candidates, parsed: Some(parsed) };
    }
    let text = searchable_path_text(path);
    let mut notes: Vec<String> = Vec::new();
    let candidates = regex_episode_candidates(text.as_slice());
    if candidates.len() == 0 {
        let n = str_chars("未命中单文件强规则。");
        notes.push(chars_to_string(n.as_slice()));
    }
    assert(notes.deep_view() =~= (if candidates.deep_view().len() == 0 { seq![no_rule_note()] } else { Seq::<Seq<char>>::empty() }));
    decide_episode(candidates, notes)
}

/// The tokens of a path's file stem.
pub fn tokenize_file_stem(path: &MediaPath) -> (r: Vec<Token>)
    ensures
        token_seq_view(r@) == stem_tokens(*path),
{
    match path.file_stem_chars() {
        Some(stem) => {
            let text = normalize_text(stem.as_slice());
            tokenize_text(text.as_slice())
        },
        None => {
            let v: Vec<Token> = Vec::new();
            assert(token_seq_view(v@) =~= Seq::<TokenV>::empty());
            v
        },
    }
}

pub fn is_special_file(tokens: &Vec<Token>) -> (r: bool)
    ensures
        r == is_special_spec(token_seq_view(tokens@)),
{
    let ghost tv = token_seq_view(tokens@);
    let mut i: usize = 0;
    while i < tokens.len()
        invariant
            i <= tokens@.len(),
            tv == token_seq_view(tokens@),
            forall|k: int| 0 <= k < i ==> !((#[trigger] tv[k]).kind == TokenKind::Alpha && words_contain(special_words(), tv[k].lower)),
        decreases tokens@.len() - i,
    {
        assert(tv[i as int] == tokens@[i as int]@);
        if tokens[i].kind == TokenKind::Alpha && is_special_token(tokens[i].lower.as_slice()) {
            return true;
        }
        i += 1;
    }
    false
}

fn ignored_signature_token(t: &[char]) -> (r: bool)
    ensures
        r == ignored_signature_spec(t@),
{
    let extra = ["s", "e", "ep", "v", "p", "h", "x"];
    assert(extra@ =~= seq!["s", "e", "ep", "v", "p", "h", "x"]);
    known_quality_or_source(t) || known_language_token(t) || is_special_token(t) || crate::text::in_words(t, &extra)
}

fn signature_word_list(tokens: &Vec<Token>, n: usize) -> (r: Vec<Vec<char>>)
    requires
        n <= tokens@.len(),
    ensures
        r.deep_view() == signature_words(token_seq_view(tokens@), n as int),
{
    let ghost tv = token_seq_view(tokens@);
    let mut out: Vec<Vec<char>> = Vec::new();
    let mut i: usize = 0;
    while i < n
        invariant
            i <= n <= tokens@.len(),
            tv == token_seq_view(tokens@),
            out.deep_view() =~= signature_words(tv, i as int),
        decreases n - i,
    {
        assert(tv[i as int] == tokens@[i as int]@);
        let ghost before = out.deep_view();
        if tokens[i].kind == TokenKind::Alpha && !ignored_signature_token(tokens[i].lower.as_slice()) {
            let w = to_vec(tokens[i].lower.as_slice());
            out.push(w);
            proof {
                crate::text::lemma_chars_deep_view(w);
                assert(out.deep_view() =~= before.push(tv[i as int].lower));
            }
        }
        i += 1;
    }
    out
}

/// The series words of a file name.
pub fn cohort_signature(path: &MediaPath) -> (r: Vec<char>)
    ensures
        r@ == cohort_signature_spec(stem_tokens(*path)),
{
    let tokens = tokenize_file_stem(path);
    let ghost tv = token_seq_view(tokens@);
    let mut stop: usize = 0;
    while stop < tokens.len()
        invariant
            stop <= tokens@.len(),
            tv == token_seq_view(tokens@),
            first_number_from(tv, 0) == first_number_from(tv, stop as int),
        ensures
            stop <= tokens@.len(),
            first_number_from(tv, 0) == stop as int,
        decreases tokens@.len() - stop,
    {
        assert(tv[stop as int] == tokens@[stop as int]@);
        if tokens[stop].kind == TokenKind::Number {
            break;
        }
        stop += 1;
    }
    let before = signature_word_list(&tokens, stop);
    if before.len() > 0 {
        crate::text::join_chars(&before, " ")
    } else {
        let all = signature_word_list(&tokens, tokens.len());
        crate::text::join_chars(&all, " ")
    }
}

/// The key that groups a file with the other files of its series.
pub fn cohort_key(path: &MediaPath) -> (r: Vec<char>)
    ensures
        r@ == cohort_key_spec(*path),
{
    let parent = match path.parent() {
        Some(p) => {
            let t = path_sort_text(&p);
            lower_chars(t.as_slice())
        },
        None => {
            let e: Vec<char> = Vec::new();
            assert(e@ =~= Seq::<char>::empty());
            lower_chars(e.as_slice())
        },
    };
    let ext = match path.extension_chars() {
        Some(e) => ascii_lower_chars(e.as_slice()),
        None => Vec::new(),
    };
    let sig = cohort_signature(path);
    let mut out = parent;
    push_lit(&mut out, "|");
    push_chars(&mut out, ext.as_slice());
    push_lit(&mut out, "|");
    push_chars(&mut out, sig.as_slice());
    proof {
        if extension_spec(path.parts@) is None {
            assert(ext@ =~= Seq::<char>::empty());
        }
    }
    out
}

/// The cohort view of one file.
pub fn cohort_path_of(path: &MediaPath) -> (r: CohortPath)
    ensures
        r@ == cohort_view(*path),
{
    let tokens = tokenize_file_stem(path);
    let text = searchable_path_text(path);
    let season = match parse_season(text.as_slice()) {
        Some(s) => s,
        None => 1,
    };
    let again = tokenize_file_stem(path);
    let special = is_special_file(&again);
    CohortPath { tokens, season, special }
}

pub fn copy_decision(d: &ParseDecision) -> (r: ParseDecision)
    ensures
        r.deep_view() == d.deep_view(),
{
    let parsed = match &d.parsed {
        Some(p) => Some(ParsedEpisode {
            key: p.key,
            confidence: p.confidence,
            candidates: copy_candidates(&p.candidates),
            status: p.status,
            notes: copy_strings(&p.notes),
        }),
        None => None,
    };
    ParseDecision { parsed, status: d.status, notes: copy_strings(&d.notes), candidates: copy_candidates(&d.candidates) }
}

fn copy_slot_of(s: &TemplateSlot) -> (r: TemplateSlot)
    ensures
        r@ == s@,
{
    TemplateSlot {
        token_index: s.token_index,
        label: s.label,
        confidence: s.confidence,
        evidence: crate::template::ParseEvidence {
            source: s.evidence.source,
            label: s.evidence.label,
            confidence: s.evidence.confidence,
            note: s.evidence.note.clone(),
        },
    }
}

/// The slots of a template labelled as episodes.
fn episode_slot_list(slots: &Vec<TemplateSlot>) -> (r: Vec<TemplateSlot>)
    ensures
        slot_views(r@) == episode_slots_spec(slot_views(slots@)),
{
    let ghost sv = slot_views(slots@);
    let mut out: Vec<TemplateSlot> = Vec::new();
    let mut i: usize = 0;
    while i < slots.len()
        invariant
            i <= slots@.len(),
            sv == slot_views(slots@),
            slot_views(out@) =~= episode_slots_spec(sv.subrange(0, i as int)),
        decreases slots@.len() - i,
    {
        proof {
            assert(sv.subrange(0, i + 1).drop_last() =~= sv.subrange(0, i as int));
        }
        if slots[i].label == crate::domain::ParseSlotLabel::Episode {
            out.push(copy_slot_of(&slots[i]));
        }
        i += 1;
    }
    assert(sv.subrange(0, sv.len() as int) =~= sv);
    out
}

/// Appends the candidates the episode slots give for one file of the cohort.
fn push_slot_candidates(cp: &CohortPath, eps: &Vec<TemplateSlot>, candidates: &mut Vec<EpisodeCandidate>)
    ensures
        final(candidates).deep_view() == old(candidates).deep_view() + slot_candidates(slot_views(eps@), cp@),
{
    let ghost sv = slot_views(eps@);
    let ghost start = candidates.deep_view();
    let ghost tv = token_seq_view(cp.tokens@);
    let mut i: usize = 0;
    while i < eps.len()
        invariant
            i <= eps@.len(),
            sv == slot_views(eps@),
            tv == token_seq_view(cp.tokens@),
            cp@.tokens == tv,
            candidates.deep_view() =~= start + slot_candidates(sv.subrange(0, i as int), cp@),
        decreases eps@.len() - i,
    {
        proof {
            assert(sv.subrange(0, i + 1).drop_last() =~= sv.subrange(0, i as int));
        }
        let ghost before = candidates.deep_view();
        let slot = &eps[i];
        if slot.token_index < cp.tokens.len() {
            assert(tv[slot.token_index as int] == cp.tokens@[slot.token_index as int]@);
            match cp.tokens[slot.token_index].number {
                Some(n) => {
                    if n.value <= 0xffff && is_plausible_episode_u32(n.value) {
                        candidates.push(EpisodeCandidate {
                            key: EpisodeKey::new(cp.season, n.value as u16),
                            confidence: slot.confidence,
                            source: slot.evidence.source,
                            note: slot.evidence.note.clone(),
                        });
                    }
                },
                None => {},
            }
        }
        assert(candidates.deep_view() =~= before + slot_candidate(sv[i as int], cp@));
        i += 1;
    }
    assert(sv.subrange(0, sv.len() as int) =~= sv);
}

fn concat_strings(a: &Vec<String>, b: &Vec<String>) -> (r: Vec<String>)
    ensures
        r.deep_view() == a.deep_view() + b.deep_view(),
{
    let mut out = copy_strings(a);
    let mut i: usize = 0;
    while i < b.len()
        invariant
            i <= b@.len(),
            out.deep_view() =~= a.deep_view() + b.deep_view().subrange(0, i as int),
        decreases b@.len() - i,
    {
        let ghost before = out.deep_view();
        out.push(b[i].clone());
        assert(out.deep_view() =~= before.push(b.deep_view()[i as int]));
        assert(b.deep_view().subrange(0, i + 1) =~= b.deep_view().subrange(0, i as int).push(b.deep_view()[i as int]));
        i += 1;
    }
    assert(b.deep_view().subrange(0, b@.len() as int) =~= b.deep_view());
    out
}

/// The decision for one member of a cohort whose template has episode slots.
fn revise_with_template(d: &ParseDecision, cp: &CohortPath, eps: &Vec<TemplateSlot>, template_notes: &Vec<String>) -> (r: ParseDecision)
    ensures
        r.deep_view() == (if cp@.special {
            decide_spec(d.deep_view().candidates, unique_seq(d.deep_view().notes.push(special_content_note())))
        } else {
            decide_spec(d.deep_view().candidates + slot_candidates(slot_views(eps@), cp@),
                unique_seq(d.deep_view().notes + template_notes.deep_view()))
        }),
{
    if cp.special {
        let mut notes = copy_strings(&d.notes);
        let ghost before = notes.deep_view();
        let n = str_chars("识别为 OVA/SP/NCOP/NCED/PV/Trailer 等特殊内容，需要手动确认。");
        notes.push(chars_to_string(n.as_slice()));
        assert(notes.deep_view() =~= before.push(special_content_note()));
        decide_episode(copy_candidates(&d.candidates), unique_notes(notes))
    } else {
        let mut candidates = copy_candidates(&d.candidates);
        push_slot_candidates(cp, eps, &mut candidates);
        let notes = concat_strings(&d.notes, template_notes);
        decide_episode(candidates, unique_notes(notes))
    }
}

proof fn lemma_members_increasing(paths: Seq<MediaPath>, key: Seq<char>, n: int)
    requires
        n <= paths.len(),
    ensures
        forall|a: int, b: int| 0 <= a < b < cohort_members(paths, key, n).len()
            ==> cohort_members(paths, key, n)[a] < cohort_members(paths, key, n)[b],
        forall|a: int| 0 <= a < cohort_members(paths, key, n).len() ==> {
            &&& 0 <= #[trigger] cohort_members(paths, key, n)[a] < n
            &&& cohort_members(paths, key, n)[a] < paths.len()
            &&& cohort_key_spec(paths[cohort_members(paths, key, n)[a]]) == key
        },
        forall|j: int| 0 <= j < n && j < paths.len() && cohort_key_spec(paths[j]) == key
            ==> cohort_members(paths, key, n).contains(j),
    decreases n,
{
    if n > 0 && n <= paths.len() {
        lemma_members_increasing(paths, key, n - 1);
        let rest = cohort_members(paths, key, n - 1);
        let all = cohort_members(paths, key, n);
        assert forall|j: int| 0 <= j < n && j < paths.len() && cohort_key_spec(paths[j]) == key implies all.contains(j) by {
            if j < n - 1 {
                assert(rest.contains(j));
                let k = choose|k: int| 0 <= k < rest.len() && rest[k] == j;
                assert(all[k] == j);
            } else {
                assert(all[all.len() - 1] == j);
            }
        }
    }
}

/// The cohort keys of the paths.
fn cohort_key_list(paths: &Vec<MediaPath>) -> (r: Vec<Vec<char>>)
    ensures
        r@.len() == paths@.len(),
        forall|j: int| 0 <= j < paths@.len() ==> (#[trigger] r@[j])@ == cohort_key_spec(paths@[j]),
{
    let mut keys: Vec<Vec<char>> = Vec::new();
    let mut i: usize = 0;
    while i < paths.len()
        invariant
            i <= paths@.len(),
            keys@.len() == i,
            forall|j: int| 0 <= j < i ==> (#[trigger] keys@[j])@ == cohort_key_spec(paths@[j]),
        decreases paths@.len() - i,
    {
        keys.push(cohort_key(&paths[i]));
        i += 1;
    }
    keys
}

/// A file's decision once the cohort has no template: a rejected file is told so.
pub open spec fn no_template_revision(d: DecisionView) -> DecisionView {
    if d.status == ParseStatus::Rejected {
        DecisionView { notes: d.notes.push(no_template_note()), ..d }
    } else {
        d
    }
}

/// A file's decision revised by the episode slots of its cohort's template.
pub open spec fn template_revision(d: DecisionView, cp: CohortV, eps: Seq<SlotV>, tnotes: Seq<Seq<char>>) -> DecisionView {
    if cp.special {
        decide_spec(d.candidates, unique_seq(d.notes.push(special_content_note())))
    } else {
        decide_spec(d.candidates + slot_candidates(eps, cp), unique_seq(d.notes + tnotes))
    }
}

pub open spec fn increasing_below(ms: Seq<usize>, n: int) -> bool {
    &&& forall|a: int, b: int| 0 <= a < b < ms.len() ==> ms[a] < ms[b]
    &&& forall|k: int| 0 <= k < ms.len() ==> (#[trigger] ms[k]) < n
}

pub open spec fn member_pos(ms: Seq<usize>, q: int) -> bool {
    exists|k: int| 0 <= k < ms.len() && ms[k] == q
}

fn apply_no_template(parsed: &mut Vec<ParseDecision>, members: &Vec<usize>)
    requires
        increasing_below(members@, old(parsed)@.len() as int),
    ensures
        final(parsed)@.len() == old(parsed)@.len(),
        forall|q: int| 0 <= q < old(parsed)@.len() ==> (#[trigger] final(parsed)@[q]).deep_view() == if member_pos(members@, q) {
            no_template_revision(old(parsed)@[q].deep_view())
        } else {
            old(parsed)@[q].deep_view()
        },
{
    let ghost old_parsed = parsed@;
    let ghost ms = members@;
    let mut c: usize = 0;
    while c < members.len()
        invariant
            c <= ms.len(),
            ms == members@,
            increasing_below(ms, old_parsed.len() as int),
            parsed@.len() == old_parsed.len(),
            forall|q: int| 0 <= q < old_parsed.len() ==> (#[trigger] parsed@[q]).deep_view() == if exists|k: int| 0 <= k < c && ms[k] == q {
                no_template_revision(old_parsed[q].deep_view())
            } else {
                old_parsed[q].deep_view()
            },
        decreases ms.len() - c,
    {
        let m = members[c];
        proof {
            assert(ms[c as int] == m);
            assert(!exists|k: int| 0 <= k < c && ms[k] == m as int) by {
                if exists|k: int| 0 <= k < c && ms[k] == m as int {
                    let k = choose|k: int| 0 <= k < c && ms[k] == m as int;
                    assert(ms[k] < ms[c as int]);
                }
            }
            assert(parsed@[m as int].deep_view() == old_parsed[m as int].deep_view());
        }
        if parsed[m].status == ParseStatus::Rejected {
            let mut d = copy_decision(&parsed[m]);
            let ghost before = d.notes.deep_view();
            let note = str_chars("同组文件未能归纳出稳定 episode 模板。");
            d.notes.push(chars_to_string(note.as_slice()));
            assert(d.notes.deep_view() =~= before.push(no_template_note()));
            parsed.set(m, d);
        }
        proof {
            assert forall|q: int| 0 <= q < old_parsed.len() implies (#[trigger] parsed@[q]).deep_view() == if exists|k: int| 0 <= k < c + 1 && ms[k] == q {
                no_template_revision(old_parsed[q].deep_view())
            } else {
                old_parsed[q].deep_view()
            } by {
                if q == m {
                    assert(ms[c as int] == q);
                } else if exists|k: int| 0 <= k < c + 1 && ms[k] == q {
                    let k = choose|k: int| 0 <= k < c + 1 && ms[k] == q;
                    assert(k != c);
                }
            }
        }
        c += 1;
    }
}

fn apply_template(parsed: &mut Vec<ParseDecision>, members: &Vec<usize>, cohort: &Vec<CohortPath>, eps: &Vec<TemplateSlot>, tnotes: &Vec<String>)
    requires
        increasing_below(members@, old(parsed)@.len() as int),
        cohort@.len() == members@.len(),
    ensures
        final(parsed)@.len() == old(parsed)@.len(),
        forall|q: int| 0 <= q < old(parsed)@.len() ==> (#[trigger] final(parsed)@[q]).deep_view() == if member_pos(members@, q) {
            template_revision(old(parsed)@[q].deep_view(), cohort@[choose|k: int| 0 <= k < members@.len() && members@[k] == q]@,
                slot_views(eps@), tnotes.deep_view())
        } else {
            old(parsed)@[q].deep_view()
        },
{
    let ghost old_parsed = parsed@;
    let ghost ms = members@;
    let mut c: usize = 0;
    while c < members.len()
        invariant
            c <= ms.len(),
            ms == members@,
            cohort@.len() == ms.len(),
            increasing_below(ms, old_parsed.len() as int),
            parsed@.len() == old_parsed.len(),
            forall|q: int| 0 <= q < old_parsed.len() ==> (#[trigger] parsed@[q]).deep_view() == if exists|k: int| 0 <= k < c && ms[k] == q {
                template_revision(old_parsed[q].deep_view(), cohort@[choose|k: int| 0 <= k < ms.len() && ms[k] == q]@,
                    slot_views(eps@), tnotes.deep_view())
            } else {
                old_parsed[q].deep_view()
            },
        decreases ms.len() - c,
    {
        let m = members[c];
        proof {
            assert(ms[c as int] == m);
            assert(!exists|k: int| 0 <= k < c && ms[k] == m as int) by {
                if exists|k: int| 0 <= k < c && ms[k] == m as int {
                    let k = choose|k: int| 0 <= k < c && ms[k] == m as int;
                    assert(ms[k] < ms[c as int]);
                }
            }
            assert(parsed@[m as int].deep_view() == old_parsed[m as int].deep_view());
            let k = choose|k: int| 0 <= k < ms.len() && ms[k] == m as int;
            if k != c {
                if k < c {
                    assert(ms[k] < ms[c as int]);
                } else {
                    assert(ms[c as int] < ms[k]);
                }
            }
        }
        let d = revise_with_template(&parsed[m], &cohort[c], eps, tnotes);
        parsed.set(m, d);
        proof {
            assert forall|q: int| 0 <= q < old_parsed.len() implies (#[trigger] parsed@[q]).deep_view() == if exists|k: int| 0 <= k < c + 1 && ms[k] == q {
                template_revision(old_parsed[q].deep_view(), cohort@[choose|k: int| 0 <= k < ms.len() && ms[k] == q]@,
                    slot_views(eps@), tnotes.deep_view())
            } else {
                old_parsed[q].deep_view()
            } by {
                if q == m {
                    assert(ms[c as int] == q);
                } else if exists|k: int| 0 <= k < c + 1 && ms[k] == q {
                    let k = choose|k: int| 0 <= k < c + 1 && ms[k] == q;
                    assert(k != c);
                }
            }
        }
        c += 1;
    }
}

/// The indexes of the paths whose cohort key is `keys[i]`, in order.
fn cohort_member_list(keys: &Vec<Vec<char>>, i: usize, Ghost(pv): Ghost<Seq<MediaPath>>) -> (r: Vec<usize>)
    requires
        i < keys@.len(),
        keys@.len() == pv.len(),
        forall|j: int| 0 <= j < pv.len() ==> (#[trigger] keys@[j])@ == cohort_key_spec(pv[j]),
    ensures
        r@.len() == cohort_members(pv, cohort_key_spec(pv[i as int]), pv.len() as int).len(),
        forall|k: int| 0 <= k < r@.len() ==> r@[k] as int == #[trigger] cohort_members(pv, cohort_key_spec(pv[i as int]), pv.len() as int)[k],
{
    let ghost key = cohort_key_spec(pv[i as int]);
    let n = keys.len();
    let mut members: Vec<usize> = Vec::new();
    let mut j: usize = 0;
    while j < n
        invariant
            i < n,
            j <= n,
            n == pv.len(),
            keys@.len() == n,
            forall|k: int| 0 <= k < n ==> (#[trigger] keys@[k])@ == cohort_key_spec(pv[k]),
            key == cohort_key_spec(pv[i as int]),
            members@.len() == cohort_members(pv, key, j as int).len(),
            forall|k: int| 0 <= k < members@.len() ==> members@[k] as int == #[trigger] cohort_members(pv, key, j as int)[k],
        decreases n - j,
    {
        if eq_chars(keys[j].as_slice(), keys[i].as_slice()) {
            members.push(j);
        }
        j += 1;
    }
    members
}

proof fn lemma_batch_member(pv: Seq<MediaPath>, i: int, q: int, ms: Seq<usize>, cps: Seq<CohortV>)
    requires
        0 <= i < pv.len(),
        0 <= q < pv.len(),
        cohort_key_spec(pv[q]) == cohort_key_spec(pv[i]),
        ms.len() == cohort_members(pv, cohort_key_spec(pv[i]), pv.len() as int).len(),
        forall|k: int| 0 <= k < ms.len() ==> ms[k] as int == #[trigger] cohort_members(pv, cohort_key_spec(pv[i]), pv.len() as int)[k],
        cps.len() == ms.len(),
        forall|k: int| 0 <= k < ms.len() ==> #[trigger] cps[k] == cohort_view(pv[ms[k] as int]),
    ensures
        cohort_members(pv, cohort_key_spec(pv[q]), pv.len() as int).len() == ms.len(),
        ms.len() >= 2 ==> Seq::new(ms.len(), |k: int| cohort_view(pv[cohort_members(pv, cohort_key_spec(pv[q]), pv.len() as int)[k]])) == cps,
{
    let mm = cohort_members(pv, cohort_key_spec(pv[q]), pv.len() as int);
    assert(Seq::new(ms.len(), |k: int| cohort_view(pv[mm[k]])) =~= cps);
}

/// Revises the decisions of one cohort, whose first file is `i`.
#[verifier::spinoff_prover]
fn process_cohort(paths: &Vec<MediaPath>, keys: &Vec<Vec<char>>, i: usize, parsed: &mut Vec<ParseDecision>)
    requires
        i < paths@.len(),
        keys@.len() == paths@.len(),
        old(parsed)@.len() == paths@.len(),
        forall|j: int| 0 <= j < paths@.len() ==> (#[trigger] keys@[j])@ == cohort_key_spec(paths@[j]),
        forall|q: int| 0 <= q < paths@.len() && cohort_key_spec(paths@[q]) == cohort_key_spec(paths@[i as int])
            ==> (#[trigger] old(parsed)@[q]).deep_view() == single_decision(paths@[q]),
    ensures
        final(parsed)@.len() == paths@.len(),
        forall|q: int| 0 <= q < paths@.len() ==> (#[trigger] final(parsed)@[q]).deep_view() == if cohort_key_spec(paths@[q]) == cohort_key_spec(paths@[i as int]) {
            batch_decision(paths@, q)
        } else {
            old(parsed)@[q].deep_view()
        },
{
    let ghost pv = paths@;
    let ghost key = cohort_key_spec(pv[i as int]);
    let ghost old_parsed = parsed@;
    let members = cohort_member_list(keys, i, Ghost(pv));
    let ghost mm = cohort_members(pv, key, pv.len() as int);
    proof {
        lemma_members_increasing(pv, key, pv.len() as int);
        assert forall|q: int| 0 <= q < pv.len() implies member_pos(members@, q) == (cohort_key_spec(pv[q]) == key) by {
            if cohort_key_spec(pv[q]) == key {
                assert(mm.contains(q));
                let k = choose|k: int| 0 <= k < mm.len() && mm[k] == q;
                assert(members@[k] == q);
            }
            if member_pos(members@, q) {
                let k = choose|k: int| 0 <= k < members@.len() && members@[k] == q;
                assert(mm[k] == q);
            }
        }
        assert(increasing_below(members@, pv.len() as int)) by {
            assert forall|a: int, b: int| 0 <= a < b < members@.len() implies members@[a] < members@[b] by {
                assert(mm[a] < mm[b]);
            }
            assert forall|k: int| 0 <= k < members@.len() implies (#[trigger] members@[k]) < pv.len() by {
                assert(mm[k] < pv.len());
            }
        }
    }
    if members.len() < 2 {
        proof {
            assert forall|q: int| 0 <= q < pv.len() && cohort_key_spec(pv[q]) == key implies
                batch_decision(pv, q) == single_decision(pv[q]) by {}
        }
        return;
    }
    let mut cohort: Vec<CohortPath> = Vec::new();
    let mut c: usize = 0;
    while c < members.len()
        invariant
            c <= members@.len(),
            increasing_below(members@, pv.len() as int),
            pv == paths@,
            cohort@.len() == c,
            forall|k: int| 0 <= k < c ==> (#[trigger] cohort@[k])@ == cohort_view(pv[members@[k] as int]),
        decreases members@.len() - c,
    {
        assert(members@[c as int] < pv.len());
        cohort.push(cohort_path_of(&paths[members[c]]));
        c += 1;
    }
    let ghost cps = cohort_views(cohort@);
    proof {
        assert forall|k: int| 0 <= k < members@.len() implies #[trigger] cps[k] == cohort_view(pv[members@[k] as int]) by {}
        assert forall|q: int| 0 <= q < pv.len() && cohort_key_spec(pv[q]) == key implies
            Seq::new(mm.len(), |k: int| cohort_view(pv[cohort_members(pv, cohort_key_spec(pv[q]), pv.len() as int)[k]])) == cps by {
            lemma_batch_member(pv, i as int, q, members@, cps);
        }
    }
    match infer_template_pattern(&cohort) {
        None => {
            apply_no_template(parsed, &members);
            proof {
                assert forall|q: int| 0 <= q < pv.len() implies (#[trigger] parsed@[q]).deep_view() == if cohort_key_spec(pv[q]) == key {
                    batch_decision(pv, q)
                } else {
                    old_parsed[q].deep_view()
                } by {
                    if cohort_key_spec(pv[q]) == key {
                        assert(old_parsed[q].deep_view() == single_decision(pv[q]));
                    }
                }
            }
        },
        Some(t) => {
            let eps = episode_slot_list(&t.slots);
            assert(t.slots.deep_view() =~= slot_views(t.slots@));
            if eps.len() == 0 {
                proof {
                    assert forall|q: int| 0 <= q < pv.len() && cohort_key_spec(pv[q]) == key implies
                        batch_decision(pv, q) == single_decision(pv[q]) by {}
                }
                return;
            }
            apply_template(parsed, &members, &cohort, &eps, &t.notes);
            proof {
                assert forall|q: int| 0 <= q < pv.len() implies (#[trigger] parsed@[q]).deep_view() == if cohort_key_spec(pv[q]) == key {
                    batch_decision(pv, q)
                } else {
                    old_parsed[q].deep_view()
                } by {
                    if cohort_key_spec(pv[q]) == key {
                        assert(old_parsed[q].deep_view() == single_decision(pv[q]));
                        let k = choose|k: int| 0 <= k < members@.len() && members@[k] == q;
                        assert(cohort@[k]@ == cohort_view(pv[q]));
                    }
                }
            }
        },
    }
}

/// Whether an earlier path shares the cohort key of path `j`.
pub open spec fn cohort_seen_before(paths: Seq<MediaPath>, j: int, i: int) -> bool {
    exists|k: int| 0 <= k < i && cohort_key_spec(#[trigger] paths[k]) == cohort_key_spec(paths[j])
}

/// Whether no earlier path shares the cohort key of path `i`.
fn first_of_cohort(keys: &Vec<Vec<char>>, i: usize, Ghost(pv): Ghost<Seq<MediaPath>>) -> (first: bool)
    requires
        i < keys@.len(),
        keys@.len() == pv.len(),
        forall|k: int| 0 <= k < pv.len() ==> (#[trigger] keys@[k])@ == cohort_key_spec(pv[k]),
    ensures
        first == !cohort_seen_before(pv, i as int, i as int),
{
    let mut first = true;
    let mut j: usize = 0;
    while j < i
        invariant
            i < keys@.len(),
            j <= i,
            keys@.len() == pv.len(),
            forall|k: int| 0 <= k < pv.len() ==> (#[trigger] keys@[k])@ == cohort_key_spec(pv[k]),
            first == !cohort_seen_before(pv, i as int, j as int),
        decreases i - j,
    {
        if eq_chars(keys[j].as_slice(), keys[i].as_slice()) {
            first = false;
        }
        proof {
            if cohort_seen_before(pv, i as int, j + 1) && !cohort_seen_before(pv, i as int, j as int) {
                let k = choose|k: int| 0 <= k < j + 1 && cohort_key_spec(#[trigger] pv[k]) == cohort_key_spec(pv[i as int]);
                assert(k == j);
            }
        }
        j += 1;
    }
    first
}

proof fn lemma_seen_step(pv: Seq<MediaPath>, i: int, q: int)
    requires
        0 <= i < pv.len(),
        0 <= q < pv.len(),
    ensures
        cohort_key_spec(pv[q]) != cohort_key_spec(pv[i]) ==> cohort_seen_before(pv, q, i + 1) == cohort_seen_before(pv, q, i),
        cohort_key_spec(pv[q]) == cohort_key_spec(pv[i]) ==> cohort_seen_before(pv, q, i + 1),
        cohort_key_spec(pv[q]) == cohort_key_spec(pv[i]) ==> cohort_seen_before(pv, q, i) == cohort_seen_before(pv, i, i),
{
    if cohort_seen_before(pv, q, i + 1) && cohort_key_spec(pv[q]) != cohort_key_spec(pv[i]) {
        let k = choose|k: int| 0 <= k < i + 1 && cohort_key_spec(#[trigger] pv[k]) == cohort_key_spec(pv[q]);
        assert(k != i);
    }
    if cohort_key_spec(pv[q]) == cohort_key_spec(pv[i]) {
        assert(cohort_key_spec(pv[i]) == cohort_key_spec(pv[q]));
        if cohort_seen_before(pv, q, i) {
            let k = choose|k: int| 0 <= k < i && cohort_key_spec(#[trigger] pv[k]) == cohort_key_spec(pv[q]);
            assert(cohort_key_spec(pv[k]) == cohort_key_spec(pv[i]));
        }
        if cohort_seen_before(pv, i, i) {
            let k = choose|k: int| 0 <= k < i && cohort_key_spec(#[trigger] pv[k]) == cohort_key_spec(pv[i]);
            assert(cohort_key_spec(pv[k]) == cohort_key_spec(pv[q]));
        }
    }
}

/// Parses the episodes of a batch of files: each file by the single-file rules,
/// then each cohort of similarly named files revised by the episode slots
/// inferred from the whole cohort.
pub fn parse_episode_batch(paths: &Vec<MediaPath>) -> (r: Vec<ParseDecision>)
    ensures
        r@.len() == paths@.len(),
        forall|i: int| 0 <= i < paths@.len() ==> (#[trigger] r@[i]).deep_view() == batch_decision(paths@, i),
{
    let n = paths.len();
    let ghost pv = paths@;
    let mut parsed: Vec<ParseDecision> = Vec::new();
    let mut i: usize = 0;
    while i < n
        invariant
            n == pv.len(),
            pv == paths@,
            i <= n,
            parsed@.len() == i,
            forall|j: int| 0 <= j < i ==> (#[trigger] parsed@[j]).deep_view() == single_decision(pv[j]),
        decreases n - i,
    {
        parsed.push(parse_episode_decision(&paths[i]));
        i += 1;
    }
    let keys = cohort_key_list(paths);
    let mut i: usize = 0;
    while i < n
        invariant
            n == pv.len(),
            pv == paths@,
            i <= n,
            parsed@.len() == n,
            keys@.len() == n,
            forall|j: int| 0 <= j < n ==> (#[trigger] keys@[j])@ == cohort_key_spec(pv[j]),
            forall|j: int| 0 <= j < n ==> (#[trigger] parsed@[j]).deep_view() == if cohort_seen_before(pv, j, i as int) {
                batch_decision(pv, j)
            } else {
                single_decision(pv[j])
            },
        decreases n - i,
    {
        let first = first_of_cohort(&keys, i, Ghost(pv));
        let ghost before = parsed@;
        if first {
            process_cohort(paths, &keys, i, &mut parsed);
        }
        proof {
            assert forall|q: int| 0 <= q < n implies (#[trigger] parsed@[q]).deep_view() == if cohort_seen_before(pv, q, i + 1) {
                batch_decision(pv, q)
            } else {
                single_decision(pv[q])
            } by {
                lemma_seen_step(pv, i as int, q);
                assert(before[q] == before[q]);
            }
        }
        i += 1;
    }
    parsed
}

/// The candidates as the scan reports them, each with its key's text.
pub fn to_parse_candidates(candidates: &Vec<EpisodeCandidate>) -> (r: Vec<ParseCandidate>)
    ensures
        r@.len() == candidates@.len(),
        forall|i: int| 0 <= i < r@.len() ==> {
            &&& (#[trigger] r@[i]).episode == candidates@[i].key
            &&& r@[i].episode_key@ == episode_key_text(candidates@[i].key)
            &&& r@[i].confidence == candidates@[i].confidence
            &&& r@[i].source == candidates@[i].source
            &&& r@[i].note@ == candidates@[i].note@
        },
{
    let mut out: Vec<ParseCandidate> = Vec::new();
    let mut i: usize = 0;
    while i < candidates.len()
        invariant
            i <= candidates@.len(),
            out@.len() == i,
            forall|k: int| 0 <= k < i ==> {
                &&& (#[trigger] out@[k]).episode == candidates@[k].key
                &&& out@[k].episode_key@ == episode_key_text(candidates@[k].key)
                &&& out@[k].confidence == candidates@[k].confidence
                &&& out@[k].source == candidates@[k].source
                &&& out@[k].note@ == candidates@[k].note@
            },
        decreases candidates@.len() - i,
    {
        let c = &candidates[i];
        out.push(ParseCandidate {
            episode: c.key,
            episode_key: c.key.to_string(),
            confidence: c.confidence,
            source: c.source,
            note: c.note.clone(),
        });
        i += 1;
    }
    out
}

} // verus!
