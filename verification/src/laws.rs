//! Properties that hold across the library's operations, proved over the
//! specifications its functions are verified against.

use vstd::prelude::*;
use crate::domain::{EpisodeKey, LanguageCode, MatchStatus, ParseStatus};
use crate::parser::{
    CandidateView, DecisionView, candidate_before, decide_spec, has_close_competing_candidate_spec,
    sort_candidates_spec, unique_seq,
};
use crate::sort::{dedup_consecutive, sorted_by, stable_sort, strict_weak_order};
use crate::parser::{batch_decision, cohort_key_spec, cohort_members, single_decision, same_candidate};
use crate::path::MediaPath;

verus! {

/// A decision gives a parsed episode exactly when its status is `Accepted`
/// or `LowConfidence`; it is `Rejected` exactly when there is no candidate;
/// a parsed episode is the best-ranked candidate and carries the decision's
/// status and candidates.
pub proof fn law_decision_consistency(cands: Seq<CandidateView>, notes: Seq<Seq<char>>)
    ensures
        ({
            let d = decide_spec(cands, notes);
            &&& (d.parsed is Some) <==> (d.status == ParseStatus::Accepted || d.status == ParseStatus::LowConfidence)
            &&& (d.status == ParseStatus::Rejected) <==> d.candidates.len() == 0
            &&& d.candidates == sort_candidates_spec(cands)
            &&& d.parsed matches Some(p) ==> {
                &&& p.key == d.candidates[0].key
                &&& p.confidence == d.candidates[0].confidence
                &&& p.status == d.status
                &&& p.candidates == d.candidates
                &&& p.notes == d.notes
            }
        }),
{
}

/// An accepted episode has confidence of at least 70, and no candidate for
/// another episode comes within 8 of it.
pub proof fn law_accepted_is_confident_and_unrivalled(cands: Seq<CandidateView>, notes: Seq<Seq<char>>)
    ensures
        ({
            let d = decide_spec(cands, notes);
            d.status == ParseStatus::Accepted ==> {
                &&& d.parsed matches Some(p) && p.confidence >= 70
                &&& !has_close_competing_candidate_spec(d.candidates)
            }
        }),
{
}

/// Candidates rank strictly weakly: by confidence, highest first, then by
/// season and episode.
pub proof fn law_candidate_ranking_is_strict_weak_order()
    ensures
        strict_weak_order(|a: CandidateView, b: CandidateView| candidate_before(a, b)),
{
}

/// A decision lists its candidates ranked, each input candidate kept or
/// represented by an equal one (same episode, confidence and source), and
/// no candidate that was not given.
pub proof fn law_decision_candidates_ranked(cands: Seq<CandidateView>, notes: Seq<Seq<char>>)
    ensures
        ({
            let d = decide_spec(cands, notes);
            &&& sorted_by(d.candidates, |a: CandidateView, b: CandidateView| candidate_before(a, b))
            &&& forall|i: int| 0 <= i < d.candidates.len() ==> cands.contains(#[trigger] d.candidates[i])
            &&& forall|i: int| 0 <= i < cands.len() ==> exists|j: int| 0 <= j < d.candidates.len()
                && crate::parser::same_candidate(#[trigger] cands[i], d.candidates[j])
        }),
{
    let before = |a: CandidateView, b: CandidateView| candidate_before(a, b);
    let same = |a: CandidateView, b: CandidateView| crate::parser::same_candidate(a, b);
    law_candidate_ranking_is_strict_weak_order();
    let sorted = stable_sort(cands, before);
    crate::sort::lemma_stable_sort_sorted(cands, before);
    crate::sort::lemma_dedup_sorted(sorted, same, before);
    crate::sort::lemma_dedup_elements(sorted, same);
    crate::sort::lemma_dedup_covers(sorted, same);
    crate::sort::lemma_stable_sort_elements(cands, before);
    crate::sort::lemma_stable_sort_permutes(cands, before);
    let d = decide_spec(cands, notes);
    assert(d.candidates == dedup_consecutive(sorted, same));
    assert forall|i: int| 0 <= i < d.candidates.len() implies cands.contains(#[trigger] d.candidates[i]) by {
        assert(sorted.contains(d.candidates[i]));
        let k = choose|k: int| 0 <= k < sorted.len() && sorted[k] == d.candidates[i];
        assert(cands.contains(sorted[k]));
    }
    assert forall|i: int| 0 <= i < cands.len() implies exists|j: int| 0 <= j < d.candidates.len()
        && crate::parser::same_candidate(#[trigger] cands[i], d.candidates[j]) by {
        broadcast use vstd::seq_lib::group_to_multiset_ensures;
        assert(cands.to_multiset().count(cands[i]) > 0);
        assert(sorted.to_multiset().count(cands[i]) > 0);
        assert(sorted.contains(cands[i]));
        let k = choose|k: int| 0 <= k < sorted.len() && sorted[k] == cands[i];
        let j = choose|j: int| 0 <= j < d.candidates.len() && (d.candidates[j] == #[trigger] sorted[k] || same(sorted[k], d.candidates[j]));
        assert(crate::parser::same_candidate(cands[i], d.candidates[j]));
    }
}

proof fn lemma_unique_seq_distinct(s: Seq<Seq<char>>)
    ensures
        forall|i: int, j: int| 0 <= i < j < unique_seq(s).len() ==> unique_seq(s)[i] != unique_seq(s)[j],
    decreases s.len(),
{
    if s.len() > 0 {
        lemma_unique_seq_distinct(s.drop_last());
        let d = unique_seq(s.drop_last());
        if !d.contains(s.last()) {
            let r = d.push(s.last());
            assert forall|i: int, j: int| 0 <= i < j < r.len() implies r[i] != r[j] by {
                if j == d.len() {
                    assert(r[i] == d[i]);
                    if d[i] == s.last() {
                        assert(d.contains(s.last()));
                    }
                }
            }
        }
    }
}

/// A decision's notes never repeat, and every note given to it is among them.
pub proof fn law_decision_notes_unique(cands: Seq<CandidateView>, notes: Seq<Seq<char>>)
    ensures
        ({
            let d = decide_spec(cands, notes);
            &&& forall|i: int, j: int| 0 <= i < j < d.notes.len() ==> d.notes[i] != d.notes[j]
            &&& forall|n: Seq<char>| notes.contains(n) ==> d.notes.contains(n)
        }),
{
    let d = decide_spec(cands, notes);
    let un = unique_seq(notes);
    lemma_unique_seq_distinct(notes);
    let sorted = sort_candidates_spec(cands);
    if sorted.len() > 0 {
        let x = crate::parser::status_note(crate::parser::decision_status(sorted), sorted[0]);
        lemma_unique_seq_distinct(un.push(x));
        assert forall|n: Seq<char>| notes.contains(n) implies d.notes.contains(n) by {
            crate::parser::lemma_unique_seq_contains(notes, n);
            crate::parser::lemma_unique_seq_contains(un.push(x), n);
            let k = choose|k: int| 0 <= k < un.len() && un[k] == n;
            assert(un.push(x)[k] == n);
        }
    } else {
        assert forall|n: Seq<char>| notes.contains(n) implies d.notes.contains(n) by {
            crate::parser::lemma_unique_seq_contains(notes, n);
        }
    }
}

proof fn lemma_lone_members(paths: Seq<MediaPath>, i: int, n: int)
    requires
        0 <= i < paths.len(),
        forall|j: int| 0 <= j < paths.len() && j != i ==> cohort_key_spec(#[trigger] paths[j]) != cohort_key_spec(paths[i]),
    ensures
        cohort_members(paths, cohort_key_spec(paths[i]), n).len() <= 1,
        n <= i ==> cohort_members(paths, cohort_key_spec(paths[i]), n).len() == 0,
    decreases n,
{
    if n > 0 && n <= paths.len() {
        lemma_lone_members(paths, i, n - 1);
    }
}

/// A file whose series key no other file of the batch shares keeps the
/// decision it gets on its own.
pub proof fn law_lone_file_keeps_single_decision(paths: Seq<MediaPath>, i: int)
    requires
        0 <= i < paths.len(),
        forall|j: int| 0 <= j < paths.len() && j != i ==> cohort_key_spec(#[trigger] paths[j]) != cohort_key_spec(paths[i]),
    ensures
        batch_decision(paths, i) == single_decision(paths[i]),
{
    lemma_lone_members(paths, i, paths.len() as int);
}

/// A batch of one file decides it as the single-file rules do.
pub proof fn law_single_file_batch(p: MediaPath)
    ensures
        batch_decision(seq![p], 0) == single_decision(p),
{
    law_lone_file_keeps_single_decision(seq![p], 0);
}

/// A candidate the single-file rules give: from a rule, with the rule note.
pub open spec fn rule_candidate_ok(c: CandidateView) -> bool {
    c.source == crate::domain::ParseCandidateSource::Rule && c.note == crate::rules::RULE_NOTE@
}

pub open spec fn all_rule_ok(s: Seq<CandidateView>) -> bool {
    forall|k: int| 0 <= k < s.len() ==> rule_candidate_ok(#[trigger] s[k])
}

proof fn lemma_rule_ok_concat(a: Seq<CandidateView>, b: Seq<CandidateView>)
    requires
        all_rule_ok(a),
        all_rule_ok(b),
    ensures
        all_rule_ok(a + b),
{
    assert forall|k: int| 0 <= k < (a + b).len() implies rule_candidate_ok(#[trigger] (a + b)[k]) by {
        if k < a.len() {
            assert((a + b)[k] == a[k]);
        } else {
            assert((a + b)[k] == b[k - a.len()]);
        }
    }
}

proof fn lemma_season_episode_rule_ok(l: Seq<Seq<Option<Seq<char>>>>, confidence: u8)
    ensures
        all_rule_ok(crate::rules::season_episode_candidates(l, confidence)),
    decreases l.len(),
{
    if l.len() > 0 {
        lemma_season_episode_rule_ok(l.drop_last(), confidence);
        let tail = match (crate::rules::group_u16(l.last(), 1), crate::rules::group_u16(l.last(), 2)) {
            (Some(s), Some(e)) => crate::rules::rule_candidate(s, e, confidence),
            _ => Seq::empty(),
        };
        assert(all_rule_ok(tail));
        lemma_rule_ok_concat(crate::rules::season_episode_candidates(l.drop_last(), confidence), tail);
    }
}

proof fn lemma_episode_rule_ok(l: Seq<Seq<Option<Seq<char>>>>, season: u16, confidence: u8)
    ensures
        all_rule_ok(crate::rules::episode_candidates(l, season, confidence)),
    decreases l.len(),
{
    if l.len() > 0 {
        lemma_episode_rule_ok(l.drop_last(), season, confidence);
        let tail = match crate::rules::group_u16(l.last(), 1) {
            Some(e) => crate::rules::rule_candidate(season, e, confidence),
            None => Seq::empty(),
        };
        assert(all_rule_ok(tail));
        lemma_rule_ok_concat(crate::rules::episode_candidates(l.drop_last(), season, confidence), tail);
    }
}

proof fn lemma_raw_rule_ok(text: Seq<char>)
    ensures
        all_rule_ok(crate::rules::raw_rule_candidates(text)),
{
    let season = crate::rules::season_or_first(text);
    let a = crate::rules::season_episode_candidates(crate::rules::captures_list(crate::rules::SXX_EXX_PATTERN@, text), 100);
    let b = crate::rules::episode_candidates(crate::rules::captures_list(crate::rules::CHINESE_EPISODE_PATTERN@, text), season, 95);
    let c = crate::rules::episode_candidates(crate::rules::captures_list(crate::rules::VERSIONED_EPISODE_PATTERN@, text), season, 90);
    let d = crate::rules::episode_candidates(crate::rules::captures_list(crate::rules::EP_PREFIX_PATTERN@, text), season, 88);
    let e = crate::rules::episode_candidates(crate::rules::captures_list(crate::rules::E_PREFIX_PATTERN@, text), season, 82);
    let f = crate::rules::episode_candidates(crate::rules::captures_list(crate::rules::EMBEDDED_E_PATTERN@, text), season, 82);
    let g = crate::rules::episode_candidates(crate::rules::captures_list(crate::rules::DASH_EPISODE_PATTERN@, text), season, 78);
    let h = crate::rules::episode_candidates(crate::rules::captures_list(crate::rules::BRACKET_EPISODE_PATTERN@, text), season, 70);
    lemma_season_episode_rule_ok(crate::rules::captures_list(crate::rules::SXX_EXX_PATTERN@, text), 100);
    lemma_episode_rule_ok(crate::rules::captures_list(crate::rules::CHINESE_EPISODE_PATTERN@, text), season, 95);
    lemma_episode_rule_ok(crate::rules::captures_list(crate::rules::VERSIONED_EPISODE_PATTERN@, text), season, 90);
    lemma_episode_rule_ok(crate::rules::captures_list(crate::rules::EP_PREFIX_PATTERN@, text), season, 88);
    lemma_episode_rule_ok(crate::rules::captures_list(crate::rules::E_PREFIX_PATTERN@, text), season, 82);
    lemma_episode_rule_ok(crate::rules::captures_list(crate::rules::EMBEDDED_E_PATTERN@, text), season, 82);
    lemma_episode_rule_ok(crate::rules::captures_list(crate::rules::DASH_EPISODE_PATTERN@, text), season, 78);
    lemma_episode_rule_ok(crate::rules::captures_list(crate::rules::BRACKET_EPISODE_PATTERN@, text), season, 70);
    lemma_rule_ok_concat(a, b);
    lemma_rule_ok_concat(a + b, c);
    lemma_rule_ok_concat(a + b + c, d);
    lemma_rule_ok_concat(a + b + c + d, e);
    lemma_rule_ok_concat(a + b + c + d + e, f);
    lemma_rule_ok_concat(a + b + c + d + e + f, g);
    lemma_rule_ok_concat(a + b + c + d + e + f + g, h);
}

proof fn lemma_sorted_rule_ok(c: Seq<CandidateView>)
    requires
        all_rule_ok(c),
    ensures
        all_rule_ok(sort_candidates_spec(c)),
{
    let before = |a: CandidateView, b: CandidateView| candidate_before(a, b);
    let same = |a: CandidateView, b: CandidateView| same_candidate(a, b);
    let sorted = stable_sort(c, before);
    crate::sort::lemma_stable_sort_elements(c, before);
    crate::sort::lemma_dedup_elements(sorted, same);
    let r = sort_candidates_spec(c);
    assert forall|k: int| 0 <= k < r.len() implies rule_candidate_ok(#[trigger] r[k]) by {
        assert(sorted.contains(r[k]));
        let m = choose|m: int| 0 <= m < sorted.len() && sorted[m] == r[k];
        assert(c.contains(sorted[m]));
        let n = choose|n: int| 0 <= n < c.len() && c[n] == sorted[m];
        assert(rule_candidate_ok(c[n]));
    }
}

/// Every candidate of a file's single-file decision comes from a rule and
/// carries the rule note.
proof fn lemma_single_candidates_rule_ok(p: MediaPath)
    ensures
        all_rule_ok(single_decision(p).candidates),
{
    let text = crate::rules::searchable_text_spec(p);
    lemma_raw_rule_ok(text);
    lemma_sorted_rule_ok(crate::rules::raw_rule_candidates(text));
    lemma_sorted_rule_ok(crate::rules::rule_candidates_spec(text));
}

/// Revising a file by its cohort's template never loses a candidate the
/// single-file rules found: every one of them, note included, is among the
/// batch decision's candidates.
pub proof fn law_batch_keeps_rule_candidates(paths: Seq<MediaPath>, i: int)
    requires
        0 <= i < paths.len(),
    ensures
        ({
            let single = single_decision(paths[i]);
            let batch = batch_decision(paths, i);
            forall|k: int| 0 <= k < single.candidates.len() ==> batch.candidates.contains(#[trigger] single.candidates[k])
        }),
{
    let single = single_decision(paths[i]);
    let batch = batch_decision(paths, i);
    lemma_single_candidates_rule_ok(paths[i]);
    let members = cohort_members(paths, cohort_key_spec(paths[i]), paths.len() as int);
    let same_cands = batch.candidates == single.candidates;
    if members.len() >= 2 {
        let cps = Seq::new(members.len(), |k: int| crate::parser::cohort_view(paths[members[k]]));
        lemma_template_slots_ok(cps);
        match crate::template::infer_template_spec(cps) {
            None => {
                assert(same_cands);
            },
            Some(t) => {
                let eps = crate::parser::episode_slots_spec(t.slots);
                let cp = crate::parser::cohort_view(paths[i]);
                if eps.len() == 0 {
                    assert(same_cands);
                } else if cp.special {
                    let notes = unique_seq(single.notes.push(crate::parser::special_content_note()));
                    law_decision_candidates_ranked(single.candidates, notes);
                    assert forall|k: int| 0 <= k < single.candidates.len() implies batch.candidates.contains(#[trigger] single.candidates[k]) by {
                        let j = choose|j: int| 0 <= j < batch.candidates.len()
                            && same_candidate(#[trigger] single.candidates[k], batch.candidates[j]);
                        assert(single.candidates.contains(batch.candidates[j]));
                        let m = choose|m: int| 0 <= m < single.candidates.len() && single.candidates[m] == batch.candidates[j];
                        assert(rule_candidate_ok(single.candidates[m]));
                        assert(rule_candidate_ok(single.candidates[k]));
                        assert(batch.candidates[j] == single.candidates[k]);
                    }
                } else {
                    let sc = crate::parser::slot_candidates(eps, cp);
                    let all = single.candidates + sc;
                    let notes = unique_seq(single.notes + t.notes);
                    law_decision_candidates_ranked(all, notes);
                    lemma_episode_slots_ok(t.slots);
                    lemma_slot_candidates_ok(eps, cp);
                    assert forall|k: int| 0 <= k < single.candidates.len() implies batch.candidates.contains(#[trigger] single.candidates[k]) by {
                        assert(all[k] == single.candidates[k]);
                        let j = choose|j: int| 0 <= j < batch.candidates.len()
                            && same_candidate(#[trigger] all[k], batch.candidates[j]);
                        let c = batch.candidates[j];
                        assert(all.contains(c));
                        let m = choose|m: int| 0 <= m < all.len() && all[m] == c;
                        assert(rule_candidate_ok(single.candidates[k]));
                        if m < single.candidates.len() {
                            assert(single.candidates[m] == c);
                            assert(rule_candidate_ok(single.candidates[m]));
                        } else {
                            assert(sc[m - single.candidates.len()] == c);
                            assert(template_candidate_ok(c));
                        }
                        assert(c == single.candidates[k]);
                    }
                }
            },
        }
    } else {
        assert(same_cands);
    }
}

/// A slot the template machinery proposes: from a template, confidence at most 92.
pub open spec fn template_slot_ok(s: crate::template::SlotV) -> bool {
    s.source == crate::domain::ParseCandidateSource::Template && s.confidence <= 92
}

/// A candidate a template proposes: from a template, confidence at most 92.
pub open spec fn template_candidate_ok(c: CandidateView) -> bool {
    c.source == crate::domain::ParseCandidateSource::Template && c.confidence <= 92
}

proof fn lemma_group_slots_ok(paths: Seq<crate::template::CohortV>, gs: Seq<crate::template::GroupV>)
    ensures
        forall|k: int| 0 <= k < crate::template::slots_of_groups(paths, gs).len()
            ==> template_slot_ok(#[trigger] crate::template::slots_of_groups(paths, gs)[k]),
    decreases gs.len(),
{
    if gs.len() > 0 {
        lemma_group_slots_ok(paths, gs.drop_last());
        let a = crate::template::slots_of_groups(paths, gs.drop_last());
        let r = crate::template::slots_of_groups(paths, gs);
        assert forall|k: int| 0 <= k < r.len() implies template_slot_ok(#[trigger] r[k]) by {
            if k < a.len() {
                assert(r[k] == a[k]);
            }
        }
    }
}

proof fn lemma_template_slots_ok(paths: Seq<crate::template::CohortV>)
    ensures
        crate::template::infer_template_spec(paths) matches Some(t) ==>
            forall|k: int| 0 <= k < t.slots.len() ==> template_slot_ok(#[trigger] t.slots[k]),
{
    let gs = crate::template::groups_spec(crate::template::all_occurrences(paths, paths.len() as int));
    let raw = crate::template::slots_of_groups(paths, gs);
    let before = |a: crate::template::SlotV, b: crate::template::SlotV| crate::template::slot_before(a, b);
    lemma_group_slots_ok(paths, gs);
    crate::sort::lemma_stable_sort_elements(raw, before);
    let ranked = crate::template::ranked_slots(paths);
    assert forall|k: int| 0 <= k < ranked.len() implies template_slot_ok(#[trigger] ranked[k]) by {
        assert(raw.contains(ranked[k]));
        let j = choose|j: int| 0 <= j < raw.len() && raw[j] == ranked[k];
        assert(template_slot_ok(raw[j]));
    }
}

proof fn lemma_episode_slots_ok(slots: Seq<crate::template::SlotV>)
    requires
        forall|k: int| 0 <= k < slots.len() ==> template_slot_ok(#[trigger] slots[k]),
    ensures
        forall|k: int| 0 <= k < crate::parser::episode_slots_spec(slots).len()
            ==> template_slot_ok(#[trigger] crate::parser::episode_slots_spec(slots)[k]),
    decreases slots.len(),
{
    if slots.len() > 0 {
        let t = slots.drop_last();
        assert forall|k: int| 0 <= k < t.len() implies template_slot_ok(#[trigger] t[k]) by {
            assert(t[k] == slots[k]);
        }
        lemma_episode_slots_ok(t);
        assert(template_slot_ok(slots[slots.len() - 1]));
        let a = crate::parser::episode_slots_spec(t);
        let r = crate::parser::episode_slots_spec(slots);
        assert forall|k: int| 0 <= k < r.len() implies template_slot_ok(#[trigger] r[k]) by {
            if k < a.len() {
                assert(r[k] == a[k]);
            }
        }
    }
}

proof fn lemma_slot_candidates_ok(slots: Seq<crate::template::SlotV>, cp: crate::template::CohortV)
    requires
        forall|k: int| 0 <= k < slots.len() ==> template_slot_ok(#[trigger] slots[k]),
    ensures
        forall|k: int| 0 <= k < crate::parser::slot_candidates(slots, cp).len()
            ==> template_candidate_ok(#[trigger] crate::parser::slot_candidates(slots, cp)[k]),
    decreases slots.len(),
{
    if slots.len() > 0 {
        let t = slots.drop_last();
        assert forall|k: int| 0 <= k < t.len() implies template_slot_ok(#[trigger] t[k]) by {
            assert(t[k] == slots[k]);
        }
        lemma_slot_candidates_ok(t, cp);
        assert(template_slot_ok(slots[slots.len() - 1]));
        let a = crate::parser::slot_candidates(t, cp);
        let r = crate::parser::slot_candidates(slots, cp);
        assert forall|k: int| 0 <= k < r.len() implies template_candidate_ok(#[trigger] r[k]) by {
            if k < a.len() {
                assert(r[k] == a[k]);
            }
        }
    }
}

/// Revising a file by its cohort's template only adds template candidates:
/// every candidate of the batch decision is one the single-file rules gave,
/// or comes from a template with confidence at most 92; and a parsed episode
/// is the decision's first candidate.
pub proof fn law_batch_adds_only_template_candidates(paths: Seq<MediaPath>, i: int)
    requires
        0 <= i < paths.len(),
    ensures
        ({
            let single = single_decision(paths[i]);
            let batch = batch_decision(paths, i);
            &&& forall|j: int| 0 <= j < batch.candidates.len() ==>
                single.candidates.contains(#[trigger] batch.candidates[j]) || template_candidate_ok(batch.candidates[j])
            &&& batch.parsed matches Some(p) ==> batch.candidates.len() > 0 && p.key == batch.candidates[0].key
        }),
{
    let single = single_decision(paths[i]);
    let batch = batch_decision(paths, i);
    let cands = crate::rules::rule_candidates_spec(crate::rules::searchable_text_spec(paths[i]));
    law_decision_consistency(cands, if cands.len() == 0 { seq![crate::parser::no_rule_note()] } else { Seq::empty() });
    let members = cohort_members(paths, cohort_key_spec(paths[i]), paths.len() as int);
    if members.len() >= 2 {
        let cps = Seq::new(members.len(), |k: int| crate::parser::cohort_view(paths[members[k]]));
        lemma_template_slots_ok(cps);
        match crate::template::infer_template_spec(cps) {
            None => {
                assert forall|j: int| 0 <= j < batch.candidates.len() implies
                    single.candidates.contains(#[trigger] batch.candidates[j]) || template_candidate_ok(batch.candidates[j]) by {
                    assert(batch.candidates[j] == single.candidates[j]);
                }
            },
            Some(t) => {
                let eps = crate::parser::episode_slots_spec(t.slots);
                let cp = crate::parser::cohort_view(paths[i]);
                if eps.len() == 0 {
                    assert forall|j: int| 0 <= j < batch.candidates.len() implies
                        single.candidates.contains(#[trigger] batch.candidates[j]) || template_candidate_ok(batch.candidates[j]) by {
                        assert(batch.candidates[j] == single.candidates[j]);
                    }
                } else if cp.special {
                    let notes = unique_seq(single.notes.push(crate::parser::special_content_note()));
                    law_decision_candidates_ranked(single.candidates, notes);
                    law_decision_consistency(single.candidates, notes);
                } else {
                    let sc = crate::parser::slot_candidates(eps, cp);
                    let all = single.candidates + sc;
                    let notes = unique_seq(single.notes + t.notes);
                    law_decision_candidates_ranked(all, notes);
                    law_decision_consistency(all, notes);
                    lemma_episode_slots_ok(t.slots);
                    lemma_slot_candidates_ok(eps, cp);
                    assert forall|j: int| 0 <= j < batch.candidates.len() implies
                        single.candidates.contains(#[trigger] batch.candidates[j]) || template_candidate_ok(batch.candidates[j]) by {
                        let c = batch.candidates[j];
                        assert(all.contains(c));
                        let k = choose|k: int| 0 <= k < all.len() && all[k] == c;
                        if k < single.candidates.len() {
                            assert(single.candidates[k] == c);
                        } else {
                            assert(sc[k - single.candidates.len()] == c);
                        }
                    }
                }
            },
        }
    } else {
        assert forall|j: int| 0 <= j < batch.candidates.len() implies
            single.candidates.contains(#[trigger] batch.candidates[j]) || template_candidate_ok(batch.candidates[j]) by {
            assert(batch.candidates[j] == single.candidates[j]);
        }
    }
}

/// An episode is `Matched` exactly when it has one video, a primary subtitle
/// and no two subtitles of one language; it misses its subtitle exactly when
/// it has one video, no primary subtitle and no such duplicate.
pub proof fn law_match_status(has_video: bool, has_primary: bool, duplicate_language: bool, several_videos: bool)
    ensures
        (crate::matcher::match_status_spec(has_video, has_primary, duplicate_language, several_videos) == MatchStatus::Matched)
            <==> (has_video && has_primary && !duplicate_language && !several_videos),
        (crate::matcher::match_status_spec(has_video, has_primary, duplicate_language, several_videos) == MatchStatus::MissingSub)
            <==> (has_video && !has_primary && !duplicate_language && !several_videos),
        (crate::matcher::match_status_spec(has_video, has_primary, duplicate_language, several_videos) == MatchStatus::Unprocessed)
            <==> (!has_video && !has_primary && !duplicate_language && !several_videos),
{
}

/// The subtitle chosen for a language has that language and the role it is
/// chosen for, and is one of the candidates; none is chosen exactly when no
/// candidate has the language.
pub proof fn law_best_for_language(
    c: Seq<crate::domain::SubtitleCandidateV>,
    language: crate::domain::LanguageCode,
    role: crate::domain::SubtitleRole,
)
    ensures
        match crate::matcher::best_for_language_spec(c, language, role) {
            Some(b) => b.language == language && b.role == role
                && exists|i: int| 0 <= i < c.len() && (crate::domain::SubtitleCandidateV { role, ..#[trigger] c[i] }) == b,
            None => forall|i: int| 0 <= i < c.len() ==> (#[trigger] c[i]).language != language,
        },
{
    let pred = |x: crate::domain::SubtitleCandidateV| x.language == language;
    let before = |a: crate::domain::SubtitleCandidateV, b: crate::domain::SubtitleCandidateV| crate::matcher::format_before(a, b);
    let f = c.filter(pred);
    broadcast use vstd::seq_lib::group_filter_ensures;
    crate::sort::lemma_stable_sort_permutes(f, before);
    crate::sort::lemma_stable_sort_elements(f, before);
    let m = stable_sort(f, before);
    if m.len() > 0 {
        assert(f.contains(m[0]));
        let k = choose|k: int| 0 <= k < f.len() && f[k] == m[0];
        assert(pred(f[k]));
        assert(f.contains(f[k]));
        c.lemma_filter_contains_rev(pred, f[k]);
        assert(c.contains(f[k]));
        let i = choose|i: int| 0 <= i < c.len() && c[i] == f[k];
        assert((crate::domain::SubtitleCandidateV { role, ..c[i] }) == crate::matcher::best_for_language_spec(c, language, role).unwrap());
    } else {
        assert forall|i: int| 0 <= i < c.len() implies (#[trigger] c[i]).language != language by {
            if c[i].language == language {
                assert(f.contains(c[i]));
            }
        }
    }
}

/// Planning into the project's output directory twice gives the same
/// directory: an output directory that already is the project folder is kept.
pub proof fn law_project_output_dir_idempotent(base: Seq<crate::path::ComponentV>, project_name: Seq<char>, season: Seq<char>)
    ensures
        crate::organizer::project_output_dir_spec(crate::organizer::project_output_dir_spec(base, project_name, season), project_name, season)
            == crate::organizer::project_output_dir_spec(base, project_name, season),
{
    let folder = crate::organizer::project_folder_name(project_name, season);
    let out = crate::organizer::project_output_dir_spec(base, project_name, season);
    if out != base {
        assert(out == base.push(crate::path::ComponentV::Name(folder)));
        assert(out.last() == crate::path::ComponentV::Name(folder));
        assert(crate::path::component_text(out.last()) == folder);
    }
}

/// Every planned destination lies inside the output directory, and its map
/// record is its path relative to that directory.
pub proof fn law_destinations_inside_output(
    ms: Seq<crate::domain::EpisodeMatchV>,
    out: Seq<crate::path::ComponentV>,
    project_name: Seq<char>,
)
    ensures
        forall|i: int| 0 <= i < crate::organizer::all_targets(ms, out, project_name).len() ==>
            crate::path::is_path_prefix(out, (#[trigger] crate::organizer::all_targets(ms, out, project_name)[i]).destination),
        forall|i: int| 0 <= i < ms.len() ==> {
            let m = #[trigger] crate::organizer::map_episode_spec(ms[i], out, project_name);
            &&& (m.video is Some) == (ms[i].video is Some)
            &&& (m.primary_subtitle is Some) == (ms[i].primary_subtitle is Some)
            &&& (m.secondary_subtitle is Some) == (ms[i].secondary_subtitle is Some)
        },
    decreases ms.len(),
{
    if ms.len() > 0 {
        law_destinations_inside_output(ms.drop_last(), out, project_name);
        let prev = crate::organizer::all_targets(ms.drop_last(), out, project_name);
        let last = crate::organizer::match_targets(ms.last(), out, project_name);
        let all = crate::organizer::all_targets(ms, out, project_name);
        assert forall|i: int| 0 <= i < all.len() implies crate::path::is_path_prefix(out, (#[trigger] all[i]).destination) by {
            if i < prev.len() {
                assert(all[i] == prev[i]);
            } else {
                let t = last[i - prev.len()];
                assert(all[i] == t);
                let d = t.destination;
                assert(d.subrange(0, out.len() as int) =~= out);
            }
        }
        assert forall|i: int| 0 <= i < ms.len() implies {
            let m = #[trigger] crate::organizer::map_episode_spec(ms[i], out, project_name);
            &&& (m.video is Some) == (ms[i].video is Some)
            &&& (m.primary_subtitle is Some) == (ms[i].primary_subtitle is Some)
            &&& (m.secondary_subtitle is Some) == (ms[i].secondary_subtitle is Some)
        } by {
            let e = ms[i];
            match crate::organizer::video_destination_spec(e, out, project_name) {
                Some(d) => { assert(d.subrange(0, out.len() as int) =~= out); },
                None => {},
            }
            match crate::organizer::subtitle_destination_spec(e.primary_subtitle, out, project_name, e.episode_key) {
                Some(d) => { assert(d.subrange(0, out.len() as int) =~= out); },
                None => {},
            }
            match crate::organizer::subtitle_destination_spec(e.secondary_subtitle, out, project_name, e.episode_key) {
                Some(d) => { assert(d.subrange(0, out.len() as int) =~= out); },
                None => {},
            }
        }
    }
}

/// Every planned operation is a video or a subtitle: the plan's counts add
/// up to its number of operations, and there are no more collisions than operations.
pub proof fn law_plan_counts(items: Seq<crate::domain::PlanItemV>)
    ensures
        crate::organizer::count_kind(items, crate::domain::FileOperationKind::Video)
            + crate::organizer::count_kind(items, crate::domain::FileOperationKind::Subtitle) == items.len(),
        crate::organizer::count_collisions(items) <= items.len(),
    decreases items.len(),
{
    if items.len() > 0 {
        law_plan_counts(items.drop_last());
    }
}

/// Whether Windows forbids a character in file names.
pub open spec fn forbidden_in_file_names(c: char) -> bool {
    c == '<' || c == '>' || c == ':' || c == '"' || c == '/' || c == '\\' || c == '|' || c == '?' || c == '*'
}

proof fn lemma_trim_by_from(s: Seq<char>, pred: spec_fn(char) -> bool)
    ensures
        forall|k: int| 0 <= k < crate::organizer::trim_by(s, pred).len() ==> s.contains(#[trigger] crate::organizer::trim_by(s, pred)[k]),
{
    let a = crate::organizer::leading_count(s, pred);
    let t = crate::organizer::trim_by(s, pred);
    if a < s.len() {
        crate::organizer::lemma_leading_bound(s, pred);
        crate::organizer::lemma_trailing_bound(s, pred);
        let b = crate::organizer::trailing_count(s, pred);
        if a + b >= s.len() {
            assert(pred(s[a as int]));
        }
        assert forall|k: int| 0 <= k < t.len() implies s.contains(#[trigger] t[k]) by {
            assert(t[k] == s[a + k]);
        }
    }
}

/// A sanitized file name is never empty and holds none of the characters
/// Windows forbids in file names.
pub proof fn law_sanitized_name_is_safe(input: Seq<char>)
    ensures
        crate::organizer::sanitize_spec(input).len() > 0,
        forall|k: int| 0 <= k < crate::organizer::sanitize_spec(input).len()
            ==> !forbidden_in_file_names(#[trigger] crate::organizer::sanitize_spec(input)[k]),
{
    let replaced = Seq::new(input.len(), |i: int| crate::organizer::sanitize_char(input[i]));
    let dots = |c: char| crate::organizer::is_space_or_dot(c);
    let spaces = |c: char| crate::text::char_is_whitespace(c);
    let first = crate::organizer::trim_by(replaced, dots);
    let trimmed = crate::organizer::trim_by(first, spaces);
    lemma_trim_by_from(replaced, dots);
    lemma_trim_by_from(first, spaces);
    assert forall|k: int| 0 <= k < trimmed.len() implies !forbidden_in_file_names(#[trigger] trimmed[k]) by {
        assert(first.contains(trimmed[k]));
        let j = choose|j: int| 0 <= j < first.len() && first[j] == trimmed[k];
        assert(replaced.contains(first[j]));
        let i = choose|i: int| 0 <= i < replaced.len() && replaced[i] == first[j];
    }
    let fallback = if trimmed.len() == 0 { "Anime"@ } else { trimmed };
    reveal_strlit("Anime");
    let r = crate::organizer::sanitize_spec(input);
    assert forall|k: int| 0 <= k < r.len() implies !forbidden_in_file_names(#[trigger] r[k]) by {
        if k < fallback.len() {
            assert(r[k] == fallback[k]);
        }
    }
}

proof fn lemma_first_free(path: Seq<crate::path::ComponentV>, existing: Seq<MediaPath>, index: nat)
    ensures
        !crate::organizer::contains_path(existing, crate::organizer::first_free_from(path, existing, index))
            || crate::organizer::first_free_from(path, existing, index) == crate::organizer::renamed_fallback_spec(path),
    decreases 1000 - index,
{
    if index <= 999 && crate::organizer::contains_path(existing, crate::organizer::rename_candidate_spec(path, index)) {
        lemma_first_free(path, existing, index + 1);
    }
}

/// A renamed copy goes where nothing exists yet, unless every renamed form
/// from 1 to 999 is taken, in which case it goes to the fallback name.
pub proof fn law_next_available_is_free(path: Seq<crate::path::ComponentV>, existing: Seq<MediaPath>)
    ensures
        !crate::organizer::contains_path(existing, crate::organizer::next_available_spec(path, existing))
            || crate::organizer::next_available_spec(path, existing) == crate::organizer::renamed_fallback_spec(path),
{
    lemma_first_free(path, existing, 1);
}

proof fn lemma_dash_words_chars(s: Seq<char>)
    ensures
        forall|i: int| 0 <= i < crate::library::dash_words(s).len() ==> {
            &&& (#[trigger] crate::library::dash_words(s)[i]).len() > 0
            &&& forall|j: int| 0 <= j < crate::library::dash_words(s)[i].len() ==> {
                &&& (#[trigger] crate::library::dash_words(s)[i][j]) != '-'
                &&& s.contains(crate::library::dash_words(s)[i][j])
            }
        },
    decreases s.len(),
{
    if s.len() > 0 {
        let t = s.drop_last();
        lemma_dash_words_chars(t);
        let w = crate::library::dash_words(t);
        let r = crate::library::dash_words(s);
        let c = s.last();
        assert(s.contains(c)) by {
            assert(s[s.len() - 1] == c);
        }
        assert forall|x: char| t.contains(x) implies s.contains(x) by {
            let k = choose|k: int| 0 <= k < t.len() && t[k] == x;
            assert(s[k] == x);
        }
        assert forall|i: int| 0 <= i < r.len() implies {
            &&& (#[trigger] r[i]).len() > 0
            &&& forall|j: int| 0 <= j < r[i].len() ==> {
                &&& (#[trigger] r[i][j]) != '-'
                &&& s.contains(r[i][j])
            }
        } by {
            if c == '-' {
                assert(r[i] == w[i]);
            } else if i < w.len() && !(s.len() >= 2 && s[s.len() - 2] != '-' && w.len() > 0 && i == w.len() - 1) {
                assert(r[i] == w[i]);
            } else if i < w.len() {
                assert(r[i] == w[i].push(c));
                assert forall|j: int| 0 <= j < r[i].len() implies {
                    &&& (#[trigger] r[i][j]) != '-'
                    &&& s.contains(r[i][j])
                } by {
                    if j < w[i].len() {
                        assert(r[i][j] == w[i][j]);
                    }
                }
            } else {
                assert(r[i] == seq![c]);
            }
        }
    }
}

proof fn lemma_join_first(ws: Seq<Seq<char>>, sep: Seq<char>)
    requires
        ws.len() > 0,
        ws[0].len() > 0,
    ensures
        crate::text::join_seqs(ws, sep).len() > 0,
        crate::text::join_seqs(ws, sep)[0] == ws[0][0],
    decreases ws.len(),
{
    if ws.len() > 1 {
        lemma_join_first(ws.drop_last(), sep);
    }
}

/// An entry identifier is never blank.
proof fn lemma_entry_id_not_blank(project_name: Seq<char>, season: Seq<char>, output_dir: Seq<crate::path::ComponentV>, now: u64)
    ensures
        !crate::library::all_whitespace(crate::library::entry_id_spec(project_name, season, output_dir, now)),
{
    let raw = project_name + "-"@ + season + "-"@ + crate::path::view_text(output_dir, "/"@);
    let lower = crate::text::lowercase_text(raw);
    let mapped = Seq::new(lower.len(), |i: int| crate::library::id_char(lower[i]));
    let ws = crate::library::dash_words(mapped);
    let collapsed = crate::text::join_seqs(ws, "-"@);
    let id = crate::library::entry_id_spec(project_name, season, output_dir, now);
    if collapsed.len() == 0 {
        reveal_strlit("library-");
        assert(id[0] == 'l');
    } else {
        if ws.len() == 0 {
            assert(collapsed.len() == 0);
        }
        lemma_dash_words_chars(mapped);
        assert(ws[0].len() > 0);
        lemma_join_first(ws, "-"@);
        let c = ws[0][0];
        assert(mapped.contains(c));
        let k = choose|k: int| 0 <= k < mapped.len() && mapped[k] == c;
        assert(c != '-');
        assert(crate::text::is_ascii_alnum_spec(c));
        assert(id[0] == c);
    }
}

proof fn lemma_episode_normalize_idempotent(e: crate::domain::EpisodeRecordV, d: u64)
    ensures
        crate::library::normalize_episode_spec(crate::library::normalize_episode_spec(e, d), d)
            == crate::library::normalize_episode_spec(e, d),
{
}

proof fn lemma_entry_normalize_idempotent(e: crate::domain::EntryV, now: u64, now2: u64)
    requires
        now > 0,
    ensures
        crate::library::normalize_entry_spec(crate::library::normalize_entry_spec(e, now), now2)
            == crate::library::normalize_entry_spec(e, now),
{
    let e1 = crate::library::normalize_entry_spec(e, now);
    let e2 = crate::library::normalize_entry_spec(e1, now2);
    if crate::library::all_whitespace(e.id) {
        lemma_entry_id_not_blank(e.project_name, e.season, e.output_dir, now);
    }
    assert(!crate::library::all_whitespace(e1.id));
    assert(e1.created_at_unix != 0);
    assert(e1.updated_at_unix != 0);
    assert(e1.organized_at_unix != 0);
    assert forall|k: int| 0 <= k < e1.episodes.len() implies #[trigger] e2.episodes[k] == e1.episodes[k] by {
        lemma_episode_normalize_idempotent(e.episodes[k], e1.updated_at_unix);
    }
    assert(e2.episodes =~= e1.episodes);
}

/// Normalizing a library file that was normalized at a positive time changes
/// nothing, whenever it happens: loading gives back what saving wrote.
pub proof fn law_normalize_idempotent(f: crate::domain::LibraryFileV, now: u64, now2: u64)
    requires
        now > 0,
    ensures
        crate::library::normalize_file_spec(crate::library::normalize_file_spec(f, now), now2)
            == crate::library::normalize_file_spec(f, now),
{
    let f1 = crate::library::normalize_file_spec(f, now);
    let f2 = crate::library::normalize_file_spec(f1, now2);
    assert forall|k: int| 0 <= k < f1.entries.len() implies #[trigger] f2.entries[k] == f1.entries[k] by {
        lemma_entry_normalize_idempotent(f.entries[k], now, now2);
    }
    assert(f2.entries =~= f1.entries);
}

/// After normalization no episode's progress exceeds 100 percent, and an
/// episode without any file is unwatched.
pub proof fn law_normalized_episode(e: crate::domain::EpisodeRecordV, d: u64)
    ensures
        ({
            let n = crate::library::normalize_episode_spec(e, d);
            &&& n.progress_percent matches Some(p) ==> p <= 100
            &&& (n.video_path is None && n.primary_subtitle_path is None && n.secondary_subtitle_path is None)
                ==> n.watch_status == crate::domain::WatchStatus::Unwatched
        }),
{
}

/// Saving puts the new entry last, with the identifier built from its
/// project, season and output directory (never blank); it leaves no other
/// entry for the same project, season and output directory (directories
/// compared as std compares paths); the library grows by at most one; and any
/// other entry that carries the saved identifier got it only because its own
/// identifier was blank and was filled in by normalization.
pub proof fn law_save_replaces_same_project(f: crate::domain::LibraryFileV, request: crate::domain::SaveLocalLibraryRequest, now: u64)
    ensures
        ({
            let r = crate::library::saved_file_spec(f, request, now);
            let id = crate::library::entry_id_spec(request.project_name@, request.season@, request.output_dir@, now);
            &&& r.entries.len() > 0
            &&& r.entries.len() <= f.entries.len() + 1
            &&& r.entries.last().project_name == request.project_name@
            &&& r.entries.last().season == request.season@
            &&& r.entries.last().output_dir == request.output_dir@
            &&& r.entries.last().id == id
            &&& !crate::library::all_whitespace(id)
            &&& forall|k: int| 0 <= k < r.entries.len() - 1 ==> !({
                &&& (#[trigger] r.entries[k]).project_name == request.project_name@
                &&& r.entries[k].season == request.season@
                &&& crate::path::same_path(r.entries[k].output_dir, request.output_dir@)
            })
            &&& forall|k: int| 0 <= k < r.entries.len() - 1 && (#[trigger] r.entries[k]).id == id ==>
                exists|j: int| 0 <= j < f.entries.len() && crate::library::all_whitespace(f.entries[j].id)
                    && r.entries[k] == crate::library::normalize_entry_spec(#[trigger] f.entries[j], now)
        }),
{
    let e = crate::library::saved_entry_spec(request, f.entries, now);
    let pred = |x: crate::domain::EntryV| !crate::library::same_entry(x, e.id, e.project_name, e.season, e.output_dir);
    let kept = f.entries.filter(pred);
    broadcast use vstd::seq_lib::group_filter_ensures;
    let r = crate::library::saved_file_spec(f, request, now);
    let all = kept.push(e);
    let id = crate::library::entry_id_spec(request.project_name@, request.season@, request.output_dir@, now);
    lemma_entry_id_not_blank(request.project_name@, request.season@, request.output_dir@, now);
    assert(r.entries.len() == all.len());
    assert forall|k: int| 0 <= k < r.entries.len() - 1 implies !({
        &&& (#[trigger] r.entries[k]).project_name == request.project_name@
        &&& r.entries[k].season == request.season@
        &&& crate::path::same_path(r.entries[k].output_dir, request.output_dir@)
    }) by {
        assert(all[k] == kept[k]);
        assert(pred(kept[k]));
        assert(r.entries[k] == crate::library::normalize_entry_spec(kept[k], now));
    }
    assert forall|k: int| 0 <= k < r.entries.len() - 1 && (#[trigger] r.entries[k]).id == id implies
        exists|j: int| 0 <= j < f.entries.len() && crate::library::all_whitespace(f.entries[j].id)
            && r.entries[k] == crate::library::normalize_entry_spec(#[trigger] f.entries[j], now) by {
        assert(all[k] == kept[k]);
        assert(pred(kept[k]));
        assert(r.entries[k] == crate::library::normalize_entry_spec(kept[k], now));
        assert(kept.contains(kept[k]));
        f.entries.lemma_filter_contains_rev(pred, kept[k]);
        let j = choose|j: int| 0 <= j < f.entries.len() && f.entries[j] == kept[k];
        assert(kept[k].id != id);
        assert(crate::library::all_whitespace(f.entries[j].id));
    }
    assert(r.entries.last() == crate::library::normalize_entry_spec(e, now));
}

proof fn lemma_filter_all<A>(s: Seq<A>, p: spec_fn(A) -> bool)
    requires
        forall|k: int| 0 <= k < s.len() ==> p(#[trigger] s[k]),
    ensures
        s.filter(p) == s,
    decreases s.len(),
{
    if s.len() > 0 {
        let t = s.drop_last();
        assert forall|k: int| 0 <= k < t.len() implies p(#[trigger] t[k]) by {
            assert(t[k] == s[k]);
        }
        lemma_filter_all(t, p);
        assert(s =~= t.push(s.last()));
        t.lemma_filter_push(s.last(), p);
        assert(p(s[s.len() - 1]));
    }
}

proof fn lemma_first_same_is_last(
    es: Seq<crate::domain::EntryV>,
    id: Seq<char>,
    project_name: Seq<char>,
    season: Seq<char>,
    output_dir: Seq<crate::path::ComponentV>,
)
    requires
        es.len() > 0,
        crate::library::same_entry(es.last(), id, project_name, season, output_dir),
        forall|k: int| 0 <= k < es.len() - 1 ==> !crate::library::same_entry(#[trigger] es[k], id, project_name, season, output_dir),
    ensures
        crate::library::first_same_created(es, id, project_name, season, output_dir) == Some(es.last().created_at_unix),
    decreases es.len(),
{
    if es.len() > 1 {
        let t = es.drop_first();
        assert(!crate::library::same_entry(es[0], id, project_name, season, output_dir));
        assert forall|k: int| 0 <= k < t.len() - 1 implies !crate::library::same_entry(#[trigger] t[k], id, project_name, season, output_dir) by {
            assert(t[k] == es[k + 1]);
        }
        assert(t.last() == es.last());
        lemma_first_same_is_last(t, id, project_name, season, output_dir);
    }
}

/// Saving into a loaded library (every identifier filled in) leaves exactly
/// one entry with the saved identifier, the last; saving the same request
/// again, at any later clock that gives the same identifier, replaces that
/// entry only, keeps exactly one entry with the identifier, and keeps the
/// first save's creation time.
pub proof fn law_save_twice_keeps_one_entry(
    f: crate::domain::LibraryFileV,
    request: crate::domain::SaveLocalLibraryRequest,
    now1: u64,
    now2: u64,
)
    requires
        forall|k: int| 0 <= k < f.entries.len() ==> !crate::library::all_whitespace(#[trigger] f.entries[k].id),
        now1 > 0,
        crate::library::entry_id_spec(request.project_name@, request.season@, request.output_dir@, now1)
            == crate::library::entry_id_spec(request.project_name@, request.season@, request.output_dir@, now2),
    ensures
        ({
            let id = crate::library::entry_id_spec(request.project_name@, request.season@, request.output_dir@, now1);
            let r1 = crate::library::saved_file_spec(f, request, now1);
            let r2 = crate::library::saved_file_spec(r1, request, now2);
            &&& r1.entries.last().id == id
            &&& forall|k: int| 0 <= k < r1.entries.len() - 1 ==> (#[trigger] r1.entries[k]).id != id
            &&& r2.entries.len() == r1.entries.len()
            &&& r2.entries.last().id == id
            &&& forall|k: int| 0 <= k < r2.entries.len() - 1 ==> (#[trigger] r2.entries[k]).id != id
            &&& r2.entries.last().created_at_unix == r1.entries.last().created_at_unix
        }),
{
    let id = crate::library::entry_id_spec(request.project_name@, request.season@, request.output_dir@, now1);
    let r1 = crate::library::saved_file_spec(f, request, now1);
    let r2 = crate::library::saved_file_spec(r1, request, now2);
    law_save_replaces_same_project(f, request, now1);
    // The first save: no other entry carries the identifier, as none was blank.
    assert forall|k: int| 0 <= k < r1.entries.len() - 1 implies (#[trigger] r1.entries[k]).id != id by {
        if r1.entries[k].id == id {
            let j = choose|j: int| 0 <= j < f.entries.len() && crate::library::all_whitespace(f.entries[j].id)
                && r1.entries[k] == crate::library::normalize_entry_spec(#[trigger] f.entries[j], now1);
            assert(!crate::library::all_whitespace(f.entries[j].id));
        }
    }
    // Every entry of the first result has an identifier and a creation time.
    let e1 = crate::library::saved_entry_spec(request, f.entries, now1);
    let keep1 = |x: crate::domain::EntryV| !crate::library::same_entry(x, e1.id, e1.project_name, e1.season, e1.output_dir);
    law_normalized_file(crate::domain::LibraryFileV { entries: f.entries.filter(keep1).push(e1), ..f }, now1);
    assert(r1 == crate::library::normalize_file_spec(crate::domain::LibraryFileV { entries: f.entries.filter(keep1).push(e1), ..f }, now1));
    law_save_replaces_same_project(r1, request, now2);
    assert forall|k: int| 0 <= k < r2.entries.len() - 1 implies (#[trigger] r2.entries[k]).id != id by {
        if r2.entries[k].id == id {
            let j = choose|j: int| 0 <= j < r1.entries.len() && crate::library::all_whitespace(r1.entries[j].id)
                && r2.entries[k] == crate::library::normalize_entry_spec(#[trigger] r1.entries[j], now2);
            assert(!crate::library::all_whitespace(r1.entries[j].id));
        }
    }
    // The second save replaces only the last entry, which it finds first.
    let es = r1.entries;
    assert(crate::library::same_entry(es.last(), id, request.project_name@, request.season@, request.output_dir@));
    assert forall|k: int| 0 <= k < es.len() - 1 implies !crate::library::same_entry(#[trigger] es[k], id, request.project_name@, request.season@, request.output_dir@) by {
        assert(es[k].id != id);
    }
    lemma_first_same_is_last(es, id, request.project_name@, request.season@, request.output_dir@);
    let e2 = crate::library::saved_entry_spec(request, es, now2);
    assert(e2.created_at_unix == es.last().created_at_unix);
    let keep2 = |x: crate::domain::EntryV| !crate::library::same_entry(x, e2.id, e2.project_name, e2.season, e2.output_dir);
    let init = es.drop_last();
    assert forall|k: int| 0 <= k < init.len() implies keep2(#[trigger] init[k]) by {
        assert(init[k] == es[k]);
    }
    lemma_filter_all(init, keep2);
    assert(es =~= init.push(es.last()));
    init.lemma_filter_push(es.last(), keep2);
    assert(es.filter(keep2) == init);
    assert(r2.entries.last() == crate::library::normalize_entry_spec(e2, now2));
}

/// After normalizing at a positive time, a library file has schema version 1;
/// every entry has an identifier that is not blank, positive creation, update
/// and organization times, and an episode count equal to its number of
/// episodes; every episode has a positive update time, progress of at most
/// 100 percent, and is unwatched when it has no file.
pub proof fn law_normalized_file(f: crate::domain::LibraryFileV, now: u64)
    requires
        now > 0,
    ensures
        ({
            let n = crate::library::normalize_file_spec(f, now);
            &&& n.schema_version == 1
            &&& n.entries.len() == f.entries.len()
            &&& forall|k: int| 0 <= k < n.entries.len() ==> {
                let e = #[trigger] n.entries[k];
                &&& !crate::library::all_whitespace(e.id)
                &&& e.created_at_unix > 0
                &&& e.updated_at_unix > 0
                &&& e.organized_at_unix > 0
                &&& e.episode_count == e.episodes.len() as usize
                &&& forall|j: int| 0 <= j < e.episodes.len() ==> {
                    let ep = #[trigger] e.episodes[j];
                    &&& ep.updated_at_unix > 0
                    &&& ep.progress_percent matches Some(p) ==> p <= 100
                    &&& (ep.video_path is None && ep.primary_subtitle_path is None && ep.secondary_subtitle_path is None)
                        ==> ep.watch_status == crate::domain::WatchStatus::Unwatched
                }
            }
        }),
{
    let n = crate::library::normalize_file_spec(f, now);
    assert forall|k: int| 0 <= k < n.entries.len() implies {
        let e = #[trigger] n.entries[k];
        &&& !crate::library::all_whitespace(e.id)
        &&& e.created_at_unix > 0
        &&& e.updated_at_unix > 0
        &&& e.organized_at_unix > 0
        &&& e.episode_count == e.episodes.len() as usize
        &&& forall|j: int| 0 <= j < e.episodes.len() ==> {
            let ep = #[trigger] e.episodes[j];
            &&& ep.updated_at_unix > 0
            &&& ep.progress_percent matches Some(p) ==> p <= 100
            &&& (ep.video_path is None && ep.primary_subtitle_path is None && ep.secondary_subtitle_path is None)
                ==> ep.watch_status == crate::domain::WatchStatus::Unwatched
        }
    } by {
        let raw = f.entries[k];
        let e = n.entries[k];
        assert(e == crate::library::normalize_entry_spec(raw, now));
        if crate::library::all_whitespace(raw.id) {
            lemma_entry_id_not_blank(raw.project_name, raw.season, raw.output_dir, now);
        }
        assert forall|j: int| 0 <= j < e.episodes.len() implies {
            let ep = #[trigger] e.episodes[j];
            &&& ep.updated_at_unix > 0
            &&& ep.progress_percent matches Some(p) ==> p <= 100
            &&& (ep.video_path is None && ep.primary_subtitle_path is None && ep.secondary_subtitle_path is None)
                ==> ep.watch_status == crate::domain::WatchStatus::Unwatched
        } by {
            assert(e.episodes[j] == crate::library::normalize_episode_spec(raw.episodes[j], e.updated_at_unix));
        }
    }
}

/// A saved entry can be removed again: after a save, removing by the saved
/// entry's identifier succeeds (some entry carries it) and, whenever the
/// removal happens, leaves no entry with that identifier.
pub proof fn law_saved_entry_can_be_removed(
    f: crate::domain::LibraryFileV,
    request: crate::domain::SaveLocalLibraryRequest,
    now: u64,
    now2: u64,
)
    ensures
        ({
            let s = crate::library::saved_file_spec(f, request, now);
            let id = s.entries.last().id;
            let kept = s.entries.filter(|x: crate::domain::EntryV| x.id != id);
            let after = crate::library::normalize_file_spec(crate::domain::LibraryFileV { entries: kept, ..s }, now2);
            &&& kept.len() < s.entries.len()
            &&& forall|k: int| 0 <= k < after.entries.len() ==> (#[trigger] after.entries[k]).id != id
        }),
{
    broadcast use vstd::seq_lib::group_filter_ensures;
    let s = crate::library::saved_file_spec(f, request, now);
    let id = s.entries.last().id;
    let pred = |x: crate::domain::EntryV| x.id != id;
    let kept = s.entries.filter(pred);
    let after = crate::library::normalize_file_spec(crate::domain::LibraryFileV { entries: kept, ..s }, now2);
    let init = s.entries.drop_last();
    assert(s.entries =~= init.push(s.entries.last()));
    init.lemma_filter_len_push(pred, s.entries.last());
    init.lemma_filter_len(pred);
    // Every entry of a saved library has an identifier that is not blank.
    assert forall|i: int| 0 <= i < s.entries.len() implies !crate::library::all_whitespace(#[trigger] s.entries[i].id) by {
        let e = crate::library::saved_entry_spec(request, f.entries, now);
        let keep = |x: crate::domain::EntryV| !crate::library::same_entry(x, e.id, e.project_name, e.season, e.output_dir);
        let all = f.entries.filter(keep).push(e);
        let raw = all[i];
        assert(s.entries[i] == crate::library::normalize_entry_spec(raw, now));
        if crate::library::all_whitespace(raw.id) {
            lemma_entry_id_not_blank(raw.project_name, raw.season, raw.output_dir, now);
        }
    }
    assert forall|k: int| 0 <= k < after.entries.len() implies (#[trigger] after.entries[k]).id != id by {
        assert(pred(kept[k]));
        assert(kept.contains(kept[k]));
        s.entries.lemma_filter_contains_rev(pred, kept[k]);
        let j = choose|j: int| 0 <= j < s.entries.len() && s.entries[j] == kept[k];
        assert(!crate::library::all_whitespace(s.entries[j].id));
        assert(after.entries[k] == crate::library::normalize_entry_spec(kept[k], now2));
    }
}

proof fn lemma_count_repaired_zero(
    eps: Seq<crate::domain::EpisodeRecordV>,
    ms: Seq<crate::domain::MapEpisodeV>,
    base: Seq<crate::path::ComponentV>,
)
    requires
        forall|k: int| 0 <= k < eps.len() ==> match crate::library::map_episode_for(ms, (#[trigger] eps[k]).episode_key) {
            Some(m) => !crate::library::episode_changed(eps[k], m, base),
            None => true,
        },
    ensures
        crate::library::count_repaired(eps, ms, base) == 0,
    decreases eps.len(),
{
    if eps.len() > 0 {
        let t = eps.drop_last();
        assert forall|k: int| 0 <= k < t.len() implies match crate::library::map_episode_for(ms, (#[trigger] t[k]).episode_key) {
            Some(m) => !crate::library::episode_changed(t[k], m, base),
            None => true,
        } by {
            assert(t[k] == eps[k]);
        }
        lemma_count_repaired_zero(t, ms, base);
        assert(eps.last() == eps[eps.len() - 1]);
    }
}

/// Repairing settles an entry: once repaired from a project map (and
/// normalized, as every change of the library file is), repairing it again
/// from the same map against the same base directory finds no episode whose
/// paths would change.
pub proof fn law_repair_settles(
    e: crate::domain::EntryV,
    project_name: Seq<char>,
    season: Seq<char>,
    map_episodes: Seq<crate::domain::MapEpisodeV>,
    base_dir: Seq<crate::path::ComponentV>,
    now: u64,
)
    ensures
        ({
            let repaired = crate::library::normalize_entry_spec(
                crate::library::repaired_entry_spec(e, project_name, season, map_episodes, base_dir, now),
                now,
            );
            &&& repaired.output_dir == base_dir
            &&& crate::library::count_repaired(repaired.episodes, map_episodes, base_dir) == 0
        }),
{
    let r0 = crate::library::repaired_entry_spec(e, project_name, season, map_episodes, base_dir, now);
    let r = crate::library::normalize_entry_spec(r0, now);
    assert forall|k: int| 0 <= k < r.episodes.len() implies match crate::library::map_episode_for(map_episodes, (#[trigger] r.episodes[k]).episode_key) {
        Some(m) => !crate::library::episode_changed(r.episodes[k], m, base_dir),
        None => true,
    } by {
        assert(r0.episodes[k] == crate::library::repair_episode_spec(e.episodes[k], map_episodes, base_dir, now));
    }
    lemma_count_repaired_zero(r.episodes, map_episodes, base_dir);
}

/// After a progress update, reading the episode gives back what was written,
/// and the entry's other episodes are as they were.
pub proof fn law_progress_read_back(
    e: crate::domain::EntryV,
    j: int,
    request: crate::domain::UpdateLibraryEpisodeProgressRequest,
    now: u64,
)
    requires
        0 <= j < e.episodes.len(),
    ensures
        ({
            let n = crate::library::progressed_entry(e, j, request, now);
            &&& n.episodes.len() == e.episodes.len()
            &&& n.episodes[j].watch_status == request.watch_status
            &&& n.episodes[j].last_position_sec == request.last_position_sec
            &&& n.episodes[j].progress_percent == request.progress_percent
            &&& n.episodes[j].updated_at_unix == now
            &&& n.episodes[j].episode_key == e.episodes[j].episode_key
            &&& forall|k: int| 0 <= k < e.episodes.len() && k != j ==> #[trigger] n.episodes[k] == e.episodes[k]
        }),
{
}

/// Every scanned video has a video extension and every scanned subtitle a
/// subtitle extension.
pub proof fn law_scanned_files_have_media_extensions(
    video_dirs: Seq<Vec<crate::scanner::ListedFile>>,
    subtitle_dirs: Seq<Vec<crate::scanner::ListedFile>>,
)
    ensures
        forall|i: int| 0 <= i < crate::scanner::all_videos(video_dirs).len()
            ==> crate::scanner::is_video_extension((#[trigger] crate::scanner::all_videos(video_dirs)[i]).extension),
        forall|i: int| 0 <= i < crate::scanner::all_subtitles(subtitle_dirs).len()
            ==> crate::scanner::is_subtitle_extension((#[trigger] crate::scanner::all_subtitles(subtitle_dirs)[i]).extension),
    decreases video_dirs.len() + subtitle_dirs.len(),
{
    broadcast use vstd::seq_lib::group_filter_ensures;
    if video_dirs.len() > 0 {
        law_scanned_files_have_media_extensions(video_dirs.drop_last(), subtitle_dirs);
        let a = crate::scanner::all_videos(video_dirs.drop_last());
        let b = crate::scanner::directory_videos(video_dirs.last()@);
        let all = crate::scanner::all_videos(video_dirs);
        assert forall|i: int| 0 <= i < all.len() implies crate::scanner::is_video_extension((#[trigger] all[i]).extension) by {
            if i < a.len() {
                assert(all[i] == a[i]);
            } else {
                assert(all[i] == b[i - a.len()]);
            }
        }
    }
    if subtitle_dirs.len() > 0 {
        law_scanned_files_have_media_extensions(video_dirs, subtitle_dirs.drop_last());
        let a = crate::scanner::all_subtitles(subtitle_dirs.drop_last());
        let b = crate::scanner::directory_subtitles(subtitle_dirs.last()@);
        let all = crate::scanner::all_subtitles(subtitle_dirs);
        assert forall|i: int| 0 <= i < all.len() implies crate::scanner::is_subtitle_extension((#[trigger] all[i]).extension) by {
            if i < a.len() {
                assert(all[i] == a[i]);
            } else {
                assert(all[i] == b[i - a.len()]);
            }
        }
    }
}

/// Matching sorts each scanned video into one place: the videos of an
/// episode are exactly those parsed as that episode, and the unprocessed
/// ones exactly those without an episode.
pub proof fn law_match_partitions_videos(videos: Seq<crate::domain::VideoV>, k: EpisodeKey)
    ensures
        forall|i: int| 0 <= i < crate::matcher::videos_of(videos, k).len()
            ==> (#[trigger] crate::matcher::videos_of(videos, k)[i]).episode == Some(k),
        forall|i: int| 0 <= i < videos.len() && (#[trigger] videos[i]).episode == Some(k)
            ==> crate::matcher::videos_of(videos, k).contains(videos[i]),
        forall|i: int| 0 <= i < videos.len() && (#[trigger] videos[i]).episode is None
            ==> crate::matcher::unparsed_videos_of(videos).contains(videos[i]),
        forall|i: int| 0 <= i < crate::matcher::unparsed_videos_of(videos).len()
            ==> (#[trigger] crate::matcher::unparsed_videos_of(videos)[i]).episode is None,
{
    broadcast use vstd::seq_lib::group_filter_ensures;
}

/// A scan lists its videos, and its subtitles, in natural order of path.
pub proof fn law_scan_in_natural_order(
    video_dirs: Seq<Vec<crate::scanner::ListedFile>>,
    subtitle_dirs: Seq<Vec<crate::scanner::ListedFile>>,
)
    ensures
        sorted_by(
            stable_sort(crate::scanner::all_videos(video_dirs), |a: crate::domain::VideoV, b: crate::domain::VideoV| crate::natural::natural_path_before(a.path, b.path)),
            |a: crate::domain::VideoV, b: crate::domain::VideoV| crate::natural::natural_path_before(a.path, b.path),
        ),
        sorted_by(
            stable_sort(crate::scanner::all_subtitles(subtitle_dirs), |a: crate::domain::SubtitleFileV, b: crate::domain::SubtitleFileV| crate::natural::natural_path_before(a.path, b.path)),
            |a: crate::domain::SubtitleFileV, b: crate::domain::SubtitleFileV| crate::natural::natural_path_before(a.path, b.path),
        ),
{
    crate::natural::law_natural_path_order_is_strict_weak();
    let pb = |a: Seq<crate::path::ComponentV>, b: Seq<crate::path::ComponentV>| crate::natural::natural_path_before(a, b);
    let vb = |a: crate::domain::VideoV, b: crate::domain::VideoV| crate::natural::natural_path_before(a.path, b.path);
    let sb = |a: crate::domain::SubtitleFileV, b: crate::domain::SubtitleFileV| crate::natural::natural_path_before(a.path, b.path);
    assert(strict_weak_order(vb)) by {
        assert forall|a: crate::domain::VideoV| #![trigger vb(a, a)] !vb(a, a) by {
            assert(!pb(a.path, a.path));
        }
        assert forall|a: crate::domain::VideoV, b: crate::domain::VideoV, c: crate::domain::VideoV| #![trigger vb(a, b), vb(b, c)]
            vb(a, b) && vb(b, c) implies vb(a, c) by {
            assert(pb(a.path, b.path) && pb(b.path, c.path));
        }
        assert forall|a: crate::domain::VideoV, b: crate::domain::VideoV, c: crate::domain::VideoV| #![trigger vb(a, b), vb(b, c)]
            !vb(a, b) && !vb(b, a) && !vb(b, c) && !vb(c, b) implies !vb(a, c) && !vb(c, a) by {
            assert(!pb(a.path, b.path) && !pb(b.path, a.path) && !pb(b.path, c.path) && !pb(c.path, b.path));
        }
    }
    assert(strict_weak_order(sb)) by {
        assert forall|a: crate::domain::SubtitleFileV| #![trigger sb(a, a)] !sb(a, a) by {
            assert(!pb(a.path, a.path));
        }
        assert forall|a: crate::domain::SubtitleFileV, b: crate::domain::SubtitleFileV, c: crate::domain::SubtitleFileV| #![trigger sb(a, b), sb(b, c)]
            sb(a, b) && sb(b, c) implies sb(a, c) by {
            assert(pb(a.path, b.path) && pb(b.path, c.path));
        }
        assert forall|a: crate::domain::SubtitleFileV, b: crate::domain::SubtitleFileV, c: crate::domain::SubtitleFileV| #![trigger sb(a, b), sb(b, c)]
            !sb(a, b) && !sb(b, a) && !sb(b, c) && !sb(c, b) implies !sb(a, c) && !sb(c, a) by {
            assert(!pb(a.path, b.path) && !pb(b.path, a.path) && !pb(b.path, c.path) && !pb(c.path, b.path));
        }
    }
    crate::sort::lemma_stable_sort_sorted(crate::scanner::all_videos(video_dirs), vb);
    crate::sort::lemma_stable_sort_sorted(crate::scanner::all_subtitles(subtitle_dirs), sb);
}

/// A newly launched player reports as its argument count exactly the number
/// of arguments it is launched with.
pub proof fn law_argument_count_is_launch_arg_count(
    video_path: Seq<char>,
    primary_subtitle: Option<Seq<char>>,
    secondary_subtitle: Option<Seq<char>>,
    extra_args: Seq<Seq<char>>,
    ipc_pipe_path: Seq<char>,
)
    ensures
        crate::mpv::launch_args_spec(video_path, primary_subtitle, secondary_subtitle, extra_args, ipc_pipe_path).len()
            == 4 + (if primary_subtitle is Some { 1nat } else { 0nat }) + (if secondary_subtitle is Some { 1nat } else { 0nat })
            + crate::mpv::count_nonblank(extra_args),
{
    crate::mpv::lemma_nonblank_count(extra_args);
}

/// External subtitles are removed from a running player largest id first,
/// each exactly once.
pub proof fn law_external_removal_order(tracks: Seq<crate::mpv::MpvTrackV>)
    ensures
        ({
            let order = stable_sort(crate::mpv::external_ids(tracks), |a: i64, b: i64| crate::mpv::id_descending(a, b));
            &&& order.to_multiset() == crate::mpv::external_ids(tracks).to_multiset()
            &&& forall|i: int, j: int| 0 <= i < j < order.len() ==> order[i] >= order[j]
        }),
{
    let before = |a: i64, b: i64| crate::mpv::id_descending(a, b);
    crate::sort::lemma_stable_sort_permutes(crate::mpv::external_ids(tracks), before);
    crate::sort::lemma_stable_sort_sorted(crate::mpv::external_ids(tracks), before);
    let order = stable_sort(crate::mpv::external_ids(tracks), before);
    assert forall|i: int, j: int| 0 <= i < j < order.len() implies order[i] >= order[j] by {
        assert(!before(order[j], order[i]));
    }
}

/// The order in which subtitle formats are preferred: `ass`, then `ssa`,
/// then `srt`, then `vtt`, then any other extension.
pub proof fn law_subtitle_format_preference(other: Seq<char>)
    requires
        other != "ass"@ && other != "ssa"@ && other != "srt"@ && other != "vtt"@,
    ensures
        crate::matcher::subtitle_format_rank_spec("ass"@) < crate::matcher::subtitle_format_rank_spec("ssa"@),
        crate::matcher::subtitle_format_rank_spec("ssa"@) < crate::matcher::subtitle_format_rank_spec("srt"@),
        crate::matcher::subtitle_format_rank_spec("srt"@) < crate::matcher::subtitle_format_rank_spec("vtt"@),
        crate::matcher::subtitle_format_rank_spec("vtt"@) < crate::matcher::subtitle_format_rank_spec(other),
{
    reveal_strlit("ass");
    reveal_strlit("ssa");
    reveal_strlit("srt");
    reveal_strlit("vtt");
    assert("ssa"@ != "ass"@) by { assert("ssa"@[0] != "ass"@[0]); }
    assert("srt"@ != "ass"@) by { assert("srt"@[0] != "ass"@[0]); }
    assert("srt"@ != "ssa"@) by { assert("srt"@[1] != "ssa"@[1]); }
    assert("vtt"@ != "ass"@) by { assert("vtt"@[0] != "ass"@[0]); }
    assert("vtt"@ != "ssa"@) by { assert("vtt"@[0] != "ssa"@[0]); }
    assert("vtt"@ != "srt"@) by { assert("vtt"@[0] != "srt"@[0]); }
}

/// At least as good a subtitle as `b`: a better format, or the same format
/// and at least the same parse confidence.
pub open spec fn subtitle_at_least(a: crate::domain::SubtitleCandidateV, b: crate::domain::SubtitleCandidateV) -> bool {
    let fa = crate::matcher::subtitle_format_rank_spec(a.extension);
    let fb = crate::matcher::subtitle_format_rank_spec(b.extension);
    fa < fb || (fa == fb && a.confidence >= b.confidence)
}

/// The subtitle chosen for a language is the best of that language's
/// candidates: none has a better format, and none of the same format has a
/// higher parse confidence.
pub proof fn law_best_subtitle_is_best_format_then_confidence(
    c: Seq<crate::domain::SubtitleCandidateV>,
    language: crate::domain::LanguageCode,
    role: crate::domain::SubtitleRole,
)
    ensures
        crate::matcher::best_for_language_spec(c, language, role) matches Some(b) ==>
            forall|i: int| 0 <= i < c.len() && (#[trigger] c[i]).language == language ==> {
                let fb = crate::matcher::subtitle_format_rank_spec(b.extension);
                let fi = crate::matcher::subtitle_format_rank_spec(c[i].extension);
                &&& fb <= fi
                &&& fb == fi ==> b.confidence >= c[i].confidence
            },
{
    let pred = |x: crate::domain::SubtitleCandidateV| x.language == language;
    let before = |a: crate::domain::SubtitleCandidateV, b: crate::domain::SubtitleCandidateV| crate::matcher::format_before(a, b);
    let le = |a: crate::domain::SubtitleCandidateV, b: crate::domain::SubtitleCandidateV| subtitle_at_least(a, b);
    let f = c.filter(pred);
    broadcast use vstd::seq_lib::group_filter_ensures;
    crate::sort::lemma_stable_sort_first_least(f, before, le);
    let m = stable_sort(f, before);
    crate::sort::lemma_stable_sort_permutes(f, before);
    if m.len() > 0 {
        let b = crate::matcher::best_for_language_spec(c, language, role).unwrap();
        assert forall|i: int| 0 <= i < c.len() && (#[trigger] c[i]).language == language implies {
            let fb = crate::matcher::subtitle_format_rank_spec(b.extension);
            let fi = crate::matcher::subtitle_format_rank_spec(c[i].extension);
            &&& fb <= fi
            &&& fb == fi ==> b.confidence >= c[i].confidence
        } by {
            c.lemma_filter_contains(pred, i);
            let k = choose|k: int| 0 <= k < f.len() && f[k] == c[i];
            assert(le(m[0], f[k]));
        }
    }
}

/// The literal marks that name a subtitle language.
pub open spec fn hans_marks() -> Seq<Seq<char>> {
    seq!["zh-hans"@, "zh_cn"@, "zh-cn"@, ".chs."@, "[chs]"@, "简中"@, "简体"@]
}

pub open spec fn hant_marks() -> Seq<Seq<char>> {
    seq!["zh-hant"@, "zh_tw"@, "zh-tw"@, ".cht."@, "[cht]"@, "繁中"@, "繁体"@]
}

pub open spec fn japanese_marks() -> Seq<Seq<char>> {
    seq!["ja-jp"@, ".jpn."@, "[jpn]"@, ".ja."@, "[ja]"@, "日文"@, "日本語"@]
}

pub open spec fn english_marks() -> Seq<Seq<char>> {
    seq!["english"@, ".eng."@, "[eng]"@, ".en."@, "[en]"@, "英文"@]
}

pub open spec fn holds_mark(text: Seq<char>, marks: Seq<Seq<char>>) -> bool {
    exists|j: int| 0 <= j < marks.len() && crate::text::contains_seq(text, #[trigger] marks[j])
}

proof fn lemma_marks_agree(text: Seq<char>)
    ensures
        crate::rules::contains_any_spec(text, crate::rules::zh_hans_marks()) == holds_mark(text, hans_marks()),
        crate::rules::contains_any_spec(text, crate::rules::zh_hant_marks()) == holds_mark(text, hant_marks()),
        crate::rules::contains_any_spec(text, crate::rules::ja_marks()) == holds_mark(text, japanese_marks()),
        crate::rules::contains_any_spec(text, crate::rules::en_marks()) == holds_mark(text, english_marks()),
{
    let a = crate::rules::zh_hans_marks();
    let b = crate::rules::zh_hant_marks();
    let c = crate::rules::ja_marks();
    let d = crate::rules::en_marks();
    assert forall|j: int| 0 <= j < a.len() implies #[trigger] a[j]@ == hans_marks()[j] by {}
    assert forall|j: int| 0 <= j < b.len() implies #[trigger] b[j]@ == hant_marks()[j] by {}
    assert forall|j: int| 0 <= j < c.len() implies #[trigger] c[j]@ == japanese_marks()[j] by {}
    assert forall|j: int| 0 <= j < d.len() implies #[trigger] d[j]@ == english_marks()[j] by {}
    if crate::rules::contains_any_spec(text, a) {
        let j = choose|j: int| 0 <= j < a.len() && crate::text::contains_seq(text, #[trigger] a[j]@);
        assert(crate::text::contains_seq(text, hans_marks()[j]));
    }
    if holds_mark(text, hans_marks()) {
        let j = choose|j: int| 0 <= j < hans_marks().len() && crate::text::contains_seq(text, #[trigger] hans_marks()[j]);
        assert(crate::text::contains_seq(text, a[j]@));
    }
    if crate::rules::contains_any_spec(text, b) {
        let j = choose|j: int| 0 <= j < b.len() && crate::text::contains_seq(text, #[trigger] b[j]@);
        assert(crate::text::contains_seq(text, hant_marks()[j]));
    }
    if holds_mark(text, hant_marks()) {
        let j = choose|j: int| 0 <= j < hant_marks().len() && crate::text::contains_seq(text, #[trigger] hant_marks()[j]);
        assert(crate::text::contains_seq(text, b[j]@));
    }
    if crate::rules::contains_any_spec(text, c) {
        let j = choose|j: int| 0 <= j < c.len() && crate::text::contains_seq(text, #[trigger] c[j]@);
        assert(crate::text::contains_seq(text, japanese_marks()[j]));
    }
    if holds_mark(text, japanese_marks()) {
        let j = choose|j: int| 0 <= j < japanese_marks().len() && crate::text::contains_seq(text, #[trigger] japanese_marks()[j]);
        assert(crate::text::contains_seq(text, c[j]@));
    }
    if crate::rules::contains_any_spec(text, d) {
        let j = choose|j: int| 0 <= j < d.len() && crate::text::contains_seq(text, #[trigger] d[j]@);
        assert(crate::text::contains_seq(text, english_marks()[j]));
    }
    if holds_mark(text, english_marks()) {
        let j = choose|j: int| 0 <= j < english_marks().len() && crate::text::contains_seq(text, #[trigger] english_marks()[j]);
        assert(crate::text::contains_seq(text, d[j]@));
    }
}

/// How a subtitle's language is read from its path, lowercased: a literal
/// mark of simplified Chinese, then of traditional Chinese, of Japanese and
/// of English decides; without any mark, the isolated tokens `sc`
/// (simplified Chinese), `tc` (traditional Chinese), `ja` (Japanese) and
/// `en` (English) decide in that order; with neither, the language is
/// undetermined.
pub proof fn law_language_detection(p: MediaPath)
    ensures
        ({
            let lower = crate::text::lowercase_text(crate::rules::searchable_text_spec(p));
            let r = crate::rules::detect_language_spec(p);
            let no_mark = !holds_mark(lower, hans_marks()) && !holds_mark(lower, hant_marks())
                && !holds_mark(lower, japanese_marks()) && !holds_mark(lower, english_marks());
            let sc = crate::rules::isolated_token_spec(lower, "sc"@);
            let tc = crate::rules::isolated_token_spec(lower, "tc"@);
            let ja = crate::rules::isolated_token_spec(lower, "ja"@);
            let en = crate::rules::isolated_token_spec(lower, "en"@);
            &&& holds_mark(lower, hans_marks()) ==> r == LanguageCode::ZhHans
            &&& !holds_mark(lower, hans_marks()) && holds_mark(lower, hant_marks()) ==> r == LanguageCode::ZhHant
            &&& !holds_mark(lower, hans_marks()) && !holds_mark(lower, hant_marks()) && holds_mark(lower, japanese_marks())
                ==> r == LanguageCode::Ja
            &&& !holds_mark(lower, hans_marks()) && !holds_mark(lower, hant_marks()) && !holds_mark(lower, japanese_marks())
                && holds_mark(lower, english_marks()) ==> r == LanguageCode::En
            &&& no_mark && sc ==> r == LanguageCode::ZhHans
            &&& no_mark && !sc && tc ==> r == LanguageCode::ZhHant
            &&& no_mark && !sc && !tc && ja ==> r == LanguageCode::Ja
            &&& no_mark && !sc && !tc && !ja && en ==> r == LanguageCode::En
            &&& no_mark && !sc && !tc && !ja && !en ==> r == LanguageCode::Und
        }),
{
    let lower = crate::text::lowercase_text(crate::rules::searchable_text_spec(p));
    lemma_marks_agree(lower);
}

/// The season a pattern's first match marks: its first group, when it reads
/// as a number in 1..=99.
pub open spec fn marked_season(first: Option<Seq<Option<Seq<char>>>>) -> Option<u16> {
    match first {
        Some(caps) => match crate::rules::group_u16(caps, 1) {
            Some(v) => if 1 <= v && v <= 99 { Some(v) } else { None },
            None => None,
        },
        None => None,
    }
}

/// How a file's season is read: an `Sxx` marker first, then a `Season N`
/// marker, then a `第N季` marker, each counting only with a value in 1..=99;
/// the season is 1 when none gives one (each pattern compiling).
pub proof fn law_season_markers(text: Seq<char>)
    ensures
        ({
            let sxx = crate::rules::regex_captures_first(r"(?i)(?:^|[^a-z0-9])s0*(\d{1,2})(?:e\d{1,3}|[^a-z0-9]|$)"@, text);
            let word = crate::rules::regex_captures_first(r"(?i)season\s*0*(\d{1,2})"@, text);
            let zh = crate::rules::regex_captures_first(r"第\s*0*(\d{1,2})\s*季"@, text);
            &&& (sxx is Some && marked_season(sxx.unwrap()) is Some)
                ==> crate::rules::parse_season_spec(text) == marked_season(sxx.unwrap())
            &&& (sxx is Some && marked_season(sxx.unwrap()) is None && word is Some && marked_season(word.unwrap()) is Some)
                ==> crate::rules::parse_season_spec(text) == marked_season(word.unwrap())
            &&& (sxx is Some && marked_season(sxx.unwrap()) is None && word is Some && marked_season(word.unwrap()) is None
                && zh is Some) ==> crate::rules::parse_season_spec(text) == marked_season(zh.unwrap())
            &&& (sxx is Some && marked_season(sxx.unwrap()) is None && word is Some && marked_season(word.unwrap()) is None
                && zh is Some && marked_season(zh.unwrap()) is None) ==> crate::rules::season_or_first(text) == 1
            &&& crate::rules::parse_season_spec(text) matches Some(v) ==> crate::rules::season_or_first(text) == v
        }),
{
}

/// The targets hold, for an episode, its video and its primary and
/// secondary subtitles (where it has them), each with its kind, role and key.
pub open spec fn covers_match(ts: Seq<crate::organizer::TargetV>, m: crate::domain::EpisodeMatchV) -> bool {
    &&& m.video matches Some(v) ==> exists|i: int| 0 <= i < ts.len()
        && (#[trigger] ts[i]).source == v.path && ts[i].kind == crate::domain::FileOperationKind::Video
        && ts[i].episode_key == m.episode_key
    &&& m.primary_subtitle matches Some(c) ==> exists|i: int| 0 <= i < ts.len()
        && (#[trigger] ts[i]).source == c.path && ts[i].kind == crate::domain::FileOperationKind::Subtitle
        && ts[i].role == Some(crate::domain::SubtitleRole::Primary) && ts[i].language == Some(c.language)
        && ts[i].episode_key == m.episode_key
    &&& m.secondary_subtitle matches Some(c) ==> exists|i: int| 0 <= i < ts.len()
        && (#[trigger] ts[i]).source == c.path && ts[i].kind == crate::domain::FileOperationKind::Subtitle
        && ts[i].role == Some(crate::domain::SubtitleRole::Secondary) && ts[i].language == Some(c.language)
        && ts[i].episode_key == m.episode_key
}

proof fn lemma_covers_concat(a: Seq<crate::organizer::TargetV>, b: Seq<crate::organizer::TargetV>, m: crate::domain::EpisodeMatchV)
    requires
        covers_match(a, m) || covers_match(b, m),
    ensures
        covers_match(a + b, m),
{
    let ab = a + b;
    if covers_match(a, m) {
        if m.video is Some {
            let i = choose|i: int| 0 <= i < a.len() && (#[trigger] a[i]).source == m.video.unwrap().path
                && a[i].kind == crate::domain::FileOperationKind::Video && a[i].episode_key == m.episode_key;
            assert(ab[i] == a[i]);
        }
        if m.primary_subtitle is Some {
            let c = m.primary_subtitle.unwrap();
            let i = choose|i: int| 0 <= i < a.len() && (#[trigger] a[i]).source == c.path
                && a[i].kind == crate::domain::FileOperationKind::Subtitle
                && a[i].role == Some(crate::domain::SubtitleRole::Primary) && a[i].language == Some(c.language)
                && a[i].episode_key == m.episode_key;
            assert(ab[i] == a[i]);
        }
        if m.secondary_subtitle is Some {
            let c = m.secondary_subtitle.unwrap();
            let i = choose|i: int| 0 <= i < a.len() && (#[trigger] a[i]).source == c.path
                && a[i].kind == crate::domain::FileOperationKind::Subtitle
                && a[i].role == Some(crate::domain::SubtitleRole::Secondary) && a[i].language == Some(c.language)
                && a[i].episode_key == m.episode_key;
            assert(ab[i] == a[i]);
        }
    } else {
        if m.video is Some {
            let i = choose|i: int| 0 <= i < b.len() && (#[trigger] b[i]).source == m.video.unwrap().path
                && b[i].kind == crate::domain::FileOperationKind::Video && b[i].episode_key == m.episode_key;
            assert(ab[a.len() + i] == b[i]);
        }
        if m.primary_subtitle is Some {
            let c = m.primary_subtitle.unwrap();
            let i = choose|i: int| 0 <= i < b.len() && (#[trigger] b[i]).source == c.path
                && b[i].kind == crate::domain::FileOperationKind::Subtitle
                && b[i].role == Some(crate::domain::SubtitleRole::Primary) && b[i].language == Some(c.language)
                && b[i].episode_key == m.episode_key;
            assert(ab[a.len() + i] == b[i]);
        }
        if m.secondary_subtitle is Some {
            let c = m.secondary_subtitle.unwrap();
            let i = choose|i: int| 0 <= i < b.len() && (#[trigger] b[i]).source == c.path
                && b[i].kind == crate::domain::FileOperationKind::Subtitle
                && b[i].role == Some(crate::domain::SubtitleRole::Secondary) && b[i].language == Some(c.language)
                && b[i].episode_key == m.episode_key;
            assert(ab[a.len() + i] == b[i]);
        }
    }
}

proof fn lemma_match_targets_cover(m: crate::domain::EpisodeMatchV, out: Seq<crate::path::ComponentV>, project_name: Seq<char>)
    ensures
        covers_match(crate::organizer::match_targets(m, out, project_name), m),
{
    let b = crate::organizer::match_targets(m, out, project_name);
    let vn = if m.video is Some { 1int } else { 0int };
    let pn = if m.primary_subtitle is Some { 1int } else { 0int };
    if m.video is Some {
        assert(b[0].source == m.video.unwrap().path);
    }
    if m.primary_subtitle is Some {
        assert(b[vn].source == m.primary_subtitle.unwrap().path);
    }
    if m.secondary_subtitle is Some {
        assert(b[vn + pn].source == m.secondary_subtitle.unwrap().path);
    }
}

proof fn lemma_all_targets_cover(ms: Seq<crate::domain::EpisodeMatchV>, out: Seq<crate::path::ComponentV>, project_name: Seq<char>)
    ensures
        forall|k: int| 0 <= k < ms.len() ==> covers_match(crate::organizer::all_targets(ms, out, project_name), #[trigger] ms[k]),
    decreases ms.len(),
{
    if ms.len() > 0 {
        let init = ms.drop_last();
        lemma_all_targets_cover(init, out, project_name);
        let a = crate::organizer::all_targets(init, out, project_name);
        let b = crate::organizer::match_targets(ms.last(), out, project_name);
        assert(crate::organizer::all_targets(ms, out, project_name) == a + b);
        assert forall|k: int| 0 <= k < ms.len() implies covers_match(crate::organizer::all_targets(ms, out, project_name), #[trigger] ms[k]) by {
            if k < init.len() {
                assert(ms[k] == init[k]);
                lemma_covers_concat(a, b, ms[k]);
            } else {
                lemma_match_targets_cover(ms.last(), out, project_name);
                lemma_covers_concat(a, b, ms[k]);
            }
        }
    }
}

/// Organizing moves every chosen file: for each episode, its video and its
/// primary and secondary subtitles (where it has them) each have a planned
/// operation from that file, of the right kind and role, for that episode.
pub proof fn law_plan_moves_every_chosen_file(
    ms: Seq<crate::domain::EpisodeMatchV>,
    out: Seq<crate::path::ComponentV>,
    project_name: Seq<char>,
    existing: Seq<MediaPath>,
)
    ensures
        ({
            let items = crate::organizer::plan_items_spec(crate::organizer::all_targets(ms, out, project_name), existing);
            forall|k: int| 0 <= k < ms.len() ==> {
                &&& (#[trigger] ms[k]).video matches Some(v) ==> exists|i: int| 0 <= i < items.len()
                    && items[i].source == v.path && items[i].kind == crate::domain::FileOperationKind::Video
                    && items[i].episode_key == ms[k].episode_key
                &&& ms[k].primary_subtitle matches Some(c) ==> exists|i: int| 0 <= i < items.len()
                    && items[i].source == c.path && items[i].kind == crate::domain::FileOperationKind::Subtitle
                    && items[i].role == Some(crate::domain::SubtitleRole::Primary) && items[i].language == Some(c.language)
                    && items[i].episode_key == ms[k].episode_key
                &&& ms[k].secondary_subtitle matches Some(c) ==> exists|i: int| 0 <= i < items.len()
                    && items[i].source == c.path && items[i].kind == crate::domain::FileOperationKind::Subtitle
                    && items[i].role == Some(crate::domain::SubtitleRole::Secondary) && items[i].language == Some(c.language)
                    && items[i].episode_key == ms[k].episode_key
            }
        }),
{
    let all = crate::organizer::all_targets(ms, out, project_name);
    let items = crate::organizer::plan_items_spec(all, existing);
    lemma_all_targets_cover(ms, out, project_name);
    assert forall|k: int| 0 <= k < ms.len() implies {
        &&& (#[trigger] ms[k]).video matches Some(v) ==> exists|i: int| 0 <= i < items.len()
            && items[i].source == v.path && items[i].kind == crate::domain::FileOperationKind::Video
            && items[i].episode_key == ms[k].episode_key
        &&& ms[k].primary_subtitle matches Some(c) ==> exists|i: int| 0 <= i < items.len()
            && items[i].source == c.path && items[i].kind == crate::domain::FileOperationKind::Subtitle
            && items[i].role == Some(crate::domain::SubtitleRole::Primary) && items[i].language == Some(c.language)
            && items[i].episode_key == ms[k].episode_key
        &&& ms[k].secondary_subtitle matches Some(c) ==> exists|i: int| 0 <= i < items.len()
            && items[i].source == c.path && items[i].kind == crate::domain::FileOperationKind::Subtitle
            && items[i].role == Some(crate::domain::SubtitleRole::Secondary) && items[i].language == Some(c.language)
            && items[i].episode_key == ms[k].episode_key
    } by {
        let m = ms[k];
        assert(covers_match(all, m));
        if m.video is Some {
            let i = choose|i: int| 0 <= i < all.len() && (#[trigger] all[i]).source == m.video.unwrap().path
                && all[i].kind == crate::domain::FileOperationKind::Video && all[i].episode_key == m.episode_key;
            assert(items[i] == crate::organizer::plan_item_spec(all[i], existing));
        }
        if m.primary_subtitle is Some {
            let c = m.primary_subtitle.unwrap();
            let i = choose|i: int| 0 <= i < all.len() && (#[trigger] all[i]).source == c.path
                && all[i].kind == crate::domain::FileOperationKind::Subtitle
                && all[i].role == Some(crate::domain::SubtitleRole::Primary) && all[i].language == Some(c.language)
                && all[i].episode_key == m.episode_key;
            assert(items[i] == crate::organizer::plan_item_spec(all[i], existing));
        }
        if m.secondary_subtitle is Some {
            let c = m.secondary_subtitle.unwrap();
            let i = choose|i: int| 0 <= i < all.len() && (#[trigger] all[i]).source == c.path
                && all[i].kind == crate::domain::FileOperationKind::Subtitle
                && all[i].role == Some(crate::domain::SubtitleRole::Secondary) && all[i].language == Some(c.language)
                && all[i].episode_key == m.episode_key;
            assert(items[i] == crate::organizer::plan_item_spec(all[i], existing));
        }
    }
}

/// Whether a lowercased extension is one a subtitle file has.
pub open spec fn subtitle_ext(e: Seq<char>) -> bool {
    e == "ass"@ || e == "ssa"@ || e == "srt"@ || e == "vtt"@
}

/// Whether a lowercased extension is one a video file has.
pub open spec fn video_ext(e: Seq<char>) -> bool {
    e == "mkv"@ || e == "mp4"@
}

proof fn lemma_scan_keeps_subtitles(dirs: Seq<Vec<crate::scanner::ListedFile>>)
    ensures
        forall|d: int, j: int| 0 <= d < dirs.len() && 0 <= j < dirs[d]@.len()
            && subtitle_ext(crate::scanner::extension_text((#[trigger] dirs[d]@[j]).path))
            ==> exists|i: int| 0 <= i < crate::scanner::all_subtitles(dirs).len()
                && crate::scanner::all_subtitles(dirs)[i].path == dirs[d]@[j].path@,
    decreases dirs.len(),
{
    if dirs.len() > 0 {
        let init = dirs.drop_last();
        lemma_scan_keeps_subtitles(init);
        let a = crate::scanner::all_subtitles(init);
        let files = dirs.last()@;
        let paths = crate::scanner::listed_paths(files);
        let sizes = crate::scanner::listed_sizes(files);
        let full = Seq::new(paths.len(), |i: int| crate::scanner::scanned_subtitle_spec(paths[i], sizes[i], batch_decision(paths, i)));
        let pred = |v: crate::domain::SubtitleFileV| crate::scanner::is_subtitle_extension(v.extension);
        let b = crate::scanner::directory_subtitles(files);
        let all = crate::scanner::all_subtitles(dirs);
        assert(b == full.filter(pred));
        assert(all == a + b);
        assert forall|d: int, j: int| 0 <= d < dirs.len() && 0 <= j < dirs[d]@.len()
            && subtitle_ext(crate::scanner::extension_text((#[trigger] dirs[d]@[j]).path))
            implies exists|i: int| 0 <= i < all.len() && all[i].path == dirs[d]@[j].path@ by {
            if d < init.len() {
                assert(dirs[d] == init[d]);
                let i = choose|i: int| 0 <= i < a.len() && a[i].path == init[d]@[j].path@;
                assert(all[i] == a[i]);
            } else {
                assert(full[j].path == files[j].path@);
                assert(full[j].extension == crate::scanner::extension_text(files[j].path));
                assert(pred(full[j]));
                full.lemma_filter_contains(pred, j);
                let i = choose|i: int| 0 <= i < b.len() && b[i] == full[j];
                assert(all[a.len() + i] == b[i]);
            }
        }
    }
}

proof fn lemma_scan_keeps_videos(dirs: Seq<Vec<crate::scanner::ListedFile>>)
    ensures
        forall|d: int, j: int| 0 <= d < dirs.len() && 0 <= j < dirs[d]@.len()
            && video_ext(crate::scanner::extension_text((#[trigger] dirs[d]@[j]).path))
            ==> exists|i: int| 0 <= i < crate::scanner::all_videos(dirs).len()
                && crate::scanner::all_videos(dirs)[i].path == dirs[d]@[j].path@,
    decreases dirs.len(),
{
    if dirs.len() > 0 {
        let init = dirs.drop_last();
        lemma_scan_keeps_videos(init);
        let a = crate::scanner::all_videos(init);
        let files = dirs.last()@;
        let paths = crate::scanner::listed_paths(files);
        let sizes = crate::scanner::listed_sizes(files);
        let full = Seq::new(paths.len(), |i: int| crate::scanner::scanned_video_spec(paths[i], sizes[i], batch_decision(paths, i)));
        let pred = |v: crate::domain::VideoV| crate::scanner::is_video_extension(v.extension);
        let b = crate::scanner::directory_videos(files);
        let all = crate::scanner::all_videos(dirs);
        assert(b == full.filter(pred));
        assert(all == a + b);
        assert forall|d: int, j: int| 0 <= d < dirs.len() && 0 <= j < dirs[d]@.len()
            && video_ext(crate::scanner::extension_text((#[trigger] dirs[d]@[j]).path))
            implies exists|i: int| 0 <= i < all.len() && all[i].path == dirs[d]@[j].path@ by {
            if d < init.len() {
                assert(dirs[d] == init[d]);
                let i = choose|i: int| 0 <= i < a.len() && a[i].path == init[d]@[j].path@;
                assert(all[i] == a[i]);
            } else {
                assert(full[j].path == files[j].path@);
                assert(full[j].extension == crate::scanner::extension_text(files[j].path));
                assert(pred(full[j]));
                full.lemma_filter_contains(pred, j);
                let i = choose|i: int| 0 <= i < b.len() && b[i] == full[j];
                assert(all[a.len() + i] == b[i]);
            }
        }
    }
}

/// A scan keeps exactly the media files it lists: every file of a subtitle
/// folder whose extension, lowercased, is `ass`, `ssa`, `srt` or `vtt` is a
/// scanned subtitle, every file of a video folder whose extension is `mkv`
/// or `mp4` is a scanned video, and no scanned file has another extension.
pub proof fn law_scan_keeps_media_files(
    video_dirs: Seq<Vec<crate::scanner::ListedFile>>,
    subtitle_dirs: Seq<Vec<crate::scanner::ListedFile>>,
)
    ensures
        forall|d: int, j: int| 0 <= d < subtitle_dirs.len() && 0 <= j < subtitle_dirs[d]@.len()
            && subtitle_ext(crate::scanner::extension_text((#[trigger] subtitle_dirs[d]@[j]).path))
            ==> exists|i: int| 0 <= i < crate::scanner::all_subtitles(subtitle_dirs).len()
                && crate::scanner::all_subtitles(subtitle_dirs)[i].path == subtitle_dirs[d]@[j].path@,
        forall|d: int, j: int| 0 <= d < video_dirs.len() && 0 <= j < video_dirs[d]@.len()
            && video_ext(crate::scanner::extension_text((#[trigger] video_dirs[d]@[j]).path))
            ==> exists|i: int| 0 <= i < crate::scanner::all_videos(video_dirs).len()
                && crate::scanner::all_videos(video_dirs)[i].path == video_dirs[d]@[j].path@,
        forall|i: int| 0 <= i < crate::scanner::all_subtitles(subtitle_dirs).len()
            ==> subtitle_ext((#[trigger] crate::scanner::all_subtitles(subtitle_dirs)[i]).extension),
        forall|i: int| 0 <= i < crate::scanner::all_videos(video_dirs).len()
            ==> video_ext((#[trigger] crate::scanner::all_videos(video_dirs)[i]).extension),
{
    law_scanned_files_have_media_extensions(video_dirs, subtitle_dirs);
    lemma_scan_keeps_subtitles(subtitle_dirs);
    lemma_scan_keeps_videos(video_dirs);
}

} // verus!
