//! Episode slots inferred from a cohort of similarly named files: the number
//! positions whose values vary across the cohort.

use vstd::prelude::*;
use crate::domain::{ParseSlotLabel, ParseCandidateSource};
use crate::sort::{stable_sort, sort_by};
use crate::text::{words_contain, chars_to_string, push_lit, push_chars, decimal, decimal_chars, to_vec, str_chars};
use crate::tokens::{Token, TokenV, token_seq_view};
use crate::slots::{
    classify_number_slot_spec, classify_number_slot, slot_context_key_spec, slot_context_key,
    is_plausible_episode_spec, is_plausible_episode_u32, is_episode_marker_context_spec,
    is_episode_marker_context, has_separator_context_spec, has_separator_context, quality_words,
    known_quality_or_source,
};

verus! {

broadcast use crate::text::lemma_chars_deep_view;

/// One file of a cohort: its stem tokens, its season and whether it is special content.
pub struct CohortPath {
    pub tokens: Vec<Token>,
    pub season: u16,
    pub special: bool,
}

pub struct CohortV {
    pub tokens: Seq<TokenV>,
    pub season: u16,
    pub special: bool,
}

impl View for CohortPath {
    type V = CohortV;

    open spec fn view(&self) -> CohortV {
        CohortV { tokens: token_seq_view(self.tokens@), season: self.season, special: self.special }
    }
}

pub open spec fn cohort_views(s: Seq<CohortPath>) -> Seq<CohortV> {
    Seq::new(s.len(), |i: int| s[i]@)
}

/// The evidence for a slot.
#[derive(Debug, Clone)]
pub struct ParseEvidence {
    pub source: ParseCandidateSource,
    pub label: ParseSlotLabel,
    pub confidence: u8,
    pub note: String,
}

/// A token position that the cohort's names fill with varying numbers.
#[derive(Debug, Clone)]
pub struct TemplateSlot {
    pub token_index: usize,
    pub label: ParseSlotLabel,
    pub confidence: u8,
    pub evidence: ParseEvidence,
}

/// The slots inferred for a cohort, with the confidence of the best one.
#[derive(Debug, Clone)]
pub struct TemplatePattern {
    pub slots: Vec<TemplateSlot>,
    pub confidence: u8,
    pub notes: Vec<String>,
}

pub struct SlotV {
    pub token_index: usize,
    pub label: ParseSlotLabel,
    pub confidence: u8,
    pub source: ParseCandidateSource,
    pub evidence_label: ParseSlotLabel,
    pub evidence_confidence: u8,
    pub note: Seq<char>,
}

pub struct TemplateV {
    pub slots: Seq<SlotV>,
    pub confidence: u8,
    pub notes: Seq<Seq<char>>,
}

impl View for TemplateSlot {
    type V = SlotV;

    open spec fn view(&self) -> SlotV {
        SlotV {
            token_index: self.token_index,
            label: self.label,
            confidence: self.confidence,
            source: self.evidence.source,
            evidence_label: self.evidence.label,
            evidence_confidence: self.evidence.confidence,
            note: self.evidence.note@,
        }
    }
}

impl DeepView for TemplateSlot {
    type V = SlotV;

    open spec fn deep_view(&self) -> SlotV {
        self.view()
    }
}

impl DeepView for TemplatePattern {
    type V = TemplateV;

    open spec fn deep_view(&self) -> TemplateV {
        TemplateV { slots: self.slots.deep_view(), confidence: self.confidence, notes: self.notes.deep_view() }
    }
}

/// A number token that may fill a slot: its file, its position, its value and its context key.
pub struct Occurrence {
    pub path_index: usize,
    pub token_index: usize,
    pub value: u32,
    pub key: Vec<char>,
}

pub struct OccV {
    pub path_index: usize,
    pub token_index: usize,
    pub value: u32,
    pub key: Seq<char>,
}

impl View for Occurrence {
    type V = OccV;

    open spec fn view(&self) -> OccV {
        OccV { path_index: self.path_index, token_index: self.token_index, value: self.value, key: self.key@ }
    }
}

pub open spec fn occ_views(s: Seq<Occurrence>) -> Seq<OccV> {
    Seq::new(s.len(), |i: int| s[i]@)
}

/// Labels whose numbers never fill an episode-like slot.
pub open spec fn excluded_label(l: ParseSlotLabel) -> bool {
    l == ParseSlotLabel::Noise || l == ParseSlotLabel::Hash || l == ParseSlotLabel::Resolution
        || l == ParseSlotLabel::Codec || l == ParseSlotLabel::Version || l == ParseSlotLabel::Language
        || l == ParseSlotLabel::Source
}

/// The occurrences among the first `t` tokens of file `p`.
pub open spec fn token_occurrences(ts: Seq<TokenV>, p: int, t: int) -> Seq<OccV>
    decreases t,
{
    if t <= 0 || t > ts.len() {
        Seq::empty()
    } else {
        let rest = token_occurrences(ts, p, t - 1);
        let k = t - 1;
        match ts[k].number {
            Some(n) => if excluded_label(classify_number_slot_spec(ts, k)) {
                rest
            } else {
                rest.push(OccV { path_index: p as usize, token_index: k as usize, value: n.value, key: slot_context_key_spec(ts, k) })
            },
            None => rest,
        }
    }
}

/// The occurrences of the first `n` files, special files left out.
pub open spec fn all_occurrences(paths: Seq<CohortV>, n: int) -> Seq<OccV>
    decreases n,
{
    if n <= 0 || n > paths.len() {
        Seq::empty()
    } else {
        let rest = all_occurrences(paths, n - 1);
        if paths[n - 1].special {
            rest
        } else {
            rest + token_occurrences(paths[n - 1].tokens, n - 1, paths[n - 1].tokens.len() as int)
        }
    }
}

/// The context keys in order of first appearance.
pub open spec fn first_keys(s: Seq<OccV>) -> Seq<Seq<char>>
    decreases s.len(),
{
    if s.len() == 0 {
        Seq::empty()
    } else {
        let d = first_keys(s.drop_last());
        if d.contains(s.last().key) {
            d
        } else {
            d.push(s.last().key)
        }
    }
}

/// The occurrences with context key `k`, in order.
pub open spec fn occ_with_key(s: Seq<OccV>, k: Seq<char>) -> Seq<OccV>
    decreases s.len(),
{
    if s.len() == 0 {
        s
    } else {
        let r = occ_with_key(s.drop_last(), k);
        if s.last().key == k {
            r.push(s.last())
        } else {
            r
        }
    }
}

/// Lexicographic order on texts (std's `String` order).
pub open spec fn seq_lt(a: Seq<char>, b: Seq<char>) -> bool
    decreases a.len(),
{
    if a.len() == 0 {
        b.len() > 0
    } else if b.len() == 0 {
        false
    } else if a[0] < b[0] {
        true
    } else if a[0] == b[0] {
        seq_lt(a.drop_first(), b.drop_first())
    } else {
        false
    }
}

pub struct GroupV {
    pub key: Seq<char>,
    pub occs: Seq<OccV>,
}

/// The occurrences grouped by context key, groups in key order.
pub open spec fn groups_spec(occ: Seq<OccV>) -> Seq<GroupV> {
    let keys = first_keys(occ);
    stable_sort(Seq::new(keys.len(), |i: int| GroupV { key: keys[i], occs: occ_with_key(occ, keys[i]) }),
        |a: GroupV, b: GroupV| seq_lt(a.key, b.key))
}

/// The number of distinct elements of a sequence.
pub open spec fn distinct_count<T>(s: Seq<T>) -> nat
    decreases s.len(),
{
    if s.len() == 0 {
        0
    } else if s.drop_last().contains(s.last()) {
        distinct_count(s.drop_last())
    } else {
        distinct_count(s.drop_last()) + 1
    }
}

pub open spec fn occ_paths(g: Seq<OccV>) -> Seq<usize> {
    Seq::new(g.len(), |i: int| g[i].path_index)
}

pub open spec fn occ_values(g: Seq<OccV>) -> Seq<u32> {
    Seq::new(g.len(), |i: int| g[i].value)
}

/// The smallest token index of a group.
pub open spec fn min_token_index(g: Seq<OccV>) -> usize
    decreases g.len(),
{
    if g.len() == 0 {
        0
    } else if g.len() == 1 {
        g[0].token_index
    } else {
        let m = min_token_index(g.drop_last());
        if g.last().token_index < m { g.last().token_index } else { m }
    }
}

/// Every value except the largest has a larger one at most 20 above it: the
/// distinct values, sorted, step by at most 20.
pub open spec fn monotonic_with_gaps_spec(values: Seq<u32>) -> bool {
    forall|i: int| 0 <= i < values.len() ==> (has_larger(values, #[trigger] values[i]) ==> has_near_larger(values, values[i]))
}

pub open spec fn has_larger(values: Seq<u32>, v: u32) -> bool {
    exists|j: int| 0 <= j < values.len() && #[trigger] values[j] > v
}

pub open spec fn has_near_larger(values: Seq<u32>, v: u32) -> bool {
    exists|j: int| 0 <= j < values.len() && v < #[trigger] values[j] && values[j] <= v + 20
}

/// Every file has a quality or source word somewhere after token `index`.
pub open spec fn before_quality_tail_spec(paths: Seq<CohortV>, index: int) -> bool {
    forall|p: int| 0 <= p < paths.len() ==> has_quality_after((#[trigger] paths[p]).tokens, index)
}

/// A quality or source word stands somewhere after token `index`.
pub open spec fn has_quality_after(tokens: Seq<TokenV>, index: int) -> bool {
    exists|k: int| index + 1 <= k < tokens.len() && words_contain(quality_words(), #[trigger] tokens[k].lower)
}

pub open spec fn non_special_count(paths: Seq<CohortV>) -> nat
    decreases paths.len(),
{
    if paths.len() == 0 {
        0
    } else {
        non_special_count(paths.drop_last()) + if paths.last().special { 0nat } else { 1nat }
    }
}

pub open spec fn sat_add(a: u8, b: u8) -> u8 {
    if a + b > 255 { 255 } else { (a + b) as u8 }
}

pub open spec fn sat_sub(a: u8, b: u8) -> u8 {
    if a >= b { (a - b) as u8 } else { 0 }
}

pub open spec fn slot_note() -> Seq<char> {
    "同组文件模板归纳出变化数字槽。"@
}

/// The confidence of a slot before capping.
pub open spec fn slot_confidence(paths: Seq<CohortV>, g: Seq<OccV>, token_index: usize, sample: Seq<TokenV>) -> u8 {
    let c0: u8 = 45;
    let c1 = if monotonic_with_gaps_spec(occ_values(g)) { sat_add(c0, 15) } else { c0 };
    let c2 = if is_episode_marker_context_spec(sample, token_index as int) { sat_add(c1, 25) } else { c1 };
    let c3 = if has_separator_context_spec(sample, token_index as int) { sat_add(c2, 8) } else { c2 };
    let c4 = if before_quality_tail_spec(paths, token_index as int) { sat_add(c3, 8) } else { c3 };
    if distinct_count(occ_paths(g)) < non_special_count(paths) { sat_sub(c4, 8) } else { c4 }
}

/// The slot a group makes, if it covers two files with two different
/// plausible episode values.
pub open spec fn slot_of_group(paths: Seq<CohortV>, g: Seq<OccV>) -> Option<SlotV> {
    if distinct_count(occ_paths(g)) < 2 || distinct_count(occ_values(g)) < 2
        || exists|i: int| 0 <= i < g.len() && !is_plausible_episode_spec(#[trigger] g[i].value) {
        None
    } else {
        let token_index = min_token_index(g);
        let sample = paths[g[0].path_index as int].tokens;
        let label = classify_number_slot_spec(sample, token_index as int);
        let c = slot_confidence(paths, g, token_index, sample);
        let capped: u8 = if c < 92 { c } else { 92 };
        Some(SlotV {
            token_index,
            label,
            confidence: capped,
            source: ParseCandidateSource::Template,
            evidence_label: label,
            evidence_confidence: capped,
            note: slot_note(),
        })
    }
}

/// The slots of the groups, in group order.
pub open spec fn slots_of_groups(paths: Seq<CohortV>, gs: Seq<GroupV>) -> Seq<SlotV>
    decreases gs.len(),
{
    if gs.len() == 0 {
        Seq::empty()
    } else {
        slots_of_groups(paths, gs.drop_last()) + match slot_of_group(paths, gs.last().occs) {
            Some(s) => seq![s],
            None => Seq::empty(),
        }
    }
}

/// Slots are ranked by confidence (highest first), then by position.
pub open spec fn slot_before(a: SlotV, b: SlotV) -> bool {
    a.confidence > b.confidence || (a.confidence == b.confidence && a.token_index < b.token_index)
}

pub open spec fn ranked_slots(paths: Seq<CohortV>) -> Seq<SlotV> {
    stable_sort(slots_of_groups(paths, groups_spec(all_occurrences(paths, paths.len() as int))),
        |a: SlotV, b: SlotV| slot_before(a, b))
}

pub open spec fn close_slots_note() -> Seq<char> {
    "同组文件存在多个接近的变化数字槽，保持待确认。"@
}

pub open spec fn template_note(c: u8) -> Seq<char> {
    "模板置信度 "@ + decimal(c as nat) + "。"@
}

/// The template of a cohort: no template without slots; every slot when a
/// second one comes within 8 of the best; else the best slot alone.
pub open spec fn infer_template_spec(paths: Seq<CohortV>) -> Option<TemplateV> {
    let slots = ranked_slots(paths);
    if slots.len() == 0 {
        None
    } else {
        let best = slots[0];
        if exists|i: int| 1 <= i < slots.len() && sat_sub(best.confidence, (#[trigger] slots[i]).confidence) < 8 {
            Some(TemplateV { slots, confidence: best.confidence, notes: seq![close_slots_note()] })
        } else {
            Some(TemplateV { slots: seq![best], confidence: best.confidence, notes: seq![template_note(best.confidence)] })
        }
    }
}

pub struct Group {
    pub key: Vec<char>,
    pub occs: Vec<Occurrence>,
}

impl View for Group {
    type V = GroupV;

    open spec fn view(&self) -> GroupV {
        GroupV { key: self.key@, occs: occ_views(self.occs@) }
    }
}

pub open spec fn group_views(s: Seq<Group>) -> Seq<GroupV> {
    Seq::new(s.len(), |i: int| s[i]@)
}

pub open spec fn slot_views(s: Seq<TemplateSlot>) -> Seq<SlotV> {
    Seq::new(s.len(), |i: int| s[i]@)
}

proof fn lemma_token_occurrences_bounds(ts: Seq<TokenV>, p: int, t: int)
    requires
        0 <= p <= usize::MAX,
    ensures
        forall|i: int| 0 <= i < token_occurrences(ts, p, t).len() ==> (#[trigger] token_occurrences(ts, p, t)[i]).path_index == p,
    decreases t,
{
    if t > 0 && t <= ts.len() {
        lemma_token_occurrences_bounds(ts, p, t - 1);
        let rest = token_occurrences(ts, p, t - 1);
        let all = token_occurrences(ts, p, t);
        assert forall|i: int| 0 <= i < all.len() implies (#[trigger] all[i]).path_index == p by {
            if i < rest.len() {
                assert(all[i] == rest[i]);
            }
        }
    }
}

proof fn lemma_all_occurrences_bounds(paths: Seq<CohortV>, n: int, bound: usize)
    requires
        paths.len() == bound,
    ensures
        forall|i: int| 0 <= i < all_occurrences(paths, n).len() ==> (#[trigger] all_occurrences(paths, n)[i]).path_index < paths.len(),
    decreases n,
{
    if n > 0 && n <= paths.len() {
        lemma_all_occurrences_bounds(paths, n - 1, bound);
        if paths[n - 1].special {
            let rest = all_occurrences(paths, n - 1);
            assert(all_occurrences(paths, n) == rest);
        } else {
            let rest = all_occurrences(paths, n - 1);
            let mine = token_occurrences(paths[n - 1].tokens, n - 1, paths[n - 1].tokens.len() as int);
            lemma_token_occurrences_bounds(paths[n - 1].tokens, n - 1, paths[n - 1].tokens.len() as int);
            assert(all_occurrences(paths, n) == rest + mine);
            assert forall|i: int| 0 <= i < (rest + mine).len() implies (#[trigger] (rest + mine)[i]).path_index < paths.len() by {
                if i >= rest.len() {
                    assert((rest + mine)[i] == mine[i - rest.len()]);
                }
            }
        }
    }
}

proof fn lemma_occ_with_key_subset(s: Seq<OccV>, k: Seq<char>, bound: int)
    requires
        forall|i: int| 0 <= i < s.len() ==> (#[trigger] s[i]).path_index < bound,
    ensures
        forall|i: int| 0 <= i < occ_with_key(s, k).len() ==> (#[trigger] occ_with_key(s, k)[i]).path_index < bound,
    decreases s.len(),
{
    if s.len() > 0 {
        assert forall|i: int| 0 <= i < s.drop_last().len() implies (#[trigger] s.drop_last()[i]).path_index < bound by {
            assert(s.drop_last()[i] == s[i]);
        }
        lemma_occ_with_key_subset(s.drop_last(), k, bound);
        let rest = occ_with_key(s.drop_last(), k);
        let all = occ_with_key(s, k);
        assert(s.last() == s[s.len() - 1]);
        assert forall|i: int| 0 <= i < all.len() implies (#[trigger] all[i]).path_index < bound by {
            if i < rest.len() {
                assert(all[i] == rest[i]);
            }
        }
    }
}

/// The occurrences of every non-special file of the cohort.
pub fn collect_occurrences(paths: &Vec<CohortPath>) -> (r: Vec<Occurrence>)
    ensures
        occ_views(r@) == all_occurrences(cohort_views(paths@), paths@.len() as int),
{
    let ghost cv = cohort_views(paths@);
    let mut out: Vec<Occurrence> = Vec::new();
    let mut p: usize = 0;
    while p < paths.len()
        invariant
            p <= paths@.len(),
            cv == cohort_views(paths@),
            occ_views(out@) =~= all_occurrences(cv, p as int),
        decreases paths@.len() - p,
    {
        let path = &paths[p];
        if !path.special {
            let ghost base = occ_views(out@);
            let ts = &path.tokens;
            let ghost tv = token_seq_view(ts@);
            assert(cv[p as int].tokens == tv);
            let mut t: usize = 0;
            while t < ts.len()
                invariant
                    t <= ts@.len(),
                    tv == token_seq_view(ts@),
                    occ_views(out@) =~= base + token_occurrences(tv, p as int, t as int),
                decreases ts@.len() - t,
            {
                let ghost before = occ_views(out@);
                match ts[t].number {
                    Some(n) => {
                        let label = classify_number_slot(ts.as_slice(), t);
                        let excluded = label == ParseSlotLabel::Noise || label == ParseSlotLabel::Hash
                            || label == ParseSlotLabel::Resolution || label == ParseSlotLabel::Codec
                            || label == ParseSlotLabel::Version || label == ParseSlotLabel::Language
                            || label == ParseSlotLabel::Source;
                        if !excluded {
                            let key = slot_context_key(ts.as_slice(), t);
                            out.push(Occurrence { path_index: p, token_index: t, value: n.value, key });
                            assert(occ_views(out@) =~= before.push(OccV { path_index: p, token_index: t, value: n.value, key: slot_context_key_spec(tv, t as int) }));
                        }
                    },
                    None => {},
                }
                t += 1;
            }
        }
        p += 1;
    }
    out
}

fn copy_occurrence(o: &Occurrence) -> (r: Occurrence)
    ensures
        r@ == o@,
{
    Occurrence { path_index: o.path_index, token_index: o.token_index, value: o.value, key: to_vec(o.key.as_slice()) }
}

/// The distinct context keys, in order of first appearance.
fn first_key_list(occ: &Vec<Occurrence>) -> (r: Vec<Vec<char>>)
    ensures
        r.deep_view() == first_keys(occ_views(occ@)),
{
    let ghost ov = occ_views(occ@);
    let mut out: Vec<Vec<char>> = Vec::new();
    let mut i: usize = 0;
    while i < occ.len()
        invariant
            i <= occ@.len(),
            ov == occ_views(occ@),
            out.deep_view() =~= first_keys(ov.subrange(0, i as int)),
        decreases occ@.len() - i,
    {
        let key = &occ[i].key;
        let mut seen = false;
        let mut j: usize = 0;
        while j < out.len()
            invariant
                j <= out@.len(),
                seen == exists|k: int| 0 <= k < j && out@[k]@ == key@,
            decreases out@.len() - j,
        {
            if crate::text::eq_chars(out[j].as_slice(), key.as_slice()) {
                seen = true;
            }
            j += 1;
        }
        proof {
            let pre = ov.subrange(0, i + 1);
            assert(pre.drop_last() =~= ov.subrange(0, i as int));
            assert(pre.last().key == key@);
            let d = first_keys(ov.subrange(0, i as int));
            assert(seen == d.contains(key@)) by {
                if seen {
                    let k = choose|k: int| 0 <= k < out@.len() && out@[k]@ == key@;
                    assert(d[k] == key@);
                }
                if d.contains(key@) {
                    let k = choose|k: int| 0 <= k < d.len() && d[k] == key@;
                    assert(out@[k]@ == key@);
                }
            }
        }
        let ghost before = out.deep_view();
        if !seen {
            out.push(to_vec(key.as_slice()));
            assert(out.deep_view() =~= before.push(key@));
        }
        i += 1;
    }
    assert(ov.subrange(0, occ@.len() as int) =~= ov);
    out
}

/// The occurrences with context key `key`, in order.
fn occurrences_with_key(occ: &Vec<Occurrence>, key: &Vec<char>) -> (r: Vec<Occurrence>)
    ensures
        occ_views(r@) == occ_with_key(occ_views(occ@), key@),
{
    let ghost ov = occ_views(occ@);
    let mut out: Vec<Occurrence> = Vec::new();
    let mut i: usize = 0;
    while i < occ.len()
        invariant
            i <= occ@.len(),
            ov == occ_views(occ@),
            occ_views(out@) =~= occ_with_key(ov.subrange(0, i as int), key@),
        decreases occ@.len() - i,
    {
        proof {
            let pre = ov.subrange(0, i + 1);
            assert(pre.drop_last() =~= ov.subrange(0, i as int));
            assert(pre.last() == occ@[i as int]@);
        }
        if crate::text::eq_chars(occ[i].key.as_slice(), key.as_slice()) {
            out.push(copy_occurrence(&occ[i]));
        }
        i += 1;
    }
    assert(ov.subrange(0, occ@.len() as int) =~= ov);
    out
}

proof fn lemma_seq_lt_step(a: Seq<char>, b: Seq<char>, i: int)
    requires
        0 <= i < a.len(),
        i < b.len(),
        a[i] == b[i],
    ensures
        seq_lt(a.subrange(i, a.len() as int), b.subrange(i, b.len() as int))
            == seq_lt(a.subrange(i + 1, a.len() as int), b.subrange(i + 1, b.len() as int)),
{
    assert(a.subrange(i, a.len() as int).drop_first() =~= a.subrange(i + 1, a.len() as int));
    assert(b.subrange(i, b.len() as int).drop_first() =~= b.subrange(i + 1, b.len() as int));
}

/// Lexicographic comparison of texts.
pub fn lex_lt(a: &[char], b: &[char]) -> (r: bool)
    ensures
        r == seq_lt(a@, b@),
{
    let mut i: usize = 0;
    assert(a@.subrange(0, a@.len() as int) =~= a@);
    assert(b@.subrange(0, b@.len() as int) =~= b@);
    loop
        invariant
            i <= a@.len(),
            i <= b@.len(),
            seq_lt(a@, b@) == seq_lt(a@.subrange(i as int, a@.len() as int), b@.subrange(i as int, b@.len() as int)),
        decreases a@.len() - i,
    {
        if i == a.len() {
            return i < b.len();
        }
        if i == b.len() {
            return false;
        }
        if a[i] < b[i] {
            return true;
        }
        if a[i] > b[i] {
            return false;
        }
        proof {
            lemma_seq_lt_step(a@, b@, i as int);
        }
        i += 1;
    }
}

/// The occurrences grouped by context key, groups in key order.
pub fn group_occurrences(occ: &Vec<Occurrence>) -> (r: Vec<Group>)
    ensures
        group_views(r@) == groups_spec(occ_views(occ@)),
{
    let keys = first_key_list(occ);
    let ghost kv = keys.deep_view();
    let ghost ov = occ_views(occ@);
    let mut groups: Vec<Group> = Vec::new();
    let mut i: usize = 0;
    while i < keys.len()
        invariant
            i <= keys@.len(),
            kv == keys.deep_view(),
            ov == occ_views(occ@),
            group_views(groups@) =~= Seq::new(i as nat, |j: int| GroupV { key: kv[j], occs: occ_with_key(ov, kv[j]) }),
        decreases keys@.len() - i,
    {
        let occs = occurrences_with_key(occ, &keys[i]);
        let ghost before = group_views(groups@);
        assert(kv[i as int] == keys@[i as int]@);
        groups.push(Group { key: to_vec(keys[i].as_slice()), occs });
        assert(group_views(groups@) =~= before.push(GroupV { key: kv[i as int], occs: occ_with_key(ov, kv[i as int]) }));
        i += 1;
    }
    let ghost unsorted = groups@;
    let before = |a: &Group, b: &Group| -> (o: bool)
        ensures
            o == seq_lt(a.key@, b.key@),
        { lex_lt(a.key.as_slice(), b.key.as_slice()) };
    let ghost ba = |a: Group, b: Group| seq_lt(a.key@, b.key@);
    let sorted = sort_by(groups, before, Ghost(ba));
    proof {
        let f = |g: Group| g@;
        let bb = |a: GroupV, b: GroupV| seq_lt(a.key, b.key);
        crate::sort::lemma_stable_sort_map(unsorted, f, ba, bb);
        assert(unsorted.map_values(f) =~= group_views(unsorted));
        assert(sorted@.map_values(f) =~= group_views(sorted@));
    }
    sorted
}

fn distinct_count_usize(s: &Vec<usize>) -> (r: usize)
    ensures
        r as nat == distinct_count(s@),
{
    let mut count: usize = 0;
    let mut i: usize = 0;
    while i < s.len()
        invariant
            i <= s@.len(),
            count <= i,
            count as nat == distinct_count(s@.subrange(0, i as int)),
        decreases s@.len() - i,
    {
        let mut seen = false;
        let mut j: usize = 0;
        while j < i
            invariant
                j <= i < s@.len(),
                seen == exists|k: int| 0 <= k < j && s@[k] == s@[i as int],
            decreases i - j,
        {
            if s[j] == s[i] {
                seen = true;
            }
            j += 1;
        }
        proof {
            let pre = s@.subrange(0, i + 1);
            assert(pre.drop_last() =~= s@.subrange(0, i as int));
            assert(seen == pre.drop_last().contains(pre.last())) by {
                if seen {
                    let k = choose|k: int| 0 <= k < j && s@[k] == s@[i as int];
                    assert(pre.drop_last()[k] == pre.last());
                }
            }
        }
        if !seen {
            count += 1;
        }
        i += 1;
    }
    assert(s@.subrange(0, s@.len() as int) =~= s@);
    count
}

fn distinct_count_u32(s: &Vec<u32>) -> (r: usize)
    ensures
        r as nat == distinct_count(s@),
{
    let mut count: usize = 0;
    let mut i: usize = 0;
    while i < s.len()
        invariant
            i <= s@.len(),
            count <= i,
            count as nat == distinct_count(s@.subrange(0, i as int)),
        decreases s@.len() - i,
    {
        let mut seen = false;
        let mut j: usize = 0;
        while j < i
            invariant
                j <= i < s@.len(),
                seen == exists|k: int| 0 <= k < j && s@[k] == s@[i as int],
            decreases i - j,
        {
            if s[j] == s[i] {
                seen = true;
            }
            j += 1;
        }
        proof {
            let pre = s@.subrange(0, i + 1);
            assert(pre.drop_last() =~= s@.subrange(0, i as int));
            assert(seen == pre.drop_last().contains(pre.last())) by {
                if seen {
                    let k = choose|k: int| 0 <= k < j && s@[k] == s@[i as int];
                    assert(pre.drop_last()[k] == pre.last());
                }
            }
        }
        if !seen {
            count += 1;
        }
        i += 1;
    }
    assert(s@.subrange(0, s@.len() as int) =~= s@);
    count
}

/// Whether the distinct values, sorted, step by at most 20.
pub fn is_monotonic_with_gaps(values: &Vec<u32>) -> (r: bool)
    ensures
        r == monotonic_with_gaps_spec(values@),
{
    let mut i: usize = 0;
    while i < values.len()
        invariant
            i <= values@.len(),
            forall|k: int| 0 <= k < i ==> (has_larger(values@, #[trigger] values@[k]) ==> has_near_larger(values@, values@[k])),
        decreases values@.len() - i,
    {
        let v = values[i];
        let mut larger = false;
        let mut near = false;
        let mut j: usize = 0;
        while j < values.len()
            invariant
                j <= values@.len(),
                v == values@[i as int],
                larger == exists|k: int| 0 <= k < j && #[trigger] values@[k] > v,
                near == exists|k: int| 0 <= k < j && v < #[trigger] values@[k] && values@[k] <= v + 20,
            decreases values@.len() - j,
        {
            if values[j] > v {
                larger = true;
                if values[j] as u64 <= v as u64 + 20 {
                    near = true;
                }
            }
            j += 1;
        }
        if larger && !near {
            return false;
        }
        i += 1;
    }
    true
}

fn min_token_index_of(g: &Vec<Occurrence>) -> (r: usize)
    ensures
        r == min_token_index(occ_views(g@)),
{
    let ghost gv = occ_views(g@);
    if g.len() == 0 {
        return 0;
    }
    let mut m = g[0].token_index;
    let mut i: usize = 1;
    assert(gv.subrange(0, 1).len() == 1);
    while i < g.len()
        invariant
            1 <= i <= g@.len(),
            gv == occ_views(g@),
            m == min_token_index(gv.subrange(0, i as int)),
        decreases g@.len() - i,
    {
        proof {
            let pre = gv.subrange(0, i + 1);
            assert(pre.drop_last() =~= gv.subrange(0, i as int));
        }
        if g[i].token_index < m {
            m = g[i].token_index;
        }
        i += 1;
    }
    assert(gv.subrange(0, g@.len() as int) =~= gv);
    m
}

/// Whether every file has a quality or source word after token `index`.
pub fn appears_before_known_quality_tail(paths: &Vec<CohortPath>, index: usize) -> (r: bool)
    ensures
        r == before_quality_tail_spec(cohort_views(paths@), index as int),
{
    let ghost cv = cohort_views(paths@);
    let mut p: usize = 0;
    while p < paths.len()
        invariant
            p <= paths@.len(),
            cv == cohort_views(paths@),
            forall|q: int| 0 <= q < p ==> has_quality_after((#[trigger] cv[q]).tokens, index as int),
        decreases paths@.len() - p,
    {
        let ts = &paths[p].tokens;
        let ghost tv = token_seq_view(ts@);
        assert(cv[p as int].tokens == tv);
        let mut found = false;
        let mut k: usize = 0;
        while k < ts.len()
            invariant
                k <= ts@.len(),
                tv == token_seq_view(ts@),
                found == exists|j: int| index + 1 <= j < k && words_contain(quality_words(), #[trigger] tv[j].lower),
            decreases ts@.len() - k,
        {
            assert(tv[k as int].lower == ts@[k as int].lower@);
            if k > index && known_quality_or_source(ts[k].lower.as_slice()) {
                found = true;
            }
            k += 1;
        }
        if !found {
            assert(!has_quality_after(cv[p as int].tokens, index as int));
            return false;
        }
        assert(has_quality_after(cv[p as int].tokens, index as int));
        p += 1;
    }
    true
}

fn count_non_special(paths: &Vec<CohortPath>) -> (r: usize)
    ensures
        r as nat == non_special_count(cohort_views(paths@)),
{
    let ghost cv = cohort_views(paths@);
    let mut count: usize = 0;
    let mut i: usize = 0;
    while i < paths.len()
        invariant
            i <= paths@.len(),
            count <= i,
            cv == cohort_views(paths@),
            count as nat == non_special_count(cv.subrange(0, i as int)),
        decreases paths@.len() - i,
    {
        proof {
            assert(cv.subrange(0, i + 1).drop_last() =~= cv.subrange(0, i as int));
        }
        if !paths[i].special {
            count += 1;
        }
        i += 1;
    }
    assert(cv.subrange(0, paths@.len() as int) =~= cv);
    count
}

fn sat_add_u8(a: u8, b: u8) -> (r: u8)
    ensures
        r == sat_add(a, b),
{
    if a as u16 + b as u16 > 255 { 255 } else { a + b }
}

fn sat_sub_u8(a: u8, b: u8) -> (r: u8)
    ensures
        r == sat_sub(a, b),
{
    if a >= b { a - b } else { 0 }
}

/// The slot one group makes, if any.
fn slot_of(paths: &Vec<CohortPath>, g: &Vec<Occurrence>, non_special: usize) -> (r: Option<TemplateSlot>)
    requires
        non_special as nat == non_special_count(cohort_views(paths@)),
        forall|i: int| 0 <= i < g@.len() ==> (#[trigger] g@[i]).path_index < paths@.len(),
    ensures
        match r {
            Some(s) => slot_of_group(cohort_views(paths@), occ_views(g@)) == Some(s@),
            None => slot_of_group(cohort_views(paths@), occ_views(g@)) is None,
        },
{
    let ghost gv = occ_views(g@);
    let ghost cv = cohort_views(paths@);
    let mut path_ids: Vec<usize> = Vec::new();
    let mut values: Vec<u32> = Vec::new();
    let mut all_plausible = true;
    let mut i: usize = 0;
    while i < g.len()
        invariant
            i <= g@.len(),
            gv == occ_views(g@),
            path_ids@ =~= occ_paths(gv).subrange(0, i as int),
            values@ =~= occ_values(gv).subrange(0, i as int),
            all_plausible == forall|k: int| 0 <= k < i ==> is_plausible_episode_spec(#[trigger] gv[k].value),
        decreases g@.len() - i,
    {
        assert(gv[i as int].value == g@[i as int].value);
        path_ids.push(g[i].path_index);
        values.push(g[i].value);
        if !is_plausible_episode_u32(g[i].value) {
            all_plausible = false;
        }
        i += 1;
    }
    assert(path_ids@ =~= occ_paths(gv));
    assert(values@ =~= occ_values(gv));
    let covered = distinct_count_usize(&path_ids);
    let unique_values = distinct_count_u32(&values);
    if covered < 2 || unique_values < 2 || !all_plausible {
        return None;
    }
    assert(g@.len() > 0) by {
        if g@.len() == 0 {
            assert(occ_paths(gv) =~= Seq::<usize>::empty());
        }
    }
    let token_index = min_token_index_of(g);
    let sample = &paths[g[0].path_index].tokens;
    assert(cv[g@[0].path_index as int].tokens == token_seq_view(sample@));
    let label = classify_number_slot(sample.as_slice(), token_index);
    let mut confidence: u8 = 45;
    if is_monotonic_with_gaps(&values) {
        confidence = sat_add_u8(confidence, 15);
    }
    if is_episode_marker_context(sample.as_slice(), token_index) {
        confidence = sat_add_u8(confidence, 25);
    }
    if has_separator_context(sample.as_slice(), token_index) {
        confidence = sat_add_u8(confidence, 8);
    }
    if appears_before_known_quality_tail(paths, token_index) {
        confidence = sat_add_u8(confidence, 8);
    }
    if covered < non_special {
        confidence = sat_sub_u8(confidence, 8);
    }
    let capped: u8 = if confidence < 92 { confidence } else { 92 };
    let note = str_chars("同组文件模板归纳出变化数字槽。");
    let evidence = ParseEvidence {
        source: ParseCandidateSource::Template,
        label,
        confidence: capped,
        note: chars_to_string(note.as_slice()),
    };
    Some(TemplateSlot { token_index, label, confidence: capped, evidence })
}

fn copy_slot(s: &TemplateSlot) -> (r: TemplateSlot)
    ensures
        r@ == s@,
{
    TemplateSlot {
        token_index: s.token_index,
        label: s.label,
        confidence: s.confidence,
        evidence: ParseEvidence {
            source: s.evidence.source,
            label: s.evidence.label,
            confidence: s.evidence.confidence,
            note: s.evidence.note.clone(),
        },
    }
}

/// The slots of a cohort, ranked.
fn ranked_template_slots(paths: &Vec<CohortPath>) -> (r: Vec<TemplateSlot>)
    ensures
        slot_views(r@) == ranked_slots(cohort_views(paths@)),
{
    let ghost cv = cohort_views(paths@);
    let occ = collect_occurrences(paths);
    let groups = group_occurrences(&occ);
    let ghost gs = group_views(groups@);
    let non_special = count_non_special(paths);
    let npaths = paths.len();
    proof {
        assert(cv.len() == npaths);
        lemma_all_occurrences_bounds(cv, cv.len() as int, npaths);
    }
    let mut slots: Vec<TemplateSlot> = Vec::new();
    let mut i: usize = 0;
    while i < groups.len()
        invariant
            i <= groups@.len(),
            cv == cohort_views(paths@),
            gs == group_views(groups@),
            gs == groups_spec(all_occurrences(cv, cv.len() as int)),
            non_special as nat == non_special_count(cv),
            forall|k: int| 0 <= k < all_occurrences(cv, cv.len() as int).len()
                ==> (#[trigger] all_occurrences(cv, cv.len() as int)[k]).path_index < cv.len(),
            slot_views(slots@) =~= slots_of_groups(cv, gs.subrange(0, i as int)),
        decreases groups@.len() - i,
    {
        let g = &groups[i].occs;
        proof {
            assert(gs.subrange(0, i + 1).drop_last() =~= gs.subrange(0, i as int));
            assert(gs[i as int].occs == occ_views(g@));
            // Each group is one key's occurrences, so its files are in the cohort.
            let occ_all = all_occurrences(cv, cv.len() as int);
            let keys = first_keys(occ_all);
            let unsorted = Seq::new(keys.len(), |j: int| GroupV { key: keys[j], occs: occ_with_key(occ_all, keys[j]) });
            crate::sort::lemma_stable_sort_elements(unsorted, |a: GroupV, b: GroupV| seq_lt(a.key, b.key));
            assert(unsorted.contains(gs[i as int]));
            let j = choose|j: int| 0 <= j < unsorted.len() && unsorted[j] == gs[i as int];
            lemma_occ_with_key_subset(occ_all, keys[j], cv.len() as int);
            assert forall|k: int| 0 <= k < g@.len() implies (#[trigger] g@[k]).path_index < paths@.len() by {
                assert(occ_views(g@)[k] == g@[k]@);
            }
        }
        match slot_of(paths, g, non_special) {
            Some(s) => slots.push(s),
            None => {},
        }
        i += 1;
    }
    assert(gs.subrange(0, gs.len() as int) =~= gs);
    let ghost unsorted = slots@;
    let before = |a: &TemplateSlot, b: &TemplateSlot| -> (o: bool)
        ensures
            o == slot_before(a@, b@),
        { a.confidence > b.confidence || (a.confidence == b.confidence && a.token_index < b.token_index) };
    let ghost ba = |a: TemplateSlot, b: TemplateSlot| slot_before(a@, b@);
    let sorted = sort_by(slots, before, Ghost(ba));
    proof {
        let f = |s: TemplateSlot| s@;
        let bb = |a: SlotV, b: SlotV| slot_before(a, b);
        crate::sort::lemma_stable_sort_map(unsorted, f, ba, bb);
        assert(unsorted.map_values(f) =~= slot_views(unsorted));
        assert(sorted@.map_values(f) =~= slot_views(sorted@));
    }
    sorted
}

/// Infers the episode-like slots of a cohort.
pub fn infer_template_pattern(paths: &Vec<CohortPath>) -> (r: Option<TemplatePattern>)
    ensures
        r.deep_view() == infer_template_spec(cohort_views(paths@)),
{
    let slots = ranked_template_slots(paths);
    let ghost sv = slot_views(slots@);
    assert(slots.deep_view() =~= sv);
    if slots.len() == 0 {
        return None;
    }
    let best = copy_slot(&slots[0]);
    let mut close = false;
    let mut i: usize = 1;
    while i < slots.len()
        invariant
            1 <= i <= slots@.len(),
            sv == slot_views(slots@),
            best@ == sv[0],
            close == exists|k: int| 1 <= k < i && sat_sub(sv[0].confidence, (#[trigger] sv[k]).confidence) < 8,
        decreases slots@.len() - i,
    {
        assert(sv[i as int].confidence == slots@[i as int].confidence);
        if sat_sub_u8(best.confidence, slots[i].confidence) < 8 {
            close = true;
        }
        i += 1;
    }
    if close {
        let mut notes: Vec<String> = Vec::new();
        let n = str_chars("同组文件存在多个接近的变化数字槽，保持待确认。");
        notes.push(chars_to_string(n.as_slice()));
        assert(notes.deep_view() =~= seq![close_slots_note()]);
        let confidence = best.confidence;
        Some(TemplatePattern { slots, confidence, notes })
    } else {
        let mut text: Vec<char> = Vec::new();
        push_lit(&mut text, "模板置信度 ");
        push_chars(&mut text, decimal_chars(best.confidence as u64).as_slice());
        push_lit(&mut text, "。");
        let mut notes: Vec<String> = Vec::new();
        notes.push(chars_to_string(text.as_slice()));
        assert(notes.deep_view() =~= seq![template_note(best.confidence)]);
        let confidence = best.confidence;
        let mut only: Vec<TemplateSlot> = Vec::new();
        only.push(best);
        assert(only.deep_view() =~= seq![sv[0]]);
        Some(TemplatePattern { slots: only, confidence, notes })
    }
}

} // verus!
