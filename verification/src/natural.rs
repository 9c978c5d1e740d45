//! Natural ordering of file names: runs of digits compare by value, other
//! runs compare case-insensitively.

use vstd::prelude::*;
use std::cmp::Ordering;
use crate::path::{MediaPath, ComponentV, view_text, lemma_path_text_view};
use crate::rules::{normalize_text, normalize_text_spec, path_sort_text, sort_text_spec};
use crate::text::{
    all_ascii_digits, digits_value, is_ascii_digit, is_ascii_digit_spec, lower_chars, lowercase_text,
    parse_digits_u64_saturating, saturate_u64, str_chars,
};

verus! {

/// One run of a file name: the number its digits spell, or its lowercased text.
#[derive(Debug, Clone)]
pub enum NaturalPart {
    Text(Vec<char>),
    Number(u64),
}

/// The mathematical value of a natural part.
pub enum PartV {
    Text(Seq<char>),
    Number(u64),
}

impl View for NaturalPart {
    type V = PartV;

    open spec fn view(&self) -> PartV {
        match self {
            NaturalPart::Text(t) => PartV::Text(t@),
            NaturalPart::Number(n) => PartV::Number(*n),
        }
    }
}

/// The views of a sequence of parts.
pub open spec fn part_views(s: Seq<NaturalPart>) -> Seq<PartV> {
    Seq::new(s.len(), |i: int| s[i]@)
}

/// The maximal runs of `s` whose characters are all digits or all non-digits.
pub open spec fn digit_runs(s: Seq<char>) -> Seq<Seq<char>>
    decreases s.len(),
{
    if s.len() == 0 {
        Seq::empty()
    } else {
        let r = digit_runs(s.drop_last());
        let c = s.last();
        if r.len() > 0 && r.last().len() > 0 && is_ascii_digit_spec(r.last().last()) == is_ascii_digit_spec(c) {
            r.update(r.len() - 1, r.last().push(c))
        } else {
            r.push(seq![c])
        }
    }
}

/// The part a run stands for.
pub open spec fn part_of_run(run: Seq<char>) -> PartV {
    if is_ascii_digit_spec(run.last()) {
        PartV::Number(saturate_u64(digits_value(run)))
    } else {
        PartV::Text(lowercase_text(run))
    }
}

/// The natural parts of a text, after normalization.
pub open spec fn natural_parts_spec(text: Seq<char>) -> Seq<PartV> {
    let runs = digit_runs(normalize_text_spec(text));
    Seq::new(runs.len(), |i: int| part_of_run(runs[i]))
}

/// Character-by-character order of two texts; a proper prefix comes first.
pub open spec fn text_order(a: Seq<char>, b: Seq<char>) -> Ordering
    decreases a.len(),
{
    if a.len() == 0 {
        if b.len() == 0 { Ordering::Equal } else { Ordering::Less }
    } else if b.len() == 0 {
        Ordering::Greater
    } else if a[0] < b[0] {
        Ordering::Less
    } else if b[0] < a[0] {
        Ordering::Greater
    } else {
        text_order(a.drop_first(), b.drop_first())
    }
}

/// The order of two numbers.
pub open spec fn number_order(a: u64, b: u64) -> Ordering {
    if a < b {
        Ordering::Less
    } else if b < a {
        Ordering::Greater
    } else {
        Ordering::Equal
    }
}

/// The order of two counts.
pub open spec fn count_order(a: nat, b: nat) -> Ordering {
    if a < b {
        Ordering::Less
    } else if b < a {
        Ordering::Greater
    } else {
        Ordering::Equal
    }
}

/// The order of two parts: numbers by value, texts by character, a number before a text.
pub open spec fn part_order(a: PartV, b: PartV) -> Ordering {
    match (a, b) {
        (PartV::Number(x), PartV::Number(y)) => number_order(x, y),
        (PartV::Text(x), PartV::Text(y)) => text_order(x, y),
        (PartV::Number(_), PartV::Text(_)) => Ordering::Less,
        (PartV::Text(_), PartV::Number(_)) => Ordering::Greater,
    }
}

/// The first order other than `Equal` among the parts at the same positions.
pub open spec fn parts_order(a: Seq<PartV>, b: Seq<PartV>) -> Ordering
    decreases a.len(),
{
    if a.len() == 0 || b.len() == 0 {
        Ordering::Equal
    } else if part_order(a[0], b[0]) != Ordering::Equal {
        part_order(a[0], b[0])
    } else {
        parts_order(a.drop_first(), b.drop_first())
    }
}

/// Natural order of two texts: by their parts, then by the number of parts,
/// then by the texts themselves.
pub open spec fn natural_order(l: Seq<char>, r: Seq<char>) -> Ordering {
    let lp = natural_parts_spec(l);
    let rp = natural_parts_spec(r);
    if parts_order(lp, rp) != Ordering::Equal {
        parts_order(lp, rp)
    } else if count_order(lp.len(), rp.len()) != Ordering::Equal {
        count_order(lp.len(), rp.len())
    } else {
        text_order(l, r)
    }
}

/// Every run is non-empty and all of its characters agree with its last on being a digit.
pub open spec fn digit_runs_uniform(r: Seq<Seq<char>>) -> bool {
    forall|i: int| 0 <= i < r.len() ==> {
        &&& (#[trigger] r[i]).len() > 0
        &&& forall|j: int| 0 <= j < r[i].len() ==> is_ascii_digit_spec(#[trigger] r[i][j]) == is_ascii_digit_spec(r[i].last())
    }
}

pub proof fn lemma_digit_runs_uniform(s: Seq<char>)
    ensures
        digit_runs_uniform(digit_runs(s)),
    decreases s.len(),
{
    if s.len() > 0 {
        lemma_digit_runs_uniform(s.drop_last());
        let r = digit_runs(s.drop_last());
        let c = s.last();
        if r.len() > 0 && r.last().len() > 0 && is_ascii_digit_spec(r.last().last()) == is_ascii_digit_spec(c) {
            let nr = r.update(r.len() - 1, r.last().push(c));
            assert forall|i: int| 0 <= i < nr.len() implies {
                &&& (#[trigger] nr[i]).len() > 0
                &&& forall|j: int| 0 <= j < nr[i].len() ==> is_ascii_digit_spec(#[trigger] nr[i][j]) == is_ascii_digit_spec(nr[i].last())
            } by {
                if i == r.len() - 1 {
                    assert forall|j: int| 0 <= j < nr[i].len() implies is_ascii_digit_spec(#[trigger] nr[i][j]) == is_ascii_digit_spec(nr[i].last()) by {
                        if j < r.last().len() {
                            assert(nr[i][j] == r.last()[j]);
                        }
                    }
                }
            }
        } else {
            let nr = r.push(seq![c]);
            assert forall|i: int| 0 <= i < nr.len() implies {
                &&& (#[trigger] nr[i]).len() > 0
                &&& forall|j: int| 0 <= j < nr[i].len() ==> is_ascii_digit_spec(#[trigger] nr[i][j]) == is_ascii_digit_spec(nr[i].last())
            } by {
                if i < r.len() {
                    assert(nr[i] == r[i]);
                }
            }
        }
    }
}

/// The part made of one run.
fn build_natural_part(text: &[char], is_number: bool) -> (r: NaturalPart)
    requires
        text@.len() > 0,
        is_number == is_ascii_digit_spec(text@.last()),
        is_number ==> all_ascii_digits(text@),
    ensures
        r@ == part_of_run(text@),
{
    if is_number {
        NaturalPart::Number(parse_digits_u64_saturating(text))
    } else {
        NaturalPart::Text(lower_chars(text))
    }
}

/// Splits a normalized text into its runs of digits and of other characters.
pub fn parts_of_normalized(text: &[char]) -> (r: Vec<NaturalPart>)
    ensures
        part_views(r@) == Seq::new(digit_runs(text@).len(), |i: int| part_of_run(digit_runs(text@)[i])),
{
    let mut parts: Vec<NaturalPart> = Vec::new();
    let mut buffer: Vec<char> = Vec::new();
    let mut in_number: Option<bool> = None;
    let mut i: usize = 0;
    while i < text.len()
        invariant
            i <= text@.len(),
            i == 0 ==> buffer@.len() == 0 && in_number is None && parts@.len() == 0,
            i > 0 ==> {
                let r = digit_runs(text@.subrange(0, i as int));
                &&& buffer@.len() > 0
                &&& in_number == Some(is_ascii_digit_spec(buffer@.last()))
                &&& r.len() == parts@.len() + 1
                &&& buffer@ == r.last()
                &&& forall|j: int| 0 <= j < parts@.len() ==> (#[trigger] parts@[j])@ == part_of_run(r[j])
                &&& digit_runs_uniform(r)
            },
        decreases text@.len() - i,
    {
        let c = text[i];
        let is_number = is_ascii_digit(c);
        let ghost prefix = text@.subrange(0, i as int);
        let ghost next_prefix = text@.subrange(0, i + 1);
        let ghost old_parts = parts@;
        proof {
            assert(next_prefix.drop_last() =~= prefix);
            lemma_digit_runs_uniform(next_prefix);
        }
        let flush = match in_number {
            Some(existing) => existing != is_number && buffer.len() > 0,
            None => false,
        };
        if flush {
            let buffer_is_number = match in_number {
                Some(b) => b,
                None => false,
            };
            proof {
                let r = digit_runs(prefix);
                assert(r[r.len() - 1] == r.last());
                if buffer_is_number {
                    assert forall|j: int| 0 <= j < buffer@.len() implies is_ascii_digit_spec(#[trigger] buffer@[j]) by {
                        assert(is_ascii_digit_spec(r[r.len() - 1][j]) == is_ascii_digit_spec(r[r.len() - 1].last()));
                    }
                }
            }
            let part = build_natural_part(buffer.as_slice(), buffer_is_number);
            parts.push(part);
            buffer = Vec::new();
        }
        buffer.push(c);
        in_number = Some(is_number);
        proof {
            let r = digit_runs(prefix);
            let nr = digit_runs(next_prefix);
            if i == 0 {
                assert(prefix.len() == 0);
                assert(nr =~= seq![seq![c]]);
                assert(buffer@ =~= seq![c]);
            } else if flush {
                assert(nr =~= r.push(seq![c]));
                assert(buffer@ =~= seq![c]);
                assert forall|j: int| 0 <= j < parts@.len() implies (#[trigger] parts@[j])@ == part_of_run(nr[j]) by {
                    if j < parts@.len() - 1 {
                        assert(parts@[j] == old_parts[j]);
                    }
                }
            } else {
                assert(nr =~= r.update(r.len() - 1, r.last().push(c)));
                assert forall|j: int| 0 <= j < parts@.len() implies (#[trigger] parts@[j])@ == part_of_run(nr[j]) by {
                    assert(nr[j] == r[j]);
                }
            }
        }
        i += 1;
    }
    assert(text@.subrange(0, text@.len() as int) =~= text@);
    match in_number {
        Some(is_number) => {
            if buffer.len() > 0 {
                proof {
                    let r = digit_runs(text@);
                    assert(r[r.len() - 1] == r.last());
                    if is_number {
                        assert forall|j: int| 0 <= j < buffer@.len() implies is_ascii_digit_spec(#[trigger] buffer@[j]) by {
                            assert(is_ascii_digit_spec(r[r.len() - 1][j]) == is_ascii_digit_spec(r[r.len() - 1].last()));
                        }
                    }
                }
                let part = build_natural_part(buffer.as_slice(), is_number);
                parts.push(part);
            }
        },
        None => {},
    }
    proof {
        let r = digit_runs(text@);
        assert(part_views(parts@) =~= Seq::new(r.len(), |k: int| part_of_run(r[k])));
    }
    parts
}

/// The natural parts of a text.
pub fn natural_parts(text: &[char]) -> (r: Vec<NaturalPart>)
    ensures
        part_views(r@) == natural_parts_spec(text@),
{
    let normalized = normalize_text(text);
    parts_of_normalized(normalized.as_slice())
}

proof fn lemma_text_order_skip(a: Seq<char>, b: Seq<char>, i: int)
    requires
        0 <= i < a.len(),
        i < b.len(),
        a[i] == b[i],
    ensures
        text_order(a.skip(i), b.skip(i)) == text_order(a.skip(i + 1), b.skip(i + 1)),
{
    assert(a.skip(i).drop_first() =~= a.skip(i + 1));
    assert(b.skip(i).drop_first() =~= b.skip(i + 1));
}

/// Compares two texts character by character.
pub fn text_compare(a: &[char], b: &[char]) -> (r: Ordering)
    ensures
        r == text_order(a@, b@),
{
    let mut i: usize = 0;
    let ghost mut gi: int = 0;
    assert(a@.skip(0) =~= a@);
    assert(b@.skip(0) =~= b@);
    while i < a.len() && i < b.len()
        invariant
            gi == i,
            i <= a@.len(),
            i <= b@.len(),
            text_order(a@, b@) == text_order(a@.skip(gi), b@.skip(gi)),
        decreases a@.len() - i,
    {
        assert(a@.skip(gi)[0] == a@[gi]);
        assert(b@.skip(gi)[0] == b@[gi]);
        if a[i] < b[i] {
            return Ordering::Less;
        }
        if b[i] < a[i] {
            return Ordering::Greater;
        }
        proof {
            lemma_text_order_skip(a@, b@, gi);
            gi = gi + 1;
        }
        i += 1;
    }
    if i < a.len() {
        Ordering::Greater
    } else if i < b.len() {
        Ordering::Less
    } else {
        Ordering::Equal
    }
}

/// Compares two parts.
pub fn part_compare(a: &NaturalPart, b: &NaturalPart) -> (r: Ordering)
    ensures
        r == part_order(a@, b@),
{
    match (a, b) {
        (NaturalPart::Number(x), NaturalPart::Number(y)) => {
            if *x < *y {
                Ordering::Less
            } else if *y < *x {
                Ordering::Greater
            } else {
                Ordering::Equal
            }
        },
        (NaturalPart::Text(x), NaturalPart::Text(y)) => text_compare(x.as_slice(), y.as_slice()),
        (NaturalPart::Number(_), NaturalPart::Text(_)) => Ordering::Less,
        (NaturalPart::Text(_), NaturalPart::Number(_)) => Ordering::Greater,
    }
}

proof fn lemma_parts_order_skip(a: Seq<PartV>, b: Seq<PartV>, i: int)
    requires
        0 <= i < a.len(),
        i < b.len(),
        part_order(a[i], b[i]) == Ordering::Equal,
    ensures
        parts_order(a.skip(i), b.skip(i)) == parts_order(a.skip(i + 1), b.skip(i + 1)),
{
    assert(a.skip(i).drop_first() =~= a.skip(i + 1));
    assert(b.skip(i).drop_first() =~= b.skip(i + 1));
}

/// Compares two texts in natural order.
fn natural_chars_compare(left: &[char], right: &[char]) -> (r: Ordering)
    ensures
        r == natural_order(left@, right@),
{
    let lp = natural_parts(left);
    let rp = natural_parts(right);
    let ghost la = part_views(lp@);
    let ghost ra = part_views(rp@);
    assert(la.skip(0) =~= la);
    assert(ra.skip(0) =~= ra);
    let mut i: usize = 0;
    let ghost mut gi: int = 0;
    while i < lp.len() && i < rp.len()
        invariant
            gi == i,
            la == part_views(lp@),
            ra == part_views(rp@),
            la == natural_parts_spec(left@),
            ra == natural_parts_spec(right@),
            i <= lp@.len(),
            i <= rp@.len(),
            parts_order(la, ra) == parts_order(la.skip(gi), ra.skip(gi)),
        decreases lp@.len() - i,
    {
        let o = part_compare(&lp[i], &rp[i]);
        assert(la[gi] == lp@[gi]@);
        assert(ra[gi] == rp@[gi]@);
        assert(la.skip(gi)[0] == la[gi]);
        assert(ra.skip(gi)[0] == ra[gi]);
        match o {
            Ordering::Equal => {},
            _ => {
                assert(parts_order(la.skip(gi), ra.skip(gi)) == o);
                return o;
            },
        }
        proof {
            lemma_parts_order_skip(la, ra, gi);
            gi = gi + 1;
        }
        i += 1;
    }
    if lp.len() < rp.len() {
        Ordering::Less
    } else if rp.len() < lp.len() {
        Ordering::Greater
    } else {
        text_compare(left, right)
    }
}

/// Compares two strings in natural order: `Show - 8` comes before `Show - 10`.
pub fn natural_str_cmp(left: &str, right: &str) -> (r: Ordering)
    ensures
        r == natural_order(left@, right@),
{
    let l = str_chars(left);
    let r = str_chars(right);
    natural_chars_compare(l.as_slice(), r.as_slice())
}

/// Compares two paths in natural order of their normalized text.
pub fn natural_path_cmp(left: &MediaPath, right: &MediaPath) -> (r: Ordering)
    ensures
        r == natural_order(sort_text_spec(*left), sort_text_spec(*right)),
{
    let l = path_sort_text(left);
    let r = path_sort_text(right);
    natural_chars_compare(l.as_slice(), r.as_slice())
}

/// Whether path `a` comes strictly before path `b` in natural order of their
/// normalized text.
pub open spec fn natural_path_before(a: Seq<ComponentV>, b: Seq<ComponentV>) -> bool {
    natural_order(normalize_text_spec(view_text(a, "/"@)), normalize_text_spec(view_text(b, "/"@))) == Ordering::Less
}

/// Whether path `a` comes strictly before path `b` in natural order.
pub fn natural_path_less(a: &MediaPath, b: &MediaPath) -> (r: bool)
    ensures
        r == natural_path_before(a@, b@),
{
    proof {
        lemma_path_text_view(*a, "/"@);
        lemma_path_text_view(*b, "/"@);
    }
    match natural_path_cmp(a, b) {
        Ordering::Less => true,
        _ => false,
    }
}

/// The order seen from the other side.
pub open spec fn flipped(o: Ordering) -> Ordering {
    match o {
        Ordering::Less => Ordering::Greater,
        Ordering::Greater => Ordering::Less,
        Ordering::Equal => Ordering::Equal,
    }
}

proof fn lemma_text_order_antisymmetric(a: Seq<char>, b: Seq<char>)
    ensures
        text_order(a, b) == flipped(text_order(b, a)),
        (text_order(a, b) == Ordering::Equal) == (a == b),
    decreases a.len(),
{
    if a.len() == 0 && b.len() == 0 {
        assert(a =~= b);
    }
    if a.len() > 0 && b.len() > 0 && a[0] == b[0] {
        lemma_text_order_antisymmetric(a.drop_first(), b.drop_first());
        if a.drop_first() == b.drop_first() {
            assert forall|i: int| 0 <= i < a.len() implies a[i] == b[i] by {
                if i > 0 {
                    assert(a[i] == a.drop_first()[i - 1]);
                    assert(b[i] == b.drop_first()[i - 1]);
                }
            }
            assert(a =~= b);
        }
    }
}

proof fn lemma_text_order_transitive(a: Seq<char>, b: Seq<char>, c: Seq<char>)
    requires
        text_order(a, b) == Ordering::Less,
        text_order(b, c) == Ordering::Less,
    ensures
        text_order(a, c) == Ordering::Less,
    decreases a.len(),
{
    if a.len() > 0 && b.len() > 0 && c.len() > 0 && a[0] == b[0] && b[0] == c[0] {
        lemma_text_order_transitive(a.drop_first(), b.drop_first(), c.drop_first());
    }
}

proof fn lemma_part_order_properties(a: PartV, b: PartV)
    ensures
        part_order(a, b) == flipped(part_order(b, a)),
        (part_order(a, b) == Ordering::Equal) == (a == b),
{
    match (a, b) {
        (PartV::Text(x), PartV::Text(y)) => {
            lemma_text_order_antisymmetric(x, y);
        },
        _ => {},
    }
}

proof fn lemma_part_order_transitive(a: PartV, b: PartV, c: PartV)
    requires
        part_order(a, b) == Ordering::Less,
        part_order(b, c) == Ordering::Less,
    ensures
        part_order(a, c) == Ordering::Less,
{
    match (a, b, c) {
        (PartV::Text(x), PartV::Text(y), PartV::Text(z)) => {
            lemma_text_order_transitive(x, y, z);
        },
        _ => {},
    }
}

/// The order of two part sequences: by their parts, then shorter first.
pub open spec fn parts_lex(a: Seq<PartV>, b: Seq<PartV>) -> Ordering {
    if parts_order(a, b) != Ordering::Equal {
        parts_order(a, b)
    } else {
        count_order(a.len(), b.len())
    }
}

proof fn lemma_parts_lex_unfold(a: Seq<PartV>, b: Seq<PartV>)
    ensures
        parts_lex(a, b) == if a.len() == 0 {
            if b.len() == 0 { Ordering::Equal } else { Ordering::Less }
        } else if b.len() == 0 {
            Ordering::Greater
        } else if part_order(a[0], b[0]) != Ordering::Equal {
            part_order(a[0], b[0])
        } else {
            parts_lex(a.drop_first(), b.drop_first())
        },
{
}

proof fn lemma_parts_lex_properties(a: Seq<PartV>, b: Seq<PartV>)
    ensures
        parts_lex(a, b) == flipped(parts_lex(b, a)),
        (parts_lex(a, b) == Ordering::Equal) == (a == b),
    decreases a.len(),
{
    lemma_parts_lex_unfold(a, b);
    lemma_parts_lex_unfold(b, a);
    if a.len() > 0 && b.len() > 0 {
        lemma_part_order_properties(a[0], b[0]);
        if part_order(a[0], b[0]) == Ordering::Equal {
            lemma_parts_lex_properties(a.drop_first(), b.drop_first());
            if a.drop_first() == b.drop_first() {
                assert forall|i: int| 0 <= i < a.len() implies a[i] == b[i] by {
                    if i > 0 {
                        assert(a[i] == a.drop_first()[i - 1]);
                        assert(b[i] == b.drop_first()[i - 1]);
                    }
                }
                assert(a =~= b);
            }
        }
    }
    if a.len() == 0 && b.len() == 0 {
        assert(a =~= b);
    }
}

proof fn lemma_parts_lex_transitive(a: Seq<PartV>, b: Seq<PartV>, c: Seq<PartV>)
    requires
        parts_lex(a, b) == Ordering::Less,
        parts_lex(b, c) == Ordering::Less,
    ensures
        parts_lex(a, c) == Ordering::Less,
    decreases a.len(),
{
    lemma_parts_lex_unfold(a, b);
    lemma_parts_lex_unfold(b, c);
    lemma_parts_lex_unfold(a, c);
    if a.len() > 0 && b.len() > 0 && c.len() > 0 {
        lemma_part_order_properties(a[0], b[0]);
        lemma_part_order_properties(b[0], c[0]);
        lemma_part_order_properties(a[0], c[0]);
        if part_order(a[0], b[0]) == Ordering::Equal && part_order(b[0], c[0]) == Ordering::Equal {
            lemma_parts_lex_transitive(a.drop_first(), b.drop_first(), c.drop_first());
        } else if part_order(a[0], b[0]) == Ordering::Less && part_order(b[0], c[0]) == Ordering::Less {
            lemma_part_order_transitive(a[0], b[0], c[0]);
        }
    }
}

proof fn lemma_natural_order_is_lex(l: Seq<char>, r: Seq<char>)
    ensures
        natural_order(l, r) == if parts_lex(natural_parts_spec(l), natural_parts_spec(r)) != Ordering::Equal {
            parts_lex(natural_parts_spec(l), natural_parts_spec(r))
        } else {
            text_order(l, r)
        },
{
}

/// Natural order is antisymmetric and tells texts apart: comparing the
/// other way round flips the result, and two texts compare equal only when
/// they are the same.
pub proof fn law_natural_order_antisymmetric(a: Seq<char>, b: Seq<char>)
    ensures
        natural_order(a, b) == flipped(natural_order(b, a)),
        (natural_order(a, b) == Ordering::Equal) == (a == b),
{
    lemma_natural_order_is_lex(a, b);
    lemma_natural_order_is_lex(b, a);
    lemma_parts_lex_properties(natural_parts_spec(a), natural_parts_spec(b));
    lemma_text_order_antisymmetric(a, b);
}

/// Natural order is transitive.
pub proof fn law_natural_order_transitive(a: Seq<char>, b: Seq<char>, c: Seq<char>)
    requires
        natural_order(a, b) == Ordering::Less,
        natural_order(b, c) == Ordering::Less,
    ensures
        natural_order(a, c) == Ordering::Less,
{
    let pa = natural_parts_spec(a);
    let pb = natural_parts_spec(b);
    let pc = natural_parts_spec(c);
    lemma_natural_order_is_lex(a, b);
    lemma_natural_order_is_lex(b, c);
    lemma_natural_order_is_lex(a, c);
    lemma_parts_lex_properties(pa, pb);
    lemma_parts_lex_properties(pb, pc);
    lemma_parts_lex_properties(pa, pc);
    if parts_lex(pa, pb) == Ordering::Less && parts_lex(pb, pc) == Ordering::Less {
        lemma_parts_lex_transitive(pa, pb, pc);
    } else if parts_lex(pa, pb) == Ordering::Equal && parts_lex(pb, pc) == Ordering::Equal {
        lemma_text_order_transitive(a, b, c);
    }
}

/// Natural order of paths is a strict weak order, so sorting by it is well defined.
pub proof fn law_natural_path_order_is_strict_weak()
    ensures
        crate::sort::strict_weak_order(|a: Seq<ComponentV>, b: Seq<ComponentV>| natural_path_before(a, b)),
{
    let before = |a: Seq<ComponentV>, b: Seq<ComponentV>| natural_path_before(a, b);
    assert forall|a: Seq<ComponentV>| #![trigger before(a, a)] !before(a, a) by {
        let t = normalize_text_spec(view_text(a, "/"@));
        law_natural_order_antisymmetric(t, t);
    }
    assert forall|a: Seq<ComponentV>, b: Seq<ComponentV>, c: Seq<ComponentV>| #![trigger before(a, b), before(b, c)]
        before(a, b) && before(b, c) implies before(a, c) by {
        law_natural_order_transitive(
            normalize_text_spec(view_text(a, "/"@)),
            normalize_text_spec(view_text(b, "/"@)),
            normalize_text_spec(view_text(c, "/"@)),
        );
    }
    assert forall|a: Seq<ComponentV>, b: Seq<ComponentV>, c: Seq<ComponentV>| #![trigger before(a, b), before(b, c)]
        !before(a, b) && !before(b, a) && !before(b, c) && !before(c, b) implies !before(a, c) && !before(c, a) by {
        let ta = normalize_text_spec(view_text(a, "/"@));
        let tb = normalize_text_spec(view_text(b, "/"@));
        let tc = normalize_text_spec(view_text(c, "/"@));
        law_natural_order_antisymmetric(ta, tb);
        law_natural_order_antisymmetric(tb, tc);
        law_natural_order_antisymmetric(ta, tc);
    }
}

} // verus!
