//! Character-level helpers shared by the parser, the matcher and the planner.
//!
//! Text is processed as `Vec<char>`; the few Unicode services that cannot be
//! stated in a few lines (lowercasing, the `Alphabetic` and `White_Space`
//! properties, NFKC normalization) are reached through trusted wrappers whose
//! results are named by uninterpreted spec functions.

use vstd::prelude::*;
use unicode_normalization::UnicodeNormalization;

verus! {

/// Whether `c` is an ASCII decimal digit.
pub open spec fn is_ascii_digit_spec(c: char) -> bool {
    '0' <= c && c <= '9'
}

/// Whether `c` is an ASCII letter.
pub open spec fn is_ascii_alpha_spec(c: char) -> bool {
    ('a' <= c && c <= 'z') || ('A' <= c && c <= 'Z')
}

/// Whether `c` is an ASCII letter or digit.
pub open spec fn is_ascii_alnum_spec(c: char) -> bool {
    is_ascii_alpha_spec(c) || is_ascii_digit_spec(c)
}

/// ASCII lowercasing of one character; every other character is kept.
pub open spec fn ascii_lower_spec(c: char) -> char {
    if 'A' <= c && c <= 'Z' {
        ((c as u32) + 32) as char
    } else {
        c
    }
}

/// ASCII uppercasing of one character; every other character is kept.
pub open spec fn ascii_upper_spec(c: char) -> char {
    if 'a' <= c && c <= 'z' {
        ((c as u32) - 32) as char
    } else {
        c
    }
}

pub open spec fn ascii_lower_seq(s: Seq<char>) -> Seq<char> {
    Seq::new(s.len(), |i: int| ascii_lower_spec(s[i]))
}

pub open spec fn ascii_upper_seq(s: Seq<char>) -> Seq<char> {
    Seq::new(s.len(), |i: int| ascii_upper_spec(s[i]))
}

/// Whether every character of `s` is an ASCII digit.
pub open spec fn all_ascii_digits(s: Seq<char>) -> bool {
    forall|i: int| 0 <= i < s.len() ==> is_ascii_digit_spec(#[trigger] s[i])
}

/// The value of one ASCII digit.
pub open spec fn digit_value(c: char) -> nat {
    ((c as u32) - ('0' as u32)) as nat
}

/// The value of a string of decimal digits, most significant first.
pub open spec fn digits_value(s: Seq<char>) -> nat
    decreases s.len(),
{
    if s.len() == 0 {
        0
    } else {
        digits_value(s.drop_last()) * 10 + digit_value(s.last())
    }
}

/// The digit character for a value below ten.
pub open spec fn digit_char(d: nat) -> char {
    if d == 0 { '0' }
    else if d == 1 { '1' }
    else if d == 2 { '2' }
    else if d == 3 { '3' }
    else if d == 4 { '4' }
    else if d == 5 { '5' }
    else if d == 6 { '6' }
    else if d == 7 { '7' }
    else if d == 8 { '8' }
    else { '9' }
}

/// The decimal representation of `n`, without leading zeros.
pub open spec fn decimal(n: nat) -> Seq<char>
    decreases n,
{
    if n < 10 {
        seq![digit_char(n)]
    } else {
        decimal(n / 10).push(digit_char(n % 10))
    }
}

/// The decimal representation of `n`, padded with zeros to at least two characters.
pub open spec fn decimal_pad2(n: nat) -> Seq<char> {
    if n < 10 {
        seq!['0', digit_char(n)]
    } else {
        decimal(n)
    }
}

/// Whether `needle` occurs in `hay` at position `i`.
pub open spec fn occurs_at(hay: Seq<char>, needle: Seq<char>, i: int) -> bool {
    0 <= i && i + needle.len() <= hay.len() && hay.subrange(i, i + needle.len()) == needle
}

/// Whether `needle` occurs anywhere in `hay` (the empty needle always does).
pub open spec fn contains_seq(hay: Seq<char>, needle: Seq<char>) -> bool {
    exists|i: int| occurs_at(hay, needle, i)
}

/// The result of std's `str::parse::<u16>`: an optional leading `+`, then one
/// or more ASCII digits whose value fits in 16 bits.
pub open spec fn parse_u16_spec(s: Seq<char>) -> Option<u16> {
    let d = if s.len() > 0 && s[0] == '+' { s.drop_first() } else { s };
    if d.len() == 0 || !all_ascii_digits(d) || digits_value(d) > 0xffff {
        None
    } else {
        Some(digits_value(d) as u16)
    }
}

/// Joins `parts` with `sep` between consecutive parts.
pub open spec fn join_seqs(parts: Seq<Seq<char>>, sep: Seq<char>) -> Seq<char>
    decreases parts.len(),
{
    if parts.len() == 0 {
        Seq::empty()
    } else if parts.len() == 1 {
        parts[0]
    } else {
        join_seqs(parts.drop_last(), sep) + sep + parts.last()
    }
}

/// What std's `str::to_lowercase` returns for a string (Unicode lowercase mapping).
pub uninterp spec fn lowercase_text(s: Seq<char>) -> Seq<char>;

/// Whether std's `char::is_alphabetic` holds (the Unicode `Alphabetic` property).
pub uninterp spec fn char_is_alphabetic(c: char) -> bool;

/// Whether a character has the Unicode `White_Space` property, which is what
/// std's `char::is_whitespace` tests: tab to carriage return, space, next
/// line, no-break space, Ogham space mark, the spaces from en quad to hair
/// space, line and paragraph separators, narrow no-break space, medium
/// mathematical space and ideographic space.
pub open spec fn char_is_whitespace(c: char) -> bool {
    ('\u{9}' <= c && c <= '\u{d}') || c == ' ' || c == '\u{85}' || c == '\u{a0}' || c == '\u{1680}'
        || ('\u{2000}' <= c && c <= '\u{200a}') || c == '\u{2028}' || c == '\u{2029}' || c == '\u{202f}'
        || c == '\u{205f}' || c == '\u{3000}'
}

/// What `unicode_normalization`'s NFKC normalization yields for a string.
pub uninterp spec fn nfkc_text(s: Seq<char>) -> Seq<char>;

/// Calls std's `str::to_lowercase`; the contract claims only that the result is
/// the Unicode lowercase mapping of the argument, a function of the argument alone.
#[verifier::external_body]
pub(crate) fn lowercase_str(s: &str) -> (r: String)
    ensures
        r@ == lowercase_text(s@),
{
    s.to_lowercase()
}

/// Calls std's `char::is_alphabetic`, a function of the character alone.
#[verifier::external_body]
pub(crate) fn is_alphabetic(c: char) -> (r: bool)
    ensures
        r == char_is_alphabetic(c),
{
    c.is_alphabetic()
}

/// Whether a character has the Unicode `White_Space` property.
pub fn is_whitespace(c: char) -> (r: bool)
    ensures
        r == char_is_whitespace(c),
{
    ('\u{9}' <= c && c <= '\u{d}') || c == ' ' || c == '\u{85}' || c == '\u{a0}' || c == '\u{1680}'
        || ('\u{2000}' <= c && c <= '\u{200a}') || c == '\u{2028}' || c == '\u{2029}' || c == '\u{202f}'
        || c == '\u{205f}' || c == '\u{3000}'
}

/// Calls `unicode_normalization`'s `nfkc` on a string and collects the
/// characters; the contract claims the result depends on the argument alone.
#[verifier::external_body]
pub(crate) fn nfkc_str(s: &str) -> (r: String)
    ensures
        r@ == nfkc_text(s@),
{
    s.nfkc().collect::<String>()
}

/// Collects characters into a `String` (std's `FromIterator<char>`): the
/// string holds exactly these characters.
#[verifier::external_body]
pub(crate) fn chars_to_string(v: &[char]) -> (r: String)
    ensures
        r@ == v@,
{
    v.iter().collect::<String>()
}

pub fn is_ascii_digit(c: char) -> (r: bool)
    ensures
        r == is_ascii_digit_spec(c),
{
    '0' <= c && c <= '9'
}

pub fn is_ascii_alnum(c: char) -> (r: bool)
    ensures
        r == is_ascii_alnum_spec(c),
{
    ('a' <= c && c <= 'z') || ('A' <= c && c <= 'Z') || ('0' <= c && c <= '9')
}

pub fn ascii_lower(c: char) -> (r: char)
    ensures
        r == ascii_lower_spec(c),
{
    if 'A' <= c && c <= 'Z' {
        let u: u32 = (c as u32) + 32;
        char_from_ascii(u)
    } else {
        c
    }
}

pub fn ascii_upper(c: char) -> (r: char)
    ensures
        r == ascii_upper_spec(c),
{
    if 'a' <= c && c <= 'z' {
        let u: u32 = (c as u32) - 32;
        char_from_ascii(u)
    } else {
        c
    }
}

fn char_from_ascii(u: u32) -> (r: char)
    requires
        u < 128,
    ensures
        r == u as char,
{
    let b: u8 = u as u8;
    b as char
}

/// The characters of a string slice, in order.
pub fn str_chars(s: &str) -> (r: Vec<char>)
    ensures
        r@ == s@,
{
    let n = s.unicode_len();
    let mut out: Vec<char> = Vec::new();
    let mut i: usize = 0;
    while i < n
        invariant
            n == s@.len(),
            i <= n,
            out@ == s@.subrange(0, i as int),
        decreases n - i,
    {
        out.push(s.get_char(i));
        i += 1;
    }
    out
}

pub fn string_chars(s: &String) -> (r: Vec<char>)
    ensures
        r@ == s@,
{
    str_chars(s.as_str())
}

/// Whether the characters `s` spell exactly the literal `lit`.
pub fn eq_lit(s: &[char], lit: &str) -> (r: bool)
    ensures
        r == (s@ == lit@),
{
    let n = lit.unicode_len();
    if s.len() != n {
        return false;
    }
    let mut i: usize = 0;
    while i < n
        invariant
            n == lit@.len(),
            n == s@.len(),
            i <= n,
            forall|j: int| 0 <= j < i ==> s@[j] == lit@[j],
        decreases n - i,
    {
        if s[i] != lit.get_char(i) {
            return false;
        }
        i += 1;
    }
    assert(s@ =~= lit@);
    true
}

/// Whether two character sequences are equal.
pub fn eq_chars(a: &[char], b: &[char]) -> (r: bool)
    ensures
        r == (a@ == b@),
{
    if a.len() != b.len() {
        return false;
    }
    let mut i: usize = 0;
    while i < a.len()
        invariant
            a@.len() == b@.len(),
            i <= a@.len(),
            forall|j: int| 0 <= j < i ==> a@[j] == b@[j],
        decreases a@.len() - i,
    {
        if a[i] != b[i] {
            return false;
        }
        i += 1;
    }
    assert(a@ =~= b@);
    true
}

/// Whether the literal `needle` occurs in `hay` at position `i`.
fn occurs_lit_at(hay: &[char], needle: &str, i: usize) -> (r: bool)
    ensures
        r == occurs_at(hay@, needle@, i as int),
{
    let n = needle.unicode_len();
    if n > hay.len() || i > hay.len() - n {
        return false;
    }
    let mut j: usize = 0;
    while j < n
        invariant
            n == needle@.len(),
            i + n <= hay.len(),
            j <= n,
            forall|k: int| 0 <= k < j ==> hay@[i + k] == needle@[k],
        decreases n - j,
    {
        if hay[i + j] != needle.get_char(j) {
            assert(hay@.subrange(i as int, i + n)[j as int] != needle@[j as int]);
            return false;
        }
        j += 1;
    }
    assert(hay@.subrange(i as int, i + n) =~= needle@);
    true
}

/// Whether the literal `needle` occurs anywhere in `hay` (std's `str::contains`).
pub fn contains_lit(hay: &[char], needle: &str) -> (r: bool)
    ensures
        r == contains_seq(hay@, needle@),
{
    let n = needle.unicode_len();
    if n > hay.len() {
        assert forall|i: int| !occurs_at(hay@, needle@, i) by {}
        return false;
    }
    let limit = hay.len() - n;
    let mut i: usize = 0;
    loop
        invariant
            n == needle@.len(),
            n <= hay@.len(),
            limit == hay@.len() - n,
            i <= limit,
            forall|k: int| 0 <= k < i ==> !occurs_at(hay@, needle@, k),
        ensures
            forall|k: int| 0 <= k <= limit ==> !occurs_at(hay@, needle@, k),
        decreases limit - i,
    {
        if occurs_lit_at(hay, needle, i) {
            return true;
        }
        if i == limit {
            break;
        }
        i += 1;
    }
    assert forall|k: int| !occurs_at(hay@, needle@, k) by {
        if 0 <= k && k + n <= hay@.len() {
            assert(k <= limit);
        }
    }
    false
}

/// ASCII lowercasing of every character (std's `to_ascii_lowercase`).
pub fn ascii_lower_chars(s: &[char]) -> (r: Vec<char>)
    ensures
        r@ == ascii_lower_seq(s@),
{
    let mut out: Vec<char> = Vec::new();
    let mut i: usize = 0;
    while i < s.len()
        invariant
            i <= s@.len(),
            out@ =~= ascii_lower_seq(s@.subrange(0, i as int)),
        decreases s@.len() - i,
    {
        out.push(ascii_lower(s[i]));
        i += 1;
    }
    assert(s@.subrange(0, s@.len() as int) =~= s@);
    out
}

/// ASCII uppercasing of every character (std's `to_ascii_uppercase`).
pub fn ascii_upper_chars(s: &[char]) -> (r: Vec<char>)
    ensures
        r@ == ascii_upper_seq(s@),
{
    let mut out: Vec<char> = Vec::new();
    let mut i: usize = 0;
    while i < s.len()
        invariant
            i <= s@.len(),
            out@ =~= ascii_upper_seq(s@.subrange(0, i as int)),
        decreases s@.len() - i,
    {
        out.push(ascii_upper(s[i]));
        i += 1;
    }
    assert(s@.subrange(0, s@.len() as int) =~= s@);
    out
}

/// Whether two character sequences are equal up to ASCII case
/// (std's `eq_ignore_ascii_case`).
pub fn eq_ignore_ascii_case(a: &[char], b: &[char]) -> (r: bool)
    ensures
        r == (ascii_lower_seq(a@) == ascii_lower_seq(b@)),
{
    let la = ascii_lower_chars(a);
    let lb = ascii_lower_chars(b);
    eq_chars(la.as_slice(), lb.as_slice())
}

/// Unicode lowercasing of a character sequence (std's `str::to_lowercase`).
pub fn lower_chars(s: &[char]) -> (r: Vec<char>)
    ensures
        r@ == lowercase_text(s@),
{
    let st = chars_to_string(s);
    let low = lowercase_str(st.as_str());
    string_chars(&low)
}

pub fn digit_to_char(d: u64) -> (r: char)
    requires
        d < 10,
    ensures
        r == digit_char(d as nat),
{
    if d == 0 { '0' }
    else if d == 1 { '1' }
    else if d == 2 { '2' }
    else if d == 3 { '3' }
    else if d == 4 { '4' }
    else if d == 5 { '5' }
    else if d == 6 { '6' }
    else if d == 7 { '7' }
    else if d == 8 { '8' }
    else { '9' }
}

/// The decimal representation of `n`.
pub fn decimal_chars(n: u64) -> (r: Vec<char>)
    ensures
        r@ == decimal(n as nat),
    decreases n,
{
    if n < 10 {
        let mut v: Vec<char> = Vec::new();
        v.push(digit_to_char(n));
        assert(v@ =~= seq![digit_char(n as nat)]);
        v
    } else {
        let mut v = decimal_chars(n / 10);
        v.push(digit_to_char(n % 10));
        v
    }
}

/// The decimal representation of `n`, zero-padded to two characters (`{:02}`).
pub fn decimal_pad2_chars(n: u64) -> (r: Vec<char>)
    ensures
        r@ == decimal_pad2(n as nat),
{
    if n < 10 {
        let mut v: Vec<char> = Vec::new();
        v.push('0');
        v.push(digit_to_char(n));
        assert(v@ =~= seq!['0', digit_char(n as nat)]);
        v
    } else {
        decimal_chars(n)
    }
}

proof fn lemma_digits_value_prefix(s: Seq<char>, i: int)
    requires
        0 <= i <= s.len(),
    ensures
        digits_value(s.subrange(0, i)) <= digits_value(s),
    decreases s.len() - i,
{
    if i < s.len() {
        lemma_digits_value_prefix(s, i + 1);
        assert(s.subrange(0, i + 1).drop_last() =~= s.subrange(0, i));
    } else {
        assert(s.subrange(0, i) =~= s);
    }
}

/// The value of a string of ASCII digits, when it fits in `limit`.
fn digits_value_bounded(s: &[char], limit: u64) -> (r: Option<u64>)
    requires
        all_ascii_digits(s@),
        limit <= 0xffff_ffff_ffff_fff0u64 / 10,
    ensures
        match r {
            Some(v) => v as nat == digits_value(s@) && v <= limit,
            None => digits_value(s@) > limit,
        },
{
    let mut acc: u64 = 0;
    let mut i: usize = 0;
    while i < s.len()
        invariant
            all_ascii_digits(s@),
            limit <= 0xffff_ffff_ffff_fff0u64 / 10,
            i <= s@.len(),
            acc as nat == digits_value(s@.subrange(0, i as int)),
            acc <= limit,
        decreases s@.len() - i,
    {
        assert(is_ascii_digit_spec(s@[i as int]));
        let d: u64 = ((s[i] as u32) - ('0' as u32)) as u64;
        let next: u64 = acc * 10 + d;
        assert(s@.subrange(0, i + 1).drop_last() =~= s@.subrange(0, i as int));
        if next > limit {
            proof {
                lemma_digits_value_prefix(s@, i + 1);
            }
            return None;
        }
        acc = next;
        i += 1;
    }
    assert(s@.subrange(0, s@.len() as int) =~= s@);
    Some(acc)
}

/// std's `str::parse::<u32>` on a non-empty string of ASCII digits.
pub fn parse_digits_u32(s: &[char]) -> (r: Option<u32>)
    requires
        all_ascii_digits(s@),
    ensures
        r == (if digits_value(s@) <= 0xffff_ffff { Some(digits_value(s@) as u32) } else { None::<u32> }),
{
    match digits_value_bounded(s, 0xffff_ffff) {
        Some(v) => Some(v as u32),
        None => None,
    }
}

/// `n` as a `u64`, or `u64::MAX` where it does not fit.
pub open spec fn saturate_u64(n: nat) -> u64 {
    if n <= 0xffff_ffff_ffff_ffff { n as u64 } else { 0xffff_ffff_ffff_ffffu64 }
}

/// std's `str::parse::<u64>` on a non-empty string of ASCII digits, with
/// `u64::MAX` for a value that does not fit.
pub fn parse_digits_u64_saturating(s: &[char]) -> (r: u64)
    requires
        all_ascii_digits(s@),
    ensures
        r == saturate_u64(digits_value(s@)),
{
    let n = s.len();
    // Values of up to 18 digits fit; longer ones are checked digit by digit.
    let mut acc: u128 = 0;
    let mut i: usize = 0;
    while i < n
        invariant
            n == s@.len(),
            all_ascii_digits(s@),
            i <= n,
            acc as nat == digits_value(s@.subrange(0, i as int)),
            acc <= 0xffff_ffff_ffff_ffff,
        decreases n - i,
    {
        assert(is_ascii_digit_spec(s@[i as int]));
        let d: u128 = ((s[i] as u32) - ('0' as u32)) as u128;
        let next: u128 = acc * 10 + d;
        assert(s@.subrange(0, i + 1).drop_last() =~= s@.subrange(0, i as int));
        if next > 0xffff_ffff_ffff_ffff {
            proof {
                lemma_digits_value_prefix(s@, i + 1);
            }
            return 0xffff_ffff_ffff_ffffu64;
        }
        acc = next;
        i += 1;
    }
    assert(s@.subrange(0, n as int) =~= s@);
    acc as u64
}

fn all_digits(s: &[char]) -> (r: bool)
    ensures
        r == all_ascii_digits(s@),
{
    let mut i: usize = 0;
    while i < s.len()
        invariant
            i <= s@.len(),
            forall|j: int| 0 <= j < i ==> is_ascii_digit_spec(#[trigger] s@[j]),
        decreases s@.len() - i,
    {
        if !is_ascii_digit(s[i]) {
            return false;
        }
        i += 1;
    }
    true
}

/// std's `str::parse::<u16>`.
pub fn parse_u16(s: &[char]) -> (r: Option<u16>)
    ensures
        r == parse_u16_spec(s@),
{
    let d: Vec<char> = if s.len() > 0 && s[0] == '+' {
        let mut v: Vec<char> = Vec::new();
        let mut i: usize = 1;
        while i < s.len()
            invariant
                1 <= i <= s@.len(),
                v@ =~= s@.subrange(1, i as int),
            decreases s@.len() - i,
        {
            v.push(s[i]);
            i += 1;
        }
        assert(v@ =~= s@.drop_first());
        v
    } else {
        let mut v: Vec<char> = Vec::new();
        let mut i: usize = 0;
        while i < s.len()
            invariant
                i <= s@.len(),
                v@ =~= s@.subrange(0, i as int),
            decreases s@.len() - i,
        {
            v.push(s[i]);
            i += 1;
        }
        assert(v@ =~= s@);
        v
    };
    if d.len() == 0 || !all_digits(d.as_slice()) {
        return None;
    }
    match digits_value_bounded(d.as_slice(), 0xffff) {
        Some(v) => Some(v as u16),
        None => None,
    }
}

/// Appends the characters of `b` to `out`.
pub fn push_chars(out: &mut Vec<char>, b: &[char])
    ensures
        final(out)@ == old(out)@ + b@,
{
    let mut j: usize = 0;
    while j < b.len()
        invariant
            j <= b@.len(),
            out@ =~= old(out)@ + b@.subrange(0, j as int),
        decreases b@.len() - j,
    {
        out.push(b[j]);
        j += 1;
    }
    assert(b@.subrange(0, b@.len() as int) =~= b@);
}

/// Appends the characters of the literal `b` to `out`.
pub fn push_lit(out: &mut Vec<char>, b: &str)
    ensures
        final(out)@ == old(out)@ + b@,
{
    let n = b.unicode_len();
    let mut j: usize = 0;
    while j < n
        invariant
            n == b@.len(),
            j <= n,
            out@ =~= old(out)@ + b@.subrange(0, j as int),
        decreases n - j,
    {
        out.push(b.get_char(j));
        j += 1;
    }
    assert(b@.subrange(0, n as int) =~= b@);
}

/// Copies a character slice into a vector.
pub fn to_vec(a: &[char]) -> (r: Vec<char>)
    ensures
        r@ == a@,
{
    let mut out: Vec<char> = Vec::new();
    push_chars(&mut out, a);
    assert(out@ =~= a@);
    out
}

/// The deep view of a character vector is its view.
pub broadcast proof fn lemma_chars_deep_view(v: Vec<char>)
    ensures
        #[trigger] v.deep_view() == v@,
{
    assert(v.deep_view() =~= v@);
}

/// Whether `t` is one of the words `ws`.
pub open spec fn words_contain(ws: Seq<&str>, t: Seq<char>) -> bool {
    exists|j: int| 0 <= j < ws.len() && ws[j]@ == t
}

/// Whether the characters `t` spell one of the words `ws`.
pub fn in_words(t: &[char], ws: &[&str]) -> (r: bool)
    ensures
        r == words_contain(ws@, t@),
{
    let mut i: usize = 0;
    while i < ws.len()
        invariant
            i <= ws@.len(),
            forall|j: int| 0 <= j < i ==> ws@[j]@ != t@,
        decreases ws@.len() - i,
    {
        if eq_lit(t, ws[i]) {
            return true;
        }
        i += 1;
    }
    false
}

/// Whether `c` occurs in `s`.
pub fn has_char(s: &[char], c: char) -> (r: bool)
    ensures
        r == s@.contains(c),
{
    let mut i: usize = 0;
    while i < s.len()
        invariant
            i <= s@.len(),
            forall|j: int| 0 <= j < i ==> s@[j] != c,
        decreases s@.len() - i,
    {
        if s[i] == c {
            assert(s@[i as int] == c);
            return true;
        }
        i += 1;
    }
    false
}

/// The words joined with `sep` between consecutive ones.
pub fn join_chars(words: &Vec<Vec<char>>, sep: &str) -> (r: Vec<char>)
    ensures
        r@ == join_seqs(words.deep_view(), sep@),
{
    let ghost wv = words.deep_view();
    let mut out: Vec<char> = Vec::new();
    let mut i: usize = 0;
    while i < words.len()
        invariant
            i <= words@.len(),
            wv == words.deep_view(),
            out@ == join_seqs(wv.subrange(0, i as int), sep@),
        decreases words@.len() - i,
    {
        proof {
            lemma_chars_deep_view(words@[i as int]);
            let ws = wv.subrange(0, i + 1);
            assert(ws.drop_last() =~= wv.subrange(0, i as int));
            if i == 0 {
                assert(ws.len() == 1);
            }
        }
        if i > 0 {
            push_lit(&mut out, sep);
        }
        push_chars(&mut out, words[i].as_slice());
        proof {
            if i == 0 {
                assert(out@ =~= wv.subrange(0, 1)[0]);
            }
        }
        i += 1;
    }
    assert(wv.subrange(0, wv.len() as int) =~= wv);
    out
}

} // verus!
