//! The token features a slot model scores, and the checks a model must pass.

use vstd::prelude::*;
use crate::domain::{ParseSlotLabel, TokenCompoundKind, TokenFeatureKind, TokenFeatures};
use crate::text::{chars_to_string, decimal, decimal_chars, push_chars, push_lit, str_chars, string_chars};

verus! {

/// Who made a slot model, and when.
#[derive(Debug, Clone)]
pub struct CrfModelMetadata {
    pub model_name: String,
    pub model_version: String,
    pub trained_at: Option<String>,
    pub training_note: Option<String>,
}

pub open spec fn feature_kind_text(kind: TokenFeatureKind) -> Seq<char> {
    match kind {
        TokenFeatureKind::Alpha => "alpha"@,
        TokenFeatureKind::Number => "number"@,
        TokenFeatureKind::Separator => "separator"@,
        TokenFeatureKind::Other => "other"@,
    }
}

pub open spec fn compound_kind_text(kind: TokenCompoundKind) -> Seq<char> {
    match kind {
        TokenCompoundKind::SxxExx => "sxx_exx"@,
        TokenCompoundKind::VersionedEpisode => "versioned_episode"@,
        TokenCompoundKind::Resolution => "resolution"@,
        TokenCompoundKind::Codec => "codec"@,
        TokenCompoundKind::Source => "source"@,
        TokenCompoundKind::Language => "language"@,
        TokenCompoundKind::Hash => "hash"@,
    }
}

/// The range a number falls in.
pub open spec fn number_bucket_text(value: u32) -> Seq<char> {
    if value == 0 {
        "zero"@
    } else if 1 <= value <= 12 {
        "small"@
    } else if 13 <= value <= 99 {
        "episode_range"@
    } else if 100 <= value <= 200 {
        "long_series"@
    } else if 201 <= value <= 479 {
        "large_noise"@
    } else if value == 480 || value == 720 || value == 1080 || value == 1440 || value == 2160 || value == 4320 {
        "resolution"@
    } else if 1900 <= value <= 2099 {
        "year"@
    } else {
        "other"@
    }
}

pub open spec fn bool_text(b: bool) -> Seq<char> {
    if b { "true"@ } else { "false"@ }
}

pub open spec fn opt_text_or(s: Option<String>, fallback: Seq<char>) -> Seq<char> {
    match s {
        Some(t) => t@,
        None => fallback,
    }
}

/// The features every token has, by name.
pub open spec fn base_feature_names_spec(f: TokenFeatures) -> Seq<Seq<char>> {
    seq![
        "bias"@,
        "kind="@ + feature_kind_text(f.kind),
        "compound="@ + match f.compound_kind {
            Some(k) => compound_kind_text(k),
            None => "none"@,
        },
        "lower="@ + f.lower@,
        "prev="@ + opt_text_or(f.previous_token, "<bos>"@),
        "next="@ + opt_text_or(f.next_token, "<eos>"@),
        "bracketed="@ + bool_text(f.is_bracketed),
        "episode_marker="@ + bool_text(f.is_episode_marker_context),
        "season_marker="@ + bool_text(f.is_season_marker_context),
        "quality_or_source="@ + bool_text(f.is_quality_or_source),
        "language_token="@ + bool_text(f.is_language_token),
        "special_token="@ + bool_text(f.is_special_token),
    ]
}

/// The features of a token's number, by name.
pub open spec fn number_feature_names_spec(f: TokenFeatures) -> Seq<Seq<char>> {
    let numbers = match f.number_value {
        Some(v) => {
            let two = seq!["number=present"@, "number_bucket="@ + number_bucket_text(v)];
            if v <= 200 { two.push("number_value="@ + decimal(v as nat)) } else { two }
        },
        None => seq!["number=absent"@],
    };
    let width = match f.number_width {
        Some(w) => seq!["number_width="@ + decimal(w as nat)],
        None => Seq::empty(),
    };
    numbers + width
}

/// The features of a token that a slot model can weigh, by name.
pub open spec fn active_feature_names_spec(f: TokenFeatures) -> Seq<Seq<char>> {
    base_feature_names_spec(f) + number_feature_names_spec(f)
}

pub fn feature_kind_name(kind: TokenFeatureKind) -> (r: &'static str)
    ensures
        r@ == feature_kind_text(kind),
{
    match kind {
        TokenFeatureKind::Alpha => "alpha",
        TokenFeatureKind::Number => "number",
        TokenFeatureKind::Separator => "separator",
        TokenFeatureKind::Other => "other",
    }
}

pub fn compound_kind_name(kind: TokenCompoundKind) -> (r: &'static str)
    ensures
        r@ == compound_kind_text(kind),
{
    match kind {
        TokenCompoundKind::SxxExx => "sxx_exx",
        TokenCompoundKind::VersionedEpisode => "versioned_episode",
        TokenCompoundKind::Resolution => "resolution",
        TokenCompoundKind::Codec => "codec",
        TokenCompoundKind::Source => "source",
        TokenCompoundKind::Language => "language",
        TokenCompoundKind::Hash => "hash",
    }
}

/// The range a number falls in.
pub fn number_bucket(value: u32) -> (r: &'static str)
    ensures
        r@ == number_bucket_text(value),
{
    if value == 0 {
        "zero"
    } else if value <= 12 {
        "small"
    } else if value <= 99 {
        "episode_range"
    } else if value <= 200 {
        "long_series"
    } else if value <= 479 {
        "large_noise"
    } else if value == 480 || value == 720 || value == 1080 || value == 1440 || value == 2160 || value == 4320 {
        "resolution"
    } else if 1900 <= value && value <= 2099 {
        "year"
    } else {
        "other"
    }
}

fn push_named(names: &mut Vec<String>, prefix: &str, value: &[char])
    ensures
        crate::domain::texts(final(names)@) == crate::domain::texts(old(names)@).push(prefix@ + value@),
{
    let mut v = str_chars(prefix);
    push_chars(&mut v, value);
    names.push(chars_to_string(v.as_slice()));
    assert(crate::domain::texts(names@) =~= crate::domain::texts(old(names)@).push(prefix@ + value@));
}

fn bool_chars(b: bool) -> (r: Vec<char>)
    ensures
        r@ == bool_text(b),
{
    if b { str_chars("true") } else { str_chars("false") }
}

fn opt_chars_or(s: &Option<String>, fallback: &str) -> (r: Vec<char>)
    ensures
        r@ == opt_text_or(*s, fallback@),
{
    match s {
        Some(t) => string_chars(t),
        None => str_chars(fallback),
    }
}

fn base_feature_names(feature: &TokenFeatures) -> (r: Vec<String>)
    ensures
        crate::domain::texts(r@) == base_feature_names_spec(*feature),
{
    let mut names: Vec<String> = Vec::new();
    let empty: Vec<char> = Vec::new();
    push_named(&mut names, "bias", empty.as_slice());
    let kind = str_chars(feature_kind_name(feature.kind));
    push_named(&mut names, "kind=", kind.as_slice());
    let compound = match feature.compound_kind {
        Some(k) => str_chars(compound_kind_name(k)),
        None => str_chars("none"),
    };
    push_named(&mut names, "compound=", compound.as_slice());
    let lower = string_chars(&feature.lower);
    push_named(&mut names, "lower=", lower.as_slice());
    let prev = opt_chars_or(&feature.previous_token, "<bos>");
    push_named(&mut names, "prev=", prev.as_slice());
    let next = opt_chars_or(&feature.next_token, "<eos>");
    push_named(&mut names, "next=", next.as_slice());
    let b = bool_chars(feature.is_bracketed);
    push_named(&mut names, "bracketed=", b.as_slice());
    let b = bool_chars(feature.is_episode_marker_context);
    push_named(&mut names, "episode_marker=", b.as_slice());
    let b = bool_chars(feature.is_season_marker_context);
    push_named(&mut names, "season_marker=", b.as_slice());
    let b = bool_chars(feature.is_quality_or_source);
    push_named(&mut names, "quality_or_source=", b.as_slice());
    let b = bool_chars(feature.is_language_token);
    push_named(&mut names, "language_token=", b.as_slice());
    let b = bool_chars(feature.is_special_token);
    push_named(&mut names, "special_token=", b.as_slice());
    assert("bias"@ + empty@ =~= "bias"@);
    assert(crate::domain::texts(names@) =~= base_feature_names_spec(*feature));
    names
}

fn number_feature_names(feature: &TokenFeatures) -> (r: Vec<String>)
    ensures
        crate::domain::texts(r@) == number_feature_names_spec(*feature),
{
    let mut names: Vec<String> = Vec::new();
    let empty: Vec<char> = Vec::new();
    match feature.number_value {
        Some(v) => {
            push_named(&mut names, "number=present", empty.as_slice());
            let bucket = str_chars(number_bucket(v));
            push_named(&mut names, "number_bucket=", bucket.as_slice());
            if v <= 200 {
                let digits = decimal_chars(v as u64);
                push_named(&mut names, "number_value=", digits.as_slice());
            }
            assert("number=present"@ + empty@ =~= "number=present"@);
        },
        None => {
            push_named(&mut names, "number=absent", empty.as_slice());
            assert("number=absent"@ + empty@ =~= "number=absent"@);
        },
    }
    match feature.number_width {
        Some(w) => {
            let digits = decimal_chars(w as u64);
            push_named(&mut names, "number_width=", digits.as_slice());
        },
        None => {},
    }
    assert(crate::domain::texts(names@) =~= number_feature_names_spec(*feature));
    names
}

/// The features of a token that a slot model can weigh, by name.
pub fn active_feature_names(feature: &TokenFeatures) -> (r: Vec<String>)
    ensures
        crate::domain::texts(r@) == active_feature_names_spec(*feature),
{
    let mut names = base_feature_names(feature);
    let mut numbers = number_feature_names(feature);
    let ghost a = names@;
    let ghost b = numbers@;
    names.append(&mut numbers);
    assert(crate::domain::texts(names@) =~= crate::domain::texts(a) + crate::domain::texts(b));
    names
}

/// Why a slot model was refused.
#[derive(Debug, Clone, Copy, PartialEq, Eq, Structural)]
pub enum CrfModelError {
    /// The schema version is not 1.
    UnsupportedSchemaVersion(u16),
    /// The model has no labels.
    NoLabels,
    /// The labels do not include `Episode`.
    NoEpisodeLabel,
}

/// Checks a model's schema version and labels.
pub fn validate_model_labels(schema_version: u16, labels: &Vec<ParseSlotLabel>) -> (r: Result<(), CrfModelError>)
    ensures
        schema_version != 1 ==> r == Err::<(), CrfModelError>(CrfModelError::UnsupportedSchemaVersion(schema_version)),
        schema_version == 1 && labels@.len() == 0 ==> r == Err::<(), CrfModelError>(CrfModelError::NoLabels),
        schema_version == 1 && labels@.len() > 0 && !labels@.contains(ParseSlotLabel::Episode)
            ==> r == Err::<(), CrfModelError>(CrfModelError::NoEpisodeLabel),
        schema_version == 1 && labels@.contains(ParseSlotLabel::Episode) ==> r is Ok,
{
    if schema_version != 1 {
        return Err(CrfModelError::UnsupportedSchemaVersion(schema_version));
    }
    if labels.len() == 0 {
        return Err(CrfModelError::NoLabels);
    }
    let mut i: usize = 0;
    while i < labels.len()
        invariant
            schema_version == 1,
            i <= labels@.len(),
            forall|k: int| 0 <= k < i ==> labels@[k] != ParseSlotLabel::Episode,
        decreases labels@.len() - i,
    {
        if labels[i] == ParseSlotLabel::Episode {
            assert(labels@.contains(ParseSlotLabel::Episode));
            return Ok(());
        }
        i += 1;
    }
    Err(CrfModelError::NoEpisodeLabel)
}

/// The confidence a model gives an accepted episode, kept within 50 to 92.
pub fn clamp_episode_confidence(confidence: u8) -> (r: u8)
    ensures
        r == (if confidence < 50 { 50 } else if confidence > 92 { 92 } else { confidence }),
{
    if confidence < 50 {
        50
    } else if confidence > 92 {
        92
    } else {
        confidence
    }
}

} // verus!
