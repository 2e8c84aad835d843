//! The messages the library's errors read as: one method per error type
//! that renders it as text, each stated exactly over the error's fields.

use vstd::prelude::*;
use crate::artifact::AutosuggestArtifactError;
use crate::generator_manifest::AutosuggestGeneratorManifestError;
use crate::generator_outputs::AutosuggestGeneratorHandoffError;
use crate::manifest_text::{decimal_chars, owned, push_decimal, push_str, ManifestErrorView};
use crate::open_vocab_merge::AutosuggestOpenVocabError;
use crate::personal_snapshot::{PersonalAutosuggestError, PersonalAutosuggestSnapshotError};
use crate::scorer_inputs::{AutosuggestRerankError, AutosuggestScorerHandoffError};
use crate::scorer_manifest::AutosuggestScorerManifestError;
use crate::text::string_push;

verus! {

/// `n` in decimal, with a leading minus sign when negative.
pub open spec fn signed_decimal_chars(n: int) -> Seq<char> {
    if n < 0 {
        seq!['-'] + decimal_chars((-n) as nat)
    } else {
        decimal_chars(n as nat)
    }
}

fn push_signed_decimal(s: &mut String, n: i64)
    ensures
        final(s)@ == old(s)@ + signed_decimal_chars(n as int),
{
    if n < 0 {
        string_push(s, '-');
        let magnitude: u64 = (-(n + 1)) as u64 + 1;
        push_decimal(s, magnitude);
        proof {
            assert(old(s)@ + signed_decimal_chars(n as int) =~= old(s)@.push('-') + decimal_chars(magnitude as nat));
        }
    } else {
        push_decimal(s, n as u64);
    }
}

/// Appends `a`, a decimal number, `b`, and another decimal number.
fn push_two_numbers(s: &mut String, a: &str, x: u64, b: &str, y: u64)
    ensures
        final(s)@ == old(s)@ + a@ + decimal_chars(x as nat) + b@ + decimal_chars(y as nat),
{
    push_str(s, a);
    push_decimal(s, x);
    push_str(s, b);
    push_decimal(s, y);
}

/// The message of an artifact error.
pub open spec fn artifact_error_text(e: AutosuggestArtifactError) -> Seq<char> {
    match e {
        AutosuggestArtifactError::UnexpectedEof => "autosuggest artifact is truncated"@,
        AutosuggestArtifactError::InvalidMagic => "autosuggest artifact has an invalid magic header"@,
        AutosuggestArtifactError::UnsupportedVersion(v) => "unsupported autosuggest artifact version "@
            + decimal_chars(v as nat),
        AutosuggestArtifactError::InvalidSectionLayout => "autosuggest artifact section layout is invalid"@,
        AutosuggestArtifactError::InvalidTokenId(id) => "autosuggest artifact references invalid token id "@
            + decimal_chars(id as nat),
        AutosuggestArtifactError::InvalidUtf8 => "autosuggest artifact contains invalid UTF-8 token bytes"@,
        AutosuggestArtifactError::ModelFingerprintMismatch { expected, actual } =>
            "autosuggest model fingerprint mismatch: expected "@ + decimal_chars(expected as nat) + ", got "@
            + decimal_chars(actual as nat),
    }
}

impl AutosuggestArtifactError {
    /// The error as a message ([`artifact_error_text`]).
    pub fn message(&self) -> (s: String)
        ensures
            s@ == artifact_error_text(*self),
    {
        match self {
            AutosuggestArtifactError::UnexpectedEof => owned("autosuggest artifact is truncated"),
            AutosuggestArtifactError::InvalidMagic => owned("autosuggest artifact has an invalid magic header"),
            AutosuggestArtifactError::UnsupportedVersion(v) => {
                let mut s = owned("unsupported autosuggest artifact version ");
                push_decimal(&mut s, *v as u64);
                s
            },
            AutosuggestArtifactError::InvalidSectionLayout => owned("autosuggest artifact section layout is invalid"),
            AutosuggestArtifactError::InvalidTokenId(id) => {
                let mut s = owned("autosuggest artifact references invalid token id ");
                push_decimal(&mut s, *id as u64);
                s
            },
            AutosuggestArtifactError::InvalidUtf8 => owned("autosuggest artifact contains invalid UTF-8 token bytes"),
            AutosuggestArtifactError::ModelFingerprintMismatch { expected, actual } => {
                let mut s = String::new();
                push_two_numbers(
                    &mut s,
                    "autosuggest model fingerprint mismatch: expected ",
                    *expected as u64,
                    ", got ",
                    *actual as u64,
                );
                s
            },
        }
    }
}

/// The message of a personal snapshot error.
pub open spec fn personal_error_text(e: PersonalAutosuggestError) -> Seq<char> {
    match e {
        PersonalAutosuggestError::UnexpectedEof => "personal autosuggest snapshot is truncated"@,
        PersonalAutosuggestError::InvalidMagic => "personal autosuggest snapshot has invalid magic"@,
        PersonalAutosuggestError::UnsupportedVersion(v) => "unsupported personal autosuggest snapshot version "@
            + decimal_chars(v as nat),
        PersonalAutosuggestError::InvalidLayout => "personal autosuggest snapshot layout is invalid"@,
    }
}

impl PersonalAutosuggestError {
    /// The error as a message ([`personal_error_text`]).
    pub fn message(&self) -> (s: String)
        ensures
            s@ == personal_error_text(*self),
    {
        match self {
            PersonalAutosuggestError::UnexpectedEof => owned("personal autosuggest snapshot is truncated"),
            PersonalAutosuggestError::InvalidMagic => owned("personal autosuggest snapshot has invalid magic"),
            PersonalAutosuggestError::UnsupportedVersion(v) => {
                let mut s = owned("unsupported personal autosuggest snapshot version ");
                push_decimal(&mut s, *v as u64);
                s
            },
            PersonalAutosuggestError::InvalidLayout => owned("personal autosuggest snapshot layout is invalid"),
        }
    }
}

impl PersonalAutosuggestSnapshotError {
    /// The message of the snapshot or model error it carries.
    pub fn message(&self) -> (s: String)
        ensures
            s@ == match *self {
                PersonalAutosuggestSnapshotError::Snapshot(e) => personal_error_text(e),
                PersonalAutosuggestSnapshotError::Model(e) => artifact_error_text(e),
            },
    {
        match self {
            PersonalAutosuggestSnapshotError::Snapshot(e) => e.message(),
            PersonalAutosuggestSnapshotError::Model(e) => e.message(),
        }
    }
}

/// The message of a buffer of the wrong length handed to a `kind` handoff.
pub open spec fn buffer_error_text(kind: Seq<char>, field: Seq<char>, expected: usize, actual: usize) -> Seq<char> {
    "autosuggest "@ + kind + " handoff expected "@ + field + " length "@ + decimal_chars(expected as nat) + ", got "@
        + decimal_chars(actual as nat)
}

fn buffer_error_message(kind: &str, field: &str, expected: usize, actual: usize) -> (s: String)
    ensures
        s@ == buffer_error_text(kind@, field@, expected, actual),
{
    let mut s = owned("autosuggest ");
    push_str(&mut s, kind);
    push_str(&mut s, " handoff expected ");
    push_str(&mut s, field);
    push_two_numbers(&mut s, " length ", expected as u64, ", got ", actual as u64);
    proof {
        assert(s@ =~= buffer_error_text(kind@, field@, expected, actual));
    }
    s
}

/// The message of a score buffer that does not match the candidates.
pub open spec fn rerank_error_text(e: AutosuggestRerankError) -> Seq<char> {
    match e {
        AutosuggestRerankError::ScoreLengthMismatch { candidates, scores } => "autosuggest reranker received "@
            + decimal_chars(scores as nat) + " model scores for "@ + decimal_chars(candidates as nat) + " candidates"@,
    }
}

impl AutosuggestRerankError {
    /// The error as a message ([`rerank_error_text`]).
    pub fn message(&self) -> (s: String)
        ensures
            s@ == rerank_error_text(*self),
    {
        match self {
            AutosuggestRerankError::ScoreLengthMismatch { candidates, scores } => {
                let mut s = String::new();
                push_two_numbers(
                    &mut s,
                    "autosuggest reranker received ",
                    *scores as u64,
                    " model scores for ",
                    *candidates as u64,
                );
                push_str(&mut s, " candidates");
                proof {
                    assert(s@ =~= rerank_error_text(*self));
                }
                s
            },
        }
    }
}

impl AutosuggestScorerHandoffError {
    /// The message of the artifact or rerank error it carries, or of the
    /// buffer of the wrong length.
    pub fn message(&self) -> (s: String)
        ensures
            s@ == match *self {
                AutosuggestScorerHandoffError::Artifact(e) => artifact_error_text(e),
                AutosuggestScorerHandoffError::Rerank(e) => rerank_error_text(e),
                AutosuggestScorerHandoffError::InvalidBuffer { field, expected, actual } => buffer_error_text(
                    "scorer"@,
                    field@,
                    expected,
                    actual,
                ),
            },
    {
        match self {
            AutosuggestScorerHandoffError::Artifact(e) => e.message(),
            AutosuggestScorerHandoffError::Rerank(e) => e.message(),
            AutosuggestScorerHandoffError::InvalidBuffer { field, expected, actual } => buffer_error_message(
                "scorer",
                field,
                *expected,
                *actual,
            ),
        }
    }
}

impl AutosuggestOpenVocabError {
    /// The message of the artifact error it carries, or of the buffer of
    /// the wrong length.
    pub fn message(&self) -> (s: String)
        ensures
            s@ == match *self {
                AutosuggestOpenVocabError::Artifact(e) => artifact_error_text(e),
                AutosuggestOpenVocabError::InvalidBuffer { field, expected, actual } => buffer_error_text(
                    "open-vocab"@,
                    field@,
                    expected,
                    actual,
                ),
            },
    {
        match self {
            AutosuggestOpenVocabError::Artifact(e) => e.message(),
            AutosuggestOpenVocabError::InvalidBuffer { field, expected, actual } => buffer_error_message(
                "open-vocab",
                field,
                *expected,
                *actual,
            ),
        }
    }
}

/// The message of a generator handoff error.
pub open spec fn generator_handoff_error_text(e: AutosuggestGeneratorHandoffError) -> Seq<char> {
    match e {
        AutosuggestGeneratorHandoffError::Artifact(a) => artifact_error_text(a),
        AutosuggestGeneratorHandoffError::InvalidBuffer { field, expected, actual } => buffer_error_text(
            "generator"@,
            field@,
            expected,
            actual,
        ),
        AutosuggestGeneratorHandoffError::MissingCandidatePool =>
            "autosuggest generator manifest does not declare a static candidate pool"@,
        AutosuggestGeneratorHandoffError::MissingScoredUnionPolicy =>
            "autosuggest generator manifest does not declare a scored-union policy"@,
        AutosuggestGeneratorHandoffError::InvalidGeneratedTokenId { index, token_id } =>
            "autosuggest generator returned invalid token id "@ + signed_decimal_chars(token_id as int) + " at rank "@
            + decimal_chars(index as nat),
    }
}

impl AutosuggestGeneratorHandoffError {
    /// The error as a message ([`generator_handoff_error_text`]).
    pub fn message(&self) -> (s: String)
        ensures
            s@ == generator_handoff_error_text(*self),
    {
        match self {
            AutosuggestGeneratorHandoffError::Artifact(e) => e.message(),
            AutosuggestGeneratorHandoffError::InvalidBuffer { field, expected, actual } => buffer_error_message(
                "generator",
                field,
                *expected,
                *actual,
            ),
            AutosuggestGeneratorHandoffError::MissingCandidatePool => owned(
                "autosuggest generator manifest does not declare a static candidate pool",
            ),
            AutosuggestGeneratorHandoffError::MissingScoredUnionPolicy => owned(
                "autosuggest generator manifest does not declare a scored-union policy",
            ),
            AutosuggestGeneratorHandoffError::InvalidGeneratedTokenId { index, token_id } => {
                let mut s = owned("autosuggest generator returned invalid token id ");
                push_signed_decimal(&mut s, *token_id);
                push_str(&mut s, " at rank ");
                push_decimal(&mut s, *index as u64);
                proof {
                    assert(s@ =~= generator_handoff_error_text(*self));
                }
                s
            },
        }
    }
}

/// The message of a `kind` manifest check that failed.
pub open spec fn manifest_error_text(kind: Seq<char>, e: ManifestErrorView) -> Seq<char> {
    match e {
        ManifestErrorView::Mismatch { field, expected, actual } => "autosuggest "@ + kind + " manifest mismatch for "@
            + field + ": expected "@ + expected + ", got "@ + actual,
        ManifestErrorView::Invalid { field, reason } => "autosuggest "@ + kind + " manifest has invalid "@ + field
            + ": "@ + reason,
        ManifestErrorView::Asset { field, path, reason } => "autosuggest "@ + kind
            + " manifest asset check failed for "@ + field + " at "@ + path + ": "@ + reason,
    }
}

/// `"autosuggest " + kind + a + x + b + y + c + z`.
fn manifest_message(kind: &str, a: &str, x: &str, b: &str, y: &str, c: &str, z: &str) -> (s: String)
    ensures
        s@ == "autosuggest "@ + kind@ + a@ + x@ + b@ + y@ + c@ + z@,
{
    let mut s = owned("autosuggest ");
    push_str(&mut s, kind);
    push_str(&mut s, a);
    push_str(&mut s, x);
    push_str(&mut s, b);
    push_str(&mut s, y);
    push_str(&mut s, c);
    push_str(&mut s, z);
    s
}

fn manifest_error_message(
    kind: &str,
    e: &ManifestErrorParts,
) -> (s: String)
    ensures
        s@ == manifest_error_text(kind@, e.spec_view()),
{
    match e {
        ManifestErrorParts::Mismatch { field, expected, actual } => {
            let s = manifest_message(kind, " manifest mismatch for ", field, ": expected ", expected, ", got ", actual);
            proof {
                assert(s@ =~= manifest_error_text(kind@, e.spec_view()));
            }
            s
        },
        ManifestErrorParts::Invalid { field, reason } => {
            let s = manifest_message(kind, " manifest has invalid ", field, ": ", reason, "", "");
            proof {
                reveal_strlit("");
                assert(s@ =~= manifest_error_text(kind@, e.spec_view()));
            }
            s
        },
        ManifestErrorParts::Asset { field, path, reason } => {
            let s = manifest_message(kind, " manifest asset check failed for ", field, " at ", path, ": ", reason);
            proof {
                assert(s@ =~= manifest_error_text(kind@, e.spec_view()));
            }
            s
        },
    }
}

/// The text parts of a manifest error, borrowed.
enum ManifestErrorParts<'a> {
    Mismatch { field: &'a str, expected: &'a str, actual: &'a str },
    Invalid { field: &'a str, reason: &'a str },
    Asset { field: &'a str, path: &'a str, reason: &'a str },
}

impl<'a> ManifestErrorParts<'a> {
    spec fn spec_view(&self) -> ManifestErrorView {
        match *self {
            ManifestErrorParts::Mismatch { field, expected, actual } => ManifestErrorView::Mismatch {
                field: field@,
                expected: expected@,
                actual: actual@,
            },
            ManifestErrorParts::Invalid { field, reason } => ManifestErrorView::Invalid { field: field@, reason: reason@ },
            ManifestErrorParts::Asset { field, path, reason } => ManifestErrorView::Asset {
                field: field@,
                path: path@,
                reason: reason@,
            },
        }
    }
}

impl AutosuggestScorerManifestError {
    /// The error as a message ([`manifest_error_text`] for a scorer).
    pub fn message(&self) -> (s: String)
        ensures
            s@ == manifest_error_text("scorer"@, self@),
    {
        let parts = match self {
            AutosuggestScorerManifestError::Mismatch { field, expected, actual } => ManifestErrorParts::Mismatch {
                field,
                expected: expected.as_str(),
                actual: actual.as_str(),
            },
            AutosuggestScorerManifestError::Invalid { field, reason } => ManifestErrorParts::Invalid {
                field,
                reason: reason.as_str(),
            },
            AutosuggestScorerManifestError::Asset { field, path, reason } => ManifestErrorParts::Asset {
                field,
                path: path.as_str(),
                reason: reason.as_str(),
            },
        };
        manifest_error_message("scorer", &parts)
    }
}

impl AutosuggestGeneratorManifestError {
    /// The error as a message ([`manifest_error_text`] for a generator).
    pub fn message(&self) -> (s: String)
        ensures
            s@ == manifest_error_text("generator"@, self@),
    {
        let parts = match self {
            AutosuggestGeneratorManifestError::Mismatch { field, expected, actual } => ManifestErrorParts::Mismatch {
                field,
                expected: expected.as_str(),
                actual: actual.as_str(),
            },
            AutosuggestGeneratorManifestError::Invalid { field, reason } => ManifestErrorParts::Invalid {
                field,
                reason: reason.as_str(),
            },
            AutosuggestGeneratorManifestError::Asset { field, path, reason } => ManifestErrorParts::Asset {
                field,
                path: path.as_str(),
                reason: reason.as_str(),
            },
        };
        manifest_error_message("generator", &parts)
    }
}

} // verus!
