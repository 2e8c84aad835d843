//! What a packaged reranking scorer declares about itself, checked against
//! the loaded n-gram model before any scorer output is trusted.
//!
//! The manifest's floating-point fields (its rank penalty and quality gains)
//! enter as the verdicts the caller reached on them; every other field is
//! checked here, in the manifest's own order.

use vstd::prelude::*;
use vstd::string::StringSliceAdditionalSpecFns;
use crate::candidate::DEFAULT_AUTOSUGGEST_CANDIDATES;
use crate::context::{AUTOSUGGEST_BOS_ID, AUTOSUGGEST_PAD_ID, AUTOSUGGEST_UNK_ID, MAX_AUTOSUGGEST_RERANK_CONTEXT_TOKENS};
use crate::fnv::{fnv64, FNV64_OFFSET};
use crate::lm::{AutosuggestLm, LmView};
use crate::manifest_text::{
    decimal_chars, decimal_string, empty_shape, hex16_chars, hex16_string, invalid_when, is_sha256_text,
    float_mismatch, number_mismatch, owned, sha256_text_ok, text_mismatch, text_with_number, AutosuggestFloatMatch,
    ManifestErrorView,
};

verus! {

pub const AUTOSUGGEST_SCORER_PACKAGE_KIND: &'static str = "obadh-autosuggest-scorer-package";
pub const AUTOSUGGEST_SCORER_RUNTIME_ROLE: &'static str = "next_word_candidate_rerank";
pub const AUTOSUGGEST_SCORER_MANIFEST_VERSION: u32 = 1;
pub const AUTOSUGGEST_SCORER_TOKEN_ID_DTYPE: &'static str = "uint32";
pub const AUTOSUGGEST_SCORER_ONNX_INPUT_DTYPE: &'static str = "int64";
pub const AUTOSUGGEST_SCORER_COREML_INPUT_DTYPE: &'static str = "int32";
pub const AUTOSUGGEST_SCORER_SCORE_DTYPE: &'static str = "float32";
/// How many of the static model's leading candidates a rerank keeps in place.
pub const DEFAULT_AUTOSUGGEST_RERANK_LOCKED_PREFIX: usize = 1;

/// The n-gram artifact a scorer package was built against.
#[derive(Debug, Clone)]
pub struct AutosuggestScorerNgram {
    pub path: String,
    pub manifest: String,
    pub bytes: usize,
    pub artifact_fingerprint: String,
    pub vocab_size: usize,
    pub vocab_fingerprint: u32,
    pub max_candidates_per_prefix: usize,
    pub candidate_rows: usize,
    pub candidate_record_len: usize,
}

/// One packaged model file: where it lies, its size and its SHA-256.
#[derive(Debug, Clone)]
pub struct AutosuggestScorerFile {
    pub path: String,
    pub bytes: usize,
    pub sha256: String,
}

/// The scorer network a package ships.
#[derive(Debug, Clone)]
pub struct AutosuggestScorerModel {
    pub architecture: String,
    pub context_window: usize,
    pub embedding_dim: usize,
    pub hidden_dim: usize,
    pub parameter_count: usize,
    pub pool_k: usize,
    pub onnx: AutosuggestScorerFile,
    pub quantized_onnx: AutosuggestScorerFile,
    pub coreml: AutosuggestScorerFile,
    pub coreml_target: String,
    pub coreml_precision: String,
    pub coreml_compute_unit: String,
}

/// The runtime contract of a scorer package, but for its rank penalty.
#[derive(Debug, Clone)]
pub struct AutosuggestScorerContractFields {
    pub token_id_dtype: String,
    pub onnx_input_dtype: String,
    pub coreml_input_dtype: String,
    pub scores_dtype: String,
    pub batch_size: usize,
    pub context_ids_shape: [usize; 2],
    pub candidate_ids_shape: [usize; 2],
    pub scores_shape: [usize; 2],
    pub pad_id: u32,
    pub bos_id: u32,
    pub unk_id: u32,
    pub locked_prefix: usize,
    pub visible_candidates: usize,
}

/// A scorer manifest as plain values: its floating-point fields enter as
/// the verdicts reached on them.
#[derive(Debug, Clone)]
pub struct AutosuggestScorerManifestFields {
    pub artifact: String,
    pub version: u32,
    pub runtime_role: String,
    pub runtime_contract: AutosuggestScorerContractFields,
    pub ngram: AutosuggestScorerNgram,
    pub scorer: AutosuggestScorerModel,
    /// `runtime_contract.rank_penalty` against the rerank default.
    pub rank_penalty: AutosuggestFloatMatch,
    /// `quality.top5_all_target_gain` is finite and positive.
    pub top5_gain_valid: bool,
    /// `quality.top10_all_target_gain` is finite.
    pub top10_gain_valid: bool,
}

/// The identity and shape of a scorer package that matched the model.
#[derive(Debug, Clone)]
pub struct AutosuggestScorerCheckedFields {
    pub artifact: String,
    pub version: u32,
    pub runtime_role: String,
    pub ngram_artifact_bytes: usize,
    pub ngram_artifact_fingerprint: String,
    pub vocab_size: usize,
    pub vocab_fingerprint: u32,
    pub token_id_dtype: String,
    pub onnx_input_dtype: String,
    pub coreml_input_dtype: String,
    pub scores_dtype: String,
    pub context_window: usize,
    pub candidate_pool: usize,
    pub visible_candidates: usize,
    pub locked_prefix: usize,
}

#[derive(Debug, Clone, PartialEq)]
pub enum AutosuggestScorerManifestError {
    Mismatch { field: &'static str, expected: String, actual: String },
    Invalid { field: &'static str, reason: String },
    Asset { field: &'static str, path: String, reason: String },
}

impl View for AutosuggestScorerManifestError {
    type V = ManifestErrorView;

    open spec fn view(&self) -> ManifestErrorView {
        match self {
            AutosuggestScorerManifestError::Mismatch { field, expected, actual } => ManifestErrorView::Mismatch {
                field: field@,
                expected: expected@,
                actual: actual@,
            },
            AutosuggestScorerManifestError::Invalid { field, reason } => ManifestErrorView::Invalid {
                field: field@,
                reason: reason@,
            },
            AutosuggestScorerManifestError::Asset { field, path, reason } => ManifestErrorView::Asset {
                field: field@,
                path: path@,
                reason: reason@,
            },
        }
    }
}

/// The first problem of a scorer manifest checked against a model, in the
/// manifest's order, or `None` when it matches.
pub open spec fn scorer_manifest_problem(m: AutosuggestScorerManifestFields, v: LmView) -> Option<ManifestErrorView> {
    let c = m.runtime_contract;
    let fp = hex16_chars(fnv64(FNV64_OFFSET, v.bytes));
    let p01 = text_mismatch("artifact", AUTOSUGGEST_SCORER_PACKAGE_KIND@, m.artifact@);
    let p02 = number_mismatch("version", AUTOSUGGEST_SCORER_MANIFEST_VERSION as nat, m.version as nat);
    let p03 = text_mismatch("runtime_role", AUTOSUGGEST_SCORER_RUNTIME_ROLE@, m.runtime_role@);
    let p04 = number_mismatch("ngram.bytes", v.bytes.len(), m.ngram.bytes as nat);
    let p05 = text_mismatch("ngram.artifact_fingerprint", fp, m.ngram.artifact_fingerprint@);
    let p06 = number_mismatch("ngram.vocab_size", v.layout.header.vocab_size as nat, m.ngram.vocab_size as nat);
    let p07 = number_mismatch("ngram.vocab_fingerprint", v.vocab_fingerprint as nat, m.ngram.vocab_fingerprint as nat);
    let p08 = number_mismatch(
        "ngram.candidate_record_len",
        v.layout.header.candidate_record_len as nat,
        m.ngram.candidate_record_len as nat,
    );
    let p09 = text_mismatch("runtime_contract.token_id_dtype", AUTOSUGGEST_SCORER_TOKEN_ID_DTYPE@, c.token_id_dtype@);
    let p10 = text_mismatch(
        "runtime_contract.onnx_input_dtype",
        AUTOSUGGEST_SCORER_ONNX_INPUT_DTYPE@,
        c.onnx_input_dtype@,
    );
    let p11 = text_mismatch(
        "runtime_contract.coreml_input_dtype",
        AUTOSUGGEST_SCORER_COREML_INPUT_DTYPE@,
        c.coreml_input_dtype@,
    );
    let p12 = text_mismatch("runtime_contract.scores_dtype", AUTOSUGGEST_SCORER_SCORE_DTYPE@, c.scores_dtype@);
    let p13 = empty_shape("runtime_contract.context_ids_shape", c.context_ids_shape);
    let p14 = empty_shape("runtime_contract.candidate_ids_shape", c.candidate_ids_shape);
    let p15 = empty_shape("runtime_contract.scores_shape", c.scores_shape);
    let p16 = number_mismatch("runtime_contract.batch_size", 1, c.batch_size as nat);
    let p17 = number_mismatch(
        "runtime_contract.context_ids_shape[0]",
        c.batch_size as nat,
        c.context_ids_shape[0] as nat,
    );
    let p18 = number_mismatch(
        "runtime_contract.candidate_ids_shape[0]",
        c.batch_size as nat,
        c.candidate_ids_shape[0] as nat,
    );
    let p19 = number_mismatch("runtime_contract.scores_shape[0]", c.batch_size as nat, c.scores_shape[0] as nat);
    let p20 = number_mismatch(
        "runtime_contract.context_ids_shape[1]",
        m.scorer.context_window as nat,
        c.context_ids_shape[1] as nat,
    );
    let p21 = number_mismatch(
        "runtime_contract.candidate_ids_shape[1]",
        m.scorer.pool_k as nat,
        c.candidate_ids_shape[1] as nat,
    );
    let p22 = number_mismatch("runtime_contract.scores_shape[1]", m.scorer.pool_k as nat, c.scores_shape[1] as nat);
    let p23 = number_mismatch("runtime_contract.pad_id", AUTOSUGGEST_PAD_ID as nat, c.pad_id as nat);
    let p24 = number_mismatch("runtime_contract.bos_id", AUTOSUGGEST_BOS_ID as nat, c.bos_id as nat);
    let p25 = number_mismatch("runtime_contract.unk_id", AUTOSUGGEST_UNK_ID as nat, c.unk_id as nat);
    let p26 = number_mismatch(
        "runtime_contract.locked_prefix",
        DEFAULT_AUTOSUGGEST_RERANK_LOCKED_PREFIX as nat,
        c.locked_prefix as nat,
    );
    let p27 = float_mismatch("runtime_contract.rank_penalty", m.rank_penalty);
    let p28 = number_mismatch(
        "runtime_contract.visible_candidates",
        DEFAULT_AUTOSUGGEST_CANDIDATES as nat,
        c.visible_candidates as nat,
    );
    let p29 = invalid_when(
        m.scorer.context_window > MAX_AUTOSUGGEST_RERANK_CONTEXT_TOKENS,
        "scorer.context_window",
        "exceeds runtime context buffer "@ + decimal_chars(MAX_AUTOSUGGEST_RERANK_CONTEXT_TOKENS as nat),
    );
    let p30 = invalid_when(
        m.ngram.max_candidates_per_prefix < m.scorer.pool_k,
        "ngram.max_candidates_per_prefix",
        "is smaller than scorer.pool_k "@ + decimal_chars(m.scorer.pool_k as nat),
    );
    let p31 = invalid_when(
        c.visible_candidates > m.scorer.pool_k,
        "runtime_contract.visible_candidates",
        "exceeds scorer.pool_k "@ + decimal_chars(m.scorer.pool_k as nat),
    );
    let p32 = invalid_when(
        c.locked_prefix > c.visible_candidates,
        "runtime_contract.locked_prefix",
        "exceeds visible candidate count "@ + decimal_chars(c.visible_candidates as nat),
    );
    let p33 = invalid_when(!m.top5_gain_valid, "quality.top5_all_target_gain", "must be finite and positive"@);
    let p34 = invalid_when(!m.top10_gain_valid, "quality.top10_all_target_gain", "must be finite"@);
    if p01 is Some { p01 }
    else if p02 is Some { p02 }
    else if p03 is Some { p03 }
    else if p04 is Some { p04 }
    else if p05 is Some { p05 }
    else if p06 is Some { p06 }
    else if p07 is Some { p07 }
    else if p08 is Some { p08 }
    else if p09 is Some { p09 }
    else if p10 is Some { p10 }
    else if p11 is Some { p11 }
    else if p12 is Some { p12 }
    else if p13 is Some { p13 }
    else if p14 is Some { p14 }
    else if p15 is Some { p15 }
    else if p16 is Some { p16 }
    else if p17 is Some { p17 }
    else if p18 is Some { p18 }
    else if p19 is Some { p19 }
    else if p20 is Some { p20 }
    else if p21 is Some { p21 }
    else if p22 is Some { p22 }
    else if p23 is Some { p23 }
    else if p24 is Some { p24 }
    else if p25 is Some { p25 }
    else if p26 is Some { p26 }
    else if p27 is Some { p27 }
    else if p28 is Some { p28 }
    else if p29 is Some { p29 }
    else if p30 is Some { p30 }
    else if p31 is Some { p31 }
    else if p32 is Some { p32 }
    else if p33 is Some { p33 }
    else { p34 }
}

/// The identity a matching scorer manifest reports: its own declarations and
/// the model's measured ones.
pub open spec fn scorer_checked(r: AutosuggestScorerCheckedFields, m: AutosuggestScorerManifestFields, v: LmView) -> bool {
    &&& r.artifact@ == m.artifact@
    &&& r.version == m.version
    &&& r.runtime_role@ == m.runtime_role@
    &&& r.ngram_artifact_bytes == v.bytes.len()
    &&& r.ngram_artifact_fingerprint@ == hex16_chars(fnv64(FNV64_OFFSET, v.bytes))
    &&& r.vocab_size == v.layout.header.vocab_size
    &&& r.vocab_fingerprint == v.vocab_fingerprint
    &&& r.token_id_dtype@ == m.runtime_contract.token_id_dtype@
    &&& r.onnx_input_dtype@ == m.runtime_contract.onnx_input_dtype@
    &&& r.coreml_input_dtype@ == m.runtime_contract.coreml_input_dtype@
    &&& r.scores_dtype@ == m.runtime_contract.scores_dtype@
    &&& r.context_window == m.scorer.context_window
    &&& r.candidate_pool == m.scorer.pool_k
    &&& r.visible_candidates == m.runtime_contract.visible_candidates
    &&& r.locked_prefix == m.runtime_contract.locked_prefix
}

/// The problem a check reported, if any.
pub open spec fn problem_of(r: Result<(), AutosuggestScorerManifestError>) -> Option<ManifestErrorView> {
    match r {
        Err(e) => Some(e@),
        Ok(()) => None,
    }
}

/// Requires a text field to equal what is expected.
pub fn require_equal_str(field: &'static str, expected: &str, actual: &String) -> (r: Result<
    (),
    AutosuggestScorerManifestError,
>)
    ensures
        problem_of(r) == text_mismatch(field, expected@, actual@),
{
    let expected = owned(expected);
    if expected != *actual {
        Err(AutosuggestScorerManifestError::Mismatch { field, expected, actual: actual.clone() })
    } else {
        Ok(())
    }
}

/// Requires a number field to equal what is expected.
pub fn require_equal_number(field: &'static str, expected: u64, actual: u64) -> (r: Result<
    (),
    AutosuggestScorerManifestError,
>)
    ensures
        problem_of(r) == number_mismatch(field, expected as nat, actual as nat),
{
    if expected != actual {
        Err(
            AutosuggestScorerManifestError::Mismatch {
                field,
                expected: decimal_string(expected),
                actual: decimal_string(actual),
            },
        )
    } else {
        Ok(())
    }
}

fn require_shape(field: &'static str, shape: [usize; 2]) -> (r: Result<(), AutosuggestScorerManifestError>)
    ensures
        problem_of(r) == empty_shape(field, shape),
{
    if shape[0] == 0 || shape[1] == 0 {
        Err(AutosuggestScorerManifestError::Invalid { field, reason: owned("must be a non-empty 2D fixed shape") })
    } else {
        Ok(())
    }
}

/// Requires a declared SHA-256 to be 64 hexadecimal digits.
pub fn validate_sha256_format(field: &'static str, value: &str) -> (r: Result<(), AutosuggestScorerManifestError>)
    ensures
        problem_of(r) == invalid_when(!is_sha256_text(value.spec_bytes()), field, "sha256 must be 64 hex characters"@),
{
    if !sha256_text_ok(value) {
        Err(AutosuggestScorerManifestError::Invalid { field, reason: owned("sha256 must be 64 hex characters") })
    } else {
        Ok(())
    }
}

fn invalid(field: &'static str, reason: String) -> (e: AutosuggestScorerManifestError)
    ensures
        e@ == (ManifestErrorView::Invalid { field: field@, reason: reason@ }),
{
    AutosuggestScorerManifestError::Invalid { field, reason }
}

impl AutosuggestScorerManifestFields {
    /// Checks the manifest against the loaded model, field by field in the
    /// manifest's order, and reports the first problem found.
    pub fn validate_for_lm(&self, lm: &AutosuggestLm) -> (r: Result<
        AutosuggestScorerCheckedFields,
        AutosuggestScorerManifestError,
    >)
        ensures
            match scorer_manifest_problem(*self, lm@) {
                Some(p) => r matches Err(e) && e@ == p,
                None => r matches Ok(c) && scorer_checked(c, *self, lm@),
            },
    {
        let c = &self.runtime_contract;
        if let Err(e) = require_equal_str("artifact", AUTOSUGGEST_SCORER_PACKAGE_KIND, &self.artifact) {
            return Err(e);
        }
        if let Err(e) = require_equal_number(
            "version",
            AUTOSUGGEST_SCORER_MANIFEST_VERSION as u64,
            self.version as u64,
        ) {
            return Err(e);
        }
        if let Err(e) = require_equal_str("runtime_role", AUTOSUGGEST_SCORER_RUNTIME_ROLE, &self.runtime_role) {
            return Err(e);
        }
        let info = lm.model_info();
        let fingerprint = hex16_string(lm.artifact_fingerprint());
        if let Err(e) = require_equal_number("ngram.bytes", info.artifact_bytes as u64, self.ngram.bytes as u64) {
            return Err(e);
        }
        if let Err(e) = require_equal_str(
            "ngram.artifact_fingerprint",
            fingerprint.as_str(),
            &self.ngram.artifact_fingerprint,
        ) {
            return Err(e);
        }
        if let Err(e) = require_equal_number(
            "ngram.vocab_size",
            info.vocab_size as u64,
            self.ngram.vocab_size as u64,
        ) {
            return Err(e);
        }
        if let Err(e) = require_equal_number(
            "ngram.vocab_fingerprint",
            info.vocab_fingerprint as u64,
            self.ngram.vocab_fingerprint as u64,
        ) {
            return Err(e);
        }
        if let Err(e) = require_equal_number(
            "ngram.candidate_record_len",
            info.candidate_record_len as u64,
            self.ngram.candidate_record_len as u64,
        ) {
            return Err(e);
        }
        if let Err(e) = require_equal_str(
            "runtime_contract.token_id_dtype",
            AUTOSUGGEST_SCORER_TOKEN_ID_DTYPE,
            &c.token_id_dtype,
        ) {
            return Err(e);
        }
        if let Err(e) = require_equal_str(
            "runtime_contract.onnx_input_dtype",
            AUTOSUGGEST_SCORER_ONNX_INPUT_DTYPE,
            &c.onnx_input_dtype,
        ) {
            return Err(e);
        }
        if let Err(e) = require_equal_str(
            "runtime_contract.coreml_input_dtype",
            AUTOSUGGEST_SCORER_COREML_INPUT_DTYPE,
            &c.coreml_input_dtype,
        ) {
            return Err(e);
        }
        if let Err(e) = require_equal_str(
            "runtime_contract.scores_dtype",
            AUTOSUGGEST_SCORER_SCORE_DTYPE,
            &c.scores_dtype,
        ) {
            return Err(e);
        }
        if let Err(e) = require_shape("runtime_contract.context_ids_shape", c.context_ids_shape) {
            return Err(e);
        }
        if let Err(e) = require_shape("runtime_contract.candidate_ids_shape", c.candidate_ids_shape) {
            return Err(e);
        }
        if let Err(e) = require_shape("runtime_contract.scores_shape", c.scores_shape) {
            return Err(e);
        }
        if let Err(e) = require_equal_number("runtime_contract.batch_size", 1, c.batch_size as u64) {
            return Err(e);
        }
        if let Err(e) = require_equal_number(
            "runtime_contract.context_ids_shape[0]",
            c.batch_size as u64,
            c.context_ids_shape[0] as u64,
        ) {
            return Err(e);
        }
        if let Err(e) = require_equal_number(
            "runtime_contract.candidate_ids_shape[0]",
            c.batch_size as u64,
            c.candidate_ids_shape[0] as u64,
        ) {
            return Err(e);
        }
        if let Err(e) = require_equal_number(
            "runtime_contract.scores_shape[0]",
            c.batch_size as u64,
            c.scores_shape[0] as u64,
        ) {
            return Err(e);
        }
        if let Err(e) = require_equal_number(
            "runtime_contract.context_ids_shape[1]",
            self.scorer.context_window as u64,
            c.context_ids_shape[1] as u64,
        ) {
            return Err(e);
        }
        if let Err(e) = require_equal_number(
            "runtime_contract.candidate_ids_shape[1]",
            self.scorer.pool_k as u64,
            c.candidate_ids_shape[1] as u64,
        ) {
            return Err(e);
        }
        if let Err(e) = require_equal_number(
            "runtime_contract.scores_shape[1]",
            self.scorer.pool_k as u64,
            c.scores_shape[1] as u64,
        ) {
            return Err(e);
        }
        if let Err(e) = require_equal_number("runtime_contract.pad_id", AUTOSUGGEST_PAD_ID as u64, c.pad_id as u64) {
            return Err(e);
        }
        if let Err(e) = require_equal_number("runtime_contract.bos_id", AUTOSUGGEST_BOS_ID as u64, c.bos_id as u64) {
            return Err(e);
        }
        if let Err(e) = require_equal_number("runtime_contract.unk_id", AUTOSUGGEST_UNK_ID as u64, c.unk_id as u64) {
            return Err(e);
        }
        if let Err(e) = require_equal_number(
            "runtime_contract.locked_prefix",
            DEFAULT_AUTOSUGGEST_RERANK_LOCKED_PREFIX as u64,
            c.locked_prefix as u64,
        ) {
            return Err(e);
        }
        if !self.rank_penalty.matches {
            return Err(
                AutosuggestScorerManifestError::Mismatch {
                    field: "runtime_contract.rank_penalty",
                    expected: self.rank_penalty.expected.clone(),
                    actual: self.rank_penalty.actual.clone(),
                },
            );
        }
        if let Err(e) = require_equal_number(
            "runtime_contract.visible_candidates",
            DEFAULT_AUTOSUGGEST_CANDIDATES as u64,
            c.visible_candidates as u64,
        ) {
            return Err(e);
        }
        if self.scorer.context_window > MAX_AUTOSUGGEST_RERANK_CONTEXT_TOKENS {
            return Err(
                invalid(
                    "scorer.context_window",
                    text_with_number("exceeds runtime context buffer ", MAX_AUTOSUGGEST_RERANK_CONTEXT_TOKENS as u64),
                ),
            );
        }
        if self.ngram.max_candidates_per_prefix < self.scorer.pool_k {
            return Err(
                invalid(
                    "ngram.max_candidates_per_prefix",
                    text_with_number("is smaller than scorer.pool_k ", self.scorer.pool_k as u64),
                ),
            );
        }
        if c.visible_candidates > self.scorer.pool_k {
            return Err(
                invalid(
                    "runtime_contract.visible_candidates",
                    text_with_number("exceeds scorer.pool_k ", self.scorer.pool_k as u64),
                ),
            );
        }
        if c.locked_prefix > c.visible_candidates {
            return Err(
                invalid(
                    "runtime_contract.locked_prefix",
                    text_with_number("exceeds visible candidate count ", c.visible_candidates as u64),
                ),
            );
        }
        if !self.top5_gain_valid {
            return Err(invalid("quality.top5_all_target_gain", owned("must be finite and positive")));
        }
        if !self.top10_gain_valid {
            return Err(invalid("quality.top10_all_target_gain", owned("must be finite")));
        }
        Ok(
            AutosuggestScorerCheckedFields {
                artifact: self.artifact.clone(),
                version: self.version,
                runtime_role: self.runtime_role.clone(),
                ngram_artifact_bytes: info.artifact_bytes,
                ngram_artifact_fingerprint: fingerprint,
                vocab_size: info.vocab_size,
                vocab_fingerprint: info.vocab_fingerprint,
                token_id_dtype: c.token_id_dtype.clone(),
                onnx_input_dtype: c.onnx_input_dtype.clone(),
                coreml_input_dtype: c.coreml_input_dtype.clone(),
                scores_dtype: c.scores_dtype.clone(),
                context_window: self.scorer.context_window,
                candidate_pool: self.scorer.pool_k,
                visible_candidates: c.visible_candidates,
                locked_prefix: c.locked_prefix,
            },
        )
    }
}

} // verus!
