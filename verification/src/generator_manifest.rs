//! What a packaged next-word generator declares about itself, checked
//! against the loaded n-gram model and the mobile budgets before any of its
//! proposals are trusted.
//!
//! The manifest's floating-point fields (score weights, quality metrics,
//! benchmark timings) enter as the verdicts the caller reached on them, and
//! the heap a session of the declared shape reserves enters as a number;
//! every other field is checked here, in the manifest's own order.

use vstd::prelude::*;
use vstd::string::StringSliceAdditionalSpecFns;
use crate::candidate::DEFAULT_AUTOSUGGEST_CANDIDATES;
use crate::context::{AUTOSUGGEST_BOS_ID, AUTOSUGGEST_PAD_ID, AUTOSUGGEST_UNK_ID, MAX_AUTOSUGGEST_RERANK_CONTEXT_TOKENS};
use crate::fnv::{fnv64, FNV64_OFFSET};
use crate::lm::{AutosuggestLm, LmView};
use crate::manifest_text::{
    decimal_chars, decimal_string, empty_shape, float_mismatch, hex16_chars, hex16_string, invalid_when,
    is_sha256_text, number_mismatch, owned, sha256_text_ok, text_mismatch, text_with_number, AutosuggestFloatMatch,
    ManifestErrorView,
};

verus! {

pub const AUTOSUGGEST_GENERATOR_PACKAGE_KIND: &'static str = "obadh-autosuggest-generator-package";
pub const AUTOSUGGEST_GENERATOR_RUNTIME_ROLE: &'static str = "next_word_candidate_generate";
pub const AUTOSUGGEST_GENERATOR_MANIFEST_VERSION: u32 = 1;
pub const AUTOSUGGEST_GENERATOR_TOKEN_ID_DTYPE: &'static str = "uint32";
pub const AUTOSUGGEST_GENERATOR_ONNX_INPUT_DTYPE: &'static str = "int64";
pub const AUTOSUGGEST_GENERATOR_COREML_INPUT_DTYPE: &'static str = "int32";
pub const AUTOSUGGEST_GENERATOR_SCORE_DTYPE: &'static str = "float32";
pub const MAX_AUTOSUGGEST_GENERATOR_PARAMETERS: usize = 10_000_000;
pub const MAX_AUTOSUGGEST_GENERATOR_TOP_K_OUTPUT: usize = 128;
pub const MAX_AUTOSUGGEST_GENERATOR_CANDIDATE_POOL: usize = 64;
pub const MAX_AUTOSUGGEST_GENERATOR_SESSION_HEAP_BYTES: usize = 64 * 1024;
pub const MAX_AUTOSUGGEST_GENERATOR_ONNX_BYTES: usize = 70 * 1024 * 1024;
pub const MAX_AUTOSUGGEST_GENERATOR_QUANTIZED_ONNX_BYTES: usize = 20 * 1024 * 1024;
pub const MAX_AUTOSUGGEST_GENERATOR_COREML_BYTES: usize = 20 * 1024 * 1024;
pub const MIN_AUTOSUGGEST_GENERATOR_ELIGIBLE_TARGETS: usize = 10_000;
pub const MIN_AUTOSUGGEST_GENERATOR_SOURCE_ELIGIBLE_TARGETS: usize = 1_000;

/// The n-gram artifact a generator package was built against.
#[derive(Debug, Clone)]
pub struct AutosuggestGeneratorNgram {
    pub path: String,
    pub manifest: String,
    pub bytes: usize,
    pub artifact_fingerprint: String,
    pub vocab_size: usize,
    pub vocab_fingerprint: u32,
    pub max_candidates_per_prefix: usize,
    pub candidate_rows: usize,
    pub candidate_record_len: usize,
}

/// One packaged model file: where it lies, its size and its SHA-256.
#[derive(Debug, Clone)]
pub struct AutosuggestGeneratorFile {
    pub path: String,
    pub bytes: usize,
    pub sha256: String,
}

/// The generator network a package ships.
#[derive(Debug, Clone)]
pub struct AutosuggestGeneratorModel {
    pub architecture: String,
    pub context_window: usize,
    pub embedding_dim: usize,
    pub hidden_dim: usize,
    pub parameter_count: usize,
    pub top_k_output: usize,
    pub onnx: AutosuggestGeneratorFile,
    pub quantized_onnx: AutosuggestGeneratorFile,
    pub coreml: AutosuggestGeneratorFile,
    pub coreml_target: String,
    pub coreml_precision: String,
    pub coreml_compute_unit: String,
    pub export_kind: Option<String>,
    pub pool_k: Option<usize>,
}

/// What the score weights of a scored-union policy were found to be.
#[derive(Debug, Clone, Copy, PartialEq, Eq)]
pub enum AutosuggestPolicyWeightsVerdict {
    Valid,
    /// Some weight is not finite.
    NotFinite,
    /// Some penalty or scale is negative.
    NegativePenalty,
}

/// A scored-union policy: its locked static prefix, and the verdict on its
/// score weights.
#[derive(Debug, Clone, Copy)]
pub struct AutosuggestScoredUnionPolicyFields {
    pub locked_static_prefix: usize,
    pub weights: AutosuggestPolicyWeightsVerdict,
}

/// What a set of held-out ranking metrics (top-1, top-5, top-10, MRR) was
/// found to be.
#[derive(Debug, Clone, Copy, PartialEq, Eq)]
pub enum AutosuggestQualityVerdict {
    Valid,
    /// Some metric is not a finite probability.
    NotProbabilities,
    /// Top-1, top-5 and top-10 do not grow in that order.
    NotMonotonic,
    /// MRR lies outside top-1 ..= top-5.
    MrrOutOfRange,
}

/// The runtime contract of a generator package, but for the score weights
/// of its policy.
#[derive(Debug, Clone)]
pub struct AutosuggestGeneratorContractFields {
    pub token_id_dtype: String,
    pub onnx_input_dtype: String,
    pub coreml_input_dtype: String,
    pub scores_dtype: String,
    pub batch_size: usize,
    pub context_ids_shape: [usize; 2],
    pub candidate_ids_shape: Option<[usize; 2]>,
    pub token_ids_shape: [usize; 2],
    pub scores_shape: [usize; 2],
    pub candidate_scores_shape: Option<[usize; 2]>,
    pub scored_union_policy: Option<AutosuggestScoredUnionPolicyFields>,
    pub pad_id: u32,
    pub bos_id: u32,
    pub unk_id: u32,
    pub visible_candidates: usize,
}

/// The merged-visible quality section.
#[derive(Debug, Clone, Copy)]
pub struct AutosuggestGeneratorMergedQualityFields {
    pub visible_candidates: usize,
    /// Its gains over the static model are finite.
    pub gains_finite: bool,
}

/// One evaluation source of the scored-union quality section.
#[derive(Debug, Clone, Copy)]
pub struct AutosuggestGeneratorSourceQualityFields {
    pub eligible_targets: usize,
    pub metrics: AutosuggestQualityVerdict,
    /// Its gains over the static model are finite.
    pub gains_finite: bool,
    /// Its top-5 and MRR gains are positive.
    pub gains_positive: bool,
}

/// The scored-union quality section.
#[derive(Debug, Clone)]
pub struct AutosuggestGeneratorScoredUnionQualityFields {
    pub metrics: AutosuggestQualityVerdict,
    pub locked_static_prefix: usize,
    /// Each weight against the policy's.
    pub static_bonus: AutosuggestFloatMatch,
    pub static_rank_penalty: AutosuggestFloatMatch,
    pub generated_penalty: AutosuggestFloatMatch,
    pub static_source_bonus: AutosuggestFloatMatch,
    /// Its gains over the static model are finite.
    pub gains_finite: bool,
    pub top5_gain_positive: bool,
    pub mrr_gain_positive: bool,
    pub accepted_for_packaging: bool,
    pub accepted_for_packaging_all_eval_sources: bool,
    /// The evaluation sources, in the order of their names.
    pub eval_per_source: Vec<AutosuggestGeneratorSourceQualityFields>,
}

/// A generator manifest as plain values: its floating-point fields enter as
/// the verdicts reached on them.
#[derive(Debug, Clone)]
pub struct AutosuggestGeneratorManifestFields {
    pub artifact: String,
    pub version: u32,
    pub runtime_role: String,
    pub runtime_contract: AutosuggestGeneratorContractFields,
    pub ngram: AutosuggestGeneratorNgram,
    pub generator: AutosuggestGeneratorModel,
    /// Each benchmark timing is finite, positive and within the mobile budget.
    pub onnx_benchmark_ok: bool,
    pub quantized_onnx_benchmark_ok: bool,
    pub coreml_benchmark_ok: bool,
    /// The heap a generator session of the declared shape reserves, by the
    /// sizes of its buffers' items.
    pub session_heap_limit_bytes: usize,
    pub eligible_targets: usize,
    pub static_pool: AutosuggestQualityVerdict,
    pub selected_topk: AutosuggestQualityVerdict,
    /// `quality.union_recall_all_target_gain` is finite and positive.
    pub union_gain_valid: bool,
    pub selected_merged_visible: Option<AutosuggestGeneratorMergedQualityFields>,
    pub selected_scored_union: Option<AutosuggestGeneratorScoredUnionQualityFields>,
}

/// The identity and shape of a generator package that matched the model.
#[derive(Debug, Clone)]
pub struct AutosuggestGeneratorCheckedFields {
    pub artifact: String,
    pub version: u32,
    pub runtime_role: String,
    pub ngram_artifact_bytes: usize,
    pub ngram_artifact_fingerprint: String,
    pub vocab_size: usize,
    pub vocab_fingerprint: u32,
    pub token_id_dtype: String,
    pub onnx_input_dtype: String,
    pub coreml_input_dtype: String,
    pub scores_dtype: String,
    pub context_window: usize,
    pub top_k_output: usize,
    pub candidate_pool: Option<usize>,
    pub visible_candidates: usize,
}

#[derive(Debug, Clone, PartialEq)]
pub enum AutosuggestGeneratorManifestError {
    Mismatch { field: &'static str, expected: String, actual: String },
    Invalid { field: &'static str, reason: String },
    Asset { field: &'static str, path: String, reason: String },
}

impl View for AutosuggestGeneratorManifestError {
    type V = ManifestErrorView;

    open spec fn view(&self) -> ManifestErrorView {
        match self {
            AutosuggestGeneratorManifestError::Mismatch { field, expected, actual } => ManifestErrorView::Mismatch {
                field: field@,
                expected: expected@,
                actual: actual@,
            },
            AutosuggestGeneratorManifestError::Invalid { field, reason } => ManifestErrorView::Invalid {
                field: field@,
                reason: reason@,
            },
            AutosuggestGeneratorManifestError::Asset { field, path, reason } => ManifestErrorView::Asset {
                field: field@,
                path: path@,
                reason: reason@,
            },
        }
    }
}

/// The problem a check reported, if any.
pub open spec fn problem_of(r: Result<(), AutosuggestGeneratorManifestError>) -> Option<ManifestErrorView> {
    match r {
        Err(e) => Some(e@),
        Ok(()) => None,
    }
}

/// A number that exceeds its budget.
pub open spec fn over_max(field: &str, actual: nat, max: nat) -> Option<ManifestErrorView> {
    invalid_when(actual > max, field, "exceeds maximum "@ + decimal_chars(max))
}

/// The problem a metrics verdict reports for `field`.
pub open spec fn quality_problem(field: &str, q: AutosuggestQualityVerdict) -> Option<ManifestErrorView> {
    match q {
        AutosuggestQualityVerdict::Valid => None,
        AutosuggestQualityVerdict::NotProbabilities => invalid_when(
            true,
            field,
            "quality metrics must be finite probabilities"@,
        ),
        AutosuggestQualityVerdict::NotMonotonic => invalid_when(true, field, "top-k metrics must be monotonic"@),
        AutosuggestQualityVerdict::MrrOutOfRange => invalid_when(
            true,
            field,
            "MRR must stay between top-1 and top-5"@,
        ),
    }
}

/// The problem the weights of a scored-union policy report.
pub open spec fn policy_problem(w: AutosuggestPolicyWeightsVerdict) -> Option<ManifestErrorView> {
    match w {
        AutosuggestPolicyWeightsVerdict::Valid => None,
        AutosuggestPolicyWeightsVerdict::NotFinite => invalid_when(
            true,
            "runtime_contract.scored_union_policy",
            "score weights must be finite"@,
        ),
        AutosuggestPolicyWeightsVerdict::NegativePenalty => invalid_when(
            true,
            "runtime_contract.scored_union_policy",
            "penalties must be non-negative"@,
        ),
    }
}

/// The first of two possible problems.
pub open spec fn first_of(a: Option<ManifestErrorView>, b: Option<ManifestErrorView>) -> Option<ManifestErrorView> {
    if a is Some {
        a
    } else {
        b
    }
}

/// The package identity against the model, and the declared dtypes and
/// fixed shapes.
pub open spec fn identity_problem(m: AutosuggestGeneratorManifestFields, v: LmView) -> Option<ManifestErrorView> {
    let c = m.runtime_contract;
    let fp = hex16_chars(fnv64(FNV64_OFFSET, v.bytes));
    let p01 = text_mismatch("artifact", AUTOSUGGEST_GENERATOR_PACKAGE_KIND@, m.artifact@);
    let p02 = number_mismatch("version", AUTOSUGGEST_GENERATOR_MANIFEST_VERSION as nat, m.version as nat);
    let p03 = text_mismatch("runtime_role", AUTOSUGGEST_GENERATOR_RUNTIME_ROLE@, m.runtime_role@);
    let p04 = number_mismatch("ngram.bytes", v.bytes.len(), m.ngram.bytes as nat);
    let p05 = text_mismatch("ngram.artifact_fingerprint", fp, m.ngram.artifact_fingerprint@);
    let p06 = number_mismatch("ngram.vocab_size", v.layout.header.vocab_size as nat, m.ngram.vocab_size as nat);
    let p07 = number_mismatch("ngram.vocab_fingerprint", v.vocab_fingerprint as nat, m.ngram.vocab_fingerprint as nat);
    let p08 = number_mismatch(
        "ngram.candidate_record_len",
        v.layout.header.candidate_record_len as nat,
        m.ngram.candidate_record_len as nat,
    );
    let p09 = text_mismatch(
        "runtime_contract.token_id_dtype",
        AUTOSUGGEST_GENERATOR_TOKEN_ID_DTYPE@,
        c.token_id_dtype@,
    );
    let p10 = text_mismatch(
        "runtime_contract.onnx_input_dtype",
        AUTOSUGGEST_GENERATOR_ONNX_INPUT_DTYPE@,
        c.onnx_input_dtype@,
    );
    let p11 = text_mismatch(
        "runtime_contract.coreml_input_dtype",
        AUTOSUGGEST_GENERATOR_COREML_INPUT_DTYPE@,
        c.coreml_input_dtype@,
    );
    let p12 = text_mismatch("runtime_contract.scores_dtype", AUTOSUGGEST_GENERATOR_SCORE_DTYPE@, c.scores_dtype@);
    let p13 = empty_shape("runtime_contract.context_ids_shape", c.context_ids_shape);
    let p14 = empty_shape("runtime_contract.token_ids_shape", c.token_ids_shape);
    let p15 = empty_shape("runtime_contract.scores_shape", c.scores_shape);
    if p01 is Some { p01 }
    else if p02 is Some { p02 }
    else if p03 is Some { p03 }
    else if p04 is Some { p04 }
    else if p05 is Some { p05 }
    else if p06 is Some { p06 }
    else if p07 is Some { p07 }
    else if p08 is Some { p08 }
    else if p09 is Some { p09 }
    else if p10 is Some { p10 }
    else if p11 is Some { p11 }
    else if p12 is Some { p12 }
    else if p13 is Some { p13 }
    else if p14 is Some { p14 }
    else { p15 }
}

/// The optional candidate input and score shapes, and the policy's weights.
pub open spec fn candidate_shapes_problem(c: AutosuggestGeneratorContractFields) -> Option<ManifestErrorView> {
    let p1 = invalid_when(
        c.candidate_ids_shape.is_some() != c.candidate_scores_shape.is_some(),
        "runtime_contract.candidate_scores_shape",
        "candidate input and score shapes must be declared together"@,
    );
    let p2 = match c.candidate_ids_shape {
        Some(s) => first_of(
            empty_shape("runtime_contract.candidate_ids_shape", s),
            number_mismatch("runtime_contract.candidate_ids_shape[0]", c.batch_size as nat, s[0] as nat),
        ),
        None => None,
    };
    let p3 = match c.candidate_scores_shape {
        Some(s) => first_of(
            empty_shape("runtime_contract.candidate_scores_shape", s),
            number_mismatch("runtime_contract.candidate_scores_shape[0]", c.batch_size as nat, s[0] as nat),
        ),
        None => None,
    };
    let p4 = match (c.candidate_ids_shape, c.candidate_scores_shape) {
        (Some(a), Some(b)) => number_mismatch("runtime_contract.candidate_scores_shape[1]", a[1] as nat, b[1] as nat),
        _ => None,
    };
    let p5 = match c.scored_union_policy {
        Some(p) => policy_problem(p.weights),
        None => None,
    };
    if p1 is Some { p1 }
    else if p2 is Some { p2 }
    else if p3 is Some { p3 }
    else if p4 is Some { p4 }
    else { p5 }
}

/// The batch of one, the shapes against the network, and the reserved ids.
pub open spec fn contract_problem(m: AutosuggestGeneratorManifestFields) -> Option<ManifestErrorView> {
    let c = m.runtime_contract;
    let g = m.generator;
    let p1 = number_mismatch("runtime_contract.batch_size", 1, c.batch_size as nat);
    let p2 = number_mismatch(
        "runtime_contract.context_ids_shape[0]",
        c.batch_size as nat,
        c.context_ids_shape[0] as nat,
    );
    let p3 = number_mismatch("runtime_contract.token_ids_shape[0]", c.batch_size as nat, c.token_ids_shape[0] as nat);
    let p4 = number_mismatch("runtime_contract.scores_shape[0]", c.batch_size as nat, c.scores_shape[0] as nat);
    let p5 = number_mismatch(
        "runtime_contract.context_ids_shape[1]",
        g.context_window as nat,
        c.context_ids_shape[1] as nat,
    );
    let p6 = number_mismatch(
        "runtime_contract.token_ids_shape[1]",
        g.top_k_output as nat,
        c.token_ids_shape[1] as nat,
    );
    let p7 = number_mismatch("runtime_contract.scores_shape[1]", g.top_k_output as nat, c.scores_shape[1] as nat);
    let p8 = number_mismatch("runtime_contract.pad_id", AUTOSUGGEST_PAD_ID as nat, c.pad_id as nat);
    let p9 = number_mismatch("runtime_contract.bos_id", AUTOSUGGEST_BOS_ID as nat, c.bos_id as nat);
    let p10 = number_mismatch("runtime_contract.unk_id", AUTOSUGGEST_UNK_ID as nat, c.unk_id as nat);
    let p11 = number_mismatch(
        "runtime_contract.visible_candidates",
        DEFAULT_AUTOSUGGEST_CANDIDATES as nat,
        c.visible_candidates as nat,
    );
    if p1 is Some { p1 }
    else if p2 is Some { p2 }
    else if p3 is Some { p3 }
    else if p4 is Some { p4 }
    else if p5 is Some { p5 }
    else if p6 is Some { p6 }
    else if p7 is Some { p7 }
    else if p8 is Some { p8 }
    else if p9 is Some { p9 }
    else if p10 is Some { p10 }
    else { p11 }
}

/// The network's size and shape against the mobile budgets, and its
/// declared kind and targets.
pub open spec fn budget_problem(m: AutosuggestGeneratorManifestFields) -> Option<ManifestErrorView> {
    let c = m.runtime_contract;
    let g = m.generator;
    let p01 = invalid_when(
        g.context_window > MAX_AUTOSUGGEST_RERANK_CONTEXT_TOKENS,
        "generator.context_window",
        "exceeds runtime context buffer "@ + decimal_chars(MAX_AUTOSUGGEST_RERANK_CONTEXT_TOKENS as nat),
    );
    let p02 = invalid_when(
        g.parameter_count > MAX_AUTOSUGGEST_GENERATOR_PARAMETERS,
        "generator.parameter_count",
        "exceeds mobile budget "@ + decimal_chars(MAX_AUTOSUGGEST_GENERATOR_PARAMETERS as nat),
    );
    let p03 = invalid_when(
        g.top_k_output > MAX_AUTOSUGGEST_GENERATOR_TOP_K_OUTPUT,
        "generator.top_k_output",
        "exceeds mobile budget "@ + decimal_chars(MAX_AUTOSUGGEST_GENERATOR_TOP_K_OUTPUT as nat),
    );
    let p04 = invalid_when(
        g.top_k_output < c.visible_candidates,
        "generator.top_k_output",
        "is smaller than visible candidate count "@ + decimal_chars(c.visible_candidates as nat),
    );
    let p05 = invalid_when(
        c.scored_union_policy.is_some() && (c.candidate_ids_shape.is_none() || c.candidate_scores_shape.is_none()),
        "runtime_contract.scored_union_policy",
        "requires candidate input and score shapes"@,
    );
    let p06 = match c.candidate_ids_shape {
        Some(s) => first_of(
            invalid_when(
                s[1] > MAX_AUTOSUGGEST_GENERATOR_CANDIDATE_POOL,
                "runtime_contract.candidate_ids_shape",
                "candidate pool exceeds mobile budget "@ + decimal_chars(MAX_AUTOSUGGEST_GENERATOR_CANDIDATE_POOL as nat),
            ),
            match g.pool_k {
                Some(k) => number_mismatch("generator.pool_k", s[1] as nat, k as nat),
                None => None,
            },
        ),
        None => None,
    };
    let p07 = match g.export_kind {
        Some(k) => text_mismatch("generator.export_kind", "full-vocab-topk-scorer"@, k@),
        None => None,
    };
    let p08 = text_mismatch("generator.architecture", "gru"@, g.architecture@);
    let p09 = text_mismatch("generator.coreml_target", "ios17"@, g.coreml_target@);
    let p10 = text_mismatch("generator.coreml_precision", "float16"@, g.coreml_precision@);
    let p11 = text_mismatch("generator.coreml_compute_unit", "cpu_and_ne"@, g.coreml_compute_unit@);
    let p12 = over_max("generator.onnx.bytes", g.onnx.bytes as nat, MAX_AUTOSUGGEST_GENERATOR_ONNX_BYTES as nat);
    let p13 = over_max(
        "generator.quantized_onnx.bytes",
        g.quantized_onnx.bytes as nat,
        MAX_AUTOSUGGEST_GENERATOR_QUANTIZED_ONNX_BYTES as nat,
    );
    let p14 = over_max("generator.coreml.bytes", g.coreml.bytes as nat, MAX_AUTOSUGGEST_GENERATOR_COREML_BYTES as nat);
    let p15 = invalid_when(
        !m.onnx_benchmark_ok,
        "benchmark.onnx_mean_us_per_item",
        "must be finite, positive, and at most 1000"@,
    );
    let p16 = invalid_when(
        !m.quantized_onnx_benchmark_ok,
        "benchmark.quantized_onnx_mean_us_per_item",
        "must be finite, positive, and at most 1000"@,
    );
    let p17 = invalid_when(
        !m.coreml_benchmark_ok,
        "benchmark.coreml_mean_us_per_item",
        "must be finite, positive, and at most 1000"@,
    );
    let p18 = over_max(
        "runtime_contract.session_heap_limit_bytes",
        m.session_heap_limit_bytes as nat,
        MAX_AUTOSUGGEST_GENERATOR_SESSION_HEAP_BYTES as nat,
    );
    if p01 is Some { p01 }
    else if p02 is Some { p02 }
    else if p03 is Some { p03 }
    else if p04 is Some { p04 }
    else if p05 is Some { p05 }
    else if p06 is Some { p06 }
    else if p07 is Some { p07 }
    else if p08 is Some { p08 }
    else if p09 is Some { p09 }
    else if p10 is Some { p10 }
    else if p11 is Some { p11 }
    else if p12 is Some { p12 }
    else if p13 is Some { p13 }
    else if p14 is Some { p14 }
    else if p15 is Some { p15 }
    else if p16 is Some { p16 }
    else if p17 is Some { p17 }
    else { p18 }
}

/// The problem one evaluation source reports.
pub open spec fn source_problem(s: AutosuggestGeneratorSourceQualityFields) -> Option<ManifestErrorView> {
    let field = "quality.selected_scored_union.eval_per_source";
    let p1 = invalid_when(
        s.eligible_targets < MIN_AUTOSUGGEST_GENERATOR_SOURCE_ELIGIBLE_TARGETS,
        field,
        "source eligible targets are below minimum production gate "@ + decimal_chars(
            MIN_AUTOSUGGEST_GENERATOR_SOURCE_ELIGIBLE_TARGETS as nat,
        ),
    );
    let p2 = quality_problem(field, s.metrics);
    let p3 = invalid_when(!s.gains_finite, field, "source gains must be finite"@);
    let p4 = invalid_when(!s.gains_positive, field, "source top-5 and MRR gains must be positive"@);
    if p1 is Some { p1 }
    else if p2 is Some { p2 }
    else if p3 is Some { p3 }
    else { p4 }
}

/// The first problem among evaluation sources, in order.
pub open spec fn sources_problem(s: Seq<AutosuggestGeneratorSourceQualityFields>) -> Option<ManifestErrorView>
    decreases s.len(),
{
    if s.len() == 0 {
        None
    } else {
        first_of(source_problem(s[0]), sources_problem(s.drop_first()))
    }
}

/// The scored-union quality section, against the declared policy.
pub open spec fn scored_union_problem(
    u: AutosuggestGeneratorScoredUnionQualityFields,
    policy: Option<AutosuggestScoredUnionPolicyFields>,
) -> Option<ManifestErrorView> {
    let p01 = quality_problem("quality.selected_scored_union", u.metrics);
    let p02 = invalid_when(
        policy is None,
        "quality.selected_scored_union",
        "requires runtime_contract.scored_union_policy"@,
    );
    let p03 = number_mismatch(
        "quality.selected_scored_union.locked_static_prefix",
        policy->0.locked_static_prefix as nat,
        u.locked_static_prefix as nat,
    );
    let p04 = float_mismatch("quality.selected_scored_union.static_bonus", u.static_bonus);
    let p05 = float_mismatch("quality.selected_scored_union.static_rank_penalty", u.static_rank_penalty);
    let p06 = float_mismatch("quality.selected_scored_union.generated_penalty", u.generated_penalty);
    let p07 = float_mismatch("quality.selected_scored_union.static_source_bonus", u.static_source_bonus);
    let p08 = invalid_when(!u.gains_finite, "quality.selected_scored_union", "gain metrics must be finite"@);
    let p09 = invalid_when(
        !u.top5_gain_positive,
        "quality.selected_scored_union.top5_all_target_gain_vs_static",
        "must be positive"@,
    );
    let p10 = invalid_when(
        !u.mrr_gain_positive,
        "quality.selected_scored_union.mrr_all_target_gain_vs_static",
        "must be positive"@,
    );
    let p11 = invalid_when(
        !u.accepted_for_packaging,
        "quality.selected_scored_union.accepted_for_packaging",
        "must be true for production manifests"@,
    );
    let p12 = invalid_when(
        !u.accepted_for_packaging_all_eval_sources,
        "quality.selected_scored_union.accepted_for_packaging_all_eval_sources",
        "must be true for source-balanced production manifests"@,
    );
    let p13 = invalid_when(
        u.eval_per_source.len() == 0,
        "quality.selected_scored_union.eval_per_source",
        "must include per-source held-out metrics"@,
    );
    let p14 = sources_problem(u.eval_per_source@);
    if p01 is Some { p01 }
    else if p02 is Some { p02 }
    else if p03 is Some { p03 }
    else if p04 is Some { p04 }
    else if p05 is Some { p05 }
    else if p06 is Some { p06 }
    else if p07 is Some { p07 }
    else if p08 is Some { p08 }
    else if p09 is Some { p09 }
    else if p10 is Some { p10 }
    else if p11 is Some { p11 }
    else if p12 is Some { p12 }
    else if p13 is Some { p13 }
    else { p14 }
}

/// The held-out quality gates.
pub open spec fn quality_gate_problem(m: AutosuggestGeneratorManifestFields) -> Option<ManifestErrorView> {
    let c = m.runtime_contract;
    let p1 = invalid_when(
        m.eligible_targets < MIN_AUTOSUGGEST_GENERATOR_ELIGIBLE_TARGETS,
        "quality.eligible_targets",
        "is below minimum production gate "@ + decimal_chars(MIN_AUTOSUGGEST_GENERATOR_ELIGIBLE_TARGETS as nat),
    );
    let p2 = quality_problem("quality.static_pool", m.static_pool);
    let p3 = quality_problem("quality.selected_topk", m.selected_topk);
    let p4 = invalid_when(!m.union_gain_valid, "quality.union_recall_all_target_gain", "must be finite and positive"@);
    let p5 = match m.selected_merged_visible {
        Some(q) => first_of(
            number_mismatch(
                "quality.selected_merged_visible.visible_candidates",
                c.visible_candidates as nat,
                q.visible_candidates as nat,
            ),
            invalid_when(!q.gains_finite, "quality.selected_merged_visible", "gain metrics must be finite"@),
        ),
        None => None,
    };
    let p6 = match m.selected_scored_union {
        Some(u) => scored_union_problem(u, c.scored_union_policy),
        None => invalid_when(
            c.scored_union_policy is Some,
            "quality.selected_scored_union",
            "is required when a scored-union policy is declared"@,
        ),
    };
    if p1 is Some { p1 }
    else if p2 is Some { p2 }
    else if p3 is Some { p3 }
    else if p4 is Some { p4 }
    else if p5 is Some { p5 }
    else { p6 }
}

/// The first problem of a generator manifest checked against a model, in
/// the manifest's order, or `None` when it matches.
pub open spec fn generator_manifest_problem(m: AutosuggestGeneratorManifestFields, v: LmView) -> Option<
    ManifestErrorView,
> {
    first_of(
        identity_problem(m, v),
        first_of(
            candidate_shapes_problem(m.runtime_contract),
            first_of(contract_problem(m), first_of(budget_problem(m), quality_gate_problem(m))),
        ),
    )
}

/// The identity a matching generator manifest reports: its own declarations
/// and the model's measured ones.
pub open spec fn generator_checked(
    r: AutosuggestGeneratorCheckedFields,
    m: AutosuggestGeneratorManifestFields,
    v: LmView,
) -> bool {
    &&& r.artifact@ == m.artifact@
    &&& r.version == m.version
    &&& r.runtime_role@ == m.runtime_role@
    &&& r.ngram_artifact_bytes == v.bytes.len()
    &&& r.ngram_artifact_fingerprint@ == hex16_chars(fnv64(FNV64_OFFSET, v.bytes))
    &&& r.vocab_size == v.layout.header.vocab_size
    &&& r.vocab_fingerprint == v.vocab_fingerprint
    &&& r.token_id_dtype@ == m.runtime_contract.token_id_dtype@
    &&& r.onnx_input_dtype@ == m.runtime_contract.onnx_input_dtype@
    &&& r.coreml_input_dtype@ == m.runtime_contract.coreml_input_dtype@
    &&& r.scores_dtype@ == m.runtime_contract.scores_dtype@
    &&& r.context_window == m.generator.context_window
    &&& r.top_k_output == m.generator.top_k_output
    &&& r.candidate_pool == match m.runtime_contract.candidate_ids_shape {
        Some(s) => Some(s[1]),
        None => None::<usize>,
    }
    &&& r.visible_candidates == m.runtime_contract.visible_candidates
}

/// Requires a text field to equal what is expected.
pub fn require_equal_str(field: &'static str, expected: &str, actual: &String) -> (r: Result<
    (),
    AutosuggestGeneratorManifestError,
>)
    ensures
        problem_of(r) == text_mismatch(field, expected@, actual@),
{
    let expected = owned(expected);
    if expected != *actual {
        Err(AutosuggestGeneratorManifestError::Mismatch { field, expected, actual: actual.clone() })
    } else {
        Ok(())
    }
}

/// Requires a number field to equal what is expected.
pub fn require_equal_number(field: &'static str, expected: u64, actual: u64) -> (r: Result<
    (),
    AutosuggestGeneratorManifestError,
>)
    ensures
        problem_of(r) == number_mismatch(field, expected as nat, actual as nat),
{
    if expected != actual {
        Err(
            AutosuggestGeneratorManifestError::Mismatch {
                field,
                expected: decimal_string(expected),
                actual: decimal_string(actual),
            },
        )
    } else {
        Ok(())
    }
}

/// Requires a number field to stay within its budget.
pub fn require_max_number(field: &'static str, actual: u64, max: u64) -> (r: Result<
    (),
    AutosuggestGeneratorManifestError,
>)
    ensures
        problem_of(r) == over_max(field, actual as nat, max as nat),
{
    if actual > max {
        Err(AutosuggestGeneratorManifestError::Invalid { field, reason: text_with_number("exceeds maximum ", max) })
    } else {
        Ok(())
    }
}

/// Requires a declared SHA-256 to be 64 hexadecimal digits.
pub fn validate_sha256_format(field: &'static str, value: &str) -> (r: Result<(), AutosuggestGeneratorManifestError>)
    ensures
        problem_of(r) == invalid_when(!is_sha256_text(value.spec_bytes()), field, "sha256 must be 64 hex characters"@),
{
    if !sha256_text_ok(value) {
        Err(AutosuggestGeneratorManifestError::Invalid { field, reason: owned("sha256 must be 64 hex characters") })
    } else {
        Ok(())
    }
}

fn require_shape(field: &'static str, shape: [usize; 2]) -> (r: Result<(), AutosuggestGeneratorManifestError>)
    ensures
        problem_of(r) == empty_shape(field, shape),
{
    if shape[0] == 0 || shape[1] == 0 {
        Err(AutosuggestGeneratorManifestError::Invalid { field, reason: owned("must be a non-empty 2D fixed shape") })
    } else {
        Ok(())
    }
}

fn invalid_if(bad: bool, field: &'static str, reason: &str) -> (r: Result<(), AutosuggestGeneratorManifestError>)
    ensures
        problem_of(r) == invalid_when(bad, field, reason@),
{
    if bad {
        Err(AutosuggestGeneratorManifestError::Invalid { field, reason: owned(reason) })
    } else {
        Ok(())
    }
}

fn invalid_if_number(bad: bool, field: &'static str, reason: &str, n: u64) -> (r: Result<
    (),
    AutosuggestGeneratorManifestError,
>)
    ensures
        problem_of(r) == invalid_when(bad, field, reason@ + decimal_chars(n as nat)),
{
    if bad {
        Err(AutosuggestGeneratorManifestError::Invalid { field, reason: text_with_number(reason, n) })
    } else {
        Ok(())
    }
}

fn require_float_match(field: &'static str, m: &AutosuggestFloatMatch) -> (r: Result<
    (),
    AutosuggestGeneratorManifestError,
>)
    ensures
        problem_of(r) == float_mismatch(field, *m),
{
    if !m.matches {
        Err(AutosuggestGeneratorManifestError::Mismatch { field, expected: m.expected.clone(), actual: m.actual.clone() })
    } else {
        Ok(())
    }
}

fn require_quality(field: &'static str, q: AutosuggestQualityVerdict) -> (r: Result<
    (),
    AutosuggestGeneratorManifestError,
>)
    ensures
        problem_of(r) == quality_problem(field, q),
{
    match q {
        AutosuggestQualityVerdict::Valid => Ok(()),
        AutosuggestQualityVerdict::NotProbabilities => invalid_if(
            true,
            field,
            "quality metrics must be finite probabilities",
        ),
        AutosuggestQualityVerdict::NotMonotonic => invalid_if(true, field, "top-k metrics must be monotonic"),
        AutosuggestQualityVerdict::MrrOutOfRange => invalid_if(true, field, "MRR must stay between top-1 and top-5"),
    }
}

fn check_identity(m: &AutosuggestGeneratorManifestFields, lm: &AutosuggestLm, fingerprint: &String) -> (r: Result<
    (),
    AutosuggestGeneratorManifestError,
>)
    requires
        fingerprint@ == hex16_chars(fnv64(FNV64_OFFSET, lm@.bytes)),
    ensures
        problem_of(r) == identity_problem(*m, lm@),
{
    let c = &m.runtime_contract;
    let info = lm.model_info();
    if let Err(e) = require_equal_str("artifact", AUTOSUGGEST_GENERATOR_PACKAGE_KIND, &m.artifact) {
        return Err(e);
    }
    if let Err(e) = require_equal_number("version", AUTOSUGGEST_GENERATOR_MANIFEST_VERSION as u64, m.version as u64) {
        return Err(e);
    }
    if let Err(e) = require_equal_str("runtime_role", AUTOSUGGEST_GENERATOR_RUNTIME_ROLE, &m.runtime_role) {
        return Err(e);
    }
    if let Err(e) = require_equal_number("ngram.bytes", info.artifact_bytes as u64, m.ngram.bytes as u64) {
        return Err(e);
    }
    if let Err(e) = require_equal_str("ngram.artifact_fingerprint", fingerprint.as_str(), &m.ngram.artifact_fingerprint) {
        return Err(e);
    }
    if let Err(e) = require_equal_number("ngram.vocab_size", info.vocab_size as u64, m.ngram.vocab_size as u64) {
        return Err(e);
    }
    if let Err(e) = require_equal_number(
        "ngram.vocab_fingerprint",
        info.vocab_fingerprint as u64,
        m.ngram.vocab_fingerprint as u64,
    ) {
        return Err(e);
    }
    if let Err(e) = require_equal_number(
        "ngram.candidate_record_len",
        info.candidate_record_len as u64,
        m.ngram.candidate_record_len as u64,
    ) {
        return Err(e);
    }
    if let Err(e) = require_equal_str(
        "runtime_contract.token_id_dtype",
        AUTOSUGGEST_GENERATOR_TOKEN_ID_DTYPE,
        &c.token_id_dtype,
    ) {
        return Err(e);
    }
    if let Err(e) = require_equal_str(
        "runtime_contract.onnx_input_dtype",
        AUTOSUGGEST_GENERATOR_ONNX_INPUT_DTYPE,
        &c.onnx_input_dtype,
    ) {
        return Err(e);
    }
    if let Err(e) = require_equal_str(
        "runtime_contract.coreml_input_dtype",
        AUTOSUGGEST_GENERATOR_COREML_INPUT_DTYPE,
        &c.coreml_input_dtype,
    ) {
        return Err(e);
    }
    if let Err(e) = require_equal_str("runtime_contract.scores_dtype", AUTOSUGGEST_GENERATOR_SCORE_DTYPE, &c.scores_dtype) {
        return Err(e);
    }
    if let Err(e) = require_shape("runtime_contract.context_ids_shape", c.context_ids_shape) {
        return Err(e);
    }
    if let Err(e) = require_shape("runtime_contract.token_ids_shape", c.token_ids_shape) {
        return Err(e);
    }
    require_shape("runtime_contract.scores_shape", c.scores_shape)
}

fn check_candidate_shapes(c: &AutosuggestGeneratorContractFields) -> (r: Result<(), AutosuggestGeneratorManifestError>)
    ensures
        problem_of(r) == candidate_shapes_problem(*c),
{
    if let Err(e) = invalid_if(
        c.candidate_ids_shape.is_some() != c.candidate_scores_shape.is_some(),
        "runtime_contract.candidate_scores_shape",
        "candidate input and score shapes must be declared together",
    ) {
        return Err(e);
    }
    if let Some(s) = c.candidate_ids_shape {
        if let Err(e) = require_shape("runtime_contract.candidate_ids_shape", s) {
            return Err(e);
        }
        if let Err(e) = require_equal_number("runtime_contract.candidate_ids_shape[0]", c.batch_size as u64, s[0] as u64) {
            return Err(e);
        }
    }
    if let Some(s) = c.candidate_scores_shape {
        if let Err(e) = require_shape("runtime_contract.candidate_scores_shape", s) {
            return Err(e);
        }
        if let Err(e) = require_equal_number(
            "runtime_contract.candidate_scores_shape[0]",
            c.batch_size as u64,
            s[0] as u64,
        ) {
            return Err(e);
        }
    }
    if let (Some(a), Some(b)) = (c.candidate_ids_shape, c.candidate_scores_shape) {
        if let Err(e) = require_equal_number("runtime_contract.candidate_scores_shape[1]", a[1] as u64, b[1] as u64) {
            return Err(e);
        }
    }
    match c.scored_union_policy {
        Some(p) => match p.weights {
            AutosuggestPolicyWeightsVerdict::Valid => Ok(()),
            AutosuggestPolicyWeightsVerdict::NotFinite => invalid_if(
                true,
                "runtime_contract.scored_union_policy",
                "score weights must be finite",
            ),
            AutosuggestPolicyWeightsVerdict::NegativePenalty => invalid_if(
                true,
                "runtime_contract.scored_union_policy",
                "penalties must be non-negative",
            ),
        },
        None => Ok(()),
    }
}

fn check_contract(m: &AutosuggestGeneratorManifestFields) -> (r: Result<(), AutosuggestGeneratorManifestError>)
    ensures
        problem_of(r) == contract_problem(*m),
{
    let c = &m.runtime_contract;
    let g = &m.generator;
    if let Err(e) = require_equal_number("runtime_contract.batch_size", 1, c.batch_size as u64) {
        return Err(e);
    }
    if let Err(e) = require_equal_number(
        "runtime_contract.context_ids_shape[0]",
        c.batch_size as u64,
        c.context_ids_shape[0] as u64,
    ) {
        return Err(e);
    }
    if let Err(e) = require_equal_number(
        "runtime_contract.token_ids_shape[0]",
        c.batch_size as u64,
        c.token_ids_shape[0] as u64,
    ) {
        return Err(e);
    }
    if let Err(e) = require_equal_number("runtime_contract.scores_shape[0]", c.batch_size as u64, c.scores_shape[0] as u64) {
        return Err(e);
    }
    if let Err(e) = require_equal_number(
        "runtime_contract.context_ids_shape[1]",
        g.context_window as u64,
        c.context_ids_shape[1] as u64,
    ) {
        return Err(e);
    }
    if let Err(e) = require_equal_number(
        "runtime_contract.token_ids_shape[1]",
        g.top_k_output as u64,
        c.token_ids_shape[1] as u64,
    ) {
        return Err(e);
    }
    if let Err(e) = require_equal_number("runtime_contract.scores_shape[1]", g.top_k_output as u64, c.scores_shape[1] as u64) {
        return Err(e);
    }
    if let Err(e) = require_equal_number("runtime_contract.pad_id", AUTOSUGGEST_PAD_ID as u64, c.pad_id as u64) {
        return Err(e);
    }
    if let Err(e) = require_equal_number("runtime_contract.bos_id", AUTOSUGGEST_BOS_ID as u64, c.bos_id as u64) {
        return Err(e);
    }
    if let Err(e) = require_equal_number("runtime_contract.unk_id", AUTOSUGGEST_UNK_ID as u64, c.unk_id as u64) {
        return Err(e);
    }
    require_equal_number(
        "runtime_contract.visible_candidates",
        DEFAULT_AUTOSUGGEST_CANDIDATES as u64,
        c.visible_candidates as u64,
    )
}

fn check_budget(m: &AutosuggestGeneratorManifestFields) -> (r: Result<(), AutosuggestGeneratorManifestError>)
    ensures
        problem_of(r) == budget_problem(*m),
{
    let c = &m.runtime_contract;
    let g = &m.generator;
    if let Err(e) = invalid_if_number(
        g.context_window > MAX_AUTOSUGGEST_RERANK_CONTEXT_TOKENS,
        "generator.context_window",
        "exceeds runtime context buffer ",
        MAX_AUTOSUGGEST_RERANK_CONTEXT_TOKENS as u64,
    ) {
        return Err(e);
    }
    if let Err(e) = invalid_if_number(
        g.parameter_count > MAX_AUTOSUGGEST_GENERATOR_PARAMETERS,
        "generator.parameter_count",
        "exceeds mobile budget ",
        MAX_AUTOSUGGEST_GENERATOR_PARAMETERS as u64,
    ) {
        return Err(e);
    }
    if let Err(e) = invalid_if_number(
        g.top_k_output > MAX_AUTOSUGGEST_GENERATOR_TOP_K_OUTPUT,
        "generator.top_k_output",
        "exceeds mobile budget ",
        MAX_AUTOSUGGEST_GENERATOR_TOP_K_OUTPUT as u64,
    ) {
        return Err(e);
    }
    if let Err(e) = invalid_if_number(
        g.top_k_output < c.visible_candidates,
        "generator.top_k_output",
        "is smaller than visible candidate count ",
        c.visible_candidates as u64,
    ) {
        return Err(e);
    }
    if let Err(e) = invalid_if(
        c.scored_union_policy.is_some() && (c.candidate_ids_shape.is_none() || c.candidate_scores_shape.is_none()),
        "runtime_contract.scored_union_policy",
        "requires candidate input and score shapes",
    ) {
        return Err(e);
    }
    if let Some(s) = c.candidate_ids_shape {
        if let Err(e) = invalid_if_number(
            s[1] > MAX_AUTOSUGGEST_GENERATOR_CANDIDATE_POOL,
            "runtime_contract.candidate_ids_shape",
            "candidate pool exceeds mobile budget ",
            MAX_AUTOSUGGEST_GENERATOR_CANDIDATE_POOL as u64,
        ) {
            return Err(e);
        }
        if let Some(k) = g.pool_k {
            if let Err(e) = require_equal_number("generator.pool_k", s[1] as u64, k as u64) {
                return Err(e);
            }
        }
    }
    if let Some(k) = &g.export_kind {
        if let Err(e) = require_equal_str("generator.export_kind", "full-vocab-topk-scorer", k) {
            return Err(e);
        }
    }
    if let Err(e) = require_equal_str("generator.architecture", "gru", &g.architecture) {
        return Err(e);
    }
    if let Err(e) = require_equal_str("generator.coreml_target", "ios17", &g.coreml_target) {
        return Err(e);
    }
    if let Err(e) = require_equal_str("generator.coreml_precision", "float16", &g.coreml_precision) {
        return Err(e);
    }
    if let Err(e) = require_equal_str("generator.coreml_compute_unit", "cpu_and_ne", &g.coreml_compute_unit) {
        return Err(e);
    }
    if let Err(e) = require_max_number(
        "generator.onnx.bytes",
        g.onnx.bytes as u64,
        MAX_AUTOSUGGEST_GENERATOR_ONNX_BYTES as u64,
    ) {
        return Err(e);
    }
    if let Err(e) = require_max_number(
        "generator.quantized_onnx.bytes",
        g.quantized_onnx.bytes as u64,
        MAX_AUTOSUGGEST_GENERATOR_QUANTIZED_ONNX_BYTES as u64,
    ) {
        return Err(e);
    }
    if let Err(e) = require_max_number(
        "generator.coreml.bytes",
        g.coreml.bytes as u64,
        MAX_AUTOSUGGEST_GENERATOR_COREML_BYTES as u64,
    ) {
        return Err(e);
    }
    if let Err(e) = invalid_if(
        !m.onnx_benchmark_ok,
        "benchmark.onnx_mean_us_per_item",
        "must be finite, positive, and at most 1000",
    ) {
        return Err(e);
    }
    if let Err(e) = invalid_if(
        !m.quantized_onnx_benchmark_ok,
        "benchmark.quantized_onnx_mean_us_per_item",
        "must be finite, positive, and at most 1000",
    ) {
        return Err(e);
    }
    if let Err(e) = invalid_if(
        !m.coreml_benchmark_ok,
        "benchmark.coreml_mean_us_per_item",
        "must be finite, positive, and at most 1000",
    ) {
        return Err(e);
    }
    require_max_number(
        "runtime_contract.session_heap_limit_bytes",
        m.session_heap_limit_bytes as u64,
        MAX_AUTOSUGGEST_GENERATOR_SESSION_HEAP_BYTES as u64,
    )
}

fn check_source(s: &AutosuggestGeneratorSourceQualityFields) -> (r: Result<(), AutosuggestGeneratorManifestError>)
    ensures
        problem_of(r) == source_problem(*s),
{
    let field = "quality.selected_scored_union.eval_per_source";
    if let Err(e) = invalid_if_number(
        s.eligible_targets < MIN_AUTOSUGGEST_GENERATOR_SOURCE_ELIGIBLE_TARGETS,
        field,
        "source eligible targets are below minimum production gate ",
        MIN_AUTOSUGGEST_GENERATOR_SOURCE_ELIGIBLE_TARGETS as u64,
    ) {
        return Err(e);
    }
    if let Err(e) = require_quality(field, s.metrics) {
        return Err(e);
    }
    if let Err(e) = invalid_if(!s.gains_finite, field, "source gains must be finite") {
        return Err(e);
    }
    invalid_if(!s.gains_positive, field, "source top-5 and MRR gains must be positive")
}

fn check_sources(sources: &Vec<AutosuggestGeneratorSourceQualityFields>) -> (r: Result<
    (),
    AutosuggestGeneratorManifestError,
>)
    ensures
        problem_of(r) == sources_problem(sources@),
{
    let mut i: usize = 0;
    assert(sources@.subrange(0, sources@.len() as int) =~= sources@);
    while i < sources.len()
        invariant
            i <= sources@.len(),
            sources_problem(sources@) == sources_problem(sources@.subrange(i as int, sources@.len() as int)),
        decreases sources@.len() - i,
    {
        let ghost rest = sources@.subrange(i as int, sources@.len() as int);
        assert(rest.drop_first() =~= sources@.subrange(i + 1, sources@.len() as int));
        assert(rest[0] == sources@[i as int]);
        if let Err(e) = check_source(&sources[i]) {
            return Err(e);
        }
        i = i + 1;
    }
    assert(sources@.subrange(i as int, sources@.len() as int).len() == 0);
    Ok(())
}

fn check_scored_union(
    u: &AutosuggestGeneratorScoredUnionQualityFields,
    policy: Option<AutosuggestScoredUnionPolicyFields>,
) -> (r: Result<(), AutosuggestGeneratorManifestError>)
    ensures
        problem_of(r) == scored_union_problem(*u, policy),
{
    if let Err(e) = require_quality("quality.selected_scored_union", u.metrics) {
        return Err(e);
    }
    let p = match policy {
        Some(p) => p,
        None => {
            return invalid_if(true, "quality.selected_scored_union", "requires runtime_contract.scored_union_policy");
        },
    };
    if let Err(e) = require_equal_number(
        "quality.selected_scored_union.locked_static_prefix",
        p.locked_static_prefix as u64,
        u.locked_static_prefix as u64,
    ) {
        return Err(e);
    }
    if let Err(e) = require_float_match("quality.selected_scored_union.static_bonus", &u.static_bonus) {
        return Err(e);
    }
    if let Err(e) = require_float_match("quality.selected_scored_union.static_rank_penalty", &u.static_rank_penalty) {
        return Err(e);
    }
    if let Err(e) = require_float_match("quality.selected_scored_union.generated_penalty", &u.generated_penalty) {
        return Err(e);
    }
    if let Err(e) = require_float_match("quality.selected_scored_union.static_source_bonus", &u.static_source_bonus) {
        return Err(e);
    }
    if let Err(e) = invalid_if(!u.gains_finite, "quality.selected_scored_union", "gain metrics must be finite") {
        return Err(e);
    }
    if let Err(e) = invalid_if(
        !u.top5_gain_positive,
        "quality.selected_scored_union.top5_all_target_gain_vs_static",
        "must be positive",
    ) {
        return Err(e);
    }
    if let Err(e) = invalid_if(
        !u.mrr_gain_positive,
        "quality.selected_scored_union.mrr_all_target_gain_vs_static",
        "must be positive",
    ) {
        return Err(e);
    }
    if let Err(e) = invalid_if(
        !u.accepted_for_packaging,
        "quality.selected_scored_union.accepted_for_packaging",
        "must be true for production manifests",
    ) {
        return Err(e);
    }
    if let Err(e) = invalid_if(
        !u.accepted_for_packaging_all_eval_sources,
        "quality.selected_scored_union.accepted_for_packaging_all_eval_sources",
        "must be true for source-balanced production manifests",
    ) {
        return Err(e);
    }
    if let Err(e) = invalid_if(
        u.eval_per_source.len() == 0,
        "quality.selected_scored_union.eval_per_source",
        "must include per-source held-out metrics",
    ) {
        return Err(e);
    }
    check_sources(&u.eval_per_source)
}

fn check_quality(m: &AutosuggestGeneratorManifestFields) -> (r: Result<(), AutosuggestGeneratorManifestError>)
    ensures
        problem_of(r) == quality_gate_problem(*m),
{
    let c = &m.runtime_contract;
    if let Err(e) = invalid_if_number(
        m.eligible_targets < MIN_AUTOSUGGEST_GENERATOR_ELIGIBLE_TARGETS,
        "quality.eligible_targets",
        "is below minimum production gate ",
        MIN_AUTOSUGGEST_GENERATOR_ELIGIBLE_TARGETS as u64,
    ) {
        return Err(e);
    }
    if let Err(e) = require_quality("quality.static_pool", m.static_pool) {
        return Err(e);
    }
    if let Err(e) = require_quality("quality.selected_topk", m.selected_topk) {
        return Err(e);
    }
    if let Err(e) = invalid_if(
        !m.union_gain_valid,
        "quality.union_recall_all_target_gain",
        "must be finite and positive",
    ) {
        return Err(e);
    }
    if let Some(q) = m.selected_merged_visible {
        if let Err(e) = require_equal_number(
            "quality.selected_merged_visible.visible_candidates",
            c.visible_candidates as u64,
            q.visible_candidates as u64,
        ) {
            return Err(e);
        }
        if let Err(e) = invalid_if(!q.gains_finite, "quality.selected_merged_visible", "gain metrics must be finite") {
            return Err(e);
        }
    }
    match &m.selected_scored_union {
        Some(u) => check_scored_union(u, c.scored_union_policy),
        None => invalid_if(
            c.scored_union_policy.is_some(),
            "quality.selected_scored_union",
            "is required when a scored-union policy is declared",
        ),
    }
}

impl AutosuggestGeneratorManifestFields {
    /// Checks the manifest against the loaded model and the mobile budgets,
    /// field by field in the manifest's order, and reports the first problem
    /// found.
    pub fn validate_for_lm(&self, lm: &AutosuggestLm) -> (r: Result<
        AutosuggestGeneratorCheckedFields,
        AutosuggestGeneratorManifestError,
    >)
        ensures
            match generator_manifest_problem(*self, lm@) {
                Some(p) => r matches Err(e) && e@ == p,
                None => r matches Ok(c) && generator_checked(c, *self, lm@),
            },
    {
        let fingerprint = hex16_string(lm.artifact_fingerprint());
        if let Err(e) = check_identity(self, lm, &fingerprint) {
            return Err(e);
        }
        if let Err(e) = check_candidate_shapes(&self.runtime_contract) {
            return Err(e);
        }
        if let Err(e) = check_contract(self) {
            return Err(e);
        }
        if let Err(e) = check_budget(self) {
            return Err(e);
        }
        if let Err(e) = check_quality(self) {
            return Err(e);
        }
        let c = &self.runtime_contract;
        let info = lm.model_info();
        Ok(
            AutosuggestGeneratorCheckedFields {
                artifact: self.artifact.clone(),
                version: self.version,
                runtime_role: self.runtime_role.clone(),
                ngram_artifact_bytes: info.artifact_bytes,
                ngram_artifact_fingerprint: fingerprint,
                vocab_size: info.vocab_size,
                vocab_fingerprint: info.vocab_fingerprint,
                token_id_dtype: c.token_id_dtype.clone(),
                onnx_input_dtype: c.onnx_input_dtype.clone(),
                coreml_input_dtype: c.coreml_input_dtype.clone(),
                scores_dtype: c.scores_dtype.clone(),
                context_window: self.generator.context_window,
                top_k_output: self.generator.top_k_output,
                candidate_pool: match c.candidate_ids_shape {
                    Some(s) => Some(s[1]),
                    None => None,
                },
                visible_candidates: c.visible_candidates,
            },
        )
    }
}

} // verus!
