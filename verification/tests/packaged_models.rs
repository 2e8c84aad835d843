use obadh_engine::candidate::DEFAULT_AUTOSUGGEST_CANDIDATES;
use obadh_engine::context::{AUTOSUGGEST_BOS_ID, AUTOSUGGEST_PAD_ID, AUTOSUGGEST_UNK_ID, MAX_AUTOSUGGEST_RERANK_CONTEXT_TOKENS};
use obadh_engine::generator_manifest::{
    AutosuggestGeneratorContractFields, AutosuggestGeneratorFile, AutosuggestGeneratorManifestError,
    AutosuggestGeneratorManifestFields, AutosuggestGeneratorMergedQualityFields, AutosuggestGeneratorModel,
    AutosuggestGeneratorNgram, AutosuggestGeneratorScoredUnionQualityFields, AutosuggestGeneratorSourceQualityFields,
    AutosuggestPolicyWeightsVerdict, AutosuggestQualityVerdict, AutosuggestScoredUnionPolicyFields,
    AUTOSUGGEST_GENERATOR_COREML_INPUT_DTYPE, AUTOSUGGEST_GENERATOR_MANIFEST_VERSION,
    AUTOSUGGEST_GENERATOR_ONNX_INPUT_DTYPE, AUTOSUGGEST_GENERATOR_PACKAGE_KIND, AUTOSUGGEST_GENERATOR_RUNTIME_ROLE,
    AUTOSUGGEST_GENERATOR_SCORE_DTYPE, AUTOSUGGEST_GENERATOR_TOKEN_ID_DTYPE, MAX_AUTOSUGGEST_GENERATOR_COREML_BYTES,
    MAX_AUTOSUGGEST_GENERATOR_SESSION_HEAP_BYTES, MIN_AUTOSUGGEST_GENERATOR_ELIGIBLE_TARGETS,
    MIN_AUTOSUGGEST_GENERATOR_SOURCE_ELIGIBLE_TARGETS,
};
use obadh_engine::artifact::AutosuggestArtifactError;
use obadh_engine::candidate::{AutosuggestCandidateId, AutosuggestSource};
use obadh_engine::context::AutosuggestContext;
use obadh_engine::generator_outputs::AutosuggestGeneratorShape;
use obadh_engine::lm::AutosuggestLm;
use obadh_engine::open_vocab_merge::{
    unify_static_generated_and_text_candidates_into, AutosuggestOpenVocabError, AutosuggestUnifiedCandidateKind,
};
use obadh_engine::manifest_text::{decimal_string, hex16_string, AutosuggestFloatMatch};
use obadh_engine::scorer_manifest::{
    validate_sha256_format, AutosuggestScorerContractFields, AutosuggestScorerFile, AutosuggestScorerManifestError,
    AutosuggestScorerManifestFields, AutosuggestScorerModel, AutosuggestScorerNgram,
    AUTOSUGGEST_SCORER_COREML_INPUT_DTYPE, AUTOSUGGEST_SCORER_MANIFEST_VERSION, AUTOSUGGEST_SCORER_ONNX_INPUT_DTYPE,
    AUTOSUGGEST_SCORER_PACKAGE_KIND, AUTOSUGGEST_SCORER_RUNTIME_ROLE, AUTOSUGGEST_SCORER_SCORE_DTYPE,
    AUTOSUGGEST_SCORER_TOKEN_ID_DTYPE, DEFAULT_AUTOSUGGEST_RERANK_LOCKED_PREFIX,
};

fn write_u32(bytes: &mut Vec<u8>, value: u32) {
    bytes.extend_from_slice(&value.to_le_bytes());
}

/// A version-1 artifact with one bigram row after `আজ` and one trigram row
/// after `আমি আজ`.
fn fixture_lm(tokens: &[&str]) -> AutosuggestLm {
    let mut token_bytes = Vec::new();
    let mut id_records = Vec::new();
    for token in tokens {
        id_records.push((token_bytes.len() as u32, token.len() as u32));
        token_bytes.extend_from_slice(token.as_bytes());
    }
    let mut index: Vec<(Vec<u8>, u32, u32, u32)> = id_records
        .iter()
        .enumerate()
        .map(|(id, (o, l))| (token_bytes[*o as usize..(*o + *l) as usize].to_vec(), *o, *l, id as u32))
        .collect();
    index.sort_by(|a, b| a.0.cmp(&b.0));
    let unigrams: [(u32, u32, i32); 2] = [(5, 100, 100), (7, 90, 90)];
    let candidates: [(u32, u32, i32); 4] = [(5, 40, 40), (7, 12, 12), (7, 9, 9), (5, 7, 7)];

    let mut bytes = Vec::new();
    bytes.extend_from_slice(b"OBAUTOSUGLM_V1\0\0");
    write_u32(&mut bytes, 1);
    write_u32(&mut bytes, tokens.len() as u32);
    write_u32(&mut bytes, tokens.len() as u32);
    write_u32(&mut bytes, unigrams.len() as u32);
    write_u32(&mut bytes, 1);
    write_u32(&mut bytes, 1);
    write_u32(&mut bytes, candidates.len() as u32);
    write_u32(&mut bytes, token_bytes.len() as u32);
    write_u32(&mut bytes, 0);
    for (o, l) in &id_records {
        write_u32(&mut bytes, *o);
        write_u32(&mut bytes, *l);
    }
    for (_, o, l, id) in &index {
        write_u32(&mut bytes, *o);
        write_u32(&mut bytes, *l);
        write_u32(&mut bytes, *id);
    }
    for c in unigrams.iter() {
        write_u32(&mut bytes, c.0);
        write_u32(&mut bytes, c.1);
        bytes.extend_from_slice(&c.2.to_le_bytes());
    }
    for value in [4, 0, 2] {
        write_u32(&mut bytes, value);
    }
    for value in [3, 4, 2, 2] {
        write_u32(&mut bytes, value);
    }
    for c in candidates.iter() {
        write_u32(&mut bytes, c.0);
        write_u32(&mut bytes, c.1);
        bytes.extend_from_slice(&c.2.to_le_bytes());
    }
    bytes.extend_from_slice(&token_bytes);
    AutosuggestLm::from_bytes(bytes).expect("fixture should parse")
}

fn scorer_lm() -> AutosuggestLm {
    fixture_lm(&["<pad>", "<bos>", "<unk>", "আমি", "আজ", "সকালে", "স্কুলে", "যাব"])
}

fn generator_lm() -> AutosuggestLm {
    fixture_lm(&["<pad>", "<bos>", "<unk>", "আমি", "আজ", "সকালে", "স্কুলে", "যাব", "খাই", "ঘুমাই", "পড়ি"])
}

const FILE_SHA256: &str = "6e340b9cffb37a989ca544e6bb780a2c78901d3fb33738768511a30617afa01d";

fn scorer_file(path: &str) -> AutosuggestScorerFile {
    AutosuggestScorerFile { path: path.to_string(), bytes: 1, sha256: FILE_SHA256.to_string() }
}

fn scorer_manifest(lm: &AutosuggestLm) -> AutosuggestScorerManifestFields {
    let info = lm.model_info();
    AutosuggestScorerManifestFields {
        artifact: AUTOSUGGEST_SCORER_PACKAGE_KIND.to_string(),
        version: AUTOSUGGEST_SCORER_MANIFEST_VERSION,
        runtime_role: AUTOSUGGEST_SCORER_RUNTIME_ROLE.to_string(),
        runtime_contract: AutosuggestScorerContractFields {
            token_id_dtype: AUTOSUGGEST_SCORER_TOKEN_ID_DTYPE.to_string(),
            onnx_input_dtype: AUTOSUGGEST_SCORER_ONNX_INPUT_DTYPE.to_string(),
            coreml_input_dtype: AUTOSUGGEST_SCORER_COREML_INPUT_DTYPE.to_string(),
            scores_dtype: AUTOSUGGEST_SCORER_SCORE_DTYPE.to_string(),
            batch_size: 1,
            context_ids_shape: [1, MAX_AUTOSUGGEST_RERANK_CONTEXT_TOKENS],
            candidate_ids_shape: [1, 8],
            scores_shape: [1, 8],
            pad_id: AUTOSUGGEST_PAD_ID,
            bos_id: AUTOSUGGEST_BOS_ID,
            unk_id: AUTOSUGGEST_UNK_ID,
            locked_prefix: DEFAULT_AUTOSUGGEST_RERANK_LOCKED_PREFIX,
            visible_candidates: DEFAULT_AUTOSUGGEST_CANDIDATES,
        },
        ngram: AutosuggestScorerNgram {
            path: "fixture.bin".to_string(),
            manifest: "fixture.ngram.json".to_string(),
            bytes: info.artifact_bytes,
            artifact_fingerprint: format!("{:016x}", lm.artifact_fingerprint()),
            vocab_size: info.vocab_size,
            vocab_fingerprint: info.vocab_fingerprint,
            max_candidates_per_prefix: 8,
            candidate_rows: 4,
            candidate_record_len: info.candidate_record_len,
        },
        scorer: AutosuggestScorerModel {
            architecture: "gru".to_string(),
            context_window: MAX_AUTOSUGGEST_RERANK_CONTEXT_TOKENS,
            embedding_dim: 256,
            hidden_dim: 256,
            parameter_count: 1,
            pool_k: 8,
            onnx: scorer_file("fixture.onnx"),
            quantized_onnx: scorer_file("fixture.int8.onnx"),
            coreml: scorer_file("fixture.mlpackage"),
            coreml_target: "ios17".to_string(),
            coreml_precision: "float16".to_string(),
            coreml_compute_unit: "all".to_string(),
        },
        rank_penalty: AutosuggestFloatMatch {
            matches: true,
            expected: 0.25f32.to_string(),
            actual: 0.25f32.to_string(),
        },
        top5_gain_valid: 0.05f64.is_finite() && 0.05f64 > 0.0,
        top10_gain_valid: 0.05f64.is_finite(),
    }
}

#[test]
fn scorer_manifest_validates_against_matching_lm() {
    let lm = scorer_lm();
    let manifest = scorer_manifest(&lm);

    let compatibility = manifest.validate_for_lm(&lm).unwrap();

    assert_eq!(compatibility.context_window, MAX_AUTOSUGGEST_RERANK_CONTEXT_TOKENS);
    assert_eq!(compatibility.candidate_pool, 8);
    assert_eq!(compatibility.visible_candidates, DEFAULT_AUTOSUGGEST_CANDIDATES);
    assert_eq!(compatibility.ngram_artifact_fingerprint, format!("{:016x}", lm.artifact_fingerprint()));
    assert_eq!(compatibility.ngram_artifact_bytes, lm.model_info().artifact_bytes);
}

#[test]
fn scorer_manifest_rejects_wrong_ngram_fingerprint() {
    let lm = scorer_lm();
    let mut manifest = scorer_manifest(&lm);
    manifest.ngram.artifact_fingerprint = "deadbeef".to_string();

    let error = manifest.validate_for_lm(&lm).unwrap_err();

    assert!(matches!(
        error,
        AutosuggestScorerManifestError::Mismatch { field: "ngram.artifact_fingerprint", .. }
    ));
}

#[test]
fn scorer_manifest_rejects_unbounded_context_shape() {
    let lm = scorer_lm();
    let mut manifest = scorer_manifest(&lm);
    manifest.runtime_contract.context_ids_shape = [1, 32];
    manifest.scorer.context_window = 32;

    let error = manifest.validate_for_lm(&lm).unwrap_err();

    assert!(matches!(error, AutosuggestScorerManifestError::Invalid { field: "scorer.context_window", .. }));
}

#[test]
fn scorer_manifest_rejects_non_improving_quality_gate() {
    let lm = scorer_lm();
    let mut manifest = scorer_manifest(&lm);
    let top5_all_target_gain = 0.0f64;
    manifest.top5_gain_valid = top5_all_target_gain.is_finite() && top5_all_target_gain > 0.0;

    let error = manifest.validate_for_lm(&lm).unwrap_err();

    assert!(matches!(
        error,
        AutosuggestScorerManifestError::Invalid { field: "quality.top5_all_target_gain", .. }
    ));
}

#[test]
fn scorer_manifest_reports_numbers_and_reasons_as_text() {
    let lm = scorer_lm();
    let mut manifest = scorer_manifest(&lm);
    manifest.version = 2;
    assert_eq!(
        manifest.validate_for_lm(&lm).unwrap_err(),
        AutosuggestScorerManifestError::Mismatch {
            field: "version",
            expected: "1".to_string(),
            actual: "2".to_string(),
        }
    );

    let mut manifest = scorer_manifest(&lm);
    manifest.ngram.max_candidates_per_prefix = 4;
    assert_eq!(
        manifest.validate_for_lm(&lm).unwrap_err(),
        AutosuggestScorerManifestError::Invalid {
            field: "ngram.max_candidates_per_prefix",
            reason: "is smaller than scorer.pool_k 8".to_string(),
        }
    );

    let mut manifest = scorer_manifest(&lm);
    manifest.rank_penalty = AutosuggestFloatMatch {
        matches: false,
        expected: 0.25f32.to_string(),
        actual: 0.5f32.to_string(),
    };
    assert_eq!(
        manifest.validate_for_lm(&lm).unwrap_err(),
        AutosuggestScorerManifestError::Mismatch {
            field: "runtime_contract.rank_penalty",
            expected: "0.25".to_string(),
            actual: "0.5".to_string(),
        }
    );
}

#[test]
fn scorer_manifest_checks_fields_in_manifest_order() {
    let lm = scorer_lm();
    let mut manifest = scorer_manifest(&lm);
    manifest.runtime_contract.scores_dtype = "float16".to_string();
    manifest.runtime_contract.locked_prefix = 9;
    manifest.top10_gain_valid = false;
    assert_eq!(
        manifest.validate_for_lm(&lm).unwrap_err(),
        AutosuggestScorerManifestError::Mismatch {
            field: "runtime_contract.scores_dtype",
            expected: "float32".to_string(),
            actual: "float16".to_string(),
        }
    );

    let mut manifest = scorer_manifest(&lm);
    manifest.runtime_contract.candidate_ids_shape = [1, 0];
    assert_eq!(
        manifest.validate_for_lm(&lm).unwrap_err(),
        AutosuggestScorerManifestError::Invalid {
            field: "runtime_contract.candidate_ids_shape",
            reason: "must be a non-empty 2D fixed shape".to_string(),
        }
    );
}

#[test]
fn numbers_render_as_display_and_fingerprints_as_padded_hex() {
    for n in [0u64, 7, 10, 65536, 10_000_000, u64::MAX] {
        assert_eq!(decimal_string(n), n.to_string());
    }
    for n in [0u64, 0xdead_beef, u64::MAX, 1 << 60] {
        assert_eq!(hex16_string(n), format!("{:016x}", n));
    }
}

#[test]
fn sha256_format_needs_sixty_four_hex_digits() {
    assert_eq!(validate_sha256_format("scorer.onnx.path", FILE_SHA256), Ok(()));
    assert_eq!(validate_sha256_format("scorer.onnx.path", &FILE_SHA256.to_uppercase()), Ok(()));
    let short = &FILE_SHA256[..63];
    let bad = format!("{}g", short);
    for value in [short, bad.as_str(), ""] {
        assert_eq!(
            validate_sha256_format("scorer.onnx.path", value),
            Err(AutosuggestScorerManifestError::Invalid {
                field: "scorer.onnx.path",
                reason: "sha256 must be 64 hex characters".to_string(),
            })
        );
    }
}

fn generator_file(path: &str) -> AutosuggestGeneratorFile {
    AutosuggestGeneratorFile { path: path.to_string(), bytes: 1, sha256: FILE_SHA256.to_string() }
}

fn generator_manifest(lm: &AutosuggestLm) -> AutosuggestGeneratorManifestFields {
    let info = lm.model_info();
    AutosuggestGeneratorManifestFields {
        artifact: AUTOSUGGEST_GENERATOR_PACKAGE_KIND.to_string(),
        version: AUTOSUGGEST_GENERATOR_MANIFEST_VERSION,
        runtime_role: AUTOSUGGEST_GENERATOR_RUNTIME_ROLE.to_string(),
        runtime_contract: AutosuggestGeneratorContractFields {
            token_id_dtype: AUTOSUGGEST_GENERATOR_TOKEN_ID_DTYPE.to_string(),
            onnx_input_dtype: AUTOSUGGEST_GENERATOR_ONNX_INPUT_DTYPE.to_string(),
            coreml_input_dtype: AUTOSUGGEST_GENERATOR_COREML_INPUT_DTYPE.to_string(),
            scores_dtype: AUTOSUGGEST_GENERATOR_SCORE_DTYPE.to_string(),
            batch_size: 1,
            context_ids_shape: [1, MAX_AUTOSUGGEST_RERANK_CONTEXT_TOKENS],
            candidate_ids_shape: None,
            token_ids_shape: [1, 8],
            scores_shape: [1, 8],
            candidate_scores_shape: None,
            scored_union_policy: None,
            pad_id: AUTOSUGGEST_PAD_ID,
            bos_id: AUTOSUGGEST_BOS_ID,
            unk_id: AUTOSUGGEST_UNK_ID,
            visible_candidates: DEFAULT_AUTOSUGGEST_CANDIDATES,
        },
        ngram: AutosuggestGeneratorNgram {
            path: "fixture.bin".to_string(),
            manifest: "fixture.ngram.json".to_string(),
            bytes: info.artifact_bytes,
            artifact_fingerprint: format!("{:016x}", lm.artifact_fingerprint()),
            vocab_size: info.vocab_size,
            vocab_fingerprint: info.vocab_fingerprint,
            max_candidates_per_prefix: 8,
            candidate_rows: 4,
            candidate_record_len: info.candidate_record_len,
        },
        generator: AutosuggestGeneratorModel {
            architecture: "gru".to_string(),
            context_window: MAX_AUTOSUGGEST_RERANK_CONTEXT_TOKENS,
            embedding_dim: 128,
            hidden_dim: 128,
            parameter_count: 1,
            top_k_output: 8,
            onnx: generator_file("fixture.onnx"),
            quantized_onnx: generator_file("fixture.int8.onnx"),
            coreml: generator_file("fixture.mlpackage"),
            coreml_target: "ios17".to_string(),
            coreml_precision: "float16".to_string(),
            coreml_compute_unit: "cpu_and_ne".to_string(),
            export_kind: Some("full-vocab-topk-scorer".to_string()),
            pool_k: None,
        },
        // Timings of 100, 90 and 80 microseconds per item.
        onnx_benchmark_ok: true,
        quantized_onnx_benchmark_ok: true,
        coreml_benchmark_ok: true,
        // Sixteen context slots and eight proposals take well under a page.
        session_heap_limit_bytes: 16 * 4 + 16 * 4 + 8 * 16 + 8 * 32 + 8 * 32,
        eligible_targets: 10_000,
        static_pool: AutosuggestQualityVerdict::Valid,
        selected_topk: AutosuggestQualityVerdict::Valid,
        union_gain_valid: true,
        selected_merged_visible: Some(AutosuggestGeneratorMergedQualityFields {
            visible_candidates: DEFAULT_AUTOSUGGEST_CANDIDATES,
            gains_finite: true,
        }),
        selected_scored_union: None,
    }
}

fn scored_union_policy() -> AutosuggestScoredUnionPolicyFields {
    AutosuggestScoredUnionPolicyFields { locked_static_prefix: 1, weights: AutosuggestPolicyWeightsVerdict::Valid }
}

fn weight(value: f32) -> AutosuggestFloatMatch {
    AutosuggestFloatMatch { matches: true, expected: value.to_string(), actual: value.to_string() }
}

fn source_quality() -> AutosuggestGeneratorSourceQualityFields {
    AutosuggestGeneratorSourceQualityFields {
        eligible_targets: MIN_AUTOSUGGEST_GENERATOR_SOURCE_ELIGIBLE_TARGETS,
        metrics: AutosuggestQualityVerdict::Valid,
        gains_finite: true,
        gains_positive: true,
    }
}

fn scored_union_quality() -> AutosuggestGeneratorScoredUnionQualityFields {
    AutosuggestGeneratorScoredUnionQualityFields {
        metrics: AutosuggestQualityVerdict::Valid,
        locked_static_prefix: 1,
        static_bonus: weight(1.0),
        static_rank_penalty: weight(0.5),
        generated_penalty: weight(2.0),
        static_source_bonus: weight(0.0),
        gains_finite: true,
        top5_gain_positive: true,
        mrr_gain_positive: true,
        accepted_for_packaging: true,
        accepted_for_packaging_all_eval_sources: true,
        // "epub", "news" and "wiki", in that order.
        eval_per_source: vec![source_quality(), source_quality(), source_quality()],
    }
}

fn add_scored_union_gate(manifest: &mut AutosuggestGeneratorManifestFields) {
    manifest.runtime_contract.candidate_ids_shape = Some([1, 3]);
    manifest.runtime_contract.candidate_scores_shape = Some([1, 3]);
    manifest.runtime_contract.scored_union_policy = Some(scored_union_policy());
    manifest.generator.pool_k = Some(3);
    manifest.selected_scored_union = Some(scored_union_quality());
}

#[test]
fn generator_manifest_validates_against_matching_lm() {
    let lm = generator_lm();
    let manifest = generator_manifest(&lm);

    let compatibility = manifest.validate_for_lm(&lm).unwrap();

    assert_eq!(compatibility.context_window, MAX_AUTOSUGGEST_RERANK_CONTEXT_TOKENS);
    assert_eq!(compatibility.top_k_output, 8);
    assert_eq!(compatibility.candidate_pool, None);
    assert_eq!(compatibility.vocab_size, 11);
}

#[test]
fn generator_manifest_accepts_combined_candidate_score_shapes() {
    let lm = generator_lm();
    let mut manifest = generator_manifest(&lm);
    manifest.runtime_contract.candidate_ids_shape = Some([1, 6]);
    manifest.runtime_contract.candidate_scores_shape = Some([1, 6]);

    let compatibility = manifest.validate_for_lm(&lm).unwrap();
    assert_eq!(compatibility.candidate_pool, Some(6));
}

#[test]
fn generator_manifest_rejects_half_declared_candidate_score_shapes() {
    let lm = generator_lm();
    let mut manifest = generator_manifest(&lm);
    manifest.runtime_contract.candidate_ids_shape = Some([1, 6]);

    let error = manifest.validate_for_lm(&lm).unwrap_err();

    assert!(matches!(
        error,
        AutosuggestGeneratorManifestError::Invalid { field: "runtime_contract.candidate_scores_shape", .. }
    ));
}

#[test]
fn generator_manifest_rejects_non_improving_quality() {
    let lm = generator_lm();
    let mut manifest = generator_manifest(&lm);
    let union_recall_all_target_gain = 0.0f64;
    manifest.union_gain_valid = union_recall_all_target_gain.is_finite() && union_recall_all_target_gain > 0.0;

    let error = manifest.validate_for_lm(&lm).unwrap_err();

    assert_eq!(
        error,
        AutosuggestGeneratorManifestError::Invalid {
            field: "quality.union_recall_all_target_gain",
            reason: "must be finite and positive".to_string(),
        }
    );
}

#[test]
fn generator_manifest_rejects_mobile_budget_violations() {
    let lm = generator_lm();
    let mut manifest = generator_manifest(&lm);
    manifest.generator.coreml.bytes = MAX_AUTOSUGGEST_GENERATOR_COREML_BYTES + 1;

    let error = manifest.validate_for_lm(&lm).unwrap_err();

    assert_eq!(
        error,
        AutosuggestGeneratorManifestError::Invalid {
            field: "generator.coreml.bytes",
            reason: format!("exceeds maximum {}", MAX_AUTOSUGGEST_GENERATOR_COREML_BYTES),
        }
    );
}

#[test]
fn generator_manifest_rejects_slow_mobile_benchmarks() {
    let lm = generator_lm();
    let mut manifest = generator_manifest(&lm);
    let max_us_per_item = 1_000.0f64;
    let coreml_mean_us_per_item = max_us_per_item + 1.0;
    manifest.coreml_benchmark_ok =
        coreml_mean_us_per_item.is_finite() && coreml_mean_us_per_item > 0.0 && coreml_mean_us_per_item <= max_us_per_item;

    let error = manifest.validate_for_lm(&lm).unwrap_err();

    assert_eq!(
        error,
        AutosuggestGeneratorManifestError::Invalid {
            field: "benchmark.coreml_mean_us_per_item",
            reason: format!("must be finite, positive, and at most {}", max_us_per_item),
        }
    );
}

#[test]
fn generator_manifest_rejects_missing_scored_union_quality() {
    let lm = generator_lm();
    let mut manifest = generator_manifest(&lm);
    manifest.runtime_contract.candidate_ids_shape = Some([1, 3]);
    manifest.runtime_contract.candidate_scores_shape = Some([1, 3]);
    manifest.runtime_contract.scored_union_policy = Some(scored_union_policy());
    manifest.generator.pool_k = Some(3);

    let error = manifest.validate_for_lm(&lm).unwrap_err();

    assert_eq!(
        error,
        AutosuggestGeneratorManifestError::Invalid {
            field: "quality.selected_scored_union",
            reason: "is required when a scored-union policy is declared".to_string(),
        }
    );
}

#[test]
fn generator_manifest_rejects_source_regressing_scored_union() {
    let lm = generator_lm();
    let mut manifest = generator_manifest(&lm);
    add_scored_union_gate(&mut manifest);
    manifest.validate_for_lm(&lm).unwrap();
    let news = &mut manifest.selected_scored_union.as_mut().unwrap().eval_per_source[1];
    let (top5_gain, mrr_gain) = (0.01f64, -0.01f64);
    news.gains_positive = top5_gain > 0.0 && mrr_gain > 0.0;

    let error = manifest.validate_for_lm(&lm).unwrap_err();

    assert_eq!(
        error,
        AutosuggestGeneratorManifestError::Invalid {
            field: "quality.selected_scored_union.eval_per_source",
            reason: "source top-5 and MRR gains must be positive".to_string(),
        }
    );
}

#[test]
fn generator_manifest_rejects_unaccepted_source_balanced_policy() {
    let lm = generator_lm();
    let mut manifest = generator_manifest(&lm);
    add_scored_union_gate(&mut manifest);
    manifest.selected_scored_union.as_mut().unwrap().accepted_for_packaging_all_eval_sources = false;

    let error = manifest.validate_for_lm(&lm).unwrap_err();

    assert_eq!(
        error,
        AutosuggestGeneratorManifestError::Invalid {
            field: "quality.selected_scored_union.accepted_for_packaging_all_eval_sources",
            reason: "must be true for source-balanced production manifests".to_string(),
        }
    );
}

#[test]
fn generator_manifest_reports_heap_pool_and_policy_problems() {
    let lm = generator_lm();
    let mut manifest = generator_manifest(&lm);
    manifest.session_heap_limit_bytes = MAX_AUTOSUGGEST_GENERATOR_SESSION_HEAP_BYTES + 1;
    assert_eq!(
        manifest.validate_for_lm(&lm).unwrap_err(),
        AutosuggestGeneratorManifestError::Invalid {
            field: "runtime_contract.session_heap_limit_bytes",
            reason: "exceeds maximum 65536".to_string(),
        }
    );

    let mut manifest = generator_manifest(&lm);
    add_scored_union_gate(&mut manifest);
    manifest.generator.pool_k = Some(4);
    assert_eq!(
        manifest.validate_for_lm(&lm).unwrap_err(),
        AutosuggestGeneratorManifestError::Mismatch {
            field: "generator.pool_k",
            expected: "3".to_string(),
            actual: "4".to_string(),
        }
    );

    let mut manifest = generator_manifest(&lm);
    add_scored_union_gate(&mut manifest);
    manifest.runtime_contract.scored_union_policy = Some(AutosuggestScoredUnionPolicyFields {
        locked_static_prefix: 1,
        weights: AutosuggestPolicyWeightsVerdict::NegativePenalty,
    });
    assert_eq!(
        manifest.validate_for_lm(&lm).unwrap_err(),
        AutosuggestGeneratorManifestError::Invalid {
            field: "runtime_contract.scored_union_policy",
            reason: "penalties must be non-negative".to_string(),
        }
    );

    let mut manifest = generator_manifest(&lm);
    manifest.eligible_targets = MIN_AUTOSUGGEST_GENERATOR_ELIGIBLE_TARGETS - 1;
    manifest.static_pool = AutosuggestQualityVerdict::NotMonotonic;
    assert_eq!(
        manifest.validate_for_lm(&lm).unwrap_err(),
        AutosuggestGeneratorManifestError::Invalid {
            field: "quality.eligible_targets",
            reason: "is below minimum production gate 10000".to_string(),
        }
    );
    manifest.eligible_targets = MIN_AUTOSUGGEST_GENERATOR_ELIGIBLE_TARGETS;
    assert_eq!(
        manifest.validate_for_lm(&lm).unwrap_err(),
        AutosuggestGeneratorManifestError::Invalid {
            field: "quality.static_pool",
            reason: "top-k metrics must be monotonic".to_string(),
        }
    );
}

#[test]
fn generator_manifest_reports_the_first_failing_source() {
    let lm = generator_lm();
    let mut manifest = generator_manifest(&lm);
    add_scored_union_gate(&mut manifest);
    {
        let sources = &mut manifest.selected_scored_union.as_mut().unwrap().eval_per_source;
        sources[1].metrics = AutosuggestQualityVerdict::MrrOutOfRange;
        sources[2].eligible_targets = 10;
    }
    assert_eq!(
        manifest.validate_for_lm(&lm).unwrap_err(),
        AutosuggestGeneratorManifestError::Invalid {
            field: "quality.selected_scored_union.eval_per_source",
            reason: "MRR must stay between top-1 and top-5".to_string(),
        }
    );

    manifest.selected_scored_union.as_mut().unwrap().eval_per_source.clear();
    assert_eq!(
        manifest.validate_for_lm(&lm).unwrap_err(),
        AutosuggestGeneratorManifestError::Invalid {
            field: "quality.selected_scored_union.eval_per_source",
            reason: "must include per-source held-out metrics".to_string(),
        }
    );
}

fn static_id(token_id: u32) -> AutosuggestCandidateId {
    AutosuggestCandidateId { token_id, source: AutosuggestSource::Bigram, count: 10, score: 10 }
}

#[test]
fn unified_join_keeps_each_text_once_with_every_signal() {
    let lm = generator_lm();
    let mut output = Vec::new();
    let texts = vec!["ঘুমাই".to_string(), "খেলতে".to_string(), "খেলতে".to_string()];
    unify_static_generated_and_text_candidates_into(&lm, &[static_id(5), static_id(7)], &[8, 7, 9], &texts, &mut output)
        .unwrap();

    let joined: Vec<&str> = output.iter().map(|pick| pick.text.as_str()).collect();
    assert_eq!(joined, vec!["সকালে", "যাব", "খাই", "ঘুমাই", "খেলতে"]);
    assert_eq!(output[0].kind, AutosuggestUnifiedCandidateKind::Static);
    assert_eq!(output[1].kind, AutosuggestUnifiedCandidateKind::Mixed);
    assert_eq!(output[1].static_rank, Some(1));
    assert_eq!(output[1].generated_token_index, Some(1));
    assert_eq!(output[2].kind, AutosuggestUnifiedCandidateKind::GeneratedToken);
    assert_eq!(output[3].kind, AutosuggestUnifiedCandidateKind::Mixed);
    assert_eq!(output[3].token_id, Some(9));
    assert_eq!(output[3].generated_text_index, Some(0));
    assert_eq!(output[4].kind, AutosuggestUnifiedCandidateKind::Mixed);
    assert_eq!(output[4].token_id, None);
    assert_eq!(output[4].generated_text_index, Some(2));
}

#[test]
fn unified_join_stops_at_a_word_the_model_cannot_spell() {
    let lm = generator_lm();
    let mut output = Vec::new();
    let error = unify_static_generated_and_text_candidates_into(&lm, &[static_id(5)], &[8, 99], &[], &mut output)
        .unwrap_err();
    assert_eq!(error, AutosuggestOpenVocabError::Artifact(AutosuggestArtifactError::InvalidTokenId(99)));
    let joined: Vec<&str> = output.iter().map(|pick| pick.text.as_str()).collect();
    assert_eq!(joined, vec!["সকালে", "খাই"]);
}

fn generator_shape(lm: &AutosuggestLm) -> AutosuggestGeneratorShape {
    let compatibility = generator_manifest(lm).validate_for_lm(lm).unwrap();
    AutosuggestGeneratorShape {
        context_window: compatibility.context_window,
        top_k_output: compatibility.top_k_output,
        candidate_pool: compatibility.candidate_pool,
    }
}

#[test]
fn generator_handoff_prepares_context_and_filters_generated_outputs() {
    let lm = generator_lm();
    let shape = generator_shape(&lm);
    let mut context = AutosuggestContext::new();
    lm.push_context_text(&mut context, "আমি আজ").unwrap();
    let mut context_ids = vec![99_i32; shape.context_window];
    let mut generated = Vec::new();
    let model_scores = [5.0f32, 4.0, 3.0, f32::NAN, 1.0, 0.0, -1.0, -2.0];

    let context_len = shape.coreml_context_for_context_into(&lm, context, &mut context_ids).unwrap();
    shape
        .generated_i32_candidates_into(&lm, &[7, 7, 2, 6, 5, 0, 1, 3], model_scores.len(), &mut generated)
        .unwrap();

    assert_eq!(context_len, 2);
    assert_eq!(&context_ids[context_ids.len() - 2..], &[3_i32, 4_i32]);
    assert_eq!(
        generated.iter().map(|candidate| (candidate.token_id, candidate.model_rank)).collect::<Vec<_>>(),
        vec![(7, 0), (6, 3), (5, 4), (3, 7)]
    );
    assert!(model_scores[generated[1].model_rank].is_nan());
}

#[test]
fn generator_handoff_keeps_full_topk_candidate_pool() {
    let lm = generator_lm();
    let compatibility = generator_manifest(&lm).validate_for_lm(&lm).unwrap();
    let shape = generator_shape(&lm);
    let mut generated = Vec::new();

    shape.generated_i32_candidates_into(&lm, &[7, 6, 5, 4, 3, 8, 9, 10], 8, &mut generated).unwrap();

    assert_eq!(compatibility.visible_candidates, 5);
    assert_eq!(generated.len(), 8);
    assert_eq!(generated.iter().map(|candidate| candidate.token_id).collect::<Vec<_>>(), vec![7, 6, 5, 4, 3, 8, 9, 10]);
}
