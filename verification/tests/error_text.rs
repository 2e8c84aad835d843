use obadh_engine::artifact::AutosuggestArtifactError;
use obadh_engine::generator_manifest::AutosuggestGeneratorManifestError;
use obadh_engine::generator_outputs::AutosuggestGeneratorHandoffError;
use obadh_engine::open_vocab_merge::AutosuggestOpenVocabError;
use obadh_engine::personal_snapshot::{PersonalAutosuggestError, PersonalAutosuggestSnapshotError};
use obadh_engine::scorer_inputs::{AutosuggestRerankError, AutosuggestScorerHandoffError};
use obadh_engine::scorer_manifest::AutosuggestScorerManifestError;

#[test]
fn artifact_errors_read_as_messages() {
    assert_eq!(AutosuggestArtifactError::UnexpectedEof.message(), "autosuggest artifact is truncated");
    assert_eq!(
        AutosuggestArtifactError::InvalidMagic.message(),
        "autosuggest artifact has an invalid magic header"
    );
    assert_eq!(
        AutosuggestArtifactError::UnsupportedVersion(7).message(),
        "unsupported autosuggest artifact version 7"
    );
    assert_eq!(
        AutosuggestArtifactError::InvalidSectionLayout.message(),
        "autosuggest artifact section layout is invalid"
    );
    assert_eq!(
        AutosuggestArtifactError::InvalidTokenId(4294967295).message(),
        "autosuggest artifact references invalid token id 4294967295"
    );
    assert_eq!(
        AutosuggestArtifactError::InvalidUtf8.message(),
        "autosuggest artifact contains invalid UTF-8 token bytes"
    );
    assert_eq!(
        AutosuggestArtifactError::ModelFingerprintMismatch { expected: 10, actual: 0 }.message(),
        "autosuggest model fingerprint mismatch: expected 10, got 0"
    );
}

#[test]
fn personal_errors_read_as_messages() {
    assert_eq!(PersonalAutosuggestError::UnexpectedEof.message(), "personal autosuggest snapshot is truncated");
    assert_eq!(PersonalAutosuggestError::InvalidMagic.message(), "personal autosuggest snapshot has invalid magic");
    assert_eq!(
        PersonalAutosuggestError::UnsupportedVersion(4).message(),
        "unsupported personal autosuggest snapshot version 4"
    );
    assert_eq!(PersonalAutosuggestError::InvalidLayout.message(), "personal autosuggest snapshot layout is invalid");
    assert_eq!(
        PersonalAutosuggestSnapshotError::Snapshot(PersonalAutosuggestError::InvalidLayout).message(),
        "personal autosuggest snapshot layout is invalid"
    );
    assert_eq!(
        PersonalAutosuggestSnapshotError::Model(AutosuggestArtifactError::InvalidTokenId(99)).message(),
        "autosuggest artifact references invalid token id 99"
    );
}

#[test]
fn handoff_errors_read_as_messages() {
    assert_eq!(
        AutosuggestRerankError::ScoreLengthMismatch { candidates: 3, scores: 2 }.message(),
        "autosuggest reranker received 2 model scores for 3 candidates"
    );
    assert_eq!(
        AutosuggestScorerHandoffError::InvalidBuffer { field: "context_ids", expected: 16, actual: 15 }.message(),
        "autosuggest scorer handoff expected context_ids length 16, got 15"
    );
    assert_eq!(
        AutosuggestScorerHandoffError::Rerank(AutosuggestRerankError::ScoreLengthMismatch { candidates: 1, scores: 0 })
            .message(),
        "autosuggest reranker received 0 model scores for 1 candidates"
    );
    assert_eq!(
        AutosuggestScorerHandoffError::Artifact(AutosuggestArtifactError::UnexpectedEof).message(),
        "autosuggest artifact is truncated"
    );
    assert_eq!(
        AutosuggestOpenVocabError::InvalidBuffer { field: "model_scores", expected: 4, actual: 5 }.message(),
        "autosuggest open-vocab handoff expected model_scores length 4, got 5"
    );
    assert_eq!(
        AutosuggestOpenVocabError::Artifact(AutosuggestArtifactError::InvalidUtf8).message(),
        "autosuggest artifact contains invalid UTF-8 token bytes"
    );
}

#[test]
fn generator_handoff_errors_read_as_messages() {
    assert_eq!(
        AutosuggestGeneratorHandoffError::InvalidBuffer { field: "token_ids", expected: 8, actual: 0 }.message(),
        "autosuggest generator handoff expected token_ids length 8, got 0"
    );
    assert_eq!(
        AutosuggestGeneratorHandoffError::MissingCandidatePool.message(),
        "autosuggest generator manifest does not declare a static candidate pool"
    );
    assert_eq!(
        AutosuggestGeneratorHandoffError::MissingScoredUnionPolicy.message(),
        "autosuggest generator manifest does not declare a scored-union policy"
    );
    assert_eq!(
        AutosuggestGeneratorHandoffError::InvalidGeneratedTokenId { index: 2, token_id: -5 }.message(),
        "autosuggest generator returned invalid token id -5 at rank 2"
    );
    assert_eq!(
        AutosuggestGeneratorHandoffError::InvalidGeneratedTokenId { index: 0, token_id: i64::MIN }.message(),
        "autosuggest generator returned invalid token id -9223372036854775808 at rank 0"
    );
    assert_eq!(
        AutosuggestGeneratorHandoffError::InvalidGeneratedTokenId { index: 1, token_id: 70000 }.message(),
        "autosuggest generator returned invalid token id 70000 at rank 1"
    );
}

#[test]
fn manifest_errors_read_as_messages() {
    assert_eq!(
        AutosuggestScorerManifestError::Mismatch {
            field: "version",
            expected: "1".to_string(),
            actual: "2".to_string(),
        }
        .message(),
        "autosuggest scorer manifest mismatch for version: expected 1, got 2"
    );
    assert_eq!(
        AutosuggestScorerManifestError::Invalid { field: "scorer.onnx.sha256", reason: "expected hex".to_string() }
            .message(),
        "autosuggest scorer manifest has invalid scorer.onnx.sha256: expected hex"
    );
    assert_eq!(
        AutosuggestGeneratorManifestError::Asset {
            field: "generator.onnx.path",
            path: "/tmp/model.onnx".to_string(),
            reason: "expected a file".to_string(),
        }
        .message(),
        "autosuggest generator manifest asset check failed for generator.onnx.path at /tmp/model.onnx: expected a file"
    );
    assert_eq!(
        AutosuggestGeneratorManifestError::Invalid { field: "artifact", reason: String::new() }.message(),
        "autosuggest generator manifest has invalid artifact: "
    );
}
