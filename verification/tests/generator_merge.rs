use obadh_engine::candidate::{AutosuggestCandidateId, AutosuggestSource};
use obadh_engine::generator_merge::{
    merge_static_and_generated_candidates_into, union_static_and_generated_candidates_into,
    AutosuggestGeneratorMergeOptions, AutosuggestMergedCandidateSource,
};
use obadh_engine::generator_outputs::AutosuggestGeneratorHandoffError;

fn static_candidate(token_id: u32, score: i32) -> AutosuggestCandidateId {
    AutosuggestCandidateId {
        token_id,
        source: AutosuggestSource::Fourgram,
        count: 10,
        score,
    }
}

#[test]
fn merge_preserves_static_prefix_then_adds_neural_pool_and_static_tail() {
    let static_candidates = [
        static_candidate(5, 100),
        static_candidate(7, 80),
        static_candidate(4, 60),
    ];
    // generator proposals, in model order: 7, 6, 3
    let generated = [7u32, 6, 3];
    let mut merged = Vec::new();

    merge_static_and_generated_candidates_into(
        &static_candidates,
        &generated,
        AutosuggestGeneratorMergeOptions {
            max_candidates: 5,
            locked_static_prefix: 1,
        },
        &mut merged,
    );

    assert_eq!(
        merged
            .iter()
            .map(|candidate| (candidate.token_id, candidate.source))
            .collect::<Vec<_>>(),
        vec![
            (5, AutosuggestMergedCandidateSource::Static),
            (7, AutosuggestMergedCandidateSource::StaticAndGenerated),
            (6, AutosuggestMergedCandidateSource::Generated),
            (3, AutosuggestMergedCandidateSource::Generated),
            (4, AutosuggestMergedCandidateSource::Static),
        ]
    );
    assert_eq!(merged[1].static_rank, Some(1));
    assert_eq!(merged[1].generated_index, Some(0));
}

#[test]
fn merge_respects_limit_and_default_options() {
    let static_candidates = [
        static_candidate(5, 100),
        static_candidate(7, 80),
        static_candidate(4, 60),
    ];
    let generated = [9u32, 8, 5];
    let mut merged = Vec::new();
    merge_static_and_generated_candidates_into(
        &static_candidates,
        &generated,
        AutosuggestGeneratorMergeOptions {
            max_candidates: 3,
            locked_static_prefix: 2,
        },
        &mut merged,
    );
    // two locked static words, then the first proposal; the static word 5
    // proposed again only gains its generated part
    assert_eq!(
        merged.iter().map(|c| c.token_id).collect::<Vec<_>>(),
        vec![5, 7, 9]
    );
    assert_eq!(merged[0].source, AutosuggestMergedCandidateSource::StaticAndGenerated);
    assert_eq!(merged[0].generated_index, Some(2));

    // a zero limit still leaves room for one
    merge_static_and_generated_candidates_into(
        &static_candidates,
        &generated,
        AutosuggestGeneratorMergeOptions {
            max_candidates: 0,
            locked_static_prefix: 0,
        },
        &mut merged,
    );
    assert_eq!(merged.len(), 1);
    assert_eq!(merged[0].token_id, 9);

    let defaults = AutosuggestGeneratorMergeOptions::default();
    assert_eq!(defaults.max_candidates, 5);
    assert_eq!(defaults.locked_static_prefix, 1);
}

#[test]
fn union_keeps_every_static_candidate_and_every_proposed_word() {
    let statics = [static_candidate(7, 20), static_candidate(5, 10), static_candidate(9, 5)];
    let mut output = Vec::new();
    union_static_and_generated_candidates_into(&statics, 3, &[8, 5, 4, 8], &mut output).unwrap();

    let words: Vec<u32> = output.iter().map(|pick| pick.token_id).collect();
    assert_eq!(words, vec![7, 5, 9, 8, 4]);
    assert_eq!(output[1].source, AutosuggestMergedCandidateSource::StaticAndGenerated);
    assert_eq!(output[1].static_rank, Some(1));
    assert_eq!(output[1].generated_index, Some(1));
    assert_eq!(output[0].source, AutosuggestMergedCandidateSource::Static);
    assert_eq!(output[0].generated_index, None);
    assert_eq!(output[3].source, AutosuggestMergedCandidateSource::Generated);
    assert_eq!(output[3].generated_index, Some(3));
    assert_eq!(output[4].static_candidate, None);
}

#[test]
fn scored_union_rejects_short_static_score_buffer() {
    let static_candidates = [static_candidate(5, 100), static_candidate(7, 80)];
    let static_model_scores = [0.0f32];
    let mut output = Vec::new();

    let error =
        union_static_and_generated_candidates_into(&static_candidates, static_model_scores.len(), &[], &mut output)
            .unwrap_err();

    assert!(matches!(
        error,
        AutosuggestGeneratorHandoffError::InvalidBuffer { field: "static_model_scores", expected: 2, actual: 1 }
    ));
    assert!(output.is_empty());
}
