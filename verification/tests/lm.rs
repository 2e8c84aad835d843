use obadh_engine::lm::V1_CONTEXT_TOKENS;
use obadh_engine::{
    scorer_candidate_i32s_for_candidates_into, scorer_candidate_ids_for_candidates_into,
    AutosuggestArtifactError, AutosuggestCandidateId, AutosuggestContext,
    AutosuggestContextPriorOptions, AutosuggestLm, AutosuggestOptions, AutosuggestSource,
    AUTOSUGGEST_ARTIFACT_KIND, AUTOSUGGEST_BOS_ID, AUTOSUGGEST_PAD_I32, AUTOSUGGEST_PAD_ID,
    AUTOSUGGEST_UNK_ID,
};

const VERSION: u32 = 1;
const VERSION_V2: u32 = 2;
const VERSION_V3: u32 = 3;
const CANDIDATE_RECORD_LEN: usize = 12;
const COUNT_CANDIDATE_RECORD_LEN: usize = 8;
const PAD_ID: u32 = AUTOSUGGEST_PAD_ID;
const BOS_ID: u32 = AUTOSUGGEST_BOS_ID;
const UNK_ID: u32 = AUTOSUGGEST_UNK_ID;

struct Row {
    context: Vec<u32>,
    candidates: Vec<(u32, u32, i32)>,
}

fn write_u32(bytes: &mut Vec<u8>, value: u32) {
    bytes.extend_from_slice(&value.to_le_bytes());
}

fn build(tokens: &[&str], unigrams: &[(u32, u32, i32)], rows: &[Row], count_only: bool) -> Vec<u8> {
    let mut token_bytes = Vec::new();
    let mut id_records = Vec::new();
    for token in tokens {
        let offset = token_bytes.len() as u32;
        token_bytes.extend_from_slice(token.as_bytes());
        id_records.push((offset, token.len() as u32));
    }
    let mut index: Vec<(Vec<u8>, u32, u32, u32)> = id_records
        .iter()
        .enumerate()
        .map(|(id, (o, l))| {
            (
                token_bytes[*o as usize..(*o + *l) as usize].to_vec(),
                *o,
                *l,
                id as u32,
            )
        })
        .collect();
    index.sort_by(|a, b| a.0.cmp(&b.0));

    let mut bigrams = Vec::new();
    let mut trigrams = Vec::new();
    let mut fourgrams = Vec::new();
    let mut candidates: Vec<(u32, u32, i32)> = Vec::new();
    for row in rows {
        let start = candidates.len() as u32;
        candidates.extend(row.candidates.iter().copied());
        let len = row.candidates.len() as u32;
        match row.context.as_slice() {
            [a] => bigrams.push((*a, start, len)),
            [a, b] => trigrams.push((*a, *b, start, len)),
            [a, b, c] => fourgrams.push((*a, *b, *c, start, len)),
            _ => panic!("rows must have one to three context ids"),
        }
    }
    bigrams.sort_by_key(|r| r.0);
    trigrams.sort_by_key(|r| (r.0, r.1));
    fourgrams.sort_by_key(|r| (r.0, r.1, r.2));
    let version = if count_only {
        VERSION_V3
    } else if fourgrams.is_empty() {
        VERSION
    } else {
        VERSION_V2
    };

    let mut bytes = Vec::new();
    bytes.extend_from_slice(b"OBAUTOSUGLM_V1\0\0");
    write_u32(&mut bytes, version);
    write_u32(&mut bytes, tokens.len() as u32);
    write_u32(&mut bytes, tokens.len() as u32);
    write_u32(&mut bytes, unigrams.len() as u32);
    write_u32(&mut bytes, bigrams.len() as u32);
    write_u32(&mut bytes, trigrams.len() as u32);
    write_u32(&mut bytes, candidates.len() as u32);
    write_u32(&mut bytes, token_bytes.len() as u32);
    write_u32(&mut bytes, 0);
    if version != VERSION {
        write_u32(&mut bytes, fourgrams.len() as u32);
    }
    for (o, l) in &id_records {
        write_u32(&mut bytes, *o);
        write_u32(&mut bytes, *l);
    }
    for (_, o, l, id) in &index {
        write_u32(&mut bytes, *o);
        write_u32(&mut bytes, *l);
        write_u32(&mut bytes, *id);
    }
    let write_candidate = |bytes: &mut Vec<u8>, c: &(u32, u32, i32)| {
        write_u32(bytes, c.0);
        write_u32(bytes, c.1);
        if !count_only {
            bytes.extend_from_slice(&c.2.to_le_bytes());
        }
    };
    for c in unigrams {
        write_candidate(&mut bytes, c);
    }
    for (a, s, l) in &bigrams {
        write_u32(&mut bytes, *a);
        write_u32(&mut bytes, *s);
        write_u32(&mut bytes, *l);
    }
    for (a, b, s, l) in &trigrams {
        write_u32(&mut bytes, *a);
        write_u32(&mut bytes, *b);
        write_u32(&mut bytes, *s);
        write_u32(&mut bytes, *l);
    }
    for (a, b, c, s, l) in &fourgrams {
        write_u32(&mut bytes, *a);
        write_u32(&mut bytes, *b);
        write_u32(&mut bytes, *c);
        write_u32(&mut bytes, *s);
        write_u32(&mut bytes, *l);
    }
    for c in &candidates {
        write_candidate(&mut bytes, c);
    }
    bytes.extend_from_slice(&token_bytes);
    bytes
}

fn build_fixture(tokens: &[&str], unigrams: &[(u32, u32, i32)], rows: &[Row]) -> Vec<u8> {
    build(tokens, unigrams, rows, false)
}

fn build_count_fixture(tokens: &[&str], unigrams: &[(u32, u32, i32)], rows: &[Row]) -> Vec<u8> {
    build(tokens, unigrams, rows, true)
}

fn candidates_section_offset(bytes: &[u8]) -> usize {
    let rd = |o: usize| u32::from_le_bytes(bytes[o..o + 4].try_into().unwrap()) as usize;
    let version = rd(16);
    let header = if version == 1 { 52 } else { 56 };
    let rl = if version == 3 { 8 } else { 12 };
    let fourgrams = if version == 1 { 0 } else { rd(52) };
    header + rd(20) * 8 + rd(24) * 12 + rd(28) * rl + rd(32) * 12 + rd(36) * 16 + fourgrams * 20
}

fn fixture() -> AutosuggestLm {
    let tokens = [
        "<pad>", "<bos>", "<unk>", "আমি", "আজ", "সকালে", "স্কুলে", "যাব", "খাব",
    ];
    AutosuggestLm::from_bytes(build_fixture(
        &tokens,
        &[(5, 100, -800), (7, 90, -900), (8, 80, -950)],
        &[
            Row {
                context: vec![4],
                candidates: vec![(5, 40, -700), (7, 12, -850)],
            },
            Row {
                context: vec![3, 4],
                candidates: vec![(7, 9, -500), (5, 7, -600)],
            },
        ],
    ))
    .expect("fixture should parse")
}

fn sentence_start_fixture() -> AutosuggestLm {
    let tokens = ["<pad>", "<bos>", "<unk>", "শুরু", "সাধারণ", "অন্য"];
    AutosuggestLm::from_bytes(build_fixture(
        &tokens,
        &[(4, 100, 100), (5, 90, 90)],
        &[Row {
            context: vec![BOS_ID],
            candidates: vec![(3, 30, 30)],
        }],
    ))
    .expect("sentence-start fixture should parse")
}

fn texts_and_sources(lm: &AutosuggestLm, text: &str, max: usize) -> Vec<(String, AutosuggestSource)> {
    lm.suggest_for_text(text, AutosuggestOptions { max_candidates: max })
        .unwrap()
        .candidates
        .iter()
        .map(|c| (c.text.to_string(), c.source))
        .collect()
}

#[test]
fn token_lookup_uses_sorted_index() {
    let lm = fixture();
    assert_eq!(lm.token_id("আজ").unwrap(), Some(4));
    assert_eq!(lm.token_id("নেই").unwrap(), None);
    assert_eq!(lm.token_text(7).unwrap(), "যাব");
    assert_ne!(lm.vocab_fingerprint(), 0);
    assert_ne!(lm.artifact_fingerprint(), 0);
}

#[test]
fn model_info_reports_validated_header_identity() {
    let lm = fixture();
    let info = lm.model_info();

    assert_eq!(info.artifact_kind, AUTOSUGGEST_ARTIFACT_KIND);
    assert_eq!(info.version, VERSION);
    assert_eq!(info.artifact_bytes, lm.artifact_bytes());
    assert_eq!(info.vocab_size, 9);
    assert_eq!(info.vocab_fingerprint, lm.vocab_fingerprint());
    assert_eq!(info.unigram_count, 3);
    assert_eq!(info.bigram_rows, 1);
    assert_eq!(info.trigram_rows, 1);
    assert_eq!(info.fourgram_rows, 0);
    assert_eq!(info.candidate_record_len, CANDIDATE_RECORD_LEN);
}

#[test]
fn count_only_artifact_derives_score_from_count() {
    let tokens = ["<pad>", "<bos>", "<unk>", "আমি", "আজ", "যাব", "না"];
    let lm = AutosuggestLm::from_bytes(build_count_fixture(
        &tokens,
        &[(5, 100, 0), (6, 50, 0)],
        &[Row {
            context: vec![3, 4],
            candidates: vec![(5, 9, 0), (6, 7, 0)],
        }],
    ))
    .unwrap();

    let result = lm
        .suggest_for_text("আমি আজ", AutosuggestOptions { max_candidates: 3 })
        .unwrap();

    assert_eq!(lm.model_info().version, VERSION_V3);
    assert_eq!(
        lm.model_info().candidate_record_len,
        COUNT_CANDIDATE_RECORD_LEN
    );
    assert_eq!(result.matched_context_token_count, V1_CONTEXT_TOKENS);
    assert_eq!(
        result
            .candidates
            .iter()
            .map(|candidate| (candidate.text, candidate.count, candidate.score))
            .collect::<Vec<_>>(),
        vec![("যাব", 9, 9), ("না", 7, 7)]
    );
}

#[test]
fn word_token_validation_rejects_reserved_artifact_ids() {
    let lm = fixture();

    for token_id in 0..=UNK_ID {
        assert!(!lm.is_word_token_id(token_id));
        assert_eq!(
            lm.validate_word_token_id(token_id).unwrap_err(),
            AutosuggestArtifactError::InvalidTokenId(token_id)
        );
    }

    assert!(lm.is_word_token_id(3));
    assert!(lm.validate_word_token_id(3).is_ok());
    assert!(!lm.is_word_token_id(lm.vocab_size() as u32));
}

#[test]
fn artifact_fingerprint_covers_ngram_body_not_only_vocab() {
    let tokens = ["<pad>", "<bos>", "<unk>", "আমি", "আজ"];
    let bytes = build_fixture(
        &tokens,
        &[(3, 20, 20), (4, 10, 10)],
        &[Row {
            context: vec![BOS_ID],
            candidates: vec![(4, 7, 7)],
        }],
    );
    let mut changed = bytes.clone();
    let candidates = candidates_section_offset(&changed);
    changed[candidates + 4] ^= 1;

    let original = AutosuggestLm::from_bytes(bytes).unwrap();
    let changed = AutosuggestLm::from_bytes(changed).unwrap();

    assert_eq!(original.vocab_fingerprint(), changed.vocab_fingerprint());
    assert_ne!(
        original.artifact_fingerprint(),
        changed.artifact_fingerprint()
    );
}

#[test]
fn zero_header_fingerprint_uses_computed_vocab_fingerprint() {
    let tokens = ["<pad>", "<bos>", "<unk>", "আমি"];
    let bytes = build_fixture(&tokens, &[(3, 10, 10)], &[]);
    assert_eq!(u32::from_le_bytes(bytes[48..52].try_into().unwrap()), 0);

    let lm = AutosuggestLm::from_bytes(bytes).unwrap();

    assert_ne!(lm.vocab_fingerprint(), 0);
}

#[test]
fn nonzero_header_fingerprint_must_match_computed_vocab_fingerprint() {
    let tokens = ["<pad>", "<bos>", "<unk>", "আমি"];
    let mut bytes = build_fixture(&tokens, &[(3, 10, 10)], &[]);
    let wrong = 0x1234_5678_u32;
    bytes[48..52].copy_from_slice(&wrong.to_le_bytes());

    let error = AutosuggestLm::from_bytes(bytes).unwrap_err();

    assert!(matches!(
        error,
        AutosuggestArtifactError::ModelFingerprintMismatch {
            expected: 0x1234_5678,
            actual
        } if actual != 0x1234_5678
    ));
}

#[test]
fn trigram_candidates_backoff_without_duplicates() {
    let lm = fixture();
    let result = lm
        .suggest_for_text("আমি আজ", AutosuggestOptions { max_candidates: 4 })
        .unwrap();
    let rows = result
        .candidates
        .iter()
        .map(|candidate| (candidate.text, candidate.source))
        .collect::<Vec<_>>();
    assert_eq!(
        rows,
        vec![
            ("যাব", AutosuggestSource::Trigram),
            ("সকালে", AutosuggestSource::Trigram),
            ("খাব", AutosuggestSource::Unigram)
        ]
    );
    assert_eq!(result.matched_context_token_count, 2);
}

#[test]
fn sentence_start_context_uses_bos_bigram_without_reporting_matched_word() {
    let lm = sentence_start_fixture();

    let result = lm
        .suggest_for_context(
            AutosuggestContext::new(),
            AutosuggestOptions { max_candidates: 2 },
        )
        .unwrap();

    assert_eq!(result.context_token_count, 0);
    assert_eq!(result.matched_context_token_count, 0);
    assert_eq!(
        result
            .candidates
            .iter()
            .map(|candidate| (candidate.text, candidate.source))
            .collect::<Vec<_>>(),
        vec![
            ("শুরু", AutosuggestSource::Bigram),
            ("সাধারণ", AutosuggestSource::Unigram)
        ]
    );
}

#[test]
fn unknown_in_sentence_context_does_not_use_bos_bigram() {
    let lm = sentence_start_fixture();
    let mut context = AutosuggestContext::new();
    context.push_unknown();

    let result = lm
        .suggest_for_context(context, AutosuggestOptions { max_candidates: 2 })
        .unwrap();

    assert_eq!(result.context_token_count, 1);
    assert_eq!(result.matched_context_token_count, 0);
    assert_eq!(
        result
            .candidates
            .iter()
            .map(|candidate| (candidate.text, candidate.source))
            .collect::<Vec<_>>(),
        vec![
            ("সাধারণ", AutosuggestSource::Unigram),
            ("অন্য", AutosuggestSource::Unigram)
        ]
    );
}

#[test]
fn sentence_boundary_restores_bos_bigram_context() {
    let lm = sentence_start_fixture();

    let result = lm
        .suggest_for_text("সাধারণ।", AutosuggestOptions { max_candidates: 2 })
        .unwrap();

    assert_eq!(result.context_token_count, 1);
    assert_eq!(result.matched_context_token_count, 0);
    assert_eq!(
        result
            .candidates
            .iter()
            .map(|candidate| candidate.text)
            .collect::<Vec<_>>(),
        vec!["শুরু", "সাধারণ"]
    );
}

#[test]
fn candidate_id_api_matches_text_api_and_materializes_lazily() {
    let lm = fixture();
    let mut context = AutosuggestContext::new();
    lm.push_context_token(&mut context, "আমি").unwrap();
    lm.push_context_token(&mut context, "আজ").unwrap();
    let mut ids = Vec::with_capacity(4);

    let metadata = lm
        .suggest_ids_for_context_into(
            context,
            AutosuggestOptions { max_candidates: 4 },
            &mut ids,
        )
        .unwrap();
    let text = lm
        .suggest_for_context(context, AutosuggestOptions { max_candidates: 4 })
        .unwrap();

    assert_eq!(metadata.context_token_count, text.context_token_count);
    assert_eq!(
        metadata.matched_context_token_count,
        text.matched_context_token_count
    );
    assert_eq!(
        ids.iter()
            .map(|candidate| (
                candidate.token_id,
                candidate.source,
                candidate.count,
                candidate.score
            ))
            .collect::<Vec<_>>(),
        text.candidates
            .iter()
            .map(|candidate| (
                candidate.token_id,
                candidate.source,
                candidate.count,
                candidate.score
            ))
            .collect::<Vec<_>>()
    );
    assert_eq!(
        ids.into_iter()
            .map(|candidate| lm.materialize_candidate(candidate).unwrap().text)
            .collect::<Vec<_>>(),
        vec!["যাব", "সকালে", "খাব"]
    );
}

#[test]
fn rerank_input_left_pads_wider_context_without_changing_ngram_suffix() {
    let lm = fixture();
    let mut context = AutosuggestContext::new();
    lm.push_context_token(&mut context, "সকালে").unwrap();
    lm.push_context_token(&mut context, "স্কুলে").unwrap();
    lm.push_context_token(&mut context, "খাব").unwrap();
    lm.push_context_token(&mut context, "আমি").unwrap();
    lm.push_context_token(&mut context, "আজ").unwrap();
    let mut scorer_context_ids = [99; 6];
    let mut candidates = Vec::with_capacity(8);

    let metadata = lm
        .rerank_input_for_context_into(
            context,
            AutosuggestOptions { max_candidates: 4 },
            &mut scorer_context_ids,
            &mut candidates,
        )
        .unwrap();

    assert_eq!(
        scorer_context_ids,
        [
            PAD_ID,
            lm.token_id("সকালে").unwrap().unwrap(),
            lm.token_id("স্কুলে").unwrap().unwrap(),
            lm.token_id("খাব").unwrap().unwrap(),
            lm.token_id("আমি").unwrap().unwrap(),
            lm.token_id("আজ").unwrap().unwrap(),
        ]
    );
    assert_eq!(metadata.context_token_count, 5);
    assert_eq!(metadata.matched_context_token_count, V1_CONTEXT_TOKENS);
    assert_eq!(metadata.scorer_context_token_count, 5);
    assert_eq!(metadata.candidate_count, candidates.len());
    assert_eq!(
        candidates
            .iter()
            .map(|candidate| lm.materialize_candidate(*candidate).unwrap().text)
            .collect::<Vec<_>>(),
        vec!["যাব", "সকালে", "খাব"]
    );
}

fn ids_for_ami_aj(lm: &AutosuggestLm) -> Vec<AutosuggestCandidateId> {
    let mut candidates = Vec::new();
    let mut context = AutosuggestContext::new();
    lm.push_context_token(&mut context, "আমি").unwrap();
    lm.push_context_token(&mut context, "আজ").unwrap();
    lm.suggest_ids_for_context_into(
        context,
        AutosuggestOptions { max_candidates: 4 },
        &mut candidates,
    )
    .unwrap();
    candidates
}

#[test]
fn scorer_candidate_ids_are_ordered_and_padded_for_fixed_model_input() {
    let lm = fixture();
    let candidates = ids_for_ami_aj(&lm);
    let mut scorer_candidate_ids = [99; 5];

    let copied = scorer_candidate_ids_for_candidates_into(&candidates, &mut scorer_candidate_ids);

    assert_eq!(copied, 3);
    assert_eq!(scorer_candidate_ids, [7, 5, 8, PAD_ID, PAD_ID]);
}

#[test]
fn scorer_candidate_i32s_are_ordered_and_padded_for_coreml_input() {
    let lm = fixture();
    let candidates = ids_for_ami_aj(&lm);
    let mut scorer_candidate_ids = [99; 5];

    let copied =
        scorer_candidate_i32s_for_candidates_into(&candidates, &mut scorer_candidate_ids).unwrap();

    assert_eq!(copied, 3);
    assert_eq!(
        scorer_candidate_ids,
        [7, 5, 8, AUTOSUGGEST_PAD_I32, AUTOSUGGEST_PAD_I32]
    );
}

#[test]
fn scorer_candidate_ids_truncate_to_caller_buffer() {
    let candidates = [
        AutosuggestCandidateId {
            token_id: 10,
            source: AutosuggestSource::Fourgram,
            count: 1,
            score: 1,
        },
        AutosuggestCandidateId {
            token_id: 20,
            source: AutosuggestSource::Trigram,
            count: 1,
            score: 1,
        },
        AutosuggestCandidateId {
            token_id: 30,
            source: AutosuggestSource::Bigram,
            count: 1,
            score: 1,
        },
    ];
    let mut scorer_candidate_ids = [99; 2];

    let copied = scorer_candidate_ids_for_candidates_into(&candidates, &mut scorer_candidate_ids);

    assert_eq!(copied, 2);
    assert_eq!(scorer_candidate_ids, [10, 20]);
}

#[test]
fn scorer_candidate_i32s_reject_unrepresentable_token_ids() {
    let candidates = [AutosuggestCandidateId {
        token_id: i32::MAX as u32 + 1,
        source: AutosuggestSource::Unigram,
        count: 1,
        score: 1,
    }];
    let mut scorer_candidate_ids = [99; 1];

    let error = scorer_candidate_i32s_for_candidates_into(&candidates, &mut scorer_candidate_ids)
        .unwrap_err();

    assert_eq!(
        error,
        AutosuggestArtifactError::InvalidTokenId(i32::MAX as u32 + 1)
    );
}

#[test]
fn scorer_context_uses_bos_only_at_true_sentence_start() {
    let lm = sentence_start_fixture();
    let mut start_context = [99; 4];
    let mut start_candidates = Vec::new();

    let start_metadata = lm
        .rerank_input_for_context_into(
            AutosuggestContext::new(),
            AutosuggestOptions { max_candidates: 2 },
            &mut start_context,
            &mut start_candidates,
        )
        .unwrap();

    assert_eq!(start_context, [PAD_ID, PAD_ID, PAD_ID, BOS_ID]);
    assert_eq!(start_metadata.context_token_count, 0);
    assert_eq!(start_metadata.matched_context_token_count, 0);
    assert_eq!(start_metadata.scorer_context_token_count, 1);
    assert_eq!(
        start_candidates
            .iter()
            .map(|candidate| lm.materialize_candidate(*candidate).unwrap().text)
            .collect::<Vec<_>>(),
        vec!["শুরু", "সাধারণ"]
    );

    let mut unknown = AutosuggestContext::new();
    unknown.push_unknown();
    let mut unknown_context = [99; 4];
    let mut unknown_candidates = Vec::new();
    let unknown_metadata = lm
        .rerank_input_for_context_into(
            unknown,
            AutosuggestOptions { max_candidates: 2 },
            &mut unknown_context,
            &mut unknown_candidates,
        )
        .unwrap();

    assert_eq!(unknown_context, [PAD_ID; 4]);
    assert_eq!(unknown_metadata.context_token_count, 1);
    assert_eq!(unknown_metadata.matched_context_token_count, 0);
    assert_eq!(unknown_metadata.scorer_context_token_count, 0);
    assert_eq!(
        unknown_candidates
            .iter()
            .map(|candidate| lm.materialize_candidate(*candidate).unwrap().text)
            .collect::<Vec<_>>(),
        vec!["সাধারণ", "অন্য"]
    );
}

#[test]
fn context_priors_annotate_bounded_candidate_texts() {
    let lm = fixture();
    let mut context = AutosuggestContext::new();
    lm.push_context_token(&mut context, "আমি").unwrap();
    lm.push_context_token(&mut context, "আজ").unwrap();
    let candidate_texts = ["খাব", "যাব", "নেই"];
    let mut prior_scratch = Vec::new();
    let mut priors = Vec::new();

    let metadata = lm
        .context_priors_for_candidate_texts_into(
            context,
            &candidate_texts,
            AutosuggestContextPriorOptions {
                max_prior_candidates: 3,
            },
            &mut prior_scratch,
            &mut priors,
        )
        .unwrap();

    assert_eq!(metadata.context_token_count, 2);
    assert_eq!(metadata.matched_context_token_count, 2);
    assert_eq!(metadata.prior_candidate_count, 3);
    assert_eq!(metadata.matched_candidate_count, 2);
    assert_eq!(
        priors
            .iter()
            .map(|prior| (
                prior.candidate_index,
                prior.token_id,
                prior.prior_rank,
                prior.source
            ))
            .collect::<Vec<_>>(),
        vec![
            (
                0,
                lm.token_id("খাব").unwrap().unwrap(),
                3,
                AutosuggestSource::Unigram
            ),
            (
                1,
                lm.token_id("যাব").unwrap().unwrap(),
                1,
                AutosuggestSource::Trigram
            ),
        ]
    );
}

#[test]
fn scorer_context_i32s_match_u32_context_for_coreml_input() {
    let lm = fixture();
    let mut context = AutosuggestContext::new();
    lm.push_context_token(&mut context, "আমি").unwrap();
    lm.push_context_token(&mut context, "আজ").unwrap();
    let mut scorer_context_u32 = [99; 5];
    let mut scorer_context_i32 = [99; 5];

    let u32_len = lm
        .scorer_context_ids_for_context_into(context, &mut scorer_context_u32)
        .unwrap();
    let i32_len = lm
        .scorer_context_i32s_for_context_into(context, &mut scorer_context_i32)
        .unwrap();

    assert_eq!(u32_len, i32_len);
    assert_eq!(scorer_context_u32, [0, 0, 0, 3, 4]);
    assert_eq!(scorer_context_i32, [0, 0, 0, 3, 4]);
}

#[test]
fn scorer_context_rejects_invalid_ids_before_model_handoff() {
    let lm = fixture();
    let mut context = AutosuggestContext::new();
    context.push_token_id(Some(99));
    lm.push_context_token(&mut context, "খাব").unwrap();
    lm.push_context_token(&mut context, "আমি").unwrap();
    lm.push_context_token(&mut context, "আজ").unwrap();
    let mut scorer_context_ids = [42; 4];
    let mut candidates = Vec::new();

    let error = lm
        .rerank_input_for_context_into(
            context,
            AutosuggestOptions { max_candidates: 4 },
            &mut scorer_context_ids,
            &mut candidates,
        )
        .unwrap_err();

    assert_eq!(error, AutosuggestArtifactError::InvalidTokenId(99));
    assert_eq!(scorer_context_ids, [PAD_ID; 4]);
    assert!(candidates.is_empty());
}

#[test]
fn v1_artifact_uses_latest_two_token_suffix_from_wider_context_ring() {
    let lm = fixture();
    let mut context = AutosuggestContext::new();
    lm.push_context_token(&mut context, "খাব").unwrap();
    lm.push_context_token(&mut context, "আমি").unwrap();
    lm.push_context_token(&mut context, "আজ").unwrap();

    assert_eq!(
        context.recent_token_ids(),
        &[
            lm.token_id("খাব").unwrap().unwrap(),
            lm.token_id("আমি").unwrap().unwrap(),
            lm.token_id("আজ").unwrap().unwrap(),
        ]
    );

    let result = lm
        .suggest_for_context(context, AutosuggestOptions { max_candidates: 3 })
        .unwrap();

    assert_eq!(result.context_token_count, 3);
    assert_eq!(result.matched_context_token_count, V1_CONTEXT_TOKENS);
    assert_eq!(
        result
            .candidates
            .iter()
            .map(|candidate| (candidate.text, candidate.source))
            .collect::<Vec<_>>(),
        vec![
            ("যাব", AutosuggestSource::Trigram),
            ("সকালে", AutosuggestSource::Trigram),
            ("খাব", AutosuggestSource::Unigram),
        ]
    );
}

#[test]
fn v2_artifact_uses_three_token_context_when_available() {
    let tokens = [
        "<pad>", "<bos>", "<unk>", "আমি", "আজ", "এখানে", "যাব", "থাকব", "খাব",
    ];
    let lm = AutosuggestLm::from_bytes(build_fixture(
        &tokens,
        &[(6, 1000, -700), (7, 900, -800), (8, 800, -900)],
        &[
            Row {
                context: vec![5],
                candidates: vec![(8, 10, -300)],
            },
            Row {
                context: vec![4, 5],
                candidates: vec![(7, 20, -200)],
            },
            Row {
                context: vec![3, 4, 5],
                candidates: vec![(6, 30, -100)],
            },
        ],
    ))
    .unwrap();

    let result = lm
        .suggest_for_text("আমি আজ এখানে", AutosuggestOptions { max_candidates: 4 })
        .unwrap();

    assert_eq!(lm.model_info().version, VERSION_V2);
    assert_eq!(lm.model_info().fourgram_rows, 1);
    assert_eq!(result.context_token_count, 3);
    assert_eq!(result.matched_context_token_count, 3);
    assert_eq!(
        result
            .candidates
            .iter()
            .map(|candidate| (candidate.text, candidate.source))
            .collect::<Vec<_>>(),
        vec![
            ("যাব", AutosuggestSource::Fourgram),
            ("থাকব", AutosuggestSource::Trigram),
            ("খাব", AutosuggestSource::Bigram),
        ]
    );
}

#[test]
fn lower_order_candidates_can_outrank_weak_specific_context_by_score() {
    let tokens = ["<pad>", "<bos>", "<unk>", "আমি", "আজ", "সকালে", "যাব", "না"];
    let lm = AutosuggestLm::from_bytes(build_fixture(
        &tokens,
        &[(5, 1000, -400), (6, 900, -450), (7, 800, -500)],
        &[
            Row {
                context: vec![4],
                candidates: vec![(6, 20, -300), (7, 10, -700)],
            },
            Row {
                context: vec![3, 4],
                candidates: vec![(7, 3, -900)],
            },
        ],
    ))
    .unwrap();

    assert_eq!(
        texts_and_sources(&lm, "আমি আজ", 3),
        vec![
            ("যাব".to_string(), AutosuggestSource::Bigram),
            ("সকালে".to_string(), AutosuggestSource::Unigram),
            ("না".to_string(), AutosuggestSource::Unigram)
        ]
    );
}

#[test]
fn legacy_count_scored_artifacts_keep_backoff_order() {
    let tokens = ["<pad>", "<bos>", "<unk>", "আমি", "আজ", "সকালে", "যাব", "খাব"];
    let lm = AutosuggestLm::from_bytes(build_fixture(
        &tokens,
        &[(5, 100, 100), (6, 90, 90), (7, 80, 80)],
        &[Row {
            context: vec![3, 4],
            candidates: vec![(6, 9, 9), (5, 7, 7)],
        }],
    ))
    .unwrap();

    assert_eq!(
        texts_and_sources(&lm, "আমি আজ", 3),
        vec![
            ("যাব".to_string(), AutosuggestSource::Trigram),
            ("সকালে".to_string(), AutosuggestSource::Trigram),
            ("খাব".to_string(), AutosuggestSource::Unigram)
        ]
    );
}

fn texts(lm: &AutosuggestLm, text: &str, max: usize) -> Vec<String> {
    texts_and_sources(lm, text, max)
        .into_iter()
        .map(|(t, _)| t)
        .collect()
}

#[test]
fn unknown_context_falls_back_to_unigram() {
    let lm = fixture();
    let result = lm
        .suggest_for_text("আমি অচেনা", AutosuggestOptions { max_candidates: 2 })
        .unwrap();
    assert_eq!(
        result
            .candidates
            .iter()
            .map(|candidate| candidate.text)
            .collect::<Vec<_>>(),
        vec!["সকালে", "যাব"]
    );
    assert_eq!(result.matched_context_token_count, 0);
}

#[test]
fn incremental_context_api_matches_text_api() {
    let lm = fixture();
    let mut context = AutosuggestContext::new();
    lm.push_context_token(&mut context, "আমি").unwrap();
    lm.push_context_token(&mut context, "“আজ,”").unwrap();

    assert_eq!(context.token_count(), 2);
    assert_eq!(context.matched_token_count(), 2);
    assert_eq!(context.recent_token_ids(), &[3, 4]);

    let from_context = lm
        .suggest_for_context(context, AutosuggestOptions { max_candidates: 4 })
        .unwrap();
    assert_eq!(
        from_context
            .candidates
            .iter()
            .map(|candidate| candidate.text.to_string())
            .collect::<Vec<_>>(),
        texts(&lm, "আমি আজ", 4)
    );
}

#[test]
fn sentence_boundary_resets_recent_context_after_committed_word() {
    let lm = fixture();
    let mut context = AutosuggestContext::new();
    lm.push_context_token(&mut context, "আমি").unwrap();
    lm.push_context_token(&mut context, "আজ।").unwrap();

    assert_eq!(context.token_count(), 2);
    assert_eq!(context.matched_token_count(), 0);
    assert!(context.recent_token_ids().is_empty());

    let result = lm
        .suggest_for_context(context, AutosuggestOptions { max_candidates: 2 })
        .unwrap();
    assert_eq!(
        result
            .candidates
            .iter()
            .map(|candidate| candidate.text)
            .collect::<Vec<_>>(),
        vec!["সকালে", "যাব"]
    );
}

#[test]
fn punctuation_only_sentence_boundary_resets_recent_context_without_counting_word() {
    let lm = fixture();
    let mut context = AutosuggestContext::new();
    lm.push_context_token(&mut context, "আমি").unwrap();
    lm.push_context_token(&mut context, "আজ").unwrap();
    lm.push_context_token(&mut context, "।").unwrap();

    assert_eq!(context.token_count(), 2);
    assert_eq!(context.matched_token_count(), 0);
    assert!(context.recent_token_ids().is_empty());
}

#[test]
fn text_api_resets_context_after_sentence_boundary() {
    let lm = fixture();
    let result = lm
        .suggest_for_text("আমি আজ।", AutosuggestOptions { max_candidates: 2 })
        .unwrap();
    assert_eq!(result.context_token_count, 2);
    assert_eq!(result.matched_context_token_count, 0);
    assert_eq!(
        result
            .candidates
            .iter()
            .map(|candidate| candidate.text)
            .collect::<Vec<_>>(),
        vec!["সকালে", "যাব"]
    );
}

#[test]
fn text_api_keeps_context_across_regular_spaces() {
    let lm = fixture();
    let result = lm
        .suggest_for_text("আমি   আজ", AutosuggestOptions { max_candidates: 4 })
        .unwrap();
    assert_eq!(result.context_token_count, 2);
    assert_eq!(result.matched_context_token_count, 2);
    assert_eq!(
        result
            .candidates
            .iter()
            .map(|candidate| candidate.text)
            .collect::<Vec<_>>(),
        vec!["যাব", "সকালে", "খাব"]
    );
}

#[test]
fn text_api_resets_context_after_editor_boundary() {
    let lm = fixture();
    let result = lm
        .suggest_for_text("আমি আজ\n", AutosuggestOptions { max_candidates: 2 })
        .unwrap();
    assert_eq!(result.context_token_count, 2);
    assert_eq!(result.matched_context_token_count, 0);
    assert_eq!(
        result
            .candidates
            .iter()
            .map(|candidate| candidate.text)
            .collect::<Vec<_>>(),
        vec!["সকালে", "যাব"]
    );
}

#[test]
fn explicit_context_boundary_resets_recent_ids_without_counting_word() {
    let lm = fixture();
    let mut context = AutosuggestContext::new();
    lm.push_context_token(&mut context, "আমি").unwrap();
    lm.push_context_token(&mut context, "আজ").unwrap();
    context.push_boundary();

    assert_eq!(context.token_count(), 2);
    assert_eq!(context.matched_token_count(), 0);
    assert!(context.recent_token_ids().is_empty());
}

#[test]
fn incremental_context_resets_on_unknown_token_ids() {
    let lm = fixture();
    let mut context = AutosuggestContext::new();
    context.push_token_id(lm.token_id("আমি").unwrap());
    context.push_token_id(lm.token_id("অচেনা").unwrap());

    assert_eq!(context.token_count(), 2);
    assert_eq!(context.matched_token_count(), 0);

    let result = lm
        .suggest_for_context(context, AutosuggestOptions { max_candidates: 2 })
        .unwrap();
    assert_eq!(
        result
            .candidates
            .iter()
            .map(|candidate| candidate.text)
            .collect::<Vec<_>>(),
        vec!["সকালে", "যাব"]
    );
}

#[test]
fn incremental_context_rejects_invalid_token_ids() {
    let lm = fixture();
    let mut context = AutosuggestContext::new();
    context.push_token_id(Some(99));
    let mut candidates = Vec::with_capacity(4);

    let error = lm
        .suggest_for_context_into(
            context,
            AutosuggestOptions { max_candidates: 4 },
            &mut candidates,
        )
        .unwrap_err();
    assert_eq!(error, AutosuggestArtifactError::InvalidTokenId(99));
    assert!(candidates.is_empty());
}

#[test]
fn into_api_reuses_caller_candidate_buffer() {
    let lm = fixture();
    let mut candidates = Vec::with_capacity(4);
    let initial_capacity = candidates.capacity();

    let metadata = lm
        .suggest_for_text_into(
            "আমি আজ",
            AutosuggestOptions { max_candidates: 4 },
            &mut candidates,
        )
        .unwrap();
    assert_eq!(metadata.matched_context_token_count, 2);
    assert_eq!(candidates.len(), 3);
    assert_eq!(candidates.capacity(), initial_capacity);

    let metadata = lm
        .suggest_for_text_into(
            "আমি অচেনা",
            AutosuggestOptions { max_candidates: 2 },
            &mut candidates,
        )
        .unwrap();
    assert_eq!(metadata.matched_context_token_count, 0);
    assert_eq!(
        candidates
            .iter()
            .map(|candidate| candidate.text)
            .collect::<Vec<_>>(),
        vec!["সকালে", "যাব"]
    );
    assert_eq!(candidates.capacity(), initial_capacity);
}

#[test]
fn space_separated_text_builds_the_same_context_as_its_words() {
    let lm = fixture();
    let words = ["আমি", "“আজ,”", "নতুন", "সকালে"];
    let mut by_words = AutosuggestContext::new();
    for word in words {
        lm.push_context_token(&mut by_words, word).unwrap();
    }
    let mut by_text = AutosuggestContext::new();
    lm.push_context_text(&mut by_text, &words.join(" ")).unwrap();

    assert_eq!(by_text.token_count(), by_words.token_count());
    assert_eq!(by_text.matched_token_count(), by_words.matched_token_count());
    assert_eq!(by_text.recent_token_ids(), by_words.recent_token_ids());
    assert_eq!(by_text.token_count(), 4);
    assert_eq!(by_text.recent_token_ids(), &[5]);

    let from_words = lm
        .suggest_for_tokens(&words, AutosuggestOptions { max_candidates: 4 })
        .unwrap();
    let from_text = lm
        .suggest_for_text(&words.join(" "), AutosuggestOptions { max_candidates: 4 })
        .unwrap();
    assert_eq!(from_words.context_token_count, from_text.context_token_count);
    assert_eq!(
        from_words.candidates.iter().map(|c| c.token_id).collect::<Vec<_>>(),
        from_text.candidates.iter().map(|c| c.token_id).collect::<Vec<_>>()
    );
}

#[test]
fn text_api_reads_each_candidate_text_as_it_enters_the_list() {
    let tokens = ["<pad>", "<bos>", "<unk>", "আমি", "আজ"];
    let lm = AutosuggestLm::from_bytes(build_fixture(&tokens, &[(99, 10, -900), (4, 9, -100)], &[]))
        .expect("fixture with an out-of-vocabulary unigram record should parse");
    let options = AutosuggestOptions { max_candidates: 1 };
    let mut ids = Vec::new();
    lm.suggest_ids_for_context_into(AutosuggestContext::new(), options, &mut ids)
        .unwrap();
    assert_eq!(ids.iter().map(|c| c.token_id).collect::<Vec<_>>(), vec![4]);

    let mut candidates = Vec::new();
    let error = lm
        .suggest_for_context_into(AutosuggestContext::new(), options, &mut candidates)
        .unwrap_err();
    assert_eq!(error, AutosuggestArtifactError::InvalidTokenId(99));
    assert!(candidates.is_empty());
}

#[test]
fn session_refreshes_personal_pool_even_when_model_text_fails() {
    let tokens = ["<pad>", "<bos>", "<unk>", "আমি", "আজ"];
    let lm = AutosuggestLm::from_bytes(build_fixture(&tokens, &[(99, 10, -900), (4, 9, -100)], &[]))
        .expect("fixture with an out-of-vocabulary unigram record should parse");
    let mut personal = obadh_engine::PersonalAutosuggest::new(obadh_engine::PersonalAutosuggestConfig::default());
    personal.observe_context_ids_target(&[], 3);
    personal.observe_context_ids_target(&[], 3);
    let mut session = obadh_engine::AutosuggestSession::new(&lm, personal, AutosuggestOptions { max_candidates: 1 });
    let error = session.suggest().unwrap_err();
    assert_eq!(error, AutosuggestArtifactError::InvalidTokenId(99));
    assert_eq!(session.personal_scratch().iter().map(|s| s.token_id).collect::<Vec<_>>(), vec![3]);
    assert!(session.model_scratch().is_empty());
}
