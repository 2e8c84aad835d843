use obadh_engine::personal::{PERSONAL_INITIAL_ENTRY_CAPACITY};
use obadh_engine::personal_types::{
    PersonalContext, PersonalEntry, PersonalTextEntry, DEFAULT_PERSONAL_TEXT_AUTOSUGGEST_ENTRIES,
    MAX_PERSONAL_CONTEXT_TOKENS, PERSONAL_ENTRY_LEN, PERSONAL_HEADER_LEN,
    PERSONAL_TEXT_TOTAL_MAX_BYTES, PERSONAL_UNIGRAM_CACHE_LIMIT,
};
use obadh_engine::personal_snapshot::{
    PERSONAL_V1_ENTRY_LEN, PERSONAL_V1_V2_HEADER_LEN, PERSONAL_VERSION_V1,
};
use obadh_engine::{
    AutosuggestArtifactError, AutosuggestContext, AutosuggestLm, AutosuggestOptions,
    AutosuggestSession, AutosuggestSource, CommitStrength, PersonalAutosuggest,
    PersonalAutosuggestConfig, PersonalAutosuggestError, PersonalAutosuggestSnapshotError,
    AUTOSUGGEST_PAD_ID, AUTOSUGGEST_UNK_ID, DEFAULT_PERSONAL_AUTOSUGGEST_ENTRIES,
    DEFAULT_PERSONAL_AUTOSUGGEST_MIN_COUNT,
};

const VERSION: u32 = 1;
const VERSION_V2: u32 = 2;
const VERSION_V3: u32 = 3;
const PAD_ID: u32 = AUTOSUGGEST_PAD_ID;
const UNK_ID: u32 = AUTOSUGGEST_UNK_ID;
const PERSONAL_MAGIC: &[u8; 16] = b"OBPERSUGLM_V1\0\0\0";

fn write_snapshot_u32(bytes: &mut Vec<u8>, value: u32) {
    bytes.extend_from_slice(&value.to_le_bytes());
}

struct NgramRow {
    context: Vec<u32>,
    candidates: Vec<(u32, u32, i32)>,
}

fn put_u32(bytes: &mut Vec<u8>, value: u32) {
    bytes.extend_from_slice(&value.to_le_bytes());
}

fn build_artifact(tokens: &[&str], unigrams: &[(u32, u32, i32)], rows: &[NgramRow], count_only: bool) -> Vec<u8> {
    let mut token_bytes = Vec::new();
    let mut id_records = Vec::new();
    for token in tokens {
        let offset = token_bytes.len() as u32;
        token_bytes.extend_from_slice(token.as_bytes());
        id_records.push((offset, token.len() as u32));
    }
    let mut index: Vec<(Vec<u8>, u32, u32, u32)> = id_records
        .iter()
        .enumerate()
        .map(|(id, (o, l))| {
            (
                token_bytes[*o as usize..(*o + *l) as usize].to_vec(),
                *o,
                *l,
                id as u32,
            )
        })
        .collect();
    index.sort_by(|a, b| a.0.cmp(&b.0));

    let mut bigrams = Vec::new();
    let mut trigrams = Vec::new();
    let mut fourgrams = Vec::new();
    let mut candidates: Vec<(u32, u32, i32)> = Vec::new();
    for row in rows {
        let start = candidates.len() as u32;
        candidates.extend(row.candidates.iter().copied());
        let len = row.candidates.len() as u32;
        match row.context.as_slice() {
            [a] => bigrams.push((*a, start, len)),
            [a, b] => trigrams.push((*a, *b, start, len)),
            [a, b, c] => fourgrams.push((*a, *b, *c, start, len)),
            _ => panic!("rows must have one to three context ids"),
        }
    }
    bigrams.sort_by_key(|r| r.0);
    trigrams.sort_by_key(|r| (r.0, r.1));
    fourgrams.sort_by_key(|r| (r.0, r.1, r.2));
    let version = if count_only {
        VERSION_V3
    } else if fourgrams.is_empty() {
        VERSION
    } else {
        VERSION_V2
    };

    let mut bytes = Vec::new();
    bytes.extend_from_slice(b"OBAUTOSUGLM_V1\0\0");
    put_u32(&mut bytes, version);
    put_u32(&mut bytes, tokens.len() as u32);
    put_u32(&mut bytes, tokens.len() as u32);
    put_u32(&mut bytes, unigrams.len() as u32);
    put_u32(&mut bytes, bigrams.len() as u32);
    put_u32(&mut bytes, trigrams.len() as u32);
    put_u32(&mut bytes, candidates.len() as u32);
    put_u32(&mut bytes, token_bytes.len() as u32);
    put_u32(&mut bytes, 0);
    if version != VERSION {
        put_u32(&mut bytes, fourgrams.len() as u32);
    }
    for (o, l) in &id_records {
        put_u32(&mut bytes, *o);
        put_u32(&mut bytes, *l);
    }
    for (_, o, l, id) in &index {
        put_u32(&mut bytes, *o);
        put_u32(&mut bytes, *l);
        put_u32(&mut bytes, *id);
    }
    let write_candidate = |bytes: &mut Vec<u8>, c: &(u32, u32, i32)| {
        put_u32(bytes, c.0);
        put_u32(bytes, c.1);
        if !count_only {
            bytes.extend_from_slice(&c.2.to_le_bytes());
        }
    };
    for c in unigrams {
        write_candidate(&mut bytes, c);
    }
    for (a, s, l) in &bigrams {
        put_u32(&mut bytes, *a);
        put_u32(&mut bytes, *s);
        put_u32(&mut bytes, *l);
    }
    for (a, b, s, l) in &trigrams {
        put_u32(&mut bytes, *a);
        put_u32(&mut bytes, *b);
        put_u32(&mut bytes, *s);
        put_u32(&mut bytes, *l);
    }
    for (a, b, c, s, l) in &fourgrams {
        put_u32(&mut bytes, *a);
        put_u32(&mut bytes, *b);
        put_u32(&mut bytes, *c);
        put_u32(&mut bytes, *s);
        put_u32(&mut bytes, *l);
    }
    for c in &candidates {
        write_candidate(&mut bytes, c);
    }
    bytes.extend_from_slice(&token_bytes);
    bytes
}

fn artifact_bytes(tokens: &[&str], unigrams: &[(u32, u32, i32)], rows: &[NgramRow]) -> Vec<u8> {
    build_artifact(tokens, unigrams, rows, false)
}


fn base_fixture() -> AutosuggestLm {
    let tokens = ["<pad>", "<bos>", "<unk>", "আমি", "আজ", "ভাত", "খাই", "যাই"];
    AutosuggestLm::from_bytes(artifact_bytes(
        &tokens,
        &[(5, 100, 100), (6, 90, 90), (7, 80, 80)],
        &[
            NgramRow {
                context: vec![3],
                candidates: vec![(7, 20, 20), (5, 10, 10)],
            },
            NgramRow {
                context: vec![3, 4],
                candidates: vec![(7, 8, 8), (5, 6, 6)],
            },
        ],
    ))
    .expect("fixture should parse")
}

fn alternate_fixture() -> AutosuggestLm {
    let tokens = ["<pad>", "<bos>", "<unk>", "আমি", "আজ", "দই", "খাই", "যাই"];
    AutosuggestLm::from_bytes(artifact_bytes(
        &tokens,
        &[(5, 100, 100), (6, 90, 90), (7, 80, 80)],
        &[NgramRow {
            context: vec![3],
            candidates: vec![(7, 20, 20), (5, 10, 10)],
        }],
    ))
    .expect("alternate fixture should parse")
}

fn repetition_fixture() -> AutosuggestLm {
    let tokens = [
        "<pad>",
        "<bos>",
        "<unk>",
        "তিনি",
        "মারা",
        "যান",
        "এবং",
        "এটি",
        "অন্য",
        "একটি",
        "তারা",
    ];
    AutosuggestLm::from_bytes(artifact_bytes(
        &tokens,
        &[(6, 100, 100), (8, 60, 60), (9, 50, 50)],
        &[
            NgramRow {
                context: vec![3, 4, 5],
                candidates: vec![(6, 1000, 1000), (8, 500, 500)],
            },
            NgramRow {
                context: vec![6, 7],
                candidates: vec![(9, 1000, 1000), (8, 500, 500)],
            },
        ],
    ))
    .expect("repetition fixture should parse")
}

#[test]
fn personal_suggestion_can_lead_static_model_without_mutating_artifact() {
    let lm = base_fixture();
    let mut personal = PersonalAutosuggest::new(PersonalAutosuggestConfig {
        max_entries: 16,
        min_count: 2,
    });
    let mut context = AutosuggestContext::new();
    context.push_token_id(Some(3));

    personal.observe_context_target(context, 6);
    personal.observe_context_target(context, 6);

    let result = personal
        .suggest_with_lm(&lm, context, AutosuggestOptions { max_candidates: 4 })
        .unwrap();
    assert_eq!(
        result
            .candidates
            .iter()
            .map(|candidate| (candidate.text, candidate.source))
            .collect::<Vec<_>>(),
        vec![
            ("খাই", AutosuggestSource::Personal),
            ("যাই", AutosuggestSource::Bigram),
            ("ভাত", AutosuggestSource::Bigram)
        ]
    );
}

#[test]
fn session_commits_tokens_and_suggests_personal_candidates() {
    let lm = base_fixture();
    let mut session = AutosuggestSession::with_personal_config(
        &lm,
        PersonalAutosuggestConfig {
            max_entries: 32,
            min_count: 2,
        },
        AutosuggestOptions { max_candidates: 4 },
    );

    for _ in 0..2 {
        session.clear_context();
        assert!(session.commit_token("আমি").unwrap());
        assert!(session.commit_token("খাই").unwrap());
    }

    session.clear_context();
    assert!(session.commit_token("আমি").unwrap());
    let metadata = session.suggest().unwrap();

    assert_eq!(metadata.context_token_count, 1);
    assert_eq!(metadata.matched_context_token_count, 1);
    assert_eq!(
        session
            .candidates()
            .iter()
            .map(|candidate| (candidate.text, candidate.source))
            .collect::<Vec<_>>(),
        vec![
            ("খাই", AutosuggestSource::Personal),
            ("যাই", AutosuggestSource::Bigram),
            ("ভাত", AutosuggestSource::Bigram),
            ("আমি", AutosuggestSource::Personal)
        ]
    );
}

#[test]
fn session_candidate_id_api_matches_text_suggestions() {
    let lm = base_fixture();
    let mut session = AutosuggestSession::with_personal_config(
        &lm,
        PersonalAutosuggestConfig {
            max_entries: 32,
            min_count: 2,
        },
        AutosuggestOptions { max_candidates: 4 },
    );

    for _ in 0..2 {
        session.clear_context();
        assert!(session.commit_token("আমি").unwrap());
        assert!(session.commit_token("খাই").unwrap());
    }

    session.clear_context();
    assert!(session.commit_token("আমি").unwrap());
    let text_metadata = session.suggest().unwrap();
    let text_candidates = session
        .candidates()
        .iter()
        .map(|candidate| {
            (
                candidate.token_id,
                candidate.source,
                candidate.count,
                candidate.score,
            )
        })
        .collect::<Vec<_>>();

    let id_metadata = session.suggest_ids().unwrap();

    assert_eq!(id_metadata, text_metadata);
    assert_eq!(
        session
            .candidate_ids()
            .iter()
            .map(|candidate| (
                candidate.token_id,
                candidate.source,
                candidate.count,
                candidate.score
            ))
            .collect::<Vec<_>>(),
        text_candidates
    );
    assert_eq!(
        session
            .candidate_ids()
            .iter()
            .map(|candidate| lm.materialize_candidate(*candidate).unwrap().text)
            .collect::<Vec<_>>(),
        vec!["খাই", "যাই", "ভাত", "আমি"]
    );
}

#[test]
fn session_demotes_candidate_that_repeats_recent_phrase() {
    let lm = repetition_fixture();
    let mut session = AutosuggestSession::with_personal_config(
        &lm,
        PersonalAutosuggestConfig {
            max_entries: 0,
            min_count: 2,
        },
        AutosuggestOptions { max_candidates: 1 },
    );

    for token in ["তিনি", "মারা", "যান", "এবং", "এটি", "তিনি", "মারা", "যান"]
    {
        assert!(session.commit_token(token).unwrap() || session.personal().is_empty());
    }
    session.suggest().unwrap();

    assert_eq!(
        session
            .candidates()
            .iter()
            .map(|candidate| candidate.text)
            .collect::<Vec<_>>(),
        vec!["অন্য"]
    );
}

#[test]
fn session_demotes_phrase_repeated_outside_model_context_window() {
    let lm = repetition_fixture();
    let mut session = AutosuggestSession::with_personal_config(
        &lm,
        PersonalAutosuggestConfig {
            max_entries: 0,
            min_count: 2,
        },
        AutosuggestOptions { max_candidates: 1 },
    );

    for token in ["এবং", "এটি", "একটি", "তারা", "এবং", "এটি"]
    {
        session.commit_token(token).unwrap();
    }
    session.suggest().unwrap();

    assert_eq!(
        session
            .candidates()
            .iter()
            .map(|candidate| candidate.text)
            .collect::<Vec<_>>(),
        vec!["অন্য"]
    );
}

#[test]
fn session_repetition_history_survives_oov_text_boundaries() {
    let lm = repetition_fixture();
    let mut session = AutosuggestSession::with_personal_config(
        &lm,
        PersonalAutosuggestConfig {
            max_entries: 0,
            min_count: 2,
        },
        AutosuggestOptions { max_candidates: 1 },
    );

    for token in ["এবং", "এটি", "একটি", "অচেনা", "তারা", "এবং", "এটি"]
    {
        session.commit_token(token).unwrap();
    }
    session.suggest().unwrap();

    assert_eq!(
        session
            .candidates()
            .iter()
            .map(|candidate| candidate.text)
            .collect::<Vec<_>>(),
        vec!["অন্য"]
    );
}

#[test]
fn session_keeps_top_candidate_when_it_does_not_repeat_recent_phrase() {
    let lm = repetition_fixture();
    let mut session = AutosuggestSession::with_personal_config(
        &lm,
        PersonalAutosuggestConfig {
            max_entries: 0,
            min_count: 2,
        },
        AutosuggestOptions { max_candidates: 1 },
    );

    for token in ["তিনি", "মারা", "যান"] {
        assert!(session.commit_token(token).unwrap() || session.personal().is_empty());
    }
    session.suggest().unwrap();

    assert_eq!(
        session
            .candidates()
            .iter()
            .map(|candidate| candidate.text)
            .collect::<Vec<_>>(),
        vec!["এবং"]
    );
}

#[test]
fn session_rerank_input_uses_merged_candidate_ids_without_text_materialization() {
    let lm = base_fixture();
    let mut session = AutosuggestSession::with_personal_config(
        &lm,
        PersonalAutosuggestConfig {
            max_entries: 32,
            min_count: 2,
        },
        AutosuggestOptions { max_candidates: 4 },
    );

    for _ in 0..2 {
        session.clear_context();
        assert!(session.commit_token("আমি").unwrap());
        assert!(session.commit_token("খাই").unwrap());
    }

    session.clear_context();
    assert!(session.commit_token("আমি").unwrap());
    let mut scorer_context_ids = [99; 4];
    let metadata = session.rerank_input_into(&mut scorer_context_ids).unwrap();

    assert_eq!(scorer_context_ids, [PAD_ID, PAD_ID, PAD_ID, 3]);
    assert_eq!(metadata.context_token_count, 1);
    assert_eq!(metadata.matched_context_token_count, 1);
    assert_eq!(metadata.scorer_context_token_count, 1);
    assert_eq!(metadata.candidate_count, session.candidate_ids().len());
    assert_eq!(
        session
            .candidate_ids()
            .iter()
            .map(|candidate| (
                lm.materialize_candidate(*candidate).unwrap().text,
                candidate.source
            ))
            .collect::<Vec<_>>(),
        vec![
            ("খাই", AutosuggestSource::Personal),
            ("যাই", AutosuggestSource::Bigram),
            ("ভাত", AutosuggestSource::Bigram),
            ("আমি", AutosuggestSource::Personal),
        ]
    );
}

#[test]
fn session_commits_resolved_token_ids_on_hot_path() {
    let lm = base_fixture();
    let ami = lm.token_id("আমি").unwrap();
    let khai = lm.token_id("খাই").unwrap();
    let mut session = AutosuggestSession::with_personal_config(
        &lm,
        PersonalAutosuggestConfig {
            max_entries: 32,
            min_count: 2,
        },
        AutosuggestOptions { max_candidates: 4 },
    );

    for _ in 0..2 {
        session.clear_context();
        assert!(session.commit_token_id(ami, false).unwrap());
        assert!(session.commit_token_id(khai, false).unwrap());
    }

    session.clear_context();
    assert!(session.commit_token_id(ami, false).unwrap());
    session.suggest().unwrap();

    assert_eq!(
        session.candidates().first().map(|candidate| candidate.text),
        Some("খাই")
    );
    assert_eq!(session.context().matched_token_count(), 1);
}

#[test]
fn session_rejects_invalid_resolved_token_ids_without_mutating_state() {
    let lm = base_fixture();
    let invalid = lm.vocab_size() as u32;
    let mut session = AutosuggestSession::with_personal_config(
        &lm,
        PersonalAutosuggestConfig {
            max_entries: 32,
            min_count: 1,
        },
        AutosuggestOptions { max_candidates: 4 },
    );

    assert_eq!(
        session.commit_token_id(Some(invalid), false).unwrap_err(),
        AutosuggestArtifactError::InvalidTokenId(invalid)
    );
    assert_eq!(session.context().token_count(), 0);
    assert!(session.personal().is_empty());
}

#[test]
fn session_rejects_reserved_token_ids_without_mutating_state() {
    let lm = base_fixture();
    let mut session = AutosuggestSession::with_personal_config(
        &lm,
        PersonalAutosuggestConfig {
            max_entries: 32,
            min_count: 1,
        },
        AutosuggestOptions { max_candidates: 4 },
    );

    for token_id in 0..=UNK_ID {
        assert_eq!(
            session.commit_token_id(Some(token_id), false).unwrap_err(),
            AutosuggestArtifactError::InvalidTokenId(token_id)
        );
        assert_eq!(session.context().token_count(), 0);
        assert!(session.personal().is_empty());
    }

    session.commit_unknown(false);
    assert_eq!(session.context().token_count(), 1);
    assert!(session.personal().is_empty());
}

#[test]
fn session_unknown_commit_clears_recent_context_without_learning() {
    let lm = base_fixture();
    let mut session = AutosuggestSession::with_personal_config(
        &lm,
        PersonalAutosuggestConfig {
            max_entries: 32,
            min_count: 1,
        },
        AutosuggestOptions { max_candidates: 4 },
    );

    assert!(session
        .commit_token_id(lm.token_id("আমি").unwrap(), false)
        .unwrap());
    session.commit_unknown(false);

    assert_eq!(session.context().token_count(), 2);
    assert_eq!(session.context().matched_token_count(), 0);
    assert_eq!(session.personal().len(), 2);
}

#[test]
fn resolved_token_id_commit_learns_then_honors_sentence_boundary() {
    let lm = base_fixture();
    let mut personal = PersonalAutosuggest::new(PersonalAutosuggestConfig {
        max_entries: 32,
        min_count: 1,
    });
    let mut context = AutosuggestContext::new();
    context.push_token_id(lm.token_id("আমি").unwrap());

    assert!(personal.observe_resolved_token_id(&mut context, lm.token_id("আজ").unwrap(), true));

    assert_eq!(context.token_count(), 2);
    assert_eq!(context.matched_token_count(), 0);

    let mut query = AutosuggestContext::new();
    query.push_token_id(lm.token_id("আমি").unwrap());
    let mut suggestions = Vec::new();
    personal.suggest_token_ids_into(query, 3, &mut suggestions);
    assert_eq!(
        suggestions.first().map(|suggestion| suggestion.token_id),
        lm.token_id("আজ").unwrap()
    );
}

#[test]
fn session_reuses_candidate_buffers_across_suggest_calls() {
    let lm = base_fixture();
    let mut session = AutosuggestSession::with_personal_config(
        &lm,
        PersonalAutosuggestConfig {
            max_entries: 32,
            min_count: 1,
        },
        AutosuggestOptions { max_candidates: 4 },
    );
    session.commit_token("আমি").unwrap();
    session.commit_token("খাই").unwrap();
    session.clear_context();
    session.commit_token("আমি").unwrap();

    session.suggest().unwrap();
    let personal_ptr = session.personal_scratch().as_ptr();
    let model_ptr = session.model_scratch().as_ptr();
    let candidates_ptr = session.candidates().as_ptr();
    session.suggest().unwrap();

    assert_eq!(session.personal_scratch().as_ptr(), personal_ptr);
    assert_eq!(session.model_scratch().as_ptr(), model_ptr);
    assert_eq!(session.candidates().as_ptr(), candidates_ptr);
}

#[test]
fn session_heap_limit_is_conservative_after_candidate_buffers_grow() {
    let lm = base_fixture();
    let mut session = AutosuggestSession::with_personal_config(
        &lm,
        PersonalAutosuggestConfig {
            max_entries: 32,
            min_count: 1,
        },
        AutosuggestOptions { max_candidates: 8 },
    );
    let grown_limit = session.heap_limit_bytes();
    session.set_options(AutosuggestOptions { max_candidates: 2 });

    assert!(session.heap_limit_bytes() >= grown_limit);
    assert!(session.heap_limit_bytes() >= session.estimated_heap_bytes());
}

#[test]
fn session_snapshot_limit_tracks_personal_store_cap() {
    let lm = base_fixture();
    let session = AutosuggestSession::with_personal_config(
        &lm,
        PersonalAutosuggestConfig {
            max_entries: 32,
            min_count: 1,
        },
        AutosuggestOptions { max_candidates: 8 },
    );

    assert_eq!(
        session.personal_snapshot_limit_bytes(),
        PersonalAutosuggestConfig {
            max_entries: 32,
            min_count: 1,
        }
        .compact_snapshot_limit_bytes()
    );
    assert!(session.personal_snapshot_limit_bytes() >= session.personal_snapshot_len());
}

#[test]
fn session_can_replace_personal_snapshot_without_resetting_context() {
    let lm = base_fixture();
    let mut trainer = AutosuggestSession::with_personal_config(
        &lm,
        PersonalAutosuggestConfig {
            max_entries: 32,
            min_count: 1,
        },
        AutosuggestOptions { max_candidates: 4 },
    );
    trainer.commit_token("আমি").unwrap();
    trainer.commit_token("খাই").unwrap();
    let snapshot = trainer.personal().to_compact_bytes();

    let loaded =
        PersonalAutosuggest::from_compact_bytes(trainer.personal().config(), &snapshot)
            .unwrap();
    let mut session = AutosuggestSession::with_personal_config(
        &lm,
        trainer.personal().config(),
        AutosuggestOptions { max_candidates: 4 },
    );
    session.commit_token("আমি").unwrap();
    session.try_replace_personal(loaded).unwrap();
    session.suggest().unwrap();

    assert_eq!(
        session.candidates().first().map(|candidate| candidate.text),
        Some("খাই")
    );
    assert_eq!(session.context().matched_token_count(), 1);
}

#[test]
fn session_imports_personal_snapshot_bytes_without_resetting_context() {
    let lm = base_fixture();
    let mut trainer = AutosuggestSession::with_personal_config(
        &lm,
        PersonalAutosuggestConfig {
            max_entries: 32,
            min_count: 1,
        },
        AutosuggestOptions { max_candidates: 4 },
    );
    trainer.commit_token("আমি").unwrap();
    trainer.commit_token("খাই").unwrap();
    trainer.clear_context();
    trainer.commit_token("আজ").unwrap();
    trainer.commit_token("যাব").unwrap();
    let mut bytes = Vec::new();
    trainer.write_personal_snapshot_into(&mut bytes);

    let mut session = AutosuggestSession::with_personal_config(
        &lm,
        PersonalAutosuggestConfig {
            max_entries: 1,
            min_count: 1,
        },
        AutosuggestOptions { max_candidates: 4 },
    );
    session.commit_token("আমি").unwrap();
    let original_context = session.context();

    session.import_personal_snapshot(&bytes).unwrap();

    assert_eq!(session.context(), original_context);
    assert_eq!(session.personal().config().max_entries, 1);
    assert_eq!(
        session.personal().model_fingerprint(),
        lm.vocab_fingerprint()
    );
    assert_eq!(session.personal().len(), 1);
}

#[test]
fn session_rejects_personal_snapshot_bytes_without_mutating_state() {
    let lm = base_fixture();
    let mut session = AutosuggestSession::with_personal_config(
        &lm,
        PersonalAutosuggestConfig {
            max_entries: 32,
            min_count: 1,
        },
        AutosuggestOptions { max_candidates: 4 },
    );
    session.commit_token("আমি").unwrap();
    session.suggest().unwrap();
    let original_context = session.context();
    let original_personal_len = session.personal().len();
    let original_candidates = session.candidates().to_vec();

    assert_eq!(
        session.import_personal_snapshot(b"bad").unwrap_err(),
        PersonalAutosuggestSnapshotError::Snapshot(PersonalAutosuggestError::UnexpectedEof)
    );
    assert_eq!(session.context(), original_context);
    assert_eq!(session.personal().len(), original_personal_len);
    assert_eq!(session.candidates(), original_candidates.as_slice());
}

#[test]
fn session_rejects_snapshot_bytes_from_different_model_fingerprint() {
    let lm = base_fixture();
    let alternate = alternate_fixture();
    let mut trainer = AutosuggestSession::with_personal_config(
        &lm,
        PersonalAutosuggestConfig {
            max_entries: 32,
            min_count: 1,
        },
        AutosuggestOptions { max_candidates: 4 },
    );
    trainer.commit_token("আমি").unwrap();
    trainer.commit_token("খাই").unwrap();
    let mut bytes = Vec::new();
    trainer.write_personal_snapshot_into(&mut bytes);

    let mut session = AutosuggestSession::with_personal_config(
        &alternate,
        trainer.personal().config(),
        AutosuggestOptions { max_candidates: 4 },
    );

    assert_eq!(
        session.import_personal_snapshot(&bytes).unwrap_err(),
        PersonalAutosuggestSnapshotError::Model(
            AutosuggestArtifactError::ModelFingerprintMismatch {
                expected: alternate.vocab_fingerprint(),
                actual: lm.vocab_fingerprint(),
            }
        )
    );
    assert!(session.personal().is_empty());
}

#[test]
fn session_rejects_foreign_personal_snapshot_without_mutating_state() {
    let lm = base_fixture();
    let mut session = AutosuggestSession::with_personal_config(
        &lm,
        PersonalAutosuggestConfig {
            max_entries: 32,
            min_count: 1,
        },
        AutosuggestOptions { max_candidates: 4 },
    );
    session.commit_token("আমি").unwrap();
    session.suggest().unwrap();
    let original_context = session.context();
    let original_personal_len = session.personal().len();
    let original_candidates = session.candidates().to_vec();

    let invalid_token_id = lm.vocab_size() as u32;
    let mut foreign = PersonalAutosuggest::new(session.personal().config());
    foreign.observe_context_ids_target(&[], invalid_token_id);

    assert_eq!(
        session.try_replace_personal(foreign).unwrap_err(),
        AutosuggestArtifactError::InvalidTokenId(invalid_token_id)
    );
    assert_eq!(session.context(), original_context);
    assert_eq!(session.personal().len(), original_personal_len);
    assert_eq!(session.candidates(), original_candidates.as_slice());
}

#[test]
fn session_rejects_snapshot_from_different_model_fingerprint() {
    let lm = base_fixture();
    let alternate = alternate_fixture();
    assert_eq!(lm.vocab_size(), alternate.vocab_size());
    assert_ne!(lm.vocab_fingerprint(), alternate.vocab_fingerprint());

    let mut trainer = AutosuggestSession::with_personal_config(
        &lm,
        PersonalAutosuggestConfig {
            max_entries: 32,
            min_count: 1,
        },
        AutosuggestOptions { max_candidates: 4 },
    );
    trainer.commit_token("আমি").unwrap();
    trainer.commit_token("খাই").unwrap();
    let mut bytes = Vec::new();
    trainer.write_personal_snapshot_into(&mut bytes);
    let loaded =
        PersonalAutosuggest::from_compact_bytes(trainer.personal().config(), &bytes).unwrap();

    let mut session = AutosuggestSession::with_personal_config(
        &alternate,
        trainer.personal().config(),
        AutosuggestOptions { max_candidates: 4 },
    );

    assert_eq!(
        session.try_replace_personal(loaded).unwrap_err(),
        AutosuggestArtifactError::ModelFingerprintMismatch {
            expected: alternate.vocab_fingerprint(),
            actual: lm.vocab_fingerprint(),
        }
    );
    assert!(session.personal().is_empty());
}

#[test]
fn session_accepts_legacy_zero_fingerprint_snapshot_and_stamps_model() {
    let lm = base_fixture();
    let mut trainer = AutosuggestSession::with_personal_config(
        &lm,
        PersonalAutosuggestConfig {
            max_entries: 32,
            min_count: 1,
        },
        AutosuggestOptions { max_candidates: 4 },
    );
    trainer.commit_token("আমি").unwrap();
    trainer.commit_token("খাই").unwrap();
    let mut bytes = Vec::new();
    trainer.write_personal_snapshot_into(&mut bytes);
    bytes[28..32].copy_from_slice(&0_u32.to_le_bytes());
    let loaded =
        PersonalAutosuggest::from_compact_bytes(trainer.personal().config(), &bytes).unwrap();

    let mut session = AutosuggestSession::with_personal_config(
        &lm,
        trainer.personal().config(),
        AutosuggestOptions { max_candidates: 4 },
    );
    session.try_replace_personal(loaded).unwrap();

    assert_eq!(
        session.personal().model_fingerprint(),
        lm.vocab_fingerprint()
    );
}

#[test]
fn caller_owned_buffers_are_reused_for_hot_path_merge() {
    let lm = base_fixture();
    let mut personal = PersonalAutosuggest::new(PersonalAutosuggestConfig {
        max_entries: 16,
        min_count: 1,
    });
    let mut context = AutosuggestContext::new();
    context.push_token_id(Some(3));
    personal.observe_context_target(context, 6);

    let mut personal_scratch = Vec::with_capacity(4);
    let mut model_scratch = Vec::with_capacity(4);
    let mut output = Vec::with_capacity(4);
    let personal_ptr = personal_scratch.as_ptr();
    let model_ptr = model_scratch.as_ptr();
    let output_ptr = output.as_ptr();

    personal
        .suggest_with_lm_into(
            &lm,
            context,
            AutosuggestOptions { max_candidates: 4 },
            &mut personal_scratch,
            &mut model_scratch,
            &mut output,
        )
        .unwrap();
    personal
        .suggest_with_lm_into(
            &lm,
            context,
            AutosuggestOptions { max_candidates: 4 },
            &mut personal_scratch,
            &mut model_scratch,
            &mut output,
        )
        .unwrap();

    assert_eq!(personal_scratch.as_ptr(), personal_ptr);
    assert_eq!(model_scratch.as_ptr(), model_ptr);
    assert_eq!(output.as_ptr(), output_ptr);
    assert_eq!(output.first().map(|candidate| candidate.text), Some("খাই"));
}

#[test]
fn higher_order_personal_context_backfills_lower_order_context() {
    let mut personal = PersonalAutosuggest::new(PersonalAutosuggestConfig {
        max_entries: 16,
        min_count: 1,
    });
    let mut context = AutosuggestContext::new();
    context.push_token_id(Some(3));
    context.push_token_id(Some(4));

    personal.observe_context_target(context, 6);

    let mut suggestions = Vec::new();
    personal.suggest_token_ids_into(context, 3, &mut suggestions);
    assert_eq!(
        suggestions
            .iter()
            .map(|suggestion| (suggestion.token_id, suggestion.context_len))
            .collect::<Vec<_>>(),
        vec![(6, 2)]
    );

    let mut shorter = AutosuggestContext::new();
    shorter.push_token_id(Some(4));
    personal.suggest_token_ids_into(shorter, 3, &mut suggestions);
    assert_eq!(
        suggestions
            .iter()
            .map(|suggestion| (suggestion.token_id, suggestion.context_len))
            .collect::<Vec<_>>(),
        vec![(6, 1)]
    );
}

#[test]
fn personal_context_uses_static_context_width() {
    let mut personal = PersonalAutosuggest::new(PersonalAutosuggestConfig {
        max_entries: 16,
        min_count: 1,
    });
    let mut context = AutosuggestContext::new();
    context.push_token_id(Some(3));
    context.push_token_id(Some(4));
    context.push_token_id(Some(5));

    personal.observe_context_target(context, 6);

    assert!(personal
        .entries()
        .iter()
        .all(|entry| entry.context.len as usize <= MAX_PERSONAL_CONTEXT_TOKENS));
    assert!(personal
        .entries()
        .iter()
        .any(|entry| entry.context.ids() == [3, 4, 5]));
    assert!(personal
        .entries()
        .iter()
        .any(|entry| entry.context.ids() == [4, 5]));

    let mut suggestions = Vec::new();
    personal.suggest_token_ids_into(context, 3, &mut suggestions);
    assert_eq!(
        suggestions
            .iter()
            .map(|suggestion| (suggestion.token_id, suggestion.context_len))
            .collect::<Vec<_>>(),
        vec![(6, 3)]
    );
}

#[test]
fn personal_sentence_start_context_is_distinct_from_unknown_fallback() {
    let mut personal = PersonalAutosuggest::new(PersonalAutosuggestConfig {
        max_entries: 16,
        min_count: 2,
    });
    let start = AutosuggestContext::new();
    let mut unknown_after_typing = AutosuggestContext::new();
    unknown_after_typing.push_unknown();

    for _ in 0..2 {
        personal.observe_context_target(start, 4);
    }
    for _ in 0..2 {
        personal.observe_context_target(unknown_after_typing, 6);
    }

    let mut suggestions = Vec::new();
    personal.suggest_token_ids_into(start, 4, &mut suggestions);
    assert_eq!(
        suggestions
            .iter()
            .map(|suggestion| (suggestion.token_id, suggestion.context_len))
            .collect::<Vec<_>>(),
        vec![(4, 1), (6, 0)]
    );

    personal.suggest_token_ids_into(unknown_after_typing, 4, &mut suggestions);
    assert!(suggestions
        .iter()
        .all(|suggestion| suggestion.context_len == 0));
    assert_eq!(
        suggestions
            .iter()
            .map(|suggestion| suggestion.token_id)
            .collect::<Vec<_>>(),
        vec![6, 4]
    );
}

#[test]
fn compact_snapshot_accepts_bos_context_but_rejects_pad_or_unknown_context() {
    let lm = base_fixture();
    let mut personal = PersonalAutosuggest::new(PersonalAutosuggestConfig {
        max_entries: 16,
        min_count: 1,
    });

    personal.observe_context_target(AutosuggestContext::new(), 6);
    assert!(personal
        .entries()
        .iter()
        .any(|entry| entry.context == PersonalContext::sentence_start()));
    personal.validate_token_ids(lm.vocab_size()).unwrap();

    let bytes = personal.to_compact_bytes();
    let loaded = PersonalAutosuggest::from_compact_bytes(personal.config(), &bytes).unwrap();
    loaded.validate_token_ids(lm.vocab_size()).unwrap();

    let bos_entry_index = loaded
        .entries()
        .iter()
        .position(|entry| entry.context == PersonalContext::sentence_start())
        .expect("sentence-start context should be persisted");
    let context_id_offset = PERSONAL_HEADER_LEN + bos_entry_index * PERSONAL_ENTRY_LEN + 4;

    let mut pad_context = bytes.clone();
    pad_context[context_id_offset..context_id_offset + 4].copy_from_slice(&0_u32.to_le_bytes());
    let loaded =
        PersonalAutosuggest::from_compact_bytes(personal.config(), &pad_context).unwrap();
    assert_eq!(
        loaded.validate_token_ids(lm.vocab_size()).unwrap_err(),
        AutosuggestArtifactError::InvalidTokenId(0)
    );

    let mut unknown_context = bytes;
    unknown_context[context_id_offset..context_id_offset + 4]
        .copy_from_slice(&UNK_ID.to_le_bytes());
    let loaded =
        PersonalAutosuggest::from_compact_bytes(personal.config(), &unknown_context).unwrap();
    assert_eq!(
        loaded.validate_token_ids(lm.vocab_size()).unwrap_err(),
        AutosuggestArtifactError::InvalidTokenId(UNK_ID)
    );
}

#[test]
fn empty_context_personal_unigram_cache_is_bounded_and_ranked() {
    let mut personal = PersonalAutosuggest::new(PersonalAutosuggestConfig {
        max_entries: 64,
        min_count: 1,
    });
    for target_id in 5..30 {
        personal.observe_context_ids_target(&[], target_id);
    }
    personal.observe_context_ids_target(&[], 20);
    personal.observe_context_ids_target(&[], 20);

    let mut suggestions = Vec::new();
    personal.suggest_token_ids_into(AutosuggestContext::new(), 5, &mut suggestions);

    assert_eq!(
        personal.unigram_cache().len(),
        PERSONAL_UNIGRAM_CACHE_LIMIT
    );
    assert_eq!(suggestions.len(), 5);
    assert_eq!(
        suggestions.first().map(|suggestion| suggestion.token_id),
        Some(20)
    );
    assert_eq!(suggestions, personal.unigram_cache()[..5].to_vec());
}

#[test]
fn empty_context_large_limit_can_scan_beyond_unigram_cache() {
    let mut personal = PersonalAutosuggest::new(PersonalAutosuggestConfig {
        max_entries: 64,
        min_count: 1,
    });
    for target_id in 5..30 {
        personal.observe_context_ids_target(&[], target_id);
    }

    let mut suggestions = Vec::new();
    personal.suggest_token_ids_into(AutosuggestContext::new(), 32, &mut suggestions);

    assert_eq!(
        personal.unigram_cache().len(),
        PERSONAL_UNIGRAM_CACHE_LIMIT
    );
    assert_eq!(suggestions.len(), 25);
    assert_eq!(
        suggestions
            .iter()
            .map(|suggestion| suggestion.token_id)
            .collect::<std::collections::HashSet<_>>()
            .len(),
        suggestions.len()
    );
}

#[test]
fn minimum_count_blocks_one_off_personal_noise_until_repeated() {
    let mut personal = PersonalAutosuggest::new(PersonalAutosuggestConfig {
        max_entries: 16,
        min_count: 2,
    });
    let mut context = AutosuggestContext::new();
    context.push_token_id(Some(3));
    let mut suggestions = Vec::new();

    personal.observe_context_target(context, 6);
    personal.suggest_token_ids_into(context, 3, &mut suggestions);
    assert!(suggestions.is_empty());

    personal.observe_context_target(context, 6);
    personal.suggest_token_ids_into(context, 3, &mut suggestions);
    assert_eq!(
        suggestions.first().map(|suggestion| suggestion.token_id),
        Some(6)
    );
}

#[test]
fn bounded_personal_store_evicts_weakest_old_entries() {
    let mut personal = PersonalAutosuggest::new(PersonalAutosuggestConfig {
        max_entries: 6,
        min_count: 1,
    });
    let mut context = AutosuggestContext::new();
    context.push_token_id(Some(3));

    personal.observe_context_target(context, 5);
    personal.observe_context_target(context, 6);
    personal.observe_context_target(context, 7);
    assert_eq!(personal.len(), 6);

    personal.observe_context_target(context, 6);
    personal.observe_context_target(context, 8);
    assert_eq!(personal.len(), 6);

    let mut suggestions = Vec::new();
    personal.suggest_token_ids_into(context, 5, &mut suggestions);
    assert!(!suggestions
        .iter()
        .any(|suggestion| suggestion.token_id == 5));
    assert_eq!(
        suggestions.first().map(|suggestion| suggestion.token_id),
        Some(6)
    );
}

#[test]
fn full_personal_store_rejects_weaker_new_singletons() {
    let mut personal = PersonalAutosuggest::new(PersonalAutosuggestConfig {
        max_entries: 2,
        min_count: 1,
    });

    for _ in 0..2 {
        personal.observe_context_ids_target(&[], 5);
        personal.observe_context_ids_target(&[], 6);
    }
    personal.observe_context_ids_target(&[], 7);

    let mut suggestions = Vec::new();
    personal.suggest_token_ids_into(AutosuggestContext::new(), 4, &mut suggestions);

    assert_eq!(personal.len(), 2);
    assert_eq!(
        suggestions
            .iter()
            .map(|suggestion| suggestion.token_id)
            .collect::<Vec<_>>(),
        vec![6, 5]
    );
    assert!(!suggestions
        .iter()
        .any(|suggestion| suggestion.token_id == 7));
}

#[test]
fn full_personal_store_caches_weakest_entry_after_rejecting_noise() {
    // The weakest entry is recomputed on demand here rather than cached, so
    // the check is on the recomputed index: rejected noise leaves it alone.
    let mut personal = PersonalAutosuggest::new(PersonalAutosuggestConfig {
        max_entries: 2,
        min_count: 1,
    });

    for _ in 0..2 {
        personal.observe_context_ids_target(&[], 5);
        personal.observe_context_ids_target(&[], 6);
    }
    assert_eq!(personal.weakest_entry_index(), Some(0));

    personal.observe_context_ids_target(&[], 7);
    let cached = personal.weakest_entry_index();

    personal.observe_context_ids_target(&[], 8);

    assert_eq!(personal.len(), 2);
    assert!(cached.is_some());
    assert_eq!(personal.weakest_entry_index(), cached);
}

#[test]
fn full_personal_store_invalidates_weakest_cache_after_replacement() {
    let mut personal = PersonalAutosuggest::new(PersonalAutosuggestConfig {
        max_entries: 2,
        min_count: 1,
    });

    personal.observe_context_ids_target(&[], 5);
    personal.observe_context_ids_target(&[], 6);
    assert_eq!(personal.weakest_entry_index(), Some(0));

    personal.observe_context_ids_target(&[], 7);

    assert_eq!(personal.len(), 2);
    assert_eq!(personal.weakest_entry_index(), Some(0));
    assert!(!personal.entries().iter().any(|entry| entry.target_id == 5));
    assert!(personal.entries().iter().any(|entry| entry.target_id == 7));
}

#[test]
fn unigram_cache_tracks_evicted_empty_context_entries() {
    let mut personal = PersonalAutosuggest::new(PersonalAutosuggestConfig {
        max_entries: 4,
        min_count: 1,
    });
    for target_id in 5..9 {
        personal.observe_context_ids_target(&[], target_id);
    }
    personal.observe_context_ids_target(&[], 5);
    personal.observe_context_ids_target(&[], 9);

    let mut suggestions = Vec::new();
    personal.suggest_token_ids_into(AutosuggestContext::new(), 8, &mut suggestions);

    assert_eq!(
        suggestions.first().map(|suggestion| suggestion.token_id),
        Some(5)
    );
    assert!(!suggestions
        .iter()
        .any(|suggestion| suggestion.token_id == 6));
    assert!(suggestions
        .iter()
        .any(|suggestion| suggestion.token_id == 9));
}

#[test]
fn decay_removes_stale_singletons() {
    let mut personal = PersonalAutosuggest::new(PersonalAutosuggestConfig {
        max_entries: 16,
        min_count: 1,
    });
    let mut context = AutosuggestContext::new();
    context.push_token_id(Some(3));

    personal.observe_context_target(context, 6);
    personal.decay_counts();

    assert!(personal.is_empty());
    assert_eq!(personal.unigram_cache().len(), 0);
}

#[test]
fn personal_entries_remain_key_sorted_after_insert_and_eviction() {
    let mut personal = PersonalAutosuggest::new(PersonalAutosuggestConfig {
        max_entries: 4,
        min_count: 1,
    });
    let mut first = AutosuggestContext::new();
    first.push_token_id(Some(4));
    let mut second = AutosuggestContext::new();
    second.push_token_id(Some(3));

    personal.observe_context_target(first, 7);
    personal.observe_context_target(second, 6);
    personal.observe_context_target(second, 5);
    personal.observe_context_target(first, 6);
    personal.observe_context_target(first, 5);

    assert_eq!(personal.len(), 4);
    assert!(personal.entries().windows(2).all(
        |pair| (pair[0].context, pair[0].target_id) < (pair[1].context, pair[1].target_id)
    ));

    let mut suggestions = Vec::new();
    personal.suggest_token_ids_into(second, 4, &mut suggestions);
    assert!(suggestions.iter().all(|suggestion| suggestion.count > 0));
}

#[test]
fn compact_snapshot_round_trips_personal_entries() {
    let mut personal = PersonalAutosuggest::new(PersonalAutosuggestConfig {
        max_entries: 16,
        min_count: 1,
    });
    let mut context = AutosuggestContext::new();
    context.push_token_id(Some(3));
    context.push_token_id(Some(4));
    context.push_token_id(Some(5));

    personal.observe_context_target(context, 6);
    personal.observe_context_target(context, 6);
    personal.observe_context_target(context, 7);

    let bytes = personal.to_compact_bytes();
    assert_eq!(bytes.len(), personal.compact_snapshot_len());
    assert_eq!(
        bytes.len(),
        PERSONAL_HEADER_LEN + personal.len() * PERSONAL_ENTRY_LEN
    );

    let loaded = PersonalAutosuggest::from_compact_bytes(personal.config(), &bytes).unwrap();
    assert_eq!(loaded.config(), personal.config());
    assert_eq!(loaded.model_fingerprint(), 0);
    assert_eq!(loaded.entries(), personal.entries());
    assert_eq!(loaded.unigram_cache()[0].token_id, 6);

    let mut suggestions = Vec::new();
    loaded.suggest_token_ids_into(context, 3, &mut suggestions);
    assert_eq!(
        suggestions.first().map(|suggestion| suggestion.token_id),
        Some(6)
    );
}

#[test]
fn compact_snapshot_reads_legacy_two_token_entries() {
    let config = PersonalAutosuggestConfig {
        max_entries: 16,
        min_count: 1,
    };
    let mut bytes = Vec::new();
    bytes.extend_from_slice(PERSONAL_MAGIC);
    write_snapshot_u32(&mut bytes, PERSONAL_VERSION_V1);
    write_snapshot_u32(&mut bytes, 7);
    write_snapshot_u32(&mut bytes, 1);
    write_snapshot_u32(&mut bytes, 0);
    write_snapshot_u32(&mut bytes, 2);
    write_snapshot_u32(&mut bytes, 3);
    write_snapshot_u32(&mut bytes, 4);
    write_snapshot_u32(&mut bytes, 6);
    write_snapshot_u32(&mut bytes, 2);
    write_snapshot_u32(&mut bytes, 7);
    assert_eq!(
        bytes.len(),
        PERSONAL_V1_V2_HEADER_LEN + PERSONAL_V1_ENTRY_LEN
    );

    let loaded = PersonalAutosuggest::from_compact_bytes(config, &bytes).unwrap();
    assert_eq!(loaded.len(), 1);
    assert_eq!(loaded.entries()[0].context.ids(), &[3, 4]);
    assert_eq!(loaded.entries()[0].target_id, 6);

    let mut context = AutosuggestContext::new();
    context.push_token_id(Some(3));
    context.push_token_id(Some(4));
    let mut suggestions = Vec::new();
    loaded.suggest_token_ids_into(context, 3, &mut suggestions);
    assert_eq!(
        suggestions
            .iter()
            .map(|suggestion| (suggestion.token_id, suggestion.context_len))
            .collect::<Vec<_>>(),
        vec![(6, 2)]
    );
}

#[test]
fn compact_snapshot_layout_can_be_rejected_against_current_vocab() {
    let lm = base_fixture();
    let mut personal = PersonalAutosuggest::new(PersonalAutosuggestConfig {
        max_entries: 16,
        min_count: 1,
    });
    personal.observe_context_ids_target(&[], 6);
    let mut bytes = personal.to_compact_bytes();
    let invalid_token_id = lm.vocab_size() as u32;
    let target_offset = PERSONAL_HEADER_LEN + 4 + MAX_PERSONAL_CONTEXT_TOKENS * 4;
    bytes[target_offset..target_offset + 4].copy_from_slice(&invalid_token_id.to_le_bytes());

    let loaded = PersonalAutosuggest::from_compact_bytes(personal.config(), &bytes).unwrap();
    assert_eq!(
        loaded.validate_token_ids(lm.vocab_size()).unwrap_err(),
        AutosuggestArtifactError::InvalidTokenId(invalid_token_id)
    );
}

#[test]
fn compact_snapshot_rejects_foreign_context_token_against_current_vocab() {
    let lm = base_fixture();
    let mut personal = PersonalAutosuggest::new(PersonalAutosuggestConfig {
        max_entries: 16,
        min_count: 1,
    });
    personal.observe_context_ids_target(&[lm.vocab_size() as u32], 6);

    assert_eq!(
        personal.validate_token_ids(lm.vocab_size()).unwrap_err(),
        AutosuggestArtifactError::InvalidTokenId(lm.vocab_size() as u32)
    );
}

#[test]
fn compact_snapshot_writer_reuses_caller_buffer() {
    let mut personal = PersonalAutosuggest::new(PersonalAutosuggestConfig {
        max_entries: 16,
        min_count: 1,
    });
    let mut context = AutosuggestContext::new();
    context.push_token_id(Some(3));

    personal.observe_context_target(context, 6);
    personal.observe_context_target(context, 7);

    let mut bytes = Vec::with_capacity(personal.compact_snapshot_len() + 16);
    personal.write_compact_bytes_into(&mut bytes);
    let expected = personal.to_compact_bytes();
    let ptr = bytes.as_ptr();

    bytes.extend_from_slice(b"stale tail");
    personal.write_compact_bytes_into(&mut bytes);

    assert_eq!(bytes, expected);
    assert_eq!(bytes.as_ptr(), ptr);
}

#[test]
fn session_writes_personal_snapshot_into_reused_buffer() {
    let lm = base_fixture();
    let mut session = AutosuggestSession::with_personal_config(
        &lm,
        PersonalAutosuggestConfig {
            max_entries: 32,
            min_count: 1,
        },
        AutosuggestOptions { max_candidates: 4 },
    );
    session.commit_token("আমি").unwrap();
    session.commit_token("খাই").unwrap();

    let mut bytes = Vec::with_capacity(session.personal_snapshot_len());
    session.write_personal_snapshot_into(&mut bytes);
    let ptr = bytes.as_ptr();

    session.write_personal_snapshot_into(&mut bytes);
    let loaded =
        PersonalAutosuggest::from_compact_bytes(session.personal().config(), &bytes).unwrap();

    assert_eq!(bytes.as_ptr(), ptr);
    assert_eq!(loaded.model_fingerprint(), lm.vocab_fingerprint());
    assert_eq!(loaded.entries(), session.personal().entries());
}

#[test]
fn compact_snapshot_respects_smaller_runtime_cap() {
    let mut personal = PersonalAutosuggest::new(PersonalAutosuggestConfig {
        max_entries: 16,
        min_count: 1,
    });
    let mut context = AutosuggestContext::new();
    context.push_token_id(Some(3));
    for target_id in 5..12 {
        personal.observe_context_target(context, target_id);
    }
    personal.observe_context_target(context, 8);

    let loaded = PersonalAutosuggest::from_compact_bytes(
        PersonalAutosuggestConfig {
            max_entries: 4,
            min_count: 1,
        },
        &personal.to_compact_bytes(),
    )
    .unwrap();

    assert_eq!(loaded.len(), 4);
    assert!(loaded.entries().iter().any(|entry| entry.target_id == 8));
    assert!(loaded.entries().windows(2).all(
        |pair| (pair[0].context, pair[0].target_id) < (pair[1].context, pair[1].target_id)
    ));
}

#[test]
fn compact_snapshot_rejects_invalid_inputs() {
    assert_eq!(
        PersonalAutosuggest::from_compact_bytes(PersonalAutosuggestConfig::default(), b"bad")
            .unwrap_err(),
        PersonalAutosuggestError::UnexpectedEof
    );

    let mut bytes = PersonalAutosuggest::default().to_compact_bytes();
    bytes[0] = b'X';
    assert_eq!(
        PersonalAutosuggest::from_compact_bytes(PersonalAutosuggestConfig::default(), &bytes)
            .unwrap_err(),
        PersonalAutosuggestError::InvalidMagic
    );
}

#[test]
fn default_personal_store_has_explicit_small_memory_bound() {
    let personal = PersonalAutosuggest::default();
    assert_eq!(personal.len(), 0);
    assert_eq!(personal.estimated_heap_bytes(), 0);
    assert_eq!(
        personal.heap_limit_bytes(),
        PersonalAutosuggestConfig::default().heap_limit_bytes()
    );
    assert_eq!(
        personal.heap_limit_bytes(),
        DEFAULT_PERSONAL_AUTOSUGGEST_ENTRIES * std::mem::size_of::<PersonalEntry>()
            + DEFAULT_PERSONAL_TEXT_AUTOSUGGEST_ENTRIES * std::mem::size_of::<PersonalTextEntry>()
            + PERSONAL_TEXT_TOTAL_MAX_BYTES
    );
    assert_eq!(personal.compact_snapshot_len(), PERSONAL_HEADER_LEN);
    assert_eq!(
        personal.compact_snapshot_limit_bytes(),
        PersonalAutosuggestConfig::default().compact_snapshot_limit_bytes()
    );
}

#[test]
fn first_personal_learning_reserves_small_block_not_full_cap() {
    let mut personal = PersonalAutosuggest::default();

    personal.observe_context_ids_target(&[], 5);

    assert_eq!(personal.len(), 1);
    assert!(personal.entry_capacity() <= PERSONAL_INITIAL_ENTRY_CAPACITY);
    assert!(
        personal.estimated_heap_bytes()
            < DEFAULT_PERSONAL_AUTOSUGGEST_ENTRIES * std::mem::size_of::<PersonalEntry>()
    );
}

#[test]
fn observe_committed_token_learns_before_advancing_context() {
    let lm = base_fixture();
    let mut personal = PersonalAutosuggest::new(PersonalAutosuggestConfig {
        max_entries: 32,
        min_count: 2,
    });

    for _ in 0..2 {
        let mut context = AutosuggestContext::new();
        assert!(personal
            .observe_committed_token(&lm, &mut context, "আমি")
            .unwrap());
        assert!(personal
            .observe_committed_token(&lm, &mut context, "খাই")
            .unwrap());
    }

    let mut context = AutosuggestContext::new();
    context.push_token_id(lm.token_id("আমি").unwrap());
    let mut suggestions = Vec::new();
    personal.suggest_token_ids_into(context, 3, &mut suggestions);
    assert_eq!(
        suggestions.first().map(|suggestion| suggestion.token_id),
        lm.token_id("খাই").unwrap()
    );
}

#[test]
fn observe_committed_token_learns_unknown_text_words_without_static_context() {
    let lm = base_fixture();
    let mut personal = PersonalAutosuggest::new(PersonalAutosuggestConfig {
        max_entries: 32,
        min_count: 1,
    });
    let mut context = AutosuggestContext::new();
    context.push_token_id(lm.token_id("আমি").unwrap());

    assert!(personal
        .observe_committed_token(&lm, &mut context, "অচেনা")
        .unwrap());
    assert_eq!(personal.len(), 0);
    assert_eq!(personal.text_len(), 2);
    assert_eq!(context.token_count(), 2);
    assert_eq!(context.matched_token_count(), 0);

    let mut query = AutosuggestContext::new();
    query.push_token_id(lm.token_id("আমি").unwrap());
    let mut suggestions = Vec::new();
    personal.suggest_text_into(query, 3, &mut suggestions);
    assert_eq!(
        suggestions
            .first()
            .and_then(|suggestion| personal.text_suggestion_text(*suggestion)),
        Some("অচেনা")
    );
}

#[test]
fn session_exposes_personal_text_suggestions_without_token_ids() {
    let lm = base_fixture();
    let mut session = AutosuggestSession::with_personal_config(
        &lm,
        PersonalAutosuggestConfig {
            max_entries: 32,
            min_count: 1,
        },
        AutosuggestOptions { max_candidates: 4 },
    );

    assert!(session.commit_token("আমি").unwrap());
    assert!(session.commit_token("অচেনা").unwrap());
    session.clear_context();
    assert!(session.commit_token("আমি").unwrap());

    let metadata = session.suggest_personal_text();
    assert_eq!(metadata.context_token_count, 1);
    assert_eq!(metadata.matched_context_token_count, 1);
    assert_eq!(
        session
            .personal_text_suggestions()
            .first()
            .and_then(|suggestion| session.personal_text_suggestion_text(*suggestion)),
        Some("অচেনা")
    );
}

#[test]
fn session_uses_personal_oov_word_as_context_for_known_target() {
    let lm = base_fixture();
    let mut session = AutosuggestSession::with_personal_config(
        &lm,
        PersonalAutosuggestConfig {
            max_entries: 32,
            min_count: 1,
        },
        AutosuggestOptions { max_candidates: 4 },
    );

    assert!(session.commit_token("অচেনা").unwrap());
    assert!(session.commit_token("খাই").unwrap());
    session.clear_context();
    assert!(session.commit_token("অচেনা").unwrap());
    session.suggest_ids().unwrap();

    assert_eq!(
        session
            .candidate_ids()
            .first()
            .map(|candidate| (candidate.token_id, candidate.source)),
        Some((
            lm.token_id("খাই").unwrap().unwrap(),
            AutosuggestSource::Personal
        ))
    );
}

#[test]
fn session_uses_personal_oov_word_as_context_for_text_target() {
    let lm = base_fixture();
    let mut session = AutosuggestSession::with_personal_config(
        &lm,
        PersonalAutosuggestConfig {
            max_entries: 32,
            min_count: 1,
        },
        AutosuggestOptions { max_candidates: 4 },
    );

    assert!(session.commit_token("অচেনা").unwrap());
    assert!(session.commit_token("ঝুম্পালিকা").unwrap());
    session.clear_context();
    assert!(session.commit_token("অচেনা").unwrap());

    session.suggest_personal_text();
    assert_eq!(
        session
            .personal_text_suggestions()
            .first()
            .and_then(|suggestion| session.personal_text_suggestion_text(*suggestion)),
        Some("ঝুম্পালিকা")
    );
}

#[test]
fn personal_oov_context_round_trips_through_snapshot() {
    let lm = base_fixture();
    let mut trainer = AutosuggestSession::with_personal_config(
        &lm,
        PersonalAutosuggestConfig {
            max_entries: 32,
            min_count: 1,
        },
        AutosuggestOptions { max_candidates: 4 },
    );

    assert!(trainer.commit_token("অচেনা").unwrap());
    assert!(trainer.commit_token("খাই").unwrap());
    let mut snapshot = Vec::new();
    trainer.write_personal_snapshot_into(&mut snapshot);

    let mut session = AutosuggestSession::with_personal_config(
        &lm,
        PersonalAutosuggestConfig {
            max_entries: 32,
            min_count: 1,
        },
        AutosuggestOptions { max_candidates: 4 },
    );
    session.import_personal_snapshot(&snapshot).unwrap();
    assert!(session.commit_token("অচেনা").unwrap());
    session.suggest_ids().unwrap();

    assert_eq!(
        session
            .candidate_ids()
            .first()
            .map(|candidate| (candidate.token_id, candidate.source)),
        Some((
            lm.token_id("খাই").unwrap().unwrap(),
            AutosuggestSource::Personal
        ))
    );
}

#[test]
fn scorer_input_does_not_receive_private_oov_context_ids() {
    let lm = base_fixture();
    let mut session = AutosuggestSession::with_personal_config(
        &lm,
        PersonalAutosuggestConfig {
            max_entries: 32,
            min_count: 1,
        },
        AutosuggestOptions { max_candidates: 4 },
    );

    assert!(session.commit_token("অচেনা").unwrap());
    let mut scorer_context_ids = [99; 4];
    let metadata = session.rerank_input_into(&mut scorer_context_ids).unwrap();

    assert_eq!(metadata.scorer_context_token_count, 0);
    assert_eq!(metadata.matched_context_token_count, 0);
    assert_eq!(scorer_context_ids, [PAD_ID; 4]);
}

#[test]
fn compact_snapshot_round_trips_personal_text_entries() {
    let lm = base_fixture();
    let mut personal = PersonalAutosuggest::new(PersonalAutosuggestConfig {
        max_entries: 32,
        min_count: 1,
    });
    let mut context = AutosuggestContext::new();
    context.push_token_id(lm.token_id("আমি").unwrap());

    assert!(personal
        .observe_committed_token(&lm, &mut context, "অচেনা")
        .unwrap());

    let mut bytes = Vec::new();
    personal
        .write_compact_bytes_with_model_fingerprint_into(&mut bytes, lm.vocab_fingerprint());
    let loaded = PersonalAutosuggest::from_compact_bytes_for_model(
        personal.config(),
        &bytes,
        lm.vocab_size(),
        lm.vocab_fingerprint(),
    )
    .unwrap();

    let mut query = AutosuggestContext::new();
    query.push_token_id(lm.token_id("আমি").unwrap());
    let mut suggestions = Vec::new();
    loaded.suggest_text_into(query, 3, &mut suggestions);
    assert_eq!(
        suggestions
            .first()
            .and_then(|suggestion| loaded.text_suggestion_text(*suggestion)),
        Some("অচেনা")
    );
}

#[test]
fn observe_committed_token_rejects_non_bangla_personal_text() {
    let lm = base_fixture();
    let mut personal = PersonalAutosuggest::new(PersonalAutosuggestConfig {
        max_entries: 32,
        min_count: 1,
    });
    let mut context = AutosuggestContext::new();

    assert!(!personal
        .observe_committed_token(&lm, &mut context, "hello")
        .unwrap());
    assert_eq!(personal.text_len(), 0);
    assert_eq!(context.token_count(), 1);
    assert_eq!(context.matched_token_count(), 0);
}

#[test]
fn observe_committed_token_learns_then_honors_sentence_boundary() {
    let lm = base_fixture();
    let mut personal = PersonalAutosuggest::new(PersonalAutosuggestConfig {
        max_entries: 32,
        min_count: 1,
    });
    let mut context = AutosuggestContext::new();
    context.push_token_id(lm.token_id("আমি").unwrap());

    assert!(personal
        .observe_committed_token(&lm, &mut context, "আজ।")
        .unwrap());
    assert_eq!(context.token_count(), 2);
    assert_eq!(context.matched_token_count(), 0);

    let mut query = AutosuggestContext::new();
    query.push_token_id(lm.token_id("আমি").unwrap());
    let mut suggestions = Vec::new();
    personal.suggest_token_ids_into(query, 3, &mut suggestions);
    assert_eq!(
        suggestions.first().map(|suggestion| suggestion.token_id),
        lm.token_id("আজ").unwrap()
    );
}

#[test]
fn commit_strength_weights_are_ordered_and_committed_is_one() {
    // `Committed` must stay 1 so the default observe path is unchanged; the
    // stronger classes must be strictly heavier and above the default
    // suggestion threshold in a single event.
    assert_eq!(CommitStrength::Committed.weight(), 1);
    assert!(
        CommitStrength::CorrectionRejected.weight() >= DEFAULT_PERSONAL_AUTOSUGGEST_MIN_COUNT
    );
    assert!(
        CommitStrength::ManuallyAdded.weight() >= CommitStrength::CorrectionRejected.weight()
    );
}

#[test]
fn observe_committed_with_strength_sets_post_decay_membership_weight() {
    let lm = base_fixture();
    let mut personal = PersonalAutosuggest::new(PersonalAutosuggestConfig {
        max_entries: 64,
        min_count: 2,
    });
    let mut context = AutosuggestContext::new();

    // An out-of-vocabulary name — stored on the personal *text* path.
    let word = "রকিব";
    assert_eq!(personal.committed_text_weight(word), 0);
    assert!(!personal.is_text_established(word, 2));

    personal
        .observe_committed_token_with_strength(
            &lm,
            &mut context,
            word,
            CommitStrength::ManuallyAdded,
        )
        .expect("commit should succeed");
    assert_eq!(
        personal.committed_text_weight(word),
        CommitStrength::ManuallyAdded.weight()
    );
    assert!(personal.is_text_established(word, 2));

    // A following ordinary commit adds exactly 1 on top — proof the transient
    // commit weight was restored to the default after the strong commit.
    let mut next_context = AutosuggestContext::new();
    personal
        .observe_committed_token_with_strength(
            &lm,
            &mut next_context,
            word,
            CommitStrength::Committed,
        )
        .expect("commit should succeed");
    assert_eq!(
        personal.committed_text_weight(word),
        CommitStrength::ManuallyAdded.weight() + 1
    );

    // Decay halves the evidence in place, so membership is post-decay.
    personal.decay_counts();
    assert_eq!(
        personal.committed_text_weight(word),
        (CommitStrength::ManuallyAdded.weight() + 1) / 2
    );
}

#[test]
fn session_membership_gates_on_established_weight() {
    let lm = base_fixture();
    let mut session = AutosuggestSession::with_personal_config(
        &lm,
        PersonalAutosuggestConfig {
            max_entries: 64,
            min_count: 2,
        },
        AutosuggestOptions { max_candidates: 5 },
    );

    let name = "নাসির";
    assert_eq!(session.established_weight(name), 0);
    assert!(!session.is_word_established(name, 2));

    // One ordinary commit is below the protection threshold...
    session.commit_token(name).expect("commit should succeed");
    assert_eq!(session.established_weight(name), 1);
    assert!(!session.is_word_established(name, 2));

    // ...but a rejected correction establishes it in a single event.
    let kept = "সৌম";
    session
        .commit_token_with_strength(kept, CommitStrength::CorrectionRejected)
        .expect("commit should succeed");
    assert_eq!(
        session.established_weight(kept),
        CommitStrength::CorrectionRejected.weight()
    );
    assert!(session.is_word_established(kept, 2));
}


#[test]
fn snapshot_errors_convert_from_their_parts() {
    let e: obadh_engine::PersonalAutosuggestSnapshotError = obadh_engine::PersonalAutosuggestError::InvalidLayout.into();
    assert_eq!(
        e,
        obadh_engine::PersonalAutosuggestSnapshotError::Snapshot(obadh_engine::PersonalAutosuggestError::InvalidLayout)
    );
    let e: obadh_engine::PersonalAutosuggestSnapshotError = obadh_engine::AutosuggestArtifactError::InvalidTokenId(9).into();
    assert_eq!(
        e,
        obadh_engine::PersonalAutosuggestSnapshotError::Model(obadh_engine::AutosuggestArtifactError::InvalidTokenId(9))
    );
}

#[test]
fn generated_outputs_reject_bad_shapes_and_out_of_vocab_ids() {
    let lm = base_fixture();
    let mut generated = Vec::new();

    let shape = obadh_engine::generator_outputs::AutosuggestGeneratorShape {
        context_window: 4,
        top_k_output: 8,
        candidate_pool: None,
    };
    let shape_error = shape.generated_u32_candidates_into(&lm, &[7], 1, &mut generated).unwrap_err();
    let id_error = shape.generated_i32_candidates_into(
        &lm,
        &[7, -1, 5, 4, 3, 2, 1, 0],
        8,
        &mut generated,
    )
    .unwrap_err();

    assert_eq!(
        shape_error,
        obadh_engine::generator_outputs::AutosuggestGeneratorHandoffError::InvalidBuffer {
            field: "token_ids",
            expected: 8,
            actual: 1,
        }
    );
    assert_eq!(
        id_error,
        obadh_engine::generator_outputs::AutosuggestGeneratorHandoffError::InvalidGeneratedTokenId {
            index: 1,
            token_id: -1,
        }
    );
}

#[test]
fn generated_outputs_keep_word_ids_once_in_model_order() {
    let lm = base_fixture();
    let mut generated = Vec::new();
    let shape = |top_k_output: usize| obadh_engine::generator_outputs::AutosuggestGeneratorShape {
        context_window: 4,
        top_k_output,
        candidate_pool: Some(3),
    };
    shape(6).generated_u32_candidates_into(
        &lm,
        &[7, 2, 5, 7, 0, 3],
        6,
        &mut generated,
    )
    .unwrap();
    assert_eq!(
        generated.iter().map(|c| (c.token_id, c.model_rank)).collect::<Vec<_>>(),
        vec![(7, 0), (5, 2), (3, 5)]
    );

    let error = shape(3).generated_u32_candidates_into(
        &lm,
        &[5, 8, 6],
        3,
        &mut generated,
    )
    .unwrap_err();
    assert_eq!(
        error,
        obadh_engine::generator_outputs::AutosuggestGeneratorHandoffError::InvalidGeneratedTokenId {
            index: 1,
            token_id: 8,
        }
    );
    // what was kept before the bad id stays
    assert_eq!(generated.len(), 1);
    assert_eq!(generated[0].token_id, 5);

    let error = shape(3).generated_u32_candidates_into(
        &lm,
        &[5, 6, 7],
        2,
        &mut generated,
    )
    .unwrap_err();
    assert_eq!(
        error,
        obadh_engine::generator_outputs::AutosuggestGeneratorHandoffError::InvalidBuffer {
            field: "model_scores",
            expected: 3,
            actual: 2,
        }
    );
}

#[test]
fn session_scorer_inputs_fill_caller_buffers_without_touching_session() {
    let lm = base_fixture();
    let mut session = AutosuggestSession::with_personal_config(
        &lm,
        PersonalAutosuggestConfig {
            max_entries: 32,
            min_count: 2,
        },
        AutosuggestOptions { max_candidates: 4 },
    );
    for _ in 0..2 {
        session.clear_context();
        assert!(session.commit_token("আমি").unwrap());
        assert!(session.commit_token("খাই").unwrap());
    }
    session.clear_context();
    assert!(session.commit_token("আমি").unwrap());
    let before = session.candidate_ids().to_vec();

    let mut context_ids = [99u32; 4];
    let mut candidate_ids = [99u32; 6];
    let mut candidates = Vec::new();
    let metadata = session
        .rerank_u32_input_with_options_into(
            AutosuggestOptions { max_candidates: 4 },
            &mut context_ids,
            &mut candidate_ids,
            &mut candidates,
        )
        .unwrap();
    assert_eq!(context_ids, [PAD_ID, PAD_ID, PAD_ID, 3]);
    assert_eq!(metadata.candidate_count, candidates.len());
    assert_eq!(metadata.scorer_context_token_count, 1);
    for (i, c) in candidates.iter().enumerate() {
        assert_eq!(candidate_ids[i], c.token_id);
    }
    for id in &candidate_ids[candidates.len()..] {
        assert_eq!(*id, PAD_ID);
    }
    assert_eq!(session.candidate_ids(), &before[..]);

    let mut context_i32s = [99i32; 4];
    let mut candidate_i32s = [99i32; 6];
    let mut candidates_i32 = Vec::new();
    let metadata = session
        .rerank_coreml_input_with_options_into(
            AutosuggestOptions { max_candidates: 4 },
            &mut context_i32s,
            &mut candidate_i32s,
            &mut candidates_i32,
        )
        .unwrap();
    assert_eq!(context_i32s, [0, 0, 0, 3]);
    assert_eq!(candidates_i32, candidates);
    assert_eq!(metadata.candidate_count, candidates_i32.len());
    for (i, c) in candidates_i32.iter().enumerate() {
        assert_eq!(candidate_i32s[i], c.token_id as i32);
    }
}

#[test]
fn scorer_shape_checks_buffers_then_fills_inputs() {
    use_scorer_shape(base_fixture());
}

fn use_scorer_shape(lm: AutosuggestLm) {
    let shape = obadh_engine::scorer_inputs::AutosuggestScorerShape { context_window: 4, candidate_pool: 3 };
    let mut context = AutosuggestContext::new();
    lm.push_context_token(&mut context, "আমি").unwrap();

    let mut candidates = Vec::new();
    let mut short_context = [0u32; 3];
    let mut candidate_ids = [0u32; 3];
    let error = shape
        .u32_inputs_for_context_into(&lm, context, &mut short_context, &mut candidate_ids, &mut candidates)
        .unwrap_err();
    assert_eq!(
        error,
        obadh_engine::scorer_inputs::AutosuggestScorerHandoffError::InvalidBuffer {
            field: "context_ids",
            expected: 4,
            actual: 3,
        }
    );
    let mut context_ids = [0u32; 4];
    let mut long_candidates = [0u32; 5];
    let error = shape
        .u32_inputs_for_context_into(&lm, context, &mut context_ids, &mut long_candidates, &mut candidates)
        .unwrap_err();
    assert_eq!(
        error,
        obadh_engine::scorer_inputs::AutosuggestScorerHandoffError::InvalidBuffer {
            field: "candidate_ids",
            expected: 3,
            actual: 5,
        }
    );

    let metadata = shape
        .u32_inputs_for_context_into(&lm, context, &mut context_ids, &mut candidate_ids, &mut candidates)
        .unwrap();
    assert_eq!(context_ids, [PAD_ID, PAD_ID, PAD_ID, 3]);
    assert_eq!(metadata.candidate_count, candidates.len());
    assert!(candidates.len() <= 3);
    for (i, c) in candidates.iter().enumerate() {
        assert_eq!(candidate_ids[i], c.token_id);
    }

    let mut context_i32s = [9i32; 4];
    let mut candidate_i32s = [9i32; 3];
    let mut candidates_i32 = Vec::new();
    shape
        .coreml_inputs_for_context_into(&lm, context, &mut context_i32s, &mut candidate_i32s, &mut candidates_i32)
        .unwrap();
    assert_eq!(context_i32s, [0, 0, 0, 3]);
    assert_eq!(candidates_i32, candidates);
}

#[test]
fn generator_shape_prepares_context_and_static_pool() {
    let lm = base_fixture();
    let mut context = AutosuggestContext::new();
    lm.push_context_token(&mut context, "আমি").unwrap();
    let with_pool = obadh_engine::generator_outputs::AutosuggestGeneratorShape {
        context_window: 4,
        top_k_output: 8,
        candidate_pool: Some(2),
    };
    let mut ids = [9u32; 4];
    assert_eq!(with_pool.u32_context_for_context_into(&lm, context, &mut ids).unwrap(), 1);
    assert_eq!(ids, [PAD_ID, PAD_ID, PAD_ID, 3]);
    let mut short = [9u32; 2];
    assert_eq!(
        with_pool.u32_context_for_context_into(&lm, context, &mut short).unwrap_err(),
        obadh_engine::generator_outputs::AutosuggestGeneratorHandoffError::InvalidBuffer {
            field: "context_ids",
            expected: 4,
            actual: 2,
        }
    );
    let mut i32s = [9i32; 4];
    assert_eq!(with_pool.coreml_context_for_context_into(&lm, context, &mut i32s).unwrap(), 1);
    assert_eq!(i32s, [0, 0, 0, 3]);

    let mut pool = Vec::new();
    with_pool.static_candidates_for_context_into(&lm, context, &mut pool).unwrap();
    assert_eq!(pool.len(), 2);
    let mut direct = Vec::new();
    lm.suggest_ids_for_context_into(context, AutosuggestOptions { max_candidates: 2 }, &mut direct).unwrap();
    assert_eq!(pool, direct);

    let without_pool = obadh_engine::generator_outputs::AutosuggestGeneratorShape { candidate_pool: None, ..with_pool };
    assert_eq!(
        without_pool.static_candidates_for_context_into(&lm, context, &mut pool).unwrap_err(),
        obadh_engine::generator_outputs::AutosuggestGeneratorHandoffError::MissingCandidatePool
    );
}

#[test]
fn generator_shape_filters_reserved_and_repeated_ids_by_rank() {
    let lm = base_fixture();
    let shape = obadh_engine::generator_outputs::AutosuggestGeneratorShape {
        context_window: 8,
        top_k_output: 8,
        candidate_pool: None,
    };
    let mut context = AutosuggestContext::new();
    lm.push_context_token(&mut context, "আমি").unwrap();
    lm.push_context_token(&mut context, "আজ").unwrap();
    let mut context_ids = vec![99_i32; 8];
    let context_len = shape.coreml_context_for_context_into(&lm, context, &mut context_ids).unwrap();
    assert_eq!(context_len, 2);
    assert_eq!(&context_ids[context_ids.len() - 2..], &[3_i32, 4_i32]);

    let mut generated = Vec::new();
    shape
        .generated_i32_candidates_into(&lm, &[7, 7, 2, 6, 5, 0, 1, 3], 8, &mut generated)
        .unwrap();
    assert_eq!(
        generated.iter().map(|c| (c.token_id, c.model_rank)).collect::<Vec<_>>(),
        vec![(7, 0), (6, 3), (5, 4), (3, 7)]
    );
}

#[test]
fn session_commit_advances_context_like_push_and_drops_cached_suggestions() {
    let lm = base_fixture();
    let mut session = AutosuggestSession::new(
        &lm,
        PersonalAutosuggest::new(PersonalAutosuggestConfig::default()),
        AutosuggestOptions { max_candidates: 3 },
    );
    session.suggest().unwrap();
    assert!(!session.candidates().is_empty());
    for raw in ["আমি", "অচেনা", "আজ,", "ভাত।", "  "] {
        let mut expected = session.context();
        lm.push_context_token(&mut expected, raw).unwrap();
        session.commit_token(raw).unwrap();
        assert_eq!(session.context(), expected);
        assert!(session.candidates().is_empty());
        assert!(session.candidate_ids().is_empty());
        assert!(session.personal_text_suggestions().is_empty());
    }
}

#[test]
fn blend_holds_min_of_limit_and_distinct_pool_ids() {
    let lm = base_fixture();
    let mut personal = PersonalAutosuggest::new(PersonalAutosuggestConfig::default());
    for _ in 0..3 {
        personal.observe_context_ids_target(&[3], 6);
        personal.observe_context_ids_target(&[], 4);
    }
    let mut context = AutosuggestContext::new();
    lm.push_context_token(&mut context, "আমি").unwrap();
    for limit in [1usize, 2, 3, 4, 5, 8, 20] {
        let mut personal_pool = Vec::new();
        let mut model_pool = Vec::new();
        let mut output = Vec::new();
        personal
            .suggest_ids_with_lm_into(
                &lm,
                context,
                AutosuggestOptions { max_candidates: limit },
                &mut personal_pool,
                &mut model_pool,
                &mut output,
            )
            .unwrap();
        let mut ids: Vec<u32> = personal_pool.iter().map(|s| s.token_id).collect();
        ids.extend(model_pool.iter().map(|c| c.token_id));
        ids.sort();
        ids.dedup();
        assert_eq!(output.len(), limit.min(ids.len()));
    }
}
