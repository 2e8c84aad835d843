use obadh_engine::personal_types::PersonalAutosuggestSuggestion;
use obadh_engine::{AutosuggestContext, PersonalAutosuggest, PersonalAutosuggestConfig};

fn store() -> PersonalAutosuggest {
    let mut personal = PersonalAutosuggest::new(PersonalAutosuggestConfig {
        max_entries: 32,
        min_count: 1,
    });
    for round in 0..3u32 {
        for target in 5..25u32 {
            if (target + round) % 3 != 0 {
                personal.observe_context_ids_target(&[], target);
                personal.observe_context_ids_target(&[7], target);
            }
        }
    }
    personal.observe_context_ids_target(&[7, 8], 9);
    personal
}

fn precedes(a: &PersonalAutosuggestSuggestion, b: &PersonalAutosuggestSuggestion) -> bool {
    (a.context_len, a.count, a.last_seen, std::cmp::Reverse(a.token_id))
        > (b.context_len, b.count, b.last_seen, std::cmp::Reverse(b.token_id))
}

#[test]
fn snapshot_length_matches_written_bytes_and_stays_within_cap() {
    let personal = store();
    let bytes = personal.to_compact_bytes();
    assert_eq!(personal.compact_snapshot_len(), bytes.len());
    assert!(bytes.len() <= personal.compact_snapshot_limit_bytes());
    assert_eq!(bytes.len(), 40 + 28 * personal.len());
}

#[test]
fn snapshot_round_trip_gives_back_every_entry() {
    let personal = store();
    let bytes = personal.to_compact_bytes();
    let loaded = PersonalAutosuggest::from_compact_bytes(personal.config(), &bytes).unwrap();
    assert_eq!(loaded.entries(), personal.entries());
    assert_eq!(loaded.model_fingerprint(), personal.model_fingerprint());
    assert_eq!(loaded.to_compact_bytes(), bytes);
}

#[test]
fn suggestions_are_distinct_learned_and_within_limit() {
    let personal = store();
    let mut context = AutosuggestContext::new();
    context.push_token_id(Some(7));
    for limit in [0usize, 1, 3, 8, 40] {
        let mut out = Vec::new();
        personal.suggest_token_ids_into(context, limit, &mut out);
        assert!(out.len() <= limit.max(1));
        for (i, a) in out.iter().enumerate() {
            assert!(a.count >= personal.config().min_count);
            assert!(personal.entries().iter().any(|e| e.target_id == a.token_id));
            for b in &out[i + 1..] {
                assert_ne!(a.token_id, b.token_id);
            }
        }
    }
}

#[test]
fn unigram_cache_is_bounded_ranked_and_learned() {
    let personal = store();
    let cache = personal.unigram_cache();
    assert!(!cache.is_empty());
    assert!(cache.len() <= obadh_engine::personal_types::PERSONAL_UNIGRAM_CACHE_LIMIT);
    for pair in cache.windows(2) {
        assert!(precedes(&pair[0], &pair[1]));
    }
    for s in cache {
        assert!(personal
            .entries()
            .iter()
            .any(|e| e.context.len == 0 && e.target_id == s.token_id && e.count == s.count));
    }
}

#[test]
fn suggestions_come_in_suggestion_order() {
    let personal = store();
    let mut context = AutosuggestContext::new();
    context.push_token_id(Some(7));
    context.push_token_id(Some(8));
    for limit in [1usize, 3, 8, 40] {
        let mut out = Vec::new();
        personal.suggest_token_ids_into(context, limit, &mut out);
        assert!(!out.is_empty());
        for pair in out.windows(2) {
            assert!(precedes(&pair[0], &pair[1]));
        }
    }
}

#[test]
fn snapshot_header_words_describe_the_store() {
    let personal = store();
    let bytes = personal.to_compact_bytes();
    let word = |o: usize| u32::from_le_bytes([bytes[o], bytes[o + 1], bytes[o + 2], bytes[o + 3]]);
    assert_eq!(&bytes[..16], b"OBPERSUGLM_V1\0\0\0");
    assert_eq!(word(16), 3);
    assert_eq!(word(24) as usize, personal.len());
    assert_eq!(word(28), personal.model_fingerprint());
    assert_eq!(word(32) as usize, personal.text_len());
    assert_eq!(word(36), 0);
}
