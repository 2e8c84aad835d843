use obadh_engine::open_vocab::{
    validate_open_vocab_word, AutosuggestOpenVocabRejectionKind, DEFAULT_AUTOSUGGEST_OPEN_VOCAB_MAX_SCALAR_RUN,
    DEFAULT_AUTOSUGGEST_OPEN_VOCAB_MAX_WORD_CHARS,
};

fn validate(word: &str) -> obadh_engine::open_vocab::AutosuggestOpenVocabValidationReport {
    validate_open_vocab_word(
        word,
        DEFAULT_AUTOSUGGEST_OPEN_VOCAB_MAX_WORD_CHARS,
        DEFAULT_AUTOSUGGEST_OPEN_VOCAB_MAX_SCALAR_RUN,
    )
}

#[test]
fn validator_accepts_valid_bengali_words_without_dictionary_lookup() {
    for word in ["গিয়েছিলাম", "রিয়াদ", "র\u{200c}্যাব", "করছিলাম"] {
        let report = validate(word);
        assert_eq!(report.rejection, None, "{word}");
        assert!(report.accepted, "{word}");
    }
}

#[test]
fn validator_rejects_non_word_and_malformed_output() {
    let cases = [
        ("", AutosuggestOpenVocabRejectionKind::Empty),
        (" hello", AutosuggestOpenVocabRejectionKind::LeadingOrTrailingWhitespace),
        ("hello", AutosuggestOpenVocabRejectionKind::ContainsNonBanglaScalar),
        ("বাংলা১", AutosuggestOpenVocabRejectionKind::ContainsDigit),
        ("বাংলা।", AutosuggestOpenVocabRejectionKind::ContainsPunctuation),
        ("াকা", AutosuggestOpenVocabRejectionKind::StartsWithMark),
        ("ক্", AutosuggestOpenVocabRejectionKind::EndsWithHasant),
        ("ক্া", AutosuggestOpenVocabRejectionKind::MarkAfterHasant),
        ("কককক", AutosuggestOpenVocabRejectionKind::RepeatedScalarRun),
    ];
    for (word, rejection) in cases {
        let report = validate(word);
        assert!(!report.accepted, "{word}");
        assert_eq!(report.rejection, Some(rejection), "{word}");
    }
}

#[test]
fn validator_reports_char_length_and_remaining_rejections() {
    let report = validate("করছিলাম");
    assert_eq!(report.char_len, 7);

    let long: String = "কখ".repeat(17);
    let report = validate(&long);
    assert_eq!(report.rejection, Some(AutosuggestOpenVocabRejectionKind::TooLong));
    assert_eq!(report.char_len, 34);

    assert_eq!(
        validate("ক খ").rejection,
        Some(AutosuggestOpenVocabRejectionKind::ContainsWhitespace)
    );
    assert_eq!(
        validate("ক্্ক").rejection,
        Some(AutosuggestOpenVocabRejectionKind::ConsecutiveHasant)
    );
    assert_eq!(
        validate("\u{200c}ক").rejection,
        Some(AutosuggestOpenVocabRejectionKind::InvalidZwnj)
    );
    assert_eq!(
        validate("ক\u{200c}\u{200c}খ").rejection,
        Some(AutosuggestOpenVocabRejectionKind::InvalidZwnj)
    );
    assert_eq!(
        validate("ক\u{200c}").rejection,
        Some(AutosuggestOpenVocabRejectionKind::InvalidZwnj)
    );
    assert_eq!(
        validate("ককক").rejection,
        None
    );
    assert_eq!(
        validate("ক\u{200c}া").rejection,
        None
    );
    assert_eq!(
        validate("কা৩").rejection,
        Some(AutosuggestOpenVocabRejectionKind::ContainsDigit)
    );
    assert_eq!(
        validate("কা!").rejection,
        Some(AutosuggestOpenVocabRejectionKind::ContainsPunctuation)
    );
}

#[test]
fn validator_caps_are_at_least_one() {
    // a cap of zero behaves as a cap of one
    assert_eq!(
        validate_open_vocab_word("কখ", 0, 3).rejection,
        Some(AutosuggestOpenVocabRejectionKind::TooLong)
    );
    assert_eq!(validate_open_vocab_word("ক", 0, 3).rejection, None);
    assert_eq!(
        validate_open_vocab_word("কক", 32, 0).rejection,
        Some(AutosuggestOpenVocabRejectionKind::RepeatedScalarRun)
    );
    assert_eq!(validate_open_vocab_word("কখ", 32, 0).rejection, None);
}
