//! Next-word autosuggest runtime: a compact n-gram artifact reader with suffix
//! backoff, plus a bounded on-device personal overlay.

pub mod bytes;
pub mod artifact;
pub mod text;
pub mod context;
pub mod fnv;
pub mod candidate;
pub mod lm;
pub mod manifest_text;
pub mod asset_hash;
pub mod context_laws;
mod capacity;
pub mod personal_types;
pub mod personal_cache;
pub mod personal_context;
pub mod personal_text;
pub mod personal_query;
pub mod personal_maint;
pub mod personal_snapshot;
pub mod personal;
pub mod personal_laws;
pub mod personal_unigram;
pub mod open_vocab;
pub mod open_vocab_merge;
pub mod generator_manifest;
pub mod generator_merge;
pub mod generator_outputs;
pub mod scorer_inputs;
pub mod scorer_manifest;
pub mod merge;
pub mod session;
pub mod error_text;

pub use artifact::AutosuggestArtifactError;
pub use candidate::{
    AutosuggestCandidate, AutosuggestCandidateId, AutosuggestOptions, AutosuggestSource,
    DEFAULT_AUTOSUGGEST_CANDIDATES,
};
pub use context::{
    AutosuggestContext, AUTOSUGGEST_BOS_ID, AUTOSUGGEST_PAD_ID, AUTOSUGGEST_UNK_ID,
    MAX_AUTOSUGGEST_CONTEXT_TOKENS, MAX_AUTOSUGGEST_RERANK_CONTEXT_TOKENS,
};
pub use lm::{
    scorer_candidate_i32s_for_candidates_into, scorer_candidate_ids_for_candidates_into,
    AutosuggestCandidatePrior, AutosuggestContextPriorMetadata, AutosuggestContextPriorOptions,
    AutosuggestLm, AutosuggestMetadata, AutosuggestModelInfo, AutosuggestRerankInputMetadata,
    AutosuggestResult, AUTOSUGGEST_ARTIFACT_KIND, AUTOSUGGEST_BOS_I32, AUTOSUGGEST_PAD_I32,
    AUTOSUGGEST_UNK_I32,
};

pub use personal::PersonalAutosuggest;
pub use personal_context::PersonalAutosuggestContext;
pub use personal_snapshot::{PersonalAutosuggestError, PersonalAutosuggestSnapshotError};
pub use personal_types::{
    CommitStrength, PersonalAutosuggestConfig, PersonalAutosuggestSuggestion,
    PersonalAutosuggestTextSuggestion, DEFAULT_PERSONAL_AUTOSUGGEST_ENTRIES,
    DEFAULT_PERSONAL_AUTOSUGGEST_MIN_COUNT,
};
pub use session::AutosuggestSession;

use vstd::prelude::*;

verus! {

} // verus!
