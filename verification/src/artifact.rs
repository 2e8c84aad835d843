//! The fixed-width binary n-gram artifact: header, section layout and the
//! checked readers over it.
//!
//! Layout (all integers little-endian `u32`):
//!
//! * bytes `0..16`: magic `OBAUTOSUGLM_V1\0\0`
//! * `16`: version (1: scored records, trigram context; 2: scored records and
//!   fourgram rows; 3: count-only records and fourgram rows)
//! * `20..48`: vocab size, token-index count, unigram count, bigram rows,
//!   trigram rows, candidate count, token byte length
//! * `48`: vocabulary fingerprint (0 = not recorded)
//! * `52` (versions 2 and 3): fourgram rows
//!
//! The sections follow the header in this order: id → token records (8 bytes),
//! sorted token index (12), unigram candidates, bigram rows (12), trigram rows
//! (16), fourgram rows (20), context candidates, token bytes. Candidate records
//! are 12 bytes (id, count, score) or, in version 3, 8 bytes (id, count).

use vstd::prelude::*;
use crate::bytes::{spec_u32_le, spec_i32_of, u32_le_at, i32_of_u32};

verus! {

pub const VERSION: u32 = 1;
pub const VERSION_V2: u32 = 2;
pub const VERSION_V3: u32 = 3;
pub const HEADER_LEN: usize = 52;
pub const HEADER_LEN_V2: usize = 56;
pub const ID_TOKEN_RECORD_LEN: usize = 8;
pub const TOKEN_INDEX_RECORD_LEN: usize = 12;
pub const CANDIDATE_RECORD_LEN: usize = 12;
pub const COUNT_CANDIDATE_RECORD_LEN: usize = 8;
pub const BIGRAM_ROW_LEN: usize = 12;
pub const TRIGRAM_ROW_LEN: usize = 16;
pub const FOURGRAM_ROW_LEN: usize = 20;

/// Errors raised while reading an autosuggest artifact or resolving token ids.
#[derive(Debug, Clone, Copy, PartialEq, Eq, Structural)]
pub enum AutosuggestArtifactError {
    UnexpectedEof,
    InvalidMagic,
    UnsupportedVersion(u32),
    InvalidSectionLayout,
    InvalidTokenId(u32),
    InvalidUtf8,
    ModelFingerprintMismatch { expected: u32, actual: u32 },
}

#[derive(Debug, Clone, Copy)]
pub struct Header {
    pub version: u32,
    pub vocab_size: u32,
    pub token_index_count: u32,
    pub unigram_count: u32,
    pub bigram_row_count: u32,
    pub trigram_row_count: u32,
    pub fourgram_row_count: u32,
    pub candidate_count: u32,
    pub token_bytes_len: u32,
    pub vocab_fingerprint: u32,
    pub candidate_record_len: u32,
}

#[derive(Debug, Clone, Copy)]
pub struct Sections {
    pub id_tokens: usize,
    pub token_index: usize,
    pub unigrams: usize,
    pub bigram_rows: usize,
    pub trigram_rows: usize,
    pub fourgram_rows: usize,
    pub candidates: usize,
    pub token_bytes: usize,
    pub end: usize,
}

#[derive(Debug, Clone, Copy)]
pub struct Layout {
    pub header: Header,
    pub sections: Sections,
}

/// The 16 magic bytes `OBAUTOSUGLM_V1\0\0`.
pub open spec fn spec_magic() -> Seq<u8> {
    seq![0x4fu8, 0x42, 0x41, 0x55, 0x54, 0x4f, 0x53, 0x55, 0x47, 0x4c, 0x4d, 0x5f, 0x56, 0x31, 0, 0]
}

pub open spec fn spec_header_len(version: u32) -> int {
    if version == VERSION {
        HEADER_LEN as int
    } else {
        HEADER_LEN_V2 as int
    }
}

pub open spec fn spec_record_len(version: u32) -> u32 {
    if version == VERSION_V3 {
        COUNT_CANDIDATE_RECORD_LEN as u32
    } else {
        CANDIDATE_RECORD_LEN as u32
    }
}

/// The header fields as stored; `version` selects the header length.
pub open spec fn spec_header(b: Seq<u8>, version: u32) -> Header {
    Header {
        version,
        vocab_size: spec_u32_le(b, 20),
        token_index_count: spec_u32_le(b, 24),
        unigram_count: spec_u32_le(b, 28),
        bigram_row_count: spec_u32_le(b, 32),
        trigram_row_count: spec_u32_le(b, 36),
        candidate_count: spec_u32_le(b, 40),
        token_bytes_len: spec_u32_le(b, 44),
        vocab_fingerprint: spec_u32_le(b, 48),
        fourgram_row_count: if version == VERSION {
            0
        } else {
            spec_u32_le(b, 52)
        },
        candidate_record_len: spec_record_len(version),
    }
}

/// The end of a section of `count` records of `record_len` bytes starting at
/// `offset`, or the error the reader reports.
pub open spec fn spec_advance(offset: int, count: int, record_len: int, total: int) -> Result<
    usize,
    AutosuggestArtifactError,
> {
    if count * record_len > usize::MAX {
        Err(AutosuggestArtifactError::InvalidSectionLayout)
    } else if offset + count * record_len > usize::MAX {
        Err(AutosuggestArtifactError::InvalidSectionLayout)
    } else if offset + count * record_len > total {
        Err(AutosuggestArtifactError::UnexpectedEof)
    } else {
        Ok((offset + count * record_len) as usize)
    }
}

/// Section offsets for a header, or the first error met while laying them out.
pub open spec fn spec_sections(h: Header, total: int) -> Result<Sections, AutosuggestArtifactError> {
    let id_tokens = spec_header_len(h.version);
    let rl = h.candidate_record_len as int;
    match spec_advance(id_tokens, h.vocab_size as int, ID_TOKEN_RECORD_LEN as int, total) {
        Err(e) => Err(e),
        Ok(token_index) => match spec_advance(
            token_index as int,
            h.token_index_count as int,
            TOKEN_INDEX_RECORD_LEN as int,
            total,
        ) {
            Err(e) => Err(e),
            Ok(unigrams) => match spec_advance(unigrams as int, h.unigram_count as int, rl, total) {
                Err(e) => Err(e),
                Ok(bigram_rows) => match spec_advance(
                    bigram_rows as int,
                    h.bigram_row_count as int,
                    BIGRAM_ROW_LEN as int,
                    total,
                ) {
                    Err(e) => Err(e),
                    Ok(trigram_rows) => match spec_advance(
                        trigram_rows as int,
                        h.trigram_row_count as int,
                        TRIGRAM_ROW_LEN as int,
                        total,
                    ) {
                        Err(e) => Err(e),
                        Ok(fourgram_rows) => match spec_advance(
                            fourgram_rows as int,
                            h.fourgram_row_count as int,
                            FOURGRAM_ROW_LEN as int,
                            total,
                        ) {
                            Err(e) => Err(e),
                            Ok(candidates) => match spec_advance(
                                candidates as int,
                                h.candidate_count as int,
                                rl,
                                total,
                            ) {
                                Err(e) => Err(e),
                                Ok(token_bytes) => match spec_advance(
                                    token_bytes as int,
                                    h.token_bytes_len as int,
                                    1,
                                    total,
                                ) {
                                    Err(e) => Err(e),
                                    Ok(end) => if end != total {
                                        Err(AutosuggestArtifactError::InvalidSectionLayout)
                                    } else {
                                        Ok(
                                            Sections {
                                                id_tokens: id_tokens as usize,
                                                token_index,
                                                unigrams,
                                                bigram_rows,
                                                trigram_rows,
                                                fourgram_rows,
                                                candidates,
                                                token_bytes,
                                                end,
                                            },
                                        )
                                    },
                                },
                            },
                        },
                    },
                },
            },
        },
    }
}

/// What the artifact reader makes of a byte blob: its layout, or the first
/// error found, in the order the checks are made.
pub open spec fn spec_parse_layout(b: Seq<u8>) -> Result<Layout, AutosuggestArtifactError> {
    if b.len() < HEADER_LEN {
        Err(AutosuggestArtifactError::UnexpectedEof)
    } else if b.subrange(0, 16) != spec_magic() {
        Err(AutosuggestArtifactError::InvalidMagic)
    } else if spec_u32_le(b, 16) != VERSION && spec_u32_le(b, 16) != VERSION_V2 && spec_u32_le(
        b,
        16,
    ) != VERSION_V3 {
        Err(AutosuggestArtifactError::UnsupportedVersion(spec_u32_le(b, 16)))
    } else if spec_u32_le(b, 16) != VERSION && b.len() < HEADER_LEN_V2 {
        Err(AutosuggestArtifactError::UnexpectedEof)
    } else {
        let h = spec_header(b, spec_u32_le(b, 16));
        if h.vocab_size == 0 || h.token_index_count != h.vocab_size {
            Err(AutosuggestArtifactError::InvalidSectionLayout)
        } else {
            match spec_sections(h, b.len() as int) {
                Err(e) => Err(e),
                Ok(s) => Ok(Layout { header: h, sections: s }),
            }
        }
    }
}

/// A layout that the reader accepted for a blob of `total` bytes: the
/// sections are in order, consistent with the header, and end at `total`.
pub open spec fn layout_consistent(l: Layout, total: int) -> bool {
    let h = l.header;
    let s = l.sections;
    let rl = h.candidate_record_len as int;
    &&& h.vocab_size > 0
    &&& h.token_index_count == h.vocab_size
    &&& (h.version == VERSION || h.version == VERSION_V2 || h.version == VERSION_V3)
    &&& rl == spec_record_len(h.version)
    &&& s.id_tokens == spec_header_len(h.version)
    &&& s.token_index == s.id_tokens + h.vocab_size * ID_TOKEN_RECORD_LEN
    &&& s.unigrams == s.token_index + h.token_index_count * TOKEN_INDEX_RECORD_LEN
    &&& s.bigram_rows == s.unigrams + h.unigram_count * rl
    &&& s.trigram_rows == s.bigram_rows + h.bigram_row_count * BIGRAM_ROW_LEN
    &&& s.fourgram_rows == s.trigram_rows + h.trigram_row_count * TRIGRAM_ROW_LEN
    &&& s.candidates == s.fourgram_rows + h.fourgram_row_count * FOURGRAM_ROW_LEN
    &&& s.token_bytes == s.candidates + h.candidate_count * rl
    &&& s.end == s.token_bytes + h.token_bytes_len
    &&& s.end == total
    &&& total <= usize::MAX
}

/// Every accepted layout is consistent with the blob it came from.
pub proof fn lemma_parsed_layout_consistent(b: Seq<u8>)
    requires
        spec_parse_layout(b) is Ok,
    ensures
        layout_consistent(spec_parse_layout(b)->Ok_0, b.len() as int),
{
}

fn has_magic(bytes: &[u8]) -> (r: bool)
    requires
        bytes@.len() >= 16,
    ensures
        r == (bytes@.subrange(0, 16) == spec_magic()),
{
    let r = bytes[0] == 0x4f && bytes[1] == 0x42 && bytes[2] == 0x41 && bytes[3] == 0x55
        && bytes[4] == 0x54 && bytes[5] == 0x4f && bytes[6] == 0x53 && bytes[7] == 0x55 && bytes[8]
        == 0x47 && bytes[9] == 0x4c && bytes[10] == 0x4d && bytes[11] == 0x5f && bytes[12] == 0x56
        && bytes[13] == 0x31 && bytes[14] == 0 && bytes[15] == 0;
    proof {
        if r {
            assert(bytes@.subrange(0, 16) =~= spec_magic());
        } else {
            if bytes@.subrange(0, 16) == spec_magic() {
                assert(bytes@.subrange(0, 16)[0] == bytes@[0]);
                assert(bytes@.subrange(0, 16)[1] == bytes@[1]);
                assert(bytes@.subrange(0, 16)[2] == bytes@[2]);
                assert(bytes@.subrange(0, 16)[3] == bytes@[3]);
                assert(bytes@.subrange(0, 16)[4] == bytes@[4]);
                assert(bytes@.subrange(0, 16)[5] == bytes@[5]);
                assert(bytes@.subrange(0, 16)[6] == bytes@[6]);
                assert(bytes@.subrange(0, 16)[7] == bytes@[7]);
                assert(bytes@.subrange(0, 16)[8] == bytes@[8]);
                assert(bytes@.subrange(0, 16)[9] == bytes@[9]);
                assert(bytes@.subrange(0, 16)[10] == bytes@[10]);
                assert(bytes@.subrange(0, 16)[11] == bytes@[11]);
                assert(bytes@.subrange(0, 16)[12] == bytes@[12]);
                assert(bytes@.subrange(0, 16)[13] == bytes@[13]);
                assert(bytes@.subrange(0, 16)[14] == bytes@[14]);
                assert(bytes@.subrange(0, 16)[15] == bytes@[15]);
            }
        }
    }
    r
}

/// Reads the little-endian word at `offset`, with the reader's error when the
/// offset overflows or the word runs past the end.
pub fn read_u32(bytes: &[u8], offset: usize) -> (r: Result<u32, AutosuggestArtifactError>)
    ensures
        offset + 4 > usize::MAX ==> r == Err::<u32, AutosuggestArtifactError>(
            AutosuggestArtifactError::InvalidSectionLayout,
        ),
        offset + 4 <= usize::MAX && offset + 4 > bytes@.len() ==> r == Err::<
            u32,
            AutosuggestArtifactError,
        >(AutosuggestArtifactError::UnexpectedEof),
        offset + 4 <= bytes@.len() ==> r == Ok::<u32, AutosuggestArtifactError>(
            spec_u32_le(bytes@, offset as int),
        ),
{
    let n = bytes.len();
    if offset > usize::MAX - 4 {
        return Err(AutosuggestArtifactError::InvalidSectionLayout);
    }
    if offset + 4 > bytes.len() {
        return Err(AutosuggestArtifactError::UnexpectedEof);
    }
    Ok(u32_le_at(bytes, offset))
}

/// Reads the signed little-endian word at `offset`, with the errors of
/// [`read_u32`].
pub fn read_i32(bytes: &[u8], offset: usize) -> (r: Result<i32, AutosuggestArtifactError>)
    ensures
        offset + 4 > usize::MAX ==> r == Err::<i32, AutosuggestArtifactError>(
            AutosuggestArtifactError::InvalidSectionLayout,
        ),
        offset + 4 <= usize::MAX && offset + 4 > bytes@.len() ==> r == Err::<
            i32,
            AutosuggestArtifactError,
        >(AutosuggestArtifactError::UnexpectedEof),
        offset + 4 <= bytes@.len() ==> r == Ok::<i32, AutosuggestArtifactError>(
            spec_i32_of(spec_u32_le(bytes@, offset as int)),
        ),
{
    match read_u32(bytes, offset) {
        Ok(v) => Ok(i32_of_u32(v)),
        Err(e) => Err(e),
    }
}

fn checked_advance(offset: usize, count: usize, record_len: usize, total_len: usize) -> (r: Result<
    usize,
    AutosuggestArtifactError,
>)
    ensures
        r == spec_advance(offset as int, count as int, record_len as int, total_len as int),
{
    if record_len != 0 && count > usize::MAX / record_len {
        proof {
            assert(count * record_len > usize::MAX) by (nonlinear_arith)
                requires
                    record_len != 0,
                    count > usize::MAX / record_len,
            ;
        }
        return Err(AutosuggestArtifactError::InvalidSectionLayout);
    }
    proof {
        if record_len != 0 {
            assert(count * record_len <= usize::MAX) by (nonlinear_arith)
                requires
                    record_len != 0,
                    count <= usize::MAX / record_len,
            ;
        }
    }
    let bytes = count * record_len;
    if offset > usize::MAX - bytes {
        return Err(AutosuggestArtifactError::InvalidSectionLayout);
    }
    let end = offset + bytes;
    if end > total_len {
        return Err(AutosuggestArtifactError::UnexpectedEof);
    }
    Ok(end)
}

/// Validates the header of an artifact and computes its section layout.
pub fn parse_layout(bytes: &[u8]) -> (r: Result<Layout, AutosuggestArtifactError>)
    ensures
        r == spec_parse_layout(bytes@),
{
    if bytes.len() < HEADER_LEN {
        return Err(AutosuggestArtifactError::UnexpectedEof);
    }
    if !has_magic(bytes) {
        return Err(AutosuggestArtifactError::InvalidMagic);
    }
    let version = u32_le_at(bytes, 16);
    if version != VERSION && version != VERSION_V2 && version != VERSION_V3 {
        return Err(AutosuggestArtifactError::UnsupportedVersion(version));
    }
    if version != VERSION && bytes.len() < HEADER_LEN_V2 {
        return Err(AutosuggestArtifactError::UnexpectedEof);
    }
    let header = Header {
        version,
        vocab_size: u32_le_at(bytes, 20),
        token_index_count: u32_le_at(bytes, 24),
        unigram_count: u32_le_at(bytes, 28),
        bigram_row_count: u32_le_at(bytes, 32),
        trigram_row_count: u32_le_at(bytes, 36),
        candidate_count: u32_le_at(bytes, 40),
        token_bytes_len: u32_le_at(bytes, 44),
        vocab_fingerprint: u32_le_at(bytes, 48),
        fourgram_row_count: if version == VERSION {
            0
        } else {
            u32_le_at(bytes, 52)
        },
        candidate_record_len: if version == VERSION_V3 {
            COUNT_CANDIDATE_RECORD_LEN as u32
        } else {
            CANDIDATE_RECORD_LEN as u32
        },
    };
    if header.vocab_size == 0 || header.token_index_count != header.vocab_size {
        return Err(AutosuggestArtifactError::InvalidSectionLayout);
    }
    let total = bytes.len();
    let rl = header.candidate_record_len as usize;
    let id_tokens = if version == VERSION {
        HEADER_LEN
    } else {
        HEADER_LEN_V2
    };
    let token_index = match checked_advance(
        id_tokens,
        header.vocab_size as usize,
        ID_TOKEN_RECORD_LEN,
        total,
    ) {
        Ok(v) => v,
        Err(e) => return Err(e),
    };
    let unigrams = match checked_advance(
        token_index,
        header.token_index_count as usize,
        TOKEN_INDEX_RECORD_LEN,
        total,
    ) {
        Ok(v) => v,
        Err(e) => return Err(e),
    };
    let bigram_rows = match checked_advance(unigrams, header.unigram_count as usize, rl, total) {
        Ok(v) => v,
        Err(e) => return Err(e),
    };
    let trigram_rows = match checked_advance(
        bigram_rows,
        header.bigram_row_count as usize,
        BIGRAM_ROW_LEN,
        total,
    ) {
        Ok(v) => v,
        Err(e) => return Err(e),
    };
    let fourgram_rows = match checked_advance(
        trigram_rows,
        header.trigram_row_count as usize,
        TRIGRAM_ROW_LEN,
        total,
    ) {
        Ok(v) => v,
        Err(e) => return Err(e),
    };
    let candidates = match checked_advance(
        fourgram_rows,
        header.fourgram_row_count as usize,
        FOURGRAM_ROW_LEN,
        total,
    ) {
        Ok(v) => v,
        Err(e) => return Err(e),
    };
    let token_bytes = match checked_advance(
        candidates,
        header.candidate_count as usize,
        rl,
        total,
    ) {
        Ok(v) => v,
        Err(e) => return Err(e),
    };
    let end = match checked_advance(token_bytes, header.token_bytes_len as usize, 1, total) {
        Ok(v) => v,
        Err(e) => return Err(e),
    };
    if end != total {
        return Err(AutosuggestArtifactError::InvalidSectionLayout);
    }
    Ok(
        Layout {
            header,
            sections: Sections {
                id_tokens,
                token_index,
                unigrams,
                bigram_rows,
                trigram_rows,
                fourgram_rows,
                candidates,
                token_bytes,
                end,
            },
        },
    )
}

} // verus!
