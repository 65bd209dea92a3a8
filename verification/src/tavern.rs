//! Character cards carried in PNG images: chunk scanning with CRC checks, the
//! `chara` text chunk, and the carriage layers of its payload.

use vstd::prelude::*;

use crate::codec::{base64_bytes, base64_decode, crc32, crc32_ieee, sha256_digest, sha256_of, zlib_inflate, zlib_inflate_prefix};

verus! {

/// Largest card JSON accepted after all carriage layers are removed.
pub const MAX_TAVERN_CARD_BYTES: usize = 4194304;
/// Largest PNG accepted.
pub const MAX_PNG_BYTES: usize = 16777216;
/// Largest PNG chunk accepted.
pub const MAX_PNG_CHUNK_BYTES: usize = 8388608;
/// Media type of an extracted portrait.
pub const TAVERN_PNG_MEDIA_TYPE: &'static str = "image/png";

/// What is wrong with a PNG.
#[derive(Debug, Clone, Copy, PartialEq, Eq, Structural)]
pub enum PngProblem {
    InvalidSignature,
    TruncatedChunk,
    ChunkLengthOverflow,
    ChunkCrcOverflow,
    TruncatedChunkData,
    CrcMismatch,
    FirstChunkNotHeader,
    AmbiguousCardChunks,
    MisplacedEnd,
    MissingEnd,
    MalformedText,
    MalformedCompressedText,
    UnsupportedCompressedTextMethod,
    MalformedInternationalKeyword,
    TruncatedInternationalChunk,
    TruncatedInternationalFlags,
    UnsupportedInternationalCompression,
    MalformedInternationalText,
}

/// The description of a PNG problem.
pub open spec fn problem_text(p: PngProblem) -> Seq<char> {
    match p {
        PngProblem::InvalidSignature => "invalid PNG signature"@,
        PngProblem::TruncatedChunk => "truncated PNG chunk"@,
        PngProblem::ChunkLengthOverflow => "chunk length overflow"@,
        PngProblem::ChunkCrcOverflow => "chunk CRC overflow"@,
        PngProblem::TruncatedChunkData => "truncated PNG chunk data"@,
        PngProblem::CrcMismatch => "PNG chunk CRC mismatch"@,
        PngProblem::FirstChunkNotHeader => "first PNG chunk must be a 13-byte IHDR"@,
        PngProblem::AmbiguousCardChunks => "multiple Tavern `chara` metadata chunks are ambiguous"@,
        PngProblem::MisplacedEnd => "IEND must be empty and terminate the PNG"@,
        PngProblem::MissingEnd => "PNG is missing IEND"@,
        PngProblem::MalformedText => "malformed tEXt chunk"@,
        PngProblem::MalformedCompressedText => "malformed zTXt chunk"@,
        PngProblem::UnsupportedCompressedTextMethod => "unsupported zTXt compression method"@,
        PngProblem::MalformedInternationalKeyword => "malformed iTXt keyword"@,
        PngProblem::TruncatedInternationalChunk => "truncated iTXt chunk"@,
        PngProblem::TruncatedInternationalFlags => "truncated iTXt flags"@,
        PngProblem::UnsupportedInternationalCompression => "unsupported iTXt compression"@,
        PngProblem::MalformedInternationalText => "malformed iTXt text fields"@,
    }
}

impl PngProblem {
    /// The description of the problem.
    pub fn text(self) -> (r: &'static str)
        ensures
            r@ == problem_text(self),
    {
        match self {
            PngProblem::InvalidSignature => "invalid PNG signature",
            PngProblem::TruncatedChunk => "truncated PNG chunk",
            PngProblem::ChunkLengthOverflow => "chunk length overflow",
            PngProblem::ChunkCrcOverflow => "chunk CRC overflow",
            PngProblem::TruncatedChunkData => "truncated PNG chunk data",
            PngProblem::CrcMismatch => "PNG chunk CRC mismatch",
            PngProblem::FirstChunkNotHeader => "first PNG chunk must be a 13-byte IHDR",
            PngProblem::AmbiguousCardChunks => "multiple Tavern `chara` metadata chunks are ambiguous",
            PngProblem::MisplacedEnd => "IEND must be empty and terminate the PNG",
            PngProblem::MissingEnd => "PNG is missing IEND",
            PngProblem::MalformedText => "malformed tEXt chunk",
            PngProblem::MalformedCompressedText => "malformed zTXt chunk",
            PngProblem::UnsupportedCompressedTextMethod => "unsupported zTXt compression method",
            PngProblem::MalformedInternationalKeyword => "malformed iTXt keyword",
            PngProblem::TruncatedInternationalChunk => "truncated iTXt chunk",
            PngProblem::TruncatedInternationalFlags => "truncated iTXt flags",
            PngProblem::UnsupportedInternationalCompression => "unsupported iTXt compression",
            PngProblem::MalformedInternationalText => "malformed iTXt text fields",
        }
    }
}

/// Why a card could not be read from its carriage.
#[derive(Debug, Clone, Copy, PartialEq, Eq, Structural)]
pub enum CardError {
    /// Input exceeds the size bounds.
    InputTooLarge,
    /// The PNG is malformed.
    InvalidPng(PngProblem),
    /// The PNG has no `chara` chunk.
    MissingPngCardPayload,
    /// The payload is neither JSON, base64 JSON, nor base64 zlib JSON.
    InvalidMetadataPayload,
    /// A portrait reference does not identify the extracted artwork.
    PortraitAssetMismatch,
    /// A portrait was bound to a source without PNG artwork.
    MissingPngArtwork,
}

/// The PNG signature.
pub open spec fn png_signature() -> Seq<u8> {
    seq![0x89u8, 0x50u8, 0x4eu8, 0x47u8, 0x0du8, 0x0au8, 0x1au8, 0x0au8]
}

/// ASCII bytes of a text.
pub open spec fn ascii(s: Seq<char>) -> Seq<u8> {
    s.map_values(|c: char| c as u8)
}

/// White space as `u8::is_ascii_whitespace` defines it.
pub open spec fn ascii_ws(b: u8) -> bool {
    b == 0x20 || b == 0x09 || b == 0x0a || b == 0x0c || b == 0x0d
}

/// Leading ASCII white space removed.
pub open spec fn trim_ascii_start(s: Seq<u8>) -> Seq<u8>
    decreases s.len(),
{
    if s.len() > 0 && ascii_ws(s[0]) {
        trim_ascii_start(s.drop_first())
    } else {
        s
    }
}

/// Trailing ASCII white space removed.
pub open spec fn trim_ascii_end(s: Seq<u8>) -> Seq<u8>
    decreases s.len(),
{
    if s.len() > 0 && ascii_ws(s.last()) {
        trim_ascii_end(s.drop_last())
    } else {
        s
    }
}

/// Leading and trailing ASCII white space removed.
pub open spec fn trim_ascii(s: Seq<u8>) -> Seq<u8> {
    trim_ascii_end(trim_ascii_start(s))
}

fn is_ascii_ws(b: u8) -> (r: bool)
    ensures
        r == ascii_ws(b),
{
    b == 0x20 || b == 0x09 || b == 0x0a || b == 0x0c || b == 0x0d
}

/// Removes leading and trailing ASCII white space.
pub fn trim_ascii_bytes(bytes: &[u8]) -> (r: Vec<u8>)
    ensures
        r@ == trim_ascii(bytes@),
{
    let mut start: usize = 0;
    proof {
        assert(bytes@.skip(0) =~= bytes@);
    }
    while start < bytes.len() && is_ascii_ws(bytes[start])
        invariant
            start <= bytes@.len(),
            trim_ascii_start(bytes@) == trim_ascii_start(bytes@.skip(start as int)),
        decreases bytes@.len() - start,
    {
        proof {
            assert(bytes@.skip(start as int).drop_first() =~= bytes@.skip(start + 1));
        }
        start = start + 1;
    }
    let ghost front = bytes@.skip(start as int);
    assert(trim_ascii_start(bytes@) == front);
    let mut end: usize = bytes.len();
    while end > start && is_ascii_ws(bytes[end - 1])
        invariant
            start <= end <= bytes@.len(),
            front == bytes@.skip(start as int),
            trim_ascii_end(front) == trim_ascii_end(bytes@.subrange(start as int, end as int)),
        decreases end - start,
    {
        proof {
            assert(bytes@.subrange(start as int, end as int).drop_last() =~= bytes@.subrange(start as int, end - 1));
        }
        end = end - 1;
    }
    proof {
        assert(bytes@.subrange(start as int, bytes@.len() as int) =~= front);
    }
    let r = crate::text::sub_bytes(bytes, start, end);
    assert(trim_ascii_end(bytes@.subrange(start as int, end as int)) == bytes@.subrange(start as int, end as int));
    r
}

/// A JSON document no larger than the card bound.
pub open spec fn bounded(bytes: Seq<u8>) -> Result<Seq<u8>, CardError> {
    if bytes.len() > MAX_TAVERN_CARD_BYTES {
        Err(CardError::InputTooLarge)
    } else {
        Ok(bytes)
    }
}

fn bounded_json(bytes: &[u8]) -> (r: Result<Vec<u8>, CardError>)
    ensures
        match bounded(bytes@) {
            Ok(v) => r matches Ok(w) && w@ == v,
            Err(e) => r == Err::<Vec<u8>, CardError>(e),
        },
{
    if bytes.len() > MAX_TAVERN_CARD_BYTES {
        return Err(CardError::InputTooLarge);
    }
    Ok(crate::text::sub_bytes(bytes, 0, bytes.len()))
}

/// zlib data inflated, to at most the card bound.
pub open spec fn inflated(bytes: Seq<u8>) -> Result<Seq<u8>, CardError> {
    match zlib_inflate_prefix(bytes, (MAX_TAVERN_CARD_BYTES + 1) as u64) {
        None => Err(CardError::InvalidMetadataPayload),
        Some(out) => if out.len() > MAX_TAVERN_CARD_BYTES {
            Err(CardError::InputTooLarge)
        } else {
            Ok(out)
        },
    }
}

fn decompress_bounded(bytes: &[u8]) -> (r: Result<Vec<u8>, CardError>)
    ensures
        match inflated(bytes@) {
            Ok(v) => r matches Ok(w) && w@ == v,
            Err(e) => r == Err::<Vec<u8>, CardError>(e),
        },
{
    match zlib_inflate(bytes, (MAX_TAVERN_CARD_BYTES + 1) as u64) {
        None => Err(CardError::InvalidMetadataPayload),
        Some(out) => {
            if out.len() > MAX_TAVERN_CARD_BYTES {
                Err(CardError::InputTooLarge)
            } else {
                Ok(out)
            }
        },
    }
}

/// The card JSON a `chara` payload carries: raw JSON, base64 of JSON, or base64
/// of zlib-compressed JSON.
pub open spec fn metadata_json(payload: Seq<u8>) -> Result<Seq<u8>, CardError> {
    let t = trim_ascii(payload);
    if t.len() > 0 && t[0] == 0x7bu8 {
        bounded(t)
    } else {
        match base64_bytes(t) {
            None => Err(CardError::InvalidMetadataPayload),
            Some(d) => if trim_ascii(d).len() > 0 && trim_ascii(d)[0] == 0x7bu8 {
                bounded(d)
            } else {
                match inflated(d) {
                    Ok(j) => bounded(j),
                    Err(e) => Err(e),
                }
            },
        }
    }
}

/// Decodes a `chara` payload into card JSON.
pub fn decode_metadata_payload(payload: &[u8]) -> (r: Result<Vec<u8>, CardError>)
    ensures
        match metadata_json(payload@) {
            Ok(v) => r matches Ok(w) && w@ == v,
            Err(e) => r == Err::<Vec<u8>, CardError>(e),
        },
{
    let t = trim_ascii_bytes(payload);
    if t.len() > 0 && t[0] == 0x7b {
        return bounded_json(t.as_slice());
    }
    let decoded = match base64_decode(t.as_slice()) {
        None => {
            return Err(CardError::InvalidMetadataPayload);
        },
        Some(d) => d,
    };
    let td = trim_ascii_bytes(decoded.as_slice());
    if td.len() > 0 && td[0] == 0x7b {
        return bounded_json(decoded.as_slice());
    }
    let json = decompress_bounded(decoded.as_slice())?;
    bounded_json(json.as_slice())
}

/// Index of the first zero byte, or -1.
pub open spec fn first_nul(s: Seq<u8>) -> int
    decreases s.len(),
{
    if s.len() == 0 {
        -1
    } else if s[0] == 0 {
        0
    } else {
        let k = first_nul(s.drop_first());
        if k < 0 {
            -1
        } else {
            k + 1
        }
    }
}

proof fn lemma_first_nul(s: Seq<u8>)
    ensures
        -1 <= first_nul(s) < s.len(),
        first_nul(s) >= 0 ==> s[first_nul(s)] == 0,
        forall|i: int| 0 <= i < s.len() && (first_nul(s) < 0 || i < first_nul(s)) ==> s[i] != 0,
    decreases s.len(),
{
    if s.len() > 0 && s[0] != 0 {
        lemma_first_nul(s.drop_first());
        assert forall|i: int| 0 <= i < s.len() && (first_nul(s) < 0 || i < first_nul(s)) implies s[i] != 0 by {
            if i > 0 {
                assert(s[i] == s.drop_first()[i - 1]);
            }
        }
    }
}

fn find_nul(s: &[u8], from: usize) -> (r: Option<usize>)
    requires
        from <= s@.len(),
    ensures
        match r {
            Some(k) => from <= k < s@.len() && first_nul(s@.skip(from as int)) == k - from,
            None => first_nul(s@.skip(from as int)) < 0,
        },
{
    let mut k: usize = from;
    while k < s.len()
        invariant
            from <= k <= s@.len(),
            forall|i: int| from <= i < k ==> s@[i] != 0,
        decreases s@.len() - k,
    {
        if s[k] == 0 {
            proof {
                lemma_nul_at(s@.skip(from as int), k - from);
            }
            return Some(k);
        }
        k = k + 1;
    }
    proof {
        lemma_no_nul(s@.skip(from as int));
    }
    None
}

proof fn lemma_nul_at(s: Seq<u8>, k: int)
    requires
        0 <= k < s.len(),
        s[k] == 0,
        forall|i: int| 0 <= i < k ==> s[i] != 0,
    ensures
        first_nul(s) == k,
    decreases k,
{
    if k > 0 {
        lemma_nul_at(s.drop_first(), k - 1);
    }
}

proof fn lemma_no_nul(s: Seq<u8>)
    requires
        forall|i: int| 0 <= i < s.len() ==> s[i] != 0,
    ensures
        first_nul(s) < 0,
    decreases s.len(),
{
    if s.len() > 0 {
        lemma_no_nul(s.drop_first());
    }
}

/// The `chara` keyword.
pub open spec fn chara() -> Seq<u8> {
    seq![0x63u8, 0x68u8, 0x61u8, 0x72u8, 0x61u8]
}

/// Chunk type `tEXt`.
pub open spec fn type_text() -> Seq<u8> {
    seq![0x74u8, 0x45u8, 0x58u8, 0x74u8]
}

/// Chunk type `zTXt`.
pub open spec fn type_ztext() -> Seq<u8> {
    seq![0x7au8, 0x54u8, 0x58u8, 0x74u8]
}

/// Chunk type `iTXt`.
pub open spec fn type_itext() -> Seq<u8> {
    seq![0x69u8, 0x54u8, 0x58u8, 0x74u8]
}

/// Chunk type `IHDR`.
pub open spec fn type_header() -> Seq<u8> {
    seq![0x49u8, 0x48u8, 0x44u8, 0x52u8]
}

/// Chunk type `IEND`.
pub open spec fn type_end() -> Seq<u8> {
    seq![0x49u8, 0x45u8, 0x4eu8, 0x44u8]
}

/// The text after the first zero byte of an `iTXt` field list.
pub open spec fn after_nul(s: Seq<u8>) -> Result<Seq<u8>, CardError> {
    let k = first_nul(s);
    if k < 0 {
        Err(CardError::InvalidPng(PngProblem::MalformedInternationalText))
    } else {
        Ok(s.skip(k + 1))
    }
}

/// The `chara` payload a text chunk carries: none for other chunks and keywords.
pub open spec fn chunk_card(ty: Seq<u8>, data: Seq<u8>) -> Result<Option<Seq<u8>>, CardError> {
    let k = first_nul(data);
    if ty == type_text() {
        if k < 0 {
            Err(CardError::InvalidPng(PngProblem::MalformedText))
        } else if data.take(k) == chara() {
            Ok(Some(data.skip(k + 1)))
        } else {
            Ok(None)
        }
    } else if ty == type_ztext() {
        if k < 0 {
            Err(CardError::InvalidPng(PngProblem::MalformedCompressedText))
        } else if data.take(k) == chara() {
            if k + 1 >= data.len() || data[k + 1] != 0 {
                Err(CardError::InvalidPng(PngProblem::UnsupportedCompressedTextMethod))
            } else {
                match inflated(data.skip(k + 2)) {
                    Ok(v) => Ok(Some(v)),
                    Err(e) => Err(e),
                }
            }
        } else {
            Ok(None)
        }
    } else if ty == type_itext() {
        if k < 0 {
            Err(CardError::InvalidPng(PngProblem::MalformedInternationalKeyword))
        } else if data.take(k) != chara() {
            Ok(None)
        } else {
            let rest = data.skip(k + 1);
            if rest.len() < 2 {
                Err(CardError::InvalidPng(PngProblem::TruncatedInternationalFlags))
            } else if rest[1] != 0 || rest[0] > 1 {
                Err(CardError::InvalidPng(PngProblem::UnsupportedInternationalCompression))
            } else {
                match after_nul(rest.skip(2)) {
                    Err(e) => Err(e),
                    Ok(lang) => match after_nul(lang) {
                        Err(e) => Err(e),
                        Ok(text) => if rest[0] == 1 {
                            match inflated(text) {
                                Ok(v) => Ok(Some(v)),
                                Err(e) => Err(e),
                            }
                        } else {
                            Ok(Some(text))
                        },
                    },
                }
            }
        }
    } else {
        Ok(None)
    }
}

fn bytes_are(s: &[u8], from: usize, to: usize, expected: &[u8]) -> (r: bool)
    requires
        from <= to <= s@.len(),
    ensures
        r == (s@.subrange(from as int, to as int) == expected@),
{
    if to - from != expected.len() {
        proof {
            assert(s@.subrange(from as int, to as int).len() != expected@.len());
        }
        return false;
    }
    let mut i: usize = 0;
    while i < expected.len()
        invariant
            to - from == expected@.len(),
            from <= to <= s@.len(),
            i <= expected@.len(),
            forall|j: int| 0 <= j < i ==> s@[from + j] == expected@[j],
        decreases expected@.len() - i,
    {
        if s[from + i] != expected[i] {
            proof {
                assert(s@.subrange(from as int, to as int)[i as int] != expected@[i as int]);
            }
            return false;
        }
        i = i + 1;
    }
    proof {
        assert(s@.subrange(from as int, to as int) =~= expected@);
    }
    true
}

fn after_nul_from(s: &[u8], from: usize) -> (r: Result<usize, CardError>)
    requires
        from <= s@.len(),
    ensures
        match after_nul(s@.skip(from as int)) {
            Ok(t) => r matches Ok(k) && k <= s@.len() && s@.skip(k as int) == t,
            Err(e) => r == Err::<usize, CardError>(e),
        },
{
    match find_nul(s, from) {
        None => Err(CardError::InvalidPng(PngProblem::MalformedInternationalText)),
        Some(k) => {
            let n = s.len();
            assert(k < n);
            proof {
                assert(s@.skip(from as int).skip(k - from + 1) =~= s@.skip(k + 1));
            }
            Ok(k + 1)
        },
    }
}

/// The `chara` payload of a text chunk, if it is one.
pub fn text_chunk_payload(ty: &[u8], data: &[u8]) -> (r: Result<Option<Vec<u8>>, CardError>)
    ensures
        match chunk_card(ty@, data@) {
            Ok(None) => r matches Ok(None),
            Ok(Some(v)) => r matches Ok(Some(w)) && w@ == v,
            Err(e) => r == Err::<Option<Vec<u8>>, CardError>(e),
        },
{
    let text_type: [u8; 4] = [0x74, 0x45, 0x58, 0x74];
    let ztext_type: [u8; 4] = [0x7a, 0x54, 0x58, 0x74];
    let itext_type: [u8; 4] = [0x69, 0x54, 0x58, 0x74];
    let keyword: [u8; 5] = [0x63, 0x68, 0x61, 0x72, 0x61];
    proof {
        assert(text_type@ =~= type_text());
        assert(ztext_type@ =~= type_ztext());
        assert(itext_type@ =~= type_itext());
        assert(keyword@ =~= chara());
        assert(ty@.subrange(0, ty@.len() as int) =~= ty@);
    }
    let tl = ty.len();
    let is_text = bytes_are(ty, 0, tl, text_type.as_slice());
    let is_ztext = bytes_are(ty, 0, tl, ztext_type.as_slice());
    let is_itext = bytes_are(ty, 0, tl, itext_type.as_slice());
    if !is_text && !is_ztext && !is_itext {
        return Ok(None);
    }
    let k = match find_nul(data, 0) {
        None => {
            proof {
                assert(data@.skip(0) =~= data@);
            }
            if is_text {
                return Err(CardError::InvalidPng(PngProblem::MalformedText));
            } else if is_ztext {
                return Err(CardError::InvalidPng(PngProblem::MalformedCompressedText));
            } else {
                return Err(CardError::InvalidPng(PngProblem::MalformedInternationalKeyword));
            }
        },
        Some(k) => k,
    };
    proof {
        assert(data@.skip(0) =~= data@);
        assert(data@.subrange(0, k as int) =~= data@.take(k as int));
    }
    let named = bytes_are(data, 0, k, keyword.as_slice());
    if is_text {
        if named {
            return Ok(Some(crate::text::sub_bytes(data, k + 1, data.len())));
        }
        return Ok(None);
    }
    if is_ztext {
        if !named {
            return Ok(None);
        }
        if k + 1 >= data.len() || data[k + 1] != 0 {
            return Err(CardError::InvalidPng(PngProblem::UnsupportedCompressedTextMethod));
        }
        let rest = crate::text::sub_bytes(data, k + 2, data.len());
        proof {
            assert(rest@ =~= data@.skip(k + 2));
        }
        return match decompress_bounded(rest.as_slice()) {
            Ok(v) => Ok(Some(v)),
            Err(e) => Err(e),
        };
    }
    if !named {
        return Ok(None);
    }
    let rest_start = k + 1;
    let ghost rest = data@.skip(rest_start as int);
    if data.len() - rest_start < 2 {
        return Err(CardError::InvalidPng(PngProblem::TruncatedInternationalFlags));
    }
    let compressed = data[rest_start];
    assert(rest[0] == compressed && rest[1] == data@[rest_start + 1]);
    if data[rest_start + 1] != 0 || compressed > 1 {
        return Err(CardError::InvalidPng(PngProblem::UnsupportedInternationalCompression));
    }
    proof {
        assert(rest.skip(2) =~= data@.skip(rest_start + 2));
    }
    let lang_start = after_nul_from(data, rest_start + 2)?;
    proof {
        assert(data@.skip(lang_start as int) =~= data@.skip(lang_start as int));
    }
    let text_start = after_nul_from(data, lang_start)?;
    let text = crate::text::sub_bytes(data, text_start, data.len());
    proof {
        assert(text@ =~= data@.skip(text_start as int));
    }
    if compressed == 1 {
        match decompress_bounded(text.as_slice()) {
            Ok(v) => Ok(Some(v)),
            Err(e) => Err(e),
        }
    } else {
        Ok(Some(text))
    }
}

/// Big-endian value of four bytes at `at`.
pub open spec fn be32(b: Seq<u8>, at: int) -> int {
    b[at] * 16777216 + b[at + 1] * 65536 + b[at + 2] * 256 + b[at + 3]
}

/// The rest of a PNG scan from `cursor`: the `chara` payload found so far (or
/// later) and the artwork bytes with every chunk but the `chara` one; `first`
/// says whether the chunk at `cursor` is the first.
pub open spec fn png_scan(bytes: Seq<u8>, cursor: int, first: bool, payload: Option<Seq<u8>>, art: Seq<u8>) -> Result<(Option<Seq<u8>>, Seq<u8>), CardError>
    decreases bytes.len() - cursor,
{
    if cursor < 0 || cursor >= bytes.len() {
        Err(CardError::InvalidPng(PngProblem::MissingEnd))
    } else if bytes.len() - cursor < 12 {
        Err(CardError::InvalidPng(PngProblem::TruncatedChunk))
    } else {
        let length = be32(bytes, cursor);
        let data_start = cursor + 8;
        let data_end = data_start + length;
        let crc_end = data_end + 4;
        if length > MAX_PNG_CHUNK_BYTES {
            Err(CardError::InputTooLarge)
        } else if crc_end > bytes.len() {
            Err(CardError::InvalidPng(PngProblem::TruncatedChunkData))
        } else {
            let ty = bytes.subrange(cursor + 4, data_start);
            let data = bytes.subrange(data_start, data_end);
            if crc32_ieee(ty + data) != be32(bytes, data_end) {
                Err(CardError::InvalidPng(PngProblem::CrcMismatch))
            } else if first && (ty != type_header() || length != 13) {
                Err(CardError::InvalidPng(PngProblem::FirstChunkNotHeader))
            } else {
                match chunk_card(ty, data) {
                    Err(e) => Err(e),
                    Ok(card) => if card is Some && payload is Some {
                        Err(CardError::InvalidPng(PngProblem::AmbiguousCardChunks))
                    } else {
                        let payload2 = if card is Some { card } else { payload };
                        let art2 = if card is Some { art } else { art + bytes.subrange(cursor, crc_end) };
                        if ty == type_end() {
                            if length != 0 || crc_end != bytes.len() {
                                Err(CardError::InvalidPng(PngProblem::MisplacedEnd))
                            } else {
                                Ok((payload2, art2))
                            }
                        } else {
                            png_scan(bytes, crc_end, false, payload2, art2)
                        }
                    },
                }
            }
        }
    }
}

/// The card JSON and the artwork (the PNG without its `chara` chunk) that a PNG
/// card carries.
pub open spec fn png_card(bytes: Seq<u8>) -> Result<(Seq<u8>, Seq<u8>), CardError> {
    if bytes.len() > MAX_PNG_BYTES {
        Err(CardError::InputTooLarge)
    } else if bytes.len() < 8 || bytes.take(8) != png_signature() {
        Err(CardError::InvalidPng(PngProblem::InvalidSignature))
    } else {
        match png_scan(bytes, 8, true, None, png_signature()) {
            Err(e) => Err(e),
            Ok((None, _)) => Err(CardError::MissingPngCardPayload),
            Ok((Some(p), art)) => match metadata_json(p) {
                Ok(j) => Ok((j, art)),
                Err(e) => Err(e),
            },
        }
    }
}

/// Bytes `c..e` of `bytes` are one whole PNG text chunk (`tEXt`, `zTXt` or
/// `iTXt`) with keyword `chara`: length field, type, data starting with
/// `chara` and a zero byte, and CRC, its length field covering exactly its data.
pub open spec fn chara_chunk_at(bytes: Seq<u8>, c: int, e: int) -> bool {
    &&& 0 <= c
    &&& c + 14 <= e <= bytes.len()
    &&& e == c + 12 + be32(bytes, c)
    &&& {
        let ty = bytes.subrange(c + 4, c + 8);
        ty == type_text() || ty == type_ztext() || ty == type_itext()
    }
    &&& bytes.subrange(c + 8, c + 13) == chara()
    &&& bytes[c + 13] == 0
}

/// A chunk that carries a card is a text chunk whose keyword is `chara`.
proof fn lemma_chunk_card_keyword(ty: Seq<u8>, data: Seq<u8>)
    requires
        chunk_card(ty, data) matches Ok(Some(_)),
    ensures
        ty == type_text() || ty == type_ztext() || ty == type_itext(),
        data.len() >= 6,
        data.take(5) == chara(),
        data[5] == 0,
{
    lemma_first_nul(data);
    let k = first_nul(data);
    assert(data.take(k) == chara());
    assert(data.take(k).len() == 5);
}

/// What a scan from `cursor` adds to the artwork: everything after `cursor` where
/// the card was found before it; otherwise everything after `cursor` but one
/// whole `chara` text chunk, where the card is found.
proof fn lemma_png_scan_artwork(bytes: Seq<u8>, cursor: int, first: bool, payload: Option<Seq<u8>>, art: Seq<u8>)
    requires
        png_scan(bytes, cursor, first, payload, art) is Ok,
    ensures
        payload is Some ==> png_scan(bytes, cursor, first, payload, art)->Ok_0.1 == art + bytes.subrange(cursor, bytes.len() as int)
            && png_scan(bytes, cursor, first, payload, art)->Ok_0.0 == payload,
        payload is None && png_scan(bytes, cursor, first, payload, art)->Ok_0.0 is Some ==> exists|c: int, e: int|
            #![trigger chara_chunk_at(bytes, c, e)]
            chara_chunk_at(bytes, c, e) && cursor <= c && png_scan(bytes, cursor, first, payload, art)->Ok_0.1 == art
                + bytes.subrange(cursor, c) + bytes.subrange(e, bytes.len() as int) && Ok::<Option<Seq<u8>>, CardError>(
                png_scan(bytes, cursor, first, payload, art)->Ok_0.0,
            ) == chunk_card(bytes.subrange(c + 4, c + 8), bytes.subrange(c + 8, e - 4)),
    decreases bytes.len() - cursor,
{
    let length = be32(bytes, cursor);
    let data_start = cursor + 8;
    let data_end = data_start + length;
    let crc_end = data_end + 4;
    let ty = bytes.subrange(cursor + 4, data_start);
    let data = bytes.subrange(data_start, data_end);
    let card = chunk_card(ty, data)->Ok_0;
    let payload2 = if card is Some { card } else { payload };
    let art2 = if card is Some { art } else { art + bytes.subrange(cursor, crc_end) };
    let r = png_scan(bytes, cursor, first, payload, art)->Ok_0;
    if card is Some {
        lemma_chunk_card_keyword(ty, data);
        assert(type_end()[0] != type_text()[0] && type_end()[0] != type_ztext()[0] && type_end()[0] != type_itext()[0]);
        assert(ty != type_end());
        lemma_png_scan_artwork(bytes, crc_end, false, payload2, art2);
        assert(bytes.subrange(cursor + 8, cursor + 13) =~= data.take(5));
        assert(bytes[cursor + 13] == data[5]);
        assert(chara_chunk_at(bytes, cursor, crc_end));
        assert(r.1 =~= art + bytes.subrange(cursor, cursor) + bytes.subrange(crc_end, bytes.len() as int));
        assert(bytes.subrange(cursor + 4, cursor + 8) == ty);
        assert(bytes.subrange(cursor + 8, crc_end - 4) == data);
    } else if ty == type_end() {
        assert(crc_end == bytes.len());
        if payload is Some {
            assert(r.1 == art2);
        }
    } else {
        lemma_png_scan_artwork(bytes, crc_end, false, payload2, art2);
        if payload is Some {
            assert(r.1 =~= art + bytes.subrange(cursor, bytes.len() as int));
        } else if r.0 is Some {
            let (c, e) = choose|c: int, e: int| #![trigger chara_chunk_at(bytes, c, e)]
                chara_chunk_at(bytes, c, e) && crc_end <= c && r.1 == art2 + bytes.subrange(crc_end, c) + bytes.subrange(
                    e,
                    bytes.len() as int,
                ) && Ok::<Option<Seq<u8>>, CardError>(r.0) == chunk_card(bytes.subrange(c + 4, c + 8), bytes.subrange(c + 8, e - 4));
            assert(r.1 =~= art + bytes.subrange(cursor, c) + bytes.subrange(e, bytes.len() as int));
        }
    }
}

/// The artwork read from a PNG card is the input with exactly one chunk left
/// out, the `chara` text chunk: the signature and every other chunk, in input
/// order and byte for byte. Where that chunk is a plain `tEXt` chunk, the card
/// JSON is what its text after `chara` and the zero byte decodes to.
pub proof fn law_png_artwork_keeps_other_chunks(bytes: Seq<u8>)
    ensures
        png_card(bytes) is Ok ==> exists|c: int, e: int|
            #![trigger chara_chunk_at(bytes, c, e)]
            8 <= c && chara_chunk_at(bytes, c, e) && png_card(bytes)->Ok_0.1 == bytes.take(c) + bytes.skip(e) && (bytes.subrange(
                c + 4,
                c + 8,
            ) == type_text() ==> metadata_json(bytes.subrange(c + 14, e - 4)) == Ok::<Seq<u8>, CardError>(png_card(bytes)->Ok_0.0)),
{
    if png_card(bytes) is Ok {
        lemma_png_scan_artwork(bytes, 8, true, None, png_signature());
        let r = png_scan(bytes, 8, true, None, png_signature())->Ok_0;
        let (c, e) = choose|c: int, e: int| #![trigger chara_chunk_at(bytes, c, e)]
            chara_chunk_at(bytes, c, e) && 8 <= c && r.1 == png_signature() + bytes.subrange(8, c) + bytes.subrange(
                e,
                bytes.len() as int,
            ) && Ok::<Option<Seq<u8>>, CardError>(r.0) == chunk_card(bytes.subrange(c + 4, c + 8), bytes.subrange(c + 8, e - 4));
        assert(png_card(bytes)->Ok_0.1 == r.1);
        assert(r.1 =~= bytes.take(c) + bytes.skip(e));
        if bytes.subrange(c + 4, c + 8) == type_text() {
            let data = bytes.subrange(c + 8, e - 4);
            lemma_first_nul(data);
            assert(data[5] == 0);
            assert forall|i: int| 0 <= i < 5 implies data[i] != 0 by {
                assert(data[i] == chara()[i]);
            }
            assert(first_nul(data) == 5);
            assert(data.take(5) =~= chara());
            assert(data.skip(6) =~= bytes.subrange(c + 14, e - 4));
        }
    }
}

/// Plain-value view of optional bytes.
pub open spec fn bytes_view(o: Option<Vec<u8>>) -> Option<Seq<u8>> {
    match o {
        Some(p) => Some(p@),
        None => None,
    }
}

fn read_be32(b: &[u8], at: usize) -> (r: u64)
    requires
        at + 4 <= b@.len(),
    ensures
        r == be32(b@, at as int),
{
    (b[at] as u64) * 16777216 + (b[at + 1] as u64) * 65536 + (b[at + 2] as u64) * 256 + (b[at + 3] as u64)
}

/// Reads the card JSON and the artwork from a PNG card. Every chunk up to `IEND`
/// is CRC-checked; the first must be a 13-byte `IHDR`; exactly one `chara` text
/// chunk must be present and is left out of the artwork.
pub fn extract_png_chara_and_artwork(bytes: &[u8]) -> (r: Result<(Vec<u8>, Vec<u8>), CardError>)
    ensures
        match png_card(bytes@) {
            Ok((j, a)) => r matches Ok((w, x)) && w@ == j && x@ == a,
            Err(e) => r == Err::<(Vec<u8>, Vec<u8>), CardError>(e),
        },
{
    if bytes.len() > MAX_PNG_BYTES {
        return Err(CardError::InputTooLarge);
    }
    let signature: [u8; 8] = [0x89, 0x50, 0x4e, 0x47, 0x0d, 0x0a, 0x1a, 0x0a];
    let end_type: [u8; 4] = [0x49, 0x45, 0x4e, 0x44];
    let header_type: [u8; 4] = [0x49, 0x48, 0x44, 0x52];
    proof {
        assert(signature@ =~= png_signature());
        assert(end_type@ =~= type_end());
        assert(header_type@ =~= type_header());
    }
    if bytes.len() < 8 || !bytes_are(bytes, 0, 8, signature.as_slice()) {
        proof {
            if bytes@.len() >= 8 {
                assert(bytes@.subrange(0, 8) =~= bytes@.take(8));
            }
        }
        return Err(CardError::InvalidPng(PngProblem::InvalidSignature));
    }
    proof {
        assert(bytes@.subrange(0, 8) =~= bytes@.take(8));
    }
    let mut cursor: usize = 8;
    let mut first = true;
    let mut payload: Option<Vec<u8>> = None;
    let mut artwork: Vec<u8> = crate::text::sub_bytes(signature.as_slice(), 0, 8);
    proof {
        assert(signature@.subrange(0, 8) =~= signature@);
    }
    let ghost goal = png_scan(bytes@, 8, true, None, png_signature());
    loop
        invariant
            bytes@.len() <= MAX_PNG_BYTES,
            bytes@.len() >= 8,
            bytes@.take(8) == png_signature(),
            8 <= cursor <= bytes@.len(),
            end_type@ == type_end(),
            header_type@ == type_header(),
            goal == png_scan(bytes@, 8, true, None, png_signature()),
            goal == png_scan(bytes@, cursor as int, first, bytes_view(payload), artwork@),
        decreases bytes@.len() - cursor,
    {
        if cursor >= bytes.len() {
            return Err(CardError::InvalidPng(PngProblem::MissingEnd));
        }
        if bytes.len() - cursor < 12 {
            return Err(CardError::InvalidPng(PngProblem::TruncatedChunk));
        }
        let length = read_be32(bytes, cursor);
        if length > MAX_PNG_CHUNK_BYTES as u64 {
            return Err(CardError::InputTooLarge);
        }
        let length = length as usize;
        let data_start = cursor + 8;
        let data_end = data_start + length;
        let crc_end = data_end + 4;
        if crc_end > bytes.len() {
            return Err(CardError::InvalidPng(PngProblem::TruncatedChunkData));
        }
        let mut checked = crate::text::sub_bytes(bytes, cursor + 4, data_start);
        let data = crate::text::sub_bytes(bytes, data_start, data_end);
        let ty = crate::text::sub_bytes(bytes, cursor + 4, data_start);
        let mut d: usize = 0;
        while d < data.len()
            invariant
                d <= data@.len(),
                checked@ == ty@ + data@.take(d as int),
            decreases data@.len() - d,
        {
            checked.push(data[d]);
            proof {
                assert(data@.take(d + 1) =~= data@.take(d as int).push(data@[d as int]));
                assert(checked@ =~= ty@ + data@.take(d + 1));
            }
            d = d + 1;
        }
        proof {
            assert(data@.take(data@.len() as int) =~= data@);
        }
        if crc32(checked.as_slice()) as u64 != read_be32(bytes, data_end) {
            return Err(CardError::InvalidPng(PngProblem::CrcMismatch));
        }
        let is_header = bytes_are(ty.as_slice(), 0, 4, header_type.as_slice());
        proof {
            assert(ty@.subrange(0, 4) =~= ty@);
        }
        if first && (!is_header || length != 13) {
            return Err(CardError::InvalidPng(PngProblem::FirstChunkNotHeader));
        }
        let card = text_chunk_payload(ty.as_slice(), data.as_slice())?;
        let ghost art_before = artwork@;
        let found = card.is_some();
        if found {
            if payload.is_some() {
                return Err(CardError::InvalidPng(PngProblem::AmbiguousCardChunks));
            }
            payload = card;
        } else {
            let mut k: usize = cursor;
            while k < crc_end
                invariant
                    cursor <= k <= crc_end <= bytes@.len(),
                    artwork@ == art_before + bytes@.subrange(cursor as int, k as int),
                decreases crc_end - k,
            {
                artwork.push(bytes[k]);
                proof {
                    assert(bytes@.subrange(cursor as int, k + 1) =~= bytes@.subrange(cursor as int, k as int).push(bytes@[k as int]));
                    assert(artwork@ =~= art_before + bytes@.subrange(cursor as int, k + 1));
                }
                k = k + 1;
            }
        }
        let is_end = bytes_are(ty.as_slice(), 0, 4, end_type.as_slice());
        let ghost old_cursor = cursor;
        cursor = crc_end;
        first = false;
        if is_end {
            if length != 0 || cursor != bytes.len() {
                return Err(CardError::InvalidPng(PngProblem::MisplacedEnd));
            }
            return match payload {
                None => Err(CardError::MissingPngCardPayload),
                Some(p) => {
                    let json = decode_metadata_payload(p.as_slice())?;
                    Ok((json, artwork))
                },
            };
        }
    }
}

/// An immutable asset as the host's asset store identifies it.
#[derive(Debug)]
pub struct AssetRef {
    /// SHA-256 digest of the asset's bytes.
    pub digest: Vec<u8>,
    /// Size in bytes.
    pub size: u64,
    /// Media type.
    pub media_type: String,
}

/// Portrait artwork extracted from a PNG card: the PNG without its `chara` chunk.
#[derive(Debug)]
pub struct TavernV2Artwork {
    bytes: Vec<u8>,
}

impl View for TavernV2Artwork {
    type V = Seq<u8>;

    closed spec fn view(&self) -> Seq<u8> {
        self.bytes@
    }
}

/// `reference` identifies exactly the artwork bytes `art`: same SHA-256 digest,
/// same size, PNG media type.
pub open spec fn identifies(reference: AssetRef, art: Seq<u8>) -> bool {
    &&& reference.digest@ == sha256_of(art)
    &&& reference.size == art.len()
    &&& reference.media_type@ == TAVERN_PNG_MEDIA_TYPE@
}

impl TavernV2Artwork {
    /// The artwork's bytes.
    pub fn bytes(&self) -> (r: &[u8])
        ensures
            r@ == self@,
    {
        self.bytes.as_slice()
    }

    /// The artwork's media type.
    pub fn media_type(&self) -> (r: &'static str)
        ensures
            r@ == TAVERN_PNG_MEDIA_TYPE@,
    {
        TAVERN_PNG_MEDIA_TYPE
    }

    /// Whether `reference` identifies exactly these bytes.
    pub fn matches_reference(&self, reference: &AssetRef) -> (r: bool)
        ensures
            r == identifies(*reference, self@),
    {
        let n = self.bytes.len();
        if n as u64 != reference.size {
            return false;
        }
        let digest = sha256_digest(self.bytes.as_slice());
        let mut same = reference.digest.len() == 32;
        let mut i: usize = 0;
        while same && i < 32
            invariant
                i <= 32,
                digest@ == sha256_of(self.bytes@),
                digest@.len() == 32,
                same ==> reference.digest@.len() == 32,
                same ==> forall|k: int| 0 <= k < i ==> reference.digest@[k] == digest@[k],
                !same ==> reference.digest@ != digest@,
            decreases 32 - i,
        {
            if reference.digest[i] != digest[i] {
                same = false;
            }
            i = i + 1;
        }
        proof {
            if same {
                assert(reference.digest@ =~= digest@);
            }
        }
        same && crate::text::str_equal(reference.media_type.as_str(), TAVERN_PNG_MEDIA_TYPE)
    }
}

/// The card JSON and, for a PNG card, its artwork: a PNG is read with
/// `png_card`; anything else is taken as JSON within the size bound.
pub open spec fn card_carriage(bytes: Seq<u8>) -> Result<(Seq<u8>, Option<Seq<u8>>), CardError> {
    if bytes.len() >= 8 && bytes.take(8) == png_signature() {
        match png_card(bytes) {
            Ok((j, a)) => Ok((j, Some(a))),
            Err(e) => Err(e),
        }
    } else {
        match bounded(bytes) {
            Ok(j) => Ok((j, None)),
            Err(e) => Err(e),
        }
    }
}

/// Reads the card JSON and the artwork, if any, from an imported file.
pub fn read_card_carriage(bytes: &[u8]) -> (r: Result<(Vec<u8>, Option<TavernV2Artwork>), CardError>)
    ensures
        match card_carriage(bytes@) {
            Ok((j, a)) => r matches Ok((w, x)) && w@ == j && match a {
                Some(art) => x matches Some(y) && y@ == art,
                None => x is None,
            },
            Err(e) => r == Err::<(Vec<u8>, Option<TavernV2Artwork>), CardError>(e),
        },
{
    let signature: [u8; 8] = [0x89, 0x50, 0x4e, 0x47, 0x0d, 0x0a, 0x1a, 0x0a];
    proof {
        assert(signature@ =~= png_signature());
    }
    if bytes.len() >= 8 && bytes_are(bytes, 0, 8, signature.as_slice()) {
        proof {
            assert(bytes@.subrange(0, 8) =~= bytes@.take(8));
        }
        let (json, art) = extract_png_chara_and_artwork(bytes)?;
        return Ok((json, Some(TavernV2Artwork { bytes: art })));
    }
    proof {
        if bytes@.len() >= 8 {
            assert(bytes@.subrange(0, 8) =~= bytes@.take(8));
        }
    }
    let json = bounded_json(bytes)?;
    Ok((json, None))
}

/// Checks that `reference` may be bound as the portrait: there is artwork and
/// the reference identifies it.
pub fn check_portrait_binding(portrait: Option<&TavernV2Artwork>, reference: &AssetRef) -> (r: Result<(), CardError>)
    ensures
        match portrait {
            None => r == Err::<(), CardError>(CardError::MissingPngArtwork),
            Some(a) => if identifies(*reference, a@) {
                r is Ok
            } else {
                r == Err::<(), CardError>(CardError::PortraitAssetMismatch)
            },
        },
{
    match portrait {
        None => Err(CardError::MissingPngArtwork),
        Some(a) => {
            if a.matches_reference(reference) {
                Ok(())
            } else {
                Err(CardError::PortraitAssetMismatch)
            }
        },
    }
}

} // verus!
