//! The content reader: classifies a file's bytes as binary or text and
//! decodes text content.
//!
//! A file counts as binary when any of its first 1024 bytes is the null
//! byte. This is a heuristic, kept exactly as stated for compatibility:
//! a text file with an embedded null byte is classified binary, and a
//! binary file with a null-free first kilobyte is classified text.

use vstd::prelude::*;
use vstd::utf8::{
    char_is_scalar, char_u32_cast, decode_utf8, encode_scalar, encode_utf8,
    encode_utf8_decode_utf8, encode_utf8_valid_utf8, has_width_1_encoding, valid_utf8,
};

use crate::errors::FsError;

verus! {

/// How many leading bytes the binary-detection heuristic inspects.
pub const BINARY_CHECK_LIMIT: usize = 1024;

/// The text of a file together with its binary classification.
///
/// When `is_binary` is true the content is withheld: binary bytes are
/// never surfaced as text, so `content` is empty.
pub struct FileContent {
    pub content: String,
    pub is_binary: bool,
}

impl FileContent {
    /// The invariant of every value this library returns: a binary
    /// classification comes with empty content.
    pub open spec fn wf(self) -> bool {
        self.is_binary ==> self.content@.len() == 0
    }
}

/// True when the first 1024 bytes of `bytes` contain a null byte: the
/// binary-detection heuristic.
pub open spec fn has_null_prefix(bytes: Seq<u8>) -> bool {
    exists|i: int| 0 <= i < bytes.len() && i < BINARY_CHECK_LIMIT && bytes[i] == 0
}

/// What the safe read returns for a file holding `bytes`: the withheld
/// binary marker, the decoded text, or nothing when decoding must fail.
pub open spec fn safe_read_of(bytes: Seq<u8>) -> Option<(Seq<char>, bool)> {
    if has_null_prefix(bytes) {
        Some((Seq::empty(), true))
    } else if valid_utf8(bytes) {
        Some((decode_utf8(bytes), false))
    } else {
        None
    }
}

/// Relies on `String::from_utf8`: it returns `Ok` exactly when the bytes
/// are a valid UTF-8 encoding, and then the string holds their decoding.
#[verifier::external_body]
fn utf8_to_string(bytes: Vec<u8>) -> (r: Option<String>)
    ensures
        r is Some <==> valid_utf8(bytes@),
        r is Some ==> r->0@ == decode_utf8(bytes@),
{
    String::from_utf8(bytes).ok()
}

/// True when any of the first 1024 bytes is null: the binary-detection
/// decision, on however much of the file's head the caller has read
/// (up to 1024 bytes suffice).
pub fn null_in_prefix(bytes: &Vec<u8>) -> (r: bool)
    ensures
        r == has_null_prefix(bytes@),
{
    let mut i: usize = 0;
    let limit: usize = if bytes.len() < BINARY_CHECK_LIMIT {
        bytes.len()
    } else {
        BINARY_CHECK_LIMIT
    };
    while i < limit
        invariant
            0 <= i <= limit,
            limit <= bytes@.len(),
            limit == if bytes@.len() < BINARY_CHECK_LIMIT as int {
                bytes@.len() as int
            } else {
                BINARY_CHECK_LIMIT as int
            },
            forall|j: int| 0 <= j < i ==> bytes@[j] != 0,
        decreases limit - i,
    {
        if bytes[i] == 0 {
            return true;
        }
        i += 1;
    }
    false
}

/// The safe read: classify the given file bytes, and either withhold
/// binary content or decode the whole file as text.
///
/// Mirrors `safe_read_of` exactly: a null byte among the first 1024
/// yields the binary marker with empty content; otherwise the bytes are
/// decoded, and bytes that are not valid text are reported as a decode
/// error, never as a silently empty result.
pub fn read_file_safe_core(bytes: Vec<u8>) -> (r: Result<FileContent, FsError>)
    ensures
        r is Ok <==> safe_read_of(bytes@) is Some,
        r matches Ok(fc) ==> {
            &&& fc.wf()
            &&& Some((fc.content@, fc.is_binary)) == safe_read_of(bytes@)
        },
        r matches Err(e) ==> e is Decode,
{
    if null_in_prefix(&bytes) {
        Ok(FileContent { content: String::new(), is_binary: true })
    } else {
        match utf8_to_string(bytes) {
            Some(content) => Ok(FileContent { content, is_binary: false }),
            None => Err(FsError::Decode),
        }
    }
}

/// The raw read: decode the given file bytes as text without any binary
/// detection, for callers that already know the file is text.
pub fn read_file_core(bytes: Vec<u8>) -> (r: Result<String, FsError>)
    ensures
        r is Ok <==> valid_utf8(bytes@),
        r matches Ok(s) ==> s@ == decode_utf8(bytes@),
        r matches Err(e) ==> e is Decode,
{
    match utf8_to_string(bytes) {
        Some(content) => Ok(content),
        None => Err(FsError::Decode),
    }
}

/// The UTF-8 encoding of text without null characters contains no null
/// byte: the null byte encodes the null character alone, and every
/// other byte of a multi-byte encoding carries a set high bit.
proof fn lemma_encode_no_null(c: Seq<char>)
    requires
        forall|i: int| 0 <= i < c.len() ==> c[i] != '\0',
    ensures
        forall|i: int| 0 <= i < encode_utf8(c).len() ==> encode_utf8(c)[i] != 0,
    decreases c.len(),
{
    if c.len() > 0 {
        let s = c[0] as u32;
        char_is_scalar(c[0]);
        char_u32_cast(c[0], s);
        assert(s != 0) by {
            if s == 0 {
                char_u32_cast('\0', '\0' as u32);
                assert((s as char) == c[0]);
            }
        }
        let head = encode_scalar(s);
        assert forall|i: int| 0 <= i < head.len() implies head[i] != 0 by {
            if has_width_1_encoding(s) {
                assert(s <= 0x7F && s != 0 ==> ((s & 0x7F) as u8) != 0) by (bit_vector);
            } else {
                let b1 = ((s >> 6) & 0x1F) as u8;
                let b2 = ((s >> 12) & 0x0F) as u8;
                let b3 = ((s >> 18) & 0x7) as u8;
                let t1 = (s & 0x3F) as u8;
                let t2 = ((s >> 6) & 0x3F) as u8;
                let t3 = ((s >> 12) & 0x3F) as u8;
                assert((0xC0 | b1) != 0 && (0xE0 | b2) != 0 && (0xF0 | b3) != 0 && (0x80 | t1)
                    != 0 && (0x80 | t2) != 0 && (0x80 | t3) != 0) by (bit_vector);
            }
        }
        lemma_encode_no_null(c.drop_first());
        assert(encode_utf8(c) == head + encode_utf8(c.drop_first()));
        assert forall|i: int| 0 <= i < encode_utf8(c).len() implies encode_utf8(c)[i] != 0 by {
            if i < head.len() {
                assert(encode_utf8(c)[i] == head[i]);
            } else {
                assert(encode_utf8(c)[i] == encode_utf8(c.drop_first())[i - head.len()]);
            }
        }
    }
}

/// Law (round trip): content written by the writer and read back by the
/// safe reader comes back exactly. The writer stores the UTF-8 encoding
/// of its text; for any text without a null character, the safe read of
/// those bytes is the same text, classified as text, in full.
pub proof fn lemma_write_read_round_trip(c: Seq<char>)
    requires
        forall|i: int| 0 <= i < c.len() ==> c[i] != '\0',
    ensures
        safe_read_of(encode_utf8(c)) == Some((c, false)),
{
    encode_utf8_valid_utf8(c);
    encode_utf8_decode_utf8(c);
    lemma_encode_no_null(c);
    assert(!has_null_prefix(encode_utf8(c)));
}

} // verus!
