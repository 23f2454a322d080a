//! Message payloads as text: base64 with the standard alphabet and padding.
use base64::engine::general_purpose::STANDARD;
use base64::Engine;
use vstd::prelude::*;

verus! {

/// What `STANDARD.encode` returns for `payload`.
pub uninterp spec fn base64_text(payload: Seq<u8>) -> Seq<char>;

/// What `STANDARD.decode` returns for `text`: the bytes, or the error as it is displayed.
pub uninterp spec fn base64_payload(text: Seq<char>) -> Result<Seq<u8>, Seq<char>>;

/// The outcome of decoding that gives `payload`.
pub open spec fn decoded(payload: Seq<u8>) -> Result<Seq<u8>, Seq<char>> {
    Ok(payload)
}

/// The outcome of decoding that fails with the error that is displayed as `reason`.
pub open spec fn refused(reason: Seq<char>) -> Result<Seq<u8>, Seq<char>> {
    Err(reason)
}

/// The length of the text that stands for `len` bytes: four characters for every three bytes,
/// and four for what is left.
pub open spec fn base64_len(len: nat) -> nat {
    (len + 2) / 3 * 4
}

/// The length of the text that stands for `len` bytes, where a text can be that long.
pub fn encoded_len(len: usize) -> (res: Option<usize>)
    ensures
        res is Some <==> base64_len(len as nat) <= isize::MAX,
        res matches Some(n) ==> n == base64_len(len as nat),
        res matches Some(n) ==> n % 4 == 0 && n / 4 * 3 >= len && n / 4 * 3 < len + 3,
{
    let groups: usize = len / 3 + if len % 3 > 0 {
        1usize
    } else {
        0usize
    };
    assert(groups == (len + 2) / 3);
    if groups <= isize::MAX as usize / 4 {
        Some(groups * 4)
    } else {
        None
    }
}

/// Encodes bytes.
///
/// Calls `base64`'s `Engine::encode` on the `STANDARD` engine. The text depends on the bytes
/// alone, is padded to whole groups of four characters, and decodes to the bytes again. It has to
/// fit in memory: `encode` panics where its length overflows.
#[verifier::external_body]
pub(crate) fn encode(payload: &[u8]) -> (res: String)
    requires
        base64_len(payload@.len()) <= isize::MAX,
    ensures
        res@ == base64_text(payload@),
        res@.len() == base64_len(payload@.len()),
        base64_payload(res@) == decoded(payload@),
{
    STANDARD.encode(payload)
}

/// Decodes text.
///
/// Calls `base64`'s `Engine::decode` on the `STANDARD` engine and displays its error. The
/// outcome depends on the text alone. The engine takes canonical text only, so the bytes that
/// it returns encode to the same text again, and the text has the length that goes with them. No
/// `str` is longer than `isize::MAX` bytes, so that length can be encoded.
#[verifier::external_body]
pub(crate) fn decode(text: &str) -> (res: Result<Vec<u8>, String>)
    ensures
        match res {
            Ok(payload) => base64_payload(text@) == decoded(payload@),
            Err(reason) => base64_payload(text@) == refused(reason@),
        },
        res matches Ok(payload) ==> base64_text(payload@) == text@,
        res matches Ok(payload) ==> base64_len(payload@.len()) == text@.len() && base64_len(
            payload@.len(),
        ) <= isize::MAX,
{
    STANDARD.decode(text).map_err(|e| e.to_string())
}

/// Text for bytes comes in groups of four characters: one for every three bytes, and one more where
/// bytes are left over.
pub proof fn law_base64_len_by_groups(groups: nat, left: nat)
    requires
        left < 3,
    ensures
        base64_len(3 * groups) == 4 * groups,
        left > 0 ==> base64_len(3 * groups + left) == 4 * groups + 4,
{
}

/// What decoding gives is the bytes as they are, or the reason as it is.
pub proof fn law_outcomes_of_decoding(payload: Seq<u8>, reason: Seq<char>)
    ensures
        decoded(payload) matches Ok(same) && same == payload,
        refused(reason) matches Err(same) && same == reason,
{
}

} // verus!
