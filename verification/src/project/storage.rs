//! Content addressing of project records: SHA-256 digests and their lowercase hex names.
use crate::error::{ErrorCode, PicError};
use crate::text::{hex, lemma_hex_len, to_hex};
use sha2::{Digest, Sha256};
use vstd::prelude::*;
use vstd::utf8::encode_utf8;
use vstd::string::*;

verus! {

/// The SHA-256 digest of `data` (FIPS 180-4), as computed by the `sha2` crate.
pub uninterp spec fn sha256(data: Seq<u8>) -> [u8; 32];

/// `sha2::Sha256::digest`: the 32-byte SHA-256 digest of `bytes`.
#[verifier::external_body]
pub(crate) fn sha256_digest(bytes: &[u8]) -> (d: [u8; 32])
    ensures
        d == sha256(bytes@),
{
    Sha256::digest(bytes).into()
}

/// The 64-character lowercase hex name of the SHA-256 digest of `bytes`.
pub open spec fn digest_name(bytes: Seq<u8>) -> Seq<char> {
    hex(sha256(bytes)@)
}

/// Lowercase hex SHA-256 of `bytes`; the name under which records are stored.
pub fn hash(bytes: &[u8]) -> (name: String)
    ensures
        name@ == digest_name(bytes@),
        name@.len() == 64,
{
    let digest = sha256_digest(bytes);
    proof {
        lemma_hex_len(digest@);
    }
    to_hex(digest.as_slice())
}

pub open spec fn is_lower_hex_byte(b: u8) -> bool {
    (48u8 <= b <= 57u8) || (97u8 <= b <= 102u8)
}

/// A reference is exactly 64 lowercase hex digits, never a path.
pub open spec fn is_digest_text(bytes: Seq<u8>) -> bool {
    bytes.len() == 64 && forall|i: int| 0 <= i < 64 ==> is_lower_hex_byte(#[trigger] bytes[i])
}

/// Asset and commit references must be lowercase SHA-256 digests, never paths.
pub fn check_hash(value: &str) -> (r: Result<(), PicError>)
    ensures
        r is Ok <==> is_digest_text(value.spec_bytes()),
        r matches Err(e) ==> e.code == ErrorCode::UnsafePath,
{
    let bytes = value.as_bytes();
    let mut ok = bytes.len() == 64;
    if ok {
        let mut i: usize = 0;
        while i < bytes.len()
            invariant
                bytes@ == value.spec_bytes(),
                bytes@.len() == 64,
                i <= 64,
                ok == forall|j: int| 0 <= j < i ==> is_lower_hex_byte(#[trigger] bytes@[j]),
            decreases 64 - i,
        {
            let b = bytes[i];
            ok = ok && ((48u8 <= b && b <= 57u8) || (97u8 <= b && b <= 102u8));
            i += 1;
        }
    }
    if !ok {
        return Err(PicError::new(
            ErrorCode::UnsafePath,
            "asset/ops references must be lowercase SHA-256 digests, never paths",
        ));
    }
    Ok(())
}

/// Stored bytes must hash to the digest that names them.
pub fn verify(digest: &str, bytes: &[u8]) -> (r: Result<(), PicError>)
    ensures
        r is Ok <==> digest_name(bytes@) == digest@,
        r matches Err(e) ==> e.code == ErrorCode::IntegrityMismatch,
{
    if hash(bytes) != String::from_str(digest) {
        return Err(PicError::new(ErrorCode::IntegrityMismatch, "SHA-256 mismatch"));
    }
    Ok(())
}

/// The committed spelling of a resource operand: `asset:` followed by its digest.
pub open spec fn asset_prefix() -> Seq<char> {
    Seq::new(6, |i: int| asset_prefix_char(i))
}

pub open spec fn asset_prefix_char(i: int) -> char {
    if i == 0 { 'a' } else if i == 1 { 's' } else if i == 2 { 's' } else if i == 3 { 'e' }
    else if i == 4 { 't' } else { ':' }
}

pub open spec fn has_asset_prefix(text: Seq<char>) -> bool {
    text.len() >= 6 && text.take(6) == asset_prefix()
}

/// The digest named by a committed resource operand `asset:<sha256>`.
pub fn digest(source: &str) -> (r: Result<&str, PicError>)
    ensures
        r is Ok <==> has_asset_prefix(source@) && is_digest_text(encode_utf8(source@.skip(6))),
        r matches Ok(d) ==> d@ == source@.skip(6),
        r matches Err(e) ==> e.code == ErrorCode::UnsafePath,
{
    let n = source.unicode_len();
    let mut prefixed = n >= 6;
    if prefixed {
        let mut i: usize = 0;
        while i < 6
            invariant
                n == source@.len(),
                n >= 6,
                i <= 6,
                prefixed == forall|j: int| 0 <= j < i ==> source@[j] == #[trigger] asset_prefix()[j],
            decreases 6 - i,
        {
            let c = source.get_char(i);
            let expected = match i {
                0 => 'a',
                1 => 's',
                2 => 's',
                3 => 'e',
                4 => 't',
                _ => ':',
            };
            assert(asset_prefix()[i as int] == expected);
            prefixed = prefixed && c == expected;
            i += 1;
        }
        assert(prefixed ==> source@.take(6) =~= asset_prefix());
        assert(source@.take(6) == asset_prefix() ==> prefixed) by {
            if source@.take(6) == asset_prefix() {
                assert forall|j: int| 0 <= j < 6 implies source@[j] == #[trigger] asset_prefix()[j] by {
                    assert(source@.take(6)[j] == source@[j]);
                }
            }
        }
    }
    if !prefixed {
        return Err(PicError::new(
            ErrorCode::UnsafePath,
            "committed resource operands must be asset:<sha256>, never external paths",
        ));
    }
    let hash = source.substring_char(6, n);
    check_hash(hash)?;
    Ok(hash)
}

} // verus!
