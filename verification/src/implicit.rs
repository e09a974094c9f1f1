//! Recognition of implicit accounts: an account id that is itself the hex
//! encoding of a 32-byte ed25519 public key is materialized on first incoming
//! transfer. Decoding the id and rendering the key's textual form are done by
//! outside crates behind one trusted wrapper.
use vstd::prelude::*;

verus! {

/// Hexadecimal digits as `hex::decode` accepts them (both cases).
pub open spec fn is_hex_digit(c: char) -> bool {
    ('0' <= c && c <= '9') || ('a' <= c && c <= 'f') || ('A' <= c && c <= 'F')
}

/// An implicit-account id: exactly 64 hexadecimal characters, i.e. the hex
/// encoding of 32 bytes.
pub open spec fn is_implicit_account_id(s: Seq<char>) -> bool {
    s.len() == 64 && (forall|i: int| 0 <= i < s.len() ==> is_hex_digit(#[trigger] s[i]))
}

/// The textual form of the ed25519 public key whose hex encoding is the given
/// implicit-account id. The rendering (base58 behind a key-type prefix) is the
/// outside crate's; only that it is a function of the id alone is relied on.
pub uninterp spec fn implicit_key_text(s: Seq<char>) -> Seq<char>;

/// Relies on `hex::decode`, which succeeds exactly on even-length strings of
/// hexadecimal digits, on `near_crypto::ED25519PublicKey::try_from`, which
/// succeeds exactly on 32-byte slices, and on the `Display` form of
/// `near_crypto::PublicKey`, which depends on the key bytes alone.
#[verifier::external_body]
pub fn decode_implicit_key(receiver_id: &str) -> (r: Option<String>)
    ensures
        r is Some <==> is_implicit_account_id(receiver_id@),
        r is Some ==> r->Some_0@ == implicit_key_text(receiver_id@),
{
    if receiver_id.len() != 64 {
        return None;
    }
    let bytes = hex::decode(receiver_id).ok()?;
    let key = near_crypto::ED25519PublicKey::try_from(&bytes[..]).ok()?;
    Some(near_crypto::PublicKey::from(key).to_string())
}

} // verus!
