use vstd::prelude::*;

verus! {

/// How the value of a variable is resolved on a read that asks for it.
#[derive(Debug, Clone, Copy, PartialEq, Eq, Structural)]
pub enum Resolution {
    /// Not a secret: the stored value is the value.
    Plain,
    /// A secret kept encrypted: the stored ciphertext is decrypted.
    EncryptedAtRest,
    /// A secret linked to an account whose token has expired: the value is a
    /// freshly refreshed token, whatever is stored.
    LiveCredential,
}

pub open spec fn resolution_spec(is_secret: bool, has_account: bool, token_expired: bool) -> Resolution {
    if !is_secret {
        Resolution::Plain
    } else if has_account && token_expired {
        Resolution::LiveCredential
    } else {
        Resolution::EncryptedAtRest
    }
}

/// Selects the resolution strategy of a variable from its secrecy, whether it
/// is linked to an account, and whether that account's token has expired.
#[verifier::when_used_as_spec(resolution_spec)]
pub fn resolution(is_secret: bool, has_account: bool, token_expired: bool) -> (r: Resolution)
    ensures
        r == resolution_spec(is_secret, has_account, token_expired),
{
    if !is_secret {
        Resolution::Plain
    } else if has_account && token_expired {
        Resolution::LiveCredential
    } else {
        Resolution::EncryptedAtRest
    }
}

/// A secret linked to an account with an expired token is always served by a
/// refreshed token, never by its stored ciphertext.
pub proof fn lemma_refresh_precedence(has_account: bool, token_expired: bool)
    ensures
        has_account && token_expired ==> resolution_spec(true, has_account, token_expired)
            == Resolution::LiveCredential,
        !(has_account && token_expired) ==> resolution_spec(true, has_account, token_expired)
            == Resolution::EncryptedAtRest,
{
}

} // verus!
