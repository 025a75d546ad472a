use crate::error::Error;
use magic_crypt::MagicCryptTrait;
use vstd::prelude::*;

verus! {

/// The base64 ciphertext that magic_crypt's AES-256 cipher gives for a
/// plaintext under a key string.
pub uninterp spec fn sealed(key: Seq<char>, plaintext: Seq<char>) -> Seq<char>;

/// The plaintext that magic_crypt's AES-256 cipher reads out of a base64
/// ciphertext under a key string, if it reads one.
pub uninterp spec fn opened(key: Seq<char>, ciphertext: Seq<char>) -> Option<Seq<char>>;

/// A digit of the standard base64 alphabet.
pub open spec fn is_base64_digit(c: char) -> bool {
    ('A' <= c <= 'Z') || ('a' <= c <= 'z') || ('0' <= c <= '9') || c == '+' || c == '/'
}

/// Standard padded base64: groups of four characters, digits of the standard
/// alphabet except for one or two `=` of padding at the end.
pub open spec fn is_standard_base64(s: Seq<char>) -> bool {
    &&& s.len() % 4 == 0
    &&& forall|i: int|
        0 <= i < s.len() ==> is_base64_digit(#[trigger] s[i]) || (s[i] == '=' && i >= s.len() - 2)
    &&& s.len() >= 2 && s[s.len() - 2] == '=' ==> s[s.len() - 1] == '='
}

#[verifier::external_type_specification]
#[verifier::external_body]
pub struct ExMagicCryptError(magic_crypt::MagicCryptError);

/// Relies on magic_crypt's `MagicCrypt256::new(key, None)` and
/// `encrypt_str_to_base64`: AES-256-CBC under the SHA-256 digest of the key
/// with a zero IV, encoded in base64. The result depends on key and text
/// alone, and is never empty: the padded message takes at least one block.
/// The encoding is base64's `STANDARD` engine, which pads.
#[verifier::external_body]
fn seal(key: &str, plaintext: &str) -> (r: String)
    ensures
        r@ == sealed(key@, plaintext@),
        r@.len() > 0,
        is_standard_base64(r@),
{
    magic_crypt::MagicCrypt256::new(key, None::<String>).encrypt_str_to_base64(plaintext)
}

/// Relies on magic_crypt's `MagicCrypt256::new(key, None)` and
/// `decrypt_base64_to_string`: the inverse of `seal` under the same key, which
/// fails where the input is not base64, not a padded AES-256-CBC message under
/// that key, or not UTF-8.
#[verifier::external_body]
fn open(key: &str, ciphertext: &str) -> (r: Result<String, magic_crypt::MagicCryptError>)
    ensures
        r is Ok <==> opened(key@, ciphertext@) is Some,
        r is Ok ==> opened(key@, ciphertext@) == Some(r->Ok_0@),
        forall|p: Seq<char>| #[trigger] sealed(key@, p) == ciphertext@ ==> (r is Ok && r->Ok_0@ == p),
{
    magic_crypt::MagicCrypt256::new(key, None::<String>).decrypt_base64_to_string(ciphertext)
}

/// The key a workspace's secrets are encrypted under: the workspace's key
/// material, followed by the process-wide salt when one is configured.
pub open spec fn derived_key(material: Seq<char>, salt: Option<Seq<char>>) -> Seq<char> {
    match salt {
        Some(s) => material + s,
        None => material,
    }
}

/// The view of an optional string.
pub open spec fn opt_view(o: Option<String>) -> Option<Seq<char>> {
    match o {
        Some(s) => Some(s@),
        None => None,
    }
}

/// An encrypt/decrypt capability over strings, built from a derived key.
pub struct Cipher {
    pub key: String,
}

/// Builds the cipher of a workspace from its key material and the optional salt.
pub fn derive_cipher(material: &str, salt: &Option<String>) -> (r: Cipher)
    ensures
        r.key@ == derived_key(material@, opt_view(*salt)),
{
    let base = String::from_str(material);
    match salt {
        Some(s) => Cipher { key: base.concat(s.as_str()) },
        None => Cipher { key: base },
    }
}

/// Encrypts `value` into base64 ciphertext.
pub fn encrypt(mc: &Cipher, value: &str) -> (r: String)
    ensures
        r@ == sealed(mc.key@, value@),
        r@.len() > 0,
        is_standard_base64(r@),
{
    seal(mc.key.as_str(), value)
}

/// Decrypts base64 ciphertext; whatever the cipher produced under this key
/// from a plaintext decrypts back to that plaintext.
pub fn decrypt(mc: &Cipher, value: &str) -> (r: Result<String, Error>)
    ensures
        r is Ok <==> opened(mc.key@, value@) is Some,
        r is Ok ==> opened(mc.key@, value@) == Some(r->Ok_0@),
        r is Err ==> r->Err_0 is DecryptionError,
        forall|p: Seq<char>| #[trigger] sealed(mc.key@, p) == value@ ==> (r is Ok && r->Ok_0@ == p),
{
    match open(mc.key.as_str(), value) {
        Ok(s) => Ok(s),
        Err(_) => Err(Error::DecryptionError(String::from_str("the stored value cannot be decrypted"))),
    }
}

} // verus!
