use vstd::prelude::*;

use rand::rngs::OsRng;
use rsa::pkcs1::{DecodeRsaPublicKey, EncodeRsaPublicKey, LineEnding};
use rsa::{Pkcs1v15Encrypt, RsaPrivateKey, RsaPublicKey};
use vstd::string::StringExecFns;

verus! {

/// The RSA private key type of the `rsa` crate, held opaquely.
#[verifier::external_type_specification]
#[verifier::external_body]
pub struct ExRsaPrivateKey(RsaPrivateKey);

/// The RSA public key type of the `rsa` crate, held opaquely.
#[verifier::external_type_specification]
#[verifier::external_body]
pub struct ExRsaPublicKey(RsaPublicKey);

/// The error type of the `rsa` crate, held opaquely.
#[verifier::external_type_specification]
#[verifier::external_body]
pub struct ExRsaError(rsa::Error);

/// The PKCS#1 encoding error type of the `rsa` crate, held opaquely.
#[verifier::external_type_specification]
#[verifier::external_body]
pub struct ExPkcs1Error(rsa::pkcs1::Error);

/// The plaintext that PKCS#1 v1.5 decryption with `key` gives of `ciphertext`, as the `rsa`
/// crate's `RsaPrivateKey::decrypt` computes it (without blinding, it depends on the key
/// and the ciphertext alone); `None` where it reports an error.
pub uninterp spec fn rsa_plaintext(key: RsaPrivateKey, ciphertext: Seq<u8>) -> Option<Seq<u8>>;

/// The public half of a private key, as `RsaPublicKey::from` takes it.
pub uninterp spec fn public_key_of(key: RsaPrivateKey) -> RsaPublicKey;

/// Number of bits of a public key's modulus (`n().bits()`).
pub uninterp spec fn modulus_bits(key: RsaPublicKey) -> nat;

/// The key was made by the crate's key generator (`RsaPrivateKey::new`): its factors were
/// drawn as primes, and it passed the crate's validation.
pub uninterp spec fn generated_key(key: RsaPrivateKey) -> bool;

/// The public key that `from_pkcs1_pem` reads from a text; `None` where it reports an error.
pub uninterp spec fn parsed_public_key(text: Seq<char>) -> Option<RsaPublicKey>;

/// Size, in bytes, of a public key's modulus: what `PublicKeyParts::size` computes.
pub open spec fn key_size(key: RsaPublicKey) -> int {
    ((modulus_bits(key) + 7) / 8) as int
}

/// `key` is the public half of a key made by the generator, of at most the 4096 bits that the
/// crate reads back from a PEM text.
pub open spec fn readable_generated_key(key: RsaPublicKey) -> bool {
    &&& exists|s: RsaPrivateKey| generated_key(s) && #[trigger] public_key_of(s) == key
    &&& modulus_bits(key) <= 4096
}

/// `text` gives `key` back when read as PKCS#1 PEM, if `key` is one the crate reads back.
pub open spec fn pem_reads_back(text: Seq<char>, key: RsaPublicKey) -> bool {
    readable_generated_key(key) ==> parsed_public_key(text) == Some(key)
}

/// `RsaPrivateKey::decrypt` with PKCS#1 v1.5 padding.
/// Trusted: it succeeds exactly where the name above gives a plaintext, and then returns it.
#[verifier::external_body]
fn rsa_decrypt_pkcs1v15(key: &RsaPrivateKey, ciphertext: &[u8]) -> (res: Result<Vec<u8>, rsa::Error>)
    ensures
        (res is Ok) == (rsa_plaintext(*key, ciphertext@) is Some),
        res matches Ok(p) ==> Some(p@) == rsa_plaintext(*key, ciphertext@),
{
    key.decrypt(Pkcs1v15Encrypt, ciphertext)
}

/// Bytes that PKCS#1 v1.5 encryption padding adds at least: the leading 0x00 0x02, eight
/// random non-zero bytes and the 0x00 before the message.
pub const PKCS1_PADDING_MIN: usize = 11;

/// `RsaPublicKey::encrypt` with PKCS#1 v1.5 padding and the operating system's random
/// source (`OsRng`).
/// Trusted:
/// - a ciphertext has the key's size, at least 11 bytes more than the message (the crate
///   refuses a longer message and pads the result to the key's size);
/// - for the public half of a generated key, it succeeds exactly when the message fits (the
///   generator's keys pass the crate's public key check, and RSA of a padded message below
///   the modulus cannot fail);
/// - a generated private key whose public half is `key` decrypts it back to the message
///   (RSA with a key whose factors passed the crate's primality test; that test is
///   probabilistic).
/// The ciphertext's bytes are left unsaid: the padding is random.
#[verifier::external_body]
fn rsa_encrypt_pkcs1v15(key: &RsaPublicKey, plaintext: &[u8]) -> (res: Result<Vec<u8>, rsa::Error>)
    ensures
        res matches Ok(c) ==> c@.len() == key_size(*key) && c@.len() >= plaintext@.len()
            + PKCS1_PADDING_MIN,
        forall|s: RsaPrivateKey|
            generated_key(s) && #[trigger] public_key_of(s) == *key ==> ((res is Ok) == (
            plaintext@.len() + PKCS1_PADDING_MIN <= key_size(*key))),
        res matches Ok(c) ==> forall|s: RsaPrivateKey|
            generated_key(s) && public_key_of(s) == *key ==> #[trigger] rsa_plaintext(s, c@)
                == Some(plaintext@),
{
    let mut rng = OsRng;
    key.encrypt(&mut rng, Pkcs1v15Encrypt, plaintext)
}

/// The words that every decryption failure's text starts with.
pub open spec fn failure_prefix() -> Seq<char> {
    "Failed to decrypt: "@
}

/// The `Display` text of an error of the `rsa` crate (`to_string`).
/// Trusted for nothing beyond its type: the error is an opaque value.
#[verifier::external_body]
fn error_text(e: &rsa::Error) -> String {
    e.to_string()
}

/// `EncodeRsaPublicKey::to_pkcs1_pem` with the default line ending.
/// Trusted: for the public half of a generated key of at most 4096 bits, writing succeeds
/// (the DER and PEM encoders fail only when a length overflows, which such a key's few
/// hundred bytes cannot make happen) and `from_pkcs1_pem` reads the key back from the text
/// (the PEM text holds the DER encoding of the modulus and the exponent; reading checks the
/// key as the generator's keys pass). The text itself is left unsaid: its line ending is the
/// target system's (CRLF on Windows, LF elsewhere).
#[verifier::external_body]
pub(crate) fn public_key_to_pem(key: &RsaPublicKey) -> (res: Result<String, rsa::pkcs1::Error>)
    ensures
        readable_generated_key(*key) ==> res is Ok,
        res matches Ok(t) ==> pem_reads_back(t@, *key),
{
    key.to_pkcs1_pem(LineEnding::default())
}

/// `DecodeRsaPublicKey::from_pkcs1_pem`.
/// Trusted: the result is the name above applied to the text.
#[verifier::external_body]
pub(crate) fn public_key_from_pem(text: &str) -> (res: Result<RsaPublicKey, rsa::pkcs1::Error>)
    ensures
        (res is Ok) == (parsed_public_key(text@) is Some),
        res matches Ok(k) ==> Some(k) == parsed_public_key(text@),
{
    RsaPublicKey::from_pkcs1_pem(text)
}

/// `RsaPrivateKey::new` with `rand::thread_rng()`: a fresh private key of the given size.
/// Trusted: a key it makes is a generated key whose modulus has exactly `bits` bits (the
/// generator draws primes until their product has that size). The key itself is random, and
/// whether it is made is left unsaid.
#[verifier::external_body]
fn new_private_key(bits: usize) -> (res: Result<RsaPrivateKey, rsa::Error>)
    ensures
        res matches Ok(k) ==> generated_key(k) && modulus_bits(public_key_of(k)) == bits,
{
    RsaPrivateKey::new(&mut rand::thread_rng(), bits)
}

/// `RsaPublicKey::from` a private key: the public half of the key.
/// Trusted: the result is the name above applied to the key.
#[verifier::external_body]
fn public_half(key: &RsaPrivateKey) -> (public_key: RsaPublicKey)
    ensures
        public_key == public_key_of(*key),
{
    RsaPublicKey::from(key)
}

/// Size, in bits, of the server's RSA key.
pub const SERVER_KEY_BITS: usize = 1024;

/// Makes the server's key pair: a fresh 1024-bit private key and its public half; the
/// error when the key could not be made.
pub fn generate_server_rsa_keypair() -> (res: Result<(RsaPrivateKey, RsaPublicKey), rsa::Error>)
    ensures
        res matches Ok((private_key, public_key)) ==> generated_key(private_key) && public_key
            == public_key_of(private_key) && modulus_bits(public_key) == SERVER_KEY_BITS,
{
    let private_key = new_private_key(SERVER_KEY_BITS)?;
    let public_key = public_half(&private_key);
    Ok((private_key, public_key))
}

/// Decrypts a PKCS#1 v1.5 ciphertext with the server's private key; a failure is reported
/// as "Failed to decrypt: " followed by the error's text.
pub fn decrypt_rsa(private_key: &RsaPrivateKey, ciphertext: &[u8]) -> (res: Result<Vec<u8>, String>)
    ensures
        (res is Ok) == (rsa_plaintext(*private_key, ciphertext@) is Some),
        res matches Ok(p) ==> Some(p@) == rsa_plaintext(*private_key, ciphertext@),
        res matches Err(text) ==> text@.len() >= failure_prefix().len() && text@.subrange(
            0,
            failure_prefix().len() as int,
        ) == failure_prefix(),
{
    match rsa_decrypt_pkcs1v15(private_key, ciphertext) {
        Ok(plaintext) => Ok(plaintext),
        Err(e) => {
            let detail = error_text(&e);
            let text = String::from_str("Failed to decrypt: ").concat(detail.as_str());
            proof {
                reveal_strlit("Failed to decrypt: ");
                assert(text@.subrange(0, failure_prefix().len() as int) =~= failure_prefix());
            }
            Err(text)
        },
    }
}

/// `ciphertext` is an encryption of `message` for `key`: it has the key's size, at least 11
/// bytes more than the message, and every generated private key whose public half is `key`
/// decrypts it to the message.
pub open spec fn rsa_encrypts(key: RsaPublicKey, message: Seq<u8>, ciphertext: Seq<u8>) -> bool {
    &&& ciphertext.len() == key_size(key)
    &&& ciphertext.len() >= message.len() + PKCS1_PADDING_MIN
    &&& forall|s: RsaPrivateKey|
        generated_key(s) && public_key_of(s) == key ==> #[trigger] rsa_plaintext(s, ciphertext)
            == Some(message)
}

/// Encrypts a message for the holder of the private key that belongs to `public_key`, with
/// PKCS#1 v1.5 padding drawn from the operating system's random source. The ciphertext has
/// the key's size; for the public half of a generated key, encryption succeeds exactly when
/// the message is at most the key's size less 11 bytes, and the generated private key
/// decrypts the ciphertext back to the message.
pub fn encrypt_rsa(public_key: &RsaPublicKey, plaintext: &[u8]) -> (res: Result<Vec<u8>, rsa::Error>)
    ensures
        res matches Ok(c) ==> rsa_encrypts(*public_key, plaintext@, c@),
        forall|s: RsaPrivateKey|
            generated_key(s) && #[trigger] public_key_of(s) == *public_key ==> ((res is Ok) == (
            plaintext@.len() + PKCS1_PADDING_MIN <= key_size(*public_key))),
{
    rsa_encrypt_pkcs1v15(public_key, plaintext)
}

/// What `encrypt_rsa` makes for the public half of a generated key, `decrypt_rsa` with that
/// key turns back into the message (its result is `Ok` of the name's plaintext).
pub proof fn law_rsa_round_trip(private_key: RsaPrivateKey, message: Seq<u8>, ciphertext: Seq<u8>)
    requires
        generated_key(private_key),
        rsa_encrypts(public_key_of(private_key), message, ciphertext),
    ensures
        rsa_plaintext(private_key, ciphertext) == Some(message),
{
    assert(rsa_plaintext(private_key, ciphertext) == Some(message));
}

} // verus!
