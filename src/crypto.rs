use crate::errors::PasswordError;
use cbc::cipher::block_padding::Pkcs7;
use cbc::cipher::{BlockDecryptMut, BlockEncryptMut, KeyIvInit};
use rand_core::RngCore;
use vstd::prelude::*;
use vstd::utf8::encode_utf8;

verus! {

/// Length in bytes of a derived key.
pub const KEY_LEN: usize = 32;

/// Length in bytes of a vault salt.
pub const SALT_LEN: usize = 32;

/// Length in bytes of an initialization vector (one AES block).
pub const IV_LEN: usize = 16;

/// scrypt cost: log2 of the work factor N.
pub const SCRYPT_LOG_N: u8 = 12;

/// scrypt cost: block size r.
pub const SCRYPT_R: u32 = 8;

/// scrypt cost: parallelism p.
pub const SCRYPT_P: u32 = 1;

/// The scrypt output of `len` bytes for a password and a salt under cost parameters.
pub uninterp spec fn scrypt_of(password: Seq<u8>, salt: Seq<u8>, log_n: u8, r: u32, p: u32, len: nat) -> Seq<u8>;

/// The AES-256-CBC encryption, with PKCS#7 padding, of `data` under `key` and `iv`.
pub uninterp spec fn aes_cbc_encrypt_of(key: Seq<u8>, iv: Seq<u8>, data: Seq<u8>) -> Seq<u8>;

/// The AES-256-CBC decryption, with PKCS#7 unpadding, of `data` under `key` and `iv`;
/// `None` where the length or the padding is invalid.
pub uninterp spec fn aes_cbc_decrypt_of(key: Seq<u8>, iv: Seq<u8>, data: Seq<u8>) -> Option<Seq<u8>>;

/// The vault key of a passphrase and a salt: scrypt over the passphrase's UTF-8 bytes
/// with the vault's fixed cost parameters.
pub open spec fn derived_key(passphrase: Seq<char>, salt: Seq<u8>) -> Seq<u8> {
    scrypt_of(encode_utf8(passphrase), salt, SCRYPT_LOG_N, SCRYPT_R, SCRYPT_P, KEY_LEN as nat)
}

/// Length of the ciphertext for a plaintext of `n` bytes: PKCS#7 always adds 1 to 16 bytes.
pub open spec fn padded_len(n: nat) -> nat {
    (n / 16 + 1) * 16
}

/// Relies on `crypto::scrypt::scrypt` (rust-crypto) with `ScryptParams::new(log_n, r, p)`:
/// overwrites `output` with the scrypt key of `password` and `salt`, keeping its length.
/// The bounds exclude the parameters on which `ScryptParams::new` or `scrypt` assert.
#[verifier::external_body]
fn scrypt_fill(password: &[u8], salt: &[u8], log_n: u8, r: u32, p: u32, output: &mut Vec<u8>)
    requires
        1 <= log_n <= 20,
        1 <= r <= 64,
        1 <= p <= 64,
        (log_n as int) < r * 16,
        0 < old(output)@.len() <= 0xffff_ffff,
    ensures
        final(output)@ == scrypt_of(password@, salt@, log_n, r, p, old(output)@.len()),
        final(output)@.len() == old(output)@.len(),
{
    let params = crypto::scrypt::ScryptParams::new(log_n, r, p);
    crypto::scrypt::scrypt(password, salt, &params, output.as_mut_slice());
}

/// Relies on `cbc::Encryptor::<aes::Aes256>::encrypt_padded_vec_mut::<Pkcs7>`:
/// AES-256-CBC with PKCS#7 padding, whose output is the input padded to the next
/// whole block (a full block of padding where the input is already aligned).
#[verifier::external_body]
pub(crate) fn cbc_encrypt(key: &[u8], iv: &[u8], data: &[u8]) -> (r: Vec<u8>)
    requires
        key@.len() == 32,
        iv@.len() == 16,
    ensures
        r@ == aes_cbc_encrypt_of(key@, iv@, data@),
        r@.len() == padded_len(data@.len()),
{
    let enc = cbc::Encryptor::<aes::Aes256>::new(key.into(), iv.into());
    enc.encrypt_padded_vec_mut::<Pkcs7>(data)
}

/// Relies on `cbc::Decryptor::<aes::Aes256>::decrypt_padded_vec_mut::<Pkcs7>`:
/// fails where the input is not a whole, non-zero number of blocks or the padding is
/// malformed (PKCS#7 checked strictly, so a plaintext it gives pads back to the same
/// last block), and undoes `encrypt_padded_vec_mut` under the same key and IV.
#[verifier::external_body]
fn cbc_decrypt(key: &[u8], iv: &[u8], data: &[u8]) -> (r: Option<Vec<u8>>)
    requires
        key@.len() == 32,
        iv@.len() == 16,
    ensures
        match r {
            Some(v) => aes_cbc_decrypt_of(key@, iv@, data@) == Some(v@),
            None => aes_cbc_decrypt_of(key@, iv@, data@) is None,
        },
        data@.len() % 16 != 0 ==> r is None,
        data@.len() < 16 ==> r is None,
        r matches Some(p) ==> aes_cbc_encrypt_of(key@, iv@, p@) == data@,
        forall|p: Seq<u8>|
            #[trigger] aes_cbc_encrypt_of(key@, iv@, p) == data@ ==> (r is Some && r->Some_0@
                == p),
{
    let dec = cbc::Decryptor::<aes::Aes256>::new(key.into(), iv.into());
    dec.decrypt_padded_vec_mut::<Pkcs7>(data).ok()
}

#[verifier::external_type_specification]
#[verifier::external_body]
pub struct ExRandError(rand_core::Error);

/// Relies on `rand_core::OsRng::try_fill_bytes`: overwrites the buffer with bytes from
/// the operating system's generator, or reports that it could not.
#[verifier::external_body]
fn os_fill_bytes(buf: &mut Vec<u8>) -> (r: Result<(), rand_core::Error>)
    ensures
        final(buf)@.len() == old(buf)@.len(),
{
    rand_core::OsRng.try_fill_bytes(buf.as_mut_slice())
}

/// A vector of `n` zero bytes.
fn zeroes(n: usize) -> (r: Vec<u8>)
    ensures
        r@ == Seq::new(n as nat, |i: int| 0u8),
{
    let mut r: Vec<u8> = Vec::with_capacity(n);
    let mut i: usize = 0;
    while i < n
        invariant
            i <= n,
            r@ == Seq::new(i as nat, |j: int| 0u8),
        decreases n - i,
    {
        r.push(0u8);
        i = i + 1;
        assert(r@ =~= Seq::new(i as nat, |j: int| 0u8));
    }
    r
}

/// `n` bytes from the operating system's generator, or `Io` where it fails.
fn random_bytes(n: usize) -> (r: Result<Vec<u8>, PasswordError>)
    ensures
        match r {
            Ok(v) => v@.len() == n,
            Err(e) => e == PasswordError::Io,
        },
{
    let mut buf = zeroes(n);
    match os_fill_bytes(&mut buf) {
        Ok(()) => Ok(buf),
        Err(_) => Err(PasswordError::Io),
    }
}

/// Encrypts `data` with AES-256-CBC and PKCS#7 padding. Fails with `EncryptionError`
/// exactly when the key is not 32 bytes or the IV not 16 bytes.
pub fn aes_encrypt(data: &[u8], key: &[u8], iv: &[u8]) -> (r: Result<Vec<u8>, PasswordError>)
    ensures
        key@.len() != KEY_LEN || iv@.len() != IV_LEN <==> r is Err,
        r matches Err(e) ==> e == PasswordError::EncryptionError,
        r matches Ok(c) ==> c@ == aes_cbc_encrypt_of(key@, iv@, data@) && c@.len() == padded_len(
            data@.len(),
        ),
{
    if key.len() != KEY_LEN || iv.len() != IV_LEN {
        return Err(PasswordError::EncryptionError);
    }
    Ok(cbc_encrypt(key, iv, data))
}

/// Decrypts AES-256-CBC ciphertext and strips its PKCS#7 padding. Fails with
/// `DecryptionError` where the key or IV has the wrong length, or the ciphertext
/// has a bad length or bad padding.
pub fn aes_decrypt(encrypted_data: &[u8], key: &[u8], iv: &[u8]) -> (r: Result<Vec<u8>, PasswordError>)
    ensures
        key@.len() != KEY_LEN || iv@.len() != IV_LEN ==> r == Err::<Vec<u8>, PasswordError>(
            PasswordError::DecryptionError,
        ),
        key@.len() == KEY_LEN && iv@.len() == IV_LEN ==> match r {
            Ok(p) => aes_cbc_decrypt_of(key@, iv@, encrypted_data@) == Some(p@),
            Err(e) => aes_cbc_decrypt_of(key@, iv@, encrypted_data@) is None && e
                == PasswordError::DecryptionError,
        },
        encrypted_data@.len() % 16 != 0 ==> r is Err,
        encrypted_data@.len() < 16 ==> r is Err,
        r matches Ok(p) ==> aes_cbc_encrypt_of(key@, iv@, p@) == encrypted_data@,
        key@.len() == KEY_LEN && iv@.len() == IV_LEN ==> forall|p: Seq<u8>|
            #[trigger] aes_cbc_encrypt_of(key@, iv@, p) == encrypted_data@ ==> (r is Ok
                && r->Ok_0@ == p),
{
    if key.len() != KEY_LEN || iv.len() != IV_LEN {
        return Err(PasswordError::DecryptionError);
    }
    match cbc_decrypt(key, iv, encrypted_data) {
        Some(p) => Ok(p),
        None => Err(PasswordError::DecryptionError),
    }
}

/// Derives the 32-byte vault key from a passphrase and a salt with scrypt
/// (N = 2^12, r = 8, p = 1).
pub fn generate_encryption_key(master_password: &str, salt: &[u8]) -> (r: Vec<u8>)
    ensures
        r@ == derived_key(master_password@, salt@),
        r@.len() == KEY_LEN,
{
    let mut output = zeroes(KEY_LEN);
    let pw = master_password.as_bytes();
    scrypt_fill(pw, salt, SCRYPT_LOG_N, SCRYPT_R, SCRYPT_P, &mut output);
    output
}

/// A fresh random 16-byte initialization vector.
pub fn generate_random_iv() -> (r: Result<Vec<u8>, PasswordError>)
    ensures
        match r {
            Ok(v) => v@.len() == IV_LEN,
            Err(e) => e == PasswordError::Io,
        },
{
    random_bytes(IV_LEN)
}

/// A fresh random 32-byte salt.
pub fn generate_random_salt() -> (r: Result<Vec<u8>, PasswordError>)
    ensures
        match r {
            Ok(v) => v@.len() == SALT_LEN,
            Err(e) => e == PasswordError::Io,
        },
{
    random_bytes(SALT_LEN)
}

} // verus!
