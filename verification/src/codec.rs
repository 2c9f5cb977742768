//! The export container codec: a self-describing binary envelope holding an
//! authenticated, password-encrypted payload.
//!
//! Layout: 4 magic bytes, 1 version byte, 16 salt bytes, 12 nonce bytes,
//! then the ciphertext with its 16-byte authentication tag. The key is
//! derived from the password and the salt by a memory-hard hash; the payload
//! is sealed by an authenticated cipher, so a successful decryption returns
//! the exact original plaintext and proves possession of the password.
use vstd::prelude::*;
use vstd::utf8::{decode_utf8, encode_utf8, valid_utf8};

use aes_gcm::aead::Aead;
use aes_gcm::KeyInit;

use crate::error::CoreError;

verus! {

/// The four magic bytes that open every container: `S`, `R`, `E`, `F`.
pub open spec fn magic_bytes() -> Seq<u8> {
    seq![0x53u8, 0x52u8, 0x45u8, 0x46u8]
}

/// The current container format version byte.
pub open spec fn version_byte() -> u8 {
    1
}

/// Largest plaintext the cipher accepts in one sealing (the GCM bound).
pub open spec fn max_plaintext_len() -> int {
    0x10_0000_0000
}

/// Largest password length, in bytes, that key derivation accepts.
pub open spec fn max_password_len() -> int {
    0xFFFF_FFFF
}

/// The container laid out from its three variable parts: magic and version,
/// then salt, nonce and the sealed payload.
pub open spec fn container_spec(salt: Seq<u8>, nonce: Seq<u8>, payload: Seq<u8>) -> Seq<u8> {
    magic_bytes() + seq![version_byte()] + salt + nonce + payload
}

/// True when the buffer opens with the container magic: such a file is
/// treated as an encrypted container, anything else as plaintext.
pub open spec fn is_container_spec(data: Seq<u8>) -> bool {
    data.len() >= 4 && data.subrange(0, 4) == magic_bytes()
}

/// True when the buffer is long enough for a header and an authentication
/// tag, opens with the magic, and carries the supported version byte.
pub open spec fn structurally_valid(data: Seq<u8>) -> bool {
    &&& data.len() >= 49
    &&& is_container_spec(data)
    &&& data[4] == version_byte()
}

/// The sixteen salt bytes embedded in a container.
pub open spec fn salt_of(data: Seq<u8>) -> Seq<u8> {
    data.subrange(5, 21)
}

/// The twelve nonce bytes embedded in a container.
pub open spec fn nonce_of(data: Seq<u8>) -> Seq<u8> {
    data.subrange(21, 33)
}

/// The sealed payload of a container: ciphertext plus tag.
pub open spec fn payload_of(data: Seq<u8>) -> Seq<u8> {
    data.subrange(33, data.len() as int)
}

/// What argon2id returns for a password and salt under this library's fixed
/// work factors: 65536 KiB of memory, 3 iterations, 1 lane, a 32-byte key.
pub uninterp spec fn argon2id_key(password: Seq<u8>, salt: Seq<u8>) -> Seq<u8>;

/// The AES-256-GCM sealing of a plaintext under a key and nonce: the
/// ciphertext followed by its 16-byte authentication tag.
pub uninterp spec fn gcm_seal(key: Seq<u8>, nonce: Seq<u8>, plaintext: Seq<u8>) -> Seq<u8>;

/// True when the container's payload is the sealing of plaintext `p` under
/// the key derived from `password` and the container's own salt and nonce.
pub open spec fn auth_matches(data: Seq<u8>, password: Seq<u8>, p: Seq<u8>) -> bool {
    payload_of(data) == gcm_seal(argon2id_key(password, salt_of(data)), nonce_of(data), p)
}

/// The error that `decrypt_data` owes for a given input, checked in order:
/// size, magic, version, password length, and last authentication.
pub open spec fn decrypt_error(data: Seq<u8>, password: Seq<u8>, e: CoreError) -> bool {
    if data.len() < 49 {
        e == CoreError::TooSmall
    } else if !is_container_spec(data) {
        e == CoreError::BadMagic
    } else if data[4] != version_byte() {
        e == CoreError::UnsupportedVersion(data[4])
    } else if password.len() > max_password_len() {
        e == CoreError::KeyDerivationFailed
    } else {
        e == CoreError::AuthenticationFailed
    }
}

/// Relies on `argon2::Argon2::hash_password_into` with `Algorithm::Argon2id`
/// and `Version::V0x13`: the result is a pure function of the password and
/// the salt once the work factors are fixed, and derivation succeeds for a
/// 16-byte salt, a password of at most 2^32 - 1 bytes, and a 32-byte output
/// buffer (`argon2-0.5.3/src/lib.rs`, `params.rs`: every validation there
/// passes for these arguments).
#[verifier::external_body]
fn argon2id_derive(password: &[u8], salt: &[u8], m_cost: u32, t_cost: u32, p_cost: u32) -> (r:
    Result<Vec<u8>, ()>)
    requires
        salt@.len() == 16,
        password@.len() <= max_password_len(),
        m_cost == 65536,
        t_cost == 3,
        p_cost == 1,
    ensures
        r is Ok,
        r matches Ok(k) ==> k@.len() == 32 && k@ == argon2id_key(password@, salt@),
{
    let params = match argon2::Params::new(m_cost, t_cost, p_cost, Some(32)) {
        Ok(p) => p,
        Err(_) => {
            return Err(());
        },
    };
    let hasher = argon2::Argon2::new(argon2::Algorithm::Argon2id, argon2::Version::V0x13, params);
    let mut key = [0u8; 32];
    match hasher.hash_password_into(password, salt, &mut key) {
        Ok(()) => Ok(key.to_vec()),
        Err(_) => Err(()),
    }
}

/// Relies on `aes_gcm::Aes256Gcm` through `Aead::encrypt`: sealing is a pure
/// function of key, nonce and plaintext; the output is the plaintext length
/// plus a 16-byte tag; and it succeeds whenever the plaintext is within the
/// GCM length bound (`aes-gcm-0.10.3/src/lib.rs`: the only error path is
/// `buffer.len() > P_MAX`).
#[verifier::external_body]
fn gcm_encrypt(key: &[u8], nonce: &[u8], plaintext: &[u8]) -> (r: Result<Vec<u8>, ()>)
    requires
        key@.len() == 32,
        nonce@.len() == 12,
        plaintext@.len() <= max_plaintext_len(),
    ensures
        r is Ok,
        r matches Ok(c) ==> c@ == gcm_seal(key@, nonce@, plaintext@) && c@.len() == plaintext@.len()
            + 16,
{
    let cipher = match aes_gcm::Aes256Gcm::new_from_slice(key) {
        Ok(c) => c,
        Err(_) => {
            return Err(());
        },
    };
    match cipher.encrypt(aes_gcm::Nonce::from_slice(nonce), plaintext) {
        Ok(c) => Ok(c),
        Err(_) => Err(()),
    }
}

/// Relies on `aes_gcm::Aes256Gcm` through `Aead::decrypt`: it returns a
/// plaintext only when the input is exactly that plaintext's sealing under
/// the same key and nonce (the tag is recomputed and compared before any
/// plaintext is released, and the CTR keystream makes sealing injective),
/// and it accepts every input that is such a sealing
/// (`aes-gcm-0.10.3/src/lib.rs`, `aead-0.5.2/src/lib.rs`).
#[verifier::external_body]
fn gcm_decrypt(key: &[u8], nonce: &[u8], data: &[u8]) -> (r: Result<Vec<u8>, ()>)
    requires
        key@.len() == 32,
        nonce@.len() == 12,
        16 <= data@.len() <= max_plaintext_len() + 16,
    ensures
        r matches Ok(p) ==> data@ == gcm_seal(key@, nonce@, p@) && p@.len() + 16 == data@.len(),
        r is Err ==> forall|p: Seq<u8>|
            p.len() <= max_plaintext_len() ==> data@ != gcm_seal(key@, nonce@, p),
        r matches Ok(q) ==> forall|p: Seq<u8>|
            p.len() <= max_plaintext_len() && data@ == gcm_seal(key@, nonce@, p) ==> q@ == p,
{
    let cipher = match aes_gcm::Aes256Gcm::new_from_slice(key) {
        Ok(c) => c,
        Err(_) => {
            return Err(());
        },
    };
    match cipher.decrypt(aes_gcm::Nonce::from_slice(nonce), data) {
        Ok(p) => Ok(p),
        Err(_) => Err(()),
    }
}

/// Relies on `rand::rngs::OsRng` through `RngCore::fill_bytes`: the buffer
/// is filled from the operating system's cryptographically secure random
/// source, which is safe for concurrent use; nothing is assumed of the
/// values themselves.
#[verifier::external_body]
pub(crate) fn random_bytes(n: usize) -> (r: Vec<u8>)
    ensures
        r@.len() == n,
{
    let mut buf = vec![0u8; n];
    rand::RngCore::fill_bytes(&mut rand::rngs::OsRng, &mut buf);
    buf
}

/// A pure four-byte magic check on the head of a file, used to decide
/// whether a password prompt is needed; reads nothing past the first four
/// bytes.
pub fn is_container(data: &[u8]) -> (r: bool)
    ensures
        r == is_container_spec(data@),
{
    if data.len() < 4 {
        return false;
    }
    let r = data[0] == 0x53 && data[1] == 0x52 && data[2] == 0x45 && data[3] == 0x46;
    proof {
        if r {
            assert(data@.subrange(0, 4) =~= magic_bytes());
        } else {
            assert(data@.subrange(0, 4) != magic_bytes());
        }
    }
    r
}

/// The 32-byte key for a password and a 16-byte salt, derived under the
/// fixed work factors; fails only when the password exceeds the derivation
/// bound, a configuration defect rather than a user condition.
pub fn derive_key(password: &str, salt: &[u8]) -> (r: Result<Vec<u8>, CoreError>)
    requires
        salt@.len() == 16,
    ensures
        r is Ok <==> encode_utf8(password@).len() <= max_password_len(),
        r matches Ok(k) ==> k@.len() == 32 && k@ == argon2id_key(encode_utf8(password@), salt@),
        r is Err ==> r == Err::<Vec<u8>, CoreError>(CoreError::KeyDerivationFailed),
{
    let pw = password.as_bytes();
    if pw.len() > 0xFFFF_FFFF {
        return Err(CoreError::KeyDerivationFailed);
    }
    match argon2id_derive(pw, salt, 65536, 3, 1) {
        Ok(k) => Ok(k),
        Err(_) => Err(CoreError::KeyDerivationFailed),
    }
}

/// Encrypt a plaintext under a password: draw a fresh random salt and nonce,
/// derive the key, seal the plaintext, and lay out
/// magic, version, salt, nonce and sealed payload.
///
/// On success the output is a structurally valid container whose payload is
/// the sealing of the plaintext under the key derived from the password and
/// the container's own salt; its length is the plaintext's plus 49.
pub fn encrypt_data(plaintext: &[u8], password: &str) -> (r: Result<Vec<u8>, CoreError>)
    requires
        password@.len() > 0,
        plaintext@.len() <= max_plaintext_len(),
    ensures
        r is Ok <==> encode_utf8(password@).len() <= max_password_len(),
        r is Err ==> r == Err::<Vec<u8>, CoreError>(CoreError::KeyDerivationFailed),
        r matches Ok(c) ==> {
            &&& c@.len() == plaintext@.len() + 49
            &&& structurally_valid(c@)
            &&& salt_of(c@).len() == 16
            &&& nonce_of(c@).len() == 12
            &&& c@ == container_spec(salt_of(c@), nonce_of(c@), payload_of(c@))
            &&& auth_matches(c@, encode_utf8(password@), plaintext@)
        },
{
    let salt = random_bytes(16);
    let nonce = random_bytes(12);
    let key = match derive_key(password, salt.as_slice()) {
        Ok(k) => k,
        Err(e) => {
            return Err(e);
        },
    };
    let sealed = match gcm_encrypt(key.as_slice(), nonce.as_slice(), plaintext) {
        Ok(c) => c,
        // unreachable: the cipher's contract promises success within the
        // length bound; a failure would be a fatal configuration defect
        Err(_) => {
            return Err(CoreError::KeyDerivationFailed);
        },
    };
    let ghost salt0 = salt@;
    let ghost nonce0 = nonce@;
    let ghost sealed0 = sealed@;
    let mut out: Vec<u8> = Vec::new();
    out.push(0x53);
    out.push(0x52);
    out.push(0x45);
    out.push(0x46);
    out.push(1);
    let mut salt = salt;
    let mut nonce = nonce;
    let mut sealed = sealed;
    out.append(&mut salt);
    out.append(&mut nonce);
    out.append(&mut sealed);
    proof {
        assert(out@ =~= container_spec(salt0, nonce0, sealed0));
        assert(out@.subrange(0, 4) =~= magic_bytes());
        assert(salt_of(out@) =~= salt0);
        assert(nonce_of(out@) =~= nonce0);
        assert(payload_of(out@) =~= sealed0);
    }
    Ok(out)
}

/// Decrypt a container under a password. Validation fails fast and in
/// order: size, magic, version, key derivation, then authenticated
/// decryption. A wrong password and tampered data both end in
/// `AuthenticationFailed`; success returns the exact original plaintext.
pub fn decrypt_data(data: &[u8], password: &str) -> (r: Result<Vec<u8>, CoreError>)
    requires
        data@.len() <= max_plaintext_len() + 49,
    ensures
        r matches Err(e) ==> decrypt_error(data@, encode_utf8(password@), e),
        !(structurally_valid(data@) && encode_utf8(password@).len() <= max_password_len()) ==> r
            is Err,
        r matches Ok(p) ==> {
            &&& structurally_valid(data@)
            &&& auth_matches(data@, encode_utf8(password@), p@)
            &&& p@.len() + 49 == data@.len()
        },
        forall|p: Seq<u8>|
            {
                &&& structurally_valid(data@)
                &&& encode_utf8(password@).len() <= max_password_len()
                &&& p.len() <= max_plaintext_len()
                &&& auth_matches(data@, encode_utf8(password@), p)
            } ==> (r matches Ok(q) && q@ == p),
{
    if data.len() < 49 {
        return Err(CoreError::TooSmall);
    }
    if !(data[0] == 0x53 && data[1] == 0x52 && data[2] == 0x45 && data[3] == 0x46) {
        proof {
            assert(data@.subrange(0, 4) != magic_bytes());
        }
        return Err(CoreError::BadMagic);
    }
    proof {
        assert(data@.subrange(0, 4) =~= magic_bytes());
    }
    if data[4] != 1 {
        return Err(CoreError::UnsupportedVersion(data[4]));
    }
    let salt = vstd::slice::slice_subrange(data, 5, 21);
    let nonce = vstd::slice::slice_subrange(data, 21, 33);
    let payload = vstd::slice::slice_subrange(data, 33, data.len());
    let key = match derive_key(password, salt) {
        Ok(k) => k,
        Err(e) => {
            return Err(e);
        },
    };
    match gcm_decrypt(key.as_slice(), nonce, payload) {
        Ok(p) => Ok(p),
        Err(_) => Err(CoreError::AuthenticationFailed),
    }
}

/// True when a password was supplied and is non-empty; an empty password is
/// treated as absent, the caller's signal for the unencrypted path.
pub open spec fn has_password(password: Option<&str>) -> bool {
    password matches Some(p) && p@.len() > 0
}

/// The characters of a supplied password.
pub open spec fn password_view(password: Option<&str>) -> Seq<char>
    recommends
        password is Some,
{
    password->Some_0@
}

/// Prepare the bytes of an export: with a non-empty password the content is
/// encrypted into a container; otherwise the content's bytes go out
/// verbatim.
pub fn export_bytes(content: &str, password: Option<&str>) -> (r: Result<Vec<u8>, CoreError>)
    requires
        encode_utf8(content@).len() <= max_plaintext_len(),
    ensures
        !has_password(password) ==> (r matches Ok(b) && b@ == encode_utf8(content@)),
        has_password(password) ==> {
            let w = encode_utf8(password_view(password));
            &&& (r is Ok <==> w.len() <= max_password_len())
            &&& (r is Err ==> r == Err::<Vec<u8>, CoreError>(CoreError::KeyDerivationFailed))
            &&& (r matches Ok(c) ==> {
                &&& c@.len() == encode_utf8(content@).len() + 49
                &&& structurally_valid(c@)
                &&& auth_matches(c@, w, encode_utf8(content@))
            })
        },
{
    match password {
        Some(p) => {
            if !p.is_empty() {
                encrypt_data(content.as_bytes(), p)
            } else {
                Ok(vstd::slice::slice_to_vec(content.as_bytes()))
            }
        },
        None => Ok(vstd::slice::slice_to_vec(content.as_bytes())),
    }
}

/// The error that `import_bytes` owes for a container it could not open.
pub open spec fn import_container_error(data: Seq<u8>, password: Option<&str>, e: CoreError) -> bool {
    if !has_password(password) {
        e == CoreError::PasswordRequired
    } else {
        decrypt_error(data, encode_utf8(password_view(password)), e) || e == CoreError::NotUtf8
    }
}

/// Read the bytes of an import: a buffer opening with the container magic
/// must be decrypted with a non-empty password; any other buffer is taken
/// as plaintext. Either way the resulting bytes must be valid UTF-8 text.
pub fn import_bytes(data: &[u8], password: Option<&str>) -> (r: Result<String, CoreError>)
    requires
        data@.len() <= max_plaintext_len() + 49,
    ensures
        !is_container_spec(data@) ==> {
            &&& (valid_utf8(data@) ==> (r matches Ok(s) && s@ == decode_utf8(data@)))
            &&& (!valid_utf8(data@) ==> r == Err::<String, CoreError>(CoreError::NotUtf8))
        },
        is_container_spec(data@) ==> (r matches Err(e) ==> import_container_error(
            data@,
            password,
            e,
        )),
        is_container_spec(data@) && !has_password(password) ==> r == Err::<String, CoreError>(
            CoreError::PasswordRequired,
        ),
        is_container_spec(data@) && has_password(password) && !(structurally_valid(data@)
            && encode_utf8(password_view(password)).len() <= max_password_len()) ==> r is Err,
        is_container_spec(data@) && has_password(password) ==> (forall|p: Seq<u8>|
            {
                &&& structurally_valid(data@)
                &&& encode_utf8(password_view(password)).len() <= max_password_len()
                &&& p.len() <= max_plaintext_len()
                &&& auth_matches(data@, encode_utf8(password_view(password)), p)
            } ==> ((valid_utf8(p) ==> (r matches Ok(s) && s@ == decode_utf8(p))) && (!valid_utf8(p)
                ==> r == Err::<String, CoreError>(CoreError::NotUtf8)))),
        is_container_spec(data@) && has_password(password) ==> (r matches Ok(s) ==> exists|
            p: Seq<u8>,
        |
            {
                &&& #[trigger] auth_matches(data@, encode_utf8(password_view(password)), p)
                &&& valid_utf8(p)
                &&& s@ == decode_utf8(p)
                &&& p.len() + 49 == data@.len()
            }),
{
    if is_container(data) {
        let pw: &str = match password {
            Some(p) => {
                if p.is_empty() {
                    return Err(CoreError::PasswordRequired);
                } else {
                    p
                }
            },
            None => {
                return Err(CoreError::PasswordRequired);
            },
        };
        let plaintext = match decrypt_data(data, pw) {
            Ok(p) => p,
            Err(e) => {
                return Err(e);
            },
        };
        proof {
            assert(auth_matches(data@, encode_utf8(password_view(password)), plaintext@));
        }
        match crate::textutil::utf8_to_string(plaintext.as_slice()) {
            Some(s) => Ok(s),
            None => Err(CoreError::NotUtf8),
        }
    } else {
        match crate::textutil::utf8_to_string(data) {
            Some(s) => Ok(s),
            None => Err(CoreError::NotUtf8),
        }
    }
}

/// Rebuilding a container from its parts and parsing it back are inverse:
/// a container laid out from a 16-byte salt, a 12-byte nonce and a payload
/// of at least 16 bytes is structurally valid and yields those same parts.
/// Together with the contract of `decrypt_data`, a container whose payload
/// seals a plaintext `p` under the key derived from the password and that
/// salt decrypts under the same password to exactly `p`.
pub proof fn lemma_container_parse(salt: Seq<u8>, nonce: Seq<u8>, payload: Seq<u8>)
    requires
        salt.len() == 16,
        nonce.len() == 12,
        payload.len() >= 16,
    ensures
        container_spec(salt, nonce, payload).len() == 33 + payload.len(),
        structurally_valid(container_spec(salt, nonce, payload)),
        salt_of(container_spec(salt, nonce, payload)) == salt,
        nonce_of(container_spec(salt, nonce, payload)) == nonce,
        payload_of(container_spec(salt, nonce, payload)) == payload,
{
    let c = container_spec(salt, nonce, payload);
    assert(c.subrange(0, 4) =~= magic_bytes());
    assert(salt_of(c) =~= salt);
    assert(nonce_of(c) =~= nonce);
    assert(payload_of(c) =~= payload);
}

/// The round-trip law at the level of the codec's model: a container built
/// for plaintext `p` under password `w` with any 16-byte salt and 12-byte
/// nonce satisfies every premise under which `decrypt_data`'s contract
/// forces the result `Ok(p)`.
pub proof fn lemma_round_trip(p: Seq<u8>, w: Seq<u8>, salt: Seq<u8>, nonce: Seq<u8>)
    requires
        salt.len() == 16,
        nonce.len() == 12,
        p.len() <= max_plaintext_len(),
        gcm_seal(argon2id_key(w, salt), nonce, p).len() == p.len() + 16,
    ensures
        ({
            let c = container_spec(salt, nonce, gcm_seal(argon2id_key(w, salt), nonce, p));
            &&& structurally_valid(c)
            &&& auth_matches(c, w, p)
            &&& c.len() == p.len() + 49
        }),
{
    let sealed = gcm_seal(argon2id_key(w, salt), nonce, p);
    lemma_container_parse(salt, nonce, sealed);
}

} // verus!
