//! Authenticated encryption of stored data under a password-derived key.

use vstd::prelude::*;
use vstd::string::StringSliceAdditionalSpecFns;
use aes_gcm::aead::{Aead, KeyInit};
use aes_gcm::{Aes256Gcm, Nonce};
use base64::Engine;
use rand::RngCore;
use sha2::Digest;

verus! {

/// The SHA-256 digest of the bytes.
pub uninterp spec fn sha256_of(data: Seq<u8>) -> Seq<u8>;

/// Relies on `sha2::Sha256` (`Digest::update`, `Digest::finalize`): the
/// SHA-256 digest of the bytes, which is 32 bytes long.
#[verifier::external_body]
fn sha256(data: &Vec<u8>) -> (r: Vec<u8>)
    ensures
        r@ == sha256_of(data@),
        r@.len() == 32,
{
    let mut hasher = sha2::Sha256::new();
    hasher.update(data.as_slice());
    hasher.finalize().to_vec()
}

/// Relies on `rand::rngs::OsRng` (`RngCore::try_fill_bytes`): `n` bytes
/// from the operating system's source, or none if it failed.
#[verifier::external_body]
fn os_random_bytes(n: usize) -> (r: Option<Vec<u8>>)
    ensures
        r.is_some() ==> r.unwrap()@.len() == n,
{
    let mut buf = vec![0u8; n];
    match rand::rngs::OsRng.try_fill_bytes(&mut buf) {
        Ok(()) => Some(buf),
        Err(_) => None,
    }
}

/// The AES-256-GCM sealing of `plain` under `key` and `nonce`.
pub uninterp spec fn aes256gcm_seal(key: Seq<u8>, nonce: Seq<u8>, plain: Seq<u8>) -> Seq<u8>;

/// The AES-256-GCM opening of `sealed` under `key` and `nonce`: none when
/// the tag does not verify.
pub uninterp spec fn aes256gcm_open(key: Seq<u8>, nonce: Seq<u8>, sealed: Seq<u8>) -> Option<Seq<u8>>;

/// Relies on `aes_gcm::Aes256Gcm` (`KeyInit::new_from_slice`,
/// `Aead::encrypt`): the sealed bytes, or none when the crate refuses the
/// input; opening sealed bytes under the same key and nonce gives the
/// input back.
#[verifier::external_body]
fn seal(key: &Vec<u8>, nonce: &Vec<u8>, plain: &Vec<u8>) -> (r: Option<Vec<u8>>)
    requires
        key@.len() == 32,
        nonce@.len() == 12,
    ensures
        r.is_some() ==> r.unwrap()@ == aes256gcm_seal(key@, nonce@, plain@),
        r.is_some() ==> aes256gcm_open(key@, nonce@, r.unwrap()@) == Some(plain@),
{
    let cipher = Aes256Gcm::new_from_slice(key.as_slice()).ok()?;
    cipher.encrypt(Nonce::from_slice(nonce.as_slice()), plain.as_slice()).ok()
}

/// Relies on `aes_gcm::Aes256Gcm` (`KeyInit::new_from_slice`,
/// `Aead::decrypt`): the opened bytes, or none when the tag does not verify.
#[verifier::external_body]
fn open(key: &Vec<u8>, nonce: &Vec<u8>, sealed: &Vec<u8>) -> (r: Option<Vec<u8>>)
    requires
        key@.len() == 32,
        nonce@.len() == 12,
    ensures
        match r {
            Some(p) => aes256gcm_open(key@, nonce@, sealed@) == Some(p@),
            None => aes256gcm_open(key@, nonce@, sealed@).is_none(),
        },
{
    let cipher = Aes256Gcm::new_from_slice(key.as_slice()).ok()?;
    cipher.decrypt(Nonce::from_slice(nonce.as_slice()), sealed.as_slice()).ok()
}

/// The standard padded base64 text of the bytes.
pub uninterp spec fn base64_of(data: Seq<u8>) -> Seq<char>;

/// The bytes that a standard padded base64 text encodes, if it is one.
pub uninterp spec fn base64_decoded(text: Seq<char>) -> Option<Seq<u8>>;

/// Relies on `base64::engine::general_purpose::STANDARD` (`Engine::encode`):
/// the padded base64 text, four characters for every three bytes begun,
/// which `Engine::decode` turns back into the bytes.
#[verifier::external_body]
fn to_base64(data: &Vec<u8>) -> (r: String)
    requires
        data@.len() / 3 * 4 + 4 <= usize::MAX,
    ensures
        r@ == base64_of(data@),
        r@.len() == 4 * ((data@.len() + 2) / 3),
        base64_decoded(r@) == Some(data@),
{
    base64::engine::general_purpose::STANDARD.encode(data.as_slice())
}

/// Relies on `base64::engine::general_purpose::STANDARD` (`Engine::decode`):
/// the decoded bytes, or none when the text is not padded base64.
#[verifier::external_body]
fn from_base64(text: &str) -> (r: Option<Vec<u8>>)
    ensures
        match r {
            Some(b) => base64_decoded(text@) == Some(b@),
            None => base64_decoded(text@).is_none(),
        },
{
    base64::engine::general_purpose::STANDARD.decode(text).ok()
}

/// Errors of encryption and decryption.
#[derive(Debug, Clone, Copy, PartialEq, Eq, Structural)]
pub enum CryptoError {
    /// A key that is not 32 bytes long.
    InvalidKeyLength,
    /// The operating system's random source failed.
    RandomSource,
    /// The cipher refused to seal the data.
    EncryptionFailed,
    /// The data does not open under the key.
    DecryptionFailed,
    /// A field is not base64, or the nonce is not 12 bytes long.
    InvalidEncoding,
}

/// Sealed data, each field in padded base64.
pub struct EncryptedData {
    pub ciphertext: String,
    pub nonce: String,
    pub salt: String,
}

/// Encrypts under a 256-bit key.
pub struct Encryptor {
    key: Vec<u8>,
}

/// The key derived from a password and a salt: the SHA-256 digest of the
/// password's bytes followed by the salt.
pub open spec fn derived_key(password: Seq<u8>, salt: Seq<u8>) -> Seq<u8> {
    sha256_of(password + salt)
}

/// What decrypting the base64 fields `ciphertext` and `nonce` under `key`
/// gives.
pub open spec fn opened(key: Seq<u8>, ciphertext: Seq<char>, nonce: Seq<char>) -> Result<Seq<u8>, CryptoError> {
    match (base64_decoded(ciphertext), base64_decoded(nonce)) {
        (Some(c), Some(n)) => if n.len() != 12 {
            Err(CryptoError::InvalidEncoding)
        } else {
            match aes256gcm_open(key, n, c) {
                Some(p) => Ok(p),
                None => Err(CryptoError::DecryptionFailed),
            }
        },
        _ => Err(CryptoError::InvalidEncoding),
    }
}

impl Encryptor {
    /// The key.
    pub closed spec fn key(&self) -> Seq<u8> {
        self.key@
    }

    /// The key is 32 bytes long.
    pub open spec fn wf(&self) -> bool {
        self.key().len() == 32
    }

    fn derive_key(password: &str, salt: &Vec<u8>) -> (r: Vec<u8>)
        ensures
            r@ == derived_key(password.spec_bytes(), salt@),
            r@.len() == 32,
    {
        let pw = password.as_bytes();
        let mut data: Vec<u8> = Vec::new();
        let mut i: usize = 0;
        while i < pw.len()
            invariant
                pw@ == password.spec_bytes(),
                i <= pw@.len(),
                data@ == pw@.take(i as int),
            decreases pw@.len() - i,
        {
            data.push(pw[i]);
            i = i + 1;
        }
        let mut j: usize = 0;
        while j < salt.len()
            invariant
                pw@ == password.spec_bytes(),
                j <= salt@.len(),
                data@ == pw@ + salt@.take(j as int),
            decreases salt@.len() - j,
        {
            data.push(salt[j]);
            j = j + 1;
            assert(data@ =~= pw@ + salt@.take(j as int));
        }
        assert(pw@.take(pw@.len() as int) =~= pw@);
        assert(salt@.take(salt@.len() as int) =~= salt@);
        sha256(&data)
    }

    /// An encryptor whose key is derived from the password and a fresh
    /// 32-byte salt.
    pub fn new(password: &str) -> (r: Result<Self, CryptoError>)
        ensures
            match r {
                Ok(e) => e.wf() && exists|salt: Seq<u8>|
                    salt.len() == 32 && #[trigger] derived_key(password.spec_bytes(), salt) == e.key(),
                Err(err) => err == CryptoError::RandomSource,
            },
    {
        let salt = match os_random_bytes(32) {
            Some(s) => s,
            None => {
                return Err(CryptoError::RandomSource);
            },
        };
        let key = Self::derive_key(password, &salt);
        Ok(Encryptor { key })
    }

    /// An encryptor with the given key, which must be 32 bytes long.
    pub fn from_key(key: Vec<u8>) -> (r: Result<Self, CryptoError>)
        ensures
            key@.len() == 32 <==> r.is_ok(),
            r.is_ok() ==> r.unwrap().key() == key@ && r.unwrap().wf(),
            r.is_err() ==> r == Err::<Self, CryptoError>(CryptoError::InvalidKeyLength),
    {
        if key.len() != 32 {
            return Err(CryptoError::InvalidKeyLength);
        }
        Ok(Encryptor { key })
    }

    /// Seals the data under the key and a fresh 12-byte nonce. The record
    /// also carries a fresh 32-byte salt.
    pub fn encrypt(&self, data: &Vec<u8>) -> (r: Result<EncryptedData, CryptoError>)
        requires
            self.wf(),
        ensures
            match r {
                Ok(d) => exists|nonce: Seq<u8>, salt: Seq<u8>|
                    #![trigger aes256gcm_seal(self.key(), nonce, data@), base64_of(salt)]
                    {
                        &&& nonce.len() == 12
                        &&& salt.len() == 32
                        &&& d.ciphertext@ == base64_of(aes256gcm_seal(self.key(), nonce, data@))
                        &&& d.nonce@ == base64_of(nonce)
                        &&& d.salt@ == base64_of(salt)
                    } && opened(self.key(), d.ciphertext@, d.nonce@) == Ok::<Seq<u8>, CryptoError>(data@),
                Err(e) => e == CryptoError::RandomSource || e == CryptoError::EncryptionFailed,
            },
    {
        let nonce = match os_random_bytes(12) {
            Some(n) => n,
            None => {
                return Err(CryptoError::RandomSource);
            },
        };
        let salt = match os_random_bytes(32) {
            Some(s) => s,
            None => {
                return Err(CryptoError::RandomSource);
            },
        };
        let sealed = match seal(&self.key, &nonce, data) {
            Some(c) => c,
            None => {
                return Err(CryptoError::EncryptionFailed);
            },
        };
        if sealed.len() > usize::MAX / 2 {
            return Err(CryptoError::EncryptionFailed);
        }
        Ok(EncryptedData {
            ciphertext: to_base64(&sealed),
            nonce: to_base64(&nonce),
            salt: to_base64(&salt),
        })
    }

    /// Opens sealed data.
    pub fn decrypt(&self, encrypted: &EncryptedData) -> (r: Result<Vec<u8>, CryptoError>)
        requires
            self.wf(),
        ensures
            match r {
                Ok(p) => opened(self.key(), encrypted.ciphertext@, encrypted.nonce@) == Ok::<
                    Seq<u8>,
                    CryptoError,
                >(p@),
                Err(e) => opened(self.key(), encrypted.ciphertext@, encrypted.nonce@) == Err::<
                    Seq<u8>,
                    CryptoError,
                >(e),
            },
    {
        let sealed = match from_base64(encrypted.ciphertext.as_str()) {
            Some(c) => c,
            None => {
                return Err(CryptoError::InvalidEncoding);
            },
        };
        let nonce = match from_base64(encrypted.nonce.as_str()) {
            Some(n) => n,
            None => {
                return Err(CryptoError::InvalidEncoding);
            },
        };
        if nonce.len() != 12 {
            return Err(CryptoError::InvalidEncoding);
        }
        match open(&self.key, &nonce, &sealed) {
            Some(p) => Ok(p),
            None => Err(CryptoError::DecryptionFailed),
        }
    }
}

/// Encrypted entries kept as files `<key>.enc` under a directory.
pub struct SecureStorage {
    encryptor: Encryptor,
    storage_dir: String,
}

/// The text ends with `.enc`.
pub open spec fn is_entry_name(name: Seq<char>) -> bool {
    name.len() >= 4 && name.subrange(name.len() - 4, name.len() as int) == ".enc"@
}

/// The key of an entry name: the name without its `.enc` suffix.
pub open spec fn entry_key(name: Seq<char>) -> Seq<char> {
    name.subrange(0, name.len() - 4)
}

impl SecureStorage {
    pub fn new(password: &str, storage_dir: String) -> (r: Result<Self, CryptoError>)
        ensures
            match r {
                Ok(s) => s.wf() && s.storage_dir() == storage_dir@ && exists|salt: Seq<u8>|
                    salt.len() == 32 && #[trigger] derived_key(password.spec_bytes(), salt)
                        == s.encryptor().key(),
                Err(err) => err == CryptoError::RandomSource,
            },
    {
        let encryptor = match Encryptor::new(password) {
            Ok(e) => e,
            Err(e) => {
                return Err(e);
            },
        };
        Ok(SecureStorage { encryptor, storage_dir })
    }

    pub closed spec fn storage_dir(&self) -> Seq<char> {
        self.storage_dir@
    }

    pub closed spec fn encryptor(&self) -> Encryptor {
        self.encryptor
    }

    pub open spec fn wf(&self) -> bool {
        self.encryptor().wf()
    }

    /// The directory of the entries.
    pub fn directory(&self) -> (r: &String)
        ensures
            r@ == self.storage_dir(),
    {
        &self.storage_dir
    }

    /// The encryptor of the entries.
    pub fn cipher(&self) -> (r: &Encryptor)
        ensures
            *r == self.encryptor(),
    {
        &self.encryptor
    }

    /// The file of the entry with the key: `<dir>/<key>.enc`.
    pub fn entry_path(&self, key: &str) -> (r: String)
        ensures
            r@ == self.storage_dir() + "/"@ + key@ + ".enc"@,
    {
        let mut p = self.storage_dir.clone();
        p.append("/");
        p.append(key);
        p.append(".enc");
        p
    }

    /// The keys of the entries among the file names of the directory, in
    /// their order: the names that end with `.enc`, without that suffix.
    pub fn keys_from_names(names: &Vec<String>) -> (r: Vec<String>)
        ensures
            r@.map_values(|s: String| s@) == names@.map_values(|s: String| s@).filter(
                |n: Seq<char>| is_entry_name(n),
            ).map_values(|n: Seq<char>| entry_key(n)),
    {
        let ghost all = names@.map_values(|s: String| s@);
        let mut out: Vec<String> = Vec::new();
        let mut i: usize = 0;
        while i < names.len()
            invariant
                all == names@.map_values(|s: String| s@),
                i <= names@.len(),
                out@.map_values(|s: String| s@) == all.take(i as int).filter(
                    |n: Seq<char>| is_entry_name(n),
                ).map_values(|n: Seq<char>| entry_key(n)),
            decreases names@.len() - i,
        {
            let ghost before = out@.map_values(|s: String| s@);
            assert(all.take(i + 1).drop_last() =~= all.take(i as int));
            assert(all.take(i + 1).last() == names@[i as int]@);
            reveal(Seq::filter);
            proof {
                reveal_strlit(".enc");
            }
            let name = names[i].as_str();
            let len = name.unicode_len();
            if len >= 4 && name.get_char(len - 4) == '.' && name.get_char(len - 3) == 'e'
                && name.get_char(len - 2) == 'n' && name.get_char(len - 1) == 'c' {
                assert(name@.subrange(len - 4, len as int) =~= ".enc"@);
                let key = name.substring_char(0, len - 4);
                out.push(key.to_string());
                assert(out@.map_values(|s: String| s@) =~= before.push(entry_key(name@)));
            } else {
                assert(!is_entry_name(name@)) by {
                    if len >= 4 {
                        let t = name@.subrange(len - 4, len as int);
                        if t == ".enc"@ {
                            assert(t[0] == '.' && t[1] == 'e' && t[2] == 'n' && t[3] == 'c');
                        }
                    }
                }
                assert(out@.map_values(|s: String| s@) =~= before);
            }
            i = i + 1;
        }
        assert(all.take(names@.len() as int) =~= all);
        out
    }
}

} // verus!
