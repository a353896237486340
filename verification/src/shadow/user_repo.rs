use vstd::prelude::*;

use super::aes_engine::{self, decrypt_result, is_encryption_of, CryptoError, KEY_LEN};
use crate::codec::{self, base64_standard_decoded, trimmed, utf8_bytes};

verus! {

/// A user as the service hands it out; `email` and `national_id` are sensitive.
#[derive(Debug, Clone)]
pub struct User {
    pub id: i64,
    pub username: String,
    pub email: String,
    pub national_id: String,
}

impl View for User {
    type V = (i64, Seq<char>, Seq<char>, Seq<char>);

    open spec fn view(&self) -> Self::V {
        (self.id, self.username@, self.email@, self.national_id@)
    }
}

/// A user as it is stored: the sensitive fields are encrypted blobs.
#[derive(Debug, Clone)]
pub struct EncryptedUserRow {
    pub id: i64,
    pub username: String,
    pub email_blob: Vec<u8>,
    pub national_id_blob: Vec<u8>,
}

/// Why the key could not be loaded.
#[derive(Debug)]
pub enum KeyLoadError {
    MissingEnv,
    Io(String),
    InvalidFormat(String),
}

/// The description of a key loading error.
pub open spec fn key_error_text(e: KeyLoadError) -> Seq<char> {
    match e {
        KeyLoadError::MissingEnv => "missing SHADOW_KEY_FILE/SHADOW_KEY_B64/SHADOW_KEY_HEX"@,
        KeyLoadError::Io(m) => "key read io error: "@ + m@,
        KeyLoadError::InvalidFormat(m) => "invalid key format: "@ + m@,
    }
}

impl KeyLoadError {
    /// The human-readable description.
    pub fn message(&self) -> (r: String)
        ensures
            r@ == key_error_text(*self),
    {
        match self {
            KeyLoadError::MissingEnv => String::from_str(
                "missing SHADOW_KEY_FILE/SHADOW_KEY_B64/SHADOW_KEY_HEX",
            ),
            KeyLoadError::Io(m) => {
                let mut s = String::from_str("key read io error: ");
                s.append(m.as_str());
                s
            },
            KeyLoadError::InvalidFormat(m) => {
                let mut s = String::from_str("invalid key format: ");
                s.append(m.as_str());
                s
            },
        }
    }
}

/// Whether `b` is one of the whitespace bytes that a key secret may carry
/// (newline, carriage return, space, tab).
pub open spec fn is_key_whitespace(b: u8) -> bool {
    b == 10 || b == 13 || b == 32 || b == 9
}

/// `raw` without its whitespace bytes, in order.
pub open spec fn without_whitespace(raw: Seq<u8>) -> Seq<u8>
    decreases raw.len(),
{
    if raw.len() == 0 {
        Seq::empty()
    } else {
        let rest = without_whitespace(raw.drop_last());
        if is_key_whitespace(raw.last()) {
            rest
        } else {
            rest.push(raw.last())
        }
    }
}

/// The key that raw secret bytes stand for: the bytes themselves when there are exactly
/// 32 of them, else the bytes without whitespace when those are exactly 32.
pub open spec fn key_from_raw(raw: Seq<u8>) -> Option<Seq<u8>> {
    if raw.len() == 32 {
        Some(raw)
    } else if without_whitespace(raw).len() == 32 {
        Some(without_whitespace(raw))
    } else {
        None
    }
}

/// The message for raw secret bytes that are not a key.
pub open spec fn bad_length_message(len: nat) -> Seq<char> {
    "expected 32 raw bytes (or 32 trimmed), got "@ + codec::decimal(len) + " bytes"@
}

/// `e.to_string()` for a `base64::DecodeError`; nothing is stated about the text.
#[verifier::external_body]
pub(crate) fn base64_error_text(e: &base64::DecodeError) -> String {
    e.to_string()
}

/// `e.to_string()` for a `hex::FromHexError`; nothing is stated about the text.
#[verifier::external_body]
pub(crate) fn hex_error_text(e: &hex::FromHexError) -> String {
    e.to_string()
}

/// Reads a 32-byte key from raw secret bytes, tolerating surrounding newlines and spaces.
pub fn parse_key_bytes(raw: &[u8]) -> (r: Result<[u8; KEY_LEN], KeyLoadError>)
    ensures
        r matches Ok(k) ==> key_from_raw(raw@) == Some(k@),
        r is Err <==> key_from_raw(raw@) is None,
        r matches Err(e) ==> e matches KeyLoadError::InvalidFormat(m) && m@ == bad_length_message(
            raw@.len(),
        ),
{
    if raw.len() == KEY_LEN {
        let mut k = [0u8; KEY_LEN];
        let mut i: usize = 0;
        while i < KEY_LEN
            invariant
                i <= 32,
                raw@.len() == 32,
                forall|j: int| 0 <= j < i ==> k@[j] == raw@[j],
            decreases 32 - i,
        {
            k[i] = raw[i];
            i = i + 1;
        }
        proof {
            assert(k@ =~= raw@);
        }
        return Ok(k);
    }
    let mut trimmed_bytes: Vec<u8> = Vec::new();
    let mut i: usize = 0;
    while i < raw.len()
        invariant
            i <= raw@.len(),
            trimmed_bytes@ == without_whitespace(raw@.take(i as int)),
        decreases raw@.len() - i,
    {
        let b = raw[i];
        proof {
            assert(raw@.take(i + 1).drop_last() =~= raw@.take(i as int));
        }
        if !(b == 10u8 || b == 13u8 || b == 32u8 || b == 9u8) {
            trimmed_bytes.push(b);
        }
        i = i + 1;
    }
    proof {
        assert(raw@.take(i as int) =~= raw@);
    }
    if trimmed_bytes.len() == KEY_LEN {
        let mut k = [0u8; KEY_LEN];
        let mut j: usize = 0;
        while j < KEY_LEN
            invariant
                j <= 32,
                trimmed_bytes@.len() == 32,
                forall|m: int| 0 <= m < j ==> k@[m] == trimmed_bytes@[m],
            decreases 32 - j,
        {
            k[j] = trimmed_bytes[j];
            j = j + 1;
        }
        proof {
            assert(k@ =~= trimmed_bytes@);
        }
        return Ok(k);
    }
    let mut msg = String::from_str("expected 32 raw bytes (or 32 trimmed), got ");
    let count = codec::decimal_string(raw.len() as u64);
    msg.append(count.as_str());
    msg.append(" bytes");
    proof {
        reveal_strlit("expected 32 raw bytes (or 32 trimmed), got ");
        reveal_strlit(" bytes");
    }
    Err(KeyLoadError::InvalidFormat(msg))
}

/// Where the key is read from, in order of preference: the contents of the secret file,
/// then a Base64 text, then a hexadecimal text.
pub open spec fn key_source_bytes(
    file: Option<Result<Seq<u8>, Seq<char>>>,
    b64: Option<Seq<char>>,
    hex: Option<Seq<char>>,
) -> Option<Option<Seq<u8>>> {
    match file {
        Some(Ok(raw)) => Some(Some(raw)),
        Some(Err(_)) => Some(None),
        None => match b64 {
            Some(t) => Some(base64_standard_decoded(utf8_bytes(trimmed(t)))),
            None => match hex {
                Some(t) => Some(
                    if codec::hex_decodes(utf8_bytes(trimmed(t))) {
                        Some(codec::hex_decoded(utf8_bytes(trimmed(t))))
                    } else {
                        None
                    },
                ),
                None => None,
            },
        },
    }
}

/// Loads the 32-byte key from the first source present: the secret file's contents
/// (or the error reading it), a Base64 text, or a hexadecimal text (both trimmed).
pub fn load_key_from(
    file: Option<Result<Vec<u8>, String>>,
    b64: Option<&str>,
    hex: Option<&str>,
) -> (r: Result<[u8; KEY_LEN], KeyLoadError>)
    ensures
        ({
            let file_view = match file {
                Some(Ok(v)) => Some(Ok::<Seq<u8>, Seq<char>>(v@)),
                Some(Err(m)) => Some(Err::<Seq<u8>, Seq<char>>(m@)),
                None => None,
            };
            let b64_view = match b64 {
                Some(t) => Some(t@),
                None => None,
            };
            let hex_view = match hex {
                Some(t) => Some(t@),
                None => None,
            };
            match key_source_bytes(file_view, b64_view, hex_view) {
                None => r matches Err(KeyLoadError::MissingEnv),
                Some(None) => r is Err && !(r matches Err(KeyLoadError::MissingEnv)),
                Some(Some(raw)) => match key_from_raw(raw) {
                    Some(k) => r matches Ok(key) && key@ == k,
                    None => r matches Err(KeyLoadError::InvalidFormat(_)),
                },
            }
        }),
        file matches Some(Err(m)) ==> r matches Err(KeyLoadError::Io(e)) && e@ == m@,
        file is None && b64 is Some && base64_standard_decoded(utf8_bytes(trimmed(b64->0@)))
            is None ==> (r matches Err(KeyLoadError::InvalidFormat(m)) && "base64 decode: "@.is_prefix_of(m@)),
        file is None && b64 is None && hex is Some && !codec::hex_decodes(
            utf8_bytes(trimmed(hex->0@)),
        ) ==> (r matches Err(KeyLoadError::InvalidFormat(m)) && "hex decode: "@.is_prefix_of(m@)),
{
    match file {
        Some(Ok(raw)) => { return parse_key_bytes(raw.as_slice()); },
        Some(Err(m)) => { return Err(KeyLoadError::Io(m)); },
        None => {},
    }
    match b64 {
        Some(t) => {
            let text = codec::trim(t);
            match codec::base64_decode(text) {
                Ok(bytes) => { return parse_key_bytes(bytes.as_slice()); },
                Err(e) => {
                    let mut msg = String::from_str("base64 decode: ");
                    let detail = base64_error_text(&e);
                    msg.append(detail.as_str());
                    return Err(KeyLoadError::InvalidFormat(msg));
                },
            }
        },
        None => {},
    }
    match hex {
        Some(t) => {
            let text = codec::trim(t);
            match codec::hex_decode(text) {
                Ok(bytes) => parse_key_bytes(bytes.as_slice()),
                Err(e) => {
                    let mut msg = String::from_str("hex decode: ");
                    let detail = hex_error_text(&e);
                    msg.append(detail.as_str());
                    Err(KeyLoadError::InvalidFormat(msg))
                },
            }
        },
        None => Err(KeyLoadError::MissingEnv),
    }
}

/// Whether `row` stores `u` encrypted under `key`: same id and username, and each blob is
/// an encryption of the matching sensitive field.
pub open spec fn row_encrypts(row: EncryptedUserRow, u: User, key: Seq<u8>) -> bool {
    &&& row.id == u.id
    &&& row.username@ == u.username@
    &&& is_encryption_of(row.email_blob@, u.email@, key)
    &&& is_encryption_of(row.national_id_blob@, u.national_id@, key)
}

/// What decrypting `row` with `key` gives (`None`: the key could not be loaded).
pub open spec fn decrypted_row(row: EncryptedUserRow, key: Option<Seq<u8>>) -> Result<
    (i64, Seq<char>, Seq<char>, Seq<char>),
    CryptoError,
> {
    match key {
        None => Err(CryptoError::InvalidKeyLen { got: 0 }),
        Some(k) => match decrypt_result(row.email_blob@, k) {
            Err(e) => Err(e),
            Ok(email) => match decrypt_result(row.national_id_blob@, k) {
                Err(e) => Err(e),
                Ok(nid) => Ok((row.id, row.username@, email, nid)),
            },
        },
    }
}

/// The bytes of an optional key.
pub open spec fn key_view(key: Option<&[u8; KEY_LEN]>) -> Option<Seq<u8>> {
    match key {
        Some(k) => Some(k@),
        None => None,
    }
}

/// Encrypts the sensitive fields of `u` for storage; without a key it fails as an invalid
/// key of length 0.
pub fn to_encrypted_row(u: &User, key: Option<&[u8; KEY_LEN]>) -> (r: Result<
    EncryptedUserRow,
    CryptoError,
>)
    ensures
        key is None ==> r == Err::<EncryptedUserRow, _>(CryptoError::InvalidKeyLen { got: 0 }),
        key matches Some(k) ==> (r is Ok <==> utf8_bytes(u.email@).len()
            <= aes_engine::max_plaintext_len() && utf8_bytes(u.national_id@).len()
            <= aes_engine::max_plaintext_len()),
        key matches Some(k) && r is Err ==> r == Err::<EncryptedUserRow, _>(
            CryptoError::AuthFailed,
        ),
        r matches Ok(row) ==> key matches Some(k) && row_encrypts(row, *u, k@),
        r matches Ok(row) ==> key matches Some(k) && decrypted_row(row, Some(k@)) == Ok::<
            _,
            CryptoError,
        >(u@),
        r matches Ok(row) ==> key matches Some(k) && {
            &&& row.id == u.id
            &&& row.username@ == u.username@
            &&& decrypt_result(row.email_blob@, k@) == Ok::<_, CryptoError>(u.email@)
            &&& decrypt_result(row.national_id_blob@, k@) == Ok::<_, CryptoError>(u.national_id@)
        },
{
    let key = match key {
        Some(k) => k,
        None => { return Err(CryptoError::InvalidKeyLen { got: 0 }); },
    };
    let email_blob = aes_engine::encrypt(u.email.as_str(), key.as_slice())?;
    let national_id_blob = aes_engine::encrypt(u.national_id.as_str(), key.as_slice())?;
    Ok(EncryptedUserRow { id: u.id, username: u.username.clone(), email_blob, national_id_blob })
}

/// Decrypts a stored row back into a user; without a key it fails as an invalid key of
/// length 0.
pub fn from_encrypted_row(r: &EncryptedUserRow, key: Option<&[u8; KEY_LEN]>) -> (res: Result<
    User,
    CryptoError,
>)
    ensures
        res matches Ok(u) ==> decrypted_row(*r, key_view(key)) == Ok::<
            _,
            CryptoError,
        >(u@),
        res matches Err(e) ==> decrypted_row(*r, key_view(key)) == Err::<
            (i64, Seq<char>, Seq<char>, Seq<char>),
            _,
        >(e),
        res matches Ok(u) ==> key matches Some(k) && {
            &&& u.id == r.id
            &&& u.username@ == r.username@
            &&& decrypt_result(r.email_blob@, k@) == Ok::<_, CryptoError>(u.email@)
            &&& decrypt_result(r.national_id_blob@, k@) == Ok::<_, CryptoError>(u.national_id@)
        },
{
    let key = match key {
        Some(k) => k,
        None => { return Err(CryptoError::InvalidKeyLen { got: 0 }); },
    };
    let email = aes_engine::decrypt(r.email_blob.as_slice(), key.as_slice())?;
    let national_id = aes_engine::decrypt(r.national_id_blob.as_slice(), key.as_slice())?;
    Ok(User { id: r.id, username: r.username.clone(), email, national_id })
}

/// Each column holds its own field: in a row that stores `u` under `key`, the email blob
/// decrypts to the email and the national id blob to the national id.
pub proof fn lemma_stored_columns(u: User, row: EncryptedUserRow, key: Seq<u8>)
    requires
        key.len() == 32,
        row_encrypts(row, u, key),
    ensures
        row.id == u.id,
        row.username@ == u.username@,
        decrypt_result(row.email_blob@, key) == Ok::<_, CryptoError>(u.email@),
        decrypt_result(row.national_id_blob@, key) == Ok::<_, CryptoError>(u.national_id@),
{
    aes_engine::lemma_decrypt_encryption(row.email_blob@, u.email@, key);
    aes_engine::lemma_decrypt_encryption(row.national_id_blob@, u.national_id@, key);
}

/// Reading a row takes each field from its own column: the email read back is what the
/// email blob decrypts to, the national id what the national id blob decrypts to.
pub proof fn lemma_read_columns(row: EncryptedUserRow, key: Seq<u8>)
    ensures
        decrypted_row(row, Some(key)) matches Ok(t) ==> {
            &&& t.0 == row.id
            &&& t.1 == row.username@
            &&& decrypt_result(row.email_blob@, key) == Ok::<_, CryptoError>(t.2)
            &&& decrypt_result(row.national_id_blob@, key) == Ok::<_, CryptoError>(t.3)
        },
{
}

/// Decryption undoes encryption: a row that stores `u` under `key` decrypts to `u`.
pub proof fn lemma_row_roundtrip(u: User, row: EncryptedUserRow, key: Seq<u8>)
    requires
        key.len() == 32,
        row_encrypts(row, u, key),
    ensures
        decrypted_row(row, Some(key)) == Ok::<_, CryptoError>(u@),
{
    aes_engine::lemma_decrypt_encryption(row.email_blob@, u.email@, key);
    aes_engine::lemma_decrypt_encryption(row.national_id_blob@, u.national_id@, key);
}

/// Reference SQL: the sensitive fields are `BYTEA` columns, unreadable in a plain `SELECT`.
pub const POSTGRES_SCHEMA_SQL: &'static str =
    "\nCREATE TABLE IF NOT EXISTS users (\n  id BIGSERIAL PRIMARY KEY,\n  username TEXT NOT NULL UNIQUE,\n  email_enc BYTEA NOT NULL,\n  national_id_enc BYTEA NOT NULL\n);\n";

} // verus!
