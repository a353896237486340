use vstd::prelude::*;

use super::aes_engine::{self, crypto_error_text, decrypt_result, flipped, is_encryption_of, max_plaintext_len, KEY_LEN};
use super::user_repo::{self, key_error_text, KeyLoadError, User};
use crate::codec::{self, hex_decoded, hex_decodes, hex_encoded, trimmed, utf8_bytes};

verus! {

/// The message for a missing positional argument.
pub open spec fn missing_arg_message(idx: nat) -> Seq<char> {
    "missing argument at position "@ + codec::decimal(idx)
}

/// The argument at position `idx`, or an error naming the missing position.
pub fn must_arg(args: &[String], idx: usize) -> (r: Result<String, String>)
    ensures
        idx < args@.len() ==> (r matches Ok(a) && a@ == args@[idx as int]@),
        idx >= args@.len() ==> (r matches Err(m) && m@ == missing_arg_message(idx as nat)),
{
    if idx < args.len() {
        Ok(args[idx].clone())
    } else {
        let mut m = String::from_str("missing argument at position ");
        let n = codec::decimal_string(idx as u64);
        m.append(n.as_str());
        proof {
            reveal_strlit("missing argument at position ");
        }
        Err(m)
    }
}

/// A command of the storage tool.
#[derive(Debug, Clone, PartialEq, Eq)]
pub enum Command {
    Help,
    Encrypt { plaintext: String },
    Decrypt { hex_blob: String },
    FlipBit { hex_blob: String },
    DemoRow { email: String, national_id: String },
    PrintSchema,
}

fn is_word(arg: &String, word: &str) -> (r: bool)
    ensures
        r == (arg@ == word@),
{
    let w = String::from_str(word);
    *arg == w
}

/// Reads the command line (`args[0]` is the program): fewer than two arguments or an
/// unknown command ask for help; a known command takes its positional arguments, and a
/// missing one is an error naming its position.
pub fn parse_command(args: &[String]) -> (r: Result<Command, String>)
    ensures
        args@.len() < 2 ==> r == Ok::<Command, String>(Command::Help),
        args@.len() >= 2 && args@[1]@ == "encrypt"@ ==> (if args@.len() > 2 {
            r matches Ok(Command::Encrypt { plaintext }) && plaintext@ == args@[2]@
        } else {
            r matches Err(m) && m@ == missing_arg_message(2)
        }),
        args@.len() >= 2 && args@[1]@ == "decrypt"@ ==> (if args@.len() > 2 {
            r matches Ok(Command::Decrypt { hex_blob }) && hex_blob@ == args@[2]@
        } else {
            r matches Err(m) && m@ == missing_arg_message(2)
        }),
        args@.len() >= 2 && args@[1]@ == "flipbit"@ ==> (if args@.len() > 2 {
            r matches Ok(Command::FlipBit { hex_blob }) && hex_blob@ == args@[2]@
        } else {
            r matches Err(m) && m@ == missing_arg_message(2)
        }),
        args@.len() >= 2 && args@[1]@ == "demo-row"@ ==> (if args@.len() > 3 {
            r matches Ok(Command::DemoRow { email, national_id }) && email@ == args@[2]@
                && national_id@ == args@[3]@
        } else if args@.len() == 3 {
            r matches Err(m) && m@ == missing_arg_message(3)
        } else {
            r matches Err(m) && m@ == missing_arg_message(2)
        }),
        args@.len() >= 2 && args@[1]@ == "print-schema"@ ==> r == Ok::<Command, String>(
            Command::PrintSchema,
        ),
        args@.len() >= 2 && args@[1]@ != "encrypt"@ && args@[1]@ != "decrypt"@ && args@[1]@
            != "flipbit"@ && args@[1]@ != "demo-row"@ && args@[1]@ != "print-schema"@ ==> r
            == Ok::<Command, String>(Command::Help),
{
    proof {
        reveal_strlit("encrypt");
        reveal_strlit("decrypt");
        reveal_strlit("flipbit");
        reveal_strlit("demo-row");
        reveal_strlit("print-schema");
        assert("encrypt"@.len() == 7);
        assert("decrypt"@.len() == 7);
        assert("flipbit"@.len() == 7);
        assert("demo-row"@.len() == 8);
        assert("print-schema"@.len() == 12);
        assert("encrypt"@[0] != "decrypt"@[0]);
        assert("encrypt"@[0] != "flipbit"@[0]);
        assert("decrypt"@[0] != "flipbit"@[0]);
    }
    if args.len() < 2 {
        return Ok(Command::Help);
    }
    let cmd = &args[1];
    if is_word(cmd, "encrypt") {
        let plaintext = must_arg(args, 2)?;
        Ok(Command::Encrypt { plaintext })
    } else if is_word(cmd, "decrypt") {
        let hex_blob = must_arg(args, 2)?;
        Ok(Command::Decrypt { hex_blob })
    } else if is_word(cmd, "flipbit") {
        let hex_blob = must_arg(args, 2)?;
        Ok(Command::FlipBit { hex_blob })
    } else if is_word(cmd, "demo-row") {
        let email = must_arg(args, 2)?;
        let national_id = must_arg(args, 3)?;
        Ok(Command::DemoRow { email, national_id })
    } else if is_word(cmd, "print-schema") {
        Ok(Command::PrintSchema)
    } else {
        Ok(Command::Help)
    }
}

/// The bytes that a blob argument stands for: its trimmed text, decoded from hexadecimal.
fn blob_from_arg(text: &str) -> (r: Result<Vec<u8>, String>)
    ensures
        r is Ok <==> hex_decodes(utf8_bytes(trimmed(text@))),
        r matches Ok(b) ==> b@ == hex_decoded(utf8_bytes(trimmed(text@))),
{
    match codec::hex_decode(codec::trim(text)) {
        Ok(b) => Ok(b),
        Err(e) => Err(user_repo::hex_error_text(&e)),
    }
}

/// The `encrypt` command: the hexadecimal blob of `plaintext` under the loaded key, or
/// the key's or the cipher's error message.
pub fn encrypt_command(plaintext: &str, key: &Result<[u8; KEY_LEN], KeyLoadError>) -> (r: Result<
    String,
    String,
>)
    ensures
        key matches Err(e) ==> (r matches Err(m) && m@ == key_error_text(*e)),
        key matches Ok(k) ==> match r {
            Ok(line) => exists|blob: Seq<u8>|
                is_encryption_of(blob, plaintext@, k@) && line@ == #[trigger] hex_encoded(blob),
            Err(m) => utf8_bytes(plaintext@).len() > max_plaintext_len() && m@
                == crypto_error_text(aes_engine::CryptoError::AuthFailed),
        },
        key is Ok && utf8_bytes(plaintext@).len() <= max_plaintext_len() ==> r is Ok,
{
    let k = match key {
        Ok(k) => k,
        Err(e) => { return Err(e.message()); },
    };
    match aes_engine::encrypt(plaintext, k.as_slice()) {
        Ok(blob) => {
            let line = codec::hex_encode(blob.as_slice());
            proof {
                assert(line@ == hex_encoded(blob@));
            }
            Ok(line)
        },
        Err(e) => Err(e.message()),
    }
}

/// The `decrypt` command: the blob argument is decoded first, then decrypted with the
/// loaded key; gives the plaintext or an error message.
pub fn decrypt_command(hex_blob: &str, key: &Result<[u8; KEY_LEN], KeyLoadError>) -> (r: Result<
    String,
    String,
>)
    ensures
        !hex_decodes(utf8_bytes(trimmed(hex_blob@))) ==> r is Err,
        hex_decodes(utf8_bytes(trimmed(hex_blob@))) ==> match key {
            Err(e) => r matches Err(m) && m@ == key_error_text(*e),
            Ok(k) => match decrypt_result(hex_decoded(utf8_bytes(trimmed(hex_blob@))), k@) {
                Ok(p) => r matches Ok(s) && s@ == p,
                Err(ce) => r matches Err(m) && m@ == crypto_error_text(ce),
            },
        },
{
    let blob = blob_from_arg(hex_blob)?;
    let k = match key {
        Ok(k) => k,
        Err(e) => { return Err(e.message()); },
    };
    match aes_engine::decrypt(blob.as_slice(), k.as_slice()) {
        Ok(p) => Ok(p),
        Err(e) => Err(e.message()),
    }
}

/// The `flipbit` command: the blob argument with one ciphertext bit flipped, in
/// hexadecimal.
pub fn flipbit_command(hex_blob: &str) -> (r: Result<String, String>)
    ensures
        r is Ok <==> hex_decodes(utf8_bytes(trimmed(hex_blob@))),
        r matches Ok(line) ==> line@ == hex_encoded(
            flipped(hex_decoded(utf8_bytes(trimmed(hex_blob@)))),
        ),
{
    let blob = blob_from_arg(hex_blob)?;
    let tampered = aes_engine::flip_one_bit(blob);
    Ok(codec::hex_encode(tampered.as_slice()))
}

/// The `demo-row` command: stores a demo user (id 1, name `demo`) with the given
/// sensitive fields, then reads it back; gives the printed lines (name, the two blobs in
/// hexadecimal, the two recovered fields) or an error message.
pub fn demo_row_command(email: &str, national_id: &str, key: Option<&[u8; KEY_LEN]>) -> (r: Result<
    Vec<String>,
    String,
>)
    ensures
        key is None ==> (r matches Err(m) && m@ == crypto_error_text(
            aes_engine::CryptoError::InvalidKeyLen { got: 0 },
        )),
        key is Some && utf8_bytes(email@).len() <= max_plaintext_len() && utf8_bytes(
            national_id@,
        ).len() <= max_plaintext_len() ==> r is Ok,
        r matches Ok(lines) ==> {
            &&& lines.len() == 5
            &&& lines[0]@ == "username=demo"@
            &&& lines[3]@ == "roundtrip_email="@ + email@
            &&& lines[4]@ == "roundtrip_national_id="@ + national_id@
            &&& key matches Some(k) && exists|eb: Seq<u8>, nb: Seq<u8>|
                #![trigger hex_encoded(eb), hex_encoded(nb)]
                lines[1]@ == "email_enc_hex="@ + hex_encoded(eb) && lines[2]@
                    == "national_id_enc_hex="@ + hex_encoded(nb) && is_encryption_of(eb, email@, k@)
                    && is_encryption_of(nb, national_id@, k@)
        },
{
    let u = User {
        id: 1,
        username: String::from_str("demo"),
        email: email.to_string(),
        national_id: national_id.to_string(),
    };
    let row = match user_repo::to_encrypted_row(&u, key) {
        Ok(row) => row,
        Err(e) => { return Err(e.message()); },
    };
    let back = match user_repo::from_encrypted_row(&row, key) {
        Ok(b) => b,
        Err(e) => { return Err(e.message()); },
    };
    proof {
        reveal_strlit("demo");
        assert(back@ == u@);
    }
    let mut lines: Vec<String> = Vec::new();
    let mut l0 = String::from_str("username=");
    l0.append(row.username.as_str());
    lines.push(l0);
    let mut l1 = String::from_str("email_enc_hex=");
    let h1 = codec::hex_encode(row.email_blob.as_slice());
    l1.append(h1.as_str());
    lines.push(l1);
    let mut l2 = String::from_str("national_id_enc_hex=");
    let h2 = codec::hex_encode(row.national_id_blob.as_slice());
    l2.append(h2.as_str());
    lines.push(l2);
    let mut l3 = String::from_str("roundtrip_email=");
    l3.append(back.email.as_str());
    lines.push(l3);
    let mut l4 = String::from_str("roundtrip_national_id=");
    l4.append(back.national_id.as_str());
    lines.push(l4);
    proof {
        reveal_strlit("username=");
        reveal_strlit("demo");
        reveal_strlit("username=demo");
        assert(row.username@ == "demo"@);
        assert(lines@[0]@ =~= "username=demo"@);
        assert(h1@ == hex_encoded(row.email_blob@));
        assert(h2@ == hex_encoded(row.national_id_blob@));
    }
    Ok(lines)
}

} // verus!
