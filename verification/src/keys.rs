//! Keys derived from the master key of the library.
use vstd::prelude::*;

verus! {

/// The output of HKDF with SHA-256 (RFC 5869) for the salt, the input key, and the info,
/// 32 bytes long.
pub uninterp spec fn hkdf_sha256_32(salt: Seq<u8>, ikm: Seq<u8>, info: Seq<u8>) -> Seq<u8>;

/// Calls `hkdf::Hkdf::<sha2::Sha256>::new(Some(salt), ikm)` and then `expand(info, ..)` into 32
/// bytes. The crate's `expand` fails only for an output longer than 255 blocks of the hash, so it
/// does not fail here. The contract claims only that the result depends on the three inputs alone.
#[verifier::external_body]
fn hkdf_sha256_expand(salt: &[u8], ikm: &[u8], info: &[u8]) -> (r: [u8; 32])
    ensures
        r@ == hkdf_sha256_32(salt@, ikm@, info@),
{
    let mut okm = [0u8; 32];
    hkdf::Hkdf::<sha2::Sha256>::new(Some(salt), ikm).expand(info, &mut okm).expect("32 bytes");
    okm
}

/// The character of a 6-bit value in the standard Base64 alphabet.
pub open spec fn base64_char(v: int) -> char {
    if v < 26 {
        (65 + v) as char
    } else if v < 52 {
        (97 + v - 26) as char
    } else if v < 62 {
        (48 + v - 52) as char
    } else if v == 62 {
        '+'
    } else {
        '/'
    }
}

/// Standard Base64 (RFC 4648, section 4) with '=' padding: each 3 bytes give 4 characters.
pub open spec fn base64_standard(b: Seq<u8>) -> Seq<char>
    decreases b.len(),
{
    let x = if b.len() > 0 { b[0] as int } else { 0 };
    let y = if b.len() > 1 { b[1] as int } else { 0 };
    let z = if b.len() > 2 { b[2] as int } else { 0 };
    if b.len() == 0 {
        seq![]
    } else if b.len() == 1 {
        seq![base64_char(x / 4), base64_char((x % 4) * 16), '=', '=']
    } else if b.len() == 2 {
        seq![
            base64_char(x / 4),
            base64_char((x % 4) * 16 + y / 16),
            base64_char((y % 16) * 4),
            '=',
        ]
    } else {
        seq![
            base64_char(x / 4),
            base64_char((x % 4) * 16 + y / 16),
            base64_char((y % 16) * 4 + z / 64),
            base64_char(z % 64),
        ] + base64_standard(b.skip(3))
    }
}

/// Calls `base64::engine::general_purpose::STANDARD.encode`, the standard alphabet with padding,
/// which the contract states as `base64_standard`.
#[verifier::external_body]
fn base64_encode(bytes: &[u8]) -> (r: String)
    ensures
        r@ == base64_standard(bytes@),
{
    base64::Engine::encode(&base64::engine::general_purpose::STANDARD, bytes)
}

/// The salt of the derivation.
pub open spec fn salt() -> Seq<u8> {
    seq![116u8, 105u8, 110u8, 116u8, 97u8]
}

/// Keys derived from the master key in the Keychain.
#[derive(Clone)]
pub struct Keys {
    pub database: [u8; 32],
    pub audio: [u8; 32],
}

/// The derivation of the keys does not fail.
#[derive(Debug, Clone, Copy, PartialEq, Eq, Structural)]
pub enum KeyError {
    Hkdf,
}

impl Keys {
    /// The database key and the audio key: HKDF-SHA256 of the master key with the salt "tinta"
    /// and the infos "database" and "audio".
    pub fn derive(master: &[u8]) -> (r: Result<Keys, KeyError>)
        ensures
            r matches Ok(k) && k.database@ == hkdf_sha256_32(salt(), master@, "database"@.map_values(
                |c: char| c as u8,
            )) && k.audio@ == hkdf_sha256_32(salt(), master@, "audio"@.map_values(|c: char| c as u8)),
    {
        let salt_bytes: [u8; 5] = [116, 105, 110, 116, 97];
        let database_info: [u8; 8] = [100, 97, 116, 97, 98, 97, 115, 101];
        let audio_info: [u8; 5] = [97, 117, 100, 105, 111];
        proof {
            reveal_strlit("database");
            reveal_strlit("audio");
            assert(salt_bytes@ =~= salt());
            assert(database_info@ =~= "database"@.map_values(|c: char| c as u8));
            assert(audio_info@ =~= "audio"@.map_values(|c: char| c as u8));
        }
        let database = hkdf_sha256_expand(&salt_bytes, master, &database_info);
        let audio = hkdf_sha256_expand(&salt_bytes, master, &audio_info);
        Ok(Keys { database, audio })
    }

    /// The audio key in standard Base64.
    pub fn audio_base64(&self) -> (r: String)
        ensures
            r@ == base64_standard(self.audio@),
    {
        base64_encode(&self.audio)
    }

    /// Test keys that never touch the Keychain: the keys of a master key of 32 bytes of 7.
    pub fn for_tests() -> (r: Keys)
        ensures
            r.database@ == hkdf_sha256_32(salt(), Seq::new(32, |i: int| 7u8), "database"@.map_values(
                |c: char| c as u8,
            )),
            r.audio@ == hkdf_sha256_32(salt(), Seq::new(32, |i: int| 7u8), "audio"@.map_values(
                |c: char| c as u8,
            )),
    {
        let master = [7u8; 32];
        assert(master@ =~= Seq::new(32, |i: int| 7u8));
        match Keys::derive(&master) {
            Ok(k) => k,
            Err(_) => Keys { database: [0u8; 32], audio: [0u8; 32] },
        }
    }
}

} // verus!
