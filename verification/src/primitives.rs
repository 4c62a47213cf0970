//! The calls into the cipher, key-derivation, archive, JSON, randomness, clock and
//! identifier crates. Nothing in this file is proved: each contract records
//! what the called function does.

use vstd::prelude::*;
use chacha20poly1305::aead::Aead;
use chacha20poly1305::aead::KeyInit;
use std::io::Read;
use std::io::Write;

verus! {

/// What XChaCha20-Poly1305 makes of a plaintext under a 32-byte key and a
/// 24-byte nonce, with no associated data: the ciphertext followed by its tag.
pub uninterp spec fn sealed(key: Seq<u8>, nonce: Seq<u8>, plain: Seq<u8>) -> Seq<u8>;

/// What XChaCha20-Poly1305 recovers from a ciphertext with its tag under a
/// 32-byte key and a 24-byte nonce: the plaintext, or nothing where the tag
/// does not verify.
pub uninterp spec fn opened(key: Seq<u8>, nonce: Seq<u8>, frame: Seq<u8>) -> Option<Seq<u8>>;

/// The Argon2id (version 0x13) hash of a passphrase under a salt, for a
/// memory cost in KiB, a number of passes, a number of lanes and an output
/// length in bytes; nothing where the function rejects its inputs.
pub uninterp spec fn stretched(
    pass: Seq<char>,
    salt: Seq<u8>,
    memory: u32,
    passes: u32,
    lanes: u32,
    length: usize,
) -> Option<Seq<u8>>;

/// The deflated one-entry ZIP archive that holds a content under a name.
pub uninterp spec fn archived(name: Seq<char>, content: Seq<u8>) -> Seq<u8>;

/// The content of the entry of a given name in a ZIP archive; nothing where
/// the bytes are no archive, the entry is absent, refused as encrypted or
/// its content is damaged.
pub uninterp spec fn extracted(archive: Seq<u8>, name: Seq<char>) -> Option<Seq<u8>>;

/// Whether a text is one JSON value, as the JSON parser judges it.
pub uninterp spec fn well_formed_json(text: Seq<u8>) -> bool;

/// The plaintext length from which the cipher refuses to seal: 64 bytes for
/// each of the 2^32 - 1 blocks its counter can number.
pub open spec fn seal_limit() -> int {
    274_877_906_880int
}

/// A name that an archive entry can carry and be found by again: ASCII, and
/// short enough for the 16 bits in which the archive records its length.
pub open spec fn entry_name_fits(name: Seq<char>) -> bool {
    name.len() <= 65535 && vstd::utf8::is_ascii_chars(name)
}

/// The content length up to which the archive writer takes an entry without
/// its large-file option: half of the 4 GiB at which it refuses, which leaves
/// room for what deflating adds to data that does not shrink.
pub open spec fn archive_limit() -> int {
    0x7fff_ffff
}

/// The inputs that Argon2 accepts: at least 8 KiB of memory for each lane, at
/// least one pass, between 1 and 2^24 - 1 lanes, a salt of 8 bytes or more
/// and a passphrase and a salt of less than 4 GiB each. The output lengths
/// are those of a single hash, 4 to 64 bytes.
pub open spec fn stretch_accepts(
    pass: Seq<char>,
    salt: Seq<u8>,
    memory: u32,
    passes: u32,
    lanes: u32,
    length: usize,
) -> bool {
    &&& 1 <= lanes <= 0xff_ffff
    &&& 8 * lanes <= memory
    &&& 1 <= passes
    &&& 4 <= length <= 64
    &&& 8 <= salt.len() <= 0xffff_ffff
    &&& vstd::utf8::encode_utf8(pass).len() <= 0xffff_ffff
}

/// The lower-case character of one hexadecimal digit.
pub open spec fn hex_char(digit: u128) -> char {
    seq!['0', '1', '2', '3', '4', '5', '6', '7', '8', '9', 'a', 'b', 'c', 'd', 'e', 'f'][digit as int]
}

/// Which of an identifier's 32 hexadecimal digits, counted from the most
/// significant, stands at a place of its text that holds no hyphen.
pub open spec fn digit_at(place: int) -> int {
    if place < 8 {
        place
    } else if place < 13 {
        place - 1
    } else if place < 18 {
        place - 2
    } else if place < 23 {
        place - 3
    } else {
        place - 4
    }
}

/// A 128-bit identifier in the hyphenated text form of a UUID: 36
/// characters, hyphens at places 8, 13, 18 and 23, and elsewhere the
/// identifier's hexadecimal digits in lower case, the most significant first.
pub open spec fn hyphenated_text(id: u128) -> Seq<char> {
    Seq::new(
        36,
        |place: int|
            if place == 8 || place == 13 || place == 18 || place == 23 {
                '-'
            } else {
                hex_char((id >> ((4 * (31 - digit_at(place))) as u128)) & 0xf)
            },
    )
}

/// The bound on what the clock gives: chrono counts days in 32 bits and the
/// seconds of a day in 32 bits, so the seconds since the epoch stay below
/// 2^48.
pub open spec fn clock_limit() -> int {
    0x1_0000_0000_0000
}

/// Calls `XChaCha20Poly1305::encrypt` of chacha20poly1305. The call succeeds
/// below the cipher's length limit; the result is the sealed chunk, 16 bytes
/// (the tag) longer than the plaintext, and it opens again to that plaintext
/// under the same key and nonce.
#[verifier::external_body]
pub(crate) fn seal(key: &[u8], nonce: &[u8], plain: &[u8]) -> (r: Option<Vec<u8>>)
    requires
        key@.len() == 32,
        nonce@.len() == 24,
    ensures
        plain@.len() < seal_limit() ==> r is Some,
        r matches Some(c) ==> c@ == sealed(key@, nonce@, plain@),
        r matches Some(c) ==> c@.len() == plain@.len() + 16,
        r matches Some(c) ==> opened(key@, nonce@, c@) == Some(plain@),
{
    let cipher = chacha20poly1305::XChaCha20Poly1305::new(chacha20poly1305::Key::from_slice(key));
    cipher.encrypt(chacha20poly1305::XNonce::from_slice(nonce), plain).ok()
}

/// Calls `XChaCha20Poly1305::decrypt` of chacha20poly1305, with no
/// associated data: the plaintext where the tag verifies, nothing otherwise.
#[verifier::external_body]
pub(crate) fn open(key: &[u8], nonce: &[u8], frame: &[u8]) -> (r: Option<Vec<u8>>)
    requires
        key@.len() == 32,
        nonce@.len() == 24,
    ensures
        r is Some <==> opened(key@, nonce@, frame@) is Some,
        r matches Some(p) ==> opened(key@, nonce@, frame@) == Some(p@),
{
    let cipher = chacha20poly1305::XChaCha20Poly1305::new(chacha20poly1305::Key::from_slice(key));
    cipher.decrypt(chacha20poly1305::XNonce::from_slice(nonce), frame).ok()
}

/// Calls `Argon2::hash_password_into` of argon2 with Argon2id, version 0x13
/// and the given costs, into a buffer of the given length: the hash, of that
/// length, or nothing where argon2 rejects the costs or the inputs. It
/// rejects none of the inputs that `stretch_accepts` describes. The lanes are
/// bounded because argon2 multiplies them by 8 in 32 bits.
#[verifier::external_body]
pub(crate) fn stretch(
    pass: &str,
    salt: &[u8],
    memory: u32,
    passes: u32,
    lanes: u32,
    length: usize,
) -> (r: Option<Vec<u8>>)
    requires
        lanes <= 0x1fff_ffff,
    ensures
        r is Some <==> stretched(pass@, salt@, memory, passes, lanes, length) is Some,
        r matches Some(k) ==> stretched(pass@, salt@, memory, passes, lanes, length) == Some(k@),
        r matches Some(k) ==> k@.len() == length,
        stretch_accepts(pass@, salt@, memory, passes, lanes, length) ==> r is Some,
{
    let params = argon2::Params::new(memory, passes, lanes, None).ok()?;
    let hasher = argon2::Argon2::new(argon2::Algorithm::Argon2id, argon2::Version::V0x13, params);
    let mut out = vec![0u8; length];
    hasher.hash_password_into(pass.as_bytes(), salt, &mut out).ok()?;
    Some(out)
}

/// Writes one deflated entry with `ZipWriter` of zip into memory. The crate
/// is built without its `time` feature, so every entry carries the same
/// fixed date and equal inputs give equal archives. The name must fit, for
/// zip records the length of a longer one wrongly and does not find it
/// again. Writing into memory fails only where the entry outgrows what zip
/// takes without its large-file option, so it succeeds up to
/// `archive_limit`. An archive that comes back holds the content under the
/// name: reading the entry gives it back.
#[verifier::external_body]
pub(crate) fn archive_one(name: &str, content: &[u8]) -> (r: Option<Vec<u8>>)
    requires
        entry_name_fits(name@),
    ensures
        content@.len() <= archive_limit() ==> r is Some,
        r matches Some(a) ==> a@ == archived(name@, content@),
        r matches Some(a) ==> extracted(a@, name@) == Some(content@),
{
    let mut writer = zip::ZipWriter::new(std::io::Cursor::new(Vec::new()));
    let options = zip::write::FileOptions::default().compression_method(
        zip::CompressionMethod::Deflated,
    );
    writer.start_file(name, options).ok()?;
    writer.write_all(content).ok()?;
    Some(writer.finish().ok()?.into_inner())
}

/// Opens an archive with `ZipArchive::new` of zip, finds one entry with
/// `by_name_decrypt` and reads it to its end, which checks its CRC: the
/// content, or nothing where any of the three fails. `by_name_decrypt` hands
/// a refused entry back as an error where `by_name` would panic. It is given
/// the empty password, which it drops for an entry that is not marked
/// encrypted. An entry that is marked encrypted is read only where it was
/// encrypted with the legacy ZIP cipher under the empty password; one that
/// carries an AES field is refused.
#[verifier::external_body]
pub(crate) fn extract_one(archive: &[u8], name: &str) -> (r: Option<Vec<u8>>)
    ensures
        r is Some <==> extracted(archive@, name@) is Some,
        r matches Some(c) ==> extracted(archive@, name@) == Some(c@),
{
    let mut reader = zip::ZipArchive::new(std::io::Cursor::new(archive)).ok()?;
    let mut entry = reader.by_name_decrypt(name, &[]).ok()?.ok()?;
    let mut content = Vec::new();
    entry.read_to_end(&mut content).ok()?;
    Some(content)
}

/// Parses a text with `serde_json::from_slice` and says whether it is one
/// JSON value.
#[verifier::external_body]
pub(crate) fn parses_as_json(text: &[u8]) -> (r: bool)
    ensures
        r == well_formed_json(text@),
{
    serde_json::from_slice::<serde_json::Value>(text).is_ok()
}

/// Fills a buffer of the given length with `RngCore::fill_bytes` of rand's
/// thread-local generator. Only the length is known of the result.
#[verifier::external_body]
pub(crate) fn random_bytes(n: usize) -> (r: Vec<u8>)
    ensures
        r@.len() == n,
{
    let mut buffer = vec![0u8; n];
    rand::RngCore::fill_bytes(&mut rand::thread_rng(), &mut buffer);
    buffer
}

/// Draws a random (version 4) identifier with `Uuid::new_v4` of uuid, as its
/// 128-bit number.
#[verifier::external_body]
pub(crate) fn fresh_identifier() -> u128 {
    uuid::Uuid::new_v4().as_u128()
}

/// Writes an identifier with `Uuid::hyphenated` of uuid: the hyphenated
/// text of the number, as `hyphenated_text` spells it out.
#[verifier::external_body]
pub(crate) fn identifier_text(id: u128) -> (text: String)
    ensures
        text@ == hyphenated_text(id),
{
    uuid::Uuid::from_u128(id).hyphenated().to_string()
}

/// Reads the clock with `Utc::now` of chrono and takes its `timestamp`: the
/// seconds since the epoch, below `clock_limit`. Which second it is, nothing
/// says.
#[verifier::external_body]
pub(crate) fn clock_seconds() -> (now: i64)
    ensures
        now < clock_limit(),
{
    chrono::Utc::now().timestamp()
}

} // verus!
