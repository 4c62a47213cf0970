//! The store facade: writing a document gives a new identifier, the bytes of
//! its container and a clean index record; reading gives the document back.

use vstd::prelude::*;
use vstd::slice::slice_subrange;
use vstd::string::StringExecFns;
use crate::container::body_of;
use crate::container::container_bytes;
use crate::container::encode_container;
use crate::container::lemma_container_parses_back;
use crate::container::magic_tag;
use crate::container::parse_frames;
use crate::container::parse_header;
use crate::container::parsed_frames;
use crate::container::parsed_header;
use crate::container::Header;
use crate::container::HeaderView;
use crate::error::StoreError;
use crate::keys::derive_key;
use crate::keys::derived_key;
use crate::keys::fresh_salt;
use crate::keys::key_is_usable;
use crate::keys::KeyInput;
use crate::ledger::empty_metadata;
use crate::ledger::Ledger;
use crate::ledger::RecordView;
use crate::packager::entry_name_of;
use crate::packager::pack;
use crate::packager::unpack;
use crate::packager::unpacked;
use crate::packager::Document;
use crate::primitives::archive_limit;
use crate::primitives::archived;
use crate::nonce::chunk_nonce_of;
use crate::nonce::NONCE_LEN;
use crate::primitives::fresh_identifier;
use crate::primitives::hyphenated_text;
use crate::primitives::identifier_text;
use crate::primitives::opened;
use crate::primitives::random_bytes;
use crate::stream::chunk_count;
use crate::stream::decrypt_stream;
use crate::stream::frame_views;
use crate::stream::opened_frames;
use crate::stream::seal_stream;
use crate::stream::sealed_frames;

verus! {

/// The chunk size that a written header declares.
pub const DECLARED_CHUNK_SIZE: u32 = 65536;

/// A container that was just written: its identifier and its bytes.
#[derive(Debug)]
pub struct NewContainer {
    pub id: u128,
    pub bytes: Vec<u8>,
}

/// The archive that a container's frames open to under a key: the frames
/// after the header, parsed (`MalformedContainer` where they are cut short)
/// and opened in order (`AuthenticationFailure` where one does not verify).
pub open spec fn opened_archive(bytes: Seq<u8>, root: Seq<u8>, key: Seq<u8>) -> Result<
    Seq<u8>,
    StoreError,
> {
    match parsed_frames(body_of(bytes)) {
        None => Err(StoreError::MalformedContainer),
        Some(frames) => match opened_frames(key, root, frames) {
            None => Err(StoreError::AuthenticationFailure),
            Some(archive) => Ok(archive),
        },
    }
}

/// What reading a container with a key input gives: the errors of the
/// header first, then those of the key, of the frames and of the archive,
/// and the document's text where none arises.
pub open spec fn read_result(bytes: Seq<u8>, input: KeyInput) -> Result<Seq<u8>, StoreError> {
    match parsed_header(bytes) {
        Err(e) => Err(e),
        Ok(header) => match derived_key(input, header.salt) {
            Err(e) => Err(e),
            Ok(key) => match opened_archive(bytes, header.root_nonce, key) {
                Err(e) => Err(e),
                Ok(archive) => unpacked(archive),
            },
        },
    }
}

/// Whether a container is what writing a document's text with a key input
/// gives: a header with the declared chunk size, a zero salt unless the
/// input is a passphrase, and the frames that seal the text's archive under
/// the derived key and the header's root nonce.
pub open spec fn written_as(bytes: Seq<u8>, input: KeyInput, text: Seq<u8>) -> bool {
    match parsed_header(bytes) {
        Err(_) => false,
        Ok(header) => {
            &&& header.wf()
            &&& header.chunk_size == 65536
            &&& !(input is Passphrase) ==> header.salt == Seq::new(16, |i: int| 0u8)
            &&& match derived_key(input, header.salt) {
                Err(_) => false,
                Ok(key) => bytes == container_bytes(
                    header,
                    sealed_frames(key, header.root_nonce, archived(entry_name_of(), text)),
                ),
            }
        },
    }
}

/// A container with a sound header and a usable key whose frames parse, but
/// of which one does not verify under the nonce of its place, reads as
/// `AuthenticationFailure`: never as a document.
pub proof fn lemma_rejected_frame_fails_read(bytes: Seq<u8>, input: KeyInput, i: int)
    requires
        parsed_header(bytes) is Ok,
        derived_key(input, parsed_header(bytes)->Ok_0.salt) is Ok,
        parsed_frames(body_of(bytes)) is Some,
        0 <= i < parsed_frames(body_of(bytes))->Some_0.len(),
        opened(
            derived_key(input, parsed_header(bytes)->Ok_0.salt)->Ok_0,
            chunk_nonce_of(parsed_header(bytes)->Ok_0.root_nonce, i as u64),
            parsed_frames(body_of(bytes))->Some_0[i],
        ) is None,
    ensures
        read_result(bytes, input) == Err::<Seq<u8>, StoreError>(
            StoreError::AuthenticationFailure,
        ),
{
    let header = parsed_header(bytes)->Ok_0;
    let key = derived_key(input, header.salt)->Ok_0;
    let frames = parsed_frames(body_of(bytes))->Some_0;
    crate::stream::lemma_rejected_frame_fails_stream(key, header.root_nonce, frames, i);
}

/// The file name of a container: its identifier as a hyphenated UUID, then
/// `.bin`; 40 characters, with hyphens at places 8, 13, 18 and 23.
pub fn container_file_name(id: u128) -> (name: String)
    ensures
        name@ == hyphenated_text(id) + ".bin"@,
        name@.len() == 40,
        name@[8] == '-' && name@[13] == '-' && name@[18] == '-' && name@[23] == '-',
        name@.subrange(36, 40) == seq!['.', 'b', 'i', 'n'],
{
    proof {
        reveal_strlit(".bin");
    }
    let mut name = identifier_text(id);
    name.append(".bin");
    assert(name@.subrange(36, 40) =~= seq!['.', 'b', 'i', 'n']);
    name
}

/// Seals an archive under a key and a root nonce and puts the container
/// together. The container parses back to the same header, and its frames
/// open to the archive under the same key.
pub fn assemble_container(archive: &[u8], key: &[u8], salt: Vec<u8>, root_nonce: Vec<u8>) -> (r:
    Result<Vec<u8>, StoreError>)
    requires
        key@.len() == 32,
        salt@.len() == 16,
        root_nonce@.len() == 24,
    ensures
        r matches Ok(bytes) && bytes@ == container_bytes(
            (HeaderView { salt: salt@, root_nonce: root_nonce@, chunk_size: 65536 }),
            sealed_frames(key@, root_nonce@, archive@),
        ) && parsed_header(bytes@) == Ok::<HeaderView, StoreError>(
            (HeaderView { salt: salt@, root_nonce: root_nonce@, chunk_size: 65536 }),
        ) && opened_archive(bytes@, root_nonce@, key@) == Ok::<Seq<u8>, StoreError>(archive@)
            && bytes@.len() == 48 + archive@.len() + 24 * chunk_count(archive@.len()),
{
    let frames = match seal_stream(archive, key, root_nonce.as_slice()) {
        Ok(frames) => frames,
        Err(e) => {
            return Err(e);
        },
    };
    let header = Header { salt, root_nonce, chunk_size: DECLARED_CHUNK_SIZE };
    let bytes = encode_container(&header, &frames);
    proof {
        let views = frame_views(frames@);
        assert forall|i: int| 0 <= i < views.len() implies (#[trigger] views[i]).len()
            <= u64::MAX by {
            assert(views[i] == frames@[i]@);
        }
        lemma_container_parses_back(header@, views);
        lemma_container_length(header@, views, archive@);
    }
    Ok(bytes)
}

/// The total length of frames that each hold one chunk of a stream and its
/// tag, each behind eight bytes of length.
proof fn lemma_frames_length(frames: Seq<Seq<u8>>, plain: Seq<u8>, n: int)
    requires
        0 <= n <= frames.len(),
        frames.len() == chunk_count(plain.len()),
        forall|i: int|
            0 <= i < frames.len() ==> (#[trigger] frames[i]).len() == crate::stream::chunk_of(
                plain,
                i,
            ).len() + 16,
    ensures
        crate::container::frames_bytes(frames.take(n)).len() == 24 * n + (if n == 0 {
            0
        } else {
            crate::stream::chunk_end(plain.len(), n - 1)
        }),
    decreases n,
{
    if n == 0 {
        assert(frames.take(0).len() == 0);
    } else {
        lemma_frames_length(frames, plain, n - 1);
        crate::container::lemma_frames_bytes_push(frames.take(n - 1), frames[n - 1]);
        assert(frames.take(n - 1).push(frames[n - 1]) =~= frames.take(n));
        vstd::bytes::lemma_auto_spec_u64_to_from_le_bytes();
    }
}

proof fn lemma_container_length(header: HeaderView, frames: Seq<Seq<u8>>, plain: Seq<u8>)
    requires
        header.wf(),
        frames.len() == chunk_count(plain.len()),
        forall|i: int|
            0 <= i < frames.len() ==> (#[trigger] frames[i]).len() == crate::stream::chunk_of(
                plain,
                i,
            ).len() + 16,
    ensures
        container_bytes(header, frames).len() == 48 + plain.len() + 24 * chunk_count(plain.len()),
{
    vstd::bytes::lemma_auto_spec_u32_to_from_le_bytes();
    lemma_frames_length(frames, plain, frames.len() as int);
    assert(frames.take(frames.len() as int) =~= frames);
}

/// Writes a document into a new container under a fresh identifier.
///
/// The key is derived first, under a fresh salt: raw key material of the
/// wrong length gives `InvalidKeyLength`, an input that is neither raw bytes
/// nor an acceptable passphrase `UnsupportedKeyInput`. Then the document is
/// packed, which gives `IoError` where the archive writer fails, and sealed
/// under a fresh root nonce. With a usable key and a document of up to
/// `archive_limit` bytes the write always succeeds. A container that comes
/// back reads back, with the same key input, to the document.
pub fn write_container(document: &Document, input: &KeyInput) -> (r: Result<
    NewContainer,
    StoreError,
>)
    ensures
        r matches Ok(made) ==> read_result(made.bytes@, *input) == Ok::<Seq<u8>, StoreError>(
            document@,
        ),
        r matches Ok(made) ==> written_as(made.bytes@, *input, document@),
        (key_is_usable(*input) && document@.len() <= archive_limit()) ==> r is Ok,
        r matches Err(e) ==> (e == StoreError::InvalidKeyLength || e
            == StoreError::UnsupportedKeyInput || e == StoreError::IoError),
        (input matches KeyInput::Raw(raw) && raw@.len() != 32) ==> (r matches Err(e) && e
            == StoreError::InvalidKeyLength),
        input is Other ==> (r matches Err(e) && e == StoreError::UnsupportedKeyInput),
        (input matches KeyInput::Raw(raw) && raw@.len() == 32) ==> (r is Ok || (r matches Err(e)
            && e == StoreError::IoError)),
        input is Passphrase ==> (r is Ok || (r matches Err(e) && (e == StoreError::IoError || e
            == StoreError::UnsupportedKeyInput))),
{
    let salt = fresh_salt(input);
    let key = match derive_key(input, salt.as_slice()) {
        Ok(key) => key,
        Err(e) => {
            return Err(e);
        },
    };
    let archive = match pack(document) {
        Ok(archive) => archive,
        Err(e) => {
            return Err(e);
        },
    };
    let root_nonce = random_bytes(NONCE_LEN);
    let bytes = match assemble_container(archive.as_slice(), key.as_slice(), salt, root_nonce) {
        Ok(bytes) => bytes,
        Err(e) => {
            return Err(e);
        },
    };
    let id = fresh_identifier();
    Ok(NewContainer { id, bytes })
}

/// Reads the document out of a container.
///
/// `MalformedContainer` where the header or a frame is cut short or the
/// archive lacks its entry, `BadMagic` where the first four bytes are not
/// the format tag, the key input's own error where it has one,
/// `AuthenticationFailure` where a frame does not verify under the key, and
/// `MalformedDocument` where the entry is not one JSON value.
pub fn read_container(bytes: &[u8], input: &KeyInput) -> (r: Result<Document, StoreError>)
    ensures
        match read_result(bytes@, *input) {
            Ok(text) => r matches Ok(document) && document@ == text,
            Err(e) => r matches Err(x) && x == e,
        },
        (bytes@.len() >= 4 && bytes@.subrange(0, 4) != magic_tag()) ==> (r matches Err(e) && e
            == StoreError::BadMagic),
{
    let header = match parse_header(bytes) {
        Ok(header) => header,
        Err(e) => {
            return Err(e);
        },
    };
    let key = match derive_key(input, header.salt.as_slice()) {
        Ok(key) => key,
        Err(e) => {
            return Err(e);
        },
    };
    let frames = match parse_frames(slice_subrange(bytes, 48, bytes.len())) {
        Ok(frames) => frames,
        Err(e) => {
            return Err(e);
        },
    };
    let archive = match decrypt_stream(header.root_nonce.as_slice(), &frames, key.as_slice()) {
        Ok(archive) => archive,
        Err(e) => {
            return Err(e);
        },
    };
    unpack(archive.as_slice())
}

/// Writes a document and enters it in the ledger: a clean record made at
/// `now`, with the caller's metadata or, where there is none, the empty JSON
/// object. Where the write fails the ledger stays as it was.
pub fn write(
    ledger: &mut Ledger,
    document: &Document,
    input: &KeyInput,
    metadata: Option<&[u8]>,
    now: u64,
) -> (r: Result<NewContainer, StoreError>)
    requires
        old(ledger).wf(),
    ensures
        final(ledger).wf(),
        r matches Ok(made) ==> read_result(made.bytes@, *input) == Ok::<Seq<u8>, StoreError>(
            document@,
        ) && final(ledger)@ == old(ledger)@.insert(
            made.id,
            (RecordView {
                created_at: now,
                dirty: false,
                metadata: match metadata {
                    Some(given) => given@,
                    None => empty_metadata(),
                },
            }),
        ),
        r is Err ==> final(ledger)@ == old(ledger)@,
        (key_is_usable(*input) && document@.len() <= archive_limit()) ==> r is Ok,
        r matches Err(e) ==> (e == StoreError::InvalidKeyLength || e
            == StoreError::UnsupportedKeyInput || e == StoreError::IoError),
        (input matches KeyInput::Raw(raw) && raw@.len() != 32) ==> (r matches Err(e) && e
            == StoreError::InvalidKeyLength),
        input is Other ==> (r matches Err(e) && e == StoreError::UnsupportedKeyInput),
        (input matches KeyInput::Raw(raw) && raw@.len() == 32) ==> (r is Ok || (r matches Err(e)
            && e == StoreError::IoError)),
{
    let made = match write_container(document, input) {
        Ok(made) => made,
        Err(e) => {
            return Err(e);
        },
    };
    match metadata {
        Some(given) => ledger.upsert(made.id, now, false, given),
        None => {
            let mut empty: Vec<u8> = Vec::new();
            empty.push(0x7b);
            empty.push(0x7d);
            assert(empty@ =~= empty_metadata());
            ledger.upsert(made.id, now, false, empty.as_slice());
        },
    }
    Ok(made)
}

/// Reads a document out of the bytes of its container.
pub fn read(bytes: &[u8], input: &KeyInput) -> (r: Result<Document, StoreError>)
    ensures
        match read_result(bytes@, *input) {
            Ok(text) => r matches Ok(document) && document@ == text,
            Err(e) => r matches Err(x) && x == e,
        },
{
    read_container(bytes, input)
}

/// Marks an identifier dirty in the ledger.
pub fn mark_dirty(ledger: &mut Ledger, id: u128, now: u64)
    requires
        old(ledger).wf(),
    ensures
        final(ledger).wf(),
        final(ledger)@ == crate::ledger::marked_dirty(old(ledger)@, id, now),
{
    ledger.mark_dirty(id, now);
}

} // verus!
