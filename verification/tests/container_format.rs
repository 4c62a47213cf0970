use chacha20poly1305::aead::{Aead, KeyInit};
use jsonstore::container::{encode_container, parse_frames, parse_header, Header};
use jsonstore::error::StoreError;
use jsonstore::keys::{derive_key, fresh_salt, KeyInput};
use jsonstore::nonce::chunk_nonce;
use jsonstore::packager::{entry_name, pack, packed_outcome, unpack, Document};
use jsonstore::store::{assemble_container, container_file_name, read_container};
use jsonstore::stream::{decrypt_stream, encrypt_stream, seal_stream};
use std::io::Write;

fn archive_with(name: &str, content: &[u8]) -> Vec<u8> {
    let mut writer = zip::ZipWriter::new(std::io::Cursor::new(Vec::new()));
    let options = zip::write::FileOptions::default();
    writer.start_file(name, options).unwrap();
    writer.write_all(content).unwrap();
    writer.finish().unwrap().into_inner()
}

#[test]
fn chunk_nonce_of_index_zero_is_the_root() {
    let root: Vec<u8> = (0u8..24).collect();
    assert_eq!(chunk_nonce(&root, 0), root);
}

#[test]
fn chunk_nonce_xors_the_last_eight_bytes() {
    let root = vec![0u8; 24];
    let mut expected = vec![0u8; 24];
    expected[16] = 1;
    assert_eq!(chunk_nonce(&root, 1), expected);

    let root: Vec<u8> = vec![0xff; 24];
    let nonce = chunk_nonce(&root, 0x0102_0304_0506_0708);
    let mut expected = vec![0xffu8; 24];
    let le = [0x08u8, 0x07, 0x06, 0x05, 0x04, 0x03, 0x02, 0x01];
    for i in 0..8 {
        expected[16 + i] = 0xff ^ le[i];
    }
    assert_eq!(nonce, expected);
    assert_eq!(&nonce[..16], &root[..16]);
}

#[test]
fn header_and_frames_have_the_documented_layout() {
    let header = Header {
        salt: (100u8..116).collect(),
        root_nonce: (200u8..224).collect(),
        chunk_size: 65536,
    };
    let frames = vec![vec![0xaa, 0xbb, 0xcc], vec![], vec![0x11]];
    let bytes = encode_container(&header, &frames);
    let mut expected: Vec<u8> = b"JSM1".to_vec();
    expected.extend(100u8..116);
    expected.extend(200u8..224);
    expected.extend([0x00, 0x00, 0x01, 0x00]);
    expected.extend([3, 0, 0, 0, 0, 0, 0, 0, 0xaa, 0xbb, 0xcc]);
    expected.extend([0, 0, 0, 0, 0, 0, 0, 0]);
    expected.extend([1, 0, 0, 0, 0, 0, 0, 0, 0x11]);
    assert_eq!(bytes, expected);

    let parsed = parse_header(&bytes).unwrap();
    assert_eq!(parsed.salt, header.salt);
    assert_eq!(parsed.root_nonce, header.root_nonce);
    assert_eq!(parsed.chunk_size, 65536);
    assert_eq!(parse_frames(&bytes[48..]).unwrap(), frames);
}

#[test]
fn wrong_tag_is_bad_magic_before_anything_else() {
    let key = KeyInput::Raw(vec![0u8; 32]);
    assert_eq!(read_container(b"JSM2", &key).err(), Some(StoreError::BadMagic));
    assert_eq!(read_container(b"ABCDgarbage", &key).err(), Some(StoreError::BadMagic));
    let mut long = vec![0u8; 200];
    long[..4].copy_from_slice(b"jsm1");
    assert_eq!(read_container(&long, &key).err(), Some(StoreError::BadMagic));
    let bad_key = KeyInput::Raw(vec![0u8; 3]);
    assert_eq!(read_container(&long, &bad_key).err(), Some(StoreError::BadMagic));
    assert_eq!(parse_header(&long).err(), Some(StoreError::BadMagic));
}

#[test]
fn truncated_header_is_malformed() {
    let key = KeyInput::Raw(vec![0u8; 32]);
    assert_eq!(read_container(b"", &key).err(), Some(StoreError::MalformedContainer));
    assert_eq!(read_container(b"JSM", &key).err(), Some(StoreError::MalformedContainer));
    let mut short = b"JSM1".to_vec();
    short.extend([0u8; 43]);
    assert_eq!(short.len(), 47);
    assert_eq!(read_container(&short, &key).err(), Some(StoreError::MalformedContainer));
}

#[test]
fn header_alone_holds_no_frames_and_no_archive() {
    let key = KeyInput::Raw(vec![0u8; 32]);
    let mut bytes = b"JSM1".to_vec();
    bytes.extend([0u8; 44]);
    assert_eq!(parse_frames(&bytes[48..]).unwrap(), Vec::<Vec<u8>>::new());
    assert_eq!(read_container(&bytes, &key).err(), Some(StoreError::MalformedContainer));
}

#[test]
fn truncated_frames_are_malformed() {
    assert_eq!(parse_frames(&[1, 0, 0]).err(), Some(StoreError::MalformedContainer));
    assert_eq!(
        parse_frames(&[2, 0, 0, 0, 0, 0, 0, 0, 0xaa]).err(),
        Some(StoreError::MalformedContainer)
    );
    assert_eq!(
        parse_frames(&[0xff, 0xff, 0xff, 0xff, 0xff, 0xff, 0xff, 0xff]).err(),
        Some(StoreError::MalformedContainer)
    );
    assert_eq!(
        parse_frames(&[1, 0, 0, 0, 0, 0, 0, 0, 0xaa, 5]).err(),
        Some(StoreError::MalformedContainer)
    );
    assert_eq!(
        parse_frames(&[1, 0, 0, 0, 0, 0, 0, 0, 0xaa]).unwrap(),
        vec![vec![0xaau8]]
    );

    let archive = pack(&Document::parse(b"[]".to_vec()).unwrap()).unwrap();
    let bytes = assemble_container(&archive, &[7u8; 32], vec![0u8; 16], vec![9u8; 24]).unwrap();
    let key = KeyInput::Raw(vec![7u8; 32]);
    assert!(read_container(&bytes, &key).is_ok());
    let cut = &bytes[..bytes.len() - 1];
    assert_eq!(read_container(cut, &key).err(), Some(StoreError::MalformedContainer));
}

#[test]
fn exact_multiple_of_chunk_size_has_no_trailing_frame() {
    let key = [3u8; 32];
    for chunks in 1..=3usize {
        let plain = vec![0x5au8; chunks * 65536];
        let (root, frames) = encrypt_stream(&plain, &key).unwrap();
        assert_eq!(root.len(), 24);
        assert_eq!(frames.len(), chunks);
        for frame in &frames {
            assert_eq!(frame.len(), 65536 + 16);
        }
        assert_eq!(decrypt_stream(&root, &frames, &key).unwrap(), plain);
    }
}

#[test]
fn chunk_counts_around_the_boundary() {
    let key = [3u8; 32];
    let root = vec![1u8; 24];
    let cases: [(usize, Vec<usize>); 5] = [
        (0, vec![]),
        (1, vec![17]),
        (65535, vec![65551]),
        (65537, vec![65552, 17]),
        (131073, vec![65552, 65552, 17]),
    ];
    for (len, expected) in cases {
        let plain = vec![0u8; len];
        let frames = seal_stream(&plain, &key, &root).unwrap();
        let lens: Vec<usize> = frames.iter().map(|f| f.len()).collect();
        assert_eq!(lens, expected);
        assert_eq!(decrypt_stream(&root, &frames, &key).unwrap(), plain);
    }
}

#[test]
fn frames_are_sealed_with_xchacha20poly1305_under_the_chunk_nonces() {
    let key = [0x42u8; 32];
    let root: Vec<u8> = (0u8..24).collect();
    let plain: Vec<u8> = (0..70_000u32).map(|i| (i % 251) as u8).collect();
    let frames = seal_stream(&plain, &key, &root).unwrap();
    assert_eq!(frames.len(), 2);
    let cipher = chacha20poly1305::XChaCha20Poly1305::new(chacha20poly1305::Key::from_slice(&key));
    let first = cipher
        .encrypt(chacha20poly1305::XNonce::from_slice(&root), &plain[..65536])
        .unwrap();
    let mut second_nonce = root.clone();
    second_nonce[16] ^= 1;
    let second = cipher
        .encrypt(chacha20poly1305::XNonce::from_slice(&second_nonce), &plain[65536..])
        .unwrap();
    assert_eq!(frames[0], first);
    assert_eq!(frames[1], second);
    assert_ne!(&frames[0][..65536], &plain[..65536]);
}

#[test]
fn reordered_or_dropped_frames_fail_authentication() {
    let key = [0x42u8; 32];
    let root = vec![8u8; 24];
    let plain = vec![1u8; 65536 * 2 + 10];
    let frames = seal_stream(&plain, &key, &root).unwrap();
    let swapped = vec![frames[1].clone(), frames[0].clone(), frames[2].clone()];
    assert_eq!(
        decrypt_stream(&root, &swapped, &key).err(),
        Some(StoreError::AuthenticationFailure)
    );
    let dropped = vec![frames[1].clone(), frames[2].clone()];
    assert_eq!(
        decrypt_stream(&root, &dropped, &key).err(),
        Some(StoreError::AuthenticationFailure)
    );
    assert_eq!(
        decrypt_stream(&root, &vec![vec![0u8; 3]], &key).err(),
        Some(StoreError::AuthenticationFailure)
    );
    let prefix = vec![frames[0].clone()];
    assert_eq!(decrypt_stream(&root, &prefix, &key).unwrap(), plain[..65536].to_vec());
}

#[test]
fn raw_key_is_used_verbatim() {
    let raw: Vec<u8> = (0u8..32).collect();
    let key = derive_key(&KeyInput::Raw(raw.clone()), &[0u8; 16]).unwrap();
    assert_eq!(key, raw);
    assert_eq!(
        derive_key(&KeyInput::Raw(vec![0u8; 16]), &[0u8; 16]).err(),
        Some(StoreError::InvalidKeyLength)
    );
    assert_eq!(
        derive_key(&KeyInput::Other, &[0u8; 16]).err(),
        Some(StoreError::UnsupportedKeyInput)
    );
}

#[test]
fn passphrase_is_stretched_with_argon2id_under_the_salt() {
    let salt = [0x10u8; 16];
    let pass = KeyInput::Passphrase("open sesame".to_string());
    let key = derive_key(&pass, &salt).unwrap();
    assert_eq!(key.len(), 32);
    assert_eq!(derive_key(&pass, &salt).unwrap(), key);
    assert_ne!(derive_key(&pass, &[0x11u8; 16]).unwrap(), key);
    assert_ne!(key, b"open sesame".to_vec());

    let params = argon2::Params::new(15000, 2, 1, None).unwrap();
    let hasher = argon2::Argon2::new(argon2::Algorithm::Argon2id, argon2::Version::V0x13, params);
    let mut expected = [0u8; 32];
    hasher.hash_password_into(b"open sesame", &salt, &mut expected).unwrap();
    assert_eq!(key, expected.to_vec());
}

#[test]
fn passphrase_with_too_short_a_salt_is_unsupported() {
    let pass = KeyInput::Passphrase("open sesame".to_string());
    assert_eq!(derive_key(&pass, &[1, 2, 3]).err(), Some(StoreError::UnsupportedKeyInput));
}

#[test]
fn fresh_salt_is_random_only_for_a_passphrase() {
    assert_eq!(fresh_salt(&KeyInput::Raw(vec![1u8; 32])), vec![0u8; 16]);
    assert_eq!(fresh_salt(&KeyInput::Other), vec![0u8; 16]);
    let pass = KeyInput::Passphrase("p".to_string());
    let one = fresh_salt(&pass);
    let two = fresh_salt(&pass);
    assert_eq!(one.len(), 16);
    assert_ne!(one, two);
}

#[test]
fn pack_makes_a_zip_archive_with_the_one_entry() {
    let text = b"{\"a\":[1,2,3]}".to_vec();
    let doc = Document::parse(text.clone()).unwrap();
    let archive = pack(&doc).unwrap();
    assert_eq!(&archive[..4], &[0x50, 0x4b, 0x03, 0x04]);
    assert_ne!(archive, text);
    assert_eq!(pack(&doc).unwrap(), archive);
    let mut reader = zip::ZipArchive::new(std::io::Cursor::new(&archive[..])).unwrap();
    assert_eq!(reader.len(), 1);
    assert_eq!(reader.by_index(0).unwrap().name(), "data.json");
    assert_eq!(entry_name(), "data.json");
    assert_eq!(unpack(&archive).unwrap().into_bytes(), text);
}

#[test]
fn unpack_refuses_what_is_no_archive_or_lacks_the_entry() {
    assert_eq!(unpack(b"not an archive").err(), Some(StoreError::MalformedContainer));
    assert_eq!(unpack(b"").err(), Some(StoreError::MalformedContainer));
    let other = archive_with("other.json", b"{}");
    assert_eq!(unpack(&other).err(), Some(StoreError::MalformedContainer));
}

#[test]
fn unpack_refuses_an_entry_that_is_not_json() {
    let broken = archive_with("data.json", b"{\"a\": ");
    assert_eq!(unpack(&broken).err(), Some(StoreError::MalformedDocument));
    let good = archive_with("data.json", b"{\"a\": 1}");
    assert_eq!(unpack(&good).unwrap().as_bytes(), b"{\"a\": 1}");
}

#[test]
fn container_with_a_non_json_entry_is_a_malformed_document() {
    let archive = archive_with("data.json", b"oops");
    let bytes = assemble_container(&archive, &[1u8; 32], vec![0u8; 16], vec![2u8; 24]).unwrap();
    let key = KeyInput::Raw(vec![1u8; 32]);
    assert_eq!(read_container(&bytes, &key).err(), Some(StoreError::MalformedDocument));
    assert_eq!(bytes.len(), 48 + 8 + archive.len() + 16);
    assert_eq!(&bytes[..4], b"JSM1");
    assert_eq!(&bytes[20..44], &[2u8; 24][..]);
    assert_eq!(&bytes[44..48], &[0, 0, 1, 0]);
}

#[test]
fn document_parse_accepts_json_only() {
    assert!(Document::parse(b"{\"a\": 1}".to_vec()).is_ok());
    assert!(Document::parse(b" [1, 2] ".to_vec()).is_ok());
    for bad in [&b""[..], b"{", b"[1,]", b"{} {}", b"\xff", b"nul"] {
        assert_eq!(Document::parse(bad.to_vec()).err(), Some(StoreError::MalformedDocument));
    }
}

#[test]
fn error_names() {
    assert_eq!(StoreError::InvalidKeyLength.name(), "InvalidKeyLength");
    assert_eq!(StoreError::UnsupportedKeyInput.name(), "UnsupportedKeyInput");
    assert_eq!(StoreError::BadMagic.name(), "BadMagic");
    assert_eq!(StoreError::MalformedContainer.name(), "MalformedContainer");
    assert_eq!(StoreError::MalformedDocument.name(), "MalformedDocument");
    assert_eq!(StoreError::AuthenticationFailure.name(), "AuthenticationFailure");
    assert_eq!(StoreError::EncryptionError.name(), "EncryptionError");
    assert_eq!(StoreError::IoError.name(), "IoError");
}

#[test]
fn container_file_name_is_the_hyphenated_identifier() {
    let id: u128 = 0x0123_4567_89ab_4def_8123_4567_89ab_cdef;
    assert_eq!(container_file_name(id), "01234567-89ab-4def-8123-456789abcdef.bin");
    assert_eq!(container_file_name(0), "00000000-0000-0000-0000-000000000000.bin");
    assert_eq!(
        container_file_name(id),
        format!("{}.bin", uuid::Uuid::from_u128(id).hyphenated())
    );
}

#[test]
fn written_identifier_is_a_random_uuid() {
    let doc = Document::parse(b"[]".to_vec()).unwrap();
    let made = jsonstore::store::write_container(&doc, &KeyInput::Raw(vec![0u8; 32])).unwrap();
    let uuid = uuid::Uuid::from_u128(made.id);
    assert_eq!(uuid.get_version_num(), 4);
}

#[test]
fn archive_writer_failure_is_an_io_error() {
    assert_eq!(packed_outcome(None).err(), Some(StoreError::IoError));
    assert_eq!(packed_outcome(Some(vec![1, 2, 3])).unwrap(), vec![1, 2, 3]);
}

#[test]
fn passphrase_write_succeeds_and_reads_back() {
    let doc = Document::parse(b"{\"k\":[1,2]}".to_vec()).unwrap();
    for pass in ["", "p", "a longer passphrase \u{e9}\u{4e2d}"] {
        let input = KeyInput::Passphrase(pass.to_string());
        let made = jsonstore::store::write_container(&doc, &input).unwrap();
        assert_eq!(read_container(&made.bytes, &input).unwrap().as_bytes(), doc.as_bytes());
    }
}

fn archive_with_field(name: &str, content: &[u8], field: &[u8]) -> Vec<u8> {
    let mut writer = zip::ZipWriter::new(std::io::Cursor::new(Vec::new()));
    let options = zip::write::FileOptions::default();
    writer.start_file_with_extra_data(name, options).unwrap();
    writer.write_all(field).unwrap();
    writer.end_extra_data().unwrap();
    writer.write_all(content).unwrap();
    writer.finish().unwrap().into_inner()
}

#[test]
fn entry_with_an_aes_field_is_refused_without_panic() {
    let field = [0xfe, 0xca, 0x07, 0x00, 0x02, 0x00, 0x41, 0x45, 0x03, 0x08, 0x00];
    let plain = archive_with_field("data.json", b"{\"a\": 1}", &field);
    assert_eq!(unpack(&plain).unwrap().as_bytes(), b"{\"a\": 1}");

    let mut marked = plain.clone();
    let mut patched = 0;
    for at in 0..marked.len() - 3 {
        if marked[at..at + 4] == [0xfe, 0xca, 0x07, 0x00] {
            marked[at] = 0x01;
            marked[at + 1] = 0x99;
            patched += 1;
        }
    }
    assert!(patched >= 1);
    assert_eq!(unpack(&marked).err(), Some(StoreError::MalformedContainer));

    let bytes = assemble_container(&marked, &[1u8; 32], vec![0u8; 16], vec![2u8; 24]).unwrap();
    let key = KeyInput::Raw(vec![1u8; 32]);
    assert_eq!(read_container(&bytes, &key).err(), Some(StoreError::MalformedContainer));
}

#[test]
fn entry_marked_encrypted_is_refused() {
    let plain = archive_with("data.json", b"[1, 2, 3]");
    assert!(unpack(&plain).is_ok());
    let mut marked = plain.clone();
    let mut patched = 0;
    for at in 0..marked.len() - 3 {
        if marked[at..at + 4] == [0x50, 0x4b, 0x03, 0x04] {
            marked[at + 6] |= 1;
            patched += 1;
        }
        if marked[at..at + 4] == [0x50, 0x4b, 0x01, 0x02] {
            marked[at + 8] |= 1;
            patched += 1;
        }
    }
    assert_eq!(patched, 2);
    assert_eq!(unpack(&marked).err(), Some(StoreError::MalformedContainer));
}
