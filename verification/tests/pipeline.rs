use chacha20::cipher::{KeyIvInit, StreamCipher};
use dechst::obj::chunk::{CompressedChunk, EncryptedChunk, TaggedChunk};
use dechst::obj::key::{Key, KeyBytes, KeyMeta};
use dechst::os::{unix, Timestamp, User};
use dechst::process::chunk::{ChunkerParams, FastCdc};
use dechst::process::compress::{CompressError, Compression, CompressionParams};
use dechst::process::encrypt::{EncryptError, Encryption, EncryptionParams};
use dechst::process::format::{
    parse_field, parse_head, put_field, put_head, Field, FormatError, FormatFailure, Formatter,
};
use dechst::process::identify::{Identifier, IdentifierParams};
use dechst::process::pipeline::{
    process, process_with, unprocess, unprocess_bytes, ChunkPipeline, PipelineError,
};
use dechst::process::verify::{Verifier, VerifierParams, VerifyError};
use dechst::process::ProcessOptions;

fn user() -> User {
    User::Unix(unix::User {
        hostname: Some(b"host".to_vec()),
        username: Some(b"user".to_vec()),
        uid: Some(1000),
        gid: Some(100),
    })
}

fn key() -> Key {
    let bytes: Vec<u8> = (0..128u8).collect();
    Key::from_parts(
        KeyMeta::new(user(), Timestamp { secs: 1_700_000_000, nanos: 5 }),
        KeyBytes::from_bytes(&bytes),
    )
}

fn other_key() -> Key {
    let bytes: Vec<u8> = (100..228u8).collect();
    Key::from_parts(
        KeyMeta::new(user(), Timestamp { secs: 1_700_000_000, nanos: 5 }),
        KeyBytes::from_bytes(&bytes),
    )
}

fn options(
    compression: CompressionParams,
    encryption: EncryptionParams,
    verifier: VerifierParams,
) -> ProcessOptions {
    ProcessOptions {
        chunker: ChunkerParams::FastCdc(FastCdc::default()),
        identifier: IdentifierParams::Blake3,
        compression,
        encryption,
        verifier,
    }
}

fn all_bytes() -> Vec<u8> {
    (0..=255u8).collect()
}

#[test]
fn pipeline_round_trip_every_choice() {
    let inputs: Vec<Vec<u8>> = vec![
        Vec::new(),
        vec![0],
        all_bytes(),
        b"hello world\n".repeat(1000),
        vec![0xf6; 70_000],
    ];
    for compression in [CompressionParams::Off, CompressionParams::Brotli] {
        for encryption in [EncryptionParams::Off, EncryptionParams::ChaCha20] {
            for verifier in [VerifierParams::Off, VerifierParams::Blake3] {
                let opts = options(compression, encryption, verifier);
                for input in &inputs {
                    let stored = process(&opts, &key(), input).unwrap();
                    assert_eq!(unprocess_bytes(&key(), &stored).as_ref(), Ok(input));
                    let pipeline = ChunkPipeline::new(opts, key());
                    let stored = pipeline.process_forward(input).unwrap();
                    assert_eq!(pipeline.process_backward(&stored).as_ref(), Ok(input));
                }
            }
        }
    }
}

#[test]
fn pipeline_is_deterministic_for_a_nonce() {
    let iv = [7u8; 12];
    let a = process_with(
        &key(),
        Compression::Brotli,
        Encryption::ChaCha20 { iv },
        Verifier::Blake3,
        &all_bytes(),
    )
    .unwrap();
    let b = process_with(
        &key(),
        Compression::Brotli,
        Encryption::ChaCha20 { iv },
        Verifier::Blake3,
        &all_bytes(),
    )
    .unwrap();
    assert_eq!(a, b);
    let c = process_with(
        &key(),
        Compression::Brotli,
        Encryption::ChaCha20 { iv: [8u8; 12] },
        Verifier::Blake3,
        &all_bytes(),
    )
    .unwrap();
    assert_ne!(a, c);
    // a fresh nonce for every object
    let opts = options(CompressionParams::Off, EncryptionParams::ChaCha20, VerifierParams::Blake3);
    assert_ne!(process(&opts, &key(), b"same"), process(&opts, &key(), b"same"));
}

#[test]
fn pipeline_plain_exact_bytes() {
    // No compression, no encryption, no tag: three records, one in the other.
    let stored =
        process_with(&key(), Compression::Off, Encryption::Off, Verifier::Off, b"hi").unwrap();
    let inner = vec![0x82, 0x42, b'h', b'i', 0x00];
    let mut middle = vec![0x83, 0x45];
    middle.extend_from_slice(&inner);
    middle.extend_from_slice(&[0x00, 0xf6]);
    let mut outer = vec![0x83, 0x49];
    outer.extend_from_slice(&middle);
    outer.extend_from_slice(&[0x40, 0x00]);
    assert_eq!(stored, outer);
    assert_eq!(unprocess_bytes(&key(), &stored), Ok(b"hi".to_vec()));
}

#[test]
fn pipeline_tamper_fails_verification() {
    let opts = options(CompressionParams::Brotli, EncryptionParams::ChaCha20, VerifierParams::Blake3);
    let stored = process(&opts, &key(), &all_bytes()).unwrap();
    // the record is: array head, byte string (the encrypted record), tag, verifier
    for at in [4usize, 10, stored.len() / 2] {
        let mut bad = stored.clone();
        bad[at] ^= 1;
        assert_eq!(
            unprocess_bytes(&key(), &bad),
            Err(PipelineError::Verify(VerifyError::VerificationFailed))
        );
    }
    // another key does not accept the tag
    assert_eq!(
        unprocess_bytes(&other_key(), &stored),
        Err(PipelineError::Verify(VerifyError::VerificationFailed))
    );
}

#[test]
fn pipeline_errors_by_step() {
    let malformed = Err(PipelineError::Format(FormatError::Failed(FormatFailure::Malformed)));
    let wrong_shape = Err(PipelineError::Format(FormatError::Failed(FormatFailure::WrongShape)));
    assert_eq!(unprocess_bytes(&key(), b""), malformed);
    assert_eq!(unprocess_bytes(&key(), b"not a record"), malformed);
    // an array of one number is a record, but no tagged chunk
    assert_eq!(unprocess_bytes(&key(), &[0x81, 0x00]), wrong_shape);
    // an unknown verifier
    assert_eq!(unprocess_bytes(&key(), &[0x83, 0x40, 0x40, 0x07]), wrong_shape);
    // no verifier, and bytes that are no record
    assert_eq!(unprocess_bytes(&key(), &[0x83, 0x41, 0xff, 0x40, 0x00]), malformed);
    // brotli asked for, and bytes that are no brotli stream
    let inner = Formatter::Cbor
        .format(&vec![Field::Bytes(vec![0xff; 16]), Field::Uint(1)])
        .unwrap();
    let middle = Formatter::Cbor
        .format(&vec![Field::Bytes(inner), Field::Uint(0), Field::Null])
        .unwrap();
    let outer = Formatter::Cbor
        .format(&vec![Field::Bytes(middle), Field::Bytes(Vec::new()), Field::Uint(0)])
        .unwrap();
    assert_eq!(
        unprocess_bytes(&key(), &outer),
        Err(PipelineError::Compress(CompressError::Decompress))
    );
    assert_eq!(
        unprocess(Formatter::Cbor, &key(), b"x").map(|_| ()),
        Err(PipelineError::Format(FormatError::Failed(FormatFailure::Malformed)))
    );
}

#[test]
fn unprocess_reads_the_record() {
    let fields = vec![Field::Uint(7), Field::Bytes(b"abc".to_vec()), Field::Null, Field::Nint(0)];
    let record = Formatter::Cbor.format(&fields).unwrap();
    let opts = options(CompressionParams::Brotli, EncryptionParams::ChaCha20, VerifierParams::Blake3);
    let stored = process(&opts, &key(), &record).unwrap();
    assert_eq!(unprocess(Formatter::Cbor, &key(), &stored), Ok(fields));
}

#[test]
fn record_format_exact_bytes() {
    let cbor = Formatter::Cbor;
    assert_eq!(cbor.format(&vec![]), Ok(vec![0x80]));
    assert_eq!(cbor.format(&vec![Field::Uint(0)]), Ok(vec![0x81, 0x00]));
    assert_eq!(cbor.format(&vec![Field::Uint(23)]), Ok(vec![0x81, 0x17]));
    assert_eq!(cbor.format(&vec![Field::Uint(24)]), Ok(vec![0x81, 0x18, 0x18]));
    assert_eq!(cbor.format(&vec![Field::Uint(255)]), Ok(vec![0x81, 0x18, 0xff]));
    assert_eq!(cbor.format(&vec![Field::Uint(256)]), Ok(vec![0x81, 0x19, 0x01, 0x00]));
    assert_eq!(cbor.format(&vec![Field::Uint(65535)]), Ok(vec![0x81, 0x19, 0xff, 0xff]));
    assert_eq!(
        cbor.format(&vec![Field::Uint(65536)]),
        Ok(vec![0x81, 0x1a, 0x00, 0x01, 0x00, 0x00])
    );
    assert_eq!(
        cbor.format(&vec![Field::Uint(u32::MAX as u64 + 1)]),
        Ok(vec![0x81, 0x1b, 0, 0, 0, 1, 0, 0, 0, 0])
    );
    assert_eq!(
        cbor.format(&vec![Field::Uint(u64::MAX)]),
        Ok(vec![0x81, 0x1b, 255, 255, 255, 255, 255, 255, 255, 255])
    );
    assert_eq!(cbor.format(&vec![Field::Nint(0)]), Ok(vec![0x81, 0x20]));
    assert_eq!(cbor.format(&vec![Field::Nint(99)]), Ok(vec![0x81, 0x38, 0x63]));
    assert_eq!(cbor.format(&vec![Field::Null]), Ok(vec![0x81, 0xf6]));
    assert_eq!(
        cbor.format(&vec![Field::Bytes(b"abc".to_vec()), Field::Uint(1)]),
        Ok(vec![0x82, 0x43, b'a', b'b', b'c', 0x01])
    );
    let many: Vec<Field> = (0..30).map(Field::Uint).collect();
    let bytes = cbor.format(&many).unwrap();
    assert_eq!(&bytes[..2], &[0x98, 30]);
    assert_eq!(cbor.parse(&bytes), Ok(many));
}

#[test]
fn record_format_reads_what_ciborium_reads() {
    let fields = vec![
        Field::Uint(1_000_000),
        Field::Nint(41),
        Field::Bytes(all_bytes()),
        Field::Null,
        Field::Uint(3),
    ];
    let bytes = Formatter::Cbor.format(&fields).unwrap();
    let value: ciborium::value::Value = ciborium::de::from_reader(bytes.as_slice()).unwrap();
    let expected = ciborium::value::Value::Array(vec![
        ciborium::value::Value::Integer(1_000_000.into()),
        ciborium::value::Value::Integer((-42).into()),
        ciborium::value::Value::Bytes(all_bytes()),
        ciborium::value::Value::Null,
        ciborium::value::Value::Integer(3.into()),
    ]);
    assert_eq!(value, expected);
    // and reads back what ciborium writes of the same value
    let mut written = Vec::new();
    ciborium::ser::into_writer(&expected, &mut written).unwrap();
    assert_eq!(written, bytes);
    assert_eq!(Formatter::Cbor.parse(&written), Ok(fields));
}

#[test]
fn record_format_rejects() {
    let cbor = Formatter::Cbor;
    let malformed = Err(FormatError::Failed(FormatFailure::Malformed));
    assert_eq!(cbor.parse(&[]), malformed);
    // not an array
    assert_eq!(cbor.parse(&[0x00]), malformed);
    assert_eq!(cbor.parse(&[0x41, 0x00]), malformed);
    // fewer items than announced
    assert_eq!(cbor.parse(&[0x82, 0x00]), malformed);
    // bytes after the array
    assert_eq!(cbor.parse(&[0x81, 0x00, 0x00]), malformed);
    // a number that is not in its shortest form
    assert_eq!(cbor.parse(&[0x81, 0x18, 0x17]), malformed);
    assert_eq!(cbor.parse(&[0x81, 0x19, 0x00, 0xff]), malformed);
    assert_eq!(cbor.parse(&[0x81, 0x1a, 0x00, 0x00, 0xff, 0xff]), malformed);
    assert_eq!(cbor.parse(&[0x81, 0x1b, 0, 0, 0, 0, 0xff, 0xff, 0xff, 0xff]), malformed);
    // a byte string that ends too early
    assert_eq!(cbor.parse(&[0x81, 0x43, 0x00, 0x00]), malformed);
    // kinds of item that records do not hold: text, nested array, map, true
    assert_eq!(cbor.parse(&[0x81, 0x61, b'a']), malformed);
    assert_eq!(cbor.parse(&[0x81, 0x80]), malformed);
    assert_eq!(cbor.parse(&[0x81, 0xa0]), malformed);
    assert_eq!(cbor.parse(&[0x81, 0xf5]), malformed);
    // lengths of indefinite form
    assert_eq!(cbor.parse(&[0x9f, 0x00, 0xff]), malformed);
    assert_eq!(FormatError::from_err(FormatFailure::WrongShape), FormatError::Failed(FormatFailure::WrongShape));
}

#[test]
fn record_format_pieces() {
    let mut out = vec![0xaa];
    put_head(&mut out, 2, 300);
    assert_eq!(out, vec![0xaa, 0x59, 0x01, 0x2c]);
    put_field(&mut out, &Field::Bytes(vec![1, 2]));
    assert_eq!(out, vec![0xaa, 0x59, 0x01, 0x2c, 0x42, 1, 2]);
    assert_eq!(parse_head(&out, 1), Some((2, 300, 4)));
    assert_eq!(parse_head(&out, 7), None);
    assert_eq!(parse_field(&out, 4), Some((Field::Bytes(vec![1, 2]), 7)));
    assert_eq!(parse_field(&out, 1), None);
    assert_eq!(parse_field(&[0xf6], 0), Some((Field::Null, 1)));
    assert_eq!(parse_field(&[0x39, 0x01, 0x00], 0), Some((Field::Nint(256), 3)));
}

#[test]
fn chunk_records_round_trip() {
    let compressed = CompressedChunk::compress(Compression::Brotli, &all_bytes()).unwrap();
    assert_eq!(compressed.compression, Compression::Brotli);
    let bytes = compressed.bytes.clone();
    let fields = compressed.into_fields();
    assert_eq!(fields, vec![Field::Bytes(bytes.clone()), Field::Uint(1)]);
    let back = CompressedChunk::from_fields(fields).unwrap();
    assert_eq!(back.bytes, bytes);
    assert_eq!(back.decompress(), Ok(all_bytes()));

    let encrypted =
        EncryptedChunk::encrypt(&key(), Encryption::ChaCha20 { iv: [9; 12] }, b"secret").unwrap();
    assert_ne!(encrypted.bytes, b"secret".to_vec());
    assert_eq!(encrypted.decrypt_bytes(&key()), Ok(b"secret".to_vec()));
    let cipher = encrypted.bytes.clone();
    let fields = encrypted.into_fields();
    assert_eq!(
        fields,
        vec![Field::Bytes(cipher.clone()), Field::Uint(1), Field::Bytes(vec![9; 12])]
    );
    let back = EncryptedChunk::from_fields(fields).unwrap();
    assert_eq!(back.encryption, Encryption::ChaCha20 { iv: [9; 12] });
    let tagged = back.tag(&key(), Verifier::Blake3).unwrap();
    assert_eq!(tagged.tag.len(), 32);
    assert_eq!(tagged.verify_tag(&key()), Ok(()));
    assert_eq!(tagged.verify_tag(&other_key()), Err(VerifyError::VerificationFailed));
    let fields = tagged.into_fields();
    let back = TaggedChunk::from_fields(fields).unwrap();
    assert_eq!(back.verifier, Verifier::Blake3);

    let wrong = Err(FormatError::Failed(FormatFailure::WrongShape));
    assert_eq!(CompressedChunk::from_fields(vec![]).map(|_| ()), wrong);
    assert_eq!(
        CompressedChunk::from_fields(vec![Field::Bytes(vec![]), Field::Uint(2)]).map(|_| ()),
        wrong
    );
    assert_eq!(
        CompressedChunk::from_fields(vec![Field::Uint(0), Field::Bytes(vec![])]).map(|_| ()),
        wrong
    );
    assert_eq!(
        EncryptedChunk::from_fields(vec![Field::Bytes(vec![]), Field::Uint(1), Field::Null])
            .map(|_| ()),
        wrong
    );
    assert_eq!(
        EncryptedChunk::from_fields(vec![
            Field::Bytes(vec![]),
            Field::Uint(1),
            Field::Bytes(vec![0; 11])
        ])
        .map(|_| ()),
        wrong
    );
    assert_eq!(
        EncryptedChunk::from_fields(vec![
            Field::Bytes(vec![]),
            Field::Uint(0),
            Field::Bytes(vec![0; 12])
        ])
        .map(|_| ()),
        wrong
    );
    assert_eq!(
        TaggedChunk::from_fields(vec![Field::Bytes(vec![]), Field::Bytes(vec![]), Field::Uint(2)])
            .map(|_| ()),
        wrong
    );
    let encrypted = CompressedChunk::compress(Compression::Off, b"x")
        .unwrap()
        .encrypt(&key(), Encryption::Off)
        .unwrap();
    assert_eq!(encrypted.bytes, vec![0x82, 0x41, b'x', 0x00]);
}

#[test]
fn compression_round_trip() {
    let data = b"hello world\n".repeat(500);
    let packed = Compression::Brotli.compress(&data).unwrap();
    assert!(packed.len() < data.len());
    assert_ne!(packed, data);
    assert_eq!(Compression::Brotli.decompress(&packed), Ok(data.clone()));
    // the same as the compressor gives when called directly
    let mut direct = Vec::new();
    {
        let mut writer = brotli::CompressorWriter::new(&mut direct, 4096, 5, 20);
        std::io::Write::write_all(&mut writer, &data).unwrap();
    }
    assert_eq!(packed, direct);
    assert_eq!(Compression::Off.compress(&data), Ok(data.clone()));
    assert_eq!(Compression::Off.decompress(&data), Ok(data.clone()));
    assert_eq!(Compression::Brotli.decompress(&[0xff; 10]), Err(CompressError::Decompress));
    assert_eq!(CompressionParams::Brotli.create(), Compression::Brotli);
    assert_eq!(CompressionParams::Off.create(), Compression::Off);
    assert_eq!(Compression::from_tag(Compression::Brotli.tag()), Some(Compression::Brotli));
    assert_eq!(Compression::from_tag(Compression::Off.tag()), Some(Compression::Off));
    assert_eq!(Compression::from_tag(2), None);
    assert_eq!(Compression::Brotli.compress(b"").and_then(|c| Compression::Brotli.decompress(&c)), Ok(Vec::new()));
}

#[test]
fn encryption_matches_chacha20() {
    let key_bytes: Vec<u8> = (1..=32u8).collect();
    let iv = [3u8; 12];
    let data = all_bytes();
    let encrypted = Encryption::ChaCha20 { iv }.encrypt_bytes(&key_bytes, &data).unwrap();
    let mut expected = data.clone();
    let mut cipher = chacha20::ChaCha20::new(
        chacha20::Key::from_slice(&key_bytes),
        chacha20::Nonce::from_slice(&iv),
    );
    cipher.apply_keystream(&mut expected);
    assert_eq!(encrypted, expected);
    assert_ne!(encrypted, data);
    assert_eq!(Encryption::ChaCha20 { iv }.decrypt_bytes(&key_bytes, &encrypted), Ok(data.clone()));

    // a short key is padded with zeros, a long one cut
    let short = Encryption::ChaCha20 { iv }.encrypt_bytes(&key_bytes[..16], &data).unwrap();
    let mut padded = key_bytes[..16].to_vec();
    padded.resize(32, 0);
    assert_eq!(short, Encryption::ChaCha20 { iv }.encrypt_bytes(&padded, &data).unwrap());
    let mut long = key_bytes.clone();
    long.extend_from_slice(&[9, 9, 9]);
    assert_eq!(Encryption::ChaCha20 { iv }.encrypt_bytes(&long, &data).unwrap(), encrypted);

    assert_eq!(Encryption::Off.encrypt_bytes(&key_bytes, &data), Ok(data.clone()));
    assert_eq!(Encryption::Off.decrypt_bytes(&key_bytes, &data), Ok(data.clone()));
    assert_eq!(Encryption::Off.key_length(), 16);
    assert_eq!(Encryption::ChaCha20 { iv }.key_length(), 32);
    assert_eq!(Encryption::ChaCha20 { iv }.code(), 1);
    assert_eq!(Encryption::Off.code(), 0);
    assert_eq!(EncryptionParams::Off.create(), Encryption::Off);
    assert_eq!(EncryptionParams::ChaCha20.with_nonce(iv), Encryption::ChaCha20 { iv });
    assert_eq!(EncryptionParams::Off.with_nonce(iv), Encryption::Off);
    assert_ne!(Encryption::new_chacha20(), Encryption::new_chacha20());
    assert_ne!(EncryptionParams::ChaCha20.create(), Encryption::Off);
    assert_eq!(EncryptError::TooLong, EncryptError::TooLong);
    assert_eq!(
        Encryption::ChaCha20 { iv }.encrypt(&key(), &data),
        Encryption::ChaCha20 { iv }.encrypt_bytes(key().bytes().encrypt_key(), &data)
    );
    assert_eq!(
        Encryption::ChaCha20 { iv }.decrypt(&key(), &encrypted),
        Encryption::ChaCha20 { iv }.decrypt_bytes(key().bytes().encrypt_key(), &encrypted)
    );
}

#[test]
fn verifier_matches_blake3() {
    let key_bytes: Vec<u8> = (1..=32u8).collect();
    let mut key32 = [0u8; 32];
    key32.copy_from_slice(&key_bytes);
    let data = b"some bytes";
    let tag = Verifier::Blake3.tag_bytes(&key_bytes, data).unwrap();
    assert_eq!(tag, blake3::keyed_hash(&key32, data).as_bytes().to_vec());
    assert_ne!(tag, data.to_vec());
    assert_eq!(Verifier::Blake3.verify_bytes(&key_bytes, &tag, data), Ok(()));
    assert_eq!(
        Verifier::Blake3.verify_bytes(&key_bytes, &tag, b"other bytes"),
        Err(VerifyError::VerificationFailed)
    );
    let mut bad = tag.clone();
    bad[31] ^= 0x80;
    assert_eq!(
        Verifier::Blake3.verify_bytes(&key_bytes, &bad, data),
        Err(VerifyError::VerificationFailed)
    );
    // a tag of another length is no tag
    assert_eq!(
        Verifier::Blake3.verify_bytes(&key_bytes, &tag[..31], data),
        Err(VerifyError::VerificationFailed)
    );
    let mut long = tag.clone();
    long.push(0);
    assert_eq!(
        Verifier::Blake3.verify_bytes(&key_bytes, &long, data),
        Err(VerifyError::VerificationFailed)
    );
    assert_eq!(Verifier::Blake3.verify_bytes(&key_bytes, &[], data), Err(VerifyError::VerificationFailed));
    // a short key is padded with zeros
    let mut short32 = [0u8; 32];
    short32[..4].copy_from_slice(&key_bytes[..4]);
    assert_eq!(
        Verifier::Blake3.tag_bytes(&key_bytes[..4], data).unwrap(),
        blake3::keyed_hash(&short32, data).as_bytes().to_vec()
    );
    assert_eq!(Verifier::Off.tag_bytes(&key_bytes, data), Ok(Vec::new()));
    assert_eq!(Verifier::Off.verify_bytes(&key_bytes, b"anything", data), Ok(()));
    assert_eq!(Verifier::Blake3.tag(&key(), data), Verifier::Blake3.tag_bytes(key().bytes().verify_key(), data));
    assert_eq!(Verifier::Blake3.verify(&key(), &tag, data), Err(VerifyError::VerificationFailed));
    assert_eq!(VerifierParams::Blake3.create(), Verifier::Blake3);
    assert_eq!(VerifierParams::Off.create(), Verifier::Off);
    assert_eq!(Verifier::from_code(Verifier::Blake3.code()), Some(Verifier::Blake3));
    assert_eq!(Verifier::from_code(Verifier::Off.code()), Some(Verifier::Off));
    assert_eq!(Verifier::from_code(9), None);
}

#[test]
fn identifier_matches_blake3() {
    let data = all_bytes();
    let k = key();
    let mut key32 = [0u8; 32];
    key32.copy_from_slice(k.bytes().identify_key());
    let id = Identifier::Blake3.identify(&k, &data);
    assert_eq!(id.0, *blake3::keyed_hash(&key32, &data).as_bytes());
    assert_eq!(id, Identifier::Blake3.identify(&key(), &data));
    assert_eq!(id, IdentifierParams::Blake3.create().identify_bytes(k.bytes().identify_key(), &data));
    assert_ne!(id, Identifier::Blake3.identify(&other_key(), &data));
    assert_ne!(id, Identifier::Blake3.identify(&k, &data[1..]));
    // a short key is padded with zeros, a long one cut
    let mut short = [0u8; 32];
    short[..3].copy_from_slice(&[1, 2, 3]);
    assert_eq!(
        Identifier::Blake3.identify_bytes(&[1, 2, 3], b"x").0,
        *blake3::keyed_hash(&short, b"x").as_bytes()
    );
    let long: Vec<u8> = (0..40u8).collect();
    let mut cut = [0u8; 32];
    cut.copy_from_slice(&long[..32]);
    assert_eq!(
        Identifier::Blake3.identify_bytes(&long, b"x").0,
        *blake3::keyed_hash(&cut, b"x").as_bytes()
    );
}
