use dechst::id::Id;
use dechst::obj::config::{Config, VERSION};
use dechst::obj::key::{
    EncryptOptions, EncryptedKey, Key, KeyBytes, KeyError, KeyMeta, DEFAULT_M_COST,
    DEFAULT_P_COST, DEFAULT_T_COST,
};
use dechst::obj::lock::{Lock, LockAccess, LockMeta, LockState};
use dechst::obj::record::{
    access_field, bytes_field, opt_bytes_field, opt_u32_field, read_access, read_bytes,
    read_opt_bytes, read_opt_u32, read_secs, read_time, read_u32, read_u64, read_user, secs_field,
};
use dechst::obj::{ObjectKind, RepoObject};
use dechst::opts::{ChunkProcessOpts, KeyOpts, Password, ProcessOpts, RepoProcessOpts};
use dechst::os::{unix, windows, Metadata, Timestamp, User};
use dechst::process::chunk::{ChunkerParams, FastCdc};
use dechst::process::compress::{CompressError, Compression, CompressionParams};
use dechst::process::encrypt::{EncryptError, Encryption, EncryptionParams};
use dechst::process::format::{Field, FormatError, FormatFailure, Formatter};
use dechst::process::identify::{Identifier, IdentifierParams};
use dechst::process::pipeline::PipelineError;
use dechst::process::tree::im::TreeErrorKind;
use dechst::process::verify::{Verifier, VerifierParams, VerifyError};
use dechst::process::ProcessOptions;
use dechst::source::stdin::{StdinItem, StdinSource};
use dechst::source::Item;

fn unix_user() -> User {
    User::Unix(unix::User {
        hostname: Some(b"host".to_vec()),
        username: Some(vec![0xff, 0xfe]),
        uid: Some(u32::MAX),
        gid: None,
    })
}

fn windows_user() -> User {
    User::Windows(windows::User { hostname: None, username: Some(b"me".to_vec()) })
}

fn cheap() -> EncryptOptions {
    EncryptOptions { mem_cost: 8, time_cost: 1, parallel_cost: 1 }
}

fn key() -> Key {
    let bytes: Vec<u8> = (0..128u8).collect();
    Key::from_parts(
        KeyMeta::new(unix_user(), Timestamp { secs: -1, nanos: 7 }),
        KeyBytes::from_bytes(&bytes),
    )
}

#[test]
fn key_bytes_of_sixteen_each_are_taken() {
    let bytes: Vec<u8> = (0..64u8).collect();
    let keys = KeyBytes::from_bytes(&bytes);
    assert_eq!(keys.encrypt_key(), &(0..64u8).step_by(4).collect::<Vec<u8>>()[..]);
    assert_eq!(keys.verify_key().len(), 16);
    assert_eq!(keys.identify_key().len(), 16);
    assert_eq!(keys.chunk_key(), &(3..64u8).step_by(4).collect::<Vec<u8>>()[..]);
}

#[test]
fn key_bytes_are_dealt_out_in_turn() {
    let bytes: Vec<u8> = (0..70u8).collect();
    let keys = KeyBytes::from_bytes(&bytes);
    assert_eq!(keys.encrypt_key(), &(0..70u8).step_by(4).collect::<Vec<u8>>()[..]);
    assert_eq!(keys.verify_key(), &(1..70u8).step_by(4).collect::<Vec<u8>>()[..]);
    assert_eq!(keys.identify_key(), &(2..70u8).step_by(4).collect::<Vec<u8>>()[..]);
    assert_eq!(keys.chunk_key(), &(3..70u8).step_by(4).collect::<Vec<u8>>()[..]);
    assert_eq!(keys.encrypt_key().len(), 18);
    assert_eq!(keys.chunk_key().len(), 17);
    assert_eq!(keys.duplicate(), keys);
    let parts = KeyBytes::from_parts(vec![1], vec![2], vec![3], vec![4]);
    assert_eq!(parts.verify_key(), &[2]);
}

#[test]
fn key_bytes_random_and_wiped() {
    let mut a = KeyBytes::random(32);
    let b = KeyBytes::random(32);
    assert_eq!(a.encrypt_key().len(), 32);
    assert_eq!(a.verify_key().len(), 32);
    assert_eq!(a.identify_key().len(), 32);
    assert_eq!(a.chunk_key().len(), 32);
    assert_ne!(a, b);
    assert_ne!(a.encrypt_key(), a.verify_key());
    a.zeroize();
    assert_eq!(a, KeyBytes::from_parts(vec![], vec![], vec![], vec![]));
    let mut key = Key::random(KeyMeta::new(unix_user(), Timestamp { secs: 0, nanos: 0 }));
    assert_eq!(key.bytes().identify_key().len(), 32);
    key.zeroize();
    assert_eq!(key.bytes().identify_key().len(), 0);
    assert_ne!(Id::random(), Id::random());
    let mut password = Password::from_str("pässword");
    assert_eq!(password.as_bytes(), "pässword".as_bytes());
    password.wipe();
    assert_eq!(password.as_bytes(), b"");
}

#[test]
fn key_record_round_trip() {
    let k = key();
    let fields = k.to_fields();
    assert_eq!(fields.len(), 11);
    assert_eq!(fields[0], Field::Uint(0));
    assert_eq!(fields[1], Field::Bytes(b"host".to_vec()));
    assert_eq!(fields[3], Field::Uint(u32::MAX as u64));
    assert_eq!(fields[4], Field::Null);
    assert_eq!(fields[5], Field::Nint(0));
    assert_eq!(fields[6], Field::Uint(7));
    assert_eq!(fields[7], Field::Bytes(k.bytes().encrypt_key().to_vec()));
    assert_eq!(Key::from_fields(&fields), Some(key()));
    assert_eq!(k.duplicate(), k);
    assert_eq!(Key::kind(), ObjectKind::Key);
    assert_eq!(Key::from_fields(&fields[..10].to_vec()), None);
    let mut bad = fields.clone();
    bad[7] = Field::Uint(1);
    assert_eq!(Key::from_fields(&bad), None);
    let mut bad = fields.clone();
    bad[0] = Field::Uint(2);
    assert_eq!(Key::from_fields(&bad), None);
    let mut bad = fields;
    bad[6] = Field::Uint(u32::MAX as u64 + 1);
    assert_eq!(Key::from_fields(&bad), None);
    let windows = Key::from_parts(
        KeyMeta::new(windows_user(), Timestamp { secs: i64::MIN, nanos: 0 }),
        KeyBytes::from_parts(vec![1], vec![], vec![3], vec![]),
    );
    let fields = windows.to_fields();
    assert_eq!(fields[0], Field::Uint(1));
    assert_eq!(fields[5], Field::Nint(i64::MAX as u64));
    assert_eq!(Key::from_fields(&fields), Some(windows));
}

#[test]
fn wrapped_key_round_trip() {
    let k = key();
    for encryption in [Encryption::Off, Encryption::ChaCha20 { iv: [5; 12] }] {
        let wrapped =
            EncryptedKey::encrypt_with(&k, cheap(), encryption, [3; 32], b"password").unwrap();
        assert_eq!(wrapped.opts(), cheap());
        assert_eq!(wrapped.decrypt(b"password"), Ok(key()));
        let fields = wrapped.to_fields();
        assert_eq!(fields.len(), 7);
        assert_eq!(fields[1], Field::Bytes(vec![3; 32]));
        assert_eq!(fields[2], Field::Uint(8));
        let back = EncryptedKey::from_fields(&fields).unwrap();
        assert_eq!(back.to_fields(), fields);
        assert_eq!(back.decrypt(b"password"), Ok(key()));
        assert_eq!(EncryptedKey::kind(), ObjectKind::Key);
    }
    let wrapped =
        EncryptedKey::encrypt_with(&k, cheap(), Encryption::ChaCha20 { iv: [5; 12] }, [3; 32], b"pw")
            .unwrap();
    assert_eq!(wrapped.decrypt(b"wrong"), Err(KeyError::PasswordMismatch));
    assert_eq!(wrapped.decrypt(b""), Err(KeyError::PasswordMismatch));
    assert_eq!(wrapped.try_unencrypted(), Err(KeyError::Malformed));
    // another salt gives another wrapping key
    let salted =
        EncryptedKey::encrypt_with(&k, cheap(), Encryption::ChaCha20 { iv: [5; 12] }, [4; 32], b"pw")
            .unwrap();
    assert_ne!(salted.to_fields()[0], wrapped.to_fields()[0]);
    // without encryption the record of the key is stored as it is
    let open = EncryptedKey::encrypt_with(&k, cheap(), Encryption::Off, [3; 32], b"pw").unwrap();
    assert_eq!(open.try_unencrypted(), Ok(key()));
    assert_eq!(open.to_fields()[0], Field::Bytes(Formatter::Cbor.format(&k.to_fields()).unwrap()));
    assert_eq!(open.decrypt(b"any password"), Ok(key()));
    // a fresh salt each time
    let a = EncryptedKey::encrypt(&k, cheap(), Encryption::Off, b"pw").unwrap();
    let b = k.encrypt(cheap(), Encryption::Off, b"pw").unwrap();
    assert_ne!(a.to_fields()[1], b.to_fields()[1]);
    assert_eq!(
        EncryptedKey::encrypt_with(
            &k,
            EncryptOptions { mem_cost: 8, time_cost: 0, parallel_cost: 1 },
            Encryption::Off,
            [0; 32],
            b"pw"
        )
        .map(|_| ()),
        Err(KeyError::Derive)
    );
    assert_eq!(
        EncryptOptions::default(),
        EncryptOptions { mem_cost: 4096, time_cost: 3, parallel_cost: 1 }
    );
    assert_eq!((DEFAULT_M_COST, DEFAULT_T_COST, DEFAULT_P_COST), (4096, 3, 1));
}

#[test]
fn wrapped_key_matches_argon2() {
    let k = key();
    let salt = [0x0f; 32];
    let iv = [1u8; 12];
    let wrapped =
        EncryptedKey::encrypt_with(&k, cheap(), Encryption::ChaCha20 { iv }, salt, b"pw").unwrap();
    // the wrapping key, as Argon2 derives it from the salt in hexadecimal
    let params = argon2::Params::new(8, 1, 1, Some(32)).unwrap();
    let algo = argon2::Argon2::new(argon2::Algorithm::Argon2id, argon2::Version::V0x13, params);
    let salt_hex = "0f".repeat(32);
    let hash = argon2::PasswordHasher::hash_password(&algo, b"pw", &salt_hex).unwrap();
    let wrap = hash.hash.unwrap().as_bytes().to_vec();
    assert_eq!(wrap.len(), 32);
    let record = Formatter::Cbor.format(&k.to_fields()).unwrap();
    assert_eq!(
        wrapped.to_fields()[0],
        Field::Bytes(Encryption::ChaCha20 { iv }.encrypt_bytes(&wrap, &record).unwrap())
    );
    let fields = wrapped.to_fields();
    let mut bad = fields.clone();
    bad[1] = Field::Bytes(vec![0; 31]);
    assert!(EncryptedKey::from_fields(&bad).is_none());
    let mut bad = fields.clone();
    bad[5] = Field::Uint(0);
    assert!(EncryptedKey::from_fields(&bad).is_none());
    let mut bad = fields;
    bad[6] = Field::Null;
    assert!(EncryptedKey::from_fields(&bad).is_none());
}

#[test]
fn config_and_lock_records() {
    let process = ProcessOptions {
        chunker: ChunkerParams::FastCdc(FastCdc { min_size: 1, avg_size: 2, max_size: 3 }),
        identifier: IdentifierParams::Blake3,
        compression: CompressionParams::Brotli,
        encryption: EncryptionParams::Off,
        verifier: VerifierParams::Blake3,
    };
    let config = Config::new(7, Id([1; 32]), process);
    let fields = config.to_fields();
    assert_eq!(
        fields,
        vec![
            Field::Uint(7),
            Field::Bytes(vec![1; 32]),
            Field::Uint(0),
            Field::Uint(1),
            Field::Uint(2),
            Field::Uint(3),
            Field::Uint(0),
            Field::Uint(1),
            Field::Uint(0),
            Field::Uint(1),
        ]
    );
    assert_eq!(Config::from_fields(&fields), Some(config));
    let mut bad = fields.clone();
    bad[7] = Field::Uint(2);
    assert_eq!(Config::from_fields(&bad), None);
    let mut bad = fields.clone();
    bad[1] = Field::Bytes(vec![1; 31]);
    assert_eq!(Config::from_fields(&bad), None);
    let mut bad = fields;
    bad.push(Field::Null);
    assert_eq!(Config::from_fields(&bad), None);
    let fresh = Config::fresh(process);
    assert_eq!(fresh.version, VERSION);
    assert_eq!(fresh.process, process);
    assert_ne!(fresh.id, Config::fresh(process).id);

    let lock = Lock::new(
        LockMeta { user: windows_user(), created: Timestamp { secs: 12, nanos: 34 }, pid: 56 },
        LockState {
            config: LockAccess::Exclusive,
            index: LockAccess::Shared,
            key: LockAccess::Idle,
            snapshot: LockAccess::Shared,
            pack: LockAccess::Exclusive,
        },
    );
    let fields = lock.to_fields();
    assert_eq!(
        fields,
        vec![
            Field::Uint(1),
            Field::Null,
            Field::Bytes(b"me".to_vec()),
            Field::Null,
            Field::Null,
            Field::Uint(12),
            Field::Uint(34),
            Field::Uint(56),
            Field::Uint(2),
            Field::Uint(1),
            Field::Uint(0),
            Field::Uint(1),
            Field::Uint(2),
        ]
    );
    assert_eq!(Lock::from_fields(&fields), Some(lock));
    let mut bad = fields.clone();
    bad[8] = Field::Uint(3);
    assert_eq!(Lock::from_fields(&bad), None);
    let mut bad = fields;
    bad[3] = Field::Uint(1);
    assert_eq!(Lock::from_fields(&bad), None);
}

#[test]
fn record_parts() {
    assert_eq!(opt_bytes_field(&Some(vec![1])), Field::Bytes(vec![1]));
    assert_eq!(opt_bytes_field(&None), Field::Null);
    assert_eq!(opt_u32_field(Some(5)), Field::Uint(5));
    assert_eq!(opt_u32_field(None), Field::Null);
    assert_eq!(secs_field(0), Field::Uint(0));
    assert_eq!(secs_field(-1), Field::Nint(0));
    assert_eq!(secs_field(i64::MAX), Field::Uint(i64::MAX as u64));
    assert_eq!(secs_field(-100), Field::Nint(99));
    assert_eq!(access_field(LockAccess::Shared), Field::Uint(1));
    assert_eq!(bytes_field(b"ab"), Field::Bytes(b"ab".to_vec()));
    assert_eq!(read_secs(&Field::Nint(99)), Some(-100));
    assert_eq!(read_secs(&Field::Nint(i64::MAX as u64)), Some(i64::MIN));
    assert_eq!(read_secs(&Field::Nint(i64::MAX as u64 + 1)), None);
    assert_eq!(read_secs(&Field::Uint(i64::MAX as u64 + 1)), None);
    assert_eq!(read_secs(&Field::Null), None);
    assert_eq!(read_u32(&Field::Uint(u32::MAX as u64)), Some(u32::MAX));
    assert_eq!(read_u32(&Field::Uint(u32::MAX as u64 + 1)), None);
    assert_eq!(read_u64(&Field::Uint(u64::MAX)), Some(u64::MAX));
    assert_eq!(read_u64(&Field::Nint(1)), None);
    assert_eq!(read_opt_u32(&Field::Null), Some(None));
    assert_eq!(read_opt_u32(&Field::Uint(1)), Some(Some(1)));
    assert_eq!(read_opt_u32(&Field::Bytes(vec![])), None);
    assert_eq!(read_opt_bytes(&Field::Null), Some(None));
    assert_eq!(read_opt_bytes(&Field::Bytes(vec![1])), Some(Some(vec![1])));
    assert_eq!(read_opt_bytes(&Field::Uint(1)), None);
    assert_eq!(read_bytes(&Field::Null), None);
    assert_eq!(read_bytes(&Field::Bytes(vec![2])), Some(vec![2]));
    assert_eq!(read_access(&Field::Uint(2)), Some(LockAccess::Exclusive));
    assert_eq!(read_access(&Field::Uint(0)), Some(LockAccess::Idle));
    assert_eq!(read_access(&Field::Uint(3)), None);
    let fields = vec![Field::Null, Field::Uint(5), Field::Uint(6)];
    assert_eq!(read_time(&fields, 1), Some(Timestamp { secs: 5, nanos: 6 }));
    assert_eq!(read_time(&fields, 0), None);
    let user = vec![Field::Uint(1), Field::Null, Field::Null, Field::Null, Field::Null];
    assert_eq!(
        read_user(&user, 0),
        Some(User::Windows(windows::User { hostname: None, username: None }))
    );
}

#[test]
fn process_options_are_merged() {
    let recommended = ProcessOpts::recommended();
    assert_eq!(
        recommended.options(),
        Some(ProcessOptions {
            chunker: ChunkerParams::FastCdc(FastCdc::default()),
            identifier: IdentifierParams::Blake3,
            compression: CompressionParams::Brotli,
            encryption: EncryptionParams::ChaCha20,
            verifier: VerifierParams::Blake3,
        })
    );
    assert_eq!(recommended.repo, RepoProcessOpts::recommended());
    assert_eq!(recommended.chunk, ChunkProcessOpts::recommended());
    assert_eq!(ProcessOpts::empty().options(), None);
    assert_eq!(ProcessOpts::empty().repo, RepoProcessOpts::empty());
    assert_eq!(ProcessOpts::empty().chunk, ChunkProcessOpts::empty());
    assert_eq!(RepoProcessOpts::empty(), RepoProcessOpts { chunker: None, identifier: None });
    assert_eq!(
        ChunkProcessOpts::empty(),
        ChunkProcessOpts { compression: None, encryption: None, verifier: None }
    );
    let mut chosen = ProcessOpts::empty();
    chosen.chunk.compression = Some(CompressionParams::Off);
    assert_eq!(chosen.options(), None);
    chosen.merge(ProcessOpts::recommended());
    let options = chosen.options().unwrap();
    assert_eq!(options.compression, CompressionParams::Off);
    assert_eq!(options.encryption, EncryptionParams::ChaCha20);
    let mut repo = RepoProcessOpts::empty();
    repo.merge(RepoProcessOpts::empty());
    assert_eq!(repo, RepoProcessOpts::empty());
    let mut chunk = ChunkProcessOpts::recommended();
    chunk.merge(ChunkProcessOpts::empty());
    assert_eq!(chunk, ChunkProcessOpts::recommended());
    assert_eq!(KeyOpts { id: None }.into_id(), None);
    assert_eq!(KeyOpts { id: Some("ab".to_string()) }.into_id().unwrap().id, "ab");
}

#[test]
fn stdin_source() {
    assert!(!StdinItem.can_descend());
    assert_eq!(StdinSource.iter(None), vec![StdinItem]);
    assert_eq!(StdinSource.iter(Some(&StdinItem)), Vec::new());
    let node = StdinSource.node(&StdinItem);
    assert_eq!(node.name, b"stdin".to_vec());
    assert_eq!(node.kind, dechst::obj::tree::node::NodeKind::file());
    assert_eq!(node.meta, Metadata::unknown());
}

#[test]
fn messages_and_names() {
    assert_eq!(CompressError::Compress.message(), "Compression(brotli) failed to compress bytes");
    assert_eq!(
        PipelineError::Compress(CompressError::Decompress).message(),
        "Compress: Decompression(brotli) failed to decompress bytes"
    );
    assert_eq!(
        PipelineError::Verify(VerifyError::VerificationFailed).message(),
        "Verify: Failed to verify data"
    );
    assert_eq!(
        PipelineError::Format(FormatError::Failed(FormatFailure::Malformed)).message(),
        "Format: Failed"
    );
    assert_eq!(
        PipelineError::Encrypt(EncryptError::TooLong).message(),
        "Encrypt: Encryption(chacha20) cannot take so many bytes"
    );
    assert_eq!(Compression::Off.name(), "None");
    assert_eq!(Compression::Brotli.name(), "Brotli");
    assert_eq!(Encryption::Off.name(), "None");
    assert_eq!(Encryption::ChaCha20 { iv: [0; 12] }.name(), "ChaCha20");
    assert_eq!(Verifier::Off.name(), "None");
    assert_eq!(Verifier::Blake3.name(), "Blake3");
    assert_eq!(Identifier::Blake3.name(), "Blake3");
    assert_eq!(Formatter::Cbor.name(), "Cbor");
    assert_eq!(TreeErrorKind::DuplicateNode.name(), "DuplicateNode");
    assert_eq!(TreeErrorKind::UnresolvedBranch.name(), "UnresolvedBranch");

    let mut path = dechst::path::PathBuf::new();
    assert_eq!(path.joined(), b"".to_vec());
    path.push(b"a".to_vec());
    assert_eq!(path.joined(), b"a".to_vec());
    path.push(b"".to_vec());
    path.push(b"bc".to_vec());
    assert_eq!(path.joined(), b"a//bc".to_vec());

    let meta = LockMeta::new(unix_user(), Timestamp { secs: 1, nanos: 2 }, 3);
    assert_eq!(meta.pid, 3);
    let snapshot = dechst::obj::snapshot::Snapshot::new(
        Timestamp { secs: 1, nanos: 2 },
        Id([4; 32]),
        windows_user(),
        b"/home".to_vec(),
    );
    assert_eq!(snapshot.tree, Id([4; 32]));
    assert_eq!(snapshot.parent, None);
    assert_eq!(snapshot.user_data.len(), 0);
    assert_eq!(snapshot.id, Id::zero());
}
