use std::io::Write;
use zip::unstable::write::FileOptionsExt;
use zip::write::SimpleFileOptions;
use zip_password_finder::finder_errors::FinderError;
use zip_password_finder::zip_utils::{
    classify_entry, entry_holds_aes_frame, short_entry_error, validate_zip, AesInfo, AesProbe,
    PlainOpen, RawEntry, ValidatedZip,
};

fn sample_archive(password: Option<&str>, aes: Option<zip::AesMode>) -> Vec<u8> {
    let mut writer = zip::ZipWriter::new(std::io::Cursor::new(Vec::new()));
    let options =
        SimpleFileOptions::default().compression_method(zip::CompressionMethod::Deflated);
    match (password, aes) {
        (Some(password), Some(mode)) => writer
            .start_file("test.txt", options.with_aes_encryption(mode, password))
            .unwrap(),
        (Some(password), None) => writer
            .start_file(
                "test.txt",
                options.with_deprecated_encryption(password.as_bytes()),
            )
            .unwrap(),
        (None, _) => writer.start_file("test.txt", options).unwrap(),
    }
    writer
        .write_all(b"the quick brown fox jumps over the lazy dog, again and again and again")
        .unwrap();
    writer.finish().unwrap().into_inner()
}

#[test]
fn aes_info_derives_the_key_length() {
    let info = AesInfo::new(32, [7, 9], vec![1, 2, 3]);
    assert_eq!(info.aes_key_length, 32);
    assert_eq!(info.derived_key_length, 66);
    assert_eq!(info.verification_value, [7, 9]);
    assert_eq!(info.salt, vec![1, 2, 3]);
    assert_eq!(AesInfo::new(16, [0, 0], Vec::new()).derived_key_length, 34);
    assert_eq!(AesInfo::new(24, [0, 0], Vec::new()).derived_key_length, 50);
    let copy = info.duplicate();
    assert_eq!(copy.aes_key_length, 32);
    assert_eq!(copy.derived_key_length, 66);
    assert_eq!(copy.verification_value, [7, 9]);
    assert_eq!(copy.salt, vec![1, 2, 3]);
}

#[test]
fn validated_zip_keeps_its_parts() {
    let validated = ValidatedZip::new(None, Some("a.txt".to_string()));
    assert!(validated.aes_info.is_none());
    assert_eq!(validated.file_name, Some("a.txt".to_string()));
}

#[test]
fn legacy_entry_is_validated_without_aes() {
    let validated = validate_zip(sample_archive(Some("abc"), None), 0).unwrap();
    assert!(validated.aes_info.is_none());
    assert_eq!(validated.file_name, Some("test.txt".to_string()));
}

#[test]
fn aes_entries_are_validated_with_their_parameters() {
    for (mode, key_length) in [
        (zip::AesMode::Aes128, 16usize),
        (zip::AesMode::Aes192, 24),
        (zip::AesMode::Aes256, 32),
    ] {
        let validated = validate_zip(sample_archive(Some("abcd"), Some(mode)), 0).unwrap();
        let info = validated.aes_info.unwrap();
        assert_eq!(info.aes_key_length, key_length);
        assert_eq!(info.derived_key_length, 2 * key_length + 2);
        assert_eq!(info.salt.len(), key_length / 2);
        assert_eq!(validated.file_name, Some("test.txt".to_string()));
    }
}

#[test]
fn stored_verification_value_is_the_tail_of_the_derived_key() {
    let validated =
        validate_zip(sample_archive(Some("abcd"), Some(zip::AesMode::Aes256)), 0).unwrap();
    let info = validated.aes_info.unwrap();
    let mut derived = vec![0u8; info.derived_key_length];
    pbkdf2::pbkdf2::<hmac::Hmac<sha1::Sha1>>(b"abcd", &info.salt, 1000, &mut derived).unwrap();
    assert_eq!(derived[64..], info.verification_value);
}

#[test]
fn entry_without_encryption_is_refused() {
    match validate_zip(sample_archive(None, None), 0) {
        Err(FinderError::InvalidZip { message }) => assert_eq!(
            message,
            "the selected file in the archive is not encrypted (file_number:0 file_name:test.txt)"
        ),
        _ => panic!("the entry should be refused"),
    }
}

#[test]
fn missing_entry_is_reported() {
    match validate_zip(sample_archive(Some("abc"), None), 12) {
        Err(FinderError::FileNotFoundInArchive { file_number }) => assert_eq!(file_number, 12),
        _ => panic!("the entry should be missing"),
    }
}

#[test]
fn bytes_that_are_no_archive_are_refused() {
    match validate_zip(b"this is not a zip archive".to_vec(), 0) {
        Err(FinderError::InvalidZip { message }) => assert!(!message.is_empty()),
        _ => panic!("the bytes should be refused"),
    }
    assert!(matches!(
        validate_zip(Vec::new(), 0),
        Err(FinderError::InvalidZip { .. })
    ));
}

#[test]
fn classification_follows_what_the_archive_says() {
    let classified = classify_entry(
        3,
        AesProbe::NotAes,
        Some("n".to_string()),
        PlainOpen::PasswordRequired,
    )
    .unwrap();
    assert!(classified.aes_info.is_none());
    assert_eq!(classified.file_name, Some("n".to_string()));

    let classified = classify_entry(
        3,
        AesProbe::Aes {
            key_length: 24,
            verification_value: [1, 2],
            salt: vec![9; 12],
        },
        None,
        PlainOpen::PasswordRequired,
    )
    .unwrap();
    let info = classified.aes_info.unwrap();
    assert_eq!(info.aes_key_length, 24);
    assert_eq!(info.derived_key_length, 50);
    assert_eq!(info.verification_value, [1, 2]);
    assert_eq!(info.salt, vec![9; 12]);
    assert_eq!(classified.file_name, None);

    match classify_entry(
        3,
        AesProbe::Failed {
            reason: "Io(tail)".to_string(),
        },
        None,
        PlainOpen::PasswordRequired,
    ) {
        Err(FinderError::InvalidZip { message }) => {
            assert_eq!(message, "unexpected error while opening archive: Io(tail)")
        }
        _ => panic!("the entry should be refused"),
    }

    match classify_entry(
        1234567890,
        AesProbe::NotAes,
        None,
        PlainOpen::Readable {
            name: "plain.txt".to_string(),
        },
    ) {
        Err(FinderError::InvalidZip { message }) => assert_eq!(
            message,
            "the selected file in the archive is not encrypted (file_number:1234567890 file_name:plain.txt)"
        ),
        _ => panic!("the entry should be refused"),
    }

    match classify_entry(7, AesProbe::NotAes, None, PlainOpen::NotFound) {
        Err(FinderError::FileNotFoundInArchive { file_number }) => assert_eq!(file_number, 7),
        _ => panic!("the entry should be missing"),
    }

    match classify_entry(
        7,
        AesProbe::NotAes,
        None,
        PlainOpen::Other {
            reason: "InvalidArchive(\"bad\")".to_string(),
        },
    ) {
        Err(FinderError::InvalidZip { message }) => assert_eq!(
            message,
            "unexpected error while opening archive: InvalidArchive(\"bad\")"
        ),
        _ => panic!("the entry should be refused"),
    }
}

#[test]
fn aes_frame_needs_salt_verification_value_and_authentication_code() {
    let found = |aes_key_length: Option<usize>, compressed_size: u64| RawEntry::Found {
        aes_key_length,
        compressed_size,
        named: true,
    };
    assert!(entry_holds_aes_frame(&found(Some(16), 20)));
    assert!(!entry_holds_aes_frame(&found(Some(16), 19)));
    assert!(entry_holds_aes_frame(&found(Some(24), 24)));
    assert!(!entry_holds_aes_frame(&found(Some(24), 23)));
    assert!(entry_holds_aes_frame(&found(Some(32), 28)));
    assert!(!entry_holds_aes_frame(&found(Some(32), 27)));
    assert!(!entry_holds_aes_frame(&found(Some(32), 0)));
    assert!(entry_holds_aes_frame(&found(Some(usize::MAX), u64::MAX)));
    assert!(!entry_holds_aes_frame(&found(Some(usize::MAX), 1 << 40)));
    assert!(entry_holds_aes_frame(&found(None, 0)));
    assert!(entry_holds_aes_frame(&RawEntry::Unreadable));
    match short_entry_error(12) {
        FinderError::InvalidZip { message } => assert_eq!(
            message,
            "the selected file in the archive is too short for its encryption (file_number:12)"
        ),
        _ => panic!("the error should name the archive"),
    }
}
