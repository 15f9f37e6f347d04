use std::io::Write;
use zip::unstable::write::FileOptionsExt;
use zip::write::SimpleFileOptions;
use zip_password_finder::finder_errors::FinderError;
use zip_password_finder::password_finder::Strategy;
use zip_password_finder::password_worker::{
    judge_attempt, password_checker, verification_tail_matches, Verdict, WorkerState,
};
use zip_password_finder::zip_utils::{validate_zip, Attempt};

fn secret_archive(password: &str, aes: Option<zip::AesMode>) -> Vec<u8> {
    let mut writer = zip::ZipWriter::new(std::io::Cursor::new(Vec::new()));
    let options =
        SimpleFileOptions::default().compression_method(zip::CompressionMethod::Deflated);
    match aes {
        Some(mode) => writer
            .start_file("test.txt", options.with_aes_encryption(mode, password))
            .unwrap(),
        None => writer
            .start_file(
                "test.txt",
                options.with_deprecated_encryption(password.as_bytes()),
            )
            .unwrap(),
    }
    writer
        .write_all(b"the quick brown fox jumps over the lazy dog, again and again and again")
        .unwrap();
    writer.finish().unwrap().into_inner()
}

fn letters(charset: &str, min: usize, max: usize) -> Strategy {
    Strategy::GenPasswords {
        charset: charset.chars().collect(),
        min_password_len: min,
        max_password_len: max,
        starting_password: None,
    }
}

#[test]
fn tail_of_the_derived_key_is_compared() {
    assert!(verification_tail_matches(&vec![9, 9, 1, 2], &[1, 2]));
    assert!(verification_tail_matches(&vec![1, 2], &[1, 2]));
    assert!(!verification_tail_matches(&vec![1, 2, 9], &[1, 2]));
    assert!(!verification_tail_matches(&vec![9, 9, 2, 1], &[1, 2]));
    assert!(!verification_tail_matches(&vec![9, 9, 1, 3], &[1, 2]));
    assert!(!verification_tail_matches(&vec![2], &[1, 2]));
    assert!(!verification_tail_matches(&Vec::new(), &[0, 0]));
}

#[test]
fn attempts_are_judged() {
    let opened = |size: u64, read: Option<usize>| Attempt::Opened { size, read };
    assert!(matches!(judge_attempt(opened(74, Some(74)), true), Verdict::Confirmed));
    assert!(matches!(judge_attempt(opened(0, Some(0)), true), Verdict::Confirmed));
    assert!(matches!(judge_attempt(opened(74, Some(73)), true), Verdict::Rejected));
    assert!(matches!(judge_attempt(opened(74, Some(75)), true), Verdict::Rejected));
    assert!(matches!(judge_attempt(opened(74, None), true), Verdict::Rejected));
    assert!(matches!(judge_attempt(opened(74, Some(74)), false), Verdict::Rejected));
    assert!(matches!(judge_attempt(Attempt::InvalidPassword, true), Verdict::Rejected));
    assert!(matches!(judge_attempt(Attempt::InvalidPassword, false), Verdict::Rejected));
    for named in [true, false] {
        match judge_attempt(
            Attempt::Failed {
                reason: "Io(broken)".to_string(),
            },
            named,
        ) {
            Verdict::Fatal { reason } => assert_eq!(reason, "Unexpected error Io(broken)"),
            _ => panic!("the attempt should be fatal"),
        }
    }
}

#[test]
fn worker_checks_candidates_of_legacy_entry() {
    let archive = secret_archive("cab", None);
    let mut worker = password_checker(1, 1, archive, 0, None, &letters("abc", 1, 3)).unwrap();
    assert!(worker.entry_is_named());
    assert!(matches!(worker.check_candidate(&"cab".to_string()), Verdict::Confirmed));
    assert!(matches!(worker.check_candidate(&"abc".to_string()), Verdict::Rejected));
    assert!(matches!(worker.check_candidate(&"".to_string()), Verdict::Rejected));
    assert!(matches!(worker.check_candidate(&"cab".to_string()), Verdict::Confirmed));
    let mut rejected = 0;
    for n in 0..2000 {
        if matches!(worker.check_candidate(&format!("wrong{n}")), Verdict::Rejected) {
            rejected += 1;
        }
    }
    assert_eq!(rejected, 2000);
}

#[test]
fn worker_checks_candidates_of_aes_entry() {
    for mode in [zip::AesMode::Aes128, zip::AesMode::Aes192, zip::AesMode::Aes256] {
        let archive = secret_archive("p\u{e4}ss", Some(mode));
        let aes_info = validate_zip(archive.clone(), 0).unwrap().aes_info;
        assert!(aes_info.is_some());
        let mut worker =
            password_checker(1, 1, archive, 0, aes_info, &letters("abc", 1, 1)).unwrap();
        assert!(matches!(worker.check_candidate(&"pass".to_string()), Verdict::Rejected));
        assert!(matches!(worker.check_candidate(&"p\u{e4}ss".to_string()), Verdict::Confirmed));
        assert!(matches!(worker.check_candidate(&"p\u{e4}ss ".to_string()), Verdict::Rejected));
        assert!(matches!(worker.check_candidate(&"p\u{e4}ss".to_string()), Verdict::Confirmed));
    }
}

#[test]
fn worker_reports_its_batches() {
    let archive = secret_archive("dca", None);
    let mut worker =
        password_checker(1, 1, archive, 0, None, &letters("abcdefgh", 1, 3)).unwrap();
    assert_eq!(worker.state(), WorkerState::Running);
    let report = worker.run_batch();
    assert_eq!(report.processed, 500);
    assert_eq!(report.found, vec!["dca".to_string()]);
    assert_eq!(report.progress, Some(500));
    assert_eq!(report.fatal, None);
    assert_eq!(report.last_candidate, Some("gfd".to_string()));
    assert_eq!(worker.state(), WorkerState::Running);
    let report = worker.run_batch();
    assert_eq!(report.processed, 8 + 64 + 512 - 500);
    assert!(report.found.is_empty());
    assert_eq!(report.progress, None);
    assert_eq!(report.last_candidate, Some("hhh".to_string()));
    assert_eq!(worker.state(), WorkerState::Done);
    let report = worker.run_batch();
    assert_eq!(report.processed, 0);
    assert!(report.found.is_empty());
    assert_eq!(report.progress, None);
    assert_eq!(report.last_candidate, None);
    assert_eq!(worker.state(), WorkerState::Done);
}

#[test]
fn only_the_first_worker_reports_progress() {
    let strategy = letters("abcdefghij", 1, 4);
    let archive = secret_archive("zzzz", None);
    let mut first = password_checker(1, 2, archive.clone(), 0, None, &strategy).unwrap();
    let mut second = password_checker(2, 2, archive, 0, None, &strategy).unwrap();
    let report = first.run_batch();
    assert_eq!(report.processed, 1000);
    assert_eq!(report.progress, Some(2000));
    assert_eq!(report.last_candidate, Some("aiii".to_string()));
    let report = second.run_batch();
    assert_eq!(report.processed, 1000);
    assert_eq!(report.progress, None);
    assert_eq!(report.last_candidate, Some("aiij".to_string()));
}

#[test]
fn worker_stops_on_the_stop_flag() {
    let archive = secret_archive("zz", None);
    let mut worker = password_checker(1, 1, archive, 0, None, &letters("abc", 1, 8)).unwrap();
    assert_eq!(worker.poll_stop(false), WorkerState::Running);
    assert_eq!(worker.finish(), WorkerState::Running);
    assert_eq!(worker.run_batch().processed, 500);
    assert_eq!(worker.poll_stop(true), WorkerState::Draining);
    assert_eq!(worker.poll_stop(false), WorkerState::Draining);
    assert_eq!(worker.run_batch().processed, 0);
    assert_eq!(worker.state(), WorkerState::Draining);
    assert_eq!(worker.finish(), WorkerState::Done);
    assert_eq!(worker.poll_stop(true), WorkerState::Done);
    assert_eq!(worker.run_batch().processed, 0);
}

#[test]
fn worker_does_not_open_what_is_no_archive() {
    match password_checker(1, 1, b"PK but no archive".to_vec(), 0, None, &letters("ab", 1, 1)) {
        Err(FinderError::InvalidZip { message }) => assert!(!message.is_empty()),
        _ => panic!("the bytes should be refused"),
    }
}

#[test]
fn worker_fails_on_an_entry_that_is_not_there() {
    let archive = secret_archive("ab", None);
    let mut worker = password_checker(1, 1, archive, 4, None, &letters("ab", 1, 2)).unwrap();
    let report = worker.run_batch();
    assert_eq!(report.processed, 1);
    assert_eq!(report.fatal, Some("Unexpected error FileNotFound".to_string()));
    assert_eq!(report.last_candidate, Some("a".to_string()));
    assert_eq!(report.progress, None);
    assert_eq!(worker.state(), WorkerState::Failed);
    assert_eq!(worker.run_batch().processed, 0);
}

fn with_short_data(mut archive: Vec<u8>, size: u32) -> Vec<u8> {
    let directory = archive
        .windows(4)
        .rposition(|window| window == b"PK\x01\x02")
        .unwrap();
    archive[directory + 20..directory + 24].copy_from_slice(&size.to_le_bytes());
    archive
}

#[test]
fn worker_refuses_an_aes_entry_too_short_for_its_frame() {
    for (mode, least) in [
        (zip::AesMode::Aes128, 20u32),
        (zip::AesMode::Aes192, 24),
        (zip::AesMode::Aes256, 28),
    ] {
        let archive = secret_archive("abc", Some(mode));
        let aes_info = validate_zip(archive.clone(), 0).unwrap().aes_info;
        for size in [0, 1, least - 1] {
            let short = with_short_data(archive.clone(), size);
            let info = aes_info.as_ref().map(|info| info.duplicate());
            match password_checker(1, 1, short.clone(), 0, info, &letters("abc", 1, 3)) {
                Err(FinderError::InvalidZip { message }) => assert_eq!(
                    message,
                    "the selected file in the archive is too short for its encryption (file_number:0)"
                ),
                _ => panic!("the entry should be refused"),
            }
            match validate_zip(short, 0) {
                Err(FinderError::InvalidZip { message }) => assert_eq!(
                    message,
                    "the selected file in the archive is too short for its encryption (file_number:0)"
                ),
                _ => panic!("the entry should be refused"),
            }
        }
        let least_archive = with_short_data(archive.clone(), least);
        assert!(validate_zip(least_archive, 0).is_ok());
    }
    let legacy = with_short_data(secret_archive("abc", None), 3);
    assert!(validate_zip(legacy, 0).is_ok());
}

#[test]
fn entry_whose_name_is_not_enclosed_confirms_nothing() {
    let mut writer = zip::ZipWriter::new(std::io::Cursor::new(Vec::new()));
    let options = SimpleFileOptions::default()
        .compression_method(zip::CompressionMethod::Stored)
        .with_deprecated_encryption(b"ab");
    writer.start_file("../outside.txt", options).unwrap();
    writer.write_all(b"some text that is long enough").unwrap();
    let archive = writer.finish().unwrap().into_inner();
    let mut worker = password_checker(1, 1, archive, 0, None, &letters("ab", 1, 2)).unwrap();
    assert!(!worker.entry_is_named());
    assert!(matches!(worker.check_candidate(&"ab".to_string()), Verdict::Rejected));
    let report = worker.run_batch();
    assert_eq!(report.processed, 6);
    assert!(report.found.is_empty());
    assert_eq!(report.fatal, None);
}
