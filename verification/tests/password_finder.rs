use std::io::Write;
use zip::unstable::write::FileOptionsExt;
use zip::write::SimpleFileOptions;
use zip_password_finder::charsets::preset_to_charset;
use zip_password_finder::finder_errors::FinderError;
use zip_password_finder::password_finder::{
    password_finder, Coordinator, Order, Signal, Strategy,
};

fn encrypted_archive(password: &str, aes: Option<zip::AesMode>) -> Vec<u8> {
    let mut writer = zip::ZipWriter::new(std::io::Cursor::new(Vec::new()));
    let options =
        SimpleFileOptions::default().compression_method(zip::CompressionMethod::Deflated);
    match aes {
        Some(mode) => writer
            .start_file("test.txt", options.with_aes_encryption(mode, password))
            .unwrap(),
        None => writer
            .start_file(
                "test.txt",
                options.with_deprecated_encryption(password.as_bytes()),
            )
            .unwrap(),
    }
    writer
        .write_all(b"the quick brown fox jumps over the lazy dog, again and again and again")
        .unwrap();
    writer.finish().unwrap().into_inner()
}

fn lowercase_dictionary() -> Vec<u8> {
    let letters: Vec<char> = ('a'..='z').collect();
    let mut text = String::new();
    for a in &letters {
        text.push_str(&format!("{a}\n"));
    }
    for a in &letters {
        for b in &letters {
            text.push_str(&format!("{a}{b}\n"));
        }
    }
    for a in &letters {
        for b in &letters {
            for c in &letters {
                text.push_str(&format!("{a}{b}{c}\n"));
            }
        }
    }
    text.into_bytes()
}

fn find_password_gen(
    archive: Vec<u8>,
    max_password_len: usize,
) -> Result<Option<String>, FinderError> {
    let strategy = Strategy::GenPasswords {
        charset: preset_to_charset("l")?,
        min_password_len: 1,
        max_password_len,
        starting_password: None,
    };
    let workers = num_cpus::get_physical();
    let file_number = 0;
    password_finder(archive, workers, file_number, &strategy)
}

fn find_password_dictionary(archive: Vec<u8>) -> Result<Option<String>, FinderError> {
    let strategy = Strategy::PasswordFile(lowercase_dictionary());
    let workers = num_cpus::get_physical();
    let file_number = 0;
    password_finder(archive, workers, file_number, &strategy)
}

#[test]
fn find_two_letters_password_generated() {
    let password = find_password_gen(encrypted_archive("ab", None), 2)
        .unwrap()
        .unwrap();
    assert_eq!(password, "ab");
}

#[test]
fn find_two_letters_password_dictionary() {
    let password = find_password_dictionary(encrypted_archive("ab", None))
        .unwrap()
        .unwrap();
    assert_eq!(password, "ab");
}

#[test]
fn fail_to_find_two_letters_password_generated() {
    let password = find_password_gen(encrypted_archive("ab", None), 1).unwrap();
    assert!(password.is_none());
}

#[test]
fn find_three_letters_password_generated() {
    let password = find_password_gen(encrypted_archive("abc", None), 3)
        .unwrap()
        .unwrap();
    assert_eq!(password, "abc");
}

#[test]
fn find_three_letters_password_dictionary() {
    let password = find_password_dictionary(encrypted_archive("abc", None))
        .unwrap()
        .unwrap();
    assert_eq!(password, "abc");
}

#[test]
fn fail_to_find_three_letters_password_generated() {
    let password = find_password_gen(encrypted_archive("abc", None), 2).unwrap();
    assert!(password.is_none());
}

#[test]
fn find_four_letters_password_generated() {
    let strategy = Strategy::GenPasswords {
        charset: preset_to_charset("l").unwrap(),
        min_password_len: 1,
        max_password_len: 4,
        starting_password: Some("abaa".to_string()),
    };
    let archive = encrypted_archive("abcd", Some(zip::AesMode::Aes256));
    let password = password_finder(archive, 1, 0, &strategy)
        .unwrap()
        .unwrap();
    assert_eq!(password, "abcd");
}

#[test]
fn find_four_letters_password_of_legacy_entry() {
    let password = find_password_gen(encrypted_archive("abcd", None), 4)
        .unwrap()
        .unwrap();
    assert_eq!(password, "abcd");
}

#[test]
fn find_four_letters_password_of_aes_entry() {
    let strategy = Strategy::GenPasswords {
        charset: vec!['a', 'b', 'c', 'd'],
        min_password_len: 1,
        max_password_len: 4,
        starting_password: None,
    };
    let archive = encrypted_archive("abcd", Some(zip::AesMode::Aes256));
    let password = password_finder(archive, 1, 0, &strategy).unwrap().unwrap();
    assert_eq!(password, "abcd");
}

#[test]
fn fail_to_find_password_of_aes_entry() {
    let strategy = Strategy::GenPasswords {
        charset: vec!['a', 'b', 'c', 'd'],
        min_password_len: 1,
        max_password_len: 3,
        starting_password: None,
    };
    let archive = encrypted_archive("abcd", Some(zip::AesMode::Aes256));
    let password = password_finder(archive, 2, 0, &strategy).unwrap();
    assert!(password.is_none());
}

#[test]
fn find_password_with_any_number_of_workers() {
    for workers in [1usize, 2, 3, 5, 8] {
        let strategy = Strategy::GenPasswords {
            charset: vec!['a', 'b', 'c', 'd'],
            min_password_len: 1,
            max_password_len: 4,
            starting_password: None,
        };
        let found = password_finder(encrypted_archive("dcba", None), workers, 0, &strategy);
        assert_eq!(found.unwrap(), Some("dcba".to_string()));
    }
    let strategy = Strategy::GenPasswords {
        charset: vec!['a', 'b', 'c', 'd'],
        min_password_len: 1,
        max_password_len: 3,
        starting_password: None,
    };
    for workers in [2usize, 3] {
        let found = password_finder(
            encrypted_archive("dcb", Some(zip::AesMode::Aes128)),
            workers,
            0,
            &strategy,
        );
        assert_eq!(found.unwrap(), Some("dcb".to_string()));
    }
}

#[test]
fn nothing_is_searched_without_workers() {
    let strategy = Strategy::GenPasswords {
        charset: vec!['a', 'b'],
        min_password_len: 1,
        max_password_len: 2,
        starting_password: None,
    };
    let found = password_finder(encrypted_archive("ab", None), 0, 0, &strategy);
    assert_eq!(found.unwrap(), None);
}

#[test]
fn search_from_a_starting_password_skips_what_comes_before() {
    let strategy = Strategy::GenPasswords {
        charset: vec!['a', 'b', 'c'],
        min_password_len: 1,
        max_password_len: 3,
        starting_password: Some("ca".to_string()),
    };
    let found = password_finder(encrypted_archive("bc", None), 2, 0, &strategy);
    assert_eq!(found.unwrap(), None);
    let found = password_finder(encrypted_archive("cab", None), 2, 0, &strategy);
    assert_eq!(found.unwrap(), Some("cab".to_string()));
    let found = password_finder(encrypted_archive("ca", None), 2, 0, &strategy);
    assert_eq!(found.unwrap(), Some("ca".to_string()));
}

#[test]
fn search_refuses_what_validation_refuses() {
    let strategy = Strategy::PasswordFile(b"a\nb\n".to_vec());
    assert!(matches!(
        password_finder(b"no archive".to_vec(), 2, 0, &strategy),
        Err(FinderError::InvalidZip { .. })
    ));
    assert!(matches!(
        password_finder(encrypted_archive("a", None), 2, 3, &strategy),
        Err(FinderError::FileNotFoundInArchive { file_number: 3 })
    ));
}

#[test]
fn announced_totals() {
    let strategy = Strategy::PasswordFile(lowercase_dictionary());
    assert_eq!(strategy.total_password_count(), 18278);
    let strategy = Strategy::GenPasswords {
        charset: vec!['a', 'b', 'c'],
        min_password_len: 1,
        max_password_len: 2,
        starting_password: Some("bb".to_string()),
    };
    assert_eq!(strategy.total_password_count(), 12);
    let mut source = strategy.source();
    assert_eq!(source.next(), Some("bb".to_string()));
}

#[test]
fn coordinator_keeps_the_first_result() {
    let mut coordinator = Coordinator::new();
    assert_eq!(
        coordinator.on_signal(Signal::PasswordFound("first".to_string())),
        Order::StopWorkers
    );
    assert_eq!(
        coordinator.on_signal(Signal::PasswordFound("second".to_string())),
        Order::Rest
    );
    assert_eq!(coordinator.on_signal(Signal::WorkersGone), Order::Rest);
    assert_eq!(coordinator.into_result(), Some("first".to_string()));

    let mut coordinator = Coordinator::new();
    assert_eq!(coordinator.on_signal(Signal::WorkersGone), Order::Rest);
    assert_eq!(
        coordinator.on_signal(Signal::PasswordFound("late".to_string())),
        Order::Rest
    );
    assert_eq!(coordinator.into_result(), None);

    assert_eq!(Coordinator::new().into_result(), None);
}
