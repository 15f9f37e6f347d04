use zip_password_finder::finder_errors::FinderError;
use zip_password_finder::text::{chars_of_str, push_decimal, string_of_chars};

#[test]
fn errors_are_shown_in_words() {
    assert_eq!(
        FinderError::StdIoError {
            e: "No such file or directory (os error 2)".to_string()
        }
        .to_string(),
        "standard I/O error - No such file or directory (os error 2)"
    );
    assert_eq!(
        FinderError::invalid_zip_error("broken".to_string()).to_string(),
        "Invalid zip file error - broken"
    );
    assert_eq!(
        FinderError::file_not_found_error(42).to_string(),
        "File number not found within archive error - '42'"
    );
    assert_eq!(
        FinderError::CliArgumentError {
            message: "'workers' must be positive".to_string()
        }
        .to_string(),
        "CLI argument error - \"'workers' must be positive\""
    );
    assert_eq!(
        FinderError::CliArgumentError {
            message: "tab\there \"quoted\"".to_string()
        }
        .to_string(),
        "CLI argument error - \"tab\\there \\\"quoted\\\"\""
    );
    assert_eq!(
        FinderError::ClapError {
            e: "unexpected argument".to_string()
        }
        .to_string(),
        "CLI argument error (unexpected argument)"
    );
    assert_eq!(
        FinderError::ClapMatchError {
            message: "mismatch".to_string()
        }
        .to_string(),
        "CLI argument match error (mismatch)"
    );
}

#[test]
fn error_constructors_fill_their_variant() {
    assert!(matches!(
        FinderError::invalid_zip_error("m".to_string()),
        FinderError::InvalidZip { message } if message == "m"
    ));
    assert!(matches!(
        FinderError::file_not_found_error(7),
        FinderError::FileNotFoundInArchive { file_number: 7 }
    ));
}

#[test]
fn numbers_are_written_in_decimal() {
    for (n, expected) in [
        (0usize, "0"),
        (7, "7"),
        (10, "10"),
        (99, "99"),
        (100, "100"),
        (1234567890, "1234567890"),
        (usize::MAX, "18446744073709551615"),
    ] {
        let mut text = String::from("n=");
        push_decimal(&mut text, n);
        assert_eq!(text, format!("n={expected}"));
    }
}

#[test]
fn strings_and_their_symbols() {
    assert_eq!(chars_of_str("a\u{e9}\u{1F600}z"), vec!['a', '\u{e9}', '\u{1F600}', 'z']);
    assert_eq!(chars_of_str(""), Vec::<char>::new());
    assert_eq!(string_of_chars(&vec!['a', '\u{e9}', '\u{1F600}', 'z']), "a\u{e9}\u{1F600}z");
    assert_eq!(string_of_chars(&Vec::new()), "");
}
