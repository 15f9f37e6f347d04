use zip_password_finder::charsets::{
    charset_digits, charset_from_choice, charset_from_file, charset_lowercase_hex,
    charset_lowercase_letters,
    charset_symbols, charset_uppercase_hex, charset_uppercase_letters, preset_to_charset,
    CharsetChoice, FileText,
};
use zip_password_finder::finder_errors::FinderError;

#[test]
fn test_basic_charset() {
    let charset = preset_to_charset("l").unwrap();
    assert_eq!(charset, charset_lowercase_letters());
    let charset = preset_to_charset("u").unwrap();
    assert_eq!(charset, charset_uppercase_letters());
    let charset = preset_to_charset("d").unwrap();
    assert_eq!(charset, charset_digits());
    let charset = preset_to_charset("s").unwrap();
    assert_eq!(charset, charset_symbols());
    let charset = preset_to_charset("h").unwrap();
    assert_eq!(charset, charset_lowercase_hex());
    let charset = preset_to_charset("H").unwrap();
    assert_eq!(charset, charset_uppercase_hex());
}

#[test]
fn test_combined_charsets() {
    let charset = preset_to_charset("lu").unwrap();
    assert_eq!(
        charset,
        [charset_lowercase_letters(), charset_uppercase_letters()].concat()
    );

    let charset = preset_to_charset("lud").unwrap();
    assert_eq!(
        charset,
        [
            charset_lowercase_letters(),
            charset_uppercase_letters(),
            charset_digits(),
        ]
        .concat()
    );
}

#[test]
fn test_charset_from_file() {
    let charset = charset_from_file(
        &"test-files/file-charset.txt".to_string(),
        Some(&FileText::Read("a\"eiouAEIOU24680*#$".to_string())),
    )
    .unwrap();
    assert_eq!(
        charset,
        vec![
            'a', '"', 'e', 'i', 'o', 'u', 'A', 'E', 'I', 'O', 'U', '2', '4', '6', '8', '0',
            '*', '#', '$'
        ]
    );
}

#[test]
fn preset_contents() {
    assert_eq!(
        charset_lowercase_letters().iter().collect::<String>(),
        "abcdefghijklmnopqrstuvwxyz"
    );
    assert_eq!(
        charset_uppercase_letters().iter().collect::<String>(),
        "ABCDEFGHIJKLMNOPQRSTUVWXYZ"
    );
    assert_eq!(charset_digits().iter().collect::<String>(), "0123456789");
    assert_eq!(
        charset_symbols().iter().collect::<String>(),
        " !\"#$%&'()*+,-./:;<=>?@[\\]^_`{|}~"
    );
    assert_eq!(
        charset_lowercase_hex().iter().collect::<String>(),
        "0123456789abcdef"
    );
    assert_eq!(
        charset_uppercase_hex().iter().collect::<String>(),
        "0123456789ABCDEF"
    );
}

#[test]
fn unknown_preset_code_is_reported() {
    match preset_to_charset("lxu") {
        Err(FinderError::CliArgumentError { message }) => {
            assert_eq!(message, "Unknown charset option 'x'")
        }
        other => panic!("unexpected {:?}", other),
    }
}

#[test]
fn choice_of_presets_is_sorted_and_deduplicated() {
    let choice = CharsetChoice::Preset("hd".to_string());
    let charset = charset_from_choice(&choice, None).unwrap();
    assert_eq!(charset.iter().collect::<String>(), "0123456789abcdef");

    let choice = CharsetChoice::Preset("lud".to_string());
    let charset = charset_from_choice(&choice, None).unwrap();
    assert_eq!(
        charset.iter().collect::<String>(),
        "0123456789ABCDEFGHIJKLMNOPQRSTUVWXYZabcdefghijklmnopqrstuvwxyz"
    );
}

#[test]
fn choice_of_file_uses_its_text() {
    let choice = CharsetChoice::File("charset.txt".to_string());
    let text = FileText::Read("cabbage".to_string());
    let charset = charset_from_choice(&choice, Some(&text)).unwrap();
    assert_eq!(charset, vec!['a', 'b', 'c', 'e', 'g']);
}

#[test]
fn choice_of_unreadable_file_is_an_io_failure() {
    let choice = CharsetChoice::File("nowhere.txt".to_string());
    let failed = FileText::Failed("No such file or directory (os error 2)".to_string());
    match charset_from_choice(&choice, Some(&failed)) {
        Err(FinderError::StdIoError { e }) => {
            assert_eq!(e, "No such file or directory (os error 2)")
        }
        other => panic!("unexpected {:?}", other),
    }
    match charset_from_choice(&choice, None) {
        Err(FinderError::StdIoError { e }) => assert_eq!(e, "'nowhere.txt' was not read"),
        other => panic!("unexpected {:?}", other),
    }
    match charset_from_file(&"nowhere.txt".to_string(), Some(&failed)) {
        Err(FinderError::StdIoError { e }) => {
            assert_eq!(e, "No such file or directory (os error 2)")
        }
        other => panic!("unexpected {:?}", other),
    }
    match charset_from_file(&"nowhere.txt".to_string(), None) {
        Err(FinderError::StdIoError { e }) => assert_eq!(e, "'nowhere.txt' was not read"),
        other => panic!("unexpected {:?}", other),
    }
}

#[test]
fn choice_of_unknown_preset_is_reported() {
    let choice = CharsetChoice::Preset("l?".to_string());
    match charset_from_choice(&choice, None) {
        Err(FinderError::CliArgumentError { message }) => {
            assert_eq!(message, "Unknown charset option '?'")
        }
        other => panic!("unexpected {:?}", other),
    }
}
