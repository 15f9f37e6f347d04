use zip_password_finder::password_reader::{
    password_dictionary_reader_iter, password_reader_count,
};

fn lowercase_dictionary() -> Vec<u8> {
    let letters: Vec<char> = ('a'..='z').collect();
    let mut text = String::new();
    for a in &letters {
        text.push_str(&format!("{a}\n"));
    }
    for a in &letters {
        for b in &letters {
            text.push_str(&format!("{a}{b}\n"));
        }
    }
    for a in &letters {
        for b in &letters {
            for c in &letters {
                text.push_str(&format!("{a}{b}{c}\n"));
            }
        }
    }
    text.into_bytes()
}

#[test]
fn read_passwords_from_dictionary() {
    let mut iter = password_dictionary_reader_iter(lowercase_dictionary());
    let mut count = 0;
    while iter.next().is_some() {
        count += 1;
    }
    assert_eq!(count, 18278);
}

#[test]
fn count_passwords_of_dictionary() {
    assert_eq!(password_reader_count(&lowercase_dictionary()), 18278);
    assert_eq!(password_reader_count(b""), 0);
    assert_eq!(password_reader_count(b"\n"), 1);
    assert_eq!(password_reader_count(b"a"), 1);
    assert_eq!(password_reader_count(b"a\nb"), 2);
    assert_eq!(password_reader_count(b"a\nb\n"), 2);
    assert_eq!(password_reader_count(b"a\n\n\nb\n"), 4);
    assert_eq!(password_reader_count(b"\xff\xfe\n\xff"), 2);
}

#[test]
fn lines_lose_their_terminators() {
    let mut iter = password_dictionary_reader_iter(b"one\ntwo\r\nthree\r\r\n\nfour\rfive".to_vec());
    assert_eq!(iter.next(), Some("one".to_string()));
    assert_eq!(iter.next(), Some("two".to_string()));
    assert_eq!(iter.next(), Some("three\r".to_string()));
    assert_eq!(iter.next(), Some("".to_string()));
    assert_eq!(iter.next(), Some("four\rfive".to_string()));
    assert_eq!(iter.next(), None);
    assert_eq!(iter.next(), None);
}

#[test]
fn lines_that_are_not_utf8_are_skipped() {
    let mut iter =
        password_dictionary_reader_iter(b"ok\n\xff\xfe\nna\xc3\xafve\n\xc3\n\xe2\x82\nlast".to_vec());
    assert_eq!(iter.next(), Some("ok".to_string()));
    assert_eq!(iter.next(), Some("na\u{ef}ve".to_string()));
    assert_eq!(iter.next(), Some("last".to_string()));
    assert_eq!(iter.next(), None);
}

#[test]
fn empty_dictionary_has_no_lines() {
    let mut iter = password_dictionary_reader_iter(Vec::new());
    assert_eq!(iter.next(), None);
}
