use zip_password_finder::password_gen::password_generator_iter;
use zip_password_finder::password_reader::password_dictionary_reader_iter;
use zip_password_finder::password_worker::{filter_for_worker_index, CandidateSource};

fn lowercase_dictionary() -> Vec<u8> {
    let letters: Vec<char> = ('a'..='z').collect();
    let mut text = String::new();
    for a in &letters {
        text.push_str(&format!("{a}\n"));
    }
    for a in &letters {
        for b in &letters {
            text.push_str(&format!("{a}{b}\n"));
        }
    }
    for a in &letters {
        for b in &letters {
            for c in &letters {
                text.push_str(&format!("{a}{b}{c}\n"));
            }
        }
    }
    text.into_bytes()
}

#[test]
fn filter_passwords_one_worker() {
    let iter = password_dictionary_reader_iter(lowercase_dictionary());
    let box_iter = CandidateSource::Dictionary(iter);
    let mut filtered = filter_for_worker_index(box_iter, 1, 1);
    assert_eq!(filtered.next(), Some("a".into()));
    assert_eq!(filtered.next(), Some("b".into()));
    assert_eq!(filtered.next(), Some("c".into()));
    assert_eq!(filtered.next(), Some("d".into()));
    assert_eq!(filtered.next(), Some("e".into()));
    assert_eq!(filtered.next(), Some("f".into()));
    assert_eq!(filtered.next(), Some("g".into()));
    assert_eq!(filtered.next(), Some("h".into()));
    assert_eq!(filtered.next(), Some("i".into()));
    assert_eq!(filtered.next(), Some("j".into()));
    assert_eq!(filtered.next(), Some("k".into()));
    assert_eq!(filtered.next(), Some("l".into()));
}

#[test]
fn filter_passwords_two_workers_index_one() {
    let iter = password_dictionary_reader_iter(lowercase_dictionary());
    let box_iter = CandidateSource::Dictionary(iter);
    let mut filtered = filter_for_worker_index(box_iter, 2, 1);
    assert_eq!(filtered.next(), Some("a".into()));
    assert_eq!(filtered.next(), Some("c".into()));
    assert_eq!(filtered.next(), Some("e".into()));
    assert_eq!(filtered.next(), Some("g".into()));
    assert_eq!(filtered.next(), Some("i".into()));
    assert_eq!(filtered.next(), Some("k".into()));
}

#[test]
fn filter_passwords_two_workers_index_two() {
    let iter = password_dictionary_reader_iter(lowercase_dictionary());
    let box_iter = CandidateSource::Dictionary(iter);
    let mut filtered = filter_for_worker_index(box_iter, 2, 2);
    assert_eq!(filtered.next(), Some("b".into()));
    assert_eq!(filtered.next(), Some("d".into()));
    assert_eq!(filtered.next(), Some("f".into()));
    assert_eq!(filtered.next(), Some("h".into()));
    assert_eq!(filtered.next(), Some("j".into()));
    assert_eq!(filtered.next(), Some("l".into()));
}

#[test]
fn filter_passwords_three_workers_index_one() {
    let iter = password_dictionary_reader_iter(lowercase_dictionary());
    let box_iter = CandidateSource::Dictionary(iter);
    let mut filtered = filter_for_worker_index(box_iter, 3, 1);
    assert_eq!(filtered.next(), Some("a".into()));
    assert_eq!(filtered.next(), Some("d".into()));
    assert_eq!(filtered.next(), Some("g".into()));
    assert_eq!(filtered.next(), Some("j".into()));
}

#[test]
fn shards_cover_the_candidates_and_are_disjoint() {
    let charset = ['a', 'b', 'c'];
    let mut all: Vec<String> = Vec::new();
    let mut iter = password_generator_iter(&charset, 1, 3, None);
    while let Some(word) = iter.next() {
        all.push(word);
    }
    assert_eq!(all.len(), 39);
    for workers in 1..=7usize {
        let mut shards: Vec<Vec<String>> = Vec::new();
        for index in 1..=workers {
            let source = CandidateSource::Generated(password_generator_iter(&charset, 1, 3, None));
            let mut filtered = filter_for_worker_index(source, workers, index);
            let mut shard: Vec<String> = Vec::new();
            while let Some(word) = filtered.next() {
                shard.push(word);
            }
            assert_eq!(filtered.next(), None);
            shards.push(shard);
        }
        let total: usize = shards.iter().map(|shard| shard.len()).sum();
        assert_eq!(total, all.len());
        for (place, word) in all.iter().enumerate() {
            assert_eq!(&shards[place % workers][place / workers], word);
        }
    }
}

#[test]
fn a_worker_beyond_the_count_has_no_share() {
    let source = CandidateSource::Generated(password_generator_iter(&['a', 'b'], 1, 1, None));
    let mut filtered = filter_for_worker_index(source, 3, 3);
    assert_eq!(filtered.next(), None);
    for index in [0usize, 4, 5, 100] {
        let source =
            CandidateSource::Generated(password_generator_iter(&['a', 'b', 'c'], 1, 2, None));
        let mut filtered = filter_for_worker_index(source, 3, index);
        assert_eq!(filtered.next(), None);
        assert_eq!(filtered.next(), None);
    }
    let source = CandidateSource::Generated(password_generator_iter(&['a', 'b'], 1, 1, None));
    let mut filtered = filter_for_worker_index(source, 1, 7);
    assert_eq!(filtered.next(), Some("a".into()));
    assert_eq!(filtered.next(), Some("b".into()));
    assert_eq!(filtered.next(), None);
    let source = CandidateSource::Generated(password_generator_iter(&['a', 'b'], 1, 1, None));
    let mut filtered = filter_for_worker_index(source, 0, 0);
    assert_eq!(filtered.next(), Some("a".into()));
    assert_eq!(filtered.next(), Some("b".into()));
    assert_eq!(filtered.next(), None);
}
