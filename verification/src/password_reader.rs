//! A dictionary: a text of one candidate per line, counted and read from
//! the bytes of the file that holds it.

use std::string::FromUtf8Error;
use vstd::prelude::*;
use vstd::slice::{slice_subrange, slice_to_vec};
use vstd::utf8::{decode_utf8, valid_utf8};

verus! {

/// `std::string::FromUtf8Error`, the error of `String::from_utf8`.
#[verifier::external_type_specification]
#[verifier::external_body]
pub struct ExFromUtf8Error(FromUtf8Error);

/// `String::from_utf8` turns a vector of bytes into a `String`, and
/// returns an error if and only if the bytes are not valid UTF-8.
pub assume_specification[ String::from_utf8 ](vec: Vec<u8>) -> (r: Result<String, FromUtf8Error>)
    ensures
        r is Ok <==> valid_utf8(vec@),
        r matches Ok(text) ==> text@ == decode_utf8(vec@),
;

/// The length of the first record of `bytes`: up to its first line feed,
/// that one included, or all of `bytes` where they hold none.
pub open spec fn record_len(bytes: Seq<u8>) -> nat
    decreases bytes.len(),
{
    if bytes.len() == 0 {
        0
    } else if bytes[0] == 0x0A {
        1
    } else {
        1 + record_len(bytes.drop_first())
    }
}

/// The number of records of `bytes`: the lines that end in a line feed,
/// and what follows the last line feed where that is not empty.
pub open spec fn record_count(bytes: Seq<u8>) -> nat
    decreases bytes.len(),
{
    let first = record_len(bytes);
    if bytes.len() == 0 || first == 0 || first > bytes.len() {
        0
    } else {
        1 + record_count(bytes.skip(first as int))
    }
}

/// A record without its line terminator: the line feed at its end, and the
/// carriage return before that one where there is one.
pub open spec fn line_body(record: Seq<u8>) -> Seq<u8> {
    if record.len() > 0 && record.last() == 0x0A {
        let cut = record.drop_last();
        if cut.len() > 0 && cut.last() == 0x0D {
            cut.drop_last()
        } else {
            cut
        }
    } else {
        record
    }
}

/// The candidates that a dictionary holds: its records in their order,
/// each without its line terminator and decoded as UTF-8, those left out
/// that are not valid UTF-8.
pub open spec fn dictionary_lines(bytes: Seq<u8>) -> Seq<Seq<char>>
    decreases bytes.len(),
{
    let first = record_len(bytes);
    if bytes.len() == 0 || first == 0 || first > bytes.len() {
        Seq::empty()
    } else {
        let body = line_body(bytes.take(first as int));
        let rest = dictionary_lines(bytes.skip(first as int));
        if valid_utf8(body) {
            seq![decode_utf8(body)] + rest
        } else {
            rest
        }
    }
}

/// A record ends at the first line feed, or where the bytes end.
pub proof fn lemma_record_len(bytes: Seq<u8>, end: int)
    requires
        0 < end <= bytes.len(),
        forall|j: int| 0 <= j < end - 1 ==> bytes[j] != 0x0A,
        bytes[end - 1] == 0x0A || end == bytes.len(),
    ensures
        record_len(bytes) == end,
    decreases end,
{
    if bytes[0] == 0x0A {
        if end > 1 {
            assert(bytes[0] != 0x0A);
        }
    } else {
        let rest = bytes.drop_first();
        if end == 1 {
            assert(rest.len() == 0);
            assert(record_len(rest) == 0);
        } else {
            assert forall|j: int| 0 <= j < end - 2 implies rest[j] != 0x0A by {
                assert(rest[j] == bytes[j + 1]);
            }
            assert(rest[end - 2] == bytes[end - 1]);
            lemma_record_len(rest, end - 1);
        }
    }
}

/// Where the record that starts at `from` ends: one past its line feed, or
/// the end of `content`.
fn record_end(content: &[u8], from: usize) -> (end: usize)
    requires
        from < content@.len(),
    ensures
        from < end <= content@.len(),
        end - from == record_len(content@.skip(from as int)),
{
    let mut i: usize = from;
    while i < content.len() && content[i] != 0x0A
        invariant
            from <= i <= content@.len(),
            forall|j: int| from <= j < i ==> content@[j] != 0x0A,
        decreases content.len() - i,
    {
        i = i + 1;
    }
    let end: usize = if i < content.len() {
        i + 1
    } else {
        i
    };
    proof {
        let rest = content@.skip(from as int);
        assert forall|j: int| 0 <= j < end - from - 1 implies rest[j] != 0x0A by {
            assert(rest[j] == content@[from + j]);
        }
        lemma_record_len(rest, end - from);
    }
    end
}

/// The number of records of a dictionary, counted on its bytes without
/// decoding them.
pub fn password_reader_count(content: &[u8]) -> (total: usize)
    ensures
        total == record_count(content@),
{
    let mut total: usize = 0;
    let mut at: usize = 0;
    assert(content@.skip(0) == content@);
    while at < content.len()
        invariant
            at <= content@.len(),
            total <= at,
            total + record_count(content@.skip(at as int)) == record_count(content@),
        decreases content.len() - at,
    {
        let end: usize = record_end(content, at);
        assert(content@.skip(at as int).skip(end - at) == content@.skip(end as int));
        total = total + 1;
        at = end;
    }
    total
}

/// Reads the candidates of a dictionary one by one.
pub struct DictionaryReader {
    content: Vec<u8>,
    offset: usize,
}

impl DictionaryReader {
    /// The reader never stands behind the end of its dictionary.
    pub closed spec fn wf(&self) -> bool {
        self.offset <= self.content@.len()
    }

    /// The candidates that are still to come.
    pub closed spec fn pending(&self) -> Seq<Seq<char>> {
        dictionary_lines(self.content@.skip(self.offset as int))
    }

    /// A reader at the start of the dictionary that `content` holds.
    pub fn new(content: Vec<u8>) -> (reader: Self)
        ensures
            reader.wf(),
            reader.pending() == dictionary_lines(content@),
    {
        assert(content@.skip(0) == content@);
        DictionaryReader { content, offset: 0 }
    }

    /// The next candidate of the dictionary, or `None` at its end.
    pub fn next(&mut self) -> (candidate: Option<String>)
        requires
            old(self).wf(),
        ensures
            final(self).wf(),
            match candidate {
                Some(line) => old(self).pending().len() > 0 && line@ == old(self).pending()[0]
                    && final(self).pending() == old(self).pending().skip(1),
                None => old(self).pending().len() == 0 && final(self).pending() == old(
                    self,
                ).pending(),
            },
    {
        let ghost initial = self.pending();
        loop
            invariant
                self.wf(),
                self.content == old(self).content,
                self.pending() == initial,
                initial == old(self).pending(),
            decreases self.content@.len() - self.offset,
        {
            if self.offset >= self.content.len() {
                return None;
            }
            let start: usize = self.offset;
            let end: usize = record_end(self.content.as_slice(), start);
            let mut stop: usize = end;
            if self.content[stop - 1] == 0x0A {
                stop = stop - 1;
                if stop > start && self.content[stop - 1] == 0x0D {
                    stop = stop - 1;
                }
            }
            let body = slice_to_vec(slice_subrange(self.content.as_slice(), start, stop));
            proof {
                let rest = self.content@.skip(start as int);
                let record = rest.take(end - start);
                assert(rest.skip(end - start) == self.content@.skip(end as int));
                assert(record.last() == self.content@[end - 1]);
                if record.last() == 0x0A {
                    let cut = record.drop_last();
                    if cut.len() > 0 {
                        assert(cut.last() == self.content@[end - 2]);
                    }
                }
                assert(body@ =~= line_body(record));
            }
            self.offset = end;
            match String::from_utf8(body) {
                Ok(line) => {
                    assert(initial.skip(1) =~= self.pending());
                    return Some(line);
                },
                Err(_) => {},
            }
        }
    }
}

/// A reader over the candidates of the dictionary that `content` holds.
pub fn password_dictionary_reader_iter(content: Vec<u8>) -> (reader: DictionaryReader)
    ensures
        reader.wf(),
        reader.pending() == dictionary_lines(content@),
{
    DictionaryReader::new(content)
}

} // verus!
