//! The alphabets that candidates are drawn from: the presets, and the
//! ordering and deduplication of whatever was chosen.

use crate::finder_errors::{FinderError, FinderErrorView};
use crate::text::chars_of_str;
use vstd::prelude::*;
use vstd::string::*;

verus! {

/// Where the alphabet comes from.
pub enum CharsetChoice {
    /// The path of a file whose text is the alphabet.
    File(String),
    /// A string of preset codes.
    Preset(String),
}

/// What was read of a charset file: its text, or the error that reading
/// it gave.
pub enum FileText {
    Read(String),
    Failed(String),
}

/// The symbols with the codes `first..=last`, in the order of their codes.
pub open spec fn code_range(first: int, last: int) -> Seq<char> {
    Seq::new((last - first + 1) as nat, |i: int| (first + i) as char)
}

/// The letters `a` to `z`.
pub open spec fn lowercase_letters() -> Seq<char> {
    code_range(0x61, 0x7A)
}

/// The letters `A` to `Z`.
pub open spec fn uppercase_letters() -> Seq<char> {
    code_range(0x41, 0x5A)
}

/// The digits `0` to `9`.
pub open spec fn digits() -> Seq<char> {
    code_range(0x30, 0x39)
}

/// The space and the punctuation of ASCII: what lies between `0x20` and
/// `0x7E` and is neither a letter nor a digit.
pub open spec fn symbols() -> Seq<char> {
    code_range(0x20, 0x2F) + code_range(0x3A, 0x40) + code_range(0x5B, 0x60) + code_range(
        0x7B,
        0x7E,
    )
}

/// The hexadecimal digits with the letters `a` to `f`.
pub open spec fn lowercase_hex() -> Seq<char> {
    digits() + code_range(0x61, 0x66)
}

/// The hexadecimal digits with the letters `A` to `F`.
pub open spec fn uppercase_hex() -> Seq<char> {
    digits() + code_range(0x41, 0x46)
}

/// The alphabet that a preset code stands for.
pub open spec fn preset(code: char) -> Option<Seq<char>> {
    if code == 'l' {
        Some(lowercase_letters())
    } else if code == 'u' {
        Some(uppercase_letters())
    } else if code == 'd' {
        Some(digits())
    } else if code == 's' {
        Some(symbols())
    } else if code == 'h' {
        Some(lowercase_hex())
    } else if code == 'H' {
        Some(uppercase_hex())
    } else {
        None
    }
}

/// The alphabets of the codes of `codes`, one after the other.
pub open spec fn expanded(codes: Seq<char>) -> Seq<char>
    decreases codes.len(),
{
    if codes.len() == 0 {
        Seq::empty()
    } else {
        expanded(codes.drop_last()) + match preset(codes.last()) {
            Some(part) => part,
            None => Seq::empty(),
        }
    }
}

/// The first code of `codes` that stands for no preset.
pub open spec fn first_unknown_code(codes: Seq<char>) -> Option<char>
    decreases codes.len(),
{
    if codes.len() == 0 {
        None
    } else if preset(codes[0]) is None {
        Some(codes[0])
    } else {
        first_unknown_code(codes.drop_first())
    }
}

/// The message for a code that stands for no preset.
pub open spec fn unknown_option_text(code: char) -> Seq<char> {
    "Unknown charset option '"@ + seq![code] + "'"@
}

/// The message for a charset file of which nothing was read.
pub open spec fn unread_file_text(path: Seq<char>) -> Seq<char> {
    "'"@ + path + "' was not read"@
}

/// Each symbol has a greater code than the one before it.
pub open spec fn strictly_increasing(s: Seq<char>) -> bool {
    forall|i: int, j: int| 0 <= i < j < s.len() ==> (s[i] as int) < (s[j] as int)
}

/// `a` and `b` hold the same symbols.
pub open spec fn same_symbols(a: Seq<char>, b: Seq<char>) -> bool {
    forall|c: char| a.contains(c) <==> b.contains(c)
}

/// The letters `a` to `z`.
pub fn charset_lowercase_letters() -> (charset: Vec<char>)
    ensures
        charset@ == lowercase_letters(),
{
    let charset = vec![
        'a', 'b', 'c', 'd', 'e', 'f', 'g', 'h', 'i', 'j', 'k', 'l', 'm', 'n', 'o', 'p', 'q', 'r',
        's', 't', 'u', 'v', 'w', 'x', 'y', 'z',
    ];
    assert(charset@ =~= lowercase_letters());
    charset
}

/// The letters `A` to `Z`.
pub fn charset_uppercase_letters() -> (charset: Vec<char>)
    ensures
        charset@ == uppercase_letters(),
{
    let charset = vec![
        'A', 'B', 'C', 'D', 'E', 'F', 'G', 'H', 'I', 'J', 'K', 'L', 'M', 'N', 'O', 'P', 'Q', 'R',
        'S', 'T', 'U', 'V', 'W', 'X', 'Y', 'Z',
    ];
    assert(charset@ =~= uppercase_letters());
    charset
}

/// The digits `0` to `9`.
pub fn charset_digits() -> (charset: Vec<char>)
    ensures
        charset@ == digits(),
{
    let charset = vec!['0', '1', '2', '3', '4', '5', '6', '7', '8', '9'];
    assert(charset@ =~= digits());
    charset
}

/// The space and the punctuation of ASCII.
pub fn charset_symbols() -> (charset: Vec<char>)
    ensures
        charset@ == symbols(),
{
    let charset = vec![
        ' ', '!', '"', '#', '$', '%', '&', '\'', '(', ')', '*', '+', ',', '-', '.', '/', ':', ';',
        '<', '=', '>', '?', '@', '[', '\\', ']', '^', '_', '`', '{', '|', '}', '~',
    ];
    assert(charset@ =~= symbols());
    charset
}

/// The hexadecimal digits with the letters `a` to `f`.
pub fn charset_lowercase_hex() -> (charset: Vec<char>)
    ensures
        charset@ == lowercase_hex(),
{
    let charset = vec![
        '0', '1', '2', '3', '4', '5', '6', '7', '8', '9', 'a', 'b', 'c', 'd', 'e', 'f',
    ];
    assert(charset@ =~= lowercase_hex());
    charset
}

/// The hexadecimal digits with the letters `A` to `F`.
pub fn charset_uppercase_hex() -> (charset: Vec<char>)
    ensures
        charset@ == uppercase_hex(),
{
    let charset = vec![
        '0', '1', '2', '3', '4', '5', '6', '7', '8', '9', 'A', 'B', 'C', 'D', 'E', 'F',
    ];
    assert(charset@ =~= uppercase_hex());
    charset
}

/// The alphabets of the preset codes of `charset_choice`, one after the
/// other, in the order of the codes. The first code that stands for no
/// preset is reported.
pub fn preset_to_charset(charset_choice: &str) -> (r: Result<Vec<char>, FinderError>)
    ensures
        match r {
            Ok(charset) => first_unknown_code(charset_choice@) is None && charset@ == expanded(
                charset_choice@,
            ),
            Err(FinderError::CliArgumentError { message }) => first_unknown_code(charset_choice@)
                matches Some(code) && message@ == unknown_option_text(code),
            Err(_) => false,
        },
{
    let codes = chars_of_str(charset_choice);
    let mut charset: Vec<char> = Vec::new();
    let mut i: usize = 0;
    assert(codes@.skip(0) == codes@);
    while i < codes.len()
        invariant
            i <= codes@.len(),
            codes@ == charset_choice@,
            first_unknown_code(codes@) == first_unknown_code(codes@.skip(i as int)),
            charset@ == expanded(codes@.take(i as int)),
        decreases codes.len() - i,
    {
        let symbol = codes[i];
        assert(codes@.skip(i as int)[0] == symbol);
        assert(codes@.skip(i as int).drop_first() == codes@.skip(i + 1));
        let mut part = if symbol == 'l' {
            charset_lowercase_letters()
        } else if symbol == 'u' {
            charset_uppercase_letters()
        } else if symbol == 'd' {
            charset_digits()
        } else if symbol == 's' {
            charset_symbols()
        } else if symbol == 'h' {
            charset_lowercase_hex()
        } else if symbol == 'H' {
            charset_uppercase_hex()
        } else {
            let mut message = String::from_str("Unknown charset option '");
            message.push(symbol);
            message.append("'");
            assert(message@ =~= unknown_option_text(symbol));
            return Err(FinderError::CliArgumentError { message });
        };
        charset.append(&mut part);
        assert(codes@.take(i + 1).drop_last() == codes@.take(i as int));
        i = i + 1;
    }
    assert(codes@.take(codes@.len() as int) == codes@);
    Ok(charset)
}

/// What the file at `path` gives, by what was read of it: its text; or
/// the failure to read it, which is also what a file gives of which
/// nothing was read.
pub open spec fn file_symbols(path: Seq<char>, file_text: Option<FileText>) -> Result<
    Seq<char>,
    FinderErrorView,
> {
    match file_text {
        Some(FileText::Read(text)) => Ok(text@),
        Some(FileText::Failed(e)) => Err(FinderErrorView::StdIoError { e: e@ }),
        None => Err(FinderErrorView::StdIoError { e: unread_file_text(path) }),
    }
}

/// The symbols of the text of a charset file, in the order of the text.
/// `file_text` is what was read of the file at `path`. A file that could
/// not be read is an I/O failure.
pub fn charset_from_file(
    path: &String,
    file_text: Option<&FileText>,
) -> (r: Result<Vec<char>, FinderError>)
    ensures
        match file_symbols(
            path@,
            match file_text {
                Some(text) => Some(*text),
                None => None,
            },
        ) {
            Ok(symbols) => r matches Ok(charset) && charset@ == symbols,
            Err(failure) => r matches Err(error) && error@ == failure,
        },
{
    match file_text {
        Some(FileText::Read(text)) => Ok(chars_of_str(text.as_str())),
        Some(FileText::Failed(e)) => Err(FinderError::StdIoError { e: e.clone() }),
        None => {
            let mut e = String::from_str("'");
            e.append(path.as_str());
            e.append("' was not read");
            Err(FinderError::StdIoError { e })
        },
    }
}

/// A sequence whose symbols rise has no symbol twice.
pub proof fn lemma_increasing_is_distinct(s: Seq<char>)
    requires
        strictly_increasing(s),
    ensures
        s.no_duplicates(),
{
    assert forall|i: int, j: int| 0 <= i < s.len() && 0 <= j < s.len() && i != j implies s[i]
        != s[j] by {
        if i < j {
            assert((s[i] as int) < (s[j] as int));
        } else {
            assert((s[j] as int) < (s[i] as int));
        }
    }
}

/// There is one way only to put given symbols in rising order: two rising
/// sequences of the same symbols are one sequence.
pub proof fn lemma_rising_order_is_unique(a: Seq<char>, b: Seq<char>)
    requires
        strictly_increasing(a),
        strictly_increasing(b),
        same_symbols(a, b),
    ensures
        a == b,
    decreases a.len(),
{
    if a.len() == 0 {
        if b.len() > 0 {
            assert(b.contains(b[0]));
            assert(a.contains(b[0]));
        }
        assert(a =~= b);
    } else {
        assert(a.contains(a[0]));
        assert(b.contains(a[0]));
        let j = choose|j: int| 0 <= j < b.len() && b[j] == a[0];
        assert(b.contains(b[0]));
        assert(a.contains(b[0]));
        let i = choose|i: int| 0 <= i < a.len() && a[i] == b[0];
        if j > 0 {
            assert((b[0] as int) < (b[j] as int));
            if i > 0 {
                assert((a[0] as int) < (a[i] as int));
            }
        }
        assert(a[0] == b[0]);
        let ra = a.drop_first();
        let rb = b.drop_first();
        assert forall|x: int, y: int| 0 <= x < y < ra.len() implies (ra[x] as int) < (
        ra[y] as int) by {
            assert(ra[x] == a[x + 1] && ra[y] == a[y + 1]);
        }
        assert forall|x: int, y: int| 0 <= x < y < rb.len() implies (rb[x] as int) < (
        rb[y] as int) by {
            assert(rb[x] == b[x + 1] && rb[y] == b[y + 1]);
        }
        assert forall|c: char| ra.contains(c) <==> rb.contains(c) by {
            if ra.contains(c) {
                let x = choose|x: int| 0 <= x < ra.len() && ra[x] == c;
                assert(a[x + 1] == c);
                assert((a[0] as int) < (a[x + 1] as int));
                assert(a.contains(c));
                let y = choose|y: int| 0 <= y < b.len() && b[y] == c;
                assert(rb[y - 1] == c);
            }
            if rb.contains(c) {
                let y = choose|y: int| 0 <= y < rb.len() && rb[y] == c;
                assert(b[y + 1] == c);
                assert((b[0] as int) < (b[y + 1] as int));
                assert(b.contains(c));
                let x = choose|x: int| 0 <= x < a.len() && a[x] == c;
                assert(ra[x - 1] == c);
            }
        }
        lemma_rising_order_is_unique(ra, rb);
        assert(a =~= seq![a[0]] + ra);
        assert(b =~= seq![b[0]] + rb);
    }
}

/// Puts `c` into `sorted` where the order asks for it, unless it is there
/// already.
fn insert_symbol(sorted: &mut Vec<char>, c: char)
    requires
        strictly_increasing(old(sorted)@),
    ensures
        strictly_increasing(final(sorted)@),
        forall|x: char| final(sorted)@.contains(x) <==> (old(sorted)@.contains(x) || x == c),
{
    let mut i: usize = 0;
    while i < sorted.len() && sorted[i] < c
        invariant
            i <= sorted@.len(),
            sorted@ == old(sorted)@,
            forall|j: int| 0 <= j < i ==> (sorted@[j] as int) < (c as int),
        decreases sorted.len() - i,
    {
        i = i + 1;
    }
    let ghost before = sorted@;
    if i < sorted.len() && sorted[i] == c {
        assert forall|x: char| before.contains(x) <==> (before.contains(x) || x == c) by {
            assert(before[i as int] == c);
        }
        return ;
    }
    sorted.insert(i, c);
    proof {
        let after = sorted@;
        assert(after == before.insert(i as int, c));
        assert forall|a: int, b: int| 0 <= a < b < after.len() implies (after[a] as int) < (
        after[b] as int) by {
            if b < i {
                assert(after[a] == before[a] && after[b] == before[b]);
            } else if b == i {
                assert(after[a] == before[a]);
            } else if a < i {
                assert(after[a] == before[a] && after[b] == before[b - 1]);
                if i < b - 1 {
                    assert((before[i as int] as int) < (before[b - 1] as int));
                }
            } else if a == i {
                assert(after[b] == before[b - 1]);
                if i < b - 1 {
                    assert((before[i as int] as int) < (before[b - 1] as int));
                }
            } else {
                assert(after[a] == before[a - 1] && after[b] == before[b - 1]);
            }
        }
        assert forall|x: char| after.contains(x) <==> (before.contains(x) || x == c) by {
            if after.contains(x) {
                let j = choose|j: int| 0 <= j < after.len() && after[j] == x;
                if j < i {
                    assert(before[j] == x);
                } else if j > i {
                    assert(before[j - 1] == x);
                }
            }
            if before.contains(x) {
                let j = choose|j: int| 0 <= j < before.len() && before[j] == x;
                if j < i {
                    assert(after[j] == x);
                } else {
                    assert(after[j + 1] == x);
                }
            }
            assert(after[i as int] == c);
        }
    }
}

/// The symbols of `chars` in the order of their codes, each once.
pub fn sorted_without_duplicates(chars: &Vec<char>) -> (charset: Vec<char>)
    ensures
        strictly_increasing(charset@),
        same_symbols(charset@, chars@),
{
    let mut charset: Vec<char> = Vec::new();
    let mut i: usize = 0;
    while i < chars.len()
        invariant
            i <= chars@.len(),
            strictly_increasing(charset@),
            same_symbols(charset@, chars@.take(i as int)),
        decreases chars.len() - i,
    {
        let ghost before = charset@;
        insert_symbol(&mut charset, chars[i]);
        proof {
            let shorter = chars@.take(i as int);
            let longer = chars@.take(i + 1);
            assert(longer == shorter.push(chars@[i as int]));
            assert forall|c: char| charset@.contains(c) <==> longer.contains(c) by {
                if longer.contains(c) {
                    let j = choose|j: int| 0 <= j < longer.len() && longer[j] == c;
                    if j < i {
                        assert(shorter[j] == c);
                    }
                }
                if shorter.contains(c) {
                    let j = choose|j: int| 0 <= j < shorter.len() && shorter[j] == c;
                    assert(longer[j] == c);
                }
                assert(longer[i as int] == chars@[i as int]);
            }
        }
        i = i + 1;
    }
    assert(chars@.take(chars@.len() as int) == chars@);
    charset
}

/// The symbols that `charset_choice` names, before they are put in order:
/// the text of the file, or the alphabets of the preset codes; or the
/// error that says why they cannot be had.
pub open spec fn chosen_symbols(
    charset_choice: CharsetChoice,
    file_text: Option<FileText>,
) -> Result<Seq<char>, FinderErrorView> {
    match charset_choice {
        CharsetChoice::File(path) => file_symbols(path@, file_text),
        CharsetChoice::Preset(codes) => match first_unknown_code(codes@) {
            Some(code) => Err(
                FinderErrorView::CliArgumentError { message: unknown_option_text(code) },
            ),
            None => Ok(expanded(codes@)),
        },
    }
}

/// The alphabet that `charset_choice` asks for, in the order of the codes
/// of its symbols and without duplicates. For a file, `file_text` is what
/// was read of it.
pub fn charset_from_choice(
    charset_choice: &CharsetChoice,
    file_text: Option<&FileText>,
) -> (r: Result<Vec<char>, FinderError>)
    ensures
        match chosen_symbols(
            *charset_choice,
            match file_text {
                Some(text) => Some(*text),
                None => None,
            },
        ) {
            Ok(symbols) => r matches Ok(charset) && strictly_increasing(charset@) && same_symbols(
                charset@,
                symbols,
            ),
            Err(failure) => r matches Err(error) && error@ == failure,
        },
{
    let chosen = match charset_choice {
        CharsetChoice::File(path) => charset_from_file(path, file_text),
        CharsetChoice::Preset(codes) => preset_to_charset(codes.as_str()),
    };
    let charset = match chosen {
        Ok(charset) => charset,
        Err(error) => {
            return Err(error);
        },
    };
    Ok(sorted_without_duplicates(&charset))
}

} // verus!
