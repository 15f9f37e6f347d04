//! Counting the candidate space, and the generator that walks it.

use crate::charsets::same_symbols;
use crate::finder_errors::{FinderError, FinderErrorView};
use crate::index_map::{index_charset, index_entries, index_map_get, indexes};
use crate::search_space::{
    bumped, count_between, is_charset, is_first_at, lemma_bumped, lemma_count_monotonic,
    lemma_place_in_range, lemma_position_is, lemma_position_range, lemma_power_monotonic,
    lemma_power_of_one, lemma_rank_of_all_first, lemma_rank_of_all_last, lemma_rank_of_prefix,
    lemma_word_at_its_place, place, position, power, rank, repeated, search_space, word_over,
};
use crate::text::{chars_of_str, string_of_chars};
use ahash::AHashMap;
use vstd::prelude::*;
use vstd::slice::slice_to_vec;
use vstd::string::*;

verus! {

/// `base` to the power `exp`, or `None` where that does not fit in `usize`.
pub fn checked_power(base: usize, exp: usize) -> (r: Option<usize>)
    ensures
        match r {
            Some(p) => p == power(base as nat, exp as nat),
            None => power(base as nat, exp as nat) > usize::MAX,
        },
{
    if exp == 0 {
        return Some(1);
    }
    if base == 0 {
        assert(power(0, exp as nat) == 0 * power(0, (exp - 1) as nat));
        return Some(0);
    }
    if base == 1 {
        proof {
            lemma_power_of_one(exp as nat);
        }
        return Some(1);
    }
    let mut acc: usize = 1;
    let mut i: usize = 0;
    while i < exp
        invariant
            base >= 2,
            i <= exp,
            acc == power(base as nat, i as nat),
        decreases exp - i,
    {
        match acc.checked_mul(base) {
            Some(next) => {
                assert(power(base as nat, (i + 1) as nat) == base * power(base as nat, i as nat));
                assert(acc * base == base * acc) by (nonlinear_arith);
                acc = next;
            },
            None => {
                proof {
                    assert(power(base as nat, (i + 1) as nat) == base * power(
                        base as nat,
                        i as nat,
                    ));
                    assert(acc * base == base * acc) by (nonlinear_arith);
                    lemma_power_monotonic(base as nat, (i + 1) as nat, exp as nat);
                }
                return None;
            },
        }
        i = i + 1;
    }
    Some(acc)
}

/// The number of candidates of the lengths `min_size..=max_size` over
/// `charset_len` symbols, or `None` where it does not fit in `usize`.
pub fn checked_password_generator_count(
    charset_len: usize,
    min_size: usize,
    max_size: usize,
) -> (r: Option<usize>)
    ensures
        match r {
            Some(total) => total == count_between(
                charset_len as nat,
                min_size as int,
                max_size as int,
            ),
            None => count_between(charset_len as nat, min_size as int, max_size as int)
                > usize::MAX,
        },
{
    if min_size > max_size {
        return Some(0);
    }
    let mut total: usize = 0;
    let mut i: usize = min_size;
    loop
        invariant
            min_size <= i <= max_size,
            total == count_between(charset_len as nat, min_size as int, i - 1),
        decreases max_size - i,
    {
        proof {
            lemma_count_monotonic(charset_len as nat, min_size as int, i as int, max_size as int);
        }
        let term: usize = match checked_power(charset_len, i) {
            Some(p) => p,
            None => {
                return None;
            },
        };
        total = match total.checked_add(term) {
            Some(sum) => sum,
            None => {
                return None;
            },
        };
        if i == max_size {
            return Some(total);
        }
        i = i + 1;
    }
}

/// The number of candidates of the lengths `min_size..=max_size` over
/// `charset_len` symbols: the sum of `charset_len` to the power of each
/// length.
pub fn password_generator_count(
    charset_len: usize,
    min_size: usize,
    max_size: usize,
) -> (total: usize)
    requires
        count_between(charset_len as nat, min_size as int, max_size as int) <= usize::MAX,
    ensures
        total == count_between(charset_len as nat, min_size as int, max_size as int),
{
    checked_password_generator_count(charset_len, min_size, max_size).unwrap()
}

/// Where `c` first stands in `charset`.
pub fn charset_position(charset: &[char], c: char) -> (r: Option<usize>)
    ensures
        match r {
            Some(i) => i == position(charset@, c) && i < charset@.len(),
            None => position(charset@, c) == charset@.len(),
        },
{
    let mut i: usize = 0;
    while i < charset.len()
        invariant
            i <= charset@.len(),
            forall|j: int| 0 <= j < i ==> charset@[j] != c,
        decreases charset.len() - i,
    {
        if charset[i] == c {
            proof {
                assert(is_first_at(charset@, c, i as int));
                lemma_position_is(charset@, c, i as int);
            }
            return Some(i);
        }
        i = i + 1;
    }
    proof {
        lemma_position_range(charset@, c);
        if charset@.contains(c) {
            let j = choose|j: int| 0 <= j < charset@.len() && charset@[j] == c;
            assert(charset@[j] != c);
        }
    }
    None
}

/// How many candidates the enumeration that starts at length `min_size`
/// has produced once it has produced `starting_password`, that one
/// included: the words of the shorter lengths, the words of its own length
/// that come before it, and itself.
pub fn password_count_already_generated(
    charset: &[char],
    min_size: usize,
    starting_password: &str,
) -> (count: usize)
    requires
        word_over(charset@, starting_password@),
        place(charset@, min_size as nat, starting_password@) + 1 <= usize::MAX,
    ensures
        count == place(charset@, min_size as nat, starting_password@) + 1,
{
    let word = chars_of_str(starting_password);
    let base: usize = charset.len();
    let ghost k = charset@.len();
    let ghost w = starting_password@;
    let shorter: usize = if word.len() == 0 {
        0
    } else {
        password_generator_count(base, min_size, word.len() - 1)
    };
    let mut ranked: usize = 0;
    let mut i: usize = 0;
    while i < word.len()
        invariant
            i <= word@.len(),
            word@ == w,
            base == k,
            k == charset@.len(),
            word_over(charset@, w),
            rank(charset@, w) <= usize::MAX,
            ranked == rank(charset@, w.take(i as int)),
        decreases word.len() - i,
    {
        let c = word[i];
        proof {
            assert(charset@.contains(w[i as int]));
            lemma_position_range(charset@, c);
        }
        let digit: usize = charset_position(charset, c).unwrap();
        proof {
            let longer = w.take(i + 1);
            assert(longer.drop_last() == w.take(i as int));
            assert(longer.last() == c);
            lemma_rank_of_prefix(charset@, w, i + 1);
            assert(ranked * base + digit == rank(charset@, longer));
            assert(ranked * base <= ranked * base + digit);
        }
        ranked = ranked * base + digit;
        i = i + 1;
    }
    assert(w.take(w.len() as int) == w);
    shorter + ranked + 1
}

/// Whether every symbol of `word` is a symbol of `charset`.
pub fn is_word_over(charset: &Vec<char>, word: &Vec<char>) -> (over: bool)
    ensures
        over == word_over(charset@, word@),
{
    let mut i: usize = 0;
    while i < word.len()
        invariant
            i <= word@.len(),
            forall|j: int| 0 <= j < i ==> charset@.contains(#[trigger] word@[j]),
        decreases word.len() - i,
    {
        proof {
            lemma_position_range(charset@, word@[i as int]);
        }
        if charset_position(charset.as_slice(), word[i]).is_none() {
            return false;
        }
        i = i + 1;
    }
    true
}

/// The message for a starting password with a symbol that is not of the
/// alphabet.
pub open spec fn start_out_of_charset_text() -> Seq<char> {
    "'startingPassword' uses characters out of the generation charset"@
}

/// The message for a starting password whose length is out of the range.
pub open spec fn start_out_of_range_text() -> Seq<char> {
    "'startingPassword' does not respect 'max_password_len' or 'min_password_len' configuration"@
}

/// Why the enumeration cannot start at `start`, if it cannot: `start`
/// holds a symbol that is not of the alphabet, or its length is out of the
/// range.
pub open spec fn start_refusal(
    charset: Seq<char>,
    min_size: usize,
    max_size: usize,
    start: Seq<char>,
) -> Option<Seq<char>> {
    if !word_over(charset, start) {
        Some(start_out_of_charset_text())
    } else if start.len() > max_size || start.len() < min_size {
        Some(start_out_of_range_text())
    } else {
        None
    }
}

/// Alphabets of the same symbols refuse the same starting passwords.
pub proof fn lemma_start_refusal_by_symbols(
    a: Seq<char>,
    b: Seq<char>,
    min_size: usize,
    max_size: usize,
    start: Seq<char>,
)
    requires
        same_symbols(a, b),
    ensures
        start_refusal(a, min_size, max_size, start) == start_refusal(b, min_size, max_size, start),
{
    if word_over(a, start) {
        assert forall|i: int| 0 <= i < start.len() implies b.contains(#[trigger] start[i]) by {
            assert(a.contains(start[i]));
        }
    }
    if word_over(b, start) {
        assert forall|i: int| 0 <= i < start.len() implies a.contains(#[trigger] start[i]) by {
            assert(b.contains(start[i]));
        }
    }
}

/// The symbols of `start`, where the enumeration over `charset` of the
/// lengths `min_size..=max_size` can start at it, and else the error that
/// says why it cannot.
pub fn check_start(charset: &Vec<char>, min_size: usize, max_size: usize, start: &str) -> (r:
    Result<Vec<char>, FinderError>)
    ensures
        match r {
            Ok(word) => start_refusal(charset@, min_size, max_size, start@) is None && word@
                == start@,
            Err(error) => start_refusal(charset@, min_size, max_size, start@) matches Some(
                reason,
            ) && error@ == (FinderErrorView::CliArgumentError { message: reason }),
        },
{
    let word = chars_of_str(start);
    if !is_word_over(charset, &word) {
        return Err(
            FinderError::CliArgumentError {
                message: String::from_str(
                    "'startingPassword' uses characters out of the generation charset",
                ),
            },
        );
    }
    if word.len() > max_size || word.len() < min_size {
        return Err(
            FinderError::CliArgumentError {
                message: String::from_str(
                    "'startingPassword' does not respect 'max_password_len' or 'min_password_len' configuration",
                ),
            },
        );
    }
    Ok(word)
}

/// The word of `n` symbols that are all `c`.
fn repeat_symbol(c: char, n: usize) -> (word: Vec<char>)
    ensures
        word@ == repeated(c, n as nat),
{
    let mut word: Vec<char> = Vec::new();
    let mut i: usize = 0;
    while i < n
        invariant
            i <= n,
            word@ == repeated(c, i as nat),
        decreases n - i,
    {
        word.push(c);
        assert(repeated(c, i as nat).push(c) == repeated(c, (i + 1) as nat));
        i = i + 1;
    }
    word
}

/// Whether every symbol of `word` is `c`.
fn all_symbols_are(word: &Vec<char>, c: char) -> (all: bool)
    ensures
        all <==> word@ == repeated(c, word@.len()),
{
    let mut i: usize = 0;
    while i < word.len()
        invariant
            i <= word@.len(),
            forall|j: int| 0 <= j < i ==> word@[j] == c,
        decreases word.len() - i,
    {
        if word[i] != c {
            assert(repeated(c, word@.len())[i as int] == c);
            return false;
        }
        i = i + 1;
    }
    assert(word@ =~= repeated(c, word@.len()));
    true
}

/// The rightmost place of `word` that holds another symbol than `c`.
fn last_symbol_other_than(word: &Vec<char>, c: char) -> (found: Option<usize>)
    ensures
        match found {
            Some(j) => j < word@.len() && word@[j as int] != c && forall|i: int|
                j < i < word@.len() ==> word@[i] == c,
            None => forall|i: int| 0 <= i < word@.len() ==> word@[i] == c,
        },
{
    let mut i: usize = word.len();
    while i > 0
        invariant
            i <= word@.len(),
            forall|j: int| i <= j < word@.len() ==> word@[j] == c,
        decreases i,
    {
        i = i - 1;
        if word[i] != c {
            return Some(i);
        }
    }
    None
}

/// Puts `c` at every place of `word` from `from` on.
fn reset_from(word: &mut Vec<char>, from: usize, c: char)
    requires
        from <= old(word)@.len(),
    ensures
        final(word)@.len() == old(word)@.len(),
        forall|i: int| 0 <= i < from ==> final(word)@[i] == old(word)@[i],
        forall|i: int| from <= i < old(word)@.len() ==> final(word)@[i] == c,
{
    let len: usize = word.len();
    let mut i: usize = from;
    while i < len
        invariant
            from <= i <= len,
            word@.len() == len,
            len == old(word)@.len(),
            forall|j: int| 0 <= j < from ==> word@[j] == old(word)@[j],
            forall|j: int| from <= j < i ==> word@[j] == c,
        decreases len - i,
    {
        word.set(i, c);
        i = i + 1;
    }
}

/// Walks the candidates over an alphabet in the order of the enumeration:
/// shortest first, and within one length in odometer order.
pub struct PasswordGenerator {
    charset: Vec<char>,
    charset_indices: AHashMap<char, usize>,
    charset_first: char,
    charset_last: char,
    min_size: usize,
    max_size: usize,
    generated_count: usize,
    total_to_generate: usize,
    password: Vec<char>,
}

impl PasswordGenerator {
    /// The number of candidates of the whole enumeration.
    spec fn space(&self) -> nat {
        count_between(self.charset@.len(), self.min_size as int, self.max_size as int)
    }

    /// The place, in the whole enumeration, of the candidate that comes
    /// next.
    spec fn next_place(&self) -> int {
        self.space() - (self.total_to_generate - self.generated_count)
    }

    /// What the fields hold together: an alphabet with its table of
    /// positions, a current word over it, and counters that say where in
    /// the enumeration that word stands.
    pub closed spec fn wf(&self) -> bool {
        &&& is_charset(self.charset@)
        &&& self.charset_first == self.charset@[0]
        &&& self.charset_last == self.charset@[self.charset@.len() - 1]
        &&& indexes(index_entries(self.charset_indices), self.charset@)
        &&& word_over(self.charset@, self.password@)
        &&& self.min_size <= self.password@.len()
        &&& self.generated_count <= self.total_to_generate <= self.space()
        &&& self.generated_count < self.total_to_generate ==> {
            &&& self.password@.len() <= self.max_size
            &&& place(self.charset@, self.min_size as nat, self.password@) + (if self.generated_count
                == 0 {
                0int
            } else {
                1int
            }) == self.next_place()
        }
    }

    /// The candidates that are still to come, in the order in which `next`
    /// will hand them out.
    pub closed spec fn pending(&self) -> Seq<Seq<char>> {
        search_space(self.charset@, self.min_size as nat, self.max_size as nat).skip(
            self.next_place(),
        )
    }

    /// The alphabet that the candidates are made of.
    pub closed spec fn alphabet(&self) -> Seq<char> {
        self.charset@
    }

    /// A generator for the lengths `min_size..=max_size` over `charset`,
    /// which starts at `starting_password` where one is given and at the
    /// first candidate of the enumeration where none is. A starting
    /// password that is not a candidate of the enumeration is refused.
    pub fn new(
        charset: Vec<char>,
        min_size: usize,
        max_size: usize,
        starting_password: Option<String>,
    ) -> (r: Result<Self, FinderError>)
        requires
            is_charset(charset@),
            count_between(charset@.len(), min_size as int, max_size as int) <= usize::MAX,
        ensures
            match r {
                Ok(generator) => {
                    &&& generator.wf()
                    &&& generator.alphabet() == charset@
                    &&& match starting_password {
                        Some(start) => start_refusal(charset@, min_size, max_size, start@)
                            is None && generator.pending() == search_space(
                            charset@,
                            min_size as nat,
                            max_size as nat,
                        ).skip(place(charset@, min_size as nat, start@) as int),
                        None => generator.pending() == search_space(
                            charset@,
                            min_size as nat,
                            max_size as nat,
                        ),
                    }
                },
                Err(error) => starting_password matches Some(start) && start_refusal(
                    charset@,
                    min_size,
                    max_size,
                    start@,
                ) matches Some(reason) && error@ == (
                FinderErrorView::CliArgumentError { message: reason }),
            },
    {
        let charset_first = charset[0];
        let charset_last = charset[charset.len() - 1];
        let total: usize = password_generator_count(charset.len(), min_size, max_size);
        let mut password = repeat_symbol(charset_first, min_size);
        let mut total_to_generate: usize = total;
        proof {
            lemma_rank_of_all_first(charset@, min_size as nat);
            assert(count_between(charset@.len(), min_size as int, min_size - 1) == 0);
            assert(search_space(charset@, min_size as nat, max_size as nat).skip(0)
                == search_space(charset@, min_size as nat, max_size as nat));
        }
        if let Some(start) = starting_password {
            let word = match check_start(&charset, min_size, max_size, start.as_str()) {
                Ok(word) => word,
                Err(error) => {
                    return Err(error);
                },
            };
            proof {
                lemma_place_in_range(charset@, min_size as nat, max_size as nat, start@);
            }
            let already_generated: usize = password_count_already_generated(
                charset.as_slice(),
                min_size,
                start.as_str(),
            );
            password = word;
            total_to_generate = total - (already_generated - 1);
        }
        let charset_indices = index_charset(&charset);
        Ok(
            PasswordGenerator {
                charset,
                charset_indices,
                charset_first,
                charset_last,
                min_size,
                max_size,
                generated_count: 0,
                total_to_generate,
                password,
            },
        )
    }

    /// The next candidate of the enumeration, or `None` once the last one
    /// has been handed out.
    pub fn next(&mut self) -> (candidate: Option<String>)
        requires
            old(self).wf(),
        ensures
            final(self).wf(),
            final(self).alphabet() == old(self).alphabet(),
            match candidate {
                Some(word) => old(self).pending().len() > 0 && word@ == old(self).pending()[0]
                    && final(self).pending() == old(self).pending().skip(1),
                None => old(self).pending().len() == 0 && final(self).pending() == old(
                    self,
                ).pending(),
            },
    {
        let ghost charset = self.charset@;
        let ghost min_len = self.min_size as nat;
        let ghost max_len = self.max_size as nat;
        let ghost all = search_space(charset, min_len, max_len);
        let ghost at = old(self).next_place();
        if self.generated_count == self.total_to_generate {
            return None;
        }
        proof {
            assert(old(self).pending().skip(1) == all.skip(at + 1));
        }
        if self.generated_count == 0 {
            self.generated_count = 1;
            proof {
                lemma_word_at_its_place(charset, min_len, self.password@);
            }
            return Some(string_of_chars(&self.password));
        }
        let ghost before = self.password@;
        let len: usize = self.password.len();
        let charset_len: usize = self.charset.len();
        if all_symbols_are(&self.password, self.charset_last) {
            proof {
                lemma_rank_of_all_last(charset, len as nat);
                lemma_rank_of_all_first(charset, (len + 1) as nat);
            }
            self.password = repeat_symbol(self.charset_first, len + 1);
        } else {
            assert(len > 0) by {
                if len == 0 {
                    assert(before =~= repeated(self.charset_last, 0));
                }
            }
            let current_char = self.password[len - 1];
            if current_char == self.charset_last {
                let rightmost = last_symbol_other_than(&self.password, self.charset_last);
                proof {
                    if rightmost is None {
                        assert(before =~= repeated(self.charset_last, len as nat));
                    }
                }
                let at_prev: usize = rightmost.unwrap();
                let prev_char = self.password[at_prev];
                proof {
                    assert(charset.contains(before[at_prev as int]));
                    lemma_position_range(charset, prev_char);
                }
                let prev_index: usize = charset_position(
                    self.charset.as_slice(),
                    prev_char,
                ).unwrap();
                proof {
                    let d = position(charset, prev_char);
                    assert(d + 1 < charset_len) by {
                        if d + 1 == charset.len() {
                            assert(charset[d] == self.charset_last);
                        }
                    }
                    lemma_bumped(charset, before, at_prev as int);
                }
                let next_prev = self.charset[prev_index + 1];
                self.password.set(at_prev, next_prev);
                reset_from(&mut self.password, at_prev + 1, self.charset_first);
                assert(self.password@ =~= bumped(charset, before, at_prev as int));
            } else {
                proof {
                    assert(charset.contains(before[len - 1]));
                    lemma_position_range(charset, current_char);
                    let d = position(charset, current_char);
                    assert(index_entries(self.charset_indices)[charset[d]] == d);
                }
                let found: usize = index_map_get(&self.charset_indices, current_char).unwrap();
                proof {
                    let d = position(charset, current_char);
                    assert(d + 1 < charset_len) by {
                        if d + 1 == charset.len() {
                            assert(charset[d] == self.charset_last);
                        }
                    }
                    lemma_bumped(charset, before, len - 1);
                }
                let next = self.charset[found + 1];
                self.password.set(len - 1, next);
                assert(self.password@ =~= bumped(charset, before, len - 1));
            }
        }
        self.generated_count = self.generated_count + 1;
        proof {
            lemma_word_at_its_place(charset, min_len, self.password@);
        }
        Some(string_of_chars(&self.password))
    }

    /// How many candidates are still to come, as the lower and the upper
    /// bound of an iterator's size hint.
    pub fn size_hint(&self) -> (hint: (usize, Option<usize>))
        requires
            self.wf(),
        ensures
            hint.0 == self.pending().len(),
            hint.1 == Some(hint.0),
    {
        let remaining: usize = self.total_to_generate - self.generated_count;
        (remaining, Some(remaining))
    }
}

/// A generator for the candidates of the lengths `min_size..=max_size`
/// over `charset`, from `starting_password` on where one is given.
pub fn password_generator_iter(
    charset: &[char],
    min_size: usize,
    max_size: usize,
    starting_password: Option<String>,
) -> (generator: PasswordGenerator)
    requires
        is_charset(charset@),
        count_between(charset@.len(), min_size as int, max_size as int) <= usize::MAX,
        match starting_password {
            Some(start) => word_over(charset@, start@) && min_size <= start@.len() <= max_size,
            None => true,
        },
    ensures
        generator.wf(),
        generator.alphabet() == charset@,
        generator.pending() == search_space(charset@, min_size as nat, max_size as nat).skip(
            match starting_password {
                Some(start) => place(charset@, min_size as nat, start@) as int,
                None => 0,
            },
        ),
{
    PasswordGenerator::new(slice_to_vec(charset), min_size, max_size, starting_password).unwrap()
}

} // verus!
