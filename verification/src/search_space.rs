//! The mathematical model of the candidate space: words over an ordered
//! alphabet, shortest first, and within one length in odometer order with
//! the rightmost symbol least significant.

use vstd::arithmetic::div_mod::lemma_fundamental_div_mod_converse;
use vstd::prelude::*;

verus! {

/// `k` to the power `e`.
pub open spec fn power(k: nat, e: nat) -> nat
    decreases e,
{
    if e == 0 {
        1
    } else {
        k * power(k, (e - 1) as nat)
    }
}

/// How many words there are of the lengths `lo..=hi` over `k` symbols.
pub open spec fn count_between(k: nat, lo: int, hi: int) -> nat
    decreases hi - lo + 1,
{
    if lo > hi || lo < 0 {
        0
    } else {
        count_between(k, lo, hi - 1) + power(k, hi as nat)
    }
}

/// The first place at which `c` stands in `charset`, or the length of
/// `charset` where it does not occur.
pub open spec fn position(charset: Seq<char>, c: char) -> int {
    if exists|i: int| is_first_at(charset, c, i) {
        choose|i: int| is_first_at(charset, c, i)
    } else {
        charset.len() as int
    }
}

/// `c` stands at `i` in `charset` and nowhere before.
pub open spec fn is_first_at(charset: Seq<char>, c: char, i: int) -> bool {
    &&& 0 <= i < charset.len()
    &&& charset[i] == c
    &&& forall|j: int| 0 <= j < i ==> charset[j] != c
}

/// Every symbol of `word` is a symbol of `charset`.
pub open spec fn word_over(charset: Seq<char>, word: Seq<char>) -> bool {
    forall|i: int| 0 <= i < word.len() ==> charset.contains(#[trigger] word[i])
}

/// An alphabet: at least one symbol, none twice.
pub open spec fn is_charset(charset: Seq<char>) -> bool {
    charset.len() > 0 && charset.no_duplicates()
}

/// The value of `word` read as a number in base `charset.len()`, the
/// leftmost symbol most significant, a symbol's digit being its position.
pub open spec fn rank(charset: Seq<char>, word: Seq<char>) -> nat
    decreases word.len(),
{
    if word.len() == 0 {
        0
    } else {
        (rank(charset, word.drop_last()) * charset.len() + position(charset, word.last())) as nat
    }
}

/// The word of `len` symbols whose rank is `r`.
pub open spec fn word_at(charset: Seq<char>, len: nat, r: nat) -> Seq<char>
    decreases len,
{
    if len == 0 || charset.len() == 0 {
        Seq::empty()
    } else {
        word_at(charset, (len - 1) as nat, r / charset.len()).push(
            charset[(r % charset.len()) as int],
        )
    }
}

/// Where `word` stands in the enumeration that starts at length `min_len`:
/// all shorter words come first, then the words of its own length by rank.
pub open spec fn place(charset: Seq<char>, min_len: nat, word: Seq<char>) -> nat {
    count_between(charset.len(), min_len as int, word.len() - 1) + rank(charset, word)
}

/// The word that stands at place `p` of the enumeration that starts at
/// length `min_len`.
pub open spec fn nth_word(charset: Seq<char>, min_len: nat, p: nat) -> Seq<char>
    decreases p,
{
    let block = power(charset.len(), min_len);
    if p < block || block == 0 {
        word_at(charset, min_len, p)
    } else {
        nth_word(charset, min_len + 1, (p - block) as nat)
    }
}

/// The whole enumeration for the lengths `min_len..=max_len`.
pub open spec fn search_space(charset: Seq<char>, min_len: nat, max_len: nat) -> Seq<Seq<char>> {
    Seq::new(
        count_between(charset.len(), min_len as int, max_len as int),
        |p: int| nth_word(charset, min_len, p as nat),
    )
}

/// The length of the word at place `p` of the enumeration that starts at
/// length `min_len` over `k` symbols.
pub open spec fn length_at(k: nat, min_len: nat, p: nat) -> nat
    decreases p,
{
    let block = power(k, min_len);
    if p < block || block == 0 {
        min_len
    } else {
        length_at(k, min_len + 1, (p - block) as nat)
    }
}

/// The rank, among the words of its own length, of the word at place `p`.
pub open spec fn rank_at(k: nat, min_len: nat, p: nat) -> nat
    decreases p,
{
    let block = power(k, min_len);
    if p < block || block == 0 {
        p
    } else {
        rank_at(k, min_len + 1, (p - block) as nat)
    }
}

/// `a` comes before `b` in the order that the alphabet induces on words of
/// one length: they agree up to some place, and there `a` holds the symbol
/// that stands earlier in `charset`.
pub open spec fn lex_before(charset: Seq<char>, a: Seq<char>, b: Seq<char>) -> bool {
    &&& a.len() == b.len()
    &&& exists|i: int|
        0 <= i < a.len() && a.take(i) == b.take(i) && position(charset, #[trigger] a[i])
            < position(charset, b[i])
}

/// A power of a positive number is positive.
pub proof fn lemma_power_positive(k: nat, e: nat)
    requires
        k > 0,
    ensures
        power(k, e) > 0,
    decreases e,
{
    if e > 0 {
        lemma_power_positive(k, (e - 1) as nat);
        assert(k * power(k, (e - 1) as nat) > 0) by (nonlinear_arith)
            requires
                k > 0,
                power(k, (e - 1) as nat) > 0,
        ;
    }
}

/// Every power of one is one.
pub proof fn lemma_power_of_one(e: nat)
    ensures
        power(1, e) == 1,
    decreases e,
{
    if e > 0 {
        lemma_power_of_one((e - 1) as nat);
    }
}

/// The powers of a positive number do not fall as the exponent rises.
pub proof fn lemma_power_monotonic(k: nat, a: nat, b: nat)
    requires
        k > 0,
        a <= b,
    ensures
        power(k, a) <= power(k, b),
    decreases b,
{
    if a < b {
        lemma_power_monotonic(k, a, (b - 1) as nat);
        lemma_power_positive(k, (b - 1) as nat);
        assert(power(k, (b - 1) as nat) <= k * power(k, (b - 1) as nat)) by (nonlinear_arith)
            requires
                k > 0,
                power(k, (b - 1) as nat) > 0,
        ;
    }
}

/// A range of lengths can be split off at its shortest length as well as
/// at its longest.
pub proof fn lemma_count_split_first(k: nat, lo: int, hi: int)
    requires
        0 <= lo <= hi,
    ensures
        count_between(k, lo, hi) == power(k, lo as nat) + count_between(k, lo + 1, hi),
    decreases hi - lo,
{
    if lo < hi {
        lemma_count_split_first(k, lo, hi - 1);
    } else {
        assert(count_between(k, lo, hi - 1) == 0);
        assert(count_between(k, lo + 1, hi) == 0);
    }
}

/// The count does not fall as the range of lengths grows at its long end.
pub proof fn lemma_count_monotonic(k: nat, lo: int, mid: int, hi: int)
    requires
        mid <= hi,
    ensures
        count_between(k, lo, mid) <= count_between(k, lo, hi),
    decreases hi - mid,
{
    if mid < hi {
        lemma_count_monotonic(k, lo, mid, hi - 1);
    }
}

/// Where `c` first stands in `charset` is where `position` finds it.
pub proof fn lemma_position_is(charset: Seq<char>, c: char, i: int)
    requires
        is_first_at(charset, c, i),
    ensures
        position(charset, c) == i,
{
    let j = choose|j: int| is_first_at(charset, c, j);
    if j < i {
        assert(charset[j] != c);
    }
    if i < j {
        assert(charset[i] != c);
    }
}

proof fn lemma_first_occurrence(charset: Seq<char>, c: char, n: int)
    requires
        0 <= n < charset.len(),
        charset[n] == c,
    ensures
        exists|i: int| is_first_at(charset, c, i),
    decreases n,
{
    if forall|j: int| 0 <= j < n ==> charset[j] != c {
        assert(is_first_at(charset, c, n));
    } else {
        let j = choose|j: int| 0 <= j < n && charset[j] == c;
        lemma_first_occurrence(charset, c, j);
    }
}

/// A symbol of `charset` has a position inside it, at which it stands; any
/// other symbol has the position `charset.len()`.
pub proof fn lemma_position_range(charset: Seq<char>, c: char)
    ensures
        0 <= position(charset, c) <= charset.len(),
        charset.contains(c) <==> position(charset, c) < charset.len(),
        charset.contains(c) ==> charset[position(charset, c)] == c,
{
    if charset.contains(c) {
        let n = choose|n: int| 0 <= n < charset.len() && charset[n] == c;
        lemma_first_occurrence(charset, c, n);
    } else {
        if exists|i: int| is_first_at(charset, c, i) {
            let i = choose|i: int| is_first_at(charset, c, i);
            assert(charset.contains(c));
        }
    }
}

/// In an alphabet a symbol's position is the one place where it stands.
pub proof fn lemma_position_of_symbol(charset: Seq<char>, i: int)
    requires
        charset.no_duplicates(),
        0 <= i < charset.len(),
    ensures
        position(charset, charset[i]) == i,
{
    assert(is_first_at(charset, charset[i], i));
    lemma_position_is(charset, charset[i], i);
}

/// The rank of a word over the alphabet is less than the number of words
/// of its length.
pub proof fn lemma_rank_below_power(charset: Seq<char>, word: Seq<char>)
    requires
        word_over(charset, word),
    ensures
        rank(charset, word) < power(charset.len(), word.len()),
    decreases word.len(),
{
    let k = charset.len();
    if word.len() > 0 {
        let front = word.drop_last();
        assert forall|i: int| 0 <= i < front.len() implies charset.contains(
            #[trigger] front[i],
        ) by {
            assert(front[i] == word[i]);
        }
        lemma_rank_below_power(charset, front);
        assert(charset.contains(word[word.len() - 1]));
        lemma_position_range(charset, word.last());
        let r = rank(charset, front);
        let m = power(k, front.len());
        let d = position(charset, word.last());
        assert(r * k + d < k * m) by (nonlinear_arith)
            requires
                r < m,
                0 <= d < k,
        ;
    }
}

/// The rank of the first `n` symbols of a word is no greater than the rank
/// of the word.
pub proof fn lemma_rank_of_prefix(charset: Seq<char>, word: Seq<char>, n: int)
    requires
        0 <= n <= word.len(),
    ensures
        rank(charset, word.take(n)) <= rank(charset, word),
    decreases word.len() - n,
{
    if n < word.len() {
        lemma_rank_of_prefix(charset, word, n + 1);
        let longer = word.take(n + 1);
        assert(longer.drop_last() == word.take(n));
        lemma_position_range(charset, longer.last());
        let r = rank(charset, word.take(n));
        let k = charset.len();
        if k == 0 {
            assert(position(charset, longer.last()) == 0);
            assert(r * k == 0) by (nonlinear_arith)
                requires
                    k == 0,
            ;
            lemma_rank_zero_without_symbols(charset, word.take(n));
        } else {
            assert(r <= r * k) by (nonlinear_arith)
                requires
                    k >= 1,
                    r >= 0,
            ;
        }
    } else {
        assert(word.take(n) == word);
    }
}

/// Over no symbols at all every word has rank zero.
pub proof fn lemma_rank_zero_without_symbols(charset: Seq<char>, word: Seq<char>)
    requires
        charset.len() == 0,
    ensures
        rank(charset, word) == 0,
    decreases word.len(),
{
    if word.len() > 0 {
        lemma_rank_zero_without_symbols(charset, word.drop_last());
        lemma_position_range(charset, word.last());
        assert(rank(charset, word.drop_last()) * charset.len() == 0) by (nonlinear_arith)
            requires
                charset.len() == 0,
        ;
    }
}

/// `word_at` builds a word of the length asked for, over the alphabet, and
/// of the rank asked for.
pub proof fn lemma_word_at(charset: Seq<char>, len: nat, r: nat)
    requires
        is_charset(charset),
        r < power(charset.len(), len),
    ensures
        word_at(charset, len, r).len() == len,
        word_over(charset, word_at(charset, len, r)),
        rank(charset, word_at(charset, len, r)) == r,
    decreases len,
{
    let k = charset.len();
    if len > 0 {
        let m = power(k, (len - 1) as nat);
        assert(r / k < m && 0 <= r % k < k && (r / k) * k + r % k == r) by (nonlinear_arith)
            requires
                r < k * m,
                k > 0,
        ;
        lemma_word_at(charset, (len - 1) as nat, r / k);
        let front = word_at(charset, (len - 1) as nat, r / k);
        let word = word_at(charset, len, r);
        assert(word == front.push(charset[(r % k) as int]));
        assert(word.drop_last() == front);
        assert(word.last() == charset[(r % k) as int]);
        lemma_position_of_symbol(charset, (r % k) as int);
        assert forall|i: int| 0 <= i < word.len() implies charset.contains(
            #[trigger] word[i],
        ) by {
            if i < front.len() {
                assert(word[i] == front[i]);
            }
        }
    }
}

/// A word over the alphabet is the word that `word_at` builds from its
/// length and rank.
pub proof fn lemma_word_at_rank(charset: Seq<char>, word: Seq<char>)
    requires
        is_charset(charset),
        word_over(charset, word),
    ensures
        word_at(charset, word.len(), rank(charset, word)) == word,
    decreases word.len(),
{
    let k = charset.len();
    if word.len() > 0 {
        let front = word.drop_last();
        assert forall|i: int| 0 <= i < front.len() implies charset.contains(
            #[trigger] front[i],
        ) by {
            assert(front[i] == word[i]);
        }
        lemma_word_at_rank(charset, front);
        assert(charset.contains(word[word.len() - 1]));
        lemma_position_range(charset, word.last());
        let r = rank(charset, front);
        let d = position(charset, word.last());
        lemma_fundamental_div_mod_converse(r * k + d, k as int, r as int, d);
        assert(front.push(word.last()) == word);
    }
}

/// Two words of one length over the alphabet with one rank are one word.
pub proof fn lemma_rank_injective(charset: Seq<char>, a: Seq<char>, b: Seq<char>)
    requires
        is_charset(charset),
        word_over(charset, a),
        word_over(charset, b),
        a.len() == b.len(),
        rank(charset, a) == rank(charset, b),
    ensures
        a == b,
{
    lemma_word_at_rank(charset, a);
    lemma_word_at_rank(charset, b);
}

/// The place `count_between(k, min_len, len - 1) + r` holds the word of
/// length `len` and rank `r`.
pub proof fn lemma_nth_word_at(charset: Seq<char>, min_len: nat, len: nat, r: nat)
    requires
        charset.len() > 0,
        min_len <= len,
        r < power(charset.len(), len),
    ensures
        nth_word(charset, min_len, count_between(charset.len(), min_len as int, len - 1) + r)
            == word_at(charset, len, r),
        length_at(charset.len(), min_len, count_between(charset.len(), min_len as int, len - 1) + r)
            == len,
        rank_at(charset.len(), min_len, count_between(charset.len(), min_len as int, len - 1) + r)
            == r,
    decreases len - min_len,
{
    let k = charset.len();
    lemma_power_positive(k, min_len);
    if min_len == len {
        assert(count_between(k, min_len as int, len - 1) == 0);
    } else {
        lemma_count_split_first(k, min_len as int, len - 1);
        lemma_nth_word_at(charset, min_len + 1, len, r);
        let p = count_between(k, min_len as int, len - 1) + r;
        let block = power(k, min_len);
        assert(p - block == count_between(k, min_len as int + 1, len - 1) + r);
    }
}

/// A place inside the enumeration is that of a word of some length between
/// `min_len` and `max_len`, at some rank below the number of such words.
pub proof fn lemma_place_splits(k: nat, min_len: nat, max_len: nat, p: nat)
    requires
        k > 0,
        p < count_between(k, min_len as int, max_len as int),
    ensures
        min_len <= length_at(k, min_len, p) <= max_len,
        rank_at(k, min_len, p) < power(k, length_at(k, min_len, p)),
        p == count_between(k, min_len as int, length_at(k, min_len, p) - 1) + rank_at(
            k,
            min_len,
            p,
        ),
    decreases p,
{
    lemma_power_positive(k, min_len);
    let block = power(k, min_len);
    assert(min_len <= max_len);
    lemma_count_split_first(k, min_len as int, max_len as int);
    if p < block {
        assert(count_between(k, min_len as int, min_len - 1) == 0);
    } else {
        lemma_place_splits(k, min_len + 1, max_len, (p - block) as nat);
        let len = length_at(k, min_len + 1, (p - block) as nat);
        lemma_count_split_first(k, min_len as int, len - 1);
    }
}

/// The word at a place inside the enumeration has a length between
/// `min_len` and `max_len`, is a word over the alphabet, and stands at that
/// place and at no other.
pub proof fn lemma_nth_word(charset: Seq<char>, min_len: nat, max_len: nat, p: nat)
    requires
        is_charset(charset),
        p < count_between(charset.len(), min_len as int, max_len as int),
    ensures
        min_len <= nth_word(charset, min_len, p).len() <= max_len,
        nth_word(charset, min_len, p).len() == length_at(charset.len(), min_len, p),
        word_over(charset, nth_word(charset, min_len, p)),
        rank(charset, nth_word(charset, min_len, p)) == rank_at(charset.len(), min_len, p),
        place(charset, min_len, nth_word(charset, min_len, p)) == p,
{
    let k = charset.len();
    lemma_place_splits(k, min_len, max_len, p);
    let len = length_at(k, min_len, p);
    let r = rank_at(k, min_len, p);
    lemma_nth_word_at(charset, min_len, len, r);
    lemma_word_at(charset, len, r);
}

/// A word over the alphabet, no shorter than `min_len`, is the word at its
/// own place.
pub proof fn lemma_word_at_its_place(charset: Seq<char>, min_len: nat, word: Seq<char>)
    requires
        is_charset(charset),
        word_over(charset, word),
        min_len <= word.len(),
    ensures
        nth_word(charset, min_len, place(charset, min_len, word)) == word,
{
    lemma_rank_below_power(charset, word);
    lemma_nth_word_at(charset, min_len, word.len(), rank(charset, word));
    lemma_word_at_rank(charset, word);
}

/// A word over the alphabet whose length lies between `min_len` and
/// `max_len` has its place inside the enumeration.
pub proof fn lemma_place_in_range(charset: Seq<char>, min_len: nat, max_len: nat, word: Seq<char>)
    requires
        word_over(charset, word),
        min_len <= word.len() <= max_len,
    ensures
        place(charset, min_len, word) < count_between(
            charset.len(),
            min_len as int,
            max_len as int,
        ),
{
    let k = charset.len();
    lemma_rank_below_power(charset, word);
    lemma_count_monotonic(k, min_len as int, word.len() as int, max_len as int);
}

/// The word of `n` symbols that are all `c`.
pub open spec fn repeated(c: char, n: nat) -> Seq<char> {
    Seq::new(n, |i: int| c)
}

/// `word` with the symbol at `j` replaced by the one that follows it in
/// `charset`, and every symbol to the right of `j` replaced by the first of
/// `charset`.
pub open spec fn bumped(charset: Seq<char>, word: Seq<char>, j: int) -> Seq<char> {
    Seq::new(
        word.len(),
        |i: int|
            if i < j {
                word[i]
            } else if i == j {
                charset[position(charset, word[j]) + 1]
            } else {
                charset[0]
            },
    )
}

/// The word made of the first symbol alone has rank zero.
pub proof fn lemma_rank_of_all_first(charset: Seq<char>, n: nat)
    requires
        is_charset(charset),
    ensures
        rank(charset, repeated(charset[0], n)) == 0,
    decreases n,
{
    if n > 0 {
        lemma_rank_of_all_first(charset, (n - 1) as nat);
        assert(repeated(charset[0], n).drop_last() == repeated(charset[0], (n - 1) as nat));
        lemma_position_of_symbol(charset, 0);
        assert(0 * charset.len() == 0) by (nonlinear_arith);
    }
}

/// The word made of the last symbol alone has the greatest rank of its
/// length.
pub proof fn lemma_rank_of_all_last(charset: Seq<char>, n: nat)
    requires
        is_charset(charset),
    ensures
        rank(charset, repeated(charset[charset.len() - 1], n)) + 1 == power(charset.len(), n),
    decreases n,
{
    let k = charset.len();
    let last = charset[k - 1];
    if n > 0 {
        lemma_rank_of_all_last(charset, (n - 1) as nat);
        assert(repeated(last, n).drop_last() == repeated(last, (n - 1) as nat));
        lemma_position_of_symbol(charset, k - 1);
        let r = rank(charset, repeated(last, (n - 1) as nat));
        assert(r * k + (k - 1) + 1 == k * (r + 1)) by (nonlinear_arith);
    }
}

/// Advancing the symbol at `j`, where every symbol to its right is the
/// last of the alphabet, gives the word of the next rank.
pub proof fn lemma_bumped(charset: Seq<char>, word: Seq<char>, j: int)
    requires
        is_charset(charset),
        word_over(charset, word),
        0 <= j < word.len(),
        position(charset, word[j]) + 1 < charset.len(),
        forall|i: int| j < i < word.len() ==> word[i] == charset[charset.len() - 1],
    ensures
        word_over(charset, bumped(charset, word, j)),
        rank(charset, bumped(charset, word, j)) == rank(charset, word) + 1,
    decreases word.len() - j,
{
    let k = charset.len();
    let next = bumped(charset, word, j);
    let front = word.drop_last();
    let d = position(charset, word[j]);
    lemma_position_range(charset, word[j]);
    assert forall|i: int| 0 <= i < next.len() implies charset.contains(#[trigger] next[i]) by {
        if i < j {
            assert(charset.contains(word[i]));
        } else if i == j {
            assert(charset[d + 1] == next[i]);
        } else {
            assert(charset[0] == next[i]);
        }
    }
    assert forall|i: int| 0 <= i < front.len() implies charset.contains(#[trigger] front[i]) by {
        assert(front[i] == word[i]);
    }
    if j == word.len() - 1 {
        assert(next.drop_last() == front);
        lemma_position_of_symbol(charset, d + 1);
    } else {
        assert(front[j] == word[j]);
        assert forall|i: int| j < i < front.len() implies front[i] == charset[k - 1] by {
            assert(front[i] == word[i]);
        }
        lemma_bumped(charset, front, j);
        assert(next.drop_last() == bumped(charset, front, j));
        lemma_position_of_symbol(charset, 0);
        lemma_position_of_symbol(charset, k - 1);
        let r = rank(charset, front);
        assert((r + 1) * k == r * k + k) by (nonlinear_arith);
    }
}

/// Of two words of one length over the alphabet, the one of the lesser
/// rank comes first in the order that the alphabet induces.
pub proof fn lemma_rank_orders_words(charset: Seq<char>, a: Seq<char>, b: Seq<char>)
    requires
        is_charset(charset),
        word_over(charset, a),
        word_over(charset, b),
        a.len() == b.len(),
        rank(charset, a) < rank(charset, b),
    ensures
        lex_before(charset, a, b),
    decreases a.len(),
{
    let k = charset.len();
    if a.len() > 0 {
        let fa = a.drop_last();
        let fb = b.drop_last();
        assert forall|i: int| 0 <= i < fa.len() implies charset.contains(#[trigger] fa[i]) by {
            assert(fa[i] == a[i]);
        }
        assert forall|i: int| 0 <= i < fb.len() implies charset.contains(#[trigger] fb[i]) by {
            assert(fb[i] == b[i]);
        }
        assert(charset.contains(a[a.len() - 1]));
        assert(charset.contains(b[b.len() - 1]));
        lemma_position_range(charset, a.last());
        lemma_position_range(charset, b.last());
        let ra = rank(charset, fa);
        let rb = rank(charset, fb);
        let da = position(charset, a.last());
        let db = position(charset, b.last());
        if ra < rb {
            lemma_rank_orders_words(charset, fa, fb);
            let i = choose|i: int|
                0 <= i < fa.len() && fa.take(i) == fb.take(i) && position(charset, #[trigger] fa[i])
                    < position(charset, fb[i]);
            assert(a.take(i) == fa.take(i));
            assert(b.take(i) == fb.take(i));
            assert(a[i] == fa[i] && b[i] == fb[i]);
        } else if ra == rb {
            lemma_rank_injective(charset, fa, fb);
            let i = a.len() - 1;
            assert(a.take(i) == fa);
            assert(b.take(i) == fb);
            assert(position(charset, a[i]) < position(charset, b[i]));
        } else {
            assert(ra * k + da >= rb * k + db) by (nonlinear_arith)
                requires
                    ra > rb,
                    0 <= da,
                    0 <= db < k,
            ;
        }
    }
}

/// The enumeration has as many candidates as there are words of the
/// lengths `min_len..=max_len` over the alphabet; each candidate is such a
/// word; each such word is a candidate; and no candidate comes twice.
pub proof fn lemma_search_space_is_exhaustive(charset: Seq<char>, min_len: nat, max_len: nat)
    requires
        is_charset(charset),
    ensures
        search_space(charset, min_len, max_len).len() == count_between(
            charset.len(),
            min_len as int,
            max_len as int,
        ),
        forall|p: int|
            #![trigger search_space(charset, min_len, max_len)[p]]
            0 <= p < search_space(charset, min_len, max_len).len() ==> {
                &&& word_over(charset, search_space(charset, min_len, max_len)[p])
                &&& min_len <= search_space(charset, min_len, max_len)[p].len() <= max_len
            },
        forall|word: Seq<char>|
            word_over(charset, word) && min_len <= word.len() <= max_len ==> search_space(
                charset,
                min_len,
                max_len,
            ).contains(word),
        forall|p: int, q: int|
            0 <= p < q < search_space(charset, min_len, max_len).len() ==> search_space(
                charset,
                min_len,
                max_len,
            )[p] != search_space(charset, min_len, max_len)[q],
{
    let all = search_space(charset, min_len, max_len);
    assert forall|p: int| 0 <= p < all.len() implies {
        &&& word_over(charset, #[trigger] all[p])
        &&& min_len <= all[p].len() <= max_len
    } by {
        lemma_nth_word(charset, min_len, max_len, p as nat);
    }
    assert forall|word: Seq<char>|
        word_over(charset, word) && min_len <= word.len() <= max_len implies all.contains(
        word,
    ) by {
        lemma_place_in_range(charset, min_len, max_len, word);
        lemma_word_at_its_place(charset, min_len, word);
        assert(all[place(charset, min_len, word) as int] == word);
    }
    assert forall|p: int, q: int| 0 <= p < q < all.len() implies all[p] != all[q] by {
        lemma_nth_word(charset, min_len, max_len, p as nat);
        lemma_nth_word(charset, min_len, max_len, q as nat);
    }
}

/// Of two candidates the earlier is no longer than the later, and where
/// they are of one length the earlier comes first in the order that the
/// alphabet induces: every length is exhausted before the next begins, and
/// within a length the candidates come in lexicographic order.
pub proof fn lemma_search_space_is_ordered(
    charset: Seq<char>,
    min_len: nat,
    max_len: nat,
    p: int,
    q: int,
)
    requires
        is_charset(charset),
        0 <= p < q < search_space(charset, min_len, max_len).len(),
    ensures
        search_space(charset, min_len, max_len)[p].len() <= search_space(
            charset,
            min_len,
            max_len,
        )[q].len(),
        search_space(charset, min_len, max_len)[p].len() == search_space(
            charset,
            min_len,
            max_len,
        )[q].len() ==> lex_before(
            charset,
            search_space(charset, min_len, max_len)[p],
            search_space(charset, min_len, max_len)[q],
        ),
{
    let k = charset.len();
    let a = nth_word(charset, min_len, p as nat);
    let b = nth_word(charset, min_len, q as nat);
    lemma_nth_word(charset, min_len, max_len, p as nat);
    lemma_nth_word(charset, min_len, max_len, q as nat);
    lemma_place_splits(k, min_len, max_len, p as nat);
    lemma_place_splits(k, min_len, max_len, q as nat);
    let la = length_at(k, min_len, p as nat);
    let lb = length_at(k, min_len, q as nat);
    if la > lb {
        lemma_count_monotonic(k, min_len as int, lb as int, la - 1);
    }
    if la == lb {
        lemma_rank_orders_words(charset, a, b);
    }
}

/// A candidate is the first of what is left of the enumeration once as
/// many candidates as its place says have been dropped: an enumeration
/// that restarts at a candidate begins with that candidate.
pub proof fn lemma_restart_begins_with(
    charset: Seq<char>,
    min_len: nat,
    max_len: nat,
    word: Seq<char>,
)
    requires
        is_charset(charset),
        word_over(charset, word),
        min_len <= word.len() <= max_len,
    ensures
        place(charset, min_len, word) < search_space(charset, min_len, max_len).len(),
        search_space(charset, min_len, max_len).skip(place(charset, min_len, word) as int)[0]
            == word,
{
    lemma_place_in_range(charset, min_len, max_len, word);
    lemma_word_at_its_place(charset, min_len, word);
}

} // verus!
