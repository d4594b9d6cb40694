//! What holds of words and numbers in texts.
use vstd::prelude::*;

use crate::config::signed_number;
use crate::text::{
    decimal, decimal_round_trip, decimal_value, digit_value, digits_value, is_space, trimmed,
    unsigned_number, without_leading, without_trailing, words,
};

verus! {

/// A run of characters without a space, at least one.
pub open spec fn is_word(w: Seq<char>) -> bool {
    w.len() > 0 && forall|i: int| 0 <= i < w.len() ==> !is_space(#[trigger] w[i])
}

proof fn lemma_word_behind(front: Seq<char>, w: Seq<char>)
    requires
        is_word(w),
        front.len() == 0 || is_space(front.last()),
    ensures
        words(front + w) == words(front).push(w),
    decreases w.len(),
{
    let s = front + w;
    assert(s.last() == w.last());
    assert(!is_space(w[w.len() - 1]));
    if w.len() == 1 {
        assert(s.drop_last() =~= front);
        assert(w =~= seq![w.last()]);
    } else {
        let less = w.drop_last();
        assert(s.drop_last() =~= front + less);
        assert forall|i: int| 0 <= i < less.len() implies !is_space(#[trigger] less[i]) by {
            assert(less[i] == w[i]);
        }
        lemma_word_behind(front, less);
        assert(s[s.len() - 2] == w[w.len() - 2]);
        assert(words(front).push(less).drop_last() =~= words(front));
        assert(less.push(w.last()) =~= w);
    }
}

/// Spaces part words. A word behind a space is the last of the words, and spaces at the end part
/// nothing more.
pub proof fn spaces_part_words(front: Seq<char>, space: char, w: Seq<char>)
    requires
        is_space(space),
        is_word(w),
    ensures
        words(w) == seq![w],
        words(front.push(space)) == words(front),
        words(front.push(space) + w) == words(front).push(w),
{
    assert(front.push(space).drop_last() =~= front);
    lemma_word_behind(front.push(space), w);
    lemma_word_behind(Seq::empty(), w);
    assert(Seq::empty() + w =~= w);
    assert(words(Seq::empty()).push(w) =~= seq![w]);
}

proof fn lemma_leading(spaces: Seq<char>, s: Seq<char>)
    requires
        forall|i: int| 0 <= i < spaces.len() ==> is_space(#[trigger] spaces[i]),
        s.len() == 0 || !is_space(s[0]),
    ensures
        without_leading(spaces + s) == s,
    decreases spaces.len(),
{
    if spaces.len() == 0 {
        assert(spaces + s =~= s);
    } else {
        let less = spaces.skip(1);
        assert((spaces + s).skip(1) =~= less + s);
        assert forall|i: int| 0 <= i < less.len() implies is_space(#[trigger] less[i]) by {
            assert(less[i] == spaces[i + 1]);
        }
        assert((spaces + s)[0] == spaces[0]);
        lemma_leading(less, s);
    }
}

proof fn lemma_trailing(s: Seq<char>, spaces: Seq<char>)
    requires
        forall|i: int| 0 <= i < spaces.len() ==> is_space(#[trigger] spaces[i]),
        s.len() == 0 || !is_space(s.last()),
    ensures
        without_trailing(s + spaces) == s,
    decreases spaces.len(),
{
    if spaces.len() == 0 {
        assert(s + spaces =~= s);
    } else {
        let less = spaces.drop_last();
        assert((s + spaces).drop_last() =~= s + less);
        assert forall|i: int| 0 <= i < less.len() implies is_space(#[trigger] less[i]) by {
            assert(less[i] == spaces[i]);
        }
        assert((s + spaces).last() == spaces[spaces.len() - 1]);
        lemma_trailing(s, less);
    }
}

/// Trimming takes the spaces at both ends, and nothing else.
pub proof fn trimming_takes_the_spaces_around(a: Seq<char>, s: Seq<char>, b: Seq<char>)
    requires
        forall|i: int| 0 <= i < a.len() ==> is_space(#[trigger] a[i]),
        forall|i: int| 0 <= i < b.len() ==> is_space(#[trigger] b[i]),
        s.len() > 0,
        !is_space(s[0]),
        !is_space(s.last()),
    ensures
        trimmed(a + s + b) == s,
{
    assert(a + s + b =~= a + (s + b));
    assert((s + b)[0] == s[0]);
    lemma_leading(a, s + b);
    lemma_trailing(s, b);
}

/// A number is read from the left: each digit is worth the radix times the next.
pub proof fn numbers_are_read_from_the_left(s: Seq<char>, digit: char, radix: int, max: int)
    requires
        2 <= radix <= 16,
        s.len() > 0,
        s[0] != '+',
        0 <= digit_value(digit) < radix,
    ensures
        digit != '+' ==> unsigned_number(seq![digit], radix, max) == (if digit_value(digit) <= max {
            Some(digit_value(digit))
        } else {
            None
        }),
        unsigned_number(s, radix, max) matches Some(n) ==> unsigned_number(s.push(digit), radix, max)
            == (if n * radix + digit_value(digit) <= max {
            Some(n * radix + digit_value(digit))
        } else {
            None
        }),
{
    let one = seq![digit];
    assert(one.drop_last() =~= Seq::empty());
    assert(digits_value(one.drop_last(), radix) == 0);
    assert(radix * 0 == 0) by (nonlinear_arith);
    assert(digits_value(one, radix) == digit_value(digit));
    let t = s.push(digit);
    assert(t.drop_last() =~= s);
    assert(t[0] == s[0]);
    if let Some(n) = unsigned_number(s, radix, max) {
        assert(radix * n == n * radix) by (nonlinear_arith);
        assert forall|i: int| 0 <= i < t.len() implies digit_value(#[trigger] t[i]) < radix by {
            if i < s.len() {
                assert(t[i] == s[i]);
            }
        }
    }
}

/// The values of digits.
pub proof fn digits_have_their_values(n: int)
    ensures
        0 <= n <= 9 ==> digit_value((0x30 + n) as char) == n,
        0 <= n <= 5 ==> digit_value((0x41 + n) as char) == 10 + n,
        0 <= n <= 5 ==> digit_value((0x61 + n) as char) == 10 + n,
{
}

/// The characters of a text of single bytes.
pub open spec fn chars_of(s: Seq<u8>) -> Seq<char> {
    Seq::new(s.len(), |i: int| s[i] as char)
}

proof fn lemma_same_value(s: Seq<u8>)
    requires
        crate::text::all_digits(s),
    ensures
        digits_value(chars_of(s), 10) == decimal_value(s),
    decreases s.len(),
{
    if s.len() > 0 {
        assert(chars_of(s).drop_last() =~= chars_of(s.drop_last()));
        assert forall|i: int| 0 <= i < s.drop_last().len() implies crate::text::is_digit(
            #[trigger] s.drop_last()[i],
        ) by {
            assert(s.drop_last()[i] == s[i]);
        }
        lemma_same_value(s.drop_last());
        assert(crate::text::is_digit(s[s.len() - 1]));
        assert(chars_of(s).last() == s.last() as char);
    }
}

/// What is written as a decimal number is read as that number, also with a sign in front.
pub proof fn written_numbers_are_read(n: nat, max: int)
    requires
        n <= i32::MAX,
        n <= max,
    ensures
        unsigned_number(chars_of(decimal(n)), 10, max) == Some(n as int),
        signed_number(chars_of(decimal(n))) == Some(n as i32),
        signed_number(seq!['-'] + chars_of(decimal(n))) == Some((-n) as i32),
{
    let d = decimal(n);
    let c = chars_of(d);
    decimal_round_trip(n);
    lemma_same_value(d);
    assert forall|i: int| 0 <= i < c.len() implies digit_value(#[trigger] c[i]) < 10 && c[i] != '+'
        && c[i] != '-' by {
        assert(crate::text::is_digit(d[i]));
    }
    assert(c[0] != '+' && c[0] != '-');
    assert((seq!['-'] + c).skip(1) =~= c);
}

} // verus!
