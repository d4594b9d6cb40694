//! Numbers and letters as ASCII bytes.
use vstd::prelude::*;

verus! {

/// The decimal digits of `n`, without leading zeros.
pub open spec fn decimal(n: nat) -> Seq<u8>
    decreases n,
{
    if n < 10 {
        seq![(48 + n) as u8]
    } else {
        decimal(n / 10).push((48 + n % 10) as u8)
    }
}

/// The value of a run of decimal digits.
pub open spec fn decimal_value(s: Seq<u8>) -> nat
    decreases s.len(),
{
    if s.len() == 0 {
        0
    } else {
        10 * decimal_value(s.drop_last()) + (s.last() - 48) as nat
    }
}

pub open spec fn is_digit(b: u8) -> bool {
    48 <= b <= 57
}

/// Every byte is a decimal digit.
pub open spec fn all_digits(s: Seq<u8>) -> bool {
    forall|i: int| 0 <= i < s.len() ==> is_digit(#[trigger] s[i])
}

/// Reading the digits of a number gives the number back.
pub proof fn decimal_round_trip(n: nat)
    ensures
        decimal_value(decimal(n)) == n,
        all_digits(decimal(n)),
        decimal(n).len() > 0,
    decreases n,
{
    if n >= 10 {
        decimal_round_trip(n / 10);
        assert(decimal(n).drop_last() =~= decimal(n / 10));
    } else {
        assert(decimal(n).drop_last() =~= Seq::empty());
        assert(decimal_value(Seq::empty()) == 0);
        assert(decimal(n).last() == 48 + n);
    }
}

/// Append the decimal digits of `n`.
pub fn push_decimal(out: &mut Vec<u8>, n: u64)
    ensures
        final(out)@ == old(out)@ + decimal(n as nat),
    decreases n,
{
    if n >= 10 {
        push_decimal(out, n / 10);
        out.push(48 + (n % 10) as u8);
        assert(out@ =~= old(out)@ + decimal(n as nat));
    } else {
        out.push(48 + n as u8);
        assert(out@ =~= old(out)@ + decimal(n as nat));
    }
}

/// Append bytes.
pub fn push_bytes(out: &mut Vec<u8>, bytes: &[u8])
    ensures
        final(out)@ == old(out)@ + bytes@,
{
    let mut i: usize = 0;
    while i < bytes.len()
        invariant
            i <= bytes@.len(),
            out@ =~= old(out)@ + bytes@.subrange(0, i as int),
        decreases bytes@.len() - i,
    {
        out.push(bytes[i]);
        i += 1;
    }
    assert(bytes@.subrange(0, bytes@.len() as int) =~= bytes@);
}

/// The bytes of a string.
pub open spec fn text(s: &str) -> Seq<u8> {
    vstd::utf8::encode_utf8(s@)
}

/// Append the bytes of a string.
pub fn push_text(out: &mut Vec<u8>, s: &str)
    ensures
        final(out)@ == old(out)@ + text(s),
{
    push_bytes(out, s.as_bytes());
}

/// The upper-case form of an ASCII byte.
pub open spec fn upper(b: u8) -> u8 {
    if 97 <= b <= 122 { (b - 32) as u8 } else { b }
}

/// The upper-case form of each byte.
pub open spec fn upper_all(s: Seq<u8>) -> Seq<u8> {
    Seq::new(s.len(), |i: int| upper(s[i]))
}

pub fn to_upper(b: u8) -> (r: u8)
    ensures
        r == upper(b),
{
    if b >= 97 && b <= 122 { b - 32 } else { b }
}

/// The hexadecimal digit for a value below 16, in upper case.
pub open spec fn hex_digit(n: int) -> u8 {
    if n < 10 { (48 + n) as u8 } else { (55 + n) as u8 }
}

pub fn to_hex_digit(n: u8) -> (r: u8)
    requires
        n < 16,
    ensures
        r == hex_digit(n as int),
{
    if n < 10 { 48 + n } else { 55 + n }
}

/// Two runs of bytes are equal.
pub fn bytes_equal(a: &[u8], b: &[u8]) -> (r: bool)
    ensures
        r == (a@ == b@),
{
    if a.len() != b.len() {
        return false;
    }
    let mut i: usize = 0;
    while i < a.len()
        invariant
            i <= a@.len(),
            a@.len() == b@.len(),
            forall|k: int| 0 <= k < i ==> a@[k] == b@[k],
        decreases a@.len() - i,
    {
        if a[i] != b[i] {
            assert(a@[i as int] != b@[i as int]);
            return false;
        }
        i += 1;
    }
    assert(a@ =~= b@);
    true
}

/// A copy of part of a run of bytes.
pub fn sub_bytes(s: &[u8], from: usize, to: usize) -> (r: Vec<u8>)
    requires
        from <= to <= s@.len(),
    ensures
        r@ == s@.subrange(from as int, to as int),
{
    let mut r: Vec<u8> = Vec::new();
    let mut i: usize = from;
    while i < to
        invariant
            from <= i <= to <= s@.len(),
            r@ =~= s@.subrange(from as int, i as int),
        decreases to - i,
    {
        r.push(s[i]);
        i += 1;
    }
    r
}

/// The text that bytes hold, as `core::str::from_utf8` finds it: it succeeds on
/// exactly the valid UTF-8 byte sequences, and the text has those bytes.
#[verifier::external_body]
pub(crate) fn decode_utf8(bytes: &[u8]) -> (r: Option<&str>)
    ensures
        r is Some <==> vstd::utf8::valid_utf8(bytes@),
        r matches Some(s) ==> text(s) == bytes@,
{
    core::str::from_utf8(bytes).ok()
}

/// The text that bytes stand for, with what is not UTF-8 replaced, as bytes.
pub uninterp spec fn lossy_utf8(bytes: Seq<u8>) -> Seq<u8>;

/// `String::from_utf8_lossy`: the result depends on the bytes alone, and valid UTF-8
/// is kept as it is. What stands for invalid bytes is not said.
#[verifier::external_body]
pub(crate) fn utf8_lossy(bytes: &[u8]) -> (r: Vec<u8>)
    ensures
        r@ == lossy_utf8(bytes@),
        vstd::utf8::valid_utf8(bytes@) ==> r@ == bytes@,
{
    String::from_utf8_lossy(bytes).into_owned().into_bytes()
}

/// Whether bytes are UTF-8 text.
pub fn is_utf8(bytes: &[u8]) -> (r: bool)
    ensures
        r == vstd::utf8::valid_utf8(bytes@),
{
    decode_utf8(bytes).is_some()
}

/// White space, as Unicode has it.
pub open spec fn is_space(c: char) -> bool {
    let n = c as u32;
    9 <= n <= 13 || n == 0x20 || n == 0x85 || n == 0xa0 || n == 0x1680 || 0x2000 <= n <= 0x200a
        || n == 0x2028 || n == 0x2029 || n == 0x202f || n == 0x205f || n == 0x3000
}

pub fn char_is_space(c: char) -> (r: bool)
    ensures
        r == is_space(c),
{
    let n: u32 = c as u32;
    (9 <= n && n <= 13) || n == 0x20 || n == 0x85 || n == 0xa0 || n == 0x1680 || (0x2000 <= n && n
        <= 0x200a) || n == 0x2028 || n == 0x2029 || n == 0x202f || n == 0x205f || n == 0x3000
}

/// The words of a text: its longest runs without white space.
pub open spec fn words(s: Seq<char>) -> Seq<Seq<char>>
    decreases s.len(),
{
    if s.len() == 0 {
        Seq::empty()
    } else {
        let before = words(s.drop_last());
        if is_space(s.last()) {
            before
        } else if s.len() == 1 || is_space(s[s.len() - 2]) {
            before.push(seq![s.last()])
        } else {
            before.drop_last().push(before.last().push(s.last()))
        }
    }
}

/// The texts of a list of strings.
pub open spec fn texts(v: Seq<&str>) -> Seq<Seq<char>> {
    Seq::new(v.len(), |i: int| v[i]@)
}

/// A text that does not end in white space ends in its last word.
pub proof fn lemma_last_word(s: Seq<char>)
    ensures
        s.len() > 0 && !is_space(s.last()) ==> words(s).len() > 0,
    decreases s.len(),
{
    if s.len() > 0 {
        lemma_last_word(s.drop_last());
    }
}

/// A run without white space after white space, or at the start, is a new word.
proof fn lemma_word_run(s: Seq<char>, from: int, to: int)
    requires
        0 <= from < to <= s.len(),
        from == 0 || is_space(s[from - 1]),
        forall|k: int| from <= k < to ==> !is_space(#[trigger] s[k]),
    ensures
        words(s.subrange(0, to)) == words(s.subrange(0, from)).push(s.subrange(from, to)),
    decreases to,
{
    let t = s.subrange(0, to);
    assert(t.drop_last() =~= s.subrange(0, to - 1));
    assert(t.last() == s[to - 1]);
    if to == from + 1 {
        assert(s.subrange(from, to) =~= seq![t.last()]);
        if t.len() != 1 {
            assert(t[t.len() - 2] == s[from - 1]);
        }
    } else {
        lemma_word_run(s, from, to - 1);
        assert(t[t.len() - 2] == s[to - 2]);
        let w = words(s.subrange(0, from));
        let before = words(t.drop_last());
        assert(before == w.push(s.subrange(from, to - 1)));
        assert(before.drop_last() =~= w);
        assert(before.last().push(t.last()) =~= s.subrange(from, to));
    }
}

/// The words of a text.
pub fn split_whitespace<'a>(s: &'a str) -> (r: Vec<&'a str>)
    ensures
        texts(r@) == words(s@),
{
    let chars: Vec<char> = char_list(s);
    let n: usize = chars.len();
    let mut r: Vec<&'a str> = Vec::new();
    let mut i: usize = 0;
    assert(s@.subrange(0, 0) =~= Seq::empty());
    assert(texts(r@) =~= Seq::empty());
    while i < n
        invariant
            chars@ == s@,
            n == s@.len(),
            i <= n,
            texts(r@) == words(s@.subrange(0, i as int)),
            i == 0 || i == n || is_space(s@[i - 1]) || is_space(s@[i as int]),
        decreases n - i,
    {
        if char_is_space(chars[i]) {
            let ghost t = s@.subrange(0, i + 1);
            assert(t.drop_last() =~= s@.subrange(0, i as int));
            assert(t.last() == s@[i as int]);
            i += 1;
        } else {
            let from: usize = i;
            while i < n && !char_is_space(chars[i])
                invariant
                    chars@ == s@,
                    n == s@.len(),
                    from <= i <= n,
                    forall|k: int| from <= k < i ==> !is_space(#[trigger] s@[k]),
                ensures
                    i == n || is_space(s@[i as int]),
                decreases n - i,
            {
                i += 1;
            }
            assert(from < i);
            proof { lemma_word_run(s@, from as int, i as int); }
            let word: &'a str = s.substring_char(from, i);
            r.push(word);
            assert(texts(r@) =~= words(s@.subrange(0, from as int)).push(word@));
        }
    }
    assert(s@.subrange(0, n as int) =~= s@);
    r
}

/// A text from its first character on that is no white space.
pub open spec fn without_leading(s: Seq<char>) -> Seq<char>
    decreases s.len(),
{
    if s.len() > 0 && is_space(s[0]) { without_leading(s.skip(1)) } else { s }
}

/// A text up to its last character that is no white space.
pub open spec fn without_trailing(s: Seq<char>) -> Seq<char>
    decreases s.len(),
{
    if s.len() > 0 && is_space(s.last()) { without_trailing(s.drop_last()) } else { s }
}

/// A text without the white space around it.
pub open spec fn trimmed(s: Seq<char>) -> Seq<char> {
    without_trailing(without_leading(s))
}

/// A text without the white space around it.
pub fn trim<'a>(s: &'a str) -> (r: &'a str)
    ensures
        r@ == trimmed(s@),
{
    let chars: Vec<char> = char_list(s);
    let n: usize = chars.len();
    let mut from: usize = 0;
    assert(s@.skip(0) =~= s@);
    while from < n && char_is_space(chars[from])
        invariant
            chars@ == s@,
            n == s@.len(),
            from <= n,
            without_leading(s@) == without_leading(s@.skip(from as int)),
        ensures
            from <= n,
            without_leading(s@) == s@.skip(from as int),
        decreases n - from,
    {
        assert(s@.skip(from as int).skip(1) =~= s@.skip(from + 1));
        from += 1;
    }
    let ghost lead = s@.skip(from as int);
    let mut to: usize = n;
    assert(lead =~= s@.subrange(from as int, n as int));
    while to > from && char_is_space(chars[to - 1])
        invariant
            chars@ == s@,
            n == s@.len(),
            from <= to <= n,
            without_trailing(lead) == without_trailing(s@.subrange(from as int, to as int)),
        ensures
            from <= to <= n,
            without_trailing(lead) == s@.subrange(from as int, to as int),
        decreases to - from,
    {
        assert(s@.subrange(from as int, to as int).drop_last() =~= s@.subrange(
            from as int, to - 1,
        ));
        to -= 1;
    }
    s.substring_char(from, to)
}

/// The characters of a text.
pub fn char_list(s: &str) -> (r: Vec<char>)
    ensures
        r@ == s@,
{
    let n: usize = s.unicode_len();
    let mut r: Vec<char> = Vec::new();
    let mut i: usize = 0;
    while i < n
        invariant
            i <= n == s@.len(),
            r@ =~= s@.subrange(0, i as int),
        decreases n - i,
    {
        r.push(s.get_char(i));
        i += 1;
    }
    assert(r@ =~= s@);
    r
}

/// Two texts are equal.
pub fn same_text(a: &str, b: &str) -> (r: bool)
    ensures
        r == (a@ == b@),
{
    let n: usize = a.unicode_len();
    if n != b.unicode_len() {
        return false;
    }
    let mut i: usize = 0;
    while i < n
        invariant
            i <= n == a@.len() == b@.len(),
            forall|k: int| 0 <= k < i ==> a@[k] == b@[k],
        decreases n - i,
    {
        if a.get_char(i) != b.get_char(i) {
            assert(a@[i as int] != b@[i as int]);
            return false;
        }
        i += 1;
    }
    assert(a@ =~= b@);
    true
}

/// The value of a digit in a base up to 16; 99 for what is no digit.
pub open spec fn digit_value(c: char) -> int {
    let n = c as u32;
    if 48 <= n <= 57 {
        n - 48
    } else if 97 <= n <= 102 {
        n - 87
    } else if 65 <= n <= 70 {
        n - 55
    } else {
        99
    }
}

fn value_of_digit(c: char) -> (r: u32)
    ensures
        r == digit_value(c),
{
    let n: u32 = c as u32;
    if 48 <= n && n <= 57 {
        n - 48
    } else if 97 <= n && n <= 102 {
        n - 87
    } else if 65 <= n && n <= 70 {
        n - 55
    } else {
        99
    }
}

/// The value of a run of digits.
pub open spec fn digits_value(s: Seq<char>, radix: int) -> int
    decreases s.len(),
{
    if s.len() == 0 { 0 } else { radix * digits_value(s.drop_last(), radix) + digit_value(s.last()) }
}

/// The digits of an unsigned number: a plus sign may stand before them.
pub open spec fn unsigned_digits(s: Seq<char>) -> Seq<char> {
    if s.len() > 1 && s[0] == '+' { s.skip(1) } else { s }
}

/// The number that a text holds, where it is one and at most `max`.
pub open spec fn unsigned_number(s: Seq<char>, radix: int, max: int) -> Option<int> {
    let d = unsigned_digits(s);
    let value = digits_value(d, radix);
    if d.len() > 0 && (forall|i: int| 0 <= i < d.len() ==> digit_value(#[trigger] d[i]) < radix)
        && value <= max {
        Some(value)
    } else {
        None
    }
}

/// More digits never make a number smaller.
proof fn lemma_digits_grow(s: Seq<char>, radix: int, n: int)
    requires
        0 <= n <= s.len(),
        radix >= 1,
    ensures
        0 <= digits_value(s.subrange(0, n), radix) <= digits_value(s, radix),
    decreases s.len(),
{
    if s.len() == n {
        assert(s.subrange(0, n) =~= s);
        lemma_digits_positive(s, radix);
    } else {
        lemma_digits_grow(s.drop_last(), radix, n);
        assert(s.drop_last().subrange(0, n) =~= s.subrange(0, n));
        let v = digits_value(s.drop_last(), radix);
        assert(radix * v >= v) by (nonlinear_arith)
            requires
                radix >= 1,
                v >= 0,
        ;
    }
}

proof fn lemma_digits_positive(s: Seq<char>, radix: int)
    requires
        radix >= 1,
    ensures
        0 <= digits_value(s, radix),
    decreases s.len(),
{
    if s.len() > 0 {
        lemma_digits_positive(s.drop_last(), radix);
        let v = digits_value(s.drop_last(), radix);
        assert(radix * v >= 0) by (nonlinear_arith)
            requires
                radix >= 1,
                v >= 0,
        ;
    }
}

/// Read an unsigned number in a base up to 16.
pub fn parse_unsigned(s: &str, radix: u32, max: u32) -> (r: Option<u32>)
    requires
        2 <= radix <= 16,
    ensures
        unsigned_number(s@, radix as int, max as int) == (match r {
            Some(v) => Some(v as int),
            None => None::<int>,
        }),
{
    let n: usize = s.unicode_len();
    let start: usize = if n > 1 && s.get_char(0) == '+' { 1 } else { 0 };
    let ghost d = unsigned_digits(s@);
    if n == 0 {
        return None;
    }
    let mut value: u64 = 0;
    let mut i: usize = start;
    assert(d.subrange(0, 0) =~= Seq::empty());
    while i < n
        invariant
            n == s@.len(),
            start <= i <= n,
            start == 0 || start == 1,
            d == s@.skip(start as int),
            d == unsigned_digits(s@),
            2 <= radix <= 16,
            value == digits_value(d.subrange(0, i - start), radix as int),
            forall|k: int| 0 <= k < i - start ==> digit_value(#[trigger] d[k]) < radix,
            value <= max,
        decreases n - i,
    {
        let digit: u32 = value_of_digit(s.get_char(i));
        let ghost k = i - start;
        assert(d[k] == s@[i as int]);
        if digit >= radix {
            return None;
        }
        assert(d.subrange(0, k + 1).drop_last() =~= d.subrange(0, k));
        assert(value * radix <= 0xffff_ffff * 16) by (nonlinear_arith)
            requires
                0 <= value <= 0xffff_ffff,
                0 <= radix <= 16,
        ;
        let ghost v0 = value as int;
        value = value * radix as u64 + digit as u64;
        assert(value == radix * v0 + digit) by (nonlinear_arith)
            requires
                value == v0 * radix + digit,
        ;
        assert(value == digits_value(d.subrange(0, k + 1), radix as int));
        if value > max as u64 {
            proof { lemma_digits_grow(d, radix as int, k + 1); }
            return None;
        }
        i += 1;
    }
    assert(d.subrange(0, n - start) =~= d);
    Some(value as u32)
}

} // verus!
