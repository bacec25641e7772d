//! Text helpers: equality and order of strings, decimal numerals, whitespace-separated fields.

use vstd::prelude::*;
use vstd::string::*;
#[allow(unused_imports)]
use vstd::std_specs::iter::IteratorSpec;

use crate::views;

verus! {

/// The decimal digit `d` as a character.
pub open spec fn digit_char(d: int) -> char {
    (48 + d) as char
}

/// The decimal numeral of `n`, without leading zeros.
pub open spec fn decimal(n: nat) -> Seq<char>
    decreases n,
{
    if n < 10 {
        seq![digit_char(n as int)]
    } else {
        decimal(n / 10).push(digit_char((n % 10) as int))
    }
}

/// `a` comes strictly before `b` when the two are compared character by character, a proper
/// prefix coming first.
pub open spec fn text_less(a: Seq<char>, b: Seq<char>) -> bool
    decreases a.len(),
{
    if b.len() == 0 {
        false
    } else if a.len() == 0 {
        true
    } else if a[0] != b[0] {
        (a[0] as int) < (b[0] as int)
    } else {
        text_less(a.drop_first(), b.drop_first())
    }
}

/// No text comes before itself.
pub proof fn lemma_text_less_irreflexive(a: Seq<char>)
    ensures
        !text_less(a, a),
    decreases a.len(),
{
    if a.len() > 0 {
        lemma_text_less_irreflexive(a.drop_first());
    }
}

/// Of two texts at most one comes before the other.
pub proof fn lemma_text_less_asymmetric(a: Seq<char>, b: Seq<char>)
    requires
        text_less(a, b),
    ensures
        !text_less(b, a),
    decreases a.len(),
{
    if a.len() > 0 && b.len() > 0 && a[0] == b[0] {
        lemma_text_less_asymmetric(a.drop_first(), b.drop_first());
    }
}

/// A text no later than one that comes before a third comes before the third too.
pub proof fn lemma_text_less_transitive(a: Seq<char>, b: Seq<char>, c: Seq<char>)
    requires
        !text_less(b, a),
        text_less(b, c),
    ensures
        text_less(a, c),
    decreases a.len(),
{
    if a.len() > 0 && b.len() > 0 && c.len() > 0 && a[0] == b[0] && b[0] == c[0] {
        lemma_text_less_transitive(a.drop_first(), b.drop_first(), c.drop_first());
    }
}

/// Two texts neither of which comes before the other are the same.
pub proof fn lemma_text_order_total(a: Seq<char>, b: Seq<char>)
    requires
        !text_less(a, b),
        !text_less(b, a),
    ensures
        a == b,
    decreases a.len(),
{
    if a.len() > 0 && b.len() > 0 {
        assert(a[0] == b[0]);
        lemma_text_order_total(a.drop_first(), b.drop_first());
        assert(a == seq![a[0]] + a.drop_first());
        assert(b == seq![b[0]] + b.drop_first());
    } else {
        assert(a == b);
    }
}

/// Whether two strings hold the same characters.
pub fn text_eq(a: &str, b: &str) -> (same: bool)
    ensures
        same == (a@ == b@),
{
    let mut left = a.chars();
    let mut right = b.chars();
    assert(a@ == left.remaining() && b@ == right.remaining());
    let ghost mut done: int = 0;
    loop
        invariant
            0 <= done <= a@.len(),
            done <= b@.len(),
            left.obeys_prophetic_iter_laws(),
            right.obeys_prophetic_iter_laws(),
            left.decrease() is Some,
            left.remaining() == a@.skip(done),
            right.remaining() == b@.skip(done),
            a@.take(done) == b@.take(done),
        decreases a@.len() - done,
    {
        let x = left.next();
        let y = right.next();
        match (x, y) {
            (Some(c), Some(d)) => {
                if c != d {
                    assert(a@[done] != b@[done]);
                    return false;
                }
                proof {
                    assert(a@.take(done + 1) == a@.take(done).push(c));
                    assert(b@.take(done + 1) == b@.take(done).push(d));
                    assert(a@.skip(done).drop_first() == a@.skip(done + 1));
                    assert(b@.skip(done).drop_first() == b@.skip(done + 1));
                    done = done + 1;
                }
            },
            (None, None) => {
                assert(a@.take(done) == a@);
                assert(b@.take(done) == b@);
                return true;
            },
            _ => {
                assert(a@.len() != b@.len());
                return false;
            },
        }
    }
}

/// Whether `a` comes strictly before `b` in character order.
pub fn text_before(a: &str, b: &str) -> (before: bool)
    ensures
        before == text_less(a@, b@),
{
    let mut left = a.chars();
    let mut right = b.chars();
    assert(a@ == left.remaining() && b@ == right.remaining());
    let ghost mut done: int = 0;
    assert(a@.skip(0) == a@ && b@.skip(0) == b@);
    loop
        invariant
            0 <= done <= a@.len(),
            done <= b@.len(),
            left.obeys_prophetic_iter_laws(),
            right.obeys_prophetic_iter_laws(),
            left.remaining() == a@.skip(done),
            right.remaining() == b@.skip(done),
            text_less(a@, b@) == text_less(a@.skip(done), b@.skip(done)),
        decreases a@.len() - done,
    {
        let x = left.next();
        let y = right.next();
        match (x, y) {
            (Some(c), Some(d)) => {
                if c != d {
                    return c < d;
                }
                proof {
                    assert(a@.skip(done).drop_first() == a@.skip(done + 1));
                    assert(b@.skip(done).drop_first() == b@.skip(done + 1));
                    done = done + 1;
                }
            },
            (None, Some(_)) => {
                return true;
            },
            _ => {
                return false;
            },
        }
    }
}

/// Whether one of the strings of `list` holds the same characters as `t`.
pub fn contains_text(list: &Vec<String>, t: &str) -> (found: bool)
    ensures
        found == views::view_all(list@).contains(t@),
{
    let mut i: usize = 0;
    while i < list.len()
        invariant
            i <= list.len(),
            forall|j: int| 0 <= j < i ==> #[trigger] list@[j]@ != t@,
        decreases list.len() - i,
    {
        if text_eq(&list[i], t) {
            assert(views::view_all(list@)[i as int] == t@);
            return true;
        }
        i = i + 1;
    }
    proof {
        let all = views::view_all(list@);
        assert forall|j: int| 0 <= j < all.len() implies all[j] != t@ by {
            assert(all[j] == list@[j]@);
        }
    }
    false
}

/// The characters of a string, in order.
pub fn chars_of(s: &str) -> (chars: Vec<char>)
    ensures
        chars@ == s@,
{
    let mut iter = s.chars();
    let mut chars: Vec<char> = Vec::new();
    assert(s@.skip(0) == s@);
    loop
        invariant
            chars@.len() <= s@.len(),
            iter.obeys_prophetic_iter_laws(),
            iter.remaining() == s@.skip(chars@.len() as int),
            chars@ == s@.take(chars@.len() as int),
        decreases s@.len() - chars@.len(),
    {
        match iter.next() {
            Some(c) => {
                proof {
                    let done = chars@.len() as int;
                    assert(s@.skip(done).drop_first() == s@.skip(done + 1));
                    assert(s@.take(done + 1) == s@.take(done).push(c));
                }
                chars.push(c);
            },
            None => {
                return chars;
            },
        }
    }
}

/// `first` followed by `second`.
pub fn joined(first: &str, second: &str) -> (out: String)
    ensures
        out@ == first@ + second@,
{
    let mut out = first.to_string();
    out.append(second);
    out
}

fn digit_text(d: u64) -> (t: &'static str)
    requires
        d < 10,
    ensures
        t@ == seq![digit_char(d as int)],
{
    proof {
        reveal_strlit("0");
        reveal_strlit("1");
        reveal_strlit("2");
        reveal_strlit("3");
        reveal_strlit("4");
        reveal_strlit("5");
        reveal_strlit("6");
        reveal_strlit("7");
        reveal_strlit("8");
        reveal_strlit("9");
    }
    if d == 0 {
        "0"
    } else if d == 1 {
        "1"
    } else if d == 2 {
        "2"
    } else if d == 3 {
        "3"
    } else if d == 4 {
        "4"
    } else if d == 5 {
        "5"
    } else if d == 6 {
        "6"
    } else if d == 7 {
        "7"
    } else if d == 8 {
        "8"
    } else {
        "9"
    }
}

/// Appends the decimal numeral of `n`.
pub fn append_decimal(out: &mut String, n: u64)
    ensures
        final(out)@ == old(out)@ + decimal(n as nat),
    decreases n,
{
    if n >= 10 {
        append_decimal(out, n / 10);
    }
    let ghost mid = out@;
    out.append(digit_text(n % 10));
    assert(out@ == old(out)@ + decimal(n as nat)) by {
        if n >= 10 {
            assert(mid == old(out)@ + decimal((n / 10) as nat));
        }
    }
}

/// Whether `c` has the Unicode property `White_Space`.
pub open spec fn is_space(c: char) -> bool {
    let u = c as u32;
    ||| 0x09 <= u <= 0x0d
    ||| u == 0x20
    ||| u == 0x85
    ||| u == 0xa0
    ||| u == 0x1680
    ||| 0x2000 <= u <= 0x200a
    ||| u == 0x2028
    ||| u == 0x2029
    ||| u == 0x202f
    ||| u == 0x205f
    ||| u == 0x3000
}

/// What is left of `s` once its leading whitespace is gone.
pub open spec fn skip_spaces(s: Seq<char>) -> Seq<char>
    decreases s.len(),
{
    if s.len() > 0 && is_space(s[0]) {
        skip_spaces(s.drop_first())
    } else {
        s
    }
}

/// The number of characters of `s` before its first whitespace.
pub open spec fn word_len(s: Seq<char>) -> nat
    decreases s.len(),
{
    if s.len() > 0 && !is_space(s[0]) {
        1 + word_len(s.drop_first())
    } else {
        0
    }
}

/// The `n`th (from 0) of the whitespace-separated fields of `s`, if there are that many.
pub open spec fn field(s: Seq<char>, n: nat) -> Option<Seq<char>>
    decreases n,
{
    let t = skip_spaces(s);
    if t.len() == 0 {
        None
    } else if n == 0 {
        Some(t.take(word_len(t) as int))
    } else {
        field(t.skip(word_len(t) as int), (n - 1) as nat)
    }
}

/// The value of a run of decimal digits.
pub open spec fn digits_value(s: Seq<char>) -> nat
    decreases s.len(),
{
    if s.len() == 0 {
        0
    } else {
        digits_value(s.drop_last()) * 10 + (s.last() as u32 - 48) as nat
    }
}

pub open spec fn is_digit(c: char) -> bool {
    48 <= c as u32 <= 57
}

pub open spec fn all_digits(s: Seq<char>) -> bool {
    forall|i: int| 0 <= i < s.len() ==> is_digit(#[trigger] s[i])
}

/// The digits of an unsigned numeral: what follows an optional `+`.
pub open spec fn numeral_digits(s: Seq<char>) -> Seq<char> {
    if s.len() > 1 && s[0] == '+' {
        s.drop_first()
    } else {
        s
    }
}

/// The unsigned 64-bit number that `s` writes in decimal, with an optional `+` in front.
pub open spec fn parsed_u64(s: Seq<char>) -> Option<u64> {
    let d = numeral_digits(s);
    if d.len() > 0 && all_digits(d) && digits_value(d) <= u64::MAX {
        Some(digits_value(d) as u64)
    } else {
        None
    }
}

fn is_space_char(c: char) -> (space: bool)
    ensures
        space == is_space(c),
{
    let u: u32 = c as u32;
    (0x09 <= u && u <= 0x0d) || u == 0x20 || u == 0x85 || u == 0xa0 || u == 0x1680 || (0x2000 <= u
        && u <= 0x200a) || u == 0x2028 || u == 0x2029 || u == 0x202f || u == 0x205f || u == 0x3000
}

/// The index at which the leading whitespace of `chars[from..]` ends.
fn spaces_end(chars: &Vec<char>, from: usize) -> (end: usize)
    requires
        from <= chars.len(),
    ensures
        from <= end <= chars.len(),
        chars@.skip(end as int) == skip_spaces(chars@.skip(from as int)),
{
    let mut at: usize = from;
    while at < chars.len() && is_space_char(chars[at])
        invariant
            from <= at <= chars.len(),
            skip_spaces(chars@.skip(at as int)) == skip_spaces(chars@.skip(from as int)),
        decreases chars.len() - at,
    {
        assert(chars@.skip(at as int).drop_first() == chars@.skip(at + 1));
        at = at + 1;
    }
    at
}

/// The index at which the word that starts at `from` ends.
fn word_end(chars: &Vec<char>, from: usize) -> (end: usize)
    requires
        from <= chars.len(),
    ensures
        from <= end <= chars.len(),
        end == from + word_len(chars@.skip(from as int)),
{
    let mut at: usize = from;
    while at < chars.len() && !is_space_char(chars[at])
        invariant
            from <= at <= chars.len(),
            word_len(chars@.skip(from as int)) == at - from + word_len(chars@.skip(at as int)),
        decreases chars.len() - at,
    {
        assert(chars@.skip(at as int).drop_first() == chars@.skip(at + 1));
        at = at + 1;
    }
    at
}

proof fn lemma_digits_value_prefix(s: Seq<char>, n: int)
    requires
        0 <= n <= s.len(),
    ensures
        digits_value(s.take(n)) <= digits_value(s),
    decreases s.len(),
{
    if n < s.len() {
        lemma_digits_value_prefix(s.drop_last(), n);
        assert(s.drop_last().take(n) == s.take(n));
    } else {
        assert(s.take(n) == s);
    }
}

fn digit_of(c: char) -> (digit: Option<u64>)
    ensures
        digit == (if is_digit(c) {
            Some((c as u32 - 48) as u64)
        } else {
            None
        }),
{
    let u: u32 = c as u32;
    if 48 <= u && u <= 57 {
        Some((u - 48) as u64)
    } else {
        None
    }
}

/// The number written by `chars[from..to]`.
fn parse_u64_at(chars: &Vec<char>, from: usize, to: usize) -> (number: Option<u64>)
    requires
        from <= to <= chars.len(),
    ensures
        number == parsed_u64(chars@.subrange(from as int, to as int)),
{
    let ghost word = chars@.subrange(from as int, to as int);
    let ghost digits = numeral_digits(word);
    let mut at: usize = from;
    if to - from > 1 && chars[from] == '+' {
        at = from + 1;
    }
    if at == to {
        return None;
    }
    let start: usize = at;
    assert(digits == chars@.subrange(start as int, to as int));
    let mut value: u64 = 0;
    assert(digits.take(0) == Seq::<char>::empty());
    while at < to
        invariant
            start <= at <= to <= chars.len(),
            start < to,
            digits == chars@.subrange(start as int, to as int),
            digits == numeral_digits(word),
            word == chars@.subrange(from as int, to as int),
            forall|i: int| 0 <= i < at - start ==> is_digit(#[trigger] digits[i]),
            value == digits_value(digits.take(at - start)),
        decreases to - at,
    {
        let d: u64 = match digit_of(chars[at]) {
            Some(d) => d,
            None => {
                assert(!is_digit(digits[at - start]));
                return None;
            },
        };
        let ghost next = digits.take(at - start + 1);
        proof {
            assert(next.drop_last() == digits.take(at - start));
            assert(next.last() == digits[at - start]);
            assert(digits_value(next) == value * 10 + d);
            lemma_digits_value_prefix(digits, at - start + 1);
        }
        match value.checked_mul(10) {
            Some(tens) => match tens.checked_add(d) {
                Some(sum) => {
                    value = sum;
                },
                None => {
                    return None;
                },
            },
            None => {
                return None;
            },
        }
        at = at + 1;
    }
    assert(digits.take(at - start) == digits);
    Some(value)
}

/// The second whitespace-separated field of `s`, read as an unsigned number.
pub fn second_field_u64(s: &str) -> (number: Option<u64>)
    ensures
        number == (match field(s@, 1) {
            Some(word) => parsed_u64(word),
            None => None,
        }),
{
    let chars = chars_of(s);
    proof {
        reveal_with_fuel(field, 2);
        assert(chars@.skip(0) == chars@);
    }
    let first = spaces_end(&chars, 0);
    if first == chars.len() {
        return None;
    }
    let gap = word_end(&chars, first);
    proof {
        assert(chars@.skip(first as int).skip(gap - first) == chars@.skip(gap as int));
    }
    let second = spaces_end(&chars, gap);
    if second == chars.len() {
        return None;
    }
    let end = word_end(&chars, second);
    proof {
        assert(chars@.skip(second as int).take(end - second) == chars@.subrange(
            second as int,
            end as int,
        ));
    }
    parse_u64_at(&chars, second, end)
}

/// What two texts begin with alike does not matter to their order.
pub proof fn lemma_text_less_after_common_beginning(p: Seq<char>, a: Seq<char>, b: Seq<char>)
    ensures
        text_less(p + a, p + b) == text_less(a, b),
    decreases p.len(),
{
    if p.len() == 0 {
        assert(p + a == a && p + b == b);
    } else {
        let q = p.drop_first();
        lemma_text_less_after_common_beginning(q, a, b);
        assert((p + a).drop_first() == q + a);
        assert((p + b).drop_first() == q + b);
        assert((p + a)[0] == p[0] && (p + b)[0] == p[0]);
    }
}

/// The first character in which two texts differ decides their order: the smaller one comes
/// first.
pub proof fn lemma_text_less_by_first_difference(a: Seq<char>, b: Seq<char>, i: int)
    requires
        0 <= i < a.len(),
        i < b.len(),
        forall|j: int| 0 <= j < i ==> a[j] == b[j],
        a[i] != b[i],
    ensures
        text_less(a, b) <==> (a[i] as int) < (b[i] as int),
{
    let p = a.take(i);
    let x = a.skip(i);
    let y = b.skip(i);
    assert(a == p + x);
    assert(b == p + y);
    lemma_text_less_after_common_beginning(p, x, y);
    assert(x[0] == a[i] && y[0] == b[i]);
}

/// A text comes before every longer one that begins with it, and never after it.
pub proof fn lemma_text_less_of_beginning(a: Seq<char>, b: Seq<char>)
    ensures
        text_less(a, a + b) <==> b.len() > 0,
        !text_less(a + b, a),
{
    let none = Seq::<char>::empty();
    lemma_text_less_after_common_beginning(a, none, b);
    lemma_text_less_after_common_beginning(a, b, none);
    assert(a + none == a);
}

/// The numeral of a number below ten is its digit.
pub proof fn lemma_decimal_of_digit(d: nat)
    requires
        d < 10,
    ensures
        decimal(d) == seq![('0' as int + d) as char],
{
}

/// The numeral of ten times a number plus a digit is the numeral of the number, then the digit.
pub proof fn lemma_decimal_appends_digits(n: nat, d: nat)
    requires
        n > 0,
        d < 10,
    ensures
        decimal(10 * n + d) == decimal(n) + decimal(d),
{
    assert((10 * n + d) / 10 == n && (10 * n + d) % 10 == d);
    assert(decimal(n).push(digit_char(d as int)) == decimal(n) + decimal(d));
}

proof fn lemma_decimal_reads_back(n: nat)
    ensures
        all_digits(decimal(n)),
        decimal(n).len() > 0,
        digits_value(decimal(n)) == n,
    decreases n,
{
    let d = (n % 10) as int;
    let c = digit_char(d);
    assert(c as u32 == 48 + d);
    if n < 10 {
        assert(decimal(n).drop_last() == Seq::<char>::empty());
        assert(digits_value(Seq::<char>::empty()) == 0);
    } else {
        lemma_decimal_reads_back(n / 10);
        assert(decimal(n).drop_last() == decimal(n / 10));
        assert forall|i: int| 0 <= i < decimal(n).len() implies is_digit(
            #[trigger] decimal(n)[i],
        ) by {
            if i < decimal(n / 10).len() {
                assert(is_digit(decimal(n / 10)[i]));
            }
        }
    }
}

/// The numeral of a number, with or without a `+` in front, is read as that number where it fits,
/// and refused where it does not.
pub proof fn lemma_numerals_are_read(n: nat)
    ensures
        n <= u64::MAX ==> parsed_u64(decimal(n)) == Some(n as u64),
        n <= u64::MAX ==> parsed_u64(seq!['+'] + decimal(n)) == Some(n as u64),
        n > u64::MAX ==> parsed_u64(decimal(n)) is None,
        n > u64::MAX ==> parsed_u64(seq!['+'] + decimal(n)) is None,
{
    lemma_decimal_reads_back(n);
    let t = decimal(n);
    assert(is_digit(t[0]));
    assert(t[0] != '+');
    assert((seq!['+'] + t).drop_first() == t);
}

proof fn lemma_digits_value_of_leading_zero(s: Seq<char>)
    ensures
        digits_value(seq!['0'] + s) == digits_value(s),
    decreases s.len(),
{
    let t = seq!['0'] + s;
    if s.len() == 0 {
        assert(t.drop_last() == s);
        assert(t.last() as u32 == 48);
    } else {
        lemma_digits_value_of_leading_zero(s.drop_last());
        assert(t.drop_last() == seq!['0'] + s.drop_last());
    }
}

/// A leading zero does not change what a numeral is read as.
pub proof fn lemma_leading_zero_is_read_over(s: Seq<char>)
    requires
        s.len() > 0,
        forall|i: int| 0 <= i < s.len() ==> '0' as int <= #[trigger] s[i] as int <= '9' as int,
    ensures
        parsed_u64(seq!['0'] + s) == parsed_u64(s),
{
    let t = seq!['0'] + s;
    lemma_digits_value_of_leading_zero(s);
    lemma_digits('0');
    assert forall|i: int| 0 <= i < s.len() implies is_digit(#[trigger] s[i]) by {
        lemma_digits(s[i]);
    }
    assert forall|i: int| 0 <= i < t.len() implies is_digit(#[trigger] t[i]) by {
        if i > 0 {
            assert(t[i] == s[i - 1]);
        }
    }
    assert(s[0] != '+' && t[0] != '+');
}

/// The digits are the characters from `0` to `9`.
pub proof fn lemma_digits(c: char)
    ensures
        is_digit(c) <==> '0' as int <= c as int <= '9' as int,
{
}

/// No other character is read: an empty text, a lone `+`, and a text with anything but digits
/// after an optional `+` are refused.
pub proof fn lemma_other_texts_are_not_read(s: Seq<char>, i: int)
    ensures
        s.len() == 0 ==> parsed_u64(s) is None,
        0 <= i < s.len() && !('0' as int <= s[i] as int <= '9' as int) && (i > 0 || s[i] != '+'
            || s.len() == 1) ==> parsed_u64(s) is None,
{
    let d = numeral_digits(s);
    if 0 <= i < s.len() && !('0' as int <= s[i] as int <= '9' as int) && (i > 0 || s[i] != '+'
        || s.len() == 1) {
        lemma_digits(s[i]);
        if s.len() > 1 && s[0] == '+' {
            assert(d[i - 1] == s[i]);
        } else {
            assert(d[i] == s[i]);
        }
    }
}

/// The characters that separate fields: those with the Unicode property `White_Space`.
pub proof fn lemma_separators(c: char)
    ensures
        is_space(c) <==> {
            ||| c == ' ' || '\t' as int <= c as int <= '\r' as int
            ||| c == '\u{85}' || c == '\u{a0}' || c == '\u{1680}'
            ||| '\u{2000}' as int <= c as int <= '\u{200a}' as int
            ||| c == '\u{2028}' || c == '\u{2029}' || c == '\u{202f}'
            ||| c == '\u{205f}' || c == '\u{3000}'
        },
{
}

proof fn lemma_skip_spaces_over(lead: Seq<char>, rest: Seq<char>)
    requires
        forall|i: int| 0 <= i < lead.len() ==> is_space(#[trigger] lead[i]),
        rest.len() == 0 || !is_space(rest[0]),
    ensures
        skip_spaces(lead + rest) == rest,
    decreases lead.len(),
{
    if lead.len() == 0 {
        assert(lead + rest == rest);
    } else {
        let tail = lead.drop_first();
        assert forall|i: int| 0 <= i < tail.len() implies is_space(#[trigger] tail[i]) by {
            assert(tail[i] == lead[i + 1]);
        }
        lemma_skip_spaces_over(tail, rest);
        assert(is_space(lead[0]));
        assert((lead + rest).drop_first() == tail + rest);
    }
}

proof fn lemma_word_len_of(word: Seq<char>, rest: Seq<char>)
    requires
        forall|i: int| 0 <= i < word.len() ==> !is_space(#[trigger] word[i]),
        rest.len() == 0 || is_space(rest[0]),
    ensures
        word_len(word + rest) == word.len(),
    decreases word.len(),
{
    if word.len() == 0 {
        assert(word + rest == rest);
    } else {
        let tail = word.drop_first();
        assert forall|i: int| 0 <= i < tail.len() implies !is_space(#[trigger] tail[i]) by {
            assert(tail[i] == word[i + 1]);
        }
        lemma_word_len_of(tail, rest);
        assert(!is_space(word[0]));
        assert((word + rest).drop_first() == tail + rest);
    }
}

/// The fields of a text are its words: what stands between runs of separators, in order, and
/// there are no others.
pub proof fn lemma_fields_are_the_words(
    lead: Seq<char>,
    word: Seq<char>,
    rest: Seq<char>,
    n: nat,
)
    requires
        forall|i: int| 0 <= i < lead.len() ==> is_space(#[trigger] lead[i]),
        forall|i: int| 0 <= i < word.len() ==> !is_space(#[trigger] word[i]),
        rest.len() == 0 || is_space(rest[0]),
        word.len() == 0 ==> rest.len() == 0,
    ensures
        word.len() > 0 ==> field(lead + word + rest, 0) == Some(word),
        word.len() > 0 ==> field(lead + word + rest, n + 1) == field(rest, n),
        word.len() == 0 ==> field(lead + word + rest, n) is None,
{
    let s = lead + word + rest;
    let t = word + rest;
    assert(s == lead + t);
    if word.len() > 0 {
        assert(!is_space(word[0]));
        assert(t[0] == word[0]);
        lemma_skip_spaces_over(lead, t);
        lemma_word_len_of(word, rest);
        assert(t.take(word.len() as int) == word);
        assert(t.skip(word.len() as int) == rest);
    } else {
        assert(t == rest);
        lemma_skip_spaces_over(lead, t);
    }
}

/// A `+` in front of digits does not change what they are read as.
pub proof fn lemma_plus_is_read_over(s: Seq<char>)
    requires
        s.len() > 0,
        forall|i: int| 0 <= i < s.len() ==> '0' as int <= #[trigger] s[i] as int <= '9' as int,
    ensures
        parsed_u64(seq!['+'] + s) == parsed_u64(s),
{
    assert('0' as int <= s[0] as int <= '9' as int);
    assert(s[0] != '+');
    assert((seq!['+'] + s).drop_first() == s);
}

} // verus!
