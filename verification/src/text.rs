//! Text helpers: strings as sequences of characters.

use crate::bytes::bytes_eq;
use vstd::prelude::*;
use vstd::utf8::*;

verus! {

/// `String::push`: appends one character to the end of the string.
pub assume_specification[ String::push ](s: &mut String, c: char)
    ensures
        final(s)@ == old(s)@.push(c),
;

/// `std::str::from_utf8`: the text that the bytes encode, or nothing when they
/// are not valid UTF-8.
#[verifier::external_body]
pub(crate) fn str_from_utf8<'a>(bytes: &'a [u8]) -> (r: Option<&'a str>)
    ensures
        match r {
            Some(s) => valid_utf8(bytes@) && s@ == decode_utf8(bytes@),
            None => !valid_utf8(bytes@),
        },
{
    std::str::from_utf8(bytes).ok()
}

/// The characters of `s`, in order.
pub fn chars_of(s: &str) -> (v: Vec<char>)
    ensures
        v@ == s@,
{
    let mut v: Vec<char> = Vec::new();
    for c in it: s.chars()
        invariant
            v@ == s@.take(it.index()),
            it.seq() == s@,
    {
        v.push(c);
        assert(s@.take(it.index() + 1) =~= s@.take(it.index()).push(c));
    }
    assert(s@.take(s@.len() as int) =~= s@);
    v
}

/// The string made of the characters `chars[from..to]`.
pub fn string_of(chars: &[char], from: usize, to: usize) -> (s: String)
    requires
        from <= to <= chars@.len(),
    ensures
        s@ == chars@.subrange(from as int, to as int),
{
    let mut s = String::new();
    let mut i: usize = from;
    while i < to
        invariant
            from <= i <= to <= chars@.len(),
            s@ == chars@.subrange(from as int, i as int),
        decreases to - i,
    {
        s.push(chars[i]);
        i += 1;
        assert(chars@.subrange(from as int, i as int) =~= chars@.subrange(
            from as int,
            i - 1,
        ).push(chars@[i - 1]));
    }
    s
}

/// Two equal UTF-8 encodings stand for the same characters.
pub proof fn lemma_encode_utf8_injective(a: Seq<char>, b: Seq<char>)
    requires
        encode_utf8(a) == encode_utf8(b),
    ensures
        a == b,
{
    encode_utf8_decode_utf8(a);
    encode_utf8_decode_utf8(b);
}

/// Whether two string slices hold the same text.
pub fn str_eq(a: &str, b: &str) -> (r: bool)
    ensures
        r == (a@ == b@),
{
    let r = bytes_eq(a.as_bytes(), b.as_bytes());
    proof {
        if r {
            lemma_encode_utf8_injective(a@, b@);
        }
    }
    r
}

/// The part of `s` in front of the first `c`; all of it where there is none.
pub open spec fn before_char(s: Seq<char>, c: char) -> Seq<char>
    decreases s.len(),
{
    if s.len() == 0 || s[0] == c {
        seq![]
    } else {
        seq![s[0]] + before_char(s.skip(1), c)
    }
}

/// Where the first `c` at `from` or later stands; the end where there is none.
pub fn find_char(chars: &[char], from: usize, c: char) -> (r: usize)
    requires
        from <= chars@.len(),
    ensures
        from <= r <= chars@.len(),
        before_char(chars@.skip(from as int), c) == chars@.subrange(from as int, r as int),
        r < chars@.len() ==> chars@[r as int] == c,
        forall|k: int| from <= k < r ==> chars@[k] != c,
{
    let mut i: usize = from;
    while i < chars.len() && chars[i] != c
        invariant
            from <= i <= chars@.len(),
            forall|k: int| from <= k < i ==> chars@[k] != c,
        decreases chars@.len() - i,
    {
        i += 1;
    }
    proof {
        lemma_before_char(chars@.skip(from as int), c, i - from);
        assert(chars@.skip(from as int).take(i - from) =~= chars@.subrange(from as int, i as int));
    }
    i
}

/// `before_char` ends at the first `c`.
pub proof fn lemma_before_char(s: Seq<char>, c: char, n: int)
    requires
        0 <= n <= s.len(),
        forall|k: int| 0 <= k < n ==> s[k] != c,
        n < s.len() ==> s[n] == c,
    ensures
        before_char(s, c) == s.take(n),
    decreases n,
{
    if n > 0 {
        lemma_before_char(s.skip(1), c, n - 1);
        assert(seq![s[0]] + s.skip(1).take(n - 1) =~= s.take(n));
    } else {
        assert(s.take(0) =~= seq![]);
    }
}

/// The part in front of a character is the longest that does not hold it.
pub proof fn lemma_before_char_cut(s: Seq<char>, c: char)
    ensures
        before_char(s, c).is_prefix_of(s),
        !before_char(s, c).contains(c),
        before_char(s, c).len() < s.len() ==> s[before_char(s, c).len() as int] == c,
    decreases s.len(),
{
    let cut = before_char(s, c);
    if s.len() == 0 || s[0] == c {
        assert(cut =~= s.take(0));
    } else {
        let rest = before_char(s.skip(1), c);
        lemma_before_char_cut(s.skip(1), c);
        assert(rest =~= s.skip(1).take(rest.len() as int));
        assert forall|k: int| 0 <= k < rest.len() implies rest[k] == s[k + 1] by {
            assert(rest[k] == s.skip(1).take(rest.len() as int)[k]);
        }
        assert(cut =~= s.take(cut.len() as int));
        assert forall|k: int| 0 <= k < cut.len() implies cut[k] != c by {
            if k > 0 {
                assert(cut[k] == rest[k - 1]);
                assert(rest.contains(rest[k - 1]));
            }
        }
    }
}

/// Whether `chars[from..]` starts with `prefix`.
pub fn starts_with_at(chars: &[char], from: usize, prefix: &[char]) -> (r: bool)
    requires
        from <= chars@.len(),
    ensures
        r == prefix@.is_prefix_of(chars@.skip(from as int)),
{
    let rest: usize = chars.len() - from;
    if rest < prefix.len() {
        return false;
    }
    let mut i: usize = 0;
    while i < prefix.len()
        invariant
            i <= prefix@.len() <= chars@.len() - from,
            from <= chars@.len() == chars.len(),
            forall|k: int| 0 <= k < i ==> chars@[from + k] == prefix@[k],
        decreases prefix@.len() - i,
    {
        if chars[from + i] != prefix[i] {
            proof {
                let tail = chars@.skip(from as int);
                assert(tail.subrange(0, prefix@.len() as int)[i as int] == chars@[from + i]);
            }
            return false;
        }
        i += 1;
    }
    assert(chars@.skip(from as int).subrange(0, prefix@.len() as int) =~= prefix@);
    true
}

/// The digit for `d`, below sixteen, in lower case.
pub open spec fn digit(d: int) -> char {
    if d < 10 {
        (48 + d) as char
    } else {
        (87 + d) as char
    }
}

fn digit_char(d: u8) -> (r: char)
    requires
        d < 16,
    ensures
        r == digit(d as int),
{
    if d < 10 {
        (48 + d) as char
    } else {
        (87 + d) as char
    }
}

/// `n` in decimal, without leading zeros.
pub open spec fn decimal(n: nat) -> Seq<char>
    decreases n,
{
    if n < 10 {
        seq![digit(n as int)]
    } else {
        decimal(n / 10).push(digit(n as int % 10))
    }
}

/// Appends `n` in decimal.
pub fn push_decimal(s: &mut String, n: u64)
    ensures
        final(s)@ == old(s)@ + decimal(n as nat),
    decreases n,
{
    let ghost before = s@;
    if n >= 10 {
        push_decimal(s, n / 10);
    }
    s.push(digit_char((n % 10) as u8));
    assert(s@ =~= before + decimal(n as nat));
}

/// A number below `10^digits` has at most that many digits.
pub proof fn lemma_decimal_length(n: nat, digits: nat)
    requires
        digits > 0,
        n < vstd::arithmetic::power::pow(10, digits),
    ensures
        1 <= decimal(n).len() <= digits,
    decreases digits,
{
    reveal_with_fuel(vstd::arithmetic::power::pow, 2);
    if n >= 10 {
        assert(digits > 1);
        lemma_decimal_length(n / 10, (digits - 1) as nat);
    }
}

/// A 64-bit number has at most 20 digits.
pub proof fn lemma_decimal_short(n: nat)
    requires
        n <= u64::MAX,
    ensures
        1 <= decimal(n).len() <= 20,
{
    assert(vstd::arithmetic::power::pow(10, 20) == 100_000_000_000_000_000_000) by {
        reveal_with_fuel(vstd::arithmetic::power::pow, 21);
    }
    lemma_decimal_length(n, 20);
}

/// `i` in decimal, with a minus sign where it is negative.
pub open spec fn signed_decimal(i: int) -> Seq<char> {
    if i < 0 {
        seq!['-'] + decimal((-i) as nat)
    } else {
        decimal(i as nat)
    }
}

/// Appends `i` in decimal.
pub fn push_signed(s: &mut String, i: i32)
    ensures
        final(s)@ == old(s)@ + signed_decimal(i as int),
{
    let ghost before = s@;
    if i < 0 {
        s.push('-');
        push_decimal(s, (-(i as i64)) as u64);
        assert(s@ =~= before + signed_decimal(i as int));
    } else {
        push_decimal(s, i as u64);
    }
}

/// `b` as two hexadecimal digits.
pub open spec fn hex_byte(b: u8) -> Seq<char> {
    seq![digit(b as int / 16), digit(b as int % 16)]
}

/// Appends `b` as two hexadecimal digits.
pub fn push_hex_byte(s: &mut String, b: u8)
    ensures
        final(s)@ == old(s)@ + hex_byte(b),
{
    let ghost before = s@;
    s.push(digit_char(b / 16));
    s.push(digit_char(b % 16));
    assert(s@ =~= before + hex_byte(b));
}

/// The texts of a list of strings.
pub open spec fn texts(list: Seq<String>) -> Seq<Seq<char>> {
    list.map_values(|s: String| s@)
}

/// Appends a copy of `s` to a list.
pub fn push_text(list: &mut Vec<String>, s: &str)
    ensures
        texts(final(list)@) == texts(old(list)@).push(s@),
{
    let ghost before = list@;
    list.push(s.to_owned());
    assert(texts(list@) =~= texts(before).push(s@));
}

/// The part of `s` in front of the first `pat`; all of it where there is none.
pub open spec fn before_text(s: Seq<char>, pat: Seq<char>) -> Seq<char>
    decreases s.len(),
{
    if s.len() == 0 || pat.is_prefix_of(s) {
        seq![]
    } else {
        seq![s[0]] + before_text(s.skip(1), pat)
    }
}

/// Where the first `pat` stands; the end where there is none.
pub fn find_text(chars: &[char], pat: &[char]) -> (r: usize)
    ensures
        r <= chars@.len(),
        before_text(chars@, pat@) == chars@.take(r as int),
{
    let mut i: usize = 0;
    assert(chars@.skip(0) =~= chars@);
    assert(chars@.take(0) + before_text(chars@, pat@) =~= before_text(chars@, pat@));
    while i < chars.len()
        invariant
            i <= chars@.len(),
            before_text(chars@, pat@) == chars@.take(i as int) + before_text(
                chars@.skip(i as int),
                pat@,
            ),
        decreases chars@.len() - i,
    {
        let ghost rest = chars@.skip(i as int);
        if starts_with_at(chars, i, pat) {
            assert(chars@.take(i as int) + Seq::<char>::empty() =~= chars@.take(i as int));
            return i;
        }
        proof {
            assert(rest.skip(1) =~= chars@.skip(i + 1));
            assert(chars@.take(i as int) + (seq![rest[0]] + before_text(rest.skip(1), pat@))
                =~= chars@.take(i + 1) + before_text(rest.skip(1), pat@));
        }
        i += 1;
    }
    assert(chars@.take(i as int) + Seq::<char>::empty() =~= chars@.take(i as int));
    i
}

/// The characters that Unicode counts as white space.
pub open spec fn is_white_space(c: char) -> bool {
    ||| '\u{9}' <= c <= '\u{d}'
    ||| c == ' '
    ||| c == '\u{85}'
    ||| c == '\u{a0}'
    ||| c == '\u{1680}'
    ||| '\u{2000}' <= c <= '\u{200a}'
    ||| c == '\u{2028}'
    ||| c == '\u{2029}'
    ||| c == '\u{202f}'
    ||| c == '\u{205f}'
    ||| c == '\u{3000}'
}

/// Whether `c` is white space.
pub fn white_space(c: char) -> (r: bool)
    ensures
        r == is_white_space(c),
{
    ('\u{9}' <= c && c <= '\u{d}') || c == ' ' || c == '\u{85}' || c == '\u{a0}' || c
        == '\u{1680}' || ('\u{2000}' <= c && c <= '\u{200a}') || c == '\u{2028}' || c
        == '\u{2029}' || c == '\u{202f}' || c == '\u{205f}' || c == '\u{3000}'
}

/// `s` without white space in front.
pub open spec fn trim_start(s: Seq<char>) -> Seq<char>
    decreases s.len(),
{
    if s.len() > 0 && is_white_space(s[0]) {
        trim_start(s.skip(1))
    } else {
        s
    }
}

/// `s` without white space behind.
pub open spec fn trim_end(s: Seq<char>) -> Seq<char>
    decreases s.len(),
{
    if s.len() > 0 && is_white_space(s.last()) {
        trim_end(s.drop_last())
    } else {
        s
    }
}

/// `s` without white space around it.
pub open spec fn trimmed(s: Seq<char>) -> Seq<char> {
    trim_end(trim_start(s))
}

/// The bounds of `chars[0..end]` without white space around it.
pub fn trim_bounds(chars: &[char], end: usize) -> (r: (usize, usize))
    requires
        end <= chars@.len(),
    ensures
        r.0 <= r.1 <= end,
        trimmed(chars@.take(end as int)) == chars@.subrange(r.0 as int, r.1 as int),
{
    let ghost s = chars@.take(end as int);
    let mut from: usize = 0;
    assert(s.skip(0) =~= s);
    while from < end && white_space(chars[from])
        invariant
            from <= end <= chars@.len(),
            s == chars@.take(end as int),
            trim_start(s) == trim_start(s.skip(from as int)),
        decreases end - from,
    {
        assert(s.skip(from as int)[0] == chars@[from as int]);
        assert(s.skip(from as int).skip(1) =~= s.skip(from + 1));
        from += 1;
    }
    proof {
        if from < end {
            assert(s.skip(from as int)[0] == chars@[from as int]);
        }
    }
    let ghost t = s.skip(from as int);
    let mut to: usize = end;
    assert(t =~= chars@.subrange(from as int, to as int));
    while to > from && white_space(chars[to - 1])
        invariant
            from <= to <= end <= chars@.len(),
            trim_end(t) == trim_end(chars@.subrange(from as int, to as int)),
        decreases to - from,
    {
        assert(chars@.subrange(from as int, to as int).last() == chars@[to - 1]);
        assert(chars@.subrange(from as int, to as int).drop_last() =~= chars@.subrange(
            from as int,
            to - 1,
        ));
        to -= 1;
    }
    proof {
        if to > from {
            assert(chars@.subrange(from as int, to as int).last() == chars@[to - 1]);
        }
    }
    (from, to)
}

/// `s` without `prefix` in front of it; `s` where it does not start with it.
pub open spec fn without_prefix(s: Seq<char>, prefix: Seq<char>) -> Seq<char> {
    if prefix.is_prefix_of(s) {
        s.skip(prefix.len() as int)
    } else {
        s
    }
}

/// The part in front of a text ends at the first place where the text stands, or
/// at the end.
pub proof fn lemma_before_text_cut(s: Seq<char>, pat: Seq<char>)
    ensures
        before_text(s, pat) == s.take(before_text(s, pat).len() as int),
        before_text(s, pat).len() <= s.len(),
        before_text(s, pat).len() < s.len() ==> pat.is_prefix_of(
            s.skip(before_text(s, pat).len() as int),
        ),
        forall|k: int|
            0 <= k < before_text(s, pat).len() ==> !pat.is_prefix_of(#[trigger] s.skip(k)),
    decreases s.len(),
{
    let cut = before_text(s, pat);
    if s.len() == 0 || pat.is_prefix_of(s) {
        assert(cut =~= s.take(0));
        assert(s.skip(0) =~= s);
    } else {
        let rest = s.skip(1);
        lemma_before_text_cut(rest, pat);
        let less = before_text(rest, pat);
        assert(cut =~= s.take(cut.len() as int)) by {
            assert forall|i: int| 0 <= i < cut.len() implies cut[i] == s[i] by {
                if i > 0 {
                    assert(cut[i] == less[i - 1]);
                    assert(rest.take(less.len() as int)[i - 1] == s[i]);
                }
            }
        }
        assert(s.skip(cut.len() as int) =~= rest.skip(less.len() as int));
        assert forall|k: int| 0 <= k < cut.len() implies !pat.is_prefix_of(#[trigger] s.skip(k)) by {
            if k > 0 {
                assert(s.skip(k) =~= rest.skip(k - 1));
            } else {
                assert(s.skip(0) =~= s);
            }
        }
    }
}

/// A trimmed text is what is left between the white space at the two ends.
pub proof fn lemma_trimmed_cut(s: Seq<char>) -> (cut: (int, int))
    ensures
        0 <= cut.0 <= cut.1 <= s.len(),
        trimmed(s) == s.subrange(cut.0, cut.1),
        forall|i: int| 0 <= i < cut.0 || cut.1 <= i < s.len() ==> is_white_space(#[trigger] s[i]),
        cut.0 < cut.1 ==> !is_white_space(s[cut.0]) && !is_white_space(s[cut.1 - 1]),
{
    let from = lemma_trim_start_cut(s);
    let rest = s.skip(from);
    let to = lemma_trim_end_cut(rest);
    assert(rest.take(to) =~= s.subrange(from, from + to));
    assert forall|i: int| 0 <= i < from || from + to <= i < s.len() implies is_white_space(
        #[trigger] s[i],
    ) by {
        if i >= from {
            assert(rest[i - from] == s[i]);
        }
    }
    if to > 0 {
        assert(rest[0] == s[from]);
        assert(rest[to - 1] == s[from + to - 1]);
    }
    (from, from + to)
}

proof fn lemma_trim_start_cut(s: Seq<char>) -> (n: int)
    ensures
        0 <= n <= s.len(),
        trim_start(s) == s.skip(n),
        forall|i: int| 0 <= i < n ==> is_white_space(#[trigger] s[i]),
        n < s.len() ==> !is_white_space(s[n]),
    decreases s.len(),
{
    if s.len() > 0 && is_white_space(s[0]) {
        let n = lemma_trim_start_cut(s.skip(1));
        assert(s.skip(1).skip(n) =~= s.skip(n + 1));
        assert forall|i: int| 0 <= i < n + 1 implies is_white_space(#[trigger] s[i]) by {
            if i > 0 {
                assert(s.skip(1)[i - 1] == s[i]);
            }
        }
        n + 1
    } else {
        assert(s.skip(0) =~= s);
        0
    }
}

proof fn lemma_trim_end_cut(s: Seq<char>) -> (n: int)
    ensures
        0 <= n <= s.len(),
        trim_end(s) == s.take(n),
        forall|i: int| n <= i < s.len() ==> is_white_space(#[trigger] s[i]),
        n > 0 ==> !is_white_space(s[n - 1]),
    decreases s.len(),
{
    if s.len() > 0 && is_white_space(s.last()) {
        let n = lemma_trim_end_cut(s.drop_last());
        assert(s.drop_last().take(n) =~= s.take(n));
        assert forall|i: int| n <= i < s.len() implies is_white_space(#[trigger] s[i]) by {
            if i < s.len() - 1 {
                assert(s.drop_last()[i] == s[i]);
            }
        }
        n
    } else {
        assert(s.take(s.len() as int) =~= s);
        s.len() as int
    }
}

/// The number that a row of decimal digits stands for.
pub open spec fn value_of(digits: Seq<char>) -> int
    decreases digits.len(),
{
    if digits.len() == 0 {
        0
    } else {
        10 * value_of(digits.drop_last()) + (digits.last() as int - '0' as int)
    }
}

/// A number is written in decimal digits that stand for it, without zeros in
/// front, behind what is there already.
pub proof fn numbers_are_written_in_digits(s: &mut String, n: u64)
    requires
        call_ensures(push_decimal, (s, n), ()),
    ensures
        ({
            let written = final(s)@.skip(old(s)@.len() as int);
            &&& final(s)@ == old(s)@ + written
            &&& written.len() >= 1
            &&& value_of(written) == n
            &&& forall|i: int| 0 <= i < written.len() ==> '0' <= #[trigger] written[i] <= '9'
            &&& written.len() > 1 ==> written[0] != '0'
        }),
{
    let written = decimal(n as nat);
    lemma_decimal_digits(n as nat);
    assert(final(s)@.skip(old(s)@.len() as int) =~= written);
}

/// The decimal digits of a number stand for it.
pub proof fn lemma_decimal_digits(n: nat)
    ensures
        decimal(n).len() >= 1,
        value_of(decimal(n)) == n,
        forall|i: int| 0 <= i < decimal(n).len() ==> '0' <= #[trigger] decimal(n)[i] <= '9',
        n > 0 ==> decimal(n)[0] != '0',
        n >= 10 ==> decimal(n).len() > 1,
        n < 10 ==> decimal(n).len() == 1,
    decreases n,
{
    let all = decimal(n);
    if n < 10 {
        assert(all.drop_last() =~= seq![]);
        reveal_with_fuel(value_of, 2);
    } else {
        lemma_decimal_digits(n / 10);
        assert(all.drop_last() =~= decimal(n / 10));
        assert(all.last() == digit(n as int % 10));
        assert(all[0] == decimal(n / 10)[0]);
    }
}

/// A negative number is written as a minus sign and its opposite.
pub proof fn negative_numbers_have_a_sign(
    s: &mut String,
    i: i32,
    plain: &mut String,
    n: u64,
)
    requires
        call_ensures(push_signed, (s, i), ()),
        call_ensures(push_decimal, (plain, n), ()),
        i >= 0 ==> old(plain)@ == old(s)@ && n == i,
        i < 0 ==> old(plain)@ == old(s)@.push('-') && n == -i,
    ensures
        final(s)@ == final(plain)@,
{
    if i < 0 {
        assert(old(s)@.push('-') + decimal(n as nat) =~= old(s)@ + (seq!['-'] + decimal(
            n as nat,
        )));
    }
}

/// A byte is written as two hexadecimal digits, the high one first.
pub proof fn bytes_are_written_in_hexadecimal(s: &mut String, b: u8)
    requires
        call_ensures(push_hex_byte, (s, b), ()),
    ensures
        ({
            let n = old(s)@.len() as int;
            let high = b / 16;
            let low = b % 16;
            &&& final(s)@.len() == n + 2
            &&& final(s)@.take(n) == old(s)@
            &&& high < 10 ==> final(s)@[n] as int == '0' as int + high
            &&& high >= 10 ==> final(s)@[n] as int == 'a' as int + high - 10
            &&& low < 10 ==> final(s)@[n + 1] as int == '0' as int + low
            &&& low >= 10 ==> final(s)@[n + 1] as int == 'a' as int + low - 10
        }),
{
    assert(final(s)@.take(old(s)@.len() as int) =~= old(s)@);
}

/// Texts are equal where they have the same characters.
pub proof fn texts_are_compared_by_character(a: &str, b: &str, r: bool)
    requires
        call_ensures(str_eq, (a, b), r),
    ensures
        r <==> a@.len() == b@.len() && forall|i: int| 0 <= i < a@.len() ==> a@[i] == b@[i],
{
    if a@.len() == b@.len() && forall|i: int| 0 <= i < a@.len() ==> a@[i] == b@[i] {
        assert(a@ =~= b@);
    }
}

/// The first `c` from a place on is found; where there is none, the end is.
pub proof fn characters_are_found(chars: &[char], from: usize, c: char, r: usize)
    requires
        call_ensures(find_char, (chars, from, c), r),
        from <= chars@.len(),
    ensures
        from <= r <= chars@.len(),
        r < chars@.len() ==> chars@[r as int] == c,
        forall|k: int| from <= k < r ==> chars@[k] != c,
{
}

/// A prefix is found at a place where its characters stand there one by one.
pub proof fn prefixes_stand_there(chars: &[char], from: usize, prefix: &[char], r: bool)
    requires
        call_ensures(starts_with_at, (chars, from, prefix), r),
        from <= chars@.len(),
    ensures
        r == (from + prefix@.len() <= chars@.len() && forall|k: int|
            0 <= k < prefix@.len() ==> chars@[from + k] == #[trigger] prefix@[k]),
{
    let rest = chars@.skip(from as int);
    if prefix@.is_prefix_of(rest) {
        assert forall|k: int| 0 <= k < prefix@.len() implies chars@[from + k]
            == #[trigger] prefix@[k] by {
            assert(rest[k] == chars@[from + k]);
            assert(rest.take(prefix@.len() as int)[k] == prefix@[k]);
        }
    }
    if from + prefix@.len() <= chars@.len() && forall|k: int|
        0 <= k < prefix@.len() ==> chars@[from + k] == #[trigger] prefix@[k] {
        assert(rest.take(prefix@.len() as int) =~= prefix@);
    }
}

/// The first place where a text stands is found; where it stands nowhere, the end
/// is.
pub proof fn texts_are_found(chars: &[char], pat: &[char], r: usize, k: int)
    requires
        call_ensures(find_text, (chars, pat), r),
        0 <= k < r,
    ensures
        r <= chars@.len(),
        r < chars@.len() ==> pat@ == chars@.subrange(r as int, r + pat@.len()),
        !(k + pat@.len() <= chars@.len() && chars@.subrange(k, k + pat@.len()) == pat@),
{
    lemma_before_text_cut(chars@, pat@);
    let n = before_text(chars@, pat@).len() as int;
    assert(n == r);
    if r < chars@.len() {
        assert(pat@ =~= chars@.subrange(r as int, r + pat@.len()));
    }
    assert(!pat@.is_prefix_of(chars@.skip(k)));
    if k + pat@.len() <= chars@.len() && chars@.subrange(k, k + pat@.len()) == pat@ {
        assert(chars@.skip(k).take(pat@.len() as int) =~= pat@);
    }
}

/// The bounds leave out the white space in front and behind and nothing else: what
/// stands between them begins and ends with something visible, or is empty.
pub proof fn only_white_space_is_trimmed(
    chars: &[char],
    end: usize,
    r: (usize, usize),
    i: int,
    white: bool,
)
    requires
        call_ensures(trim_bounds, (chars, end), r),
        end <= chars@.len(),
        0 <= i < end,
        call_ensures(white_space, (chars@[i],), white),
    ensures
        r.0 <= r.1 <= end,
        r.0 < r.1 && (i < r.0 || i >= r.1) ==> white,
        r.0 < r.1 && (i == r.0 || i == r.1 - 1) ==> !white,
        r.0 == r.1 ==> white,
{
    let s = chars@.take(end as int);
    let cut = lemma_trimmed_cut(s);
    let kept = chars@.subrange(r.0 as int, r.1 as int);
    assert(s[i] == chars@[i]);
    let cut_out = s.subrange(cut.0, cut.1);
    assert(kept == cut_out);
    assert(kept.len() == cut.1 - cut.0);
    if r.0 < r.1 {
        assert(kept[0] == s[r.0 as int] && cut_out[0] == s[cut.0]);
        assert(kept[kept.len() - 1] == s[r.1 - 1] && cut_out[kept.len() - 1] == s[cut.1 - 1]);
        assert(r.0 == cut.0 && r.1 == cut.1);
    }
}

/// White space is the tab and the line ends, the spaces of ASCII and Unicode, and
/// nothing visible: no letter, digit or mark of ASCII.
pub proof fn visible_characters_are_no_space(c: char, r: bool)
    requires
        call_ensures(white_space, (c,), r),
    ensures
        (c as u32) < 128 ==> r == (c as u32 == 32 || 9 <= c as u32 <= 13),
        128 <= c as u32 && r ==> c as u32 == 0x85 || c as u32 == 0xa0 || c as u32 == 0x1680
            || 0x2000 <= c as u32 <= 0x200a || c as u32 == 0x2028 || c as u32 == 0x2029 || c as u32
            == 0x202f || c as u32 == 0x205f || c as u32 == 0x3000,
{
}

} // verus!
